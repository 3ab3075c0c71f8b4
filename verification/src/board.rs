//! The board: eight rows of eight cells.
//!
//! Row index 0 is rank 1 (white's back rank); cell index 0 is file `a`.
use vstd::prelude::*;
use vstd::string::StringExecFns;
use crate::common::{canonical, lemma_made, Bishop, Colors, Empty, King, Knight, Pawn, Pieces, Queen, Rook};
use crate::text::push_char;

verus! {

broadcast use vstd::string::group_string_axioms;

/// One square of the board.
#[derive(Clone, Copy, Debug, PartialEq, Eq, Structural)]
pub struct Cell {
    pub locator: Pieces,
}

/// A rank of eight cells, file `a` to file `h`.
#[derive(Clone, Copy, Debug, PartialEq, Eq, Structural)]
pub struct Row {
    a: Cell,
    b: Cell,
    c: Cell,
    d: Cell,
    e: Cell,
    f: Cell,
    g: Cell,
    h: Cell,
}

/// Eight ranks, rank 1 to rank 8.
#[derive(Clone, Copy, Debug, PartialEq, Eq, Structural)]
pub struct Board {
    a: Row,
    b: Row,
    c: Row,
    d: Row,
    e: Row,
    f: Row,
    g: Row,
    h: Row,
}

impl View for Row {
    type V = Seq<Pieces>;

    /// The pieces of the row, file `a` first.
    closed spec fn view(&self) -> Seq<Pieces> {
        seq![
            self.a.locator,
            self.b.locator,
            self.c.locator,
            self.d.locator,
            self.e.locator,
            self.f.locator,
            self.g.locator,
            self.h.locator,
        ]
    }
}

impl View for Board {
    type V = Seq<Seq<Pieces>>;

    /// The rows of the board, rank 1 first.
    closed spec fn view(&self) -> Seq<Seq<Pieces>> {
        seq![self.a@, self.b@, self.c@, self.d@, self.e@, self.f@, self.g@, self.h@]
    }
}

/// An 8 by 8 grid.
pub open spec fn is_grid(b: Seq<Seq<Pieces>>) -> bool {
    b.len() == 8 && forall|i: int| 0 <= i < 8 ==> #[trigger] b[i].len() == 8
}

/// Every square of `b` holds a piece as the constructors make it.
pub open spec fn canonical_board(b: Seq<Seq<Pieces>>) -> bool {
    is_grid(b) && forall|r: int, c: int| 0 <= r < 8 && 0 <= c < 8 ==> canonical(#[trigger] b[r][c])
}

/// The starting position is made of canonical pieces.
pub proof fn lemma_initial_canonical()
    ensures
        canonical_board(initial_board()),
{
    lemma_made(Colors::White);
    lemma_made(Colors::Black);
    let b = initial_board();
    assert forall|r: int, c: int| 0 <= r < 8 && 0 <= c < 8 implies canonical(#[trigger] b[r][c]) by {
        if r == 0 || r == 7 {
            assert(c == 0 || c == 1 || c == 2 || c == 3 || c == 4 || c == 5 || c == 6 || c == 7);
        }
    }
}

/// The row made of `p` eight times.
pub open spec fn row_of(p: Pieces) -> Seq<Pieces> {
    Seq::new(8, |i: int| p)
}

/// The back rank of colour `c`: rook, knight, bishop, queen, king, bishop,
/// knight, rook.
pub open spec fn back_rank(c: Colors) -> Seq<Pieces> {
    seq![
        Rook::made(c),
        Knight::made(c),
        Bishop::made(c),
        Queen::made(c),
        King::made(c),
        Bishop::made(c),
        Knight::made(c),
        Rook::made(c),
    ]
}

/// The starting position: white on ranks 1 and 2, black on ranks 7 and 8.
pub open spec fn initial_board() -> Seq<Seq<Pieces>> {
    seq![
        back_rank(Colors::White),
        row_of(Pawn::made(Colors::White)),
        row_of(Empty::made()),
        row_of(Empty::made()),
        row_of(Empty::made()),
        row_of(Empty::made()),
        row_of(Pawn::made(Colors::Black)),
        back_rank(Colors::Black),
    ]
}

/// The icons of a row, in order.
pub open spec fn row_text(r: Seq<Pieces>) -> Seq<char> {
    Seq::new(r.len(), |i: int| r[i].icon_char())
}

/// The digit character of `k` (for `0 <= k <= 9`).
pub open spec fn digit_char(k: int) -> char {
    (48 + k) as char
}

/// The printed form of the first `k` rows: each row's icons, two blanks,
/// the rank number and a line break.
pub open spec fn rows_text(b: Seq<Seq<Pieces>>, k: nat) -> Seq<char>
    decreases k,
{
    if k == 0 {
        Seq::empty()
    } else {
        rows_text(b, (k - 1) as nat) + row_text(b[k - 1]) + seq![' ', ' ', digit_char(k as int), '\n']
    }
}

/// The printed board: the eight rows, then a blank line and the file
/// letters.
pub open spec fn board_text(b: Seq<Seq<Pieces>>) -> Seq<char> {
    rows_text(b, 8) + seq!['\n', 'a', 'b', 'c', 'd', 'e', 'f', 'g', 'h']
}

impl Row {
    /// The view has eight entries.
    pub proof fn lemma_len(self)
        ensures
            self@.len() == 8,
    {
    }

    fn new(a: Cell, b: Cell, c: Cell, d: Cell, e: Cell, f: Cell, g: Cell, h: Cell) -> (r: Self)
        ensures
            r@ == seq![
                a.locator,
                b.locator,
                c.locator,
                d.locator,
                e.locator,
                f.locator,
                g.locator,
                h.locator,
            ],
    {
        Row { a, b, c, d, e, f, g, h }
    }

    #[allow(non_snake_case)]
    fn newOne(a: Cell) -> (r: Self)
        ensures
            r@ == row_of(a.locator),
    {
        let r = Row { a: a, b: a, c: a, d: a, e: a, f: a, g: a, h: a };
        assert(r@ =~= row_of(a.locator));
        r
    }

    /// The eight cells, file `a` first.
    pub fn as_array(&mut self) -> (r: [Cell; 8])
        ensures
            *final(self) == *old(self),
            forall|i: int| 0 <= i < 8 ==> (#[trigger] r[i]).locator == old(self)@[i],
    {
        [self.a, self.b, self.c, self.d, self.e, self.f, self.g, self.h]
    }

    /// Replaces the row by the given cells.
    pub fn dump_array(&mut self, array: [Cell; 8])
        ensures
            final(self)@ == Seq::new(8, |i: int| array[i].locator),
    {
        *self = Row {
            a: array[0],
            b: array[1],
            c: array[2],
            d: array[3],
            e: array[4],
            f: array[5],
            g: array[6],
            h: array[7],
        };
        assert(self@ =~= Seq::new(8, |i: int| array[i].locator));
    }
}

impl Cell {
    fn empty() -> (c: Self)
        ensures
            c.locator == Empty::made(),
    {
        Cell { locator: Empty::new() }
    }

    fn new(locator: Pieces) -> (c: Self)
        ensures
            c.locator == locator,
    {
        Cell { locator: locator }
    }
}

impl Board {
    /// The view is an 8 by 8 grid.
    pub proof fn lemma_grid(self)
        ensures
            is_grid(self@),
    {
        assert forall|i: int| 0 <= i < 8 implies #[trigger] self@[i].len() == 8 by {
            self@[i];
        }
    }

    fn new() -> (b: Self)
        ensures
            b@ == Seq::new(8, |i: int| row_of(Empty::made())),
    {
        let erow = Row::newOne(Cell::empty());
        let b = Board { a: erow, b: erow, c: erow, d: erow, e: erow, f: erow, g: erow, h: erow };
        assert(b@ =~= Seq::new(8, |i: int| row_of(Empty::made())));
        b
    }

    fn default() -> (b: Self)
        ensures
            b@ == initial_board(),
    {
        let erow = Row::newOne(Cell::empty());
        let white_pawns = Row::newOne(Cell::new(Pawn::new(Colors::White)));
        let black_pawns = Row::newOne(Cell::new(Pawn::new(Colors::Black)));
        let white_row = Row::new(
            Cell::new(Rook::new(Colors::White)),
            Cell::new(Knight::new(Colors::White)),
            Cell::new(Bishop::new(Colors::White)),
            Cell::new(Queen::new(Colors::White)),
            Cell::new(King::new(Colors::White)),
            Cell::new(Bishop::new(Colors::White)),
            Cell::new(Knight::new(Colors::White)),
            Cell::new(Rook::new(Colors::White)),
        );
        let black_row = Row::new(
            Cell::new(Rook::new(Colors::Black)),
            Cell::new(Knight::new(Colors::Black)),
            Cell::new(Bishop::new(Colors::Black)),
            Cell::new(Queen::new(Colors::Black)),
            Cell::new(King::new(Colors::Black)),
            Cell::new(Bishop::new(Colors::Black)),
            Cell::new(Knight::new(Colors::Black)),
            Cell::new(Rook::new(Colors::Black)),
        );
        let b = Board {
            a: white_row,
            b: white_pawns,
            c: erow,
            d: erow,
            e: erow,
            f: erow,
            g: black_pawns,
            h: black_row,
        };
        assert(b@ =~= initial_board());
        b
    }

    /// The board as text: for each rank from 1 to 8 a line with the icons of
    /// its squares, two blanks and the rank number, then a blank line and
    /// the file letters `abcdefgh`.
    pub fn show(&mut self) -> (res: String)
        ensures
            *final(self) == *old(self),
            res@ == board_text(old(self)@),
    {
        let ghost b = self@;
        proof {
            self.lemma_grid();
        }
        let mut res = String::new();
        let rows = self.as_array();
        let mut r_index: usize = 0;
        while r_index < 8
            invariant
                0 <= r_index <= 8,
                is_grid(b),
                forall|i: int| 0 <= i < 8 ==> (#[trigger] rows[i])@ == b[i],
                res@ == rows_text(b, r_index as nat),
            decreases 8 - r_index,
        {
            let mut row = rows[r_index];
            let cells = row.as_array();
            let ghost before = res@;
            let mut c_index: usize = 0;
            while c_index < 8
                invariant
                    0 <= c_index <= 8,
                    0 <= r_index < 8,
                    is_grid(b),
                    forall|i: int| 0 <= i < 8 ==> (#[trigger] cells[i]).locator == b[r_index as int][i],
                    res@ == before + row_text(b[r_index as int]).take(c_index as int),
                decreases 8 - c_index,
            {
                let mut piece = cells[c_index].locator;
                let icon = piece.getIcon();
                res.append(icon.as_str());
                assert(row_text(b[r_index as int]).take(c_index + 1) =~= row_text(
                    b[r_index as int],
                ).take(c_index as int).push(b[r_index as int][c_index as int].icon_char()));
                c_index = c_index + 1;
            }
            assert(row_text(b[r_index as int]).take(8) =~= row_text(b[r_index as int]));
            push_char(&mut res, ' ');
            push_char(&mut res, ' ');
            let digit = ((r_index + 49) as u8) as char;
            assert(digit == digit_char(r_index + 1));
            push_char(&mut res, digit);
            push_char(&mut res, '\n');
            r_index = r_index + 1;
            assert(res@ =~= rows_text(b, r_index as nat));
        }
        push_char(&mut res, '\n');
        res.append("abcdefgh");
        proof {
            reveal_strlit("abcdefgh");
        }
        assert(res@ =~= board_text(b));
        res
    }

    /// The eight rows, rank 1 first.
    pub fn as_array(&mut self) -> (r: [Row; 8])
        ensures
            *final(self) == *old(self),
            forall|i: int| 0 <= i < 8 ==> (#[trigger] r[i])@ == old(self)@[i],
    {
        [self.a, self.b, self.c, self.d, self.e, self.f, self.g, self.h]
    }

    /// Replaces the board by the given rows.
    pub fn dump_array(&mut self, array: [Row; 8])
        ensures
            final(self)@ == Seq::new(8, |i: int| array[i]@),
    {
        *self = Board {
            a: array[0],
            b: array[1],
            c: array[2],
            d: array[3],
            e: array[4],
            f: array[5],
            g: array[6],
            h: array[7],
        };
        assert(self@ =~= Seq::new(8, |i: int| array[i]@));
    }
}

/// The board in its starting position.
pub fn build() -> (board: Board)
    ensures
        board@ == initial_board(),
{
    let board = Board::default();
    board
}

/// The first `k` printed rows: twelve characters per row, the row's eight
/// icons, two blanks, its rank number and a line break.
proof fn lemma_rows_layout(b: Seq<Seq<Pieces>>, k: nat)
    requires
        is_grid(b),
        k <= 8,
    ensures
        rows_text(b, k).len() == 12 * k,
        forall|r: int, c: int|
            0 <= r < k && 0 <= c < 8 ==> #[trigger] rows_text(b, k)[12 * r + c] == b[r][c].icon_char(),
        forall|r: int|
            0 <= r < k ==> {
                &&& #[trigger] rows_text(b, k)[12 * r + 8] == ' '
                &&& rows_text(b, k)[12 * r + 9] == ' '
                &&& rows_text(b, k)[12 * r + 10] == digit_char(r + 1)
                &&& rows_text(b, k)[12 * r + 11] == '\n'
            },
    decreases k,
{
    if k > 0 {
        lemma_rows_layout(b, (k - 1) as nat);
        let prev = rows_text(b, (k - 1) as nat);
        let t = rows_text(b, k);
        assert(b[k - 1].len() == 8);
        assert forall|r: int, c: int| 0 <= r < k && 0 <= c < 8 implies #[trigger] t[12 * r + c]
            == b[r][c].icon_char() by {
            if r < k - 1 {
                assert(t[12 * r + c] == prev[12 * r + c]);
            }
        }
        assert forall|r: int| 0 <= r < k implies {
            &&& #[trigger] t[12 * r + 8] == ' '
            &&& t[12 * r + 9] == ' '
            &&& t[12 * r + 10] == digit_char(r + 1)
            &&& t[12 * r + 11] == '\n'
        } by {
            if r < k - 1 {
                assert(t[12 * r + 8] == prev[12 * r + 8]);
                assert(t[12 * r + 9] == prev[12 * r + 9]);
                assert(t[12 * r + 10] == prev[12 * r + 10]);
                assert(t[12 * r + 11] == prev[12 * r + 11]);
            }
        }
    }
}

/// The printed board, row by row from the first rank: each row holds the
/// icons of its squares from file `a` to file `h`, two blanks and its rank
/// number; a blank line and the file letters `a`..`h` close it.
pub proof fn lemma_board_layout(b: Seq<Seq<Pieces>>)
    requires
        is_grid(b),
    ensures
        board_text(b).len() == 105,
        forall|r: int, c: int|
            0 <= r < 8 && 0 <= c < 8 ==> #[trigger] board_text(b)[12 * r + c] == b[r][c].icon_char(),
        forall|r: int|
            0 <= r < 8 ==> #[trigger] board_text(b)[12 * r + 10] == digit_char(r + 1) && board_text(
                b,
            )[12 * r + 11] == '\n',
        board_text(b).subrange(96, 105) == seq!['\n', 'a', 'b', 'c', 'd', 'e', 'f', 'g', 'h'],
{
    lemma_rows_layout(b, 8);
    let t = board_text(b);
    let rt = rows_text(b, 8);
    assert forall|r: int, c: int| 0 <= r < 8 && 0 <= c < 8 implies #[trigger] t[12 * r + c]
        == b[r][c].icon_char() by {
        assert(t[12 * r + c] == rt[12 * r + c]);
    }
    assert forall|r: int| 0 <= r < 8 implies #[trigger] t[12 * r + 10] == digit_char(r + 1) && t[12 * r
        + 11] == '\n' by {
        assert(t[12 * r + 10] == rt[12 * r + 10]);
        assert(t[12 * r + 11] == rt[12 * r + 11]);
        assert(rt[12 * r + 8] == ' ');
    }
    assert(t.subrange(96, 105) =~= seq!['\n', 'a', 'b', 'c', 'd', 'e', 'f', 'g', 'h']);
}

} // verus!
