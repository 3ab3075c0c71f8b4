//! The game controller: judges and plays moves written as two squares
//! separated by a blank (`e2 e4`).
use vstd::prelude::*;
use vstd::string::{StrSliceExecFns, StringExecFns};
use crate::board::{canonical_board, is_grid, Board, Cell};
use crate::common::{canonical, lemma_made, Colors, column, last_move_readable, movestate, pawn_reads_last_move, piece_rule, rank, Empty, Pieces};
use crate::text::{digit_value, is_digit, lower_code, lower_code_of, split_by, split_on};

verus! {

broadcast use vstd::string::group_string_axioms;

/// The game: the board and the last move played.
pub struct Controller {
    pub board: Board,
    /// The last move: the moved piece's icon, its origin and its destination.
    pub lmove: Vec<String>,
}

/// `c` names a file of the board (`a`..`h` once lower-cased).
pub open spec fn is_file(c: char) -> bool {
    97 <= lower_code_of(c) <= 104
}

/// `c` names a rank of the board (`1`..`8`).
pub open spec fn is_rank(c: char) -> bool {
    49 <= (c as u32) && (c as u32) <= 56
}

/// A token that starts with a square of the board; what follows the first
/// two characters is ignored.
pub open spec fn on_board(t: Seq<char>) -> bool {
    t.len() >= 2 && is_file(t[0]) && is_rank(t[1])
}

/// A token the path scan can read: a character at least `a` once
/// lower-cased, then a decimal digit.  Its square may lie off the board.
pub open spec fn scan_readable(t: Seq<char>) -> bool {
    t.len() >= 2 && lower_code_of(t[0]) >= 97 && is_digit(t[1])
}

/// The blank-separated tokens of a move.
pub open spec fn move_tokens(code: Seq<char>) -> Seq<Seq<char>> {
    split_by(code, seq![' '])
}

/// A move whose first two tokens start with squares of the board.
pub open spec fn move_code_ok(code: Seq<char>) -> bool {
    let t = move_tokens(code);
    t.len() >= 2 && on_board(t[0]) && on_board(t[1])
}

/// The piece on the square named by `t`.
pub open spec fn square(b: Seq<Seq<Pieces>>, t: Seq<char>) -> Pieces {
    b[rank(t) - 1][column(t) - 1]
}

/// `b` with `p` put at row `r`, column `c`.
pub open spec fn put(b: Seq<Seq<Pieces>>, r: int, c: int, p: Pieces) -> Seq<Seq<Pieces>> {
    b.update(r, b[r].update(c, p))
}

/// The smaller of two integers.
pub open spec fn min_int(x: int, y: int) -> int {
    if x <= y {
        x
    } else {
        y
    }
}

/// The larger of two integers.
pub open spec fn max_int(x: int, y: int) -> int {
    if x <= y {
        y
    } else {
        x
    }
}

/// Some square of the board strictly between `o` and `n` is occupied,
/// where the two share a rank or a file; squares on neither line never
/// block.  The origin is a square of the board; the destination may lie
/// beyond it, and only the squares of the board on the way are looked at.
pub open spec fn path_blocked(b: Seq<Seq<Pieces>>, o: Seq<char>, n: Seq<char>) -> bool {
    let sr = rank(o);
    let nr = rank(n);
    let sc = column(o) - 1;
    let nc = column(n) - 1;
    if sr == nr {
        exists|c: int|
            min_int(sc, nc) < c < max_int(sc, nc) && c < 8 && !(#[trigger] b[nr - 1][c] is Empty)
    } else if sc == nc {
        exists|r: int|
            min_int(sr, nr) < r < max_int(sr, nr) && r <= 8 && !(#[trigger] b[r - 1][nc] is Empty)
    } else {
        false
    }
}

/// The scan along a rank can be made: it runs off the board only toward a
/// destination two or more files past the last one, and only where no
/// piece stands between the origin and the edge.
pub open spec fn scan_defined(b: Seq<Seq<Pieces>>, o: Seq<char>, n: Seq<char>) -> bool {
    !(rank(o) == rank(n) && column(n) - 1 >= 9 && !path_blocked(b, o, n))
}

/// Both squares lie on the same diagonal.
pub open spec fn same_diagonal(o: Seq<char>, n: Seq<char>) -> bool {
    let sc = lower_code_of(o[0]) - 97;
    let nc = lower_code_of(n[0]) - 97;
    rank(o) + sc == rank(n) + nc || rank(o) - sc == rank(n) - nc
}

/// The verdict on `code` in position `b` after the move `lmove`: a pawn or
/// rook whose path is blocked may not move; otherwise the rule of the moving
/// piece decides.
pub open spec fn move_verdict(b: Seq<Seq<Pieces>>, code: Seq<char>, lmove: Seq<Seq<char>>) -> movestate {
    let t = move_tokens(code);
    let piece = square(b, t[0]);
    if (piece is Pawn || piece is Rook) && path_blocked(b, t[0], t[1]) {
        movestate::Illegal
    } else {
        piece_rule(piece, t[0], t[1], square(b, t[1]), lmove)
    }
}

/// Judging `code` reads the last move: an unblocked pawn steps onto an
/// empty square in a neighbouring column.
pub open spec fn reads_last_move(b: Seq<Seq<Pieces>>, code: Seq<char>) -> bool {
    let t = move_tokens(code);
    let piece = square(b, t[0]);
    &&& piece is Pawn
    &&& !path_blocked(b, t[0], t[1])
    &&& pawn_reads_last_move(t[0], t[1], square(b, t[1]))
}

/// The moves the controller can read in position `b`: the origin is a
/// square of the board; the destination is one too, except for a pawn or
/// rook whose path is blocked, whose destination need only be readable by
/// the path scan (and the scan must not run off the board).
pub open spec fn move_readable(b: Seq<Seq<Pieces>>, code: Seq<char>) -> bool {
    let t = move_tokens(code);
    let piece = square(b, t[0]);
    &&& t.len() >= 2
    &&& on_board(t[0])
    &&& if piece is Pawn || piece is Rook {
        &&& scan_readable(t[1])
        &&& scan_defined(b, t[0], t[1])
        &&& !path_blocked(b, t[0], t[1]) ==> on_board(t[1])
    } else {
        on_board(t[1])
    }
}

/// What `code` may be given in the controller's state: a readable move, and
/// a readable last move where the verdict depends on it.
pub open spec fn move_allowed(b: Seq<Seq<Pieces>>, lmove: Seq<Seq<char>>, code: Seq<char>) -> bool {
    move_readable(b, code) && (reads_last_move(b, code) ==> last_move_readable(lmove))
}

/// A last move made of two squares of the board, as every move played and
/// the placeholder of a new game are.
pub open spec fn last_move_on_board(l: Seq<Seq<char>>) -> bool {
    l.len() == 3 && on_board(l[1]) && on_board(l[2])
}

/// The position after a legal move: the origin is emptied and the moving
/// piece stands on the destination.
pub open spec fn board_after_legal(b: Seq<Seq<Pieces>>, code: Seq<char>) -> Seq<Seq<Pieces>> {
    let t = move_tokens(code);
    let piece = square(b, t[0]);
    put(put(b, rank(t[0]) - 1, column(t[0]) - 1, Empty::made()), rank(t[1]) - 1, column(t[1]) - 1, piece)
}

/// The position after an en-passant capture.  Along a rank nothing moves;
/// otherwise the origin and the square beside it in the destination column
/// are emptied and the pawn stands on the destination.
pub open spec fn board_after_en_passant(b: Seq<Seq<Pieces>>, code: Seq<char>) -> Seq<Seq<Pieces>> {
    let t = move_tokens(code);
    let piece = square(b, t[0]);
    let orow = rank(t[0]) - 1;
    if rank(t[0]) == rank(t[1]) {
        b
    } else {
        put(
            put(put(b, orow, column(t[0]) - 1, Empty::made()), orow, column(t[1]) - 1, Empty::made()),
            rank(t[1]) - 1,
            column(t[1]) - 1,
            piece,
        )
    }
}

/// The record of a played move: the moving piece's icon and the two tokens.
pub open spec fn move_record(b: Seq<Seq<Pieces>>, code: Seq<char>) -> Seq<Seq<char>> {
    let t = move_tokens(code);
    seq![seq![square(b, t[0]).icon_char()], t[0], t[1]]
}

/// The position after playing `code`.
pub open spec fn board_after(b: Seq<Seq<Pieces>>, l: Seq<Seq<char>>, code: Seq<char>) -> Seq<Seq<Pieces>> {
    match move_verdict(b, code, l) {
        movestate::Legal => board_after_legal(b, code),
        movestate::EnPassant => board_after_en_passant(b, code),
        movestate::Illegal => b,
    }
}

/// The last move after playing `code`.
pub open spec fn last_after(b: Seq<Seq<Pieces>>, l: Seq<Seq<char>>, code: Seq<char>) -> Seq<Seq<char>> {
    if move_verdict(b, code, l) == movestate::Illegal {
        l
    } else {
        move_record(b, code)
    }
}

/// Whether a token starts with a square the path scan can read.
fn scan_token(t: &str) -> (r: bool)
    ensures
        r == scan_readable(t@),
{
    if t.unicode_len() < 2 {
        return false;
    }
    let f = t.get_char(0);
    let d = t.get_char(1);
    lower_code(f) >= 97 && 48 <= (d as u32) && (d as u32) <= 57
}

/// Whether a token starts with a square of the board.
fn board_token(t: &str) -> (r: bool)
    ensures
        r == on_board(t@),
{
    if t.unicode_len() < 2 {
        return false;
    }
    let f = t.get_char(0);
    let d = t.get_char(1);
    let l = lower_code(f);
    97 <= l && l <= 104 && 49 <= (d as u32) && (d as u32) <= 56
}

/// Row and column indices of the square a token starts with.
fn square_index(t: &str) -> (r: (usize, usize))
    requires
        on_board(t@),
    ensures
        r.0 == rank(t@) - 1,
        r.1 == column(t@) - 1,
        r.0 < 8,
        r.1 < 8,
{
    let f = t.get_char(0);
    let d = t.get_char(1);
    let col = lower_code(f) - 97;
    let row = digit_value(d) - 1;
    (row as usize, col as usize)
}

/// Whether some cell of `cells` right of column `col` is occupied.
fn occupied_after(cells: &[Cell; 8], col: usize) -> (r: bool)
    requires
        col < 8,
    ensures
        r == exists|c: int| col < c < 8 && !((#[trigger] cells[c]).locator is Empty),
{
    let mut i = col + 1;
    while i < 8
        invariant
            col < i <= 8,
            forall|c: int| col < c < i ==> ((#[trigger] cells[c]).locator is Empty),
        decreases 8 - i,
    {
        let occupied = match cells[i].locator {
            Pieces::Empty(_) => false,
            _ => true,
        };
        if occupied {
            assert(!(cells[i as int].locator is Empty));
            return true;
        }
        i = i + 1;
    }
    false
}

impl Controller {
    /// A game on `board`, with a placeholder last move.
    pub fn new(board: Board) -> (c: Self)
        ensures
            c.board == board,
            c.lmove.deep_view() == seq![seq!['e'], seq!['a', '4'], seq!['c', '4']],
            last_move_on_board(c.lmove.deep_view()),
            last_move_readable(c.lmove.deep_view()),
    {
        let mut lmove: Vec<String> = Vec::new();
        lmove.push(String::from_str("e"));
        lmove.push(String::from_str("a4"));
        lmove.push(String::from_str("c4"));
        proof {
            reveal_strlit("e");
            reveal_strlit("a4");
            reveal_strlit("c4");
            assert(lmove@[0]@ =~= seq!['e']);
            assert(lmove@[1]@ =~= seq!['a', '4']);
            assert(lmove@[2]@ =~= seq!['c', '4']);
            assert(lmove.deep_view() =~= seq![seq!['e'], seq!['a', '4'], seq!['c', '4']]);
        }
        Controller { board, lmove }
    }

    /// Judges the move `code` without playing it.
    pub fn chk_move(&mut self, code: String) -> (r: movestate)
        requires
            move_allowed(old(self).board@, old(self).lmove.deep_view(), code@),
        ensures
            final(self).board == old(self).board,
            final(self).lmove == old(self).lmove,
            r == move_verdict(old(self).board@, code@, old(self).lmove.deep_view()),
    {
        proof {
            reveal_strlit(" ");
            self.board.lemma_grid();
        }
        let moves = split_on(code.as_str(), " ");
        let ghost t = move_tokens(code@);
        assert(" "@ =~= seq![' ']);
        assert(moves.deep_view() == t);
        assert(moves@.len() == t.len());
        assert(moves@[0]@ == moves.deep_view()[0]);
        assert(moves@[1]@ == moves.deep_view()[1]);
        let (orow, ocol) = square_index(moves[0]);
        let rows = self.board.as_array();
        let mut o_row = rows[orow];
        let o_cells = o_row.as_array();
        let o_cell = o_cells[ocol];
        let blocked = match o_cell.locator {
            Pieces::Pawn(_) => self.linear_hitscan(crate::text::chars_of(moves[0]), crate::text::chars_of(moves[1])),
            Pieces::Rook(_) => self.linear_hitscan(crate::text::chars_of(moves[0]), crate::text::chars_of(moves[1])),
            _ => false,
        };
        if blocked {
            return movestate::Illegal;
        }
        assert(on_board(t[1]));
        let (nrow, ncol) = square_index(moves[1]);
        let mut n_row = rows[nrow];
        let n_cells = n_row.as_array();
        let n_cell = n_cells[ncol];
        let mut piece = o_cell.locator;
        let lmove = self.lmove.clone();
        assert(lmove.deep_view() =~= self.lmove.deep_view());
        piece.check_move(moves, n_cell.locator, lmove)
    }

    /// Plays the move `code`: a legal move takes the piece from the origin to
    /// the destination, an en-passant capture also removes the captured
    /// pawn, and either records the move as the last move; an illegal move
    /// changes nothing.  Always returns `true`.
    pub fn mk_move(&mut self, code: String) -> (r: bool)
        requires
            move_allowed(old(self).board@, old(self).lmove.deep_view(), code@),
        ensures
            r,
            final(self).board@ == board_after(old(self).board@, old(self).lmove.deep_view(), code@),
            final(self).lmove.deep_view() == last_after(old(self).board@, old(self).lmove.deep_view(), code@),
            last_move_on_board(old(self).lmove.deep_view()) ==> last_move_on_board(
                final(self).lmove.deep_view(),
            ),
            ({
                let b = old(self).board@;
                let v = move_verdict(b, code@, old(self).lmove.deep_view());
                &&& v == movestate::Illegal ==> *final(self) == *old(self)
                &&& v == movestate::Legal ==> final(self).board@ == board_after_legal(b, code@)
                    && final(self).lmove.deep_view() == move_record(b, code@)
                &&& v == movestate::EnPassant ==> final(self).board@ == board_after_en_passant(
                    b,
                    code@,
                ) && final(self).lmove.deep_view() == move_record(b, code@)
            }),
    {
        let ghost b = self.board@;
        let ghost t = move_tokens(code@);
        proof {
            reveal_strlit(" ");
            self.board.lemma_grid();
        }
        let verdict = self.chk_move(code.clone());
        if verdict != movestate::Illegal {
            proof {
                lemma_played_move_on_board(b, old(self).lmove.deep_view(), code@);
            }
        }
        proof {
            if last_move_on_board(old(self).lmove.deep_view()) {
                lemma_played_move_keeps_judging(b, old(self).lmove.deep_view(), code@, code@);
            }
        }
        match verdict {
            movestate::Legal => {
                let moves = split_on(code.as_str(), " ");
                assert(" "@ =~= seq![' ']);
                assert(moves.deep_view() == t);
                assert(moves@.len() == t.len());
                assert(moves@[0]@ == moves.deep_view()[0]);
                assert(moves@[1]@ == moves.deep_view()[1]);
                let (orow, ocol) = square_index(moves[0]);
                let (nrow, ncol) = square_index(moves[1]);
                let mut arn_board = self.board.as_array();
                let mut o_row = arn_board[orow];
                let aro = o_row.as_array();
                let mut o_cell = aro[ocol];
                let piece = o_cell.locator;
                let mut n_cell = o_cell;
                if moves[0].get_char(1) == moves[1].get_char(1) {
                    n_cell = aro[ncol];
                    n_cell.locator = o_cell.locator;
                    o_cell.locator = Empty::new();
                    let mut aro_row = o_row.as_array();
                    aro_row[ocol] = o_cell;
                    aro_row[ncol] = n_cell;
                    o_row.dump_array(aro_row);
                    arn_board[orow] = o_row;
                    assert(orow == nrow);
                    assert(o_row@ =~= b[orow as int].update(ocol as int, Empty::made()).update(
                        ncol as int,
                        piece,
                    ));
                } else {
                    let mut n_row = arn_board[nrow];
                    let arn = n_row.as_array();
                    n_cell = arn[ncol];
                    n_cell.locator = o_cell.locator;
                    o_cell.locator = Empty::new();
                    let mut arn_row = n_row.as_array();
                    let mut aro_row = o_row.as_array();
                    arn_row[ncol] = n_cell;
                    aro_row[ocol] = o_cell;
                    o_row.dump_array(aro_row);
                    n_row.dump_array(arn_row);
                    arn_board[orow] = o_row;
                    arn_board[nrow] = n_row;
                    assert(orow != nrow);
                    assert(o_row@ =~= b[orow as int].update(ocol as int, Empty::made()));
                    assert(n_row@ =~= b[nrow as int].update(ncol as int, piece));
                }
                self.board.dump_array(arn_board);
                assert(self.board@ =~= board_after_legal(b, code@));
                let id = n_cell.locator.getIcon();
                let mut record: Vec<String> = Vec::new();
                record.push(id);
                record.push(String::from_str(moves[0]));
                record.push(String::from_str(moves[1]));
                self.lmove = record;
                assert(self.lmove.deep_view() =~= move_record(b, code@));
            },
            movestate::EnPassant => {
                let moves = split_on(code.as_str(), " ");
                assert(" "@ =~= seq![' ']);
                assert(moves.deep_view() == t);
                assert(moves@.len() == t.len());
                assert(moves@[0]@ == moves.deep_view()[0]);
                assert(moves@[1]@ == moves.deep_view()[1]);
                let (orow, ocol) = square_index(moves[0]);
                let (nrow, ncol) = square_index(moves[1]);
                let rows = self.board.as_array();
                let mut o_row = rows[orow];
                let aro = o_row.as_array();
                let mut o_cell = aro[ocol];
                let piece = o_cell.locator;
                if moves[0].get_char(1) == moves[1].get_char(1) {
                    let mut n_cell = aro[ncol];
                    n_cell.locator = o_cell.locator;
                    let id = n_cell.locator.getIcon();
                    let mut record: Vec<String> = Vec::new();
                    record.push(id);
                    record.push(String::from_str(moves[0]));
                    record.push(String::from_str(moves[1]));
                    self.lmove = record;
                    assert(self.lmove.deep_view() =~= move_record(b, code@));
                } else {
                    let mut n_row = rows[nrow];
                    let arn = n_row.as_array();
                    let mut n_cell = arn[ncol];
                    n_cell.locator = o_cell.locator;
                    o_cell.locator = Empty::new();
                    let id = n_cell.locator.getIcon();
                    let mut record: Vec<String> = Vec::new();
                    record.push(id);
                    record.push(String::from_str(moves[0]));
                    record.push(String::from_str(moves[1]));
                    self.lmove = record;
                    assert(self.lmove.deep_view() =~= move_record(b, code@));
                    let mut arn_board = self.board.as_array();
                    let mut arn_row = n_row.as_array();
                    let mut aro_row = o_row.as_array();
                    let last_to = self.lmove[2].as_str();
                    assert(last_to@ == t[1]);
                    let lnindex = (lower_code(last_to.get_char(0)) - 97) as usize;
                    let lcells = o_row.as_array();
                    let mut ln_cell = lcells[lnindex];
                    ln_cell.locator = Empty::new();
                    aro_row[ocol] = o_cell;
                    aro_row[lnindex] = ln_cell;
                    arn_row[ncol] = n_cell;
                    o_row.dump_array(aro_row);
                    n_row.dump_array(arn_row);
                    arn_board[orow] = o_row;
                    arn_board[nrow] = n_row;
                    assert(o_row@ =~= b[orow as int].update(ocol as int, Empty::made()).update(
                        ncol as int,
                        Empty::made(),
                    ));
                    assert(n_row@ =~= b[nrow as int].update(ncol as int, piece));
                    self.board.dump_array(arn_board);
                    assert(self.board@ =~= board_after_en_passant(b, code@));
                }
            },
            movestate::Illegal => {},
        }
        true
    }

    /// Whether the controller can judge `code`: see [`move_allowed`].
    pub fn can_judge(&mut self, code: &String) -> (r: bool)
        ensures
            *final(self) == *old(self),
            r == move_allowed(old(self).board@, old(self).lmove.deep_view(), code@),
    {
        proof {
            reveal_strlit(" ");
            self.board.lemma_grid();
        }
        let ghost b = self.board@;
        let moves = split_on(code.as_str(), " ");
        let ghost t = move_tokens(code@);
        assert(" "@ =~= seq![' ']);
        assert(moves.deep_view() == t);
        if moves.len() < 2 {
            return false;
        }
        assert(moves@[0]@ == moves.deep_view()[0]);
        assert(moves@[1]@ == moves.deep_view()[1]);
        if !board_token(moves[0]) {
            return false;
        }
        let (orow, ocol) = square_index(moves[0]);
        let rows = self.board.as_array();
        let mut o_row = rows[orow];
        let o_cells = o_row.as_array();
        let (pawn, rook) = match o_cells[ocol].locator {
            Pieces::Pawn(_) => (true, false),
            Pieces::Rook(_) => (false, true),
            _ => (false, false),
        };
        if !pawn && !rook {
            return board_token(moves[1]);
        }
        if !scan_token(moves[1]) {
            return false;
        }
        let n_index = lower_code(moves[1].get_char(0)) - 97;
        if moves[0].get_char(1) == moves[1].get_char(1) && n_index >= 9 {
            let r = occupied_after(&o_cells, ocol);
            proof {
                if r {
                    let c = choose|c: int| ocol < c < 8 && !((#[trigger] o_cells[c]).locator is Empty);
                    assert(!(b[rank(t[1]) - 1][c] is Empty));
                } else {
                    assert forall|c: int|
                        min_int(column(t[0]) - 1, column(t[1]) - 1) < c < max_int(
                            column(t[0]) - 1,
                            column(t[1]) - 1,
                        ) && c < 8 implies (#[trigger] b[rank(t[1]) - 1][c]) is Empty by {
                        assert(o_cells[c].locator == b[orow as int][c]);
                    }
                }
            }
            return r;
        }
        let blocked = self.linear_hitscan(crate::text::chars_of(moves[0]), crate::text::chars_of(moves[1]));
        if blocked {
            return true;
        }
        if !board_token(moves[1]) {
            return false;
        }
        if !pawn {
            return true;
        }
        let (nrow, ncol) = square_index(moves[1]);
        let mut n_row = rows[nrow];
        let n_cells = n_row.as_array();
        let empty_target = match n_cells[ncol].locator {
            Pieces::Empty(_) => true,
            _ => false,
        };
        if !empty_target || ocol == ncol || (ocol != ncol + 1 && ocol + 1 != ncol) {
            return true;
        }
        let lmove_ok = self.lmove.len() >= 3 && self.lmove[1].as_str().unicode_len() >= 1
            && lower_code(self.lmove[1].as_str().get_char(0)) >= 97 && scan_token(
            self.lmove[2].as_str(),
        );
        proof {
            if self.lmove@.len() >= 3 {
                assert(self.lmove.deep_view()[1] == self.lmove@[1]@);
                assert(self.lmove.deep_view()[2] == self.lmove@[2]@);
            }
        }
        lmove_ok
    }

    /// Whether the two squares lie on one diagonal.
    fn cursive_hitscan(&mut self, start: Vec<char>, end: Vec<char>) -> (r: bool)
        requires
            scan_readable(start@),
            scan_readable(end@),
        ensures
            *final(self) == *old(self),
            r == same_diagonal(start@, end@),
    {
        let s_index = (lower_code(start[0]) - 97) as i32;
        let s_num = digit_value(start[1]);
        let n_index = (lower_code(end[0]) - 97) as i32;
        let n_num = digit_value(end[1]);
        if s_num + s_index == n_num + n_index || s_num - s_index == n_num - n_index {
            return true;
        }
        false
    }

    /// Whether a square of the board strictly between `start` and `end` on
    /// their common rank or file is occupied.
    fn linear_hitscan(&mut self, start: Vec<char>, end: Vec<char>) -> (r: bool)
        requires
            on_board(start@),
            scan_readable(end@),
            scan_defined(old(self).board@, start@, end@),
        ensures
            *final(self) == *old(self),
            r == path_blocked(old(self).board@, start@, end@),
    {
        proof {
            self.board.lemma_grid();
        }
        let ghost b = self.board@;
        let s_index = (lower_code(start[0]) - 97) as i32;
        let s_num = digit_value(start[1]);
        let n_index = (lower_code(end[0]) - 97) as i32;
        let n_num = digit_value(end[1]);
        let rows = self.board.as_array();
        if s_num == n_num {
            let mut cur_row = rows[(n_num - 1) as usize];
            let cells = cur_row.as_array();
            let lo = if s_index > n_index {
                n_index
            } else {
                s_index
            };
            let hi = if s_index > n_index {
                s_index
            } else {
                n_index
            };
            let mut iterator = lo;
            let finishe = hi - 1;
            while iterator < finishe
                invariant
                    is_grid(b),
                    b == old(self).board@,
                    *self == *old(self),
                    s_index == column(start@) - 1,
                    n_index == column(end@) - 1,
                    s_num == rank(start@),
                    n_num == rank(end@),
                    s_num == n_num,
                    0 <= s_index < 8,
                    0 <= lo <= iterator,
                    iterator <= 7,
                    iterator <= hi,
                    finishe == hi - 1,
                    lo == min_int(s_index as int, n_index as int),
                    hi == max_int(s_index as int, n_index as int),
                    1 <= n_num <= 8,
                    scan_defined(b, start@, end@),
                    forall|i: int| 0 <= i < 8 ==> (#[trigger] cells[i]).locator == b[n_num - 1][i],
                    forall|c: int| lo < c <= iterator ==> (#[trigger] b[n_num - 1][c]) is Empty,
                decreases finishe - iterator,
            {
                if iterator >= 7 {
                    assert(!path_blocked(b, start@, end@)) by {
                        assert forall|c: int|
                            min_int(s_index as int, n_index as int) < c < max_int(s_index as int, n_index as int)
                                && c < 8 implies (#[trigger] b[n_num - 1][c]) is Empty by {}
                    }
                }
                iterator = iterator + 1;
                let occupied = match cells[iterator as usize].locator {
                    Pieces::Empty(_) => false,
                    _ => true,
                };
                if occupied {
                    assert(!(b[n_num - 1][iterator as int] is Empty));
                    assert(path_blocked(b, start@, end@));
                    return true;
                }
            }
            assert(!path_blocked(b, start@, end@));
        } else if n_index == s_index {
            let lo = if s_num > n_num {
                n_num
            } else {
                s_num
            };
            let hi = if s_num > n_num {
                s_num
            } else {
                n_num
            };
            let mut iterator = lo;
            let finishe = hi - 1;
            while iterator < finishe
                invariant
                    is_grid(b),
                    b == old(self).board@,
                    *self == *old(self),
                    s_index == column(start@) - 1,
                    n_index == column(end@) - 1,
                    s_num == rank(start@),
                    n_num == rank(end@),
                    s_num != n_num,
                    s_index == n_index,
                    0 <= lo <= iterator,
                    iterator <= hi,
                    hi <= 9,
                    finishe == hi - 1,
                    lo == min_int(s_num as int, n_num as int),
                    hi == max_int(s_num as int, n_num as int),
                    0 <= n_index < 8,
                    forall|i: int| 0 <= i < 8 ==> (#[trigger] rows[i])@ == b[i],
                    forall|r: int| lo < r <= iterator ==> (#[trigger] b[r - 1][n_index as int]) is Empty,
                decreases finishe - iterator,
            {
                let mut row = rows[iterator as usize];
                let cells = row.as_array();
                let occupied = match cells[n_index as usize].locator {
                    Pieces::Empty(_) => false,
                    _ => true,
                };
                if occupied {
                    assert(!(b[iterator + 1 - 1][n_index as int] is Empty));
                    assert(path_blocked(b, start@, end@));
                    return true;
                }
                iterator = iterator + 1;
            }
            assert(!path_blocked(b, start@, end@));
        }
        false
    }
}

} // verus!

verus! {

/// A move the controller plays (one it can judge) ends on a square of
/// the board unless it is illegal.
pub proof fn lemma_played_move_on_board(b: Seq<Seq<Pieces>>, l: Seq<Seq<char>>, code: Seq<char>)
    requires
        move_allowed(b, l, code),
        move_verdict(b, code, l) != movestate::Illegal,
    ensures
        move_code_ok(code),
{
}

/// Playing a move keeps the last move a pair of squares of the board (as
/// [`Controller::new`] makes it), so after any sequence of moves the last
/// move is readable and every move the controller can read in the new
/// position can be judged.
pub proof fn lemma_played_move_keeps_judging(
    b: Seq<Seq<Pieces>>,
    l: Seq<Seq<char>>,
    code: Seq<char>,
    next: Seq<char>,
)
    requires
        move_allowed(b, l, code),
        last_move_on_board(l),
    ensures
        last_move_on_board(last_after(b, l, code)),
        last_move_readable(last_after(b, l, code)),
        move_readable(board_after(b, l, code), next) ==> move_allowed(
            board_after(b, l, code),
            last_after(b, l, code),
            next,
        ),
{
    if move_verdict(b, code, l) != movestate::Illegal {
        lemma_played_move_on_board(b, l, code);
        let t = move_tokens(code);
        let rec = move_record(b, code);
        assert(rec[1] == t[0] && rec[2] == t[1]);
        assert(last_move_on_board(rec));
    }
}

/// A legal move between two different squares leaves the moving piece on
/// the destination, empties the origin and keeps every other square.
pub proof fn lemma_legal_move_effect(b: Seq<Seq<Pieces>>, code: Seq<char>)
    requires
        is_grid(b),
        move_code_ok(code),
        ({
            let t = move_tokens(code);
            rank(t[0]) != rank(t[1]) || column(t[0]) != column(t[1])
        }),
    ensures
        ({
            let t = move_tokens(code);
            let a = board_after_legal(b, code);
            &&& is_grid(a)
            &&& square(a, t[1]) == square(b, t[0])
            &&& square(a, t[0]) == Empty::made()
            &&& forall|r: int, c: int|
                0 <= r < 8 && 0 <= c < 8 && !(r == rank(t[0]) - 1 && c == column(t[0]) - 1) && !(r
                    == rank(t[1]) - 1 && c == column(t[1]) - 1) ==> #[trigger] a[r][c] == b[r][c]
        }),
{
    let a = board_after_legal(b, code);
    assert forall|i: int| 0 <= i < 8 implies #[trigger] a[i].len() == 8 by {
        assert(b[i].len() == 8);
    }
}

/// Pawns and knights never land on a piece of their own colour.
pub proof fn lemma_no_own_capture(
    piece: Pieces,
    o: Seq<char>,
    n: Seq<char>,
    entity: Pieces,
    l: Seq<Seq<char>>,
)
    requires
        piece is Pawn || piece is Knight,
        entity.piece_color() == piece.piece_color(),
    ensures
        piece_rule(piece, o, n, entity, l) == movestate::Illegal,
{
    crate::common::lemma_piece_color(piece);
}

} // verus!

verus! {

/// Playing a move keeps every square holding a piece as the constructors
/// make it.
pub proof fn lemma_moves_keep_canonical(b: Seq<Seq<Pieces>>, l: Seq<Seq<char>>, code: Seq<char>)
    requires
        canonical_board(b),
        move_allowed(b, l, code),
    ensures
        canonical_board(board_after(b, l, code)),
{
    lemma_made(Colors::White);
    if move_verdict(b, code, l) != movestate::Illegal {
        lemma_played_move_on_board(b, l, code);
    }
    let a = board_after(b, l, code);
    let t = move_tokens(code);
    assert(canonical(square(b, t[0])));
    assert forall|i: int| 0 <= i < 8 implies #[trigger] a[i].len() == 8 by {
        assert(b[i].len() == 8);
    }
    assert forall|r: int, c: int| 0 <= r < 8 && 0 <= c < 8 implies canonical(#[trigger] a[r][c]) by {
        assert(b[r].len() == 8);
    }
}

} // verus!

verus! {

/// The verdict on a move: an empty origin cannot move, a pawn or rook whose
/// path is blocked may not move, and otherwise the rule of the moving
/// piece's kind decides on the piece found at the destination.
pub proof fn lemma_verdict_formula(b: Seq<Seq<Pieces>>, l: Seq<Seq<char>>, code: Seq<char>)
    ensures
        ({
            let t = move_tokens(code);
            let o = square(b, t[0]);
            move_verdict(b, code, l) == if o is Empty {
                movestate::Illegal
            } else if (o is Pawn || o is Rook) && path_blocked(b, t[0], t[1]) {
                movestate::Illegal
            } else {
                piece_rule(o, t[0], t[1], square(b, t[1]), l)
            }
        }),
{
}

/// Two tokens that name the same square: both have a file character and a
/// rank character, the file characters have the same lower-case form and
/// the rank characters are the same.
pub open spec fn same_square_text(x: Seq<char>, y: Seq<char>) -> bool {
    &&& x.len() >= 2
    &&& y.len() >= 2
    &&& lower_code_of(x[0]) == lower_code_of(y[0])
    &&& x[1] == y[1]
}

/// File letters are read without regard to case: two moves whose first two
/// tokens name the same squares are judged alike, and the controller can
/// judge either both or neither.
pub proof fn lemma_file_case_ignored(
    b: Seq<Seq<Pieces>>,
    l: Seq<Seq<char>>,
    code1: Seq<char>,
    code2: Seq<char>,
)
    requires
        move_tokens(code1).len() >= 2,
        move_tokens(code2).len() >= 2,
        same_square_text(move_tokens(code1)[0], move_tokens(code2)[0]),
        same_square_text(move_tokens(code1)[1], move_tokens(code2)[1]),
    ensures
        move_verdict(b, code1, l) == move_verdict(b, code2, l),
        move_allowed(b, l, code1) == move_allowed(b, l, code2),
{
}

/// An ASCII capital letter is read as its small letter.
pub proof fn lemma_ascii_capital(c: char)
    requires
        65 <= (c as u32) <= 90,
    ensures
        lower_code_of(c) == lower_code_of(((c as u32) + 32) as char),
        lower_code_of(c) == (c as u32) + 32,
{
}

/// The first character of `y` is the ASCII capital of the small letter
/// that starts `x`, and the second characters agree.
pub open spec fn capitalised_square(x: Seq<char>, y: Seq<char>) -> bool {
    &&& x.len() >= 2
    &&& y.len() >= 2
    &&& 97 <= (x[0] as u32) <= 122
    &&& (y[0] as u32) == (x[0] as u32) - 32
    &&& x[1] == y[1]
}

/// Writing the file letters of a move's two squares as ASCII capitals
/// changes neither the verdict nor whether the move can be judged.
pub proof fn lemma_capital_files(
    b: Seq<Seq<Pieces>>,
    l: Seq<Seq<char>>,
    code1: Seq<char>,
    code2: Seq<char>,
)
    requires
        move_tokens(code1).len() >= 2,
        move_tokens(code2).len() >= 2,
        capitalised_square(move_tokens(code1)[0], move_tokens(code2)[0]),
        capitalised_square(move_tokens(code1)[1], move_tokens(code2)[1]),
    ensures
        move_verdict(b, code1, l) == move_verdict(b, code2, l),
        move_allowed(b, l, code1) == move_allowed(b, l, code2),
{
    lemma_file_case_ignored(b, l, code1, code2);
}

/// An en-passant capture between two ranks leaves the capturing piece on
/// the destination, empties its origin and the square beside it on the
/// origin's rank in the destination's file (where the captured pawn
/// stood), and keeps every other square.
pub proof fn lemma_en_passant_effect(b: Seq<Seq<Pieces>>, code: Seq<char>)
    requires
        is_grid(b),
        move_code_ok(code),
        rank(move_tokens(code)[0]) != rank(move_tokens(code)[1]),
    ensures
        ({
            let t = move_tokens(code);
            let a = board_after_en_passant(b, code);
            let orow = rank(t[0]) - 1;
            &&& is_grid(a)
            &&& square(a, t[1]) == square(b, t[0])
            &&& a[orow][column(t[0]) - 1] == Empty::made()
            &&& a[orow][column(t[1]) - 1] == Empty::made()
            &&& forall|r: int, c: int|
                0 <= r < 8 && 0 <= c < 8 && !(r == orow && c == column(t[0]) - 1) && !(r == orow && c
                    == column(t[1]) - 1) && !(r == rank(t[1]) - 1 && c == column(t[1]) - 1)
                    ==> #[trigger] a[r][c] == b[r][c]
        }),
{
    let a = board_after_en_passant(b, code);
    assert forall|i: int| 0 <= i < 8 implies #[trigger] a[i].len() == 8 by {
        assert(b[i].len() == 8);
    }
}

} // verus!
