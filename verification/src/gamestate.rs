//! The text form in which a hosting game sends its position to the other
//! player: each rank's icons followed by `:`, then `;`, the host's colour,
//! `;`, the colour to move and a final `;`.
use vstd::prelude::*;
use vstd::string::StringExecFns;
use crate::board::{build, canonical_board, is_grid, row_text, Board};
use crate::common::{kind_icon, lemma_canonical_icon, lemma_made, whiten, Bishop, Colors, Empty, King, Knight, Pawn, Pieces, Queen, Rook};
use crate::text::{chars_of, join_with, push_char, same_text, split_by, split_on};

verus! {

broadcast use vstd::string::group_string_axioms;

/// Why a received position could not be read.
#[derive(Clone, Copy, Debug, PartialEq, Eq, Structural)]
pub enum StateError {
    /// The text has no `;` at all (the host refused access).
    NoAccess,
    /// The host's colour is neither `white` nor `black`.
    Player,
    /// A field, a rank or a square is missing.
    Truncated,
    /// The colour to move is neither `white` nor `black`.
    CurrentPlayer,
    /// A square holds a character that names no piece.
    Cell,
}

/// `white` or `black`.
pub open spec fn color_name(c: Colors) -> Seq<char> {
    match c {
        Colors::White => seq!['w', 'h', 'i', 't', 'e'],
        Colors::Black => seq!['b', 'l', 'a', 'c', 'k'],
    }
}

/// The first `k` ranks of the position, each as its icons and a `:`.
pub open spec fn ranks_text(b: Seq<Seq<Pieces>>, k: nat) -> Seq<char>
    decreases k,
{
    if k == 0 {
        Seq::empty()
    } else {
        ranks_text(b, (k - 1) as nat) + row_text(b[k - 1]) + seq![':']
    }
}

/// The text a host sends for position `b`, its own colour `player` and the
/// colour to move `current`.
pub open spec fn state_text(b: Seq<Seq<Pieces>>, player: Colors, current: Colors) -> Seq<char> {
    ranks_text(b, 8) + seq![';'] + color_name(player) + seq![';'] + color_name(current) + seq![';']
}

/// The piece a received character stands for: upper case for white, lower
/// case for black, `T`/`t` for the king, a blank for an empty square.
pub open spec fn decode_cell(c: char) -> Option<Pieces> {
    if c == 'P' {
        Some(Pawn::made(Colors::White))
    } else if c == 'R' {
        Some(Rook::made(Colors::White))
    } else if c == 'K' {
        Some(Knight::made(Colors::White))
    } else if c == 'B' {
        Some(Bishop::made(Colors::White))
    } else if c == 'Q' {
        Some(Queen::made(Colors::White))
    } else if c == 'T' {
        Some(King::made(Colors::White))
    } else if c == 'p' {
        Some(Pawn::made(Colors::Black))
    } else if c == 'r' {
        Some(Rook::made(Colors::Black))
    } else if c == 'k' {
        Some(Knight::made(Colors::Black))
    } else if c == 'b' {
        Some(Bishop::made(Colors::Black))
    } else if c == 'q' {
        Some(Queen::made(Colors::Black))
    } else if c == 't' {
        Some(King::made(Colors::Black))
    } else if c == ' ' {
        Some(Empty::made())
    } else {
        None
    }
}

/// The receiver's own colour, given the host's: the opposite one.
pub open spec fn receiver_color(name: Seq<char>) -> Option<Colors> {
    if name == color_name(Colors::Black) {
        Some(Colors::White)
    } else if name == color_name(Colors::White) {
        Some(Colors::Black)
    } else {
        None
    }
}

/// The colour a name stands for.
pub open spec fn named_color(name: Seq<char>) -> Option<Colors> {
    if name == color_name(Colors::Black) {
        Some(Colors::Black)
    } else if name == color_name(Colors::White) {
        Some(Colors::White)
    } else {
        None
    }
}

/// The `;`-separated fields of a received position.
pub open spec fn state_fields(text: Seq<char>) -> Seq<Seq<char>> {
    split_by(text, seq![';'])
}

/// The `:`-separated ranks of the first field.
pub open spec fn state_ranks(text: Seq<char>) -> Seq<Seq<char>> {
    split_by(state_fields(text)[0], seq![':'])
}

/// Square `k` (rank `k / 8`, file `k % 8`) is present in the received ranks.
pub open spec fn cell_present(rows: Seq<Seq<char>>, k: int) -> bool {
    k / 8 < rows.len() && k % 8 < rows[k / 8].len()
}

/// The first problem met reading squares `k`..64 in rank order.
pub open spec fn first_bad(rows: Seq<Seq<char>>, k: nat) -> Option<StateError>
    decreases 64 - k,
{
    if k >= 64 {
        None
    } else if !cell_present(rows, k as int) {
        Some(StateError::Truncated)
    } else if decode_cell(rows[k as int / 8][k as int % 8]) is None {
        Some(StateError::Cell)
    } else {
        first_bad(rows, k + 1)
    }
}

/// The position the received ranks describe.
pub open spec fn decoded_board(rows: Seq<Seq<char>>) -> Seq<Seq<Pieces>> {
    Seq::new(8, |r: int| Seq::new(8, |c: int| decode_cell(rows[r][c])->0))
}

/// What a received position text says: the receiver's colour, the colour
/// to move and the position, or why it cannot be read (the first problem
/// in field order, then in rank order).
pub open spec fn decode_state(text: Seq<char>) -> Result<(Colors, Colors, Seq<Seq<Pieces>>), StateError> {
    let f = state_fields(text);
    if f.len() <= 1 {
        Err(StateError::NoAccess)
    } else if receiver_color(f[1]) is None {
        Err(StateError::Player)
    } else if f.len() < 3 {
        Err(StateError::Truncated)
    } else if named_color(f[2]) is None {
        Err(StateError::CurrentPlayer)
    } else {
        match first_bad(state_ranks(text), 0) {
            Some(e) => Err(e),
            None => Ok((receiver_color(f[1])->0, named_color(f[2])->0, decoded_board(state_ranks(text)))),
        }
    }
}

/// Appends a colour's name.
fn push_color_name(s: &mut String, c: Colors)
    ensures
        final(s)@ == old(s)@ + color_name(c),
{
    match c {
        Colors::White => {
            s.append("white");
            proof {
                reveal_strlit("white");
            }
        },
        Colors::Black => {
            s.append("black");
            proof {
                reveal_strlit("black");
            }
        },
    }
}

/// The text a host sends for its position: every rank's icons followed by
/// `:`, then `;`, the host's colour, `;`, the colour to move and `;`.
pub fn game_state(board: &mut Board, player: Colors, current: Colors) -> (s: String)
    ensures
        *final(board) == *old(board),
        s@ == state_text(old(board)@, player, current),
{
    let ghost b = board@;
    proof {
        board.lemma_grid();
    }
    let mut contents = String::new();
    let rows = board.as_array();
    let mut r: usize = 0;
    while r < 8
        invariant
            0 <= r <= 8,
            is_grid(b),
            forall|i: int| 0 <= i < 8 ==> (#[trigger] rows[i])@ == b[i],
            contents@ == ranks_text(b, r as nat),
        decreases 8 - r,
    {
        let mut row = rows[r];
        let cells = row.as_array();
        let ghost before = contents@;
        let mut c: usize = 0;
        while c < 8
            invariant
                0 <= c <= 8,
                0 <= r < 8,
                is_grid(b),
                forall|i: int| 0 <= i < 8 ==> (#[trigger] cells[i]).locator == b[r as int][i],
                contents@ == before + row_text(b[r as int]).take(c as int),
            decreases 8 - c,
        {
            let mut piece = cells[c].locator;
            let icon = piece.getIcon();
            contents.append(icon.as_str());
            assert(row_text(b[r as int]).take(c + 1) =~= row_text(b[r as int]).take(c as int).push(
                b[r as int][c as int].icon_char(),
            ));
            c = c + 1;
        }
        assert(row_text(b[r as int]).take(8) =~= row_text(b[r as int]));
        push_char(&mut contents, ':');
        r = r + 1;
        assert(contents@ =~= ranks_text(b, r as nat));
    }
    push_char(&mut contents, ';');
    push_color_name(&mut contents, player);
    push_char(&mut contents, ';');
    push_color_name(&mut contents, current);
    push_char(&mut contents, ';');
    assert(contents@ =~= state_text(b, player, current));
    contents
}

/// The piece a received character stands for.
fn decode_char(c: char) -> (r: Option<Pieces>)
    ensures
        r == decode_cell(c),
{
    if c == 'P' {
        Some(Pawn::new(Colors::White))
    } else if c == 'R' {
        Some(Rook::new(Colors::White))
    } else if c == 'K' {
        Some(Knight::new(Colors::White))
    } else if c == 'B' {
        Some(Bishop::new(Colors::White))
    } else if c == 'Q' {
        Some(Queen::new(Colors::White))
    } else if c == 'T' {
        Some(King::new(Colors::White))
    } else if c == 'p' {
        Some(Pawn::new(Colors::Black))
    } else if c == 'r' {
        Some(Rook::new(Colors::Black))
    } else if c == 'k' {
        Some(Knight::new(Colors::Black))
    } else if c == 'b' {
        Some(Bishop::new(Colors::Black))
    } else if c == 'q' {
        Some(Queen::new(Colors::Black))
    } else if c == 't' {
        Some(King::new(Colors::Black))
    } else if c == ' ' {
        Some(Empty::new())
    } else {
        None
    }
}

/// The colour a received name stands for, read as the host's colour (so
/// the receiver's own is the opposite) or as the colour to move.
fn read_color(name: &str, as_receiver: bool) -> (r: Option<Colors>)
    ensures
        r == if as_receiver {
            receiver_color(name@)
        } else {
            named_color(name@)
        },
{
    proof {
        reveal_strlit("black");
        reveal_strlit("white");
    }
    if same_text(name, "black") {
        assert("black"@ =~= color_name(Colors::Black));
        if as_receiver {
            Some(Colors::White)
        } else {
            Some(Colors::Black)
        }
    } else if same_text(name, "white") {
        assert("white"@ =~= color_name(Colors::White));
        if as_receiver {
            Some(Colors::Black)
        } else {
            Some(Colors::White)
        }
    } else {
        assert("black"@ =~= color_name(Colors::Black));
        assert("white"@ =~= color_name(Colors::White));
        None
    }
}

/// One step of [`first_bad`] over a readable square.
proof fn lemma_first_bad_step(rows: Seq<Seq<char>>, k: nat)
    requires
        k < 64,
        cell_present(rows, k as int),
        decode_cell(rows[k as int / 8][k as int % 8]) is Some,
    ensures
        first_bad(rows, k) == first_bad(rows, k + 1),
{
}

/// Reads a received position: the receiver's colour, the colour to move
/// and the position, or the first problem met.
pub fn decode_game_state(text: &str) -> (r: Result<(Colors, Colors, Board), StateError>)
    ensures
        match decode_state(text@) {
            Ok((p, c, b)) => r matches Ok((p2, c2, board)) && p2 == p && c2 == c && board@ == b,
            Err(e) => r == Err::<(Colors, Colors, Board), StateError>(e),
        },
{
    proof {
        reveal_strlit(";");
        reveal_strlit(":");
        assert(";"@ =~= seq![';']);
        assert(":"@ =~= seq![':']);
    }
    let fields = split_on(text, ";");
    let ghost f = state_fields(text@);
    assert(fields.deep_view() == f);
    proof {
        crate::text::lemma_split_scan_nonempty(text@, seq![';'], 0, 0);
    }
    if fields.len() == 1 {
        return Err(StateError::NoAccess);
    }
    assert(fields@[1]@ == fields.deep_view()[1]);
    let player = match read_color(fields[1], true) {
        Some(p) => p,
        None => {
            return Err(StateError::Player);
        },
    };
    if fields.len() < 3 {
        return Err(StateError::Truncated);
    }
    assert(fields@[2]@ == fields.deep_view()[2]);
    let current = match read_color(fields[2], false) {
        Some(c) => c,
        None => {
            return Err(StateError::CurrentPlayer);
        },
    };
    assert(fields@[0]@ == fields.deep_view()[0]);
    let rows = split_on(fields[0], ":");
    let ghost rs = state_ranks(text@);
    assert(rows.deep_view() == rs);
    let ghost outcome: Result<(Colors, Colors, Seq<Seq<Pieces>>), StateError> = match first_bad(rs, 0) {
        Some(e) => Err(e),
        None => Ok((player, current, decoded_board(rs))),
    };
    assert(decode_state(text@) == outcome);
    let mut board = build();
    proof {
        board.lemma_grid();
    }
    let mut boarda = board.as_array();
    let mut row_id: usize = 0;
    while row_id < 8
        invariant
            0 <= row_id <= 8,
            rows.deep_view() == rs,
            decode_state(text@) == outcome,
            outcome == (match first_bad(rs, 0) {
                Some(e) => Err(e),
                None => Ok((player, current, decoded_board(rs))),
            }),
            first_bad(rs, 0) == first_bad(rs, (8 * row_id) as nat),
            forall|r: int| 0 <= r < row_id ==> (#[trigger] boarda[r])@ == decoded_board(rs)[r],
            forall|r: int| 0 <= r < 8 ==> (#[trigger] boarda[r])@.len() == 8,
        decreases 8 - row_id,
    {
        if row_id >= rows.len() {
            assert(!cell_present(rs, 8 * row_id));
            return Err(StateError::Truncated);
        }
        assert(rows@[row_id as int]@ == rs[row_id as int]);
        let cells = chars_of(rows[row_id]);
        let mut row = boarda[row_id];
        proof {
            row.lemma_len();
        }
        let mut rowa = row.as_array();
        let mut cell_id: usize = 0;
        while cell_id < 8
            invariant
                0 <= cell_id <= 8,
                0 <= row_id < 8,
                row_id < rs.len(),
                cells@ == rs[row_id as int],
                decode_state(text@) == outcome,
                outcome == (match first_bad(rs, 0) {
                    Some(e) => Err(e),
                    None => Ok((player, current, decoded_board(rs))),
                }),
                first_bad(rs, 0) == first_bad(rs, (8 * row_id + cell_id) as nat),
                forall|c: int| 0 <= c < cell_id ==> (#[trigger] rowa[c]).locator == decode_cell(
                    rs[row_id as int][c],
                )->0,
            decreases 8 - cell_id,
        {
            let k: usize = 8 * row_id + cell_id;
            assert(k / 8 == row_id && k % 8 == cell_id);
            if cell_id >= cells.len() {
                assert(!cell_present(rs, k as int));
                return Err(StateError::Truncated);
            }
            match decode_char(cells[cell_id]) {
                Some(p) => {
                    rowa[cell_id].locator = p;
                    proof {
                        lemma_first_bad_step(rs, k as nat);
                    }
                },
                None => {
                    return Err(StateError::Cell);
                },
            }
            cell_id = cell_id + 1;
        }
        row.dump_array(rowa);
        boarda[row_id] = row;
        assert(boarda[row_id as int]@ =~= decoded_board(rs)[row_id as int]);
        row_id = row_id + 1;
    }
    board.dump_array(boarda);
    assert(board@ =~= decoded_board(rs));
    assert(first_bad(rs, 64) is None);
    Ok((player, current, board))
}

} // verus!

verus! {

/// The opposite colour.
pub open spec fn opposite(c: Colors) -> Colors {
    match c {
        Colors::White => Colors::Black,
        Colors::Black => Colors::White,
    }
}

/// No square of `b` holds a king.
pub open spec fn kingless(b: Seq<Seq<Pieces>>) -> bool {
    forall|r: int, c: int| 0 <= r < 8 && 0 <= c < 8 ==> !(#[trigger] b[r][c] is King)
}

/// The position with every piece replaced by the white piece of its kind.
pub open spec fn whitened(b: Seq<Seq<Pieces>>) -> Seq<Seq<Pieces>> {
    Seq::new(8, |r: int| Seq::new(8, |c: int| whiten(b[r][c])))
}

/// The ranks of a position as sent, with the empty piece after the last `:`.
spec fn sent_ranks(b: Seq<Seq<Pieces>>) -> Seq<Seq<char>> {
    Seq::new(9, |r: int| if r < 8 { row_text(b[r]) } else { Seq::empty() })
}

/// Over squares that are all present, [`first_bad`] reports a square that
/// names no piece exactly when there is one.
proof fn lemma_first_bad_present(rows: Seq<Seq<char>>, k: nat)
    requires
        k <= 64,
        forall|j: int| k <= j < 64 ==> cell_present(rows, j),
    ensures
        first_bad(rows, k) == if exists|j: int| k <= j < 64 && (#[trigger] decode_cell(rows[j / 8][j % 8])) is None {
            Some(StateError::Cell)
        } else {
            None::<StateError>
        },
    decreases 64 - k,
{
    if k < 64 {
        lemma_first_bad_present(rows, k + 1);
        if decode_cell(rows[k as int / 8][k as int % 8]) is None {
        } else {
            if exists|j: int| k <= j < 64 && (#[trigger] decode_cell(rows[j / 8][j % 8])) is None {
                let j = choose|j: int| k <= j < 64 && (#[trigger] decode_cell(rows[j / 8][j % 8])) is None;
                assert(k + 1 <= j);
            }
        }
    }
}

/// The sent text splits into the ranks' field, the two colours and an
/// empty tail; the ranks' field splits into the eight ranks and an empty
/// tail.
proof fn lemma_sent_fields(b: Seq<Seq<Pieces>>, player: Colors, current: Colors)
    requires
        canonical_board(b),
    ensures
        state_fields(state_text(b, player, current)) == seq![
            ranks_text(b, 8),
            color_name(player),
            color_name(current),
            Seq::<char>::empty(),
        ],
        state_ranks(state_text(b, player, current)) == sent_ranks(b),
{
    let rs = sent_ranks(b);
    assert forall|r: int, c: int| 0 <= r < 8 && 0 <= c < 8 implies (#[trigger] b[r][c]).icon_char()
        == kind_icon(b[r][c]) by {
        lemma_canonical_icon(b[r][c]);
    }
    assert forall|i: int, k: int| 0 <= i < rs.len() && 0 <= k < rs[i].len() implies rs[i][k] != ':'
        && rs[i][k] != ';' by {
        assert(rs[i][k] == b[i][k].icon_char());
    }
    reveal_with_fuel(join_with, 10);
    reveal_with_fuel(ranks_text, 9);
    assert(ranks_text(b, 8) =~= join_with(rs, ':'));
    crate::text::lemma_split_join(rs, ':');
    let fs = seq![ranks_text(b, 8), color_name(player), color_name(current), Seq::<char>::empty()];
    assert forall|i: int, k: int| 0 <= i < fs.len() && 0 <= k < fs[i].len() implies fs[i][k] != ';' by {
        if i == 0 {
            assert(fs[0] == join_with(rs, ':'));
            let t = ranks_text(b, 8);
            assert(t =~= rs[0] + seq![':'] + rs[1] + seq![':'] + rs[2] + seq![':'] + rs[3] + seq![':']
                + rs[4] + seq![':'] + rs[5] + seq![':'] + rs[6] + seq![':'] + rs[7] + seq![':'] + rs[8]);
            assert(forall|k: int| 0 <= k < t.len() ==> #[trigger] t[k] != ';');
        }
    }
    assert(state_text(b, player, current) =~= join_with(fs, ';'));
    crate::text::lemma_split_join(fs, ';');
}

/// A position sent by a host whose board holds no king is received as the
/// same position with every piece turned white, the host's colour
/// reversed and the colour to move kept.
pub proof fn lemma_state_round_trip(b: Seq<Seq<Pieces>>, player: Colors, current: Colors)
    requires
        canonical_board(b),
        kingless(b),
    ensures
        decode_state(state_text(b, player, current)) == Ok::<(Colors, Colors, Seq<Seq<Pieces>>), StateError>(
            (opposite(player), current, whitened(b)),
        ),
{
    lemma_sent_fields(b, player, current);
    let rs = sent_ranks(b);
    assert forall|j: int| 0 <= j < 64 implies cell_present(rs, j) && decode_cell(rs[j / 8][j % 8])
        == Some(whiten(b[j / 8][j % 8])) by {
        lemma_canonical_icon(b[j / 8][j % 8]);
        lemma_made(Colors::White);
        assert(rs[j / 8][j % 8] == b[j / 8][j % 8].icon_char());
    }
    lemma_first_bad_present(rs, 0);
    assert forall|r: int, c: int| 0 <= r < 8 && 0 <= c < 8 implies decode_cell(rs[r][c])
        == Some(whiten(b[r][c])) by {
        lemma_canonical_icon(b[r][c]);
        lemma_made(Colors::White);
        assert(rs[r][c] == b[r][c].icon_char());
    }
    assert forall|r: int| 0 <= r < 8 implies #[trigger] decoded_board(rs)[r] =~= whitened(b)[r] by {
        assert forall|c: int| 0 <= c < 8 implies decoded_board(rs)[r][c] == whitened(b)[r][c] by {
            assert(decode_cell(rs[r][c]) == Some(whiten(b[r][c])));
        }
    }
    assert(decoded_board(rs) =~= whitened(b));
    assert(color_name(Colors::Black) != color_name(Colors::White));
}

/// A position sent by a host whose board holds a king cannot be read: the
/// king's icon names no piece.
pub proof fn lemma_state_with_king(b: Seq<Seq<Pieces>>, player: Colors, current: Colors, r: int, c: int)
    requires
        canonical_board(b),
        0 <= r < 8,
        0 <= c < 8,
        b[r][c] is King,
    ensures
        decode_state(state_text(b, player, current)) == Err::<(Colors, Colors, Seq<Seq<Pieces>>), StateError>(
            StateError::Cell,
        ),
{
    lemma_sent_fields(b, player, current);
    let rs = sent_ranks(b);
    assert forall|j: int| 0 <= j < 64 implies cell_present(rs, j) by {}
    lemma_first_bad_present(rs, 0);
    let j = 8 * r + c;
    assert(j / 8 == r && j % 8 == c);
    lemma_canonical_icon(b[r][c]);
    assert(decode_cell(rs[j / 8][j % 8]) is None);
    assert(color_name(Colors::Black) != color_name(Colors::White));
}

/// A small letter and its capital stand for pieces of the same kind: the
/// small letter for the black piece, the capital for the white one; either
/// both name a piece or neither does.
pub proof fn lemma_cell_case(c: char)
    requires
        97 <= (c as u32) <= 122,
    ensures
        ({
            let upper = ((c as u32) - 32) as char;
            &&& decode_cell(c) is Some <==> decode_cell(upper) is Some
            &&& decode_cell(c) is Some ==> {
                &&& decode_cell(c)->0.piece_color() == Some(Colors::Black)
                &&& decode_cell(upper)->0.piece_color() == Some(Colors::White)
                &&& decode_cell(upper)->0 == whiten(decode_cell(c)->0)
            }
        }),
{
    lemma_made(Colors::Black);
    lemma_made(Colors::White);
    let upper = ((c as u32) - 32) as char;
    assert(upper as u32 == (c as u32) - 32);
}

/// A position text names the host's colour in its second field and the
/// colour to move in its third, so the receiver reads itself as the
/// opposite colour and the colour to move as sent.
pub proof fn lemma_state_colors(b: Seq<Seq<Pieces>>, player: Colors, current: Colors)
    requires
        canonical_board(b),
    ensures
        state_fields(state_text(b, player, current))[1] == color_name(player),
        state_fields(state_text(b, player, current))[2] == color_name(current),
        receiver_color(state_fields(state_text(b, player, current))[1]) == Some(opposite(player)),
        named_color(state_fields(state_text(b, player, current))[2]) == Some(current),
{
    lemma_sent_fields(b, player, current);
    assert(color_name(Colors::Black) != color_name(Colors::White));
}

} // verus!
