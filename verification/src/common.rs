//! Pieces, colours and the per-piece move rules.
//!
//! A square on the command line is written as a file letter followed by a
//! rank digit (`e2`).  The per-piece rules read the file as a 1-based column
//! (`a` is 1) and the rank as the digit's value.
use vstd::prelude::*;
use vstd::string::StrSliceExecFns;
use crate::text::{digit_of, digit_value, is_digit, lower_code, lower_code_of, push_char};

verus! {

broadcast use vstd::string::group_string_axioms;

/// The two sides.
#[derive(Clone, Copy, Debug, PartialEq, Eq, Structural)]
pub enum Colors {
    White,
    Black,
}

/// An empty square.
#[derive(Clone, Copy, Debug, PartialEq, Eq, Structural)]
pub struct Empty {
    icon: char,
}

/// A pawn.
#[derive(Clone, Copy, Debug, PartialEq, Eq, Structural)]
pub struct Pawn {
    value: i32,
    color: Colors,
    icon: char,
}

/// A rook.
#[derive(Clone, Copy, Debug, PartialEq, Eq, Structural)]
pub struct Rook {
    value: i32,
    color: Colors,
    icon: char,
}

/// A knight.
#[derive(Clone, Copy, Debug, PartialEq, Eq, Structural)]
pub struct Knight {
    value: i32,
    color: Colors,
    icon: char,
}

/// A bishop.
#[derive(Clone, Copy, Debug, PartialEq, Eq, Structural)]
pub struct Bishop {
    value: i32,
    color: Colors,
    icon: char,
}

/// A queen.
#[derive(Clone, Copy, Debug, PartialEq, Eq, Structural)]
pub struct Queen {
    value: i32,
    color: Colors,
    icon: char,
}

/// A king.
#[derive(Clone, Copy, Debug, PartialEq, Eq, Structural)]
pub struct King {
    value: i32,
    color: Colors,
    icon: char,
}

/// What stands on a square.
#[derive(Clone, Copy, Debug, PartialEq, Eq, Structural)]
pub enum Pieces {
    Empty(Empty),
    Pawn(Pawn),
    Rook(Rook),
    Knight(Knight),
    Bishop(Bishop),
    Queen(Queen),
    King(King),
}

/// The verdict on a proposed move.
#[allow(non_camel_case_types)]
#[derive(Clone, Copy, Debug, PartialEq, Eq, Structural)]
pub enum movestate {
    Legal,
    Illegal,
    EnPassant,
}

impl Pieces {
    /// The colour of the piece; an empty square has none.
    pub closed spec fn piece_color(self) -> Option<Colors> {
        match self {
            Pieces::Empty(_) => None,
            Pieces::Pawn(p) => Some(p.color),
            Pieces::Rook(p) => Some(p.color),
            Pieces::Knight(p) => Some(p.color),
            Pieces::Bishop(p) => Some(p.color),
            Pieces::Queen(p) => Some(p.color),
            Pieces::King(p) => Some(p.color),
        }
    }

    /// The one-character icon the piece is drawn with.
    pub closed spec fn icon_char(self) -> char {
        match self {
            Pieces::Empty(p) => p.icon,
            Pieces::Pawn(p) => p.icon,
            Pieces::Rook(p) => p.icon,
            Pieces::Knight(p) => p.icon,
            Pieces::Bishop(p) => p.icon,
            Pieces::Queen(p) => p.icon,
            Pieces::King(p) => p.icon,
        }
    }
}

impl Empty {
    /// The empty square every constructor of this crate produces.
    pub closed spec fn made() -> Pieces {
        Pieces::Empty(Empty { icon: ' ' })
    }

    /// An empty square, drawn as a blank.
    pub fn new() -> (p: Pieces)
        ensures
            p == Empty::made(),
            p is Empty,
            p.icon_char() == ' ',
            p.piece_color() is None,
    {
        Pieces::Empty(Empty { icon: ' ' })
    }
}

impl Pawn {
    /// The pawn of colour `color` (worth 1, drawn `P`).
    pub closed spec fn made(color: Colors) -> Pieces {
        Pieces::Pawn(Pawn { value: 1, color, icon: 'P' })
    }

    /// The colour of this pawn.
    pub closed spec fn color_of(self) -> Colors {
        self.color
    }

    /// A new pawn.
    pub fn new(color: Colors) -> (p: Pieces)
        ensures
            p == Pawn::made(color),
            p is Pawn,
            p.icon_char() == 'P',
            p.piece_color() == Some(color),
    {
        Pieces::Pawn(Pawn { value: 1, color, icon: 'P' })
    }

    /// Judges a pawn move from `code[0]` to `code[1]` onto a square holding
    /// `entity`; `lmove` is the previous move, read for en passant.
    pub fn check_move(&mut self, code: Vec<&str>, entity: Pieces, lmove: Vec<String>) -> (r:
        movestate)
        requires
            code@.len() >= 2,
            pawn_defined(old(self).color_of(), code@[0]@, code@[1]@, entity, lmove.deep_view()),
        ensures
            *final(self) == *old(self),
            r == pawn_rule(old(self).color_of(), code@[0]@, code@[1]@, entity, lmove.deep_view()),
    {
        let o0 = code[0].get_char(0);
        let o1 = code[0].get_char(1);
        let n0 = code[1].get_char(0);
        let n1 = code[1].get_char(1);
        let opos = digit_value(o1);
        let npos = digit_value(n1);
        let oindex: u32 = lower_code(o0) - 96;
        let nindex: u32 = lower_code(n0) - 96;
        if entity.color_or_none() == Some(self.color) {
            return movestate::Illegal;
        }
        match entity {
            Pieces::Empty(_) => {
                if oindex != nindex {
                    if oindex != nindex + 1 && oindex != nindex - 1 {
                        return movestate::Illegal;
                    }
                    let last_to = lmove[2].as_str();
                    let l0 = last_to.get_char(0);
                    let l1 = last_to.get_char(1);
                    let lnindex: u32 = lower_code(l0) - 97;
                    if digit_value(l1) != opos {
                        return movestate::Illegal;
                    }
                    if lnindex != nindex + 1 && lnindex != nindex - 1 {
                        return movestate::Illegal;
                    }
                    return movestate::EnPassant;
                }
                match self.color {
                    Colors::White => {
                        if (npos - opos > 2 || npos - opos < 1) || (npos - opos == 2 && opos != 2) {
                            return movestate::Illegal;
                        }
                    },
                    Colors::Black => {
                        if (opos - npos > 2 || opos - npos < 1) || (opos - npos == 2 && opos != 7) {
                            return movestate::Illegal;
                        }
                    },
                }
                movestate::Legal
            },
            _ => {
                if oindex != nindex + 1 && oindex != nindex - 1 {
                    return movestate::Illegal;
                }
                match self.color {
                    Colors::White => {
                        if npos - opos != 1 {
                            return movestate::Illegal;
                        }
                    },
                    Colors::Black => {
                        if opos - npos != 1 {
                            return movestate::Illegal;
                        }
                    },
                }
                movestate::Legal
            },
        }
    }
}

impl Rook {
    /// The rook of colour `color` (worth 5, drawn `R`).
    pub closed spec fn made(color: Colors) -> Pieces {
        Pieces::Rook(Rook { value: 5, color, icon: 'R' })
    }

    /// A new rook.
    pub fn new(color: Colors) -> (p: Pieces)
        ensures
            p == Rook::made(color),
            p is Rook,
            p.icon_char() == 'R',
            p.piece_color() == Some(color),
    {
        Pieces::Rook(Rook { value: 5, color, icon: 'R' })
    }

    /// The rook's own rule accepts every move; the path is checked by the
    /// controller.
    pub fn check_move(&mut self, code: Vec<&str>, entity: Pieces) -> (r: movestate)
        ensures
            *final(self) == *old(self),
            r == movestate::Legal,
    {
        movestate::Legal
    }
}

impl Knight {
    /// The knight of colour `color` (worth 3, drawn `K`).
    pub closed spec fn made(color: Colors) -> Pieces {
        Pieces::Knight(Knight { value: 3, color, icon: 'K' })
    }

    /// The colour of this knight.
    pub closed spec fn color_of(self) -> Colors {
        self.color
    }

    /// A new knight.
    pub fn new(color: Colors) -> (p: Pieces)
        ensures
            p == Knight::made(color),
            p is Knight,
            p.icon_char() == 'K',
            p.piece_color() == Some(color),
    {
        Pieces::Knight(Knight { value: 3, color, icon: 'K' })
    }

    /// Judges a knight move from `code[0]` to `code[1]` onto a square holding
    /// `entity`.
    pub fn check_move(&mut self, code: Vec<&str>, entity: Pieces) -> (r: movestate)
        requires
            code@.len() >= 2,
            readable_square(code@[0]@),
            readable_square(code@[1]@),
        ensures
            *final(self) == *old(self),
            r == knight_rule(old(self).color_of(), code@[0]@, code@[1]@, entity),
    {
        let opos = digit_value(code[0].get_char(1));
        let npos = digit_value(code[1].get_char(1));
        let oindex = (lower_code(code[0].get_char(0)) - 96) as i32;
        let nindex = (lower_code(code[1].get_char(0)) - 96) as i32;
        if entity.color_or_none() == Some(self.color) {
            return movestate::Illegal;
        }
        let dr = if npos >= opos {
            npos - opos
        } else {
            opos - npos
        };
        let dc = if nindex >= oindex {
            nindex - oindex
        } else {
            oindex - nindex
        };
        if dr + dc != 3 {
            return movestate::Illegal;
        }
        if npos == opos || oindex == nindex {
            return movestate::Illegal;
        }
        movestate::Legal
    }
}

impl Bishop {
    /// The bishop of colour `color` (worth 3, drawn `B`).
    pub closed spec fn made(color: Colors) -> Pieces {
        Pieces::Bishop(Bishop { value: 3, color, icon: 'B' })
    }

    /// A new bishop.
    pub fn new(color: Colors) -> (p: Pieces)
        ensures
            p == Bishop::made(color),
            p is Bishop,
            p.icon_char() == 'B',
            p.piece_color() == Some(color),
    {
        Pieces::Bishop(Bishop { value: 3, color, icon: 'B' })
    }

    /// The bishop's rule accepts every move.
    pub fn check_move(&mut self, code: Vec<&str>, entity: Pieces) -> (r: movestate)
        ensures
            *final(self) == *old(self),
            r == movestate::Legal,
    {
        movestate::Legal
    }
}

impl Queen {
    /// The queen of colour `color` (worth 8, drawn `Q`).
    pub closed spec fn made(color: Colors) -> Pieces {
        Pieces::Queen(Queen { value: 8, color, icon: 'Q' })
    }

    /// A new queen.
    pub fn new(color: Colors) -> (p: Pieces)
        ensures
            p == Queen::made(color),
            p is Queen,
            p.icon_char() == 'Q',
            p.piece_color() == Some(color),
    {
        Pieces::Queen(Queen { value: 8, color, icon: 'Q' })
    }

    /// The queen's rule accepts every move.
    pub fn check_move(&mut self, code: Vec<&str>, entity: Pieces) -> (r: movestate)
        ensures
            *final(self) == *old(self),
            r == movestate::Legal,
    {
        movestate::Legal
    }
}

impl King {
    /// The king of colour `color` (worth 0, drawn `✝`).
    pub closed spec fn made(color: Colors) -> Pieces {
        Pieces::King(King { value: 0, color, icon: '\u{271d}' })
    }

    /// A new king.
    pub fn new(color: Colors) -> (p: Pieces)
        ensures
            p == King::made(color),
            p is King,
            p.icon_char() == '\u{271d}',
            p.piece_color() == Some(color),
    {
        Pieces::King(King { value: 0, color, icon: '\u{271d}' })
    }

    /// The king's rule accepts every move.
    pub fn check_move(&mut self, code: Vec<&str>, entity: Pieces) -> (r: movestate)
        ensures
            *final(self) == *old(self),
            r == movestate::Legal,
    {
        movestate::Legal
    }
}

impl Pieces {
    /// Exec form of [`Pieces::piece_color`].
    pub fn color_or_none(&self) -> (r: Option<Colors>)
        ensures
            r == self.piece_color(),
    {
        match self {
            Pieces::Empty(_) => None,
            Pieces::Pawn(p) => Some(p.color),
            Pieces::Rook(p) => Some(p.color),
            Pieces::Knight(p) => Some(p.color),
            Pieces::Bishop(p) => Some(p.color),
            Pieces::Queen(p) => Some(p.color),
            Pieces::King(p) => Some(p.color),
        }
    }

    /// The piece's icon as a one-character string.
    #[allow(non_snake_case)]
    pub fn getIcon(&mut self) -> (s: String)
        ensures
            *final(self) == *old(self),
            s@ == seq![old(self).icon_char()],
    {
        let c = match self {
            Pieces::Empty(p) => p.icon,
            Pieces::Pawn(p) => p.icon,
            Pieces::Rook(p) => p.icon,
            Pieces::Knight(p) => p.icon,
            Pieces::Bishop(p) => p.icon,
            Pieces::Queen(p) => p.icon,
            Pieces::King(p) => p.icon,
        };
        let mut s = String::new();
        push_char(&mut s, c);
        s
    }

    /// Judges a move as [`Pieces::check_move`] does where the rule of the
    /// piece's kind can read it, and gives `None` where it cannot.
    pub fn try_check_move(&mut self, code: Vec<&str>, entity: Pieces, lmove: Vec<String>) -> (r:
        Option<movestate>)
        ensures
            *final(self) == *old(self),
            r is Some <==> rule_defined(
                *old(self),
                code@.map_values(|t: &str| t@),
                entity,
                lmove.deep_view(),
            ),
            r matches Some(v) ==> v == piece_rule(
                *old(self),
                code@[0]@,
                code@[1]@,
                entity,
                lmove.deep_view(),
            ),
    {
        let ghost cv = code@.map_values(|t: &str| t@);
        let ok = match *self {
            Pieces::Pawn(p) => code.len() >= 2 && pawn_can_judge(p.color, code[0], code[1], &entity, &lmove),
            Pieces::Knight(_) => code.len() >= 2 && readable_text(code[0]) && readable_text(code[1]),
            _ => true,
        };
        proof {
            if code@.len() >= 2 {
                assert(cv[0] == code@[0]@ && cv[1] == code@[1]@);
            }
        }
        if ok {
            Some(self.check_move(code, entity, lmove))
        } else {
            None
        }
    }

    /// Judges a move of this piece from `code[0]` to `code[1]` onto a square
    /// holding `entity`, by the rule of the piece's kind; an empty square
    /// cannot move.
    pub fn check_move(&mut self, code: Vec<&str>, entity: Pieces, lmove: Vec<String>) -> (r:
        movestate)
        requires
            rule_defined(*old(self), code@.map_values(|t: &str| t@), entity, lmove.deep_view()),
        ensures
            *final(self) == *old(self),
            r == piece_rule(*old(self), code@[0]@, code@[1]@, entity, lmove.deep_view()),
    {
        match *self {
            Pieces::Pawn(mut p) => p.check_move(code, entity, lmove),
            Pieces::Rook(mut p) => p.check_move(code, entity),
            Pieces::Knight(mut p) => p.check_move(code, entity),
            Pieces::Bishop(mut p) => p.check_move(code, entity),
            Pieces::Queen(mut p) => p.check_move(code, entity),
            Pieces::King(mut p) => p.check_move(code, entity),
            Pieces::Empty(_) => movestate::Illegal,
        }
    }
}

/// The moves the rule of `piece`'s kind can judge: a pawn's or knight's
/// needs two tokens it can read; the other kinds read nothing.
pub open spec fn rule_defined(
    piece: Pieces,
    code: Seq<Seq<char>>,
    entity: Pieces,
    lmove: Seq<Seq<char>>,
) -> bool {
    match piece {
        Pieces::Pawn(p) => code.len() >= 2 && pawn_defined(p.color_of(), code[0], code[1], entity, lmove),
        Pieces::Knight(_) => code.len() >= 2 && readable_square(code[0]) && readable_square(code[1]),
        _ => true,
    }
}

/// Whether a token starts with a square the per-piece rules can read.
fn readable_text(t: &str) -> (r: bool)
    ensures
        r == readable_square(t@),
{
    if t.unicode_len() < 2 {
        return false;
    }
    let d = t.get_char(1) as u32;
    lower_code(t.get_char(0)) >= 96 && 48 <= d && d <= 57
}

/// Whether the pawn rule of a `color` pawn can judge a move from `o` to `n`
/// onto `entity` after the move `lmove`.
fn pawn_can_judge(color: Colors, o: &str, n: &str, entity: &Pieces, lmove: &Vec<String>) -> (r: bool)
    ensures
        r == pawn_defined(color, o@, n@, *entity, lmove.deep_view()),
{
    if !readable_text(o) || !readable_text(n) {
        return false;
    }
    let oc = lower_code(o.get_char(0)) - 96;
    let nc = lower_code(n.get_char(0)) - 96;
    let own = entity.color_or_none() == Some(color);
    let empty = match entity {
        Pieces::Empty(_) => true,
        _ => false,
    };
    if !own && (!empty || oc != nc) && nc == 0 && oc != 1 {
        return false;
    }
    if !(empty && oc != nc && (oc == nc + 1 || oc + 1 == nc)) {
        return true;
    }
    if lmove.len() < 3 {
        return false;
    }
    let first = lmove[1].as_str();
    let last = lmove[2].as_str();
    proof {
        assert(lmove.deep_view()[1] == first@);
        assert(lmove.deep_view()[2] == last@);
    }
    if first.unicode_len() < 1 || lower_code(first.get_char(0)) < 97 {
        return false;
    }
    if last.unicode_len() < 2 || lower_code(last.get_char(0)) < 97 {
        return false;
    }
    let d = last.get_char(1) as u32;
    if d < 48 || d > 57 {
        return false;
    }
    if nc == 0 && digit_value(last.get_char(1)) == digit_value(o.get_char(1)) && lower_code(
        last.get_char(0),
    ) - 97 != 1 {
        return false;
    }
    true
}

/// A square as the per-piece rules can read it: a character whose
/// lower-case form has a code of at least 96 (the one before `a`), then a
/// decimal digit.
pub open spec fn readable_square(t: Seq<char>) -> bool {
    &&& t.len() >= 2
    &&& lower_code_of(t[0]) >= 96
    &&& is_digit(t[1])
}

/// 1-based column of a square (`a` is 1).
pub open spec fn column(t: Seq<char>) -> int {
    lower_code_of(t[0]) - 96
}

/// Rank of a square (the digit's value).
pub open spec fn rank(t: Seq<char>) -> int {
    digit_of(t[1])
}

/// A previous move as the en-passant rule reads it: at least three entries,
/// the second starting with a character at least `a` once lower-cased, the
/// third with such a character and a decimal digit.
pub open spec fn last_move_readable(l: Seq<Seq<char>>) -> bool {
    &&& l.len() >= 3
    &&& l[1].len() >= 1
    &&& lower_code_of(l[1][0]) >= 97
    &&& l[2].len() >= 2
    &&& lower_code_of(l[2][0]) >= 97
    &&& is_digit(l[2][1])
}

/// A pawn move that the pawn rule decides by reading the previous move: a
/// step onto an empty square in a neighbouring column.
pub open spec fn pawn_reads_last_move(o: Seq<char>, n: Seq<char>, entity: Pieces) -> bool {
    &&& entity is Empty
    &&& column(o) != column(n)
    &&& (column(o) == column(n) + 1 || column(o) == column(n) - 1)
}

/// The moves the pawn rule can judge: both squares readable, a destination
/// in column 0 (the character before `a`) reached only from column 1 where
/// the rule compares columns, and a readable previous move, ending next to
/// column 0 where it is compared with it, where the rule reads it.
pub open spec fn pawn_defined(
    color: Colors,
    o: Seq<char>,
    n: Seq<char>,
    entity: Pieces,
    lmove: Seq<Seq<char>>,
) -> bool {
    &&& readable_square(o)
    &&& readable_square(n)
    &&& (entity.piece_color() != Some(color) && (entity is Empty ==> column(o) != column(n))
        && column(n) == 0) ==> column(o) == 1
    &&& pawn_reads_last_move(o, n, entity) ==> {
        &&& last_move_readable(lmove)
        &&& (rank(lmove[2]) == rank(o) && column(n) == 0) ==> lower_code_of(lmove[2][0]) - 97 == 1
    }
}

/// The pawn rule.
///
/// A pawn may not land on a piece of its own colour.  Onto an empty square
/// it moves straight ahead one square, or two from its home rank (2 for
/// white, 7 for black); a step onto an empty square in a neighbouring column
/// is en passant when the previous move ended on the pawn's rank, in the
/// destination column or two columns to its right.  Onto an enemy piece it
/// moves one square diagonally forward.
pub open spec fn pawn_rule(
    color: Colors,
    o: Seq<char>,
    n: Seq<char>,
    entity: Pieces,
    lmove: Seq<Seq<char>>,
) -> movestate {
    let oc = column(o);
    let nc = column(n);
    let orow = rank(o);
    let nrow = rank(n);
    if entity.piece_color() == Some(color) {
        movestate::Illegal
    } else if entity is Empty {
        if oc != nc {
            let lcol0 = lower_code_of(lmove[2][0]) - 97;
            if oc != nc + 1 && oc != nc - 1 {
                movestate::Illegal
            } else if rank(lmove[2]) != orow {
                movestate::Illegal
            } else if lcol0 != nc + 1 && lcol0 != nc - 1 {
                movestate::Illegal
            } else {
                movestate::EnPassant
            }
        } else {
            let ahead = if color == Colors::White {
                nrow - orow
            } else {
                orow - nrow
            };
            let home = if color == Colors::White {
                2int
            } else {
                7int
            };
            if (ahead > 2 || ahead < 1) || (ahead == 2 && orow != home) {
                movestate::Illegal
            } else {
                movestate::Legal
            }
        }
    } else {
        let ahead = if color == Colors::White {
            nrow - orow
        } else {
            orow - nrow
        };
        if oc != nc + 1 && oc != nc - 1 {
            movestate::Illegal
        } else if ahead != 1 {
            movestate::Illegal
        } else {
            movestate::Legal
        }
    }
}

/// The knight rule: not onto a piece of its own colour, and an L-shaped
/// jump (three squares in all, in both directions).
pub open spec fn knight_rule(color: Colors, o: Seq<char>, n: Seq<char>, entity: Pieces) -> movestate {
    let dr = rank(n) - rank(o);
    let dc = column(n) - column(o);
    let adr = if dr >= 0 {
        dr
    } else {
        -dr
    };
    let adc = if dc >= 0 {
        dc
    } else {
        -dc
    };
    if entity.piece_color() == Some(color) {
        movestate::Illegal
    } else if adr + adc != 3 {
        movestate::Illegal
    } else if dr == 0 || dc == 0 {
        movestate::Illegal
    } else {
        movestate::Legal
    }
}

/// The rule of `piece`'s kind applied to a move from `o` to `n` onto
/// `entity`.
pub open spec fn piece_rule(
    piece: Pieces,
    o: Seq<char>,
    n: Seq<char>,
    entity: Pieces,
    lmove: Seq<Seq<char>>,
) -> movestate {
    match piece {
        Pieces::Empty(_) => movestate::Illegal,
        Pieces::Pawn(p) => pawn_rule(p.color_of(), o, n, entity, lmove),
        Pieces::Knight(p) => knight_rule(p.color_of(), o, n, entity),
        _ => movestate::Legal,
    }
}

} // verus!

verus! {

/// The icon every piece of a kind is drawn with.
pub open spec fn kind_icon(p: Pieces) -> char {
    match p {
        Pieces::Empty(_) => ' ',
        Pieces::Pawn(_) => 'P',
        Pieces::Rook(_) => 'R',
        Pieces::Knight(_) => 'K',
        Pieces::Bishop(_) => 'B',
        Pieces::Queen(_) => 'Q',
        Pieces::King(_) => '\u{271d}',
    }
}

/// The piece as the constructors of this crate make it: the kind's value
/// and icon.
pub closed spec fn canonical(p: Pieces) -> bool {
    match p {
        Pieces::Empty(e) => e.icon == ' ',
        Pieces::Pawn(x) => x.value == 1 && x.icon == 'P',
        Pieces::Rook(x) => x.value == 5 && x.icon == 'R',
        Pieces::Knight(x) => x.value == 3 && x.icon == 'K',
        Pieces::Bishop(x) => x.value == 3 && x.icon == 'B',
        Pieces::Queen(x) => x.value == 8 && x.icon == 'Q',
        Pieces::King(x) => x.value == 0 && x.icon == '\u{271d}',
    }
}

/// The white piece of the same kind (an empty square stays empty).
pub open spec fn whiten(p: Pieces) -> Pieces {
    match p {
        Pieces::Empty(_) => Empty::made(),
        Pieces::Pawn(_) => Pawn::made(Colors::White),
        Pieces::Rook(_) => Rook::made(Colors::White),
        Pieces::Knight(_) => Knight::made(Colors::White),
        Pieces::Bishop(_) => Bishop::made(Colors::White),
        Pieces::Queen(_) => Queen::made(Colors::White),
        Pieces::King(_) => King::made(Colors::White),
    }
}

/// A canonical piece is drawn with its kind's icon.
pub proof fn lemma_canonical_icon(p: Pieces)
    requires
        canonical(p),
    ensures
        p.icon_char() == kind_icon(p),
{
}

/// Every constructor makes canonical pieces of the stated kind and colour.
pub proof fn lemma_made(c: Colors)
    ensures
        canonical(Empty::made()),
        Empty::made() is Empty,
        canonical(Pawn::made(c)) && Pawn::made(c) is Pawn && Pawn::made(c).piece_color() == Some(c),
        canonical(Rook::made(c)) && Rook::made(c) is Rook && Rook::made(c).piece_color() == Some(c),
        canonical(Knight::made(c)) && Knight::made(c) is Knight && Knight::made(c).piece_color()
            == Some(c),
        canonical(Bishop::made(c)) && Bishop::made(c) is Bishop && Bishop::made(c).piece_color()
            == Some(c),
        canonical(Queen::made(c)) && Queen::made(c) is Queen && Queen::made(c).piece_color()
            == Some(c),
        canonical(King::made(c)) && King::made(c) is King && King::made(c).piece_color() == Some(c),
{
}

} // verus!

verus! {

/// A square is empty exactly when what stands on it has no colour.
pub proof fn lemma_empty_has_no_color(p: Pieces)
    ensures
        (p is Empty) <==> p.piece_color() is None,
{
}

/// The colour of a pawn or knight is its own colour.
pub proof fn lemma_piece_color(p: Pieces)
    ensures
        p matches Pieces::Pawn(x) ==> p.piece_color() == Some(x.color_of()),
        p matches Pieces::Knight(x) ==> p.piece_color() == Some(x.color_of()),
{
}

} // verus!

verus! {

/// A knight's move is judged the same in both directions.
pub proof fn lemma_knight_symmetric(color: Colors, o: Seq<char>, n: Seq<char>, entity: Pieces)
    ensures
        knight_rule(color, o, n, entity) == knight_rule(color, n, o, entity),
{
}

/// A legal pawn move goes forward, one square or two: up the board for
/// white, down for black.
pub proof fn lemma_pawn_moves_forward(
    color: Colors,
    o: Seq<char>,
    n: Seq<char>,
    entity: Pieces,
    lmove: Seq<Seq<char>>,
)
    requires
        pawn_rule(color, o, n, entity, lmove) == movestate::Legal,
    ensures
        color == Colors::White ==> 1 <= rank(n) - rank(o) <= 2,
        color == Colors::Black ==> 1 <= rank(o) - rank(n) <= 2,
        rank(n) - rank(o) == 2 || rank(o) - rank(n) == 2 ==> column(o) == column(n) && entity is Empty,
{
}

/// A knight's move is legal exactly when it does not land on a piece of
/// the knight's colour and it is an L-shaped jump: two squares along one
/// of rank and file and one along the other.
pub proof fn lemma_knight_moves_l_shape(color: Colors, o: Seq<char>, n: Seq<char>, entity: Pieces)
    ensures
        knight_rule(color, o, n, entity) == movestate::Legal <==> {
            let dr = rank(n) - rank(o);
            let dc = column(n) - column(o);
            &&& entity.piece_color() != Some(color)
            &&& ((dr == 1 || dr == -1) && (dc == 2 || dc == -2)) || ((dr == 2 || dr == -2) && (
            dc == 1 || dc == -1))
        },
        knight_rule(color, o, n, entity) != movestate::EnPassant,
{
}

/// The pawn rule in full.  A pawn never lands on a piece of its own
/// colour.  Onto an empty square of its own file it moves one square
/// forward (up for white, down for black), or two from its home rank (2 for
/// white, 7 for black); onto an enemy piece it moves one square forward
/// into a neighbouring file; and a step onto an empty square of a
/// neighbouring file is en passant exactly when the previous move ended on
/// the pawn's rank, in the destination's file or the file after it.
pub proof fn lemma_pawn_rule_cases(
    color: Colors,
    o: Seq<char>,
    n: Seq<char>,
    entity: Pieces,
    lmove: Seq<Seq<char>>,
)
    ensures
        ({
            let dr = rank(n) - rank(o);
            let dc = column(n) - column(o);
            let ahead = if color == Colors::White {
                dr
            } else {
                -dr
            };
            let home = if color == Colors::White {
                2int
            } else {
                7int
            };
            let last_file = lower_code_of(lmove[2][0]) - 96;
            &&& pawn_rule(color, o, n, entity, lmove) == movestate::Legal <==> {
                &&& entity.piece_color() != Some(color)
                &&& {
                    ||| entity is Empty && dc == 0 && (ahead == 1 || (ahead == 2 && rank(o) == home))
                    ||| !(entity is Empty) && (dc == 1 || dc == -1) && ahead == 1
                }
            }
            &&& pawn_rule(color, o, n, entity, lmove) == movestate::EnPassant <==> {
                &&& entity is Empty
                &&& (dc == 1 || dc == -1)
                &&& rank(lmove[2]) == rank(o)
                &&& (last_file == column(n) || last_file == column(n) + 2)
            }
        }),
{
    lemma_empty_has_no_color(entity);
}

} // verus!
