use chess::board::build;
use chess::common::{movestate, Bishop, Colors, Empty, King, Knight, Pawn, Pieces, Queen, Rook};
use chess::control::Controller;

fn controller() -> Controller {
    Controller::new(build())
}

fn texts(v: &[String]) -> Vec<&str> {
    v.iter().map(|s| s.as_str()).collect()
}

#[test]
fn new_controller_has_placeholder_last_move() {
    let c = controller();
    assert_eq!(c.lmove, vec!["e".to_string(), "a4".to_string(), "c4".to_string()]);
}

#[test]
fn pawn_single_and_double_step_from_home() {
    let mut c = controller();
    assert_eq!(c.chk_move("e2 e3".to_string()), movestate::Legal);
    assert_eq!(c.chk_move("e2 e4".to_string()), movestate::Legal);
    assert_eq!(c.chk_move("e2 e5".to_string()), movestate::Illegal);
    assert_eq!(c.chk_move("e7 e5".to_string()), movestate::Legal);
    assert_eq!(c.chk_move("e7 e4".to_string()), movestate::Illegal);
}

#[test]
fn pawn_cannot_go_backwards_or_stay() {
    let mut c = controller();
    assert!(c.mk_move("e2 e4".to_string()));
    assert_eq!(c.chk_move("e4 e3".to_string()), movestate::Illegal);
    assert_eq!(c.chk_move("e4 e4".to_string()), movestate::Illegal);
    // two steps away from the home rank are refused
    assert_eq!(c.chk_move("e4 e6".to_string()), movestate::Illegal);
}

#[test]
fn upper_case_files_and_trailing_text_are_read() {
    let mut c = controller();
    assert_eq!(c.chk_move("E2 E4\n".to_string()), movestate::Legal);
    assert_eq!(c.chk_move("e2x e4y extra".to_string()), movestate::Legal);
}

#[test]
fn blocked_pawn_and_rook() {
    let mut c = controller();
    // the rook on a1 is behind the pawn on a2
    assert_eq!(c.chk_move("a1 a3".to_string()), movestate::Illegal);
    // the pawn on a2 cannot jump over a piece on a3
    assert!(c.mk_move("b1 a3".to_string()));
    assert_eq!(c.chk_move("a2 a4".to_string()), movestate::Illegal);
}

#[test]
fn knight_jumps() {
    let mut c = controller();
    assert_eq!(c.chk_move("b1 c3".to_string()), movestate::Legal);
    assert_eq!(c.chk_move("b1 a3".to_string()), movestate::Legal);
    assert_eq!(c.chk_move("b1 b3".to_string()), movestate::Illegal);
    // d2 holds a white pawn
    assert_eq!(c.chk_move("b1 d2".to_string()), movestate::Illegal);
}

#[test]
fn empty_square_cannot_move() {
    let mut c = controller();
    assert_eq!(c.chk_move("e4 e5".to_string()), movestate::Illegal);
}

#[test]
fn other_pieces_are_not_restricted() {
    let mut c = controller();
    // bishop, queen and king rules accept anything, even their own pieces
    assert_eq!(c.chk_move("c1 c2".to_string()), movestate::Legal);
    assert_eq!(c.chk_move("d1 h5".to_string()), movestate::Legal);
    assert_eq!(c.chk_move("e1 e8".to_string()), movestate::Legal);
}

#[test]
fn legal_move_moves_the_piece_and_records_it() {
    let mut c = controller();
    assert!(c.mk_move("e2 e4".to_string()));
    let text = c.board.show();
    let lines: Vec<&str> = text.split('\n').collect();
    assert_eq!(lines[1], "PPPP PPP  2");
    assert_eq!(lines[3], "    P     4");
    assert_eq!(c.lmove, vec!["P".to_string(), "e2".to_string(), "e4".to_string()]);
}

#[test]
fn move_along_a_rank() {
    let mut c = controller();
    // with the knight gone from b1, the rook on a1 still cannot pass c1
    assert!(c.mk_move("b1 a3".to_string()));
    assert_eq!(c.chk_move("a1 d1".to_string()), movestate::Illegal);
    // the rook rule itself does not look at the destination
    assert_eq!(c.chk_move("a1 c1".to_string()), movestate::Legal);
    assert_eq!(c.chk_move("a1 b1".to_string()), movestate::Legal);
    assert!(c.mk_move("a1 b1".to_string()));
    let text = c.board.show();
    let first = text.split('\n').next().unwrap().to_string();
    assert_eq!(first, " RBQ\u{271d}BKR  1");
    assert_eq!(c.lmove, vec!["R".to_string(), "a1".to_string(), "b1".to_string()]);
}

#[test]
fn illegal_move_changes_nothing() {
    let mut c = controller();
    let before = c.board.show();
    assert!(c.mk_move("e2 e5".to_string()));
    assert_eq!(c.board.show(), before);
    assert_eq!(c.lmove, vec!["e".to_string(), "a4".to_string(), "c4".to_string()]);
}

#[test]
fn pawn_capture_diagonally() {
    let mut c = controller();
    assert!(c.mk_move("e2 e4".to_string()));
    assert!(c.mk_move("d7 d5".to_string()));
    assert_eq!(c.chk_move("e4 d5".to_string()), movestate::Legal);
    assert!(c.mk_move("e4 d5".to_string()));
    let text = c.board.show();
    let lines: Vec<&str> = text.split('\n').collect();
    assert_eq!(lines[4], "   P      5");
    assert_eq!(lines[3], "          4");
}

#[test]
fn en_passant_capture() {
    let mut c = controller();
    assert!(c.mk_move("e2 e4".to_string()));
    assert!(c.mk_move("e4 e5".to_string()));
    assert!(c.mk_move("d7 d5".to_string()));
    assert_eq!(c.chk_move("e5 d6".to_string()), movestate::EnPassant);
    assert!(c.mk_move("e5 d6".to_string()));
    let text = c.board.show();
    let lines: Vec<&str> = text.split('\n').collect();
    assert_eq!(lines[4], "          5");
    assert_eq!(lines[5], "   P      6");
    assert_eq!(c.lmove, vec!["P".to_string(), "e5".to_string(), "d6".to_string()]);
}

#[test]
fn en_passant_needs_the_last_move_on_the_pawns_rank() {
    let mut c = controller();
    assert!(c.mk_move("e2 e4".to_string()));
    assert!(c.mk_move("e4 e5".to_string()));
    assert!(c.mk_move("d7 d6".to_string()));
    // d6 is now occupied: a capture, not en passant
    assert_eq!(c.chk_move("e5 d6".to_string()), movestate::Legal);
    assert!(c.mk_move("a7 a6".to_string()));
    // last move ended on rank 6, not on the pawn's rank 5
    assert_eq!(c.chk_move("e5 f6".to_string()), movestate::Illegal);
}

#[test]
fn en_passant_sideways_records_only() {
    let mut c = controller();
    assert!(c.mk_move("e2 e4".to_string()));
    assert!(c.mk_move("e4 e5".to_string()));
    assert!(c.mk_move("f7 f5".to_string()));
    // moving along the rank onto d5: the previous move ended on f5, rank 5
    assert_eq!(c.chk_move("e5 d5".to_string()), movestate::EnPassant);
    let before = c.board.show();
    assert!(c.mk_move("e5 d5".to_string()));
    assert_eq!(c.board.show(), before);
    assert_eq!(c.lmove, vec!["P".to_string(), "e5".to_string(), "d5".to_string()]);
}

#[test]
fn pawn_rule_directly() {
    let mut p = match Pawn::new(Colors::White) {
        Pieces::Pawn(p) => p,
        _ => unreachable!(),
    };
    let l = vec!["P".to_string(), "a7".to_string(), "a5".to_string()];
    assert_eq!(p.check_move(vec!["b2", "b4"], Empty::new(), l.clone()), movestate::Legal);
    assert_eq!(p.check_move(vec!["b3", "b5"], Empty::new(), l.clone()), movestate::Illegal);
    assert_eq!(p.check_move(vec!["b2", "c3"], Pawn::new(Colors::Black), l.clone()), movestate::Legal);
    assert_eq!(p.check_move(vec!["b2", "c3"], Pawn::new(Colors::White), l.clone()), movestate::Illegal);
    assert_eq!(p.check_move(vec!["b2", "d3"], Pawn::new(Colors::Black), l.clone()), movestate::Illegal);
    // en passant: last move ended on a5, the pawn stands on rank 5
    assert_eq!(p.check_move(vec!["b5", "a6"], Empty::new(), l.clone()), movestate::EnPassant);
    // squares off the board are read all the same
    assert_eq!(p.check_move(vec!["z8", "z9"], Empty::new(), l.clone()), movestate::Legal);
    let mut b = match Pawn::new(Colors::Black) {
        Pieces::Pawn(p) => p,
        _ => unreachable!(),
    };
    assert_eq!(b.check_move(vec!["b7", "b5"], Empty::new(), l.clone()), movestate::Legal);
    assert_eq!(b.check_move(vec!["b6", "b4"], Empty::new(), l.clone()), movestate::Illegal);
    assert_eq!(b.check_move(vec!["b7", "a6"], Rook::new(Colors::White), l), movestate::Legal);
}

#[test]
fn knight_rule_directly() {
    let mut k = match Knight::new(Colors::Black) {
        Pieces::Knight(k) => k,
        _ => unreachable!(),
    };
    assert_eq!(k.check_move(vec!["g8", "f6"], Empty::new()), movestate::Legal);
    assert_eq!(k.check_move(vec!["g8", "e7"], Empty::new()), movestate::Legal);
    assert_eq!(k.check_move(vec!["g8", "g5"], Empty::new()), movestate::Illegal);
    assert_eq!(k.check_move(vec!["g8", "f6"], Pawn::new(Colors::Black)), movestate::Illegal);
    assert_eq!(k.check_move(vec!["g8", "f6"], Pawn::new(Colors::White)), movestate::Legal);
}

#[test]
fn piece_dispatch_and_icons() {
    let l = vec!["e".to_string(), "a4".to_string(), "c4".to_string()];
    let mut e = Empty::new();
    assert_eq!(e.check_move(vec!["a1", "a2"], Empty::new(), l.clone()), movestate::Illegal);
    assert_eq!(e.getIcon(), " ");
    let mut r = Rook::new(Colors::White);
    assert_eq!(r.check_move(vec!["a1", "h8"], Empty::new(), l.clone()), movestate::Legal);
    assert_eq!(r.getIcon(), "R");
    let mut q = Queen::new(Colors::White);
    assert_eq!(q.getIcon(), "Q");
    let mut b = Bishop::new(Colors::Black);
    assert_eq!(b.getIcon(), "B");
    let mut k = King::new(Colors::Black);
    assert_eq!(k.getIcon(), "\u{271d}");
    assert_eq!(k.check_move(vec!["e8", "a1"], Empty::new(), l.clone()), movestate::Legal);
    let mut n = Knight::new(Colors::White);
    assert_eq!(n.getIcon(), "K");
    let mut p = Pawn::new(Colors::White);
    assert_eq!(p.getIcon(), "P");
    let _ = texts(&l);
}

#[test]
fn can_judge_tells_readable_moves() {
    let mut c = controller();
    assert!(c.can_judge(&"e2 e4".to_string()));
    assert!(!c.can_judge(&"e2".to_string()));
    assert!(!c.can_judge(&"e9 e4".to_string()));
    assert!(!c.can_judge(&"i2 e4".to_string()));
    assert!(!c.can_judge(&"e2  e4".to_string()));
    // a pawn step sideways reads the last move, which must be readable
    c.lmove = vec!["x".to_string()];
    assert!(!c.can_judge(&"e2 d3".to_string()));
    assert!(c.can_judge(&"e2 e4".to_string()));
}

#[test]
fn knight_rule_is_symmetric() {
    let mut k = match Knight::new(Colors::White) {
        Pieces::Knight(k) => k,
        _ => unreachable!(),
    };
    for (a, b) in [("b1", "c3"), ("b1", "b3"), ("d4", "f5"), ("d4", "e4")] {
        assert_eq!(
            k.check_move(vec![a, b], Empty::new()),
            k.check_move(vec![b, a], Empty::new())
        );
    }
}

#[test]
fn blocked_paths_toward_off_board_squares_are_illegal() {
    let mut c = controller();
    let placeholder = c.lmove.clone();
    // the black pawn on a7 blocks the way to a9
    assert!(c.can_judge(&"a2 a9".to_string()));
    assert_eq!(c.chk_move("a2 a9".to_string()), movestate::Illegal);
    // the knight on b1 blocks the rook's way along the first rank
    assert!(c.can_judge(&"a1 z1".to_string()));
    assert_eq!(c.chk_move("a1 z1".to_string()), movestate::Illegal);
    assert!(c.can_judge(&"a1 i1".to_string()));
    assert_eq!(c.chk_move("a1 i1".to_string()), movestate::Illegal);
    // the king on e1 stands between e2 and rank 0
    assert!(c.can_judge(&"e2 e0".to_string()));
    assert_eq!(c.chk_move("e2 e0".to_string()), movestate::Illegal);
    assert!(c.mk_move("a2 a9".to_string()));
    assert_eq!(c.lmove, placeholder);
    assert!(c.can_judge(&"e2 e4".to_string()));
}

#[test]
fn free_paths_off_the_board_cannot_be_judged() {
    let mut c = controller();
    // nothing stands right of h2 before the edge
    assert!(!c.can_judge(&"h2 k2".to_string()));
    assert!(!c.can_judge(&"h2 i2".to_string()));
    // only pawns and rooks are scanned
    assert!(!c.can_judge(&"b1 b9".to_string()));
    // a destination before `a` cannot be scanned
    assert!(!c.can_judge(&"a2 `2".to_string()));
    assert!(!c.can_judge(&"a2 a".to_string()));
}

#[test]
fn file_letters_ignore_case() {
    let mut c = controller();
    for (a, b) in [("e2 e4", "E2 E4"), ("b1 c3", "B1 c3"), ("a1 a3", "A1 A3"), ("e2 d3", "e2 D3")] {
        assert_eq!(c.chk_move(a.to_string()), c.chk_move(b.to_string()));
        assert_eq!(c.can_judge(&a.to_string()), c.can_judge(&b.to_string()));
    }
}

#[test]
fn pawn_rule_reads_non_ascii_files() {
    let l = vec!["e".to_string(), "a4".to_string(), "c4".to_string()];
    let mut p = Pawn::new(Colors::White);
    // `é` is its own lower-case form, so both squares lie in one column
    assert_eq!(p.check_move(vec!["é2", "é3"], Empty::new(), l.clone()), movestate::Legal);
    assert_eq!(p.check_move(vec!["É2", "é4"], Empty::new(), l.clone()), movestate::Legal);
    assert_eq!(p.check_move(vec!["é3", "é5"], Empty::new(), l.clone()), movestate::Illegal);
    let mut k = Knight::new(Colors::Black);
    assert_eq!(k.check_move(vec!["é8", "ç6"], Empty::new(), l.clone()), movestate::Illegal);
    assert_eq!(k.check_move(vec!["é8", "ê6"], Empty::new(), l.clone()), movestate::Legal);
}

#[test]
fn pawn_rule_column_before_a() {
    // the character before `a` is column 0: reachable from column 1 only
    let l = vec!["p".to_string(), "b2".to_string(), "b4".to_string()];
    let mut p = Pawn::new(Colors::White);
    assert_eq!(p.check_move(vec!["a4", "`5"], Pawn::new(Colors::Black), l.clone()), movestate::Legal);
    // en passant toward column 0 after a pawn stopped on b4
    assert_eq!(p.check_move(vec!["a4", "`5"], Empty::new(), l.clone()), movestate::EnPassant);
}

#[test]
fn rook_bishop_queen_king_ignore_the_move_text() {
    let l: Vec<String> = vec![];
    for mut piece in [
        Rook::new(Colors::White),
        Bishop::new(Colors::Black),
        Queen::new(Colors::White),
        King::new(Colors::Black),
    ] {
        assert_eq!(piece.check_move(vec![], Empty::new(), l.clone()), movestate::Legal);
        assert_eq!(piece.check_move(vec!["?"], Pawn::new(Colors::White), l.clone()), movestate::Legal);
    }
    let mut e = Empty::new();
    assert_eq!(e.check_move(vec![], Empty::new(), l.clone()), movestate::Illegal);
}

#[test]
fn try_check_move_tells_unreadable_moves() {
    let l = vec!["e".to_string(), "a4".to_string(), "c4".to_string()];
    let mut p = Pawn::new(Colors::White);
    assert_eq!(p.try_check_move(vec!["é2", "é3"], Empty::new(), l.clone()), Some(movestate::Legal));
    assert_eq!(p.try_check_move(vec!["e2"], Empty::new(), l.clone()), None);
    assert_eq!(p.try_check_move(vec!["e2", "_3"], Empty::new(), l.clone()), None);
    assert_eq!(p.try_check_move(vec!["e2", "ex"], Empty::new(), l.clone()), None);
    // column 0 compared with a column other than 1
    assert_eq!(p.try_check_move(vec!["c4", "`5"], Pawn::new(Colors::Black), l.clone()), None);
    assert_eq!(
        p.try_check_move(vec!["a4", "`5"], Pawn::new(Colors::Black), l.clone()),
        Some(movestate::Legal)
    );
    // a sideways step reads the last move
    assert_eq!(p.try_check_move(vec!["e4", "d5"], Empty::new(), vec!["x".to_string()]), None);
    assert_eq!(p.try_check_move(vec!["e4", "d5"], Empty::new(), l.clone()), Some(movestate::Illegal));
    let mut k = Knight::new(Colors::White);
    assert_eq!(k.try_check_move(vec!["b1", "x"], Empty::new(), l.clone()), None);
    assert_eq!(k.try_check_move(vec!["b1", "c3"], Empty::new(), l.clone()), Some(movestate::Legal));
    let mut r = Rook::new(Colors::White);
    assert_eq!(r.try_check_move(vec![], Empty::new(), vec![]), Some(movestate::Legal));
    let mut e = Empty::new();
    assert_eq!(e.try_check_move(vec![], Empty::new(), vec![]), Some(movestate::Illegal));
}
