use chess::board::{build, Board};
use chess::common::{Colors, Empty, Pawn};

const START: &str = "RKBQ\u{271d}BKR  1\nPPPPPPPP  2\n          3\n          4\n          5\n          6\nPPPPPPPP  7\nRKBQ\u{271d}BKR  8\n\nabcdefgh";

#[test]
fn starting_board_text() {
    let mut b: Board = build();
    assert_eq!(b.show(), START);
}

#[test]
fn show_leaves_the_board_unchanged() {
    let mut b = build();
    let first = b.show();
    assert_eq!(b.show(), first);
}

#[test]
fn rows_and_cells_round_trip() {
    let mut b = build();
    let mut rows = b.as_array();
    let mut cells = rows[3].as_array();
    cells[4].locator = Pawn::new(Colors::Black);
    cells[0].locator = Empty::new();
    rows[3].dump_array(cells);
    b.dump_array(rows);
    let text = b.show();
    let lines: Vec<&str> = text.split('\n').collect();
    assert_eq!(lines[3], "    P     4");
    let mut again = b.as_array();
    assert_eq!(again[3].as_array()[4].locator, Pawn::new(Colors::Black));
    assert_eq!(again[0].as_array()[0].locator, b.as_array()[0].as_array()[0].locator);
}

#[test]
fn starting_cells() {
    let mut b = build();
    let mut rows = b.as_array();
    assert_eq!(rows[1].as_array()[0].locator, Pawn::new(Colors::White));
    assert_eq!(rows[6].as_array()[7].locator, Pawn::new(Colors::Black));
    assert_eq!(rows[4].as_array()[4].locator, Empty::new());
}
