use chess::board::build;
use chess::common::{Colors, Pawn};
use chess::gamestate::{decode_game_state, game_state, StateError};
use chess::http::{request_for, Response};
use chess::server::{http_response, parseArgs};
use chess::text::{contains_str, decimal_string, delete_char, delete_str, same_text, split_on};

const START_STATE: &str = "RKBQ\u{271d}BKR:PPPPPPPP:        :        :        :        :PPPPPPPP:RKBQ\u{271d}BKR:;white;black;";

fn kingless_text(player: &str, current: &str) -> String {
    format!("RKBQ BKR:PPPPPPPP:        :        :        :        :PPPPPPPP:RKBQ BKR:;{};{};", player, current)
}

#[test]
fn starting_position_text() {
    let mut b = build();
    assert_eq!(game_state(&mut b, Colors::White, Colors::Black), START_STATE);
}

#[test]
fn position_with_kings_cannot_be_read_back() {
    let mut b = build();
    let text = game_state(&mut b, Colors::White, Colors::White);
    assert_eq!(decode_game_state(&text).err(), Some(StateError::Cell));
}

#[test]
fn kingless_position_reads_back_white_with_colours_swapped() {
    let (player, current, mut board) = decode_game_state(&kingless_text("white", "black")).unwrap();
    assert_eq!(player, Colors::Black);
    assert_eq!(current, Colors::Black);
    let mut rows = board.as_array();
    // every piece comes back white
    assert_eq!(rows[6].as_array()[0].locator, Pawn::new(Colors::White));
    let mut again = board;
    let text = game_state(&mut again, Colors::White, Colors::Black);
    assert_eq!(text, kingless_text("white", "black"));
}

#[test]
fn lower_case_means_black_and_t_means_king() {
    let text = "rkbqtbkr:pppppppp:        :        :        :        :PPPPPPPP:RKBQTBKR:;black;white;";
    let (player, current, mut board) = decode_game_state(text).unwrap();
    assert_eq!(player, Colors::White);
    assert_eq!(current, Colors::White);
    let mut rows = board.as_array();
    assert_eq!(rows[1].as_array()[3].locator, Pawn::new(Colors::Black));
    assert_eq!(board.show().lines().next().unwrap(), "RKBQ\u{271d}BKR  1");
}

#[test]
fn state_errors() {
    assert_eq!(decode_game_state("Access rejected.").err(), Some(StateError::NoAccess));
    assert_eq!(decode_game_state("x;green;white;").err(), Some(StateError::Player));
    assert_eq!(decode_game_state("x;black").err(), Some(StateError::Truncated));
    assert_eq!(decode_game_state("x;black;red;").err(), Some(StateError::CurrentPlayer));
    assert_eq!(decode_game_state("PPPPPPPP:PPP;black;white;").err(), Some(StateError::Truncated));
    let bad = "PPPPPPPX:PPPPPPPP:        :        :        :        :pppppppp:rrrrrrrr:;white;white;";
    assert_eq!(decode_game_state(bad).err(), Some(StateError::Cell));
}

#[test]
fn query_arguments() {
    assert_eq!(parseArgs("/gamestate".to_string()), Vec::<(String, String)>::new());
    assert_eq!(
        parseArgs("/gamestate?passwd=abc".to_string()),
        vec![("passwd".to_string(), "abc".to_string())]
    );
    assert_eq!(
        parseArgs("/x?flag?a=b=c".to_string()),
        vec![("flag".to_string(), "flag".to_string()), ("a".to_string(), "b".to_string())]
    );
}

#[test]
fn reply_framing_counts_bytes() {
    assert_eq!(http_response("abc"), "HTTP/1.1 200 OK\r\nContent-Length: 3\r\n\r\nabc");
    assert_eq!(http_response(""), "HTTP/1.1 200 OK\r\nContent-Length: 0\r\n\r\n");
    assert_eq!(http_response("\u{271d}"), "HTTP/1.1 200 OK\r\nContent-Length: 3\r\n\r\n\u{271d}");
}

#[test]
fn response_parts() {
    let text = "HTTP/1.1 200 OK\r\nContent-Length: 6\r\n\r\nupdate".to_string();
    assert!(Response::readable(&text));
    let r = Response::new(text);
    assert_eq!(r.content, "update");
    assert_eq!(r.header, "HTTP/1.1 200 OK\r\nContent-Length: 6\r\n\r\nupdate");
    assert_eq!(r.attachment, "none");
    let with_file = "H\r\nContent-Disposition: x; filename=\"a.txt\"\r\nContent-Length: 2\r\n\r\nhi".to_string();
    let r = Response::new(with_file);
    assert_eq!(r.header, "H\r\n");
    assert_eq!(r.content, "hi");
    assert_eq!(r.attachment, "a.txt");
}

#[test]
fn unreadable_responses() {
    assert!(!Response::readable("HTTP/1.1 200 OK\r\n\r\nx"));
    assert!(!Response::readable("HTTP/1.1 200 OK\r\nContent-Length: 1\r\nx"));
    assert!(!Response::readable("H\r\nContent-Length: 1\r\n\r\nfilename"));
}

#[test]
fn request_text() {
    assert_eq!(
        request_for("h:1", "/move?passwd=p", "e2 e4"),
        "GET /move?passwd=p HTTP/1.1\r\nHost: h:1\r\n\r\ne2 e4"
    );
}

#[test]
fn text_helpers() {
    assert_eq!(split_on("a  b", " "), vec!["a", "", "b"]);
    assert_eq!(split_on("a--b--", "--"), vec!["a", "b", ""]);
    assert_eq!(split_on("", ";"), vec![""]);
    assert!(contains_str("abc", "bc"));
    assert!(!contains_str("abc", "cb"));
    assert_eq!(decimal_string(0), "0");
    assert_eq!(decimal_string(1024), "1024");
    assert_eq!(delete_str("GET /x GET ", "GET "), "/x ");
    assert_eq!(delete_char("a\0b\0", '\0'), "ab");
    assert!(same_text("x", "x"));
    assert!(!same_text("x", "xy"));
}

#[test]
fn reply_reads_back_as_its_content() {
    for contents in ["update", "", "Access rejected.", START_STATE] {
        let reply = http_response(contents);
        assert!(Response::readable(&reply));
        let r = Response::new(reply.clone());
        assert_eq!(r.content, contents);
        assert_eq!(r.header, reply);
        assert_eq!(r.attachment, "none");
    }
}

#[test]
fn reply_starting_with_a_length_header_does_not_read_back() {
    let reply = http_response("Content-Length: 3");
    assert!(!Response::readable(&reply));
    let reply = http_response("x\r\n\r\ny");
    assert!(Response::readable(&reply));
    assert_eq!(Response::new(reply).content, "x");
}

#[test]
fn joined_text_splits_back() {
    assert_eq!(split_on("ab:c::d", ":"), vec!["ab", "c", "", "d"]);
    assert_eq!(split_on("x;y;z;", ";"), vec!["x", "y", "z", ""]);
}
