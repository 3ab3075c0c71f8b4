use chess::board::build;
use chess::common::{Colors, Pawn};
use chess::control::Controller;
use chess::game::{
    handle_event, key_event_of, screen, parse_event, update_gamestate, Action, Direction, KeyCode, KeyEvent, Modifier,
    Program, States, TerminalSize,
};
use chess::gamestate::StateError;
use chess::server::{handle_client_con, handle_con, RequestError};

fn program() -> Program {
    Program {
        state: States::Control,
        io: String::new(),
        control: Controller::new(build()),
        input: String::new(),
        exit: false,
        multiplayer: false,
        current_player: Colors::White,
        player: Colors::White,
        server: String::new(),
        client: String::new(),
        passwd: String::new(),
        is_hosting: false,
    }
}

fn key(code: KeyCode) -> KeyEvent {
    KeyEvent { code, modifiers: vec![] }
}

fn type_text(p: &mut Program, text: &str) {
    for c in text.chars() {
        let code = if c == ':' { KeyCode::Colon } else { KeyCode::Char(c) };
        let a = parse_event(key(code), p);
        assert!(matches!(a, Action::Nothing));
    }
}

#[test]
fn key_bytes() {
    let e = key_event_of(27);
    assert_eq!(e.code, KeyCode::Escape);
    assert!(e.modifiers.is_empty());
    assert_eq!(key_event_of(127).code, KeyCode::Backspace);
    assert_eq!(key_event_of(58).code, KeyCode::Colon);
    assert_eq!(key_event_of(10).code, KeyCode::Enter);
    assert_eq!(key_event_of(b'a').code, KeyCode::Char('a'));
    assert!(key_event_of(b'a').modifiers.is_empty());
    let ctrl = key_event_of(1);
    assert_eq!(ctrl.code, KeyCode::Char('\u{1}'));
    assert_eq!(ctrl.modifiers, vec![Modifier::Control]);
    assert!(key_event_of(9).modifiers.is_empty());
    assert_eq!(key_event_of(150).modifiers, vec![Modifier::Control]);
    assert!(key_event_of(200).modifiers.is_empty());
    assert_eq!(key_event_of(200).code, KeyCode::Char('\u{c8}'));
}

#[test]
fn control_mode_keys() {
    let mut p = program();
    parse_event(key(KeyCode::Escape), &mut p);
    assert_eq!(p.io, "use :q to leave");
    assert_eq!(p.state, States::Control);
    parse_event(key(KeyCode::Char('x')), &mut p);
    assert_eq!(p.state, States::Control);
    parse_event(key(KeyCode::Char('i')), &mut p);
    assert_eq!(p.state, States::Input);
    parse_event(key(KeyCode::Escape), &mut p);
    assert_eq!(p.state, States::Control);
    parse_event(key(KeyCode::Colon), &mut p);
    assert_eq!(p.state, States::Command);
    assert_eq!(p.io, ":");
}

#[test]
fn command_mode_quit_and_unknown() {
    let mut p = program();
    parse_event(key(KeyCode::Colon), &mut p);
    type_text(&mut p, "q");
    assert_eq!(p.io, ":q");
    parse_event(key(KeyCode::Enter), &mut p);
    assert!(p.exit);
    assert_eq!(p.state, States::Control);

    let mut p = program();
    parse_event(key(KeyCode::Colon), &mut p);
    type_text(&mut p, "w:");
    parse_event(key(KeyCode::Arrow(Direction::Up)), &mut p);
    assert_eq!(p.io, ":w:");
    parse_event(key(KeyCode::Enter), &mut p);
    assert!(!p.exit);
    assert_eq!(p.io, "unknown command!");
    assert_eq!(p.state, States::Control);
}

#[test]
fn command_backspace_back_to_control() {
    let mut p = program();
    parse_event(key(KeyCode::Colon), &mut p);
    type_text(&mut p, "a");
    parse_event(key(KeyCode::Backspace), &mut p);
    assert_eq!(p.io, ":");
    assert_eq!(p.state, States::Command);
    parse_event(key(KeyCode::Backspace), &mut p);
    assert_eq!(p.io, "");
    assert_eq!(p.state, States::Control);
}

#[test]
fn local_move_passes_the_turn() {
    let mut p = program();
    parse_event(key(KeyCode::Char('i')), &mut p);
    type_text(&mut p, "e2 e5");
    parse_event(key(KeyCode::Backspace), &mut p);
    assert_eq!(p.input, "e2 e");
    type_text(&mut p, "4");
    let a = parse_event(key(KeyCode::Enter), &mut p);
    assert!(matches!(a, Action::Nothing));
    assert_eq!(p.input, "");
    assert_eq!(p.current_player, Colors::Black);
    let mut rows = p.control.board.as_array();
    assert_eq!(rows[3].as_array()[4].locator, Pawn::new(Colors::White));
}

#[test]
fn illegal_and_out_of_turn_moves() {
    let mut p = program();
    parse_event(key(KeyCode::Char('i')), &mut p);
    type_text(&mut p, "e2 e5");
    parse_event(key(KeyCode::Enter), &mut p);
    assert_eq!(p.io, "Illegal Move!");
    assert_eq!(p.current_player, Colors::White);
    assert_eq!(p.input, "");
    p.current_player = Colors::Black;
    type_text(&mut p, "e7 e5");
    parse_event(key(KeyCode::Enter), &mut p);
    assert_eq!(p.io, "Not your turn!");
    assert_eq!(p.input, "");
}

#[test]
fn host_sends_the_new_position() {
    let mut p = program();
    p.multiplayer = true;
    p.is_hosting = true;
    p.client = "10.0.0.2:5050".to_string();
    parse_event(key(KeyCode::Char('i')), &mut p);
    type_text(&mut p, "e2 e4");
    match parse_event(key(KeyCode::Enter), &mut p) {
        Action::Request { host, path, body, refresh } => {
            assert_eq!(host, "10.0.0.2:5050");
            assert_eq!(path, "/update");
            assert!(body.ends_with(";white;black;"));
            assert!(body.starts_with("RKBQ\u{271d}BKR:PPPP PPP:        :    P   :"));
            assert!(!refresh);
        }
        Action::Nothing => panic!("a request was due"),
    }
    assert_eq!(p.current_player, Colors::Black);
}

#[test]
fn joining_player_sends_the_move() {
    let mut p = program();
    p.multiplayer = true;
    p.server = "10.0.0.1:2137".to_string();
    p.passwd = "pw".to_string();
    parse_event(key(KeyCode::Char('i')), &mut p);
    type_text(&mut p, "e2 e4");
    match parse_event(key(KeyCode::Enter), &mut p) {
        Action::Request { host, path, body, refresh } => {
            assert_eq!(host, "10.0.0.1:2137");
            assert_eq!(path, "/move?passwd=pw");
            assert_eq!(body, "e2 e4");
            assert!(refresh);
        }
        Action::Nothing => panic!("a request was due"),
    }
    assert_eq!(p.current_player, Colors::White);
    type_text(&mut p, "e2 e5");
    parse_event(key(KeyCode::Enter), &mut p);
    assert_eq!(p.io, "Illegal move!");
}

#[test]
fn received_position_replaces_the_board() {
    let mut p = program();
    let text = "RKBQTBKR:PPPPPPPP:        :        :        :        :pppppppp:rkbqtbkr:;white;black;";
    update_gamestate(&mut p, text.to_string());
    assert_eq!(p.player, Colors::Black);
    assert_eq!(p.current_player, Colors::Black);
    let mut rows = p.control.board.as_array();
    assert_eq!(rows[0].as_array()[0].locator, chess::common::Rook::new(Colors::White));
    assert_eq!(rows[7].as_array()[4].locator, chess::common::King::new(Colors::Black));
    // a text that cannot be read is refused before any change
    assert_eq!(
        chess::gamestate::decode_game_state("nope").err(),
        Some(StateError::NoAccess)
    );
}

#[test]
fn host_answers_requests() {
    let mut p = program();
    p.passwd = "pw".to_string();
    let r = handle_con(&mut p, "GET /gamestate?passwd=pw HTTP/1.1\r\nHost: h\r\n\r\n\0\0", "10.0.0.2:40000");
    assert!(r.unwrap().ends_with(";white;white;"));
    assert_eq!(p.client, "10.0.0.2:5050");

    let r = handle_con(&mut p, "GET /gamestate?passwd=no HTTP/1.1\r\n\r\n", "1.2.3.4:1");
    assert_eq!(r.unwrap(), "Access rejected.");

    let r = handle_con(&mut p, "GET /move?passwd=pw HTTP/1.1\r\n\r\ne2 e4\0\0", "1.2.3.4:1");
    assert_eq!(r.unwrap(), "update");
    assert_eq!(p.io, "Opponent made a move: e2 e4");
    assert_eq!(p.current_player, Colors::Black);

    let r = handle_con(&mut p, "GET /move?passwd=pw HTTP/1.1\r\n\r\ne2 e4", "1.2.3.4:1");
    assert_eq!(r.unwrap(), "Malformed status. Access rejected.");
    assert_eq!(p.io, "malformed http request with move: e2 e4");

    let r = handle_con(&mut p, "GET /other HTTP/1.1\r\n\r\n", "1.2.3.4:1");
    assert_eq!(r.unwrap(), "Malformed request. Access rejected.");
    assert_eq!(p.io, "malformed http request: GET /other HTTP/1.1\r\n\r\n");

    assert_eq!(handle_con(&mut p, "GET /move HTTP/1.1", "x").err(), Some(RequestError::NoBody));
    assert_eq!(
        handle_con(&mut p, "GET /move?passwd=pw HTTP/1.1\r\n\r\nzz", "x").err(),
        Some(RequestError::UnreadableMove)
    );
}

#[test]
fn joined_player_answers_updates() {
    let mut p = program();
    let req = "GET /update HTTP/1.1\r\n\r\nRKBQTBKR:PPPPPPPP:        :        :        :        :pppppppp:rkbqtbkr:;black;white;";
    assert_eq!(handle_client_con(&mut p, req).unwrap(), "");
    assert_eq!(p.player, Colors::White);
    let bad = "GET /update HTTP/1.1\r\n\r\nx;green;white;";
    assert_eq!(handle_client_con(&mut p, bad).err(), Some(RequestError::State(StateError::Player)));
    let other = handle_client_con(&mut p, "GET /x HTTP/1.1\r\n\r\n").unwrap();
    assert_eq!(other, "Malformed request. Access rejected.");
}

#[test]
fn terminal_size_holds_its_fields() {
    let t = TerminalSize { rows: 24, cols: 80 };
    assert_eq!((t.rows, t.cols), (24, 80));
}

#[test]
fn screen_layout() {
    let mut p = program();
    let size = TerminalSize { rows: 30, cols: 20 };
    let board = p.control.board.show();
    let rule = "-".repeat(20);
    let expected = format!(
        "{}\n{}\n\n{}\nYour Pieces: White\nCurrent Turn: White\n{}\x1b[48;5;54m{}\x1b[0m",
        board,
        rule,
        rule,
        "\n".repeat(14),
        " ".repeat(20)
    );
    let s = screen(&mut p, size);
    assert_eq!(s.text, expected);
    assert_eq!(s.cursor, None);
    p.state = States::Input;
    p.input = "e2".to_string();
    assert_eq!(screen(&mut p, size).cursor, Some((12, 3)));
    p.state = States::Command;
    p.io = ":q".to_string();
    assert_eq!(screen(&mut p, size).cursor, Some((30, 3)));
    // a status line as wide as the window fills the bar
    p.state = States::Control;
    p.io = "x".repeat(20);
    assert!(screen(&mut p, size).text.ends_with(&format!("\x1b[48;5;54m{}\x1b[0m", "x".repeat(20))));
}

#[test]
fn request_reads_back_at_the_host() {
    use_request_read_back();
}

fn use_request_read_back() {
    let mut p = program();
    p.passwd = "pw".to_string();
    let text = chess::http::request_for("10.0.0.1:2137", "/move?passwd=pw", "e2 e4");
    assert_eq!(handle_con(&mut p, &text, "10.0.0.2:1").unwrap(), "update");
    assert_eq!(p.io, "Opponent made a move: e2 e4");
}

#[test]
fn moves_keep_the_controller_able_to_judge() {
    let mut p = program();
    for m in ["e2 e4", "d7 d5", "e4 d5", "c7 c5", "d5 c6", "b8 c6"] {
        assert!(p.control.can_judge(&m.to_string()));
        p.control.mk_move(m.to_string());
    }
    for next in ["a2 b3", "h7 g6", "c6 b4"] {
        assert!(p.control.can_judge(&next.to_string()));
    }
}

#[test]
fn blocked_move_off_the_board_is_illegal() {
    let mut p = program();
    parse_event(key(KeyCode::Char('i')), &mut p);
    type_text(&mut p, "a2 a9");
    let a = parse_event(key(KeyCode::Enter), &mut p);
    assert!(matches!(a, Action::Nothing));
    assert_eq!(p.io, "Illegal Move!");
    assert_eq!(p.current_player, Colors::White);
    assert_eq!(p.input, "");
}

#[test]
fn handle_event_checks_the_typed_move() {
    let mut p = program();
    assert!(matches!(handle_event(key(KeyCode::Char('i')), &mut p), Some(Action::Nothing)));
    assert_eq!(p.state, States::Input);
    type_text(&mut p, "h2 k2");
    assert!(handle_event(key(KeyCode::Enter), &mut p).is_none());
    assert_eq!(p.input, "h2 k2");
    assert_eq!(p.state, States::Input);
    assert_eq!(p.io, "");
    for _ in 0..2 {
        assert!(matches!(handle_event(key(KeyCode::Backspace), &mut p), Some(Action::Nothing)));
    }
    type_text(&mut p, "h4");
    assert!(matches!(handle_event(key(KeyCode::Enter), &mut p), Some(Action::Nothing)));
    assert_eq!(p.current_player, Colors::Black);
    assert_eq!(p.input, "");
}

#[test]
fn keys_keep_the_settings() {
    let mut p = program();
    p.server = "10.0.0.1".to_string();
    p.passwd = "pw".to_string();
    for code in [KeyCode::Colon, KeyCode::Char('x'), KeyCode::Enter, KeyCode::Char('i'), KeyCode::Escape] {
        parse_event(key(code), &mut p);
        assert_eq!(p.server, "10.0.0.1");
        assert_eq!(p.passwd, "pw");
        assert_eq!(p.player, Colors::White);
        assert_eq!(p.current_player, Colors::White);
        assert!(!p.exit);
    }
    // command and input never switch to each other directly
    parse_event(key(KeyCode::Char('i')), &mut p);
    parse_event(key(KeyCode::Colon), &mut p);
    assert_eq!(p.state, States::Input);
    assert_eq!(p.input, ":");
}

#[test]
fn host_rejects_blocked_move_off_the_board() {
    let mut p = program();
    p.passwd = "pw".to_string();
    let r = handle_con(&mut p, "GET /move?passwd=pw HTTP/1.1\r\n\r\na2 a9", "1.2.3.4:1");
    assert_eq!(r.unwrap(), "Malformed status. Access rejected.");
    assert_eq!(p.io, "malformed http request with move: a2 a9");
    assert_eq!(p.current_player, Colors::White);
    assert_eq!(
        handle_con(&mut p, "GET /move?passwd=pw HTTP/1.1\r\n\r\nh2 k2", "x").err(),
        Some(RequestError::UnreadableMove)
    );
}
