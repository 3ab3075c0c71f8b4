//! The terminal game: key events, the three input modes and the decisions
//! taken on each key.
//!
//! The terminal loop feeds one [`KeyEvent`] at a time to [`parse_event`],
//! which updates the [`Program`] and names the network request, if any,
//! that the loop must then send.
use vstd::prelude::*;
use vstd::string::{StrSliceExecFns, StringExecFns};
use crate::common::{movestate, Colors};
use crate::control::{board_after, last_after, move_allowed, move_verdict, Controller};
use crate::gamestate::{decode_game_state, decode_state, game_state, opposite, state_text};
use crate::text::{chars_of, contains_pat, matches_at, push_char, same_text, string_from_chars};

verus! {

broadcast use vstd::string::group_string_axioms;

/// Size of the terminal window.
#[derive(Clone, Copy, Debug, PartialEq, Eq, Structural)]
pub struct TerminalSize {
    pub rows: u16,
    pub cols: u16,
}

/// A key modifier.
#[derive(Clone, Copy, Debug, PartialEq, Eq, Structural)]
pub enum Modifier {
    Control,
}

/// An arrow key's direction.
#[derive(Clone, Copy, Debug, PartialEq, Eq, Structural)]
pub enum Direction {
    Up,
    Down,
    Right,
    Left,
}

/// What a key press means.
#[derive(Clone, Copy, Debug, PartialEq, Eq, Structural)]
pub enum KeyCode {
    Escape,
    Colon,
    Enter,
    Backspace,
    Arrow(Direction),
    Char(char),
}

/// A key press.
#[derive(Debug)]
pub struct KeyEvent {
    pub code: KeyCode,
    pub modifiers: Vec<Modifier>,
}

/// The input mode: moving around, typing a move, or typing a command.
#[derive(Clone, Copy, Debug, PartialEq, Eq, Structural)]
pub enum States {
    Control,
    Input,
    Command,
}

/// The whole state of a running game.
pub struct Program {
    pub state: States,
    /// The status line.
    pub io: String,
    pub control: Controller,
    /// The move being typed.
    pub input: String,
    pub exit: bool,
    pub multiplayer: bool,
    pub current_player: Colors,
    pub player: Colors,
    /// Address of the host, for a joining player.
    pub server: String,
    /// Address of the joined player, for the host.
    pub client: String,
    pub passwd: String,
    pub is_hosting: bool,
}

/// A request the terminal loop must send after a key was handled.
pub enum Action {
    Nothing,
    /// Send `body` to `path` on `host`; with `refresh`, read the position
    /// anew from the host when the reply's content says `update`.
    Request { host: String, path: String, body: String, refresh: bool },
}

/// `c` is a control character (general category Cc: U+0000 to U+001F and
/// U+007F to U+009F).
pub open spec fn is_control_char(c: char) -> bool {
    (c as u32) < 32 || (127 <= (c as u32) && (c as u32) <= 159)
}

/// The key code a byte read from the terminal stands for.
pub open spec fn key_code_of(b: u8) -> KeyCode {
    if b == 27 {
        KeyCode::Escape
    } else if b == 127 {
        KeyCode::Backspace
    } else if b == 58 {
        KeyCode::Colon
    } else if b == 10 {
        KeyCode::Enter
    } else {
        KeyCode::Char(b as char)
    }
}

/// The byte carries the control modifier: a control character other than
/// escape, delete, tab and line feed.
pub open spec fn has_control(b: u8) -> bool {
    is_control_char(b as char) && b != 27 && b != 127 && b != 9 && b != 10
}

/// The key event for a byte read from the terminal.
pub fn key_event_of(b: u8) -> (e: KeyEvent)
    ensures
        e.code == key_code_of(b),
        e.modifiers@ == (if has_control(b) {
            seq![Modifier::Control]
        } else {
            Seq::<Modifier>::empty()
        }),
{
    let c = b as char;
    let mut modifiers: Vec<Modifier> = Vec::new();
    let control = b < 32 || (127 <= b && b <= 159);
    assert((c as u32) == b);
    if control && b != 27 && b != 127 && b != 9 && b != 10 {
        modifiers.push(Modifier::Control);
    }
    let code = if b == 27 {
        KeyCode::Escape
    } else if b == 127 {
        KeyCode::Backspace
    } else if b == 58 {
        KeyCode::Colon
    } else if b == 10 {
        KeyCode::Enter
    } else {
        KeyCode::Char(c)
    };
    KeyEvent { code, modifiers }
}

/// The fields that no key changes are the same in both programs.
pub open spec fn same_settings(a: Program, b: Program) -> bool {
    &&& a.multiplayer == b.multiplayer
    &&& a.player == b.player
    &&& a.server == b.server
    &&& a.client == b.client
    &&& a.passwd == b.passwd
    &&& a.is_hosting == b.is_hosting
}

/// Only the listed parts may differ: everything else is the same.
pub open spec fn same_game(a: Program, b: Program) -> bool {
    &&& same_settings(a, b)
    &&& a.control == b.control
    &&& a.current_player == b.current_player
}

/// `s` without its last character (unchanged when empty).
pub open spec fn drop_last_char(s: Seq<char>) -> Seq<char> {
    if s.len() == 0 {
        s
    } else {
        s.drop_last()
    }
}

/// The program may be given `event`: pressing Enter while typing a move on
/// one's own turn judges the typed move, which must then be readable.
pub open spec fn event_allowed(p: Program, event: KeyEvent) -> bool {
    (p.state == States::Input && event.code == KeyCode::Enter && p.current_player == p.player)
        ==> move_allowed(p.control.board@, p.control.lmove.deep_view(), p.input@)
}

/// The path of a move request to the host.
pub open spec fn move_path(passwd: Seq<char>) -> Seq<char> {
    seq!['/', 'm', 'o', 'v', 'e', '?', 'p', 'a', 's', 's', 'w', 'd', '='] + passwd
}

/// The path of a position update sent to the joined player.
pub open spec fn update_path() -> Seq<char> {
    seq!['/', 'u', 'p', 'd', 'a', 't', 'e']
}

/// Pressing Enter on the typed move: on one's own turn a move that is not
/// illegal is played; a joining player then sends it to the host, a host
/// or local game passes the turn and a host sends the new position to the
/// joined player.  Otherwise the status line says why nothing happened.
/// The typed move is cleared in every case.
///
/// The move is judged by the controller's rules alone: nothing here tests
/// that the moved piece is the player's own, nor whether the move leaves
/// the player's king in check, and no status line names the king's square.
pub open spec fn enter_move(old: Program, new: Program, a: Action) -> bool {
    let b = old.control.board@;
    let l = old.control.lmove.deep_view();
    let code = old.input@;
    let joining = !old.is_hosting && old.multiplayer;
    &&& new.state == old.state
    &&& new.exit == old.exit
    &&& new.input@ == Seq::<char>::empty()
    &&& same_settings(old, new)
    &&& if old.current_player != old.player {
        &&& new.io@ == "Not your turn!"@
        &&& new.control == old.control
        &&& new.current_player == old.current_player
        &&& a is Nothing
    } else if move_verdict(b, code, l) == movestate::Illegal {
        &&& new.io@ == (if joining {
            "Illegal move!"@
        } else {
            "Illegal Move!"@
        })
        &&& new.control == old.control
        &&& new.current_player == old.current_player
        &&& a is Nothing
    } else {
        &&& new.io == old.io
        &&& new.control.board@ == board_after(b, l, code)
        &&& new.control.lmove.deep_view() == last_after(b, l, code)
        &&& if joining {
            &&& new.current_player == old.current_player
            &&& a matches Action::Request { host, path, body, refresh } && host == old.server
                && path@ == move_path(old.passwd@) && body@ == code && refresh
        } else {
            &&& new.current_player == opposite(old.current_player)
            &&& if old.multiplayer {
                a matches Action::Request { host, path, body, refresh } && host == old.client
                    && path@ == update_path() && body@ == state_text(
                    new.control.board@,
                    old.player,
                    new.current_player,
                ) && !refresh
            } else {
                a is Nothing
            }
        }
    }
}

/// The effect of one key press on the program.
pub open spec fn key_effect(old: Program, event: KeyEvent, new: Program, a: Action) -> bool {
    match old.state {
        States::Control => {
            &&& same_game(old, new)
            &&& new.input == old.input
            &&& new.exit == old.exit
            &&& a is Nothing
            &&& match event.code {
                KeyCode::Escape => new.state == States::Control && new.io@ == "use :q to leave"@,
                KeyCode::Colon => new.state == States::Command && new.io@ == seq![':'],
                KeyCode::Char(c) => new.io == old.io && new.state == (if c == 'i' {
                    States::Input
                } else {
                    States::Control
                }),
                _ => new.io == old.io && new.state == States::Control,
            }
        },
        States::Input => match event.code {
            KeyCode::Enter => enter_move(old, new, a),
            _ => {
                &&& same_game(old, new)
                &&& new.io == old.io
                &&& new.exit == old.exit
                &&& a is Nothing
                &&& match event.code {
                    KeyCode::Backspace => new.state == States::Input && new.input@ == drop_last_char(
                        old.input@,
                    ),
                    KeyCode::Char(c) => new.state == States::Input && new.input@ == old.input@.push(c),
                    KeyCode::Colon => new.state == States::Input && new.input@ == old.input@.push(':'),
                    KeyCode::Escape => new.state == States::Control && new.input == old.input,
                    _ => new.state == States::Input && new.input == old.input,
                }
            },
        },
        States::Command => {
            &&& same_game(old, new)
            &&& new.input == old.input
            &&& a is Nothing
            &&& match event.code {
                KeyCode::Escape => new.state == States::Control && new.io == old.io && new.exit
                    == old.exit,
                KeyCode::Backspace => new.io@ == drop_last_char(old.io@) && new.exit == old.exit
                    && new.state == (if new.io@.len() == 0 {
                    States::Control
                } else {
                    States::Command
                }),
                KeyCode::Colon => new.state == States::Command && new.io@ == old.io@.push(':')
                    && new.exit == old.exit,
                KeyCode::Char(c) => new.state == States::Command && new.io@ == old.io@.push(c)
                    && new.exit == old.exit,
                KeyCode::Enter => new.state == States::Control && if drop_first_char(old.io@)
                    == seq!['q'] {
                    new.exit && new.io == old.io
                } else {
                    new.exit == old.exit && new.io@ == "unknown command!"@
                },
                _ => new.state == States::Command && new.io == old.io && new.exit == old.exit,
            }
        },
    }
}

/// `s` without its first character (unchanged when empty).
pub open spec fn drop_first_char(s: Seq<char>) -> Seq<char> {
    if s.len() == 0 {
        s
    } else {
        s.drop_first()
    }
}

/// `s` without its last character.
fn without_last(s: &String) -> (r: String)
    ensures
        r@ == drop_last_char(s@),
{
    let mut v = chars_of(s.as_str());
    if v.len() > 0 {
        v.pop();
    }
    string_from_chars(&v)
}

/// Pressing Enter on the typed move.
fn enter_move_exec(program: &mut Program) -> (a: Action)
    requires
        old(program).state == States::Input,
        old(program).current_player == old(program).player ==> move_allowed(
            old(program).control.board@,
            old(program).control.lmove.deep_view(),
            old(program).input@,
        ),
    ensures
        enter_move(*old(program), *final(program), a),
{
    let mut action = Action::Nothing;
    if program.current_player == program.player {
        if !program.is_hosting && program.multiplayer {
            if program.control.chk_move(program.input.clone()) != movestate::Illegal {
                let _ = program.control.mk_move(program.input.clone());
                let mut path = String::from_str("/move?passwd=");
                path.append(program.passwd.as_str());
                proof {
                    reveal_strlit("/move?passwd=");
                }
                assert(path@ =~= move_path(program.passwd@));
                action = Action::Request {
                    host: program.server.clone(),
                    path,
                    body: program.input.clone(),
                    refresh: true,
                };
            } else {
                program.io = String::from_str("Illegal move!");
            }
        } else {
            if program.control.chk_move(program.input.clone()) != movestate::Illegal {
                let _ = program.control.mk_move(program.input.clone());
                program.current_player = match program.current_player {
                    Colors::White => Colors::Black,
                    _ => Colors::White,
                };
                if program.multiplayer {
                    let contents = game_state(
                        &mut program.control.board,
                        program.player,
                        program.current_player,
                    );
                    let path = String::from_str("/update");
                    proof {
                        reveal_strlit("/update");
                    }
                    assert(path@ =~= update_path());
                    action = Action::Request {
                        host: program.client.clone(),
                        path,
                        body: contents,
                        refresh: false,
                    };
                }
            } else {
                program.io = String::from_str("Illegal Move!");
            }
        }
    } else {
        program.io = String::from_str("Not your turn!");
    }
    program.input = String::new();
    action
}

/// Handles one key press as [`parse_event`] does, after checking that the
/// typed move can be judged where the key judges it; where it cannot, the
/// result is `None` and the program is left as it was.
pub fn handle_event(event: KeyEvent, program: &mut Program) -> (a: Option<Action>)
    ensures
        a is None <==> !event_allowed(*old(program), event),
        a is None ==> *final(program) == *old(program),
        a matches Some(x) ==> key_effect(*old(program), event, *final(program), x),
{
    if program.state == States::Input && event.code == KeyCode::Enter && program.current_player
        == program.player {
        let input = program.input.clone();
        if !program.control.can_judge(&input) {
            return None;
        }
    }
    Some(parse_event(event, program))
}

/// Handles one key press and names the request the terminal loop must send.
pub fn parse_event(event: KeyEvent, program: &mut Program) -> (a: Action)
    requires
        event_allowed(*old(program), event),
    ensures
        key_effect(*old(program), event, *final(program), a),
{
    match program.state {
        States::Control => {
            match event.code {
                KeyCode::Escape => {
                    program.io = String::from_str("use :q to leave");
                },
                KeyCode::Colon => {
                    program.state = States::Command;
                    program.io = String::from_str(":");
                    proof {
                        reveal_strlit(":");
                        assert(":"@ =~= seq![':']);
                    }
                },
                KeyCode::Char(c) => {
                    if c == 'i' {
                        program.state = States::Input;
                    }
                },
                _ => {},
            }
            Action::Nothing
        },
        States::Input => {
            match event.code {
                KeyCode::Enter => {
                    return enter_move_exec(program);
                },
                KeyCode::Backspace => {
                    program.input = without_last(&program.input);
                },
                KeyCode::Char(c) => {
                    push_char(&mut program.input, c);
                },
                KeyCode::Colon => {
                    push_char(&mut program.input, ':');
                },
                KeyCode::Escape => {
                    program.state = States::Control;
                },
                KeyCode::Arrow(_) => {},
            }
            Action::Nothing
        },
        States::Command => {
            match event.code {
                KeyCode::Escape => {
                    program.state = States::Control;
                },
                KeyCode::Backspace => {
                    program.io = without_last(&program.io);
                    if program.io.as_str().unicode_len() == 0 {
                        program.state = States::Control;
                    }
                },
                KeyCode::Colon => {
                    push_char(&mut program.io, ':');
                },
                KeyCode::Char(c) => {
                    push_char(&mut program.io, c);
                },
                KeyCode::Enter => {
                    let n = program.io.as_str().unicode_len();
                    let rest = if n == 0 {
                        program.io.as_str()
                    } else {
                        program.io.as_str().substring_char(1, n)
                    };
                    proof {
                        reveal_strlit("q");
                        assert("q"@ =~= seq!['q']);
                    }
                    assert(rest@ =~= drop_first_char(program.io@));
                    if same_text(rest, "q") {
                        program.exit = true;
                    } else {
                        program.io = String::from_str("unknown command!");
                    }
                    program.state = States::Control;
                },
                KeyCode::Arrow(_) => {},
            }
            Action::Nothing
        },
    }
}

/// Replaces the position by one received from the host, a text that
/// [`decode_state`] reads: the receiver's colour, the colour to move and
/// the board; the rest of the program is kept.
pub fn update_gamestate(program: &mut Program, sgame_state: String)
    requires
        decode_state(sgame_state@) is Ok,
    ensures
        ({
            let (p, c, b) = decode_state(sgame_state@)->Ok_0;
            &&& final(program).player == p
            &&& final(program).current_player == c
            &&& final(program).control.board@ == b
            &&& final(program).control.lmove == old(program).control.lmove
            &&& final(program).state == old(program).state
            &&& final(program).io == old(program).io
            &&& final(program).input == old(program).input
            &&& final(program).exit == old(program).exit
            &&& final(program).multiplayer == old(program).multiplayer
            &&& final(program).server == old(program).server
            &&& final(program).client == old(program).client
            &&& final(program).passwd == old(program).passwd
            &&& final(program).is_hosting == old(program).is_hosting
        }),
{
    match decode_game_state(sgame_state.as_str()) {
        Ok((player, current, board)) => {
            program.player = player;
            program.current_player = current;
            program.control.board = board;
        },
        Err(_) => {},
    }
}

} // verus!

verus! {

/// What the terminal shows: the text, and where the cursor goes (1-based
/// line and column), if anywhere.
pub struct Screen {
    pub text: String,
    pub cursor: Option<(usize, usize)>,
}

/// UTF-8 length of a string, as `str::len` reports it.
pub open spec fn byte_len(s: Seq<char>) -> usize {
    vstd::utf8::encode_utf8(s).len() as usize
}

/// Number of lines of `s` (one more than its line breaks).
pub open spec fn line_count(s: Seq<char>) -> int {
    crate::text::split_by(s, seq!['\n']).len() as int
}

/// `n` copies of `c`.
pub open spec fn repeated(c: char, n: int) -> Seq<char> {
    Seq::new(n as nat, |i: int| c)
}

/// Name of a colour on the status lines.
pub open spec fn color_word(c: Colors) -> Seq<char> {
    match c {
        Colors::White => "White"@,
        Colors::Black => "Black"@,
    }
}

/// The board, a rule and the move being typed.
pub open spec fn screen_top(p: Program, cols: int) -> Seq<char> {
    crate::board::board_text(p.control.board@) + seq!['\n'] + repeated('-', cols) + seq!['\n'] + p.input@
}

/// The top part, a second rule and the two colour lines.
pub open spec fn screen_middle(p: Program, cols: int) -> Seq<char> {
    screen_top(p, cols) + seq!['\n'] + repeated('-', cols) + "\nYour Pieces: "@ + color_word(p.player)
        + "\nCurrent Turn: "@ + color_word(p.current_player) + seq!['\n']
}

/// The whole screen: the middle part, blank lines down to the last line of
/// the window, and the status line on a coloured background padded to the
/// window's width.
pub open spec fn screen_text(p: Program, rows: int, cols: int) -> Seq<char> {
    let mid = screen_middle(p, cols);
    let fill = if rows - line_count(mid) > 0 {
        rows - line_count(mid)
    } else {
        0
    };
    mid + repeated('\n', fill) + "\x1b[48;5;54m"@ + p.io@ + repeated(' ', cols - byte_len(p.io@))
        + "\x1b[0m"@
}

/// Where the cursor goes: after the typed move, or after the command.
pub open spec fn screen_cursor(p: Program, rows: int, cols: int) -> Option<(usize, usize)> {
    match p.state {
        States::Control => None,
        States::Input => Some(
            (line_count(screen_top(p, cols)) as usize, (byte_len(p.input@) + 1) as usize),
        ),
        States::Command => Some(
            (line_count(screen_text(p, rows, cols)) as usize, (byte_len(p.io@) + 1) as usize),
        ),
    }
}

/// Appends `n` copies of `c`.
fn push_repeated(s: &mut String, c: char, n: usize)
    ensures
        final(s)@ == old(s)@ + repeated(c, n as int),
{
    let mut i: usize = 0;
    while i < n
        invariant
            0 <= i <= n,
            s@ == old(s)@ + repeated(c, i as int),
        decreases n - i,
    {
        push_char(s, c);
        i = i + 1;
        assert(s@ =~= old(s)@ + repeated(c, i as int));
    }
}

/// Appends a colour's name as the status lines write it.
fn push_color_word(s: &mut String, c: Colors)
    ensures
        final(s)@ == old(s)@ + color_word(c),
{
    match c {
        Colors::White => s.append("White"),
        Colors::Black => s.append("Black"),
    }
}

/// Number of lines of a string.
fn lines_of(s: &String) -> (n: usize)
    ensures
        n == line_count(s@),
{
    proof {
        reveal_strlit("\n");
        assert("\n"@ =~= seq!['\n']);
    }
    let pieces = crate::text::split_on(s.as_str(), "\n");
    assert(pieces.deep_view().len() == pieces@.len());
    pieces.len()
}

/// The screen for a window of `size`, whose width holds the status line.
pub fn screen(program: &mut Program, size: TerminalSize) -> (r: Screen)
    requires
        byte_len(old(program).io@) <= size.cols,
        old(program).state == States::Input ==> byte_len(old(program).input@) < usize::MAX,
    ensures
        *final(program) == *old(program),
        r.text@ == screen_text(*old(program), size.rows as int, size.cols as int),
        r.cursor == screen_cursor(*old(program), size.rows as int, size.cols as int),
{
    let io_len = program.io.as_str().len();
    let cols = size.cols as usize;
    let mut showed = program.control.board.show();
    push_char(&mut showed, '\n');
    push_repeated(&mut showed, '-', cols);
    push_char(&mut showed, '\n');
    showed.append(program.input.as_str());
    assert(showed@ =~= screen_top(*program, cols as int));
    let input_line = lines_of(&showed);
    push_char(&mut showed, '\n');
    push_repeated(&mut showed, '-', cols);
    showed.append("\nYour Pieces: ");
    push_color_word(&mut showed, program.player);
    showed.append("\nCurrent Turn: ");
    push_color_word(&mut showed, program.current_player);
    push_char(&mut showed, '\n');
    assert(showed@ =~= screen_middle(*program, cols as int));
    let lines = lines_of(&showed);
    let rows = size.rows as usize;
    let fill = if rows > lines {
        rows - lines
    } else {
        0
    };
    push_repeated(&mut showed, '\n', fill);
    showed.append("\x1b[48;5;54m");
    showed.append(program.io.as_str());
    push_repeated(&mut showed, ' ', cols - io_len);
    showed.append("\x1b[0m");
    assert(showed@ =~= screen_text(*program, size.rows as int, size.cols as int));
    let cursor = match program.state {
        States::Control => None,
        States::Input => Some((input_line, program.input.as_str().len() + 1)),
        States::Command => Some((lines_of(&showed), io_len + 1)),
    };
    Screen { text: showed, cursor }
}

} // verus!

verus! {

/// The game ends only when `:q` is entered in command mode: no other key
/// sets the exit flag.
pub proof fn lemma_only_quit_exits(old: Program, event: KeyEvent, new: Program, a: Action)
    requires
        key_effect(old, event, new, a),
        !old.exit,
        new.exit,
    ensures
        old.state == States::Command,
        event.code == KeyCode::Enter,
        drop_first_char(old.io@) == seq!['q'],
{
}

/// Escape leaves the move or command being typed and returns to control
/// mode, keeping the game as it is.
pub proof fn lemma_escape_returns_to_control(old: Program, event: KeyEvent, new: Program, a: Action)
    requires
        key_effect(old, event, new, a),
        event.code == KeyCode::Escape,
    ensures
        new.state == States::Control,
        same_game(old, new),
        new.input == old.input,
        new.exit == old.exit,
        a is Nothing,
{
}

/// The mode changes only along these steps: control to command on `:`,
/// control to input on `i`, input back to control on Escape, and command
/// back to control on Escape, Enter or a Backspace that empties it; input
/// and command never switch to each other.
pub proof fn lemma_mode_changes(old: Program, event: KeyEvent, new: Program, a: Action)
    requires
        key_effect(old, event, new, a),
        new.state != old.state,
    ensures
        (old.state == States::Control && event.code == KeyCode::Colon && new.state == States::Command)
            || (old.state == States::Control && event.code == KeyCode::Char('i') && new.state
            == States::Input) || (old.state == States::Input && event.code == KeyCode::Escape
            && new.state == States::Control) || (old.state == States::Command && (event.code
            == KeyCode::Escape || event.code == KeyCode::Enter || event.code == KeyCode::Backspace)
            && new.state == States::Control),
{
}

/// No key changes the settings (multiplayer, hosting, addresses, password,
/// own colour); only Enter on a typed move changes the game or whose turn
/// it is.
pub proof fn lemma_keys_keep_settings(old: Program, event: KeyEvent, new: Program, a: Action)
    requires
        key_effect(old, event, new, a),
    ensures
        same_settings(old, new),
        !(old.state == States::Input && event.code == KeyCode::Enter) ==> same_game(old, new),
{
}

/// The screen names the player's own colour after `Your Pieces: ` and the
/// colour to move after `Current Turn: `, on consecutive lines.
pub proof fn lemma_screen_names_colors(p: Program, rows: int, cols: int)
    requires
        0 <= cols,
    ensures
        contains_pat(
            screen_text(p, rows, cols),
            "\nYour Pieces: "@ + color_word(p.player) + "\nCurrent Turn: "@ + color_word(
                p.current_player,
            ),
        ),
{
    let pat = "\nYour Pieces: "@ + color_word(p.player) + "\nCurrent Turn: "@ + color_word(
        p.current_player,
    );
    let pre = screen_top(p, cols) + seq!['\n'] + repeated('-', cols);
    let s = screen_text(p, rows, cols);
    let mid = screen_middle(p, cols);
    assert(mid =~= pre + pat + seq!['\n']);
    let rest = s.subrange(mid.len() as int, s.len() as int);
    assert(s =~= pre + pat + (seq!['\n'] + rest));
    let k = pre.len() as int;
    assert(s.subrange(k, k + pat.len()) =~= pat);
    assert(matches_at(s, pat, k));
}

/// Enter on a typed move, on one's own turn in a local or hosted game,
/// plays a move that is not illegal and passes the turn to the other
/// colour; an illegal move, or a move typed out of turn, changes neither
/// the game nor the turn.
pub proof fn lemma_enter_passes_turn(old: Program, new: Program, a: Action)
    requires
        enter_move(old, new, a),
        !(!old.is_hosting && old.multiplayer),
    ensures
        ({
            let b = old.control.board@;
            let l = old.control.lmove.deep_view();
            let played = old.current_player == old.player && move_verdict(b, old.input@, l)
                != movestate::Illegal;
            &&& played ==> new.current_player != old.current_player && new.control.board@ == board_after(
                b,
                l,
                old.input@,
            )
            &&& !played ==> new.control == old.control && new.current_player == old.current_player
        }),
{
}

} // verus!
