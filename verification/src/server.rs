//! What the two network listeners decide on a request.
//!
//! The host answers `/gamestate` (the position, for the joined player) and
//! `/move` (a move played by the joined player); the joined player answers
//! `/update` (a new position from the host).  Requests are plain text: a
//! request line `GET <path> HTTP/1.1`, headers, a blank line and a body.
use vstd::prelude::*;
use vstd::string::StringExecFns;
use crate::common::{movestate, Colors};
use crate::control::{board_after, last_after, move_allowed, move_verdict};
use crate::board::canonical_board;
use crate::game::Program;
use crate::http::{attachment_of, content_of, header_of, request_text, response_readable};
use crate::text::matches_at;
use crate::gamestate::{color_name, decode_game_state, decode_state, game_state, lemma_state_colors, named_color, opposite, receiver_color, state_fields, state_text, StateError};
use crate::text::{
    contains_pat, contains_str, decimal, decimal_string, delete_all, delete_char, delete_str, lemma_split_contains,
    lemma_split_scan_nonempty, same_text, split_by, split_on, without_char,
};

verus! {

broadcast use vstd::string::group_string_axioms;

/// Why a request could not be handled.
#[derive(Clone, Copy, Debug, PartialEq, Eq, Structural)]
pub enum RequestError {
    /// The request has no blank line before a body.
    NoBody,
    /// An authorised move request carries a move the board cannot judge.
    UnreadableMove,
    /// A position update cannot be read.
    State(StateError),
}

/// The name and value of one query argument: split at the first `=` and
/// keep what lies before and after it up to a second `=`; an argument
/// without `=` is its own name and value.
pub open spec fn arg_of(piece: Seq<char>) -> (Seq<char>, Seq<char>) {
    if contains_pat(piece, seq!['=']) {
        (split_by(piece, seq!['='])[0], split_by(piece, seq!['='])[1])
    } else {
        (piece, piece)
    }
}

/// The query arguments of a path: the `?`-separated pieces after the first.
pub open spec fn args_of(path: Seq<char>) -> Seq<(Seq<char>, Seq<char>)> {
    if !contains_pat(path, seq!['?']) {
        Seq::empty()
    } else {
        split_by(path, seq!['?']).skip(1).map_values(|piece: Seq<char>| arg_of(piece))
    }
}

/// The query arguments of a path.
#[allow(non_snake_case)]
pub fn parseArgs(path: String) -> (result: Vec<(String, String)>)
    ensures
        result.deep_view() == args_of(path@),
{
    proof {
        reveal_strlit("?");
        reveal_strlit("=");
        assert("?"@ =~= seq!['?']);
        assert("="@ =~= seq!['=']);
    }
    if !contains_str(path.as_str(), "?") {
        let empty: Vec<(String, String)> = Vec::new();
        assert(empty.deep_view() =~= args_of(path@));
        return empty;
    }
    let rvalues = split_on(path.as_str(), "?");
    let ghost pieces = split_by(path@, seq!['?']);
    assert(rvalues.deep_view() == pieces);
    let mut result: Vec<(String, String)> = Vec::new();
    let mut k: usize = 1;
    proof {
        lemma_split_scan_nonempty(path@, seq!['?'], 0, 0);
    }
    while k < rvalues.len()
        invariant
            rvalues.deep_view() == pieces,
            "="@ == seq!['='],
            1 <= k <= rvalues@.len(),
            result.deep_view() == pieces.skip(1).take(k - 1).map_values(|piece: Seq<char>| arg_of(piece)),
        decreases rvalues@.len() - k,
    {
        let i = rvalues[k];
        assert(i@ == pieces[k as int]);
        let ghost before = result.deep_view();
        if contains_str(i, "=") {
            let parts = split_on(i, "=");
            proof {
                lemma_split_contains(i@, '=');
            }
            assert(parts.deep_view() == split_by(i@, seq!['=']));
            assert(parts@[0]@ == parts.deep_view()[0]);
            assert(parts@[1]@ == parts.deep_view()[1]);
            result.push((String::from_str(parts[0]), String::from_str(parts[1])));
        } else {
            result.push((String::from_str(i), String::from_str(i)));
        }
        assert(result.deep_view() =~= before.push(arg_of(i@)));
        k = k + 1;
        assert(pieces.skip(1).take(k - 1) =~= pieces.skip(1).take(k - 2).push(pieces[k - 1]));
        assert(result.deep_view() =~= pieces.skip(1).take(k - 1).map_values(
            |piece: Seq<char>| arg_of(piece),
        ));
    }
    assert(pieces.skip(1).take(rvalues@.len() - 1) =~= pieces.skip(1));
    result
}

/// `\r\n\r\n`, which ends the headers.
pub open spec fn blank_line() -> Seq<char> {
    seq!['\r', '\n', '\r', '\n']
}

/// The request has a body: a blank line ends its headers.
pub open spec fn has_body(request: Seq<char>) -> bool {
    split_by(request, blank_line()).len() >= 2
}

/// The body: what follows the first blank line up to a second one, with
/// NUL characters (the unused end of the read buffer) removed.
pub open spec fn request_body(request: Seq<char>) -> Seq<char> {
    without_char(split_by(request, blank_line())[1], '\0')
}

/// The path and query: what precedes ` HTTP/1.1`, with every `GET `
/// deleted.
pub open spec fn request_target(request: Seq<char>) -> Seq<char> {
    delete_all(
        split_by(request, seq![' ', 'H', 'T', 'T', 'P', '/', '1', '.', '1'])[0],
        seq!['G', 'E', 'T', ' '],
    )
}

/// The path without its query.
pub open spec fn target_dir(target: Seq<char>) -> Seq<char> {
    if contains_pat(target, seq!['?']) {
        split_by(target, seq!['?'])[0]
    } else {
        target
    }
}

/// Some query argument is `passwd` with the host's password as its value.
pub open spec fn authorised(target: Seq<char>, passwd: Seq<char>) -> bool {
    exists|i: int|
        0 <= i < args_of(target).len() && (#[trigger] args_of(target)[i]).0 == seq![
            'p',
            'a',
            's',
            's',
            'w',
            'd',
        ] && args_of(target)[i].1 == passwd
}

/// The joined player's listening address: the host part of its address
/// with port 5050.
pub open spec fn client_address(peer: Seq<char>) -> Seq<char> {
    split_by(peer, seq![':'])[0] + seq![':', '5', '0', '5', '0']
}

/// The host's decision on a request from the joined player at `peer`: the
/// reply's content and the new program, or why the host could not go on.
pub open spec fn host_answers(
    old: Program,
    request: Seq<char>,
    peer: Seq<char>,
    new: Program,
    r: Result<String, RequestError>,
) -> bool {
    let target = request_target(request);
    let dir = target_dir(target);
    let x = request_body(request);
    let b = old.control.board@;
    let l = old.control.lmove.deep_view();
    if !has_body(request) {
        r == Err::<String, RequestError>(RequestError::NoBody) && new == old
    } else if dir == "/gamestate"@ {
        &&& new.control == old.control
        &&& new.io == old.io
        &&& new.current_player == old.current_player
        &&& if authorised(target, old.passwd@) {
            &&& new.client@ == client_address(peer)
            &&& r matches Ok(contents) && contents@ == state_text(b, old.player, old.current_player)
        } else {
            &&& new.client == old.client
            &&& r matches Ok(contents) && contents@ == "Access rejected."@
        }
    } else if dir == "/move"@ {
        &&& new.client == old.client
        &&& if !authorised(target, old.passwd@) {
            &&& new.control == old.control
            &&& new.io == old.io
            &&& new.current_player == old.current_player
            &&& r matches Ok(contents) && contents@ == "Access rejected."@
        } else if !move_allowed(b, l, x) {
            r == Err::<String, RequestError>(RequestError::UnreadableMove) && new == old
        } else if move_verdict(b, x, l) != movestate::Illegal {
            &&& new.control.board@ == board_after(b, l, x)
            &&& new.control.lmove.deep_view() == last_after(b, l, x)
            &&& new.current_player == opposite(old.current_player)
            &&& new.io@ == "Opponent made a move: "@ + x
            &&& r matches Ok(contents) && contents@ == "update"@
        } else {
            &&& new.control == old.control
            &&& new.current_player == old.current_player
            &&& new.io@ == "malformed http request with move: "@ + x
            &&& r matches Ok(contents) && contents@ == "Malformed status. Access rejected."@
        }
    } else {
        &&& new.control == old.control
        &&& new.client == old.client
        &&& new.current_player == old.current_player
        &&& new.io@ == "malformed http request: "@ + request
        &&& r matches Ok(contents) && contents@ == "Malformed request. Access rejected."@
    }
}

/// The host's own settings are the same in both programs.
pub open spec fn settings_kept(a: Program, b: Program) -> bool {
    &&& a.multiplayer == b.multiplayer
    &&& a.player == b.player
    &&& a.server == b.server
    &&& a.passwd == b.passwd
    &&& a.is_hosting == b.is_hosting
}

/// The parts of the request the listeners read.
fn read_request(request: &str) -> (r: Option<(String, String, String)>)
    ensures
        match r {
            None => !has_body(request@),
            Some((x, target, dir)) => has_body(request@) && x@ == request_body(request@) && target@
                == request_target(request@) && dir@ == target_dir(target@),
        },
{
    proof {
        reveal_strlit("\r\n\r\n");
        reveal_strlit(" HTTP/1.1");
        reveal_strlit("GET ");
        reveal_strlit("?");
        assert("\r\n\r\n"@ =~= blank_line());
        assert(" HTTP/1.1"@ =~= seq![' ', 'H', 'T', 'T', 'P', '/', '1', '.', '1']);
        assert("GET "@ =~= seq!['G', 'E', 'T', ' ']);
        assert("?"@ =~= seq!['?']);
    }
    let parts = split_on(request, "\r\n\r\n");
    assert(parts.deep_view() == split_by(request@, blank_line()));
    if parts.len() < 2 {
        return None;
    }
    assert(parts@[1]@ == parts.deep_view()[1]);
    let x = delete_char(parts[1], '\0');
    let head = split_on(request, " HTTP/1.1");
    proof {
        lemma_split_scan_nonempty(request@, " HTTP/1.1"@, 0, 0);
    }
    assert(head@[0]@ == head.deep_view()[0]);
    let full_dir = delete_str(head[0], "GET ");
    let dir = if contains_str(full_dir.as_str(), "?") {
        let pieces = split_on(full_dir.as_str(), "?");
        proof {
            lemma_split_scan_nonempty(full_dir@, seq!['?'], 0, 0);
        }
        assert(pieces@[0]@ == pieces.deep_view()[0]);
        String::from_str(pieces[0])
    } else {
        full_dir.clone()
    };
    Some((x, full_dir, dir))
}


/// Whether the query carries the host's password.
fn check_access(target: &String, passwd: &String) -> (r: bool)
    ensures
        r == authorised(target@, passwd@),
{
    let args = parseArgs(target.clone());
    let ghost a = args_of(target@);
    proof {
        reveal_strlit("passwd");
        assert("passwd"@ =~= seq!['p', 'a', 's', 's', 'w', 'd']);
    }
    let mut access = false;
    let mut i: usize = 0;
    while i < args.len()
        invariant
            args.deep_view() == a,
            "passwd"@ == seq!['p', 'a', 's', 's', 'w', 'd'],
            0 <= i <= args@.len(),
            access == exists|j: int| 0 <= j < i && (#[trigger] a[j]).0 == seq!['p', 'a', 's', 's', 'w', 'd']
                && a[j].1 == passwd@,
        decreases args@.len() - i,
    {
        assert(a[i as int] == args@[i as int].deep_view());
        assert(a[i as int].0 == args@[i as int].0@);
        assert(a[i as int].1 == args@[i as int].1@);
        if same_text(args[i].0.as_str(), "passwd") {
            if same_text(args[i].1.as_str(), passwd.as_str()) {
                access = true;
            }
        }
        i = i + 1;
    }
    access
}

/// The host's handling of a request from the joined player at `peer`
/// (`handle_con`): returns the reply's content.
pub fn handle_con(program: &mut Program, request: &str, peer: &str) -> (r: Result<String, RequestError>)
    ensures
        settings_kept(*old(program), *final(program)),
        final(program).state == old(program).state,
        final(program).input == old(program).input,
        final(program).exit == old(program).exit,
        host_answers(*old(program), request@, peer@, *final(program), r),
{
    proof {
        reveal_strlit("/gamestate");
        reveal_strlit("/move");
        reveal_strlit(":");
        reveal_strlit(":5050");
        assert(":"@ =~= seq![':']);
    }
    let (x, full_dir, dir) = match read_request(request) {
        Some(parts) => parts,
        None => {
            return Err(RequestError::NoBody);
        },
    };
    if same_text(dir.as_str(), "/gamestate") {
        if check_access(&full_dir, &program.passwd) {
            let contents = game_state(&mut program.control.board, program.player, program.current_player);
            let pieces = split_on(peer, ":");
            proof {
                lemma_split_scan_nonempty(peer@, seq![':'], 0, 0);
            }
            assert(pieces@[0]@ == pieces.deep_view()[0]);
            let mut client = String::from_str(pieces[0]);
            client.append(":5050");
            assert(client@ =~= client_address(peer@));
            program.client = client;
            Ok(contents)
        } else {
            Ok(String::from_str("Access rejected."))
        }
    } else if same_text(dir.as_str(), "/move") {
        assert(dir@ != "/gamestate"@);
        if check_access(&full_dir, &program.passwd) {
            if !program.control.can_judge(&x) {
                return Err(RequestError::UnreadableMove);
            }
            if program.control.chk_move(x.clone()) != movestate::Illegal {
                program.control.mk_move(x.clone());
                program.current_player = match program.current_player {
                    Colors::White => Colors::Black,
                    _ => Colors::White,
                };
                let mut io = String::from_str("Opponent made a move: ");
                io.append(x.as_str());
                program.io = io;
                Ok(String::from_str("update"))
            } else {
                let mut io = String::from_str("malformed http request with move: ");
                io.append(x.as_str());
                program.io = io;
                Ok(String::from_str("Malformed status. Access rejected."))
            }
        } else {
            Ok(String::from_str("Access rejected."))
        }
    } else {
        let mut io = String::from_str("malformed http request: ");
        io.append(request);
        program.io = io;
        Ok(String::from_str("Malformed request. Access rejected."))
    }
}

/// The joined player's handling of a request from the host
/// (`handle_client_con`): an `/update` replaces the position as
/// [`crate::game::update_gamestate`] does and gets an empty reply; any
/// other path is reported on the status line.
pub fn handle_client_con(program: &mut Program, request: &str) -> (r: Result<String, RequestError>)
    ensures
        !has_body(request@) ==> r == Err::<String, RequestError>(RequestError::NoBody) && *final(program)
            == *old(program),
        has_body(request@) && target_dir(request_target(request@)) == "/update"@ ==> match decode_state(
            request_body(request@),
        ) {
            Ok((p, c, b)) => {
                &&& r matches Ok(contents) && contents@ == Seq::<char>::empty()
                &&& final(program).player == p
                &&& final(program).current_player == c
                &&& final(program).control.board@ == b
                &&& final(program).control.lmove == old(program).control.lmove
                &&& final(program).io == old(program).io
            },
            Err(e) => r == Err::<String, RequestError>(RequestError::State(e)) && *final(program)
                == *old(program),
        },
        has_body(request@) && target_dir(request_target(request@)) != "/update"@ ==> {
            &&& r matches Ok(contents) && contents@ == "Malformed request. Access rejected."@
            &&& final(program).io@ == "malformed http request: "@ + request@
            &&& final(program).control == old(program).control
            &&& final(program).player == old(program).player
            &&& final(program).current_player == old(program).current_player
        },
        final(program).state == old(program).state,
        final(program).input == old(program).input,
        final(program).exit == old(program).exit,
        final(program).server == old(program).server,
        final(program).client == old(program).client,
        final(program).passwd == old(program).passwd,
        final(program).multiplayer == old(program).multiplayer,
        final(program).is_hosting == old(program).is_hosting,
{
    proof {
        reveal_strlit("/update");
    }
    let (x, _full_dir, dir) = match read_request(request) {
        Some(parts) => parts,
        None => {
            return Err(RequestError::NoBody);
        },
    };
    if same_text(dir.as_str(), "/update") {
        match decode_game_state(x.as_str()) {
            Ok(_) => {
                crate::game::update_gamestate(program, x);
                Ok(String::new())
            },
            Err(e) => Err(RequestError::State(e)),
        }
    } else {
        let mut io = String::from_str("malformed http request: ");
        io.append(request);
        program.io = io;
        Ok(String::from_str("Malformed request. Access rejected."))
    }
}

/// The status line and headers of a reply carrying `contents`.
pub open spec fn reply_text(contents: Seq<char>, length: nat) -> Seq<char> {
    "HTTP/1.1 200 OK\r\nContent-Length: "@ + decimal(length) + blank_line() + contents
}

/// A `200 OK` reply whose `Content-Length` is the UTF-8 length of
/// `contents`.
pub fn http_response(contents: &str) -> (r: String)
    ensures
        r@ == reply_text(contents@, contents.len() as nat),
{
    let length = contents.len();
    let mut r = String::from_str("HTTP/1.1 200 OK\r\nContent-Length: ");
    let digits = decimal_string(length);
    r.append(digits.as_str());
    r.append("\r\n\r\n");
    r.append(contents);
    proof {
        reveal_strlit("\r\n\r\n");
        assert("\r\n\r\n"@ =~= blank_line());
    }
    r
}

} // verus!

verus! {

/// A path as clients write it: it starts with `/` and holds no blank and no
/// carriage return.
pub open spec fn plain_path(p: Seq<char>) -> bool {
    &&& p.len() >= 1
    &&& p[0] == '/'
    &&& forall|k: int| 0 <= k < p.len() ==> p[k] != ' ' && p[k] != '\r'
}

/// A host name without carriage returns.
pub open spec fn plain_host(h: Seq<char>) -> bool {
    forall|k: int| 0 <= k < h.len() ==> h[k] != '\r'
}

/// A body without NUL characters and without a blank line.
pub open spec fn plain_body(b: Seq<char>) -> bool {
    &&& forall|k: int| 0 <= k < b.len() ==> b[k] != '\0'
    &&& !contains_pat(b, blank_line())
}

/// What a client sends, the listener reads back: the request built for a
/// plain path, host and body has a body, and its target and body are the
/// path and body that were sent.
pub proof fn lemma_request_read_back(host: Seq<char>, path: Seq<char>, body: Seq<char>)
    requires
        plain_path(path),
        plain_host(host),
        plain_body(body),
    ensures
        has_body(request_text(host, path, body)),
        request_target(request_text(host, path, body)) == path,
        request_body(request_text(host, path, body)) == body,
{
    reveal_strlit("GET ");
    reveal_strlit(" HTTP/1.1\r\nHost: ");
    reveal_strlit("\r\n\r\n");
    let get = seq!['G', 'E', 'T', ' '];
    let line = seq![' ', 'H', 'T', 'T', 'P', '/', '1', '.', '1', '\r', '\n', 'H', 'o', 's', 't', ':', ' '];
    assert("GET "@ =~= get);
    assert(" HTTP/1.1\r\nHost: "@ =~= line);
    assert("\r\n\r\n"@ =~= blank_line());
    let req = request_text(host, path, body);
    // The first blank line ends the headers.
    let x = get + path + line + host;
    assert(req =~= x + blank_line() + body);
    let lp = path.len() as int;
    assert forall|k: int| 0 <= k < x.len() implies !matches_at(x + blank_line() + body, blank_line(), k) by {
        let s = x + blank_line() + body;
        if k == 4 + lp + 9 {
            assert(s[k + 2] == 'H');
            if matches_at(s, blank_line(), k) {
                assert(s.subrange(k, k + 4)[2] == s[k + 2]);
            }
        } else {
            if k < 4 {
                assert(s[k] == get[k]);
            } else if k < 4 + lp {
                assert(s[k] == path[k - 4]);
            } else if k < 4 + lp + 17 {
                assert(s[k] == line[k - 4 - lp]);
            } else {
                assert(s[k] == host[k - 4 - lp - 17]);
            }
            crate::text::lemma_no_start(s, blank_line(), k);
        }
    }
    crate::text::lemma_split_first(x, blank_line(), body);
    crate::text::lemma_split_none(body, blank_line());
    crate::text::lemma_without_absent(body, '\0');
    // The request line ends at ` HTTP/1.1`.
    let hp = seq![' ', 'H', 'T', 'T', 'P', '/', '1', '.', '1'];
    let x2 = get + path;
    let rest2 = seq!['\r', '\n', 'H', 'o', 's', 't', ':', ' '] + host + blank_line() + body;
    assert(req =~= x2 + hp + rest2);
    assert forall|k: int| 0 <= k < x2.len() implies !matches_at(x2 + hp + rest2, hp, k) by {
        let s = x2 + hp + rest2;
        if k == 3 {
            assert(s[4] == '/');
            if matches_at(s, hp, k) {
                assert(s.subrange(3, 12)[1] == s[4]);
            }
        } else {
            if k < 4 {
                assert(s[k] == get[k]);
            } else {
                assert(s[k] == path[k - 4]);
            }
            crate::text::lemma_no_start(s, hp, k);
        }
    }
    crate::text::lemma_split_first(x2, hp, rest2);
    // Deleting `GET ` leaves the path.
    assert(x2 =~= Seq::<char>::empty() + get + path);
    crate::text::lemma_split_first(Seq::<char>::empty(), get, path);
    assert(!contains_pat(path, get)) by {
        if contains_pat(path, get) {
            let k = choose|k: int| matches_at(path, get, k);
            assert(path.subrange(k, k + 4)[3] == path[k + 3]);
        }
    }
    crate::text::lemma_split_none(path, get);
    let pieces = seq![Seq::<char>::empty(), path];
    assert(split_by(x2, get) == pieces);
    assert(crate::text::concat_all(pieces) =~= path) by {
        reveal_with_fuel(crate::text::concat_all, 3);
        assert(pieces.drop_last() =~= seq![Seq::<char>::empty()]);
        assert(seq![Seq::<char>::empty()].drop_last() =~= Seq::<Seq<char>>::empty());
    }
}

} // verus!

verus! {

/// A reply body the client reads back unchanged: it holds no blank line,
/// no `\r\nContent-Length:`, no `Content-Disposition:` and no `filename`,
/// and does not start with `Content-Length:` (which would continue the
/// blank line into a second such header).
pub open spec fn plain_reply(contents: Seq<char>) -> bool {
    &&& !contains_pat(contents, "\r\n\r\n"@)
    &&& !contains_pat(contents, "\r\nContent-Length:"@)
    &&& !contains_pat(contents, "Content-Disposition:"@)
    &&& !contains_pat(contents, "filename"@)
    &&& !matches_at(contents, "Content-Length:"@, 0)
}

/// What the listener replies, the client reads back: a reply framed for a
/// plain body can be cut into its parts, its content is the body, its
/// header is the whole reply and it carries no attachment.
pub proof fn lemma_reply_read_back(contents: Seq<char>, n: nat)
    requires
        plain_reply(contents),
    ensures
        response_readable(reply_text(contents, n)),
        content_of(reply_text(contents, n)) == contents,
        header_of(reply_text(contents, n)) == reply_text(contents, n),
        attachment_of(reply_text(contents, n)) == "none"@,
{
    reveal_strlit("HTTP/1.1 200 OK\r\nContent-Length: ");
    reveal_strlit("\r\nContent-Length:");
    reveal_strlit("Content-Length:");
    reveal_strlit("Content-Disposition:");
    reveal_strlit("\r\n\r\n");
    reveal_strlit("filename");
    let status = seq!['H', 'T', 'T', 'P', '/', '1', '.', '1', ' ', '2', '0', '0', ' ', 'O', 'K'];
    let cl = "\r\nContent-Length:"@;
    assert(cl.len() == 17);
    assert("HTTP/1.1 200 OK\r\nContent-Length: "@ =~= status + cl + seq![' ']);
    assert("\r\n\r\n"@ =~= blank_line());
    let digits = decimal(n);
    crate::text::lemma_decimal_digits(n);
    let head = seq![' '] + digits;
    let y = head + blank_line() + contents;
    let reply = reply_text(contents, n);
    assert(reply =~= status + cl + y);
    // The status line holds no carriage return.
    assert forall|k: int| 0 <= k < status.len() implies !matches_at(status + cl + y, cl, k) by {
        crate::text::lemma_no_start(status + cl + y, cl, k);
    }
    crate::text::lemma_split_first(status, cl, y);
    // No second `Content-Length` header follows.
    assert(!contains_pat(y, cl)) by {
        if contains_pat(y, cl) {
            let k = choose|k: int| matches_at(y, cl, k);
            assert(y.subrange(k, k + cl.len())[0] == y[k]);
            assert(y.subrange(k, k + cl.len())[2] == y[k + 2]);
            let h = head.len() as int;
            if k < h {
                assert(y[k] == head[k]);
            } else if k == h {
                assert(y[k + 2] == '\r');
            } else if k == h + 2 {
                assert forall|j: int| 0 <= j < 15 implies contents[j] == "Content-Length:"@[j] by {
                    assert(y.subrange(k, k + cl.len())[j + 2] == y[k + j + 2]);
                }
                assert(contents.subrange(0, 15) =~= "Content-Length:"@);
            } else if k < h + 4 {
                assert(y[k] == '\n');
            } else {
                assert(contents.subrange(k - h - 4, k - h - 4 + cl.len()) =~= y.subrange(
                    k,
                    k + cl.len(),
                ));
                assert(matches_at(contents, cl, k - h - 4));
            }
        }
    }
    crate::text::lemma_split_none(y, cl);
    // The blank line ends the headers; the body holds no other.
    assert forall|k: int| 0 <= k < head.len() implies !matches_at(head + blank_line() + contents, blank_line(), k) by {
        let s = head + blank_line() + contents;
        assert(s[k] == head[k]);
        if k > 0 {
            assert(crate::text::is_digit(digits[k - 1]));
        }
        crate::text::lemma_no_start(s, blank_line(), k);
    }
    crate::text::lemma_split_first(head, blank_line(), contents);
    crate::text::lemma_split_none(contents, blank_line());
    let pre = status + cl + head + blank_line();
    assert(reply =~= pre + contents);
    // No `filename` anywhere.
    let f = "filename"@;
    assert(f[0] == 'f');
    assert forall|k: int| 0 <= k < pre.len() implies pre[k] != f[0] by {
        if k >= status.len() + cl.len() + 1 && k < status.len() + cl.len() + head.len() {
            assert(pre[k] == digits[k - status.len() - cl.len() - 1]);
        }
    }
    if contains_pat(reply, f) {
        crate::text::lemma_contains_suffix(pre, contents, f);
    }
    // No `Content-Disposition:` anywhere: the only `C` before the body
    // starts `Content-Length`.
    let d = "Content-Disposition:"@;
    assert(d.len() == 20 && d[0] == 'C' && d[8] == 'D');
    assert(!contains_pat(reply, d)) by {
        if contains_pat(reply, d) {
            let k = choose|k: int| matches_at(reply, d, k);
            assert(reply.subrange(k, k + d.len())[0] == reply[k]);
            if k < pre.len() {
                if k == status.len() + 2 {
                    assert(reply.subrange(k, k + d.len())[8] == reply[k + 8]);
                    assert(reply[k + 8] == cl[10]);
                } else if k >= status.len() + cl.len() + 1 && k < status.len() + cl.len()
                    + head.len() {
                    assert(reply[k] == digits[k - status.len() - cl.len() - 1]);
                } else {
                    assert(reply[k] == pre[k]);
                }
            } else {
                assert(contents.subrange(k - pre.len(), k - pre.len() + d.len()) =~= reply.subrange(
                    k,
                    k + d.len(),
                ));
                assert(matches_at(contents, d, k - pre.len()));
            }
        }
    }
    crate::text::lemma_split_none(reply, d);
}

/// An authorised `/gamestate` reply gives the joined player the host's
/// position with the host's colour in the second field and the colour to
/// move in the third: the joined player reads itself as the colour
/// opposite the host's, and the colour to move as the host's.
pub proof fn lemma_gamestate_reply_colors(
    old: Program,
    request: Seq<char>,
    peer: Seq<char>,
    new: Program,
    s: String,
)
    requires
        canonical_board(old.control.board@),
        host_answers(old, request, peer, new, Ok(s)),
        has_body(request),
        target_dir(request_target(request)) == "/gamestate"@,
        authorised(request_target(request), old.passwd@),
    ensures
        state_fields(s@)[1] == color_name(old.player),
        state_fields(s@)[2] == color_name(old.current_player),
        receiver_color(state_fields(s@)[1]) == Some(opposite(old.player)),
        named_color(state_fields(s@)[2]) == Some(old.current_player),
{
    lemma_state_colors(old.control.board@, old.player, old.current_player);
}

/// An authorised `/move` request the host can judge plays the opponent's
/// move and passes the turn when the move is not illegal, answering
/// `update`; an illegal move leaves the game and the turn as they were.
pub proof fn lemma_move_request_passes_turn(
    old: Program,
    request: Seq<char>,
    peer: Seq<char>,
    new: Program,
    r: Result<String, RequestError>,
)
    requires
        host_answers(old, request, peer, new, r),
        has_body(request),
        target_dir(request_target(request)) == "/move"@,
        authorised(request_target(request), old.passwd@),
        move_allowed(old.control.board@, old.control.lmove.deep_view(), request_body(request)),
    ensures
        ({
            let b = old.control.board@;
            let l = old.control.lmove.deep_view();
            let x = request_body(request);
            &&& r is Ok
            &&& move_verdict(b, x, l) != movestate::Illegal ==> {
                &&& new.current_player != old.current_player
                &&& new.control.board@ == board_after(b, l, x)
                &&& new.control.lmove.deep_view() == last_after(b, l, x)
            }
            &&& move_verdict(b, x, l) == movestate::Illegal ==> {
                &&& new.control == old.control
                &&& new.current_player == old.current_player
            }
        }),
{
    reveal_strlit("/move");
    reveal_strlit("/gamestate");
    assert("/move"@ != "/gamestate"@) by {
        assert("/move"@[1] != "/gamestate"@[1]);
    }
}

} // verus!
