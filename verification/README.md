# chess

A two-player chess game for the terminal, playable on one machine or by two
machines over a small HTTP dialogue.

- `src/` is the library, verified with Verus:
  - `common.rs`: pieces, colours and the per-piece move rules;
  - `board.rs`: the 8 by 8 board and its printed form;
  - `control.rs`: the controller that judges and plays moves such as `e2 e4`;
  - `gamestate.rs`: the text in which a host sends its position;
  - `game.rs`: key events, the three input modes and the screen layout;
  - `server.rs`, `http.rs`: what the two listeners decide on a request, and
    the request and reply texts;
  - `text.rs`: splitting and searching text.
- `app/` is the program around it: raw terminal mode, drawing, sockets and
  threads.
- `tests/` runs the library on concrete games and messages.

A program built with `CHESS_MULTIPLAYER=1` hosts with `host [password]` and
joins with `<any word> <host:2137> <password>`; otherwise the game is local.
