//! Terminal chess: board model, move rules and the small text protocols
//! that the game speaks.
pub mod text;
pub mod common;
pub mod board;
pub mod control;
pub mod gamestate;
pub mod game;
pub mod server;
pub mod http;
