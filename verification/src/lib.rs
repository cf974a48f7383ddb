//! twenty48: a 2048 game engine on a nibble-packed bitboard, with its rules,
//! tile spawning, board evaluation and the state machine behind the terminal UI.

pub mod board;
pub mod game;
pub mod ai;
pub mod tui;
