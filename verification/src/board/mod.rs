//! Board module: bitboard representation, move engine, and row tables.

pub mod bitboard;
pub mod tables;
pub mod scoring;

pub use bitboard::{Board, Cell, Direction, Row, empty_board};
