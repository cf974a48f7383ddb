//! AI module: the board evaluation and the result of a move search.

pub mod heuristic;
pub mod search;

pub use search::SearchResult;
