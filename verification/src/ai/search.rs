//! The result of a move search and the hint it gives the player.
//!
//! The search itself is an expectimax over the game tree with iterative
//! deepening; it weighs spawns by their probabilities in floating point and so
//! runs outside this library. What it returns, and the hint derived from it, are
//! plain values defined here.
use vstd::prelude::*;
use crate::board::bitboard::Direction;
use crate::tui::app::HintInfo;

verus! {

/// Search depth measured in plies.
pub type Depth = u8;

/// Hard cap on search depth in plies.
pub const MAX_DEPTH: Depth = 10;

/// Result returned by the top-level search.
pub struct SearchResult {
    /// Best move found, or `None` if the board is terminal.
    pub best_move: Option<Direction>,
    /// Deepest completed search depth.
    pub depth_reached: Depth,
}

/// The hint for a search result: the move and the depth it was found at, or no
/// move at all.
pub fn hint_from_result(result: SearchResult) -> (hint: HintInfo)
    ensures
        hint == match result.best_move {
            Some(dir) => HintInfo::Move { dir, depth: result.depth_reached },
            None => HintInfo::NoMoves,
        },
{
    match result.best_move {
        Some(dir) => HintInfo::Move { dir, depth: result.depth_reached },
        None => HintInfo::NoMoves,
    }
}

} // verus!
