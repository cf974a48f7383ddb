//! Colors of the tiles.
//!
//! A log2 cell exponent (0 = empty, 1 = tile 2, ..., 15 = tile 32768) gets a
//! background color interpolated from light yellow (exponent 1) to deep
//! red-orange (exponent 15 and above):
//!
//! ```text
//! start: rgb(255, 255, 128)   light yellow      (tile 2)
//! end:   rgb(220,  20,   0)   deep red-orange   (tile 32768)
//! for exponent n (k = n - 1, at most 14):
//!   R = 255 -  35k / 14
//!   G = 255 - 235k / 14
//!   B = 128 - 128k / 14
//! ```
//!
//! Text is black on the bright backgrounds (n <= 4) and white on the dark ones
//! (n >= 5). Empty cells have their own dark shade.
use vstd::prelude::*;
use crate::board::bitboard::Cell;

verus! {

/// How a cell is colored.
#[derive(Clone, Copy, Debug, PartialEq, Eq, Structural)]
pub enum TileShade {
    /// An empty cell.
    Empty,
    /// A tile with background `(r, g, b)`, and black text if `dark_text`.
    Tile { r: u8, g: u8, b: u8, dark_text: bool },
}

/// Integer interpolation from `start` to `end` in 14 steps, at step `k`.
pub open spec fn lerp(start: int, end: int, k: int) -> int {
    start - ((start - end) * k) / 14
}

/// The shade of a cell with exponent `cell`.
pub open spec fn shade_of(cell: int) -> TileShade {
    if cell == 0 {
        TileShade::Empty
    } else {
        let k = if cell >= 15 { 14 } else { cell - 1 };
        TileShade::Tile {
            r: lerp(255, 220, k) as u8,
            g: lerp(255, 20, k) as u8,
            b: lerp(128, 0, k) as u8,
            dark_text: cell <= 4,
        }
    }
}

/// The shade of a cell with the given log2 exponent.
pub fn tile_shade(cell: Cell) -> (s: TileShade)
    ensures
        s == shade_of(cell as int),
{
    if cell == 0 {
        TileShade::Empty
    } else {
        let k: u32 = if cell >= 15 {
            14
        } else {
            (cell - 1) as u32
        };
        // Integer lerp: S - (S - E) * k / 14
        let r = 255 - (35 * k) / 14;
        let g = 255 - (235 * k) / 14;
        let b = 128 - (128 * k) / 14;
        TileShade::Tile { r: r as u8, g: g as u8, b: b as u8, dark_text: cell <= 4 }
    }
}

} // verus!
