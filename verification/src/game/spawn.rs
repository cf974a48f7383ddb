//! Tile spawn logic.
//!
//! After each successful move, one empty cell is chosen uniformly at random and
//! filled with tile 2 (log2 = 1) or tile 4 (log2 = 2), each with probability one
//! half.
use vstd::prelude::*;
use crate::board::bitboard::{Board, Cell, empty_positions, empty_count};
use super::rng::{SeededRng, draw_in_range, draw_ratio, range_draw, ratio_draw};

verus! {

/// A spawned tile is a 2 (value 1) with probability
/// `P_TILE_2_NUMERATOR / P_TILE_2_DENOMINATOR`, else a 4 (value 2).
pub const P_TILE_2_NUMERATOR: u32 = 1;

/// See `P_TILE_2_NUMERATOR`.
pub const P_TILE_2_DENOMINATOR: u32 = 2;

/// The spawn on `board` that the draws `idx` (which empty cell, in row-major
/// order) and `two` (tile 2 rather than tile 4) select.
pub open spec fn spawn_result(board: Board, idx: int, two: bool) -> ((usize, usize), Cell) {
    (empty_positions(board@, 16)[idx], if two { 1u8 } else { 2u8 })
}

/// Place the spawned tile: the `idx`-th empty cell of `board` (row-major order,
/// as listed in `empty_cells`) gets value 1 (tile 2) if `two`, else 2 (tile 4).
pub fn place_spawn(board: Board, empty_cells: &Vec<(usize, usize)>, idx: usize, two: bool) -> (res: (
    Board,
    (usize, usize),
    Cell,
))
    requires
        empty_cells@ == empty_positions(board@, 16),
        idx < empty_cells.len(),
    ensures
        (res.1, res.2) == spawn_result(board, idx as int, two),
        res.0@ == board@.update(4 * res.1.0 + res.1.1, res.2),
        board@[4 * res.1.0 + res.1.1] == 0,
{
    let (r, c) = empty_cells[idx];
    proof {
        lemma_empty_position(board@, 16, idx as int);
    }
    let value: Cell = if two {
        1
    } else {
        2
    };
    let new_board = board.set_cell(r, c, value);
    (new_board, (r, c), value)
}

/// Each empty position is a valid cell index holding 0.
pub proof fn lemma_empty_position(v: Seq<u8>, n: int, k: int)
    requires
        0 <= n <= v.len() <= 16,
        0 <= k < empty_positions(v, n).len(),
    ensures
        empty_positions(v, n)[k].0 < 4,
        empty_positions(v, n)[k].1 < 4,
        4 * empty_positions(v, n)[k].0 + empty_positions(v, n)[k].1 < n,
        v[4 * empty_positions(v, n)[k].0 + empty_positions(v, n)[k].1] == 0,
    decreases n,
{
    if n > 0 {
        if v[n - 1] == 0 {
            if k < empty_positions(v, n - 1).len() {
                lemma_empty_position(v, n - 1, k);
            } else {
                assert(4 * ((n - 1) / 4) + (n - 1) % 4 == n - 1);
            }
        } else {
            lemma_empty_position(v, n - 1, k);
        }
    }
}

/// The draws of a spawn on a board with `n` empty cells, from the generator
/// seeded with `seed` that has yielded `pos` words: which empty cell (in
/// row-major order), whether the tile is a 2, and the generator's position after
/// both draws.
pub open spec fn spawn_draws(seed: u64, pos: u128, n: nat) -> (int, bool, u128) {
    let cell = range_draw(seed, pos, 0, n as u64);
    let tile = ratio_draw(seed, cell.1, P_TILE_2_NUMERATOR, P_TILE_2_DENOMINATOR);
    (cell.0 as int, tile.0, tile.1)
}

/// Spawn a new tile on an empty cell.
///
/// Picks an empty cell uniformly at random among all empty positions, then places
/// value 1 (tile 2) or value 2 (tile 4) with probability one half each.
///
/// Returns `Some((new_board, (row, col), value))`, or `None` if the board is full,
/// in which case nothing is drawn. Which cell and tile come out is fixed by the
/// generator's seed and position (`spawn_draws`).
pub fn spawn(board: Board, rng: &mut SeededRng) -> (res: Option<(Board, (usize, usize), Cell)>)
    ensures
        res is None <==> empty_count(board@) == 0,
        res is None ==> *final(rng) == *old(rng),
        res matches Some((b, pos, v)) ==> {
            let d = spawn_draws(old(rng).seed(), old(rng).pos(), empty_count(board@));
            &&& 0 <= d.0 < empty_count(board@)
            &&& (pos, v) == spawn_result(board, d.0, d.1)
            &&& pos.0 < 4 && pos.1 < 4
            &&& board@[4 * pos.0 + pos.1] == 0
            &&& b@ == board@.update(4 * pos.0 + pos.1, v)
            &&& final(rng).seed() == old(rng).seed()
            &&& final(rng).pos() == d.2
        },
{
    let empty_cells = board.empties();
    if empty_cells.len() == 0 {
        return None;
    }
    let n: u64 = empty_cells.len() as u64;
    let idx = draw_in_range(rng, 0, n) as usize;
    let two = draw_ratio(rng, P_TILE_2_NUMERATOR, P_TILE_2_DENOMINATOR);
    let (new_board, pos, value) = place_spawn(board, &empty_cells, idx, two);
    proof {
        lemma_empty_position(board@, 16, idx as int);
        assert((pos, value) == spawn_result(board, idx as int, two));
    }
    Some((new_board, pos, value))
}

/// Filling an empty cell with a tile leaves one empty cell fewer: a spawn on a
/// board with `k` empty cells leaves `k - 1`.
pub proof fn lemma_fill_one_cell(v: Seq<u8>, i: int, x: u8)
    requires
        0 <= i < v.len(),
        v[i] == 0,
        x != 0,
    ensures
        empty_count(v.update(i, x)) + 1 == empty_count(v),
    decreases v.len(),
{
    reveal(Seq::filter);
    let u = v.update(i, x);
    if i == v.len() - 1 {
        assert(u.drop_last() =~= v.drop_last());
    } else {
        lemma_fill_one_cell(v.drop_last(), i, x);
        assert(u.drop_last() =~= v.drop_last().update(i, x));
    }
}

} // verus!
