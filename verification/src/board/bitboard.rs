//! 2048 bitboard: encoding, cell/row accessors, board utilities and the move
//! engine.
//!
//! The board is a `u64` where each of the 16 cells occupies one nibble. Cell
//! `(r, c)` (row `r`, column `c`, both 0-indexed from the top left) lives at bits
//! `4 * (4*r + c)` through `4 * (4*r + c) + 3`; row `r` occupies bits `16*r`
//! through `16*r + 15`, with its cells packed left to right in nibbles 0..3.
//! Each nibble stores a log2 exponent: 0 = empty cell, n = tile value 2^n.
//!
//! Example board:
//! ```text
//! [ 2,  0,  4,  0 ]   ->  row 0: nibbles [1, 0, 2, 0]  -> u16 = 0x0201
//! [ 0,  8,  0, 16 ]   ->  row 1: nibbles [0, 3, 0, 4]  -> u16 = 0x4030
//! [ 0,  0,  0,  0 ]   ->  row 2: nibbles [0, 0, 0, 0]  -> u16 = 0x0000
//! [ 0,  0,  0,  0 ]   ->  row 3: nibbles [0, 0, 0, 0]  -> u16 = 0x0000
//! ```
use vstd::prelude::*;
use super::tables::{
    row_cells, packed, all_nibbles, row_left, row_left_score, row_right, row_right_score,
    lemma_row_cells, lemma_packed_cells, slide_row_left, slide_row_right, RowTables, tile_total,
    tiles_total, tile_value_of, slid_cells, lemma_slide_conserves_tiles, lemma_tile_total_concat,
    lemma_full_row_left_unchanged, reversed_row, lemma_reverse_row_involution, active_pair,
    left_stable, lemma_row_left_fixed,
};

verus! {

/// A cell value: log2 exponent (0 = empty, n = tile 2^n).
pub type Cell = u8;

/// Four cells packed into a `u16` (nibble per cell).
pub type Row = u16;

/// A move score (sum of merged tile values).
pub type Score = u32;

/// A 2048 board packed as 16 4-bit nibbles in a `u64`.
#[derive(Copy, Clone, Debug, Default, PartialEq, Eq, Hash, Structural)]
pub struct Board(pub u64);

/// Direction for player moves.
#[derive(Copy, Clone, Debug, PartialEq, Eq, Hash, Structural)]
pub enum Direction {
    Up,
    Down,
    Left,
    Right,
}

impl Direction {
    /// All four directions, in a fixed order.
    pub const ALL: [Direction; 4] = [Direction::Up, Direction::Down, Direction::Left, Direction::Right];
}

/// The four directions in the order of `Direction::ALL`.
pub open spec fn all_directions() -> Seq<Direction> {
    seq![Direction::Up, Direction::Down, Direction::Left, Direction::Right]
}

// ---------------------------------------------------------------------------
// The board model
// ---------------------------------------------------------------------------

/// The nibble `i` (0..16) of `x`.
pub open spec fn nibble(x: u64, i: int) -> u8 {
    ((x >> ((4 * i) as u64)) & 0xFu64) as u8
}

impl View for Board {
    type V = Seq<u8>;

    /// The sixteen cells in row-major order: cell `(r, c)` is at index `4*r + c`.
    open spec fn view(&self) -> Seq<u8> {
        Seq::new(16, |i: int| nibble(self.0, i))
    }
}

/// Row `r` of a sequence of sixteen cells, packed.
pub open spec fn view_row(v: Seq<u8>, r: int) -> u16 {
    packed(v.subrange(4 * r, 4 * r + 4))
}

/// The sixteen cells of four packed rows, top row first.
pub open spec fn from_rows(r0: u16, r1: u16, r2: u16, r3: u16) -> Seq<u8> {
    row_cells(r0) + row_cells(r1) + row_cells(r2) + row_cells(r3)
}

/// The cells with rows and columns swapped.
pub open spec fn transposed(v: Seq<u8>) -> Seq<u8> {
    Seq::new(16, |i: int| v[4 * (i % 4) + i / 4])
}

/// The cells after every row moves left.
pub open spec fn left_cells(v: Seq<u8>) -> Seq<u8> {
    from_rows(
        row_left(view_row(v, 0)),
        row_left(view_row(v, 1)),
        row_left(view_row(v, 2)),
        row_left(view_row(v, 3)),
    )
}

/// The score of moving every row left.
pub open spec fn left_score(v: Seq<u8>) -> nat {
    row_left_score(view_row(v, 0)) + row_left_score(view_row(v, 1)) + row_left_score(
        view_row(v, 2),
    ) + row_left_score(view_row(v, 3))
}

/// The cells after every row moves right.
pub open spec fn right_cells(v: Seq<u8>) -> Seq<u8> {
    from_rows(
        row_right(view_row(v, 0)),
        row_right(view_row(v, 1)),
        row_right(view_row(v, 2)),
        row_right(view_row(v, 3)),
    )
}

/// The score of moving every row right.
pub open spec fn right_score(v: Seq<u8>) -> nat {
    row_right_score(view_row(v, 0)) + row_right_score(view_row(v, 1)) + row_right_score(
        view_row(v, 2),
    ) + row_right_score(view_row(v, 3))
}

/// The cells after a move in `dir`: up and down move the columns as left and
/// right move the rows.
pub open spec fn moved_cells(v: Seq<u8>, dir: Direction) -> Seq<u8> {
    match dir {
        Direction::Left => left_cells(v),
        Direction::Right => right_cells(v),
        Direction::Up => transposed(left_cells(transposed(v))),
        Direction::Down => transposed(right_cells(transposed(v))),
    }
}

/// The score of a move in `dir`.
pub open spec fn move_score(v: Seq<u8>, dir: Direction) -> nat {
    match dir {
        Direction::Left => left_score(v),
        Direction::Right => right_score(v),
        Direction::Up => left_score(transposed(v)),
        Direction::Down => right_score(transposed(v)),
    }
}

/// A move in `dir` changes the board.
pub open spec fn is_legal(v: Seq<u8>, dir: Direction) -> bool {
    moved_cells(v, dir) != v
}

/// Some direction changes the board.
pub open spec fn has_legal_move(v: Seq<u8>) -> bool {
    exists|d: Direction| is_legal(v, d)
}

/// The directions of `all_directions()[0..n]` that change the board, in order.
pub open spec fn legal_prefix(v: Seq<u8>, n: int) -> Seq<Direction>
    decreases n,
{
    if n <= 0 {
        Seq::empty()
    } else if is_legal(v, all_directions()[n - 1]) {
        legal_prefix(v, n - 1).push(all_directions()[n - 1])
    } else {
        legal_prefix(v, n - 1)
    }
}

/// Some two neighbouring cells, in a row or in a column, are one empty and one
/// not, or hold equal tiles.
pub open spec fn has_active_pair(v: Seq<u8>) -> bool {
    ||| exists|r: int, j: int|
        0 <= r < 4 && 0 <= j < 3 && #[trigger] active_pair(v[4 * r + j], v[4 * r + j + 1])
    ||| exists|r: int, c: int|
        0 <= r < 3 && 0 <= c < 4 && #[trigger] active_pair(v[4 * r + c], v[4 * r + 4 + c])
}

/// The number of empty cells.
pub open spec fn empty_count(v: Seq<u8>) -> nat {
    v.filter(|x: u8| x == 0).len()
}

/// The positions `(row, column)` of the empty cells among the first `n` cells,
/// in row-major order.
pub open spec fn empty_positions(v: Seq<u8>, n: int) -> Seq<(usize, usize)>
    decreases n,
{
    if n <= 0 {
        Seq::empty()
    } else if v[n - 1] == 0 {
        empty_positions(v, n - 1).push((((n - 1) / 4) as usize, ((n - 1) % 4) as usize))
    } else {
        empty_positions(v, n - 1)
    }
}

/// The largest value among the first `n` cells (0 if there are none).
pub open spec fn max_upto(v: Seq<u8>, n: int) -> u8
    decreases n,
{
    if n <= 0 {
        0
    } else if v[n - 1] > max_upto(v, n - 1) {
        v[n - 1]
    } else {
        max_upto(v, n - 1)
    }
}

/// The largest of the first `n` cells is at least each of them, and is one of
/// them (or 0 when `n` is 0).
pub proof fn lemma_max_upto_is_largest(v: Seq<u8>, n: int)
    requires
        0 <= n <= v.len(),
    ensures
        forall|i: int| 0 <= i < n ==> #[trigger] v[i] <= max_upto(v, n),
        n == 0 ==> max_upto(v, n) == 0,
        n > 0 ==> exists|i: int| 0 <= i < n && #[trigger] v[i] == max_upto(v, n),
    decreases n,
{
    if n > 0 {
        lemma_max_upto_is_largest(v, n - 1);
        if n > 1 && v[n - 1] <= max_upto(v, n - 1) {
            let i = choose|i: int| 0 <= i < n - 1 && #[trigger] v[i] == max_upto(v, n - 1);
            assert(v[i] == max_upto(v, n));
        } else {
            assert(v[n - 1] == max_upto(v, n) || n > 1);
        }
    }
}

/// Number of one bits of `x`.
pub open spec fn ones(x: u64) -> nat
    decreases x,
{
    if x == 0 {
        0
    } else {
        (x % 2) as nat + ones(x / 2)
    }
}

/// `count_ones` returns the number of ones in the binary representation.
pub assume_specification[ u64::count_ones ](x: u64) -> (r: u32)
    ensures
        r == ones(x),
;

// ---------------------------------------------------------------------------
// Bit-level lemmas
// ---------------------------------------------------------------------------

/// Cells are nibble values.
pub proof fn lemma_view_nibbles(b: Board)
    ensures
        b@.len() == 16,
        all_nibbles(b@),
{
    assert forall|i: int| 0 <= i < b@.len() implies #[trigger] b@[i] <= 15 by {
        let s = (4 * i) as u64;
        let x = b.0;
        assert((x >> s) & 0xF <= 15) by (bit_vector);
    }
}

/// A board is determined by its cells.
pub proof fn lemma_view_injective(a: Board, b: Board)
    requires
        a@ == b@,
    ensures
        a == b,
{
    let x = a.0;
    let y = b.0;
    assert forall|k: u64| k < 16 implies #[trigger] ((x >> (4 * k)) & 0xF) == ((y >> (4 * k))
        & 0xF) by {
        assert(a@[k as int] == b@[k as int]);
        let s = (4 * (k as int)) as u64;
        assert(s == 4 * k);
        assert((x >> s) & 0xF <= 15 && (y >> s) & 0xF <= 15) by (bit_vector);
        let e = (x >> s) & 0xF;
        let f = (y >> s) & 0xF;
        assert(a@[k as int] == nibble(x, k as int));
        assert(nibble(x, k as int) == e as u8);
        assert(b@[k as int] == nibble(y, k as int));
        assert(e as u8 == f as u8);
        assert(e == f);
    }
    assert(((x >> (4 * 0u64)) & 0xF) == ((y >> (4 * 0u64)) & 0xF));
    assert(((x >> (4 * 1u64)) & 0xF) == ((y >> (4 * 1u64)) & 0xF));
    assert(((x >> (4 * 2u64)) & 0xF) == ((y >> (4 * 2u64)) & 0xF));
    assert(((x >> (4 * 3u64)) & 0xF) == ((y >> (4 * 3u64)) & 0xF));
    assert(((x >> (4 * 4u64)) & 0xF) == ((y >> (4 * 4u64)) & 0xF));
    assert(((x >> (4 * 5u64)) & 0xF) == ((y >> (4 * 5u64)) & 0xF));
    assert(((x >> (4 * 6u64)) & 0xF) == ((y >> (4 * 6u64)) & 0xF));
    assert(((x >> (4 * 7u64)) & 0xF) == ((y >> (4 * 7u64)) & 0xF));
    assert(((x >> (4 * 8u64)) & 0xF) == ((y >> (4 * 8u64)) & 0xF));
    assert(((x >> (4 * 9u64)) & 0xF) == ((y >> (4 * 9u64)) & 0xF));
    assert(((x >> (4 * 10u64)) & 0xF) == ((y >> (4 * 10u64)) & 0xF));
    assert(((x >> (4 * 11u64)) & 0xF) == ((y >> (4 * 11u64)) & 0xF));
    assert(((x >> (4 * 12u64)) & 0xF) == ((y >> (4 * 12u64)) & 0xF));
    assert(((x >> (4 * 13u64)) & 0xF) == ((y >> (4 * 13u64)) & 0xF));
    assert(((x >> (4 * 14u64)) & 0xF) == ((y >> (4 * 14u64)) & 0xF));
    assert(((x >> (4 * 15u64)) & 0xF) == ((y >> (4 * 15u64)) & 0xF));
    assert(x == y) by (bit_vector)
        requires
            (x >> 0u64) & 0xF == (y >> 0u64) & 0xF,
            (x >> 4u64) & 0xF == (y >> 4u64) & 0xF,
            (x >> 8u64) & 0xF == (y >> 8u64) & 0xF,
            (x >> 12u64) & 0xF == (y >> 12u64) & 0xF,
            (x >> 16u64) & 0xF == (y >> 16u64) & 0xF,
            (x >> 20u64) & 0xF == (y >> 20u64) & 0xF,
            (x >> 24u64) & 0xF == (y >> 24u64) & 0xF,
            (x >> 28u64) & 0xF == (y >> 28u64) & 0xF,
            (x >> 32u64) & 0xF == (y >> 32u64) & 0xF,
            (x >> 36u64) & 0xF == (y >> 36u64) & 0xF,
            (x >> 40u64) & 0xF == (y >> 40u64) & 0xF,
            (x >> 44u64) & 0xF == (y >> 44u64) & 0xF,
            (x >> 48u64) & 0xF == (y >> 48u64) & 0xF,
            (x >> 52u64) & 0xF == (y >> 52u64) & 0xF,
            (x >> 56u64) & 0xF == (y >> 56u64) & 0xF,
            (x >> 60u64) & 0xF == (y >> 60u64) & 0xF,
    ;
}

proof fn lemma_get_row_bits(x: u64, r: u64)
    by (bit_vector)
    requires
        r < 4,
    ensures
        ({
            let row = ((x >> (16 * r)) & 0xFFFF) as u16;
            &&& (row & 0xF) as u64 == (x >> (4 * (4 * r))) & 0xF
            &&& ((row >> 4u16) & 0xF) as u64 == (x >> (4 * (4 * r + 1))) & 0xF
            &&& ((row >> 8u16) & 0xF) as u64 == (x >> (4 * (4 * r + 2))) & 0xF
            &&& ((row >> 12u16) & 0xF) as u64 == (x >> (4 * (4 * r + 3))) & 0xF
        }),
{
}

proof fn lemma_set_row_other_bits(x: u64, row: u16, r: u64, k: u64)
    by (bit_vector)
    requires
        r < 4,
        k < 16,
        k < 4 * r || k >= 4 * r + 4,
    ensures
        ((((x & !(0xFFFFu64 << (16 * r))) | ((row as u64) << (16 * r))) >> (4 * k)) & 0xF) == (x
            >> (4 * k)) & 0xF,
{
}

proof fn lemma_set_row_own_bits(x: u64, row: u16, r: u64)
    by (bit_vector)
    requires
        r < 4,
    ensures
        ({
            let y = (x & !(0xFFFFu64 << (16 * r))) | ((row as u64) << (16 * r));
            &&& (y >> (4 * (4 * r))) & 0xF == (row & 0xF) as u64
            &&& (y >> (4 * (4 * r + 1))) & 0xF == ((row >> 4u16) & 0xF) as u64
            &&& (y >> (4 * (4 * r + 2))) & 0xF == ((row >> 8u16) & 0xF) as u64
            &&& (y >> (4 * (4 * r + 3))) & 0xF == ((row >> 12u16) & 0xF) as u64
        }),
{
}

proof fn lemma_transpose_bits(x: u64, r: u64, c: u64)
    by (bit_vector)
    requires
        r < 4,
        c < 4,
    ensures
        ({
            let a1 = x & 0xF0F0_0F0F_F0F0_0F0Fu64;
            let a2 = x & 0x0000_F0F0_0000_F0F0u64;
            let a3 = x & 0x0F0F_0000_0F0F_0000u64;
            let a = a1 | (a2 << 12u64) | (a3 >> 12u64);
            let b1 = a & 0xFF00_FF00_00FF_00FFu64;
            let b2 = a & 0x00FF_00FF_0000_0000u64;
            let b3 = a & 0x0000_0000_FF00_FF00u64;
            let t = b1 | (b2 >> 24u64) | (b3 << 24u64);
            (t >> (4 * (4 * r + c))) & 0xF == (x >> (4 * (4 * c + r))) & 0xF
        }),
{
}

proof fn lemma_empty_mask_bits(x: u64, k: u64)
    by (bit_vector)
    requires
        k < 16,
    ensures
        ({
            let m = !(x | (x >> 1u64) | (x >> 2u64) | (x >> 3u64)) & 0x1111_1111_1111_1111u64;
            &&& (m >> (4 * k)) & 0xF == if (x >> (4 * k)) & 0xF == 0 {
                1u64
            } else {
                0u64
            }
            &&& m & 0xEEEE_EEEE_EEEE_EEEEu64 == 0
        }),
{
}

/// One unfolding of `ones` holds at zero too.
proof fn lemma_ones_unfold(x: u64)
    ensures
        ones(x) == (x % 2) as nat + ones(x / 2),
{
}

/// With only the low bit of each nibble possibly set, the ones of `x` are its low
/// bit and the ones of the next nibbles.
proof fn lemma_ones_nibble(x: u64)
    requires
        x & 0xEEEE_EEEE_EEEE_EEEEu64 == 0,
    ensures
        ones(x) == (x & 1) + ones(x >> 4u64),
        (x >> 4u64) & 0xEEEE_EEEE_EEEE_EEEEu64 == 0,
{
    assert(x / 2 == x >> 1u64 && (x >> 1u64) / 2 == x >> 2u64 && (x >> 2u64) / 2 == x >> 3u64 && (x
        >> 3u64) / 2 == x >> 4u64) by (bit_vector);
    assert((x & 0xEEEE_EEEE_EEEE_EEEEu64 == 0) ==> ((x >> 1u64) % 2 == 0 && (x >> 2u64) % 2 == 0
        && (x >> 3u64) % 2 == 0 && x % 2 == (x & 1) && (x >> 4u64) & 0xEEEE_EEEE_EEEE_EEEEu64 == 0))
        by (bit_vector);
    lemma_ones_unfold(x);
    lemma_ones_unfold(x >> 1u64);
    lemma_ones_unfold(x >> 2u64);
    lemma_ones_unfold(x >> 3u64);
}

/// The ones of an empty-cell mask from nibble `k` on count the empty cells from
/// cell `k` on.
proof fn lemma_mask_ones(m: u64, v: Seq<u8>, k: u64)
    requires
        k < 16,
        v.len() == 16,
        m & 0xEEEE_EEEE_EEEE_EEEEu64 == 0,
        forall|i: u64| i < 16 ==> #[trigger] ((m >> (4 * i)) & 0xF) == if v[i as int] == 0 {
            1u64
        } else {
            0u64
        },
    ensures
        ones(m >> (4 * k)) == empty_count(v.subrange(k as int, 16)),
    decreases 16 - k,
{
    let y = m >> (4 * k);
    let s = v.subrange(k as int, 16);
    assert(s =~= seq![v[k as int]] + v.subrange(k + 1, 16));
    assert(seq![v[k as int]].filter(|x: u8| x == 0) =~= if v[k as int] == 0 {
        seq![v[k as int]]
    } else {
        Seq::empty()
    }) by {
        reveal_with_fuel(Seq::filter, 2);
        assert(seq![v[k as int]].drop_last() =~= Seq::<u8>::empty());
    }
    Seq::filter_distributes_over_add(
        seq![v[k as int]],
        v.subrange(k + 1, 16),
        |x: u8| x == 0,
    );
    assert((m & 0xEEEE_EEEE_EEEE_EEEEu64 == 0) ==> ((m >> (4 * k)) & 0xEEEE_EEEE_EEEE_EEEEu64 == 0
        && (m >> (4 * k)) & 1 == (m >> (4 * k)) & 0xF)) by (bit_vector);
    lemma_ones_nibble(y);
    assert(((m >> (4 * k)) & 0xF) == if v[k as int] == 0 {
        1u64
    } else {
        0u64
    });
    if k == 15 {
        assert((m & 0xEEEE_EEEE_EEEE_EEEEu64 == 0) ==> (m >> 60u64) >> 4u64 == 0) by (bit_vector);
        assert(ones(0) == 0);
        assert(v.subrange(16, 16).filter(|x: u8| x == 0) =~= Seq::empty()) by {
            reveal(Seq::filter);
        }
    } else {
        assert(k < 15 ==> (m >> (4 * k)) >> 4u64 == m >> (4 * (k + 1))) by (bit_vector);
        lemma_mask_ones(m, v, (k + 1) as u64);
    }
}

/// The filter of the first `n` cells matches the empty positions among them.
proof fn lemma_empty_positions_len(v: Seq<u8>, n: int)
    requires
        0 <= n <= v.len(),
    ensures
        empty_positions(v, n).len() == empty_count(v.subrange(0, n)),
    decreases n,
{
    reveal(Seq::filter);
    if n > 0 {
        lemma_empty_positions_len(v, n - 1);
        assert(v.subrange(0, n).drop_last() =~= v.subrange(0, n - 1));
    }
}

/// Sixteen nibbles are the cells of their four packed rows.
pub proof fn lemma_rows_of_cells(v: Seq<u8>)
    requires
        v.len() == 16,
        all_nibbles(v),
    ensures
        v == from_rows(view_row(v, 0), view_row(v, 1), view_row(v, 2), view_row(v, 3)),
{
    assert forall|r: int| 0 <= r < 4 implies #[trigger] row_cells(view_row(v, r)) == v.subrange(
        4 * r,
        4 * r + 4,
    ) by {
        lemma_packed_cells(v.subrange(4 * r, 4 * r + 4));
    }
    assert(row_cells(view_row(v, 0)) == v.subrange(0, 4));
    assert(row_cells(view_row(v, 1)) == v.subrange(4, 8));
    assert(row_cells(view_row(v, 2)) == v.subrange(8, 12));
    assert(row_cells(view_row(v, 3)) == v.subrange(12, 16));
    assert(v =~= from_rows(view_row(v, 0), view_row(v, 1), view_row(v, 2), view_row(v, 3)));
}

/// The rows of four packed rows are those rows.
pub proof fn lemma_view_row_of_rows(r0: u16, r1: u16, r2: u16, r3: u16)
    ensures
        from_rows(r0, r1, r2, r3).len() == 16,
        all_nibbles(from_rows(r0, r1, r2, r3)),
        view_row(from_rows(r0, r1, r2, r3), 0) == r0,
        view_row(from_rows(r0, r1, r2, r3), 1) == r1,
        view_row(from_rows(r0, r1, r2, r3), 2) == r2,
        view_row(from_rows(r0, r1, r2, r3), 3) == r3,
{
    lemma_row_cells(r0);
    lemma_row_cells(r1);
    lemma_row_cells(r2);
    lemma_row_cells(r3);
    let v = from_rows(r0, r1, r2, r3);
    assert(v.subrange(0, 4) =~= row_cells(r0));
    assert(v.subrange(4, 8) =~= row_cells(r1));
    assert(v.subrange(8, 12) =~= row_cells(r2));
    assert(v.subrange(12, 16) =~= row_cells(r3));
    assert forall|i: int| 0 <= i < v.len() implies #[trigger] v[i] <= 15 by {
        if i < 4 {
            assert(v[i] == row_cells(r0)[i]);
        } else if i < 8 {
            assert(v[i] == row_cells(r1)[i - 4]);
        } else if i < 12 {
            assert(v[i] == row_cells(r2)[i - 8]);
        } else {
            assert(v[i] == row_cells(r3)[i - 12]);
        }
    }
}

/// Replacing row `r` of sixteen nibbles changes that row and no other: reading row
/// `r` back gives the new row, and every other row reads as before.
pub proof fn lemma_set_row_rows(v: Seq<u8>, r: int, row: u16)
    requires
        v.len() == 16,
        all_nibbles(v),
        0 <= r < 4,
    ensures
        ({
            let w = v.subrange(0, 4 * r) + row_cells(row) + v.subrange(4 * r + 4, 16);
            &&& w.len() == 16
            &&& all_nibbles(w)
            &&& forall|j: int| 0 <= j < 4 ==> #[trigger] view_row(w, j) == if j == r {
                row
            } else {
                view_row(v, j)
            }
        }),
{
    lemma_row_cells(row);
    let w = v.subrange(0, 4 * r) + row_cells(row) + v.subrange(4 * r + 4, 16);
    assert forall|i: int| 0 <= i < w.len() implies #[trigger] w[i] <= 15 by {
        if 4 * r <= i < 4 * r + 4 {
            assert(w[i] == row_cells(row)[i - 4 * r]);
        } else {
            assert(w[i] == v[i]);
        }
    }
    assert forall|j: int| 0 <= j < 4 implies #[trigger] view_row(w, j) == if j == r {
        row
    } else {
        view_row(v, j)
    } by {
        if j == r {
            assert(w.subrange(4 * j, 4 * j + 4) =~= row_cells(row));
        } else {
            assert(w.subrange(4 * j, 4 * j + 4) =~= v.subrange(4 * j, 4 * j + 4));
        }
    }
}

/// `to_array` is the inverse of `from_array`: a 4x4 array of nibbles turned into
/// a board and back is the same array, and a board turned into an array and back
/// is the same board.
pub proof fn lemma_array_round_trip(cells: [[u8; 4]; 4], b: Board, out: [[u8; 4]; 4], b2: Board)
    requires
        forall|r: int, c: int| 0 <= r < 4 && 0 <= c < 4 ==> #[trigger] b@[4 * r + c] == cells[r][c],
        forall|r: int, c: int| 0 <= r < 4 && 0 <= c < 4 ==> #[trigger] out[r][c] == b@[4 * r + c],
        forall|r: int, c: int| 0 <= r < 4 && 0 <= c < 4 ==> #[trigger] b2@[4 * r + c] == out[r][c],
    ensures
        out == cells,
        b2 == b,
{
    assert forall|r: int| 0 <= r < 4 implies #[trigger] out[r] == cells[r] by {
        assert forall|c: int| 0 <= c < 4 implies out[r][c] == cells[r][c] by {
            assert(out[r][c] == b@[4 * r + c]);
        }
        assert(out[r]@ =~= cells[r]@);
    }
    assert(out@ =~= cells@);
    assert forall|i: int| 0 <= i < 16 implies #[trigger] b2@[i] == b@[i] by {
        let r = i / 4;
        let c = i % 4;
        assert(4 * r + c == i);
        assert(b2@[4 * r + c] == out[r][c]);
    }
    assert(b2@ =~= b@);
    lemma_view_injective(b2, b);
}

/// Transposing twice gives the cells back.
pub proof fn lemma_transposed_twice(v: Seq<u8>)
    requires
        v.len() == 16,
    ensures
        transposed(transposed(v)) == v,
{
    assert forall|i: int| 0 <= i < 16 implies #[trigger] transposed(transposed(v))[i] == v[i] by {
        let j = 4 * (i % 4) + i / 4;
        assert(0 <= j < 16);
        assert(4 * (j % 4) + j / 4 == i);
    }
    assert(transposed(transposed(v)) =~= v);
}

/// Transposing a board twice gives the same board: if `t` is the transpose of
/// `b` and `tt` the transpose of `t`, then `tt == b`.
pub proof fn lemma_transpose_involution(b: Board, t: Board, tt: Board)
    requires
        t@ == transposed(b@),
        tt@ == transposed(t@),
    ensures
        tt == b,
{
    lemma_transposed_twice(b@);
    lemma_view_injective(tt, b);
}

/// An up move is a left move of the transposed board, transposed back, with the
/// same score; a down move is the same with a right move.
pub proof fn lemma_vertical_moves_via_transpose(v: Seq<u8>)
    ensures
        moved_cells(v, Direction::Up) == transposed(moved_cells(transposed(v), Direction::Left)),
        move_score(v, Direction::Up) == move_score(transposed(v), Direction::Left),
        moved_cells(v, Direction::Down) == transposed(
            moved_cells(transposed(v), Direction::Right),
        ),
        move_score(v, Direction::Down) == move_score(transposed(v), Direction::Right),
{
}

/// A board has a move exactly when the list of legal moves is non-empty; the
/// list holds exactly the directions that change the board, each once, in the
/// order of `Direction::ALL`.
pub proof fn lemma_legal_moves_complete(v: Seq<u8>)
    ensures
        has_legal_move(v) <==> legal_prefix(v, 4).len() > 0,
        forall|d: Direction| #[trigger] legal_prefix(v, 4).contains(d) <==> is_legal(v, d),
        legal_prefix(v, 4).no_duplicates(),
{
    reveal_with_fuel(legal_prefix, 5);
    let s = legal_prefix(v, 4);
    assert forall|d: Direction| #[trigger] s.contains(d) <==> is_legal(v, d) by {
        if is_legal(v, d) {
            match d {
                Direction::Up => assert(legal_prefix(v, 1)[0] == d),
                Direction::Down => {
                    assert(legal_prefix(v, 2).last() == d);
                },
                Direction::Left => {
                    assert(legal_prefix(v, 3).last() == d);
                },
                Direction::Right => {
                    assert(s.last() == d);
                },
            }
            lemma_legal_prefix_contains(v, 4, d);
        }
        if s.contains(d) {
            lemma_legal_prefix_sound(v, 4, d);
        }
    }
    if has_legal_move(v) {
        let d = choose|d: Direction| is_legal(v, d);
        assert(s.contains(d));
    }
    if s.len() > 0 {
        assert(s.contains(s[0]));
    }
    lemma_legal_prefix_distinct(v, 4);
}

proof fn lemma_legal_prefix_contains(v: Seq<u8>, n: int, d: Direction)
    requires
        0 <= n <= 4,
        is_legal(v, d),
        exists|k: int| 0 <= k < n && all_directions()[k] == d,
    ensures
        legal_prefix(v, n).contains(d),
    decreases n,
{
    let k = choose|k: int| 0 <= k < n && all_directions()[k] == d;
    if k == n - 1 {
        assert(legal_prefix(v, n) == legal_prefix(v, n - 1).push(d));
        assert(legal_prefix(v, n).last() == d);
    } else {
        lemma_legal_prefix_contains(v, n - 1, d);
        let p = legal_prefix(v, n - 1);
        let j = choose|j: int| 0 <= j < p.len() && #[trigger] p[j] == d;
        if is_legal(v, all_directions()[n - 1]) {
            assert(legal_prefix(v, n)[j] == d);
        }
    }
}

proof fn lemma_legal_prefix_sound(v: Seq<u8>, n: int, d: Direction)
    requires
        0 <= n <= 4,
        legal_prefix(v, n).contains(d),
    ensures
        is_legal(v, d),
        exists|k: int| 0 <= k < n && all_directions()[k] == d,
    decreases n,
{
    let p = legal_prefix(v, n);
    let j = choose|j: int| 0 <= j < p.len() && #[trigger] p[j] == d;
    if n > 0 {
        if is_legal(v, all_directions()[n - 1]) {
            if j == legal_prefix(v, n - 1).len() {
                assert(d == all_directions()[n - 1]);
            } else {
                assert(legal_prefix(v, n - 1)[j] == d);
                lemma_legal_prefix_sound(v, n - 1, d);
            }
        } else {
            lemma_legal_prefix_sound(v, n - 1, d);
        }
    }
}

proof fn lemma_legal_prefix_distinct(v: Seq<u8>, n: int)
    requires
        0 <= n <= 4,
    ensures
        legal_prefix(v, n).no_duplicates(),
    decreases n,
{
    if n > 0 {
        lemma_legal_prefix_distinct(v, n - 1);
        if is_legal(v, all_directions()[n - 1]) {
            let p = legal_prefix(v, n - 1);
            let d = all_directions()[n - 1];
            if p.contains(d) {
                lemma_legal_prefix_sound(v, n - 1, d);
            }
            assert forall|i: int, j: int| 0 <= i < j < p.push(d).len() implies p.push(d)[i]
                != p.push(d)[j] by {
                if j == p.len() {
                    assert(p.contains(p[i]));
                }
            }
        }
    }
}

/// Transposing the cells keeps their total tile value.
proof fn lemma_tile_total_transposed(v: Seq<u8>)
    requires
        v.len() == 16,
    ensures
        tile_total(transposed(v)) == tile_total(v),
{
    let t = transposed(v);
    assert(tiles_total(v, 0) == 0);
    assert(tiles_total(t, 0) == 0);
    assert(tiles_total(v, 1) == tiles_total(v, 0) + tile_value_of(v[0]));
    assert(tiles_total(v, 2) == tiles_total(v, 1) + tile_value_of(v[1]));
    assert(tiles_total(v, 3) == tiles_total(v, 2) + tile_value_of(v[2]));
    assert(tiles_total(v, 4) == tiles_total(v, 3) + tile_value_of(v[3]));
    assert(tiles_total(v, 5) == tiles_total(v, 4) + tile_value_of(v[4]));
    assert(tiles_total(v, 6) == tiles_total(v, 5) + tile_value_of(v[5]));
    assert(tiles_total(v, 7) == tiles_total(v, 6) + tile_value_of(v[6]));
    assert(tiles_total(v, 8) == tiles_total(v, 7) + tile_value_of(v[7]));
    assert(tiles_total(v, 9) == tiles_total(v, 8) + tile_value_of(v[8]));
    assert(tiles_total(v, 10) == tiles_total(v, 9) + tile_value_of(v[9]));
    assert(tiles_total(v, 11) == tiles_total(v, 10) + tile_value_of(v[10]));
    assert(tiles_total(v, 12) == tiles_total(v, 11) + tile_value_of(v[11]));
    assert(tiles_total(v, 13) == tiles_total(v, 12) + tile_value_of(v[12]));
    assert(tiles_total(v, 14) == tiles_total(v, 13) + tile_value_of(v[13]));
    assert(tiles_total(v, 15) == tiles_total(v, 14) + tile_value_of(v[14]));
    assert(tiles_total(v, 16) == tiles_total(v, 15) + tile_value_of(v[15]));
    assert(tiles_total(t, 1) == tiles_total(t, 0) + tile_value_of(t[0]));
    assert(tiles_total(t, 2) == tiles_total(t, 1) + tile_value_of(t[1]));
    assert(tiles_total(t, 3) == tiles_total(t, 2) + tile_value_of(t[2]));
    assert(tiles_total(t, 4) == tiles_total(t, 3) + tile_value_of(t[3]));
    assert(tiles_total(t, 5) == tiles_total(t, 4) + tile_value_of(t[4]));
    assert(tiles_total(t, 6) == tiles_total(t, 5) + tile_value_of(t[5]));
    assert(tiles_total(t, 7) == tiles_total(t, 6) + tile_value_of(t[6]));
    assert(tiles_total(t, 8) == tiles_total(t, 7) + tile_value_of(t[7]));
    assert(tiles_total(t, 9) == tiles_total(t, 8) + tile_value_of(t[8]));
    assert(tiles_total(t, 10) == tiles_total(t, 9) + tile_value_of(t[9]));
    assert(tiles_total(t, 11) == tiles_total(t, 10) + tile_value_of(t[10]));
    assert(tiles_total(t, 12) == tiles_total(t, 11) + tile_value_of(t[11]));
    assert(tiles_total(t, 13) == tiles_total(t, 12) + tile_value_of(t[12]));
    assert(tiles_total(t, 14) == tiles_total(t, 13) + tile_value_of(t[13]));
    assert(tiles_total(t, 15) == tiles_total(t, 14) + tile_value_of(t[14]));
    assert(tiles_total(t, 16) == tiles_total(t, 15) + tile_value_of(t[15]));
    assert(t[0] == v[0]);
    assert(t[1] == v[4]);
    assert(t[2] == v[8]);
    assert(t[3] == v[12]);
    assert(t[4] == v[1]);
    assert(t[5] == v[5]);
    assert(t[6] == v[9]);
    assert(t[7] == v[13]);
    assert(t[8] == v[2]);
    assert(t[9] == v[6]);
    assert(t[10] == v[10]);
    assert(t[11] == v[14]);
    assert(t[12] == v[3]);
    assert(t[13] == v[7]);
    assert(t[14] == v[11]);
    assert(t[15] == v[15]);
}

/// A row of tiles up to 2^14 moved left keeps its total tile value, and its
/// cells are the slid cells.
proof fn lemma_row_left_conserves(row: u16)
    requires
        forall|i: int| 0 <= i < 4 ==> #[trigger] row_cells(row)[i] <= 14,
    ensures
        row_cells(row_left(row)) == slid_cells(row_cells(row)),
        tile_total(row_cells(row_left(row))) == tile_total(row_cells(row)),
        forall|i: int| 0 <= i < 4 ==> #[trigger] row_cells(row_left(row))[i] <= 15,
{
    let c = row_cells(row);
    lemma_row_cells(row);
    super::tables::lemma_compact_bounds(c, 14);
    super::tables::lemma_merged_bounds(super::tables::compact(c), 14);
    super::tables::lemma_slid_bounds(c);
    let m = super::tables::merged(super::tables::compact(c));
    assert forall|i: int| 0 <= i < 4 implies #[trigger] slid_cells(c)[i] <= 15 by {
        if i < m.len() {
            assert(slid_cells(c)[i] == m[i]);
        } else {
            assert(slid_cells(c)[i] == 0);
        }
    }
    lemma_packed_cells(slid_cells(c));
    lemma_slide_conserves_tiles(c);
}

/// Reversing four cells keeps their total tile value.
proof fn lemma_tile_total_reverse(s: Seq<u8>)
    requires
        s.len() == 4,
    ensures
        tile_total(s.reverse()) == tile_total(s),
{
    let r = s.reverse();
    assert(tiles_total(s, 0) == 0 && tiles_total(r, 0) == 0);
    assert(tiles_total(s, 1) == tile_value_of(s[0]));
    assert(tiles_total(s, 2) == tiles_total(s, 1) + tile_value_of(s[1]));
    assert(tiles_total(s, 3) == tiles_total(s, 2) + tile_value_of(s[2]));
    assert(tiles_total(s, 4) == tiles_total(s, 3) + tile_value_of(s[3]));
    assert(tiles_total(r, 1) == tile_value_of(r[0]));
    assert(tiles_total(r, 2) == tiles_total(r, 1) + tile_value_of(r[1]));
    assert(tiles_total(r, 3) == tiles_total(r, 2) + tile_value_of(r[2]));
    assert(tiles_total(r, 4) == tiles_total(r, 3) + tile_value_of(r[3]));
    assert(r[0] == s[3] && r[1] == s[2] && r[2] == s[1] && r[3] == s[0]);
}

/// A row of tiles up to 2^14 moved right keeps its total tile value.
proof fn lemma_row_right_conserves(row: u16)
    requires
        forall|i: int| 0 <= i < 4 ==> #[trigger] row_cells(row)[i] <= 14,
    ensures
        tile_total(row_cells(row_right(row))) == tile_total(row_cells(row)),
{
    let rev = super::tables::reversed_row(row);
    lemma_row_cells(row);
    lemma_packed_cells(row_cells(row).reverse());
    assert(row_cells(rev) == row_cells(row).reverse());
    lemma_row_left_conserves(rev);
    let l = row_left(rev);
    lemma_packed_cells(row_cells(l).reverse());
    assert(row_cells(row_right(row)) == row_cells(l).reverse());
    lemma_tile_total_reverse(row_cells(l));
    lemma_tile_total_reverse(row_cells(row));
}

/// The total tile value of four rows is the sum of the rows' totals.
proof fn lemma_tile_total_rows(r0: u16, r1: u16, r2: u16, r3: u16)
    ensures
        tile_total(from_rows(r0, r1, r2, r3)) == tile_total(row_cells(r0)) + tile_total(
            row_cells(r1),
        ) + tile_total(row_cells(r2)) + tile_total(row_cells(r3)),
{
    lemma_tile_total_concat(row_cells(r0), row_cells(r1));
    lemma_tile_total_concat(row_cells(r0) + row_cells(r1), row_cells(r2));
    lemma_tile_total_concat(row_cells(r0) + row_cells(r1) + row_cells(r2), row_cells(r3));
}

/// Moving every row of sixteen cells up to 2^14 left, or right, keeps the total
/// tile value.
proof fn lemma_rows_conserve(v: Seq<u8>)
    requires
        v.len() == 16,
        forall|i: int| 0 <= i < 16 ==> #[trigger] v[i] <= 14,
    ensures
        tile_total(left_cells(v)) == tile_total(v),
        tile_total(right_cells(v)) == tile_total(v),
{
    assert(all_nibbles(v));
    lemma_rows_of_cells(v);
    lemma_packed_cells(v.subrange(0, 4));
    lemma_packed_cells(v.subrange(4, 8));
    lemma_packed_cells(v.subrange(8, 12));
    lemma_packed_cells(v.subrange(12, 16));
    lemma_row_left_conserves(view_row(v, 0));
    lemma_row_left_conserves(view_row(v, 1));
    lemma_row_left_conserves(view_row(v, 2));
    lemma_row_left_conserves(view_row(v, 3));
    lemma_row_right_conserves(view_row(v, 0));
    lemma_row_right_conserves(view_row(v, 1));
    lemma_row_right_conserves(view_row(v, 2));
    lemma_row_right_conserves(view_row(v, 3));
    lemma_tile_total_rows(view_row(v, 0), view_row(v, 1), view_row(v, 2), view_row(v, 3));
    lemma_tile_total_rows(
        row_left(view_row(v, 0)),
        row_left(view_row(v, 1)),
        row_left(view_row(v, 2)),
        row_left(view_row(v, 3)),
    );
    lemma_tile_total_rows(
        row_right(view_row(v, 0)),
        row_right(view_row(v, 1)),
        row_right(view_row(v, 2)),
        row_right(view_row(v, 3)),
    );
}

/// A move never creates or destroys tile value: merging two tiles `2^a` makes one
/// tile `2^(a+1)`, so the total value of the tiles on the board is the same
/// after a move in any direction. This holds while no merge makes a tile beyond
/// 2^15, the largest a cell can hold, so for boards whose tiles are at most 2^14.
pub proof fn lemma_move_conserves_tiles(v: Seq<u8>, dir: Direction)
    requires
        v.len() == 16,
        forall|i: int| 0 <= i < 16 ==> #[trigger] v[i] <= 14,
    ensures
        tile_total(moved_cells(v, dir)) == tile_total(v),
{
    match dir {
        Direction::Left => lemma_rows_conserve(v),
        Direction::Right => lemma_rows_conserve(v),
        Direction::Up => lemma_columns_conserve(v),
        Direction::Down => lemma_columns_conserve(v),
    }
}

/// Moving every column of sixteen cells up to 2^14 up, or down, keeps the total
/// tile value.
proof fn lemma_columns_conserve(v: Seq<u8>)
    requires
        v.len() == 16,
        forall|i: int| 0 <= i < 16 ==> #[trigger] v[i] <= 14,
    ensures
        tile_total(transposed(left_cells(transposed(v)))) == tile_total(v),
        tile_total(transposed(right_cells(transposed(v)))) == tile_total(v),
{
    let t = transposed(v);
    assert forall|i: int| 0 <= i < 16 implies #[trigger] t[i] <= 14 by {
        assert(t[i] == v[4 * (i % 4) + i / 4]);
    }
    lemma_rows_conserve(t);
    lemma_tile_total_transposed(v);
    lemma_view_row_of_rows(
        row_left(view_row(t, 0)),
        row_left(view_row(t, 1)),
        row_left(view_row(t, 2)),
        row_left(view_row(t, 3)),
    );
    lemma_view_row_of_rows(
        row_right(view_row(t, 0)),
        row_right(view_row(t, 1)),
        row_right(view_row(t, 2)),
        row_right(view_row(t, 3)),
    );
    lemma_tile_total_transposed(left_cells(t));
    lemma_tile_total_transposed(right_cells(t));
}

/// A cell of a packed row is a cell of the four rows.
proof fn lemma_from_rows_cells(r0: u16, r1: u16, r2: u16, r3: u16, k: int, i: int)
    requires
        0 <= k < 4,
        0 <= i < 4,
    ensures
        from_rows(r0, r1, r2, r3)[4 * k + i] == row_cells(
            if k == 0 {
                r0
            } else if k == 1 {
                r1
            } else if k == 2 {
                r2
            } else {
                r3
            },
        )[i],
{
    lemma_row_cells(r0);
    lemma_row_cells(r1);
    lemma_row_cells(r2);
    lemma_row_cells(r3);
}

/// A row whose right move leaves no empty cell is unchanged by it.
proof fn lemma_full_row_right_unchanged(row: u16)
    requires
        !row_cells(row_right(row)).contains(0u8),
    ensures
        row_right(row) == row,
{
    let rev = reversed_row(row);
    let l = row_left(rev);
    lemma_row_cells(l);
    lemma_packed_cells(row_cells(l).reverse());
    assert(row_cells(row_right(row)) == row_cells(l).reverse());
    if row_cells(l).contains(0u8) {
        let j = choose|j: int| 0 <= j < 4 && row_cells(l)[j] == 0u8;
        assert(row_cells(l).reverse()[3 - j] == 0u8);
        assert(row_cells(row_right(row)).contains(0u8));
    }
    lemma_full_row_left_unchanged(rev);
    lemma_reverse_row_involution(row);
}

/// Moving the rows left (or right) without leaving an empty cell changes nothing.
proof fn lemma_full_rows_unchanged(v: Seq<u8>)
    requires
        v.len() == 16,
        all_nibbles(v),
    ensures
        !left_cells(v).contains(0u8) ==> left_cells(v) == v,
        !right_cells(v).contains(0u8) ==> right_cells(v) == v,
{
    lemma_rows_of_cells(v);
    let (a, b, c, d) = (view_row(v, 0), view_row(v, 1), view_row(v, 2), view_row(v, 3));
    if !left_cells(v).contains(0u8) {
        assert forall|k: int| 0 <= k < 4 implies !#[trigger] row_cells(row_left(view_row(v, k))).contains(
            0u8,
        ) by {
            if row_cells(row_left(view_row(v, k))).contains(0u8) {
                let i = choose|i: int| 0 <= i < 4 && row_cells(row_left(view_row(v, k)))[i] == 0u8;
                lemma_from_rows_cells(row_left(a), row_left(b), row_left(c), row_left(d), k, i);
                lemma_view_row_of_rows(row_left(a), row_left(b), row_left(c), row_left(d));
                assert(left_cells(v)[4 * k + i] == 0u8);
                assert(left_cells(v).contains(0u8));
            }
        }
        lemma_full_row_left_unchanged(a);
        lemma_full_row_left_unchanged(b);
        lemma_full_row_left_unchanged(c);
        lemma_full_row_left_unchanged(d);
    }
    if !right_cells(v).contains(0u8) {
        assert forall|k: int| 0 <= k < 4 implies !#[trigger] row_cells(row_right(view_row(v, k))).contains(
            0u8,
        ) by {
            if row_cells(row_right(view_row(v, k))).contains(0u8) {
                let i = choose|i: int| 0 <= i < 4 && row_cells(row_right(view_row(v, k)))[i] == 0u8;
                lemma_from_rows_cells(row_right(a), row_right(b), row_right(c), row_right(d), k, i);
                lemma_view_row_of_rows(row_right(a), row_right(b), row_right(c), row_right(d));
                assert(right_cells(v)[4 * k + i] == 0u8);
                assert(right_cells(v).contains(0u8));
            }
        }
        lemma_full_row_right_unchanged(a);
        lemma_full_row_right_unchanged(b);
        lemma_full_row_right_unchanged(c);
        lemma_full_row_right_unchanged(d);
    }
}

/// A legal move always leaves at least one empty cell, so a new tile can always
/// spawn after it: a move that fills every cell merges nothing and moves
/// nothing, and so changes nothing.
pub proof fn lemma_legal_move_leaves_empty(v: Seq<u8>, dir: Direction)
    requires
        v.len() == 16,
        all_nibbles(v),
        is_legal(v, dir),
    ensures
        moved_cells(v, dir).contains(0u8),
{
    match dir {
        Direction::Left => lemma_full_rows_unchanged(v),
        Direction::Right => lemma_full_rows_unchanged(v),
        Direction::Up => lemma_full_columns_unchanged(v),
        Direction::Down => lemma_full_columns_unchanged(v),
    }
}

/// A transposed sequence holds an empty cell exactly when the sequence does.
proof fn lemma_transposed_contains_zero(l: Seq<u8>)
    requires
        l.len() == 16,
        l.contains(0u8),
    ensures
        transposed(l).contains(0u8),
{
    let j = choose|j: int| 0 <= j < l.len() && l[j] == 0u8;
    let k = 4 * (j % 4) + j / 4;
    assert(transposed(l)[k] == l[4 * (k % 4) + k / 4]);
    assert(4 * (k % 4) + k / 4 == j);
}

/// Moving the columns up (or down) without leaving an empty cell changes
/// nothing.
proof fn lemma_full_columns_unchanged(v: Seq<u8>)
    requires
        v.len() == 16,
        all_nibbles(v),
    ensures
        !transposed(left_cells(transposed(v))).contains(0u8) ==> transposed(
            left_cells(transposed(v)),
        ) == v,
        !transposed(right_cells(transposed(v))).contains(0u8) ==> transposed(
            right_cells(transposed(v)),
        ) == v,
{
    let t = transposed(v);
    assert forall|i: int| 0 <= i < t.len() implies #[trigger] t[i] <= 15 by {
        assert(t[i] == v[4 * (i % 4) + i / 4]);
    }
    lemma_full_rows_unchanged(t);
    lemma_transposed_twice(v);
    lemma_view_row_of_rows(
        row_left(view_row(t, 0)),
        row_left(view_row(t, 1)),
        row_left(view_row(t, 2)),
        row_left(view_row(t, 3)),
    );
    lemma_view_row_of_rows(
        row_right(view_row(t, 0)),
        row_right(view_row(t, 1)),
        row_right(view_row(t, 2)),
        row_right(view_row(t, 3)),
    );
    if left_cells(t).contains(0u8) {
        lemma_transposed_contains_zero(left_cells(t));
    }
    if right_cells(t).contains(0u8) {
        lemma_transposed_contains_zero(right_cells(t));
    }
}

/// A row is unchanged by both a left and a right move exactly when no two
/// neighbouring cells of it form an active pair.
proof fn lemma_row_pair_free(row: u16)
    ensures
        (row_left(row) == row && row_right(row) == row) <==> forall|j: int|
            0 <= j < 3 ==> !#[trigger] active_pair(row_cells(row)[j], row_cells(row)[j + 1]),
{
    let c = row_cells(row);
    let rev = reversed_row(row);
    lemma_row_cells(row);
    lemma_packed_cells(c.reverse());
    assert(row_cells(rev) == c.reverse());
    lemma_row_left_fixed(row);
    lemma_row_left_fixed(rev);
    lemma_reverse_row_involution(row);
    lemma_reverse_row_involution(row_left(rev));
    let r = c.reverse();
    assert(r[0] == c[3] && r[1] == c[2] && r[2] == c[1] && r[3] == c[0]);
    assert(left_stable(c) <==> (!(c[0] == 0 && c[1] != 0) && !(c[0] != 0 && c[0] == c[1]) && !(c[1]
        == 0 && c[2] != 0) && !(c[1] != 0 && c[1] == c[2]) && !(c[2] == 0 && c[3] != 0) && !(c[2]
        != 0 && c[2] == c[3])));
    assert(left_stable(r) <==> (!(r[0] == 0 && r[1] != 0) && !(r[0] != 0 && r[0] == r[1]) && !(r[1]
        == 0 && r[2] != 0) && !(r[1] != 0 && r[1] == r[2]) && !(r[2] == 0 && r[3] != 0) && !(r[2]
        != 0 && r[2] == r[3])));
    assert((forall|j: int| 0 <= j < 3 ==> !#[trigger] active_pair(c[j], c[j + 1])) <==> (
    !active_pair(c[0], c[1]) && !active_pair(c[1], c[2]) && !active_pair(c[2], c[3])));
}

/// Sixteen cells are unchanged by both a left and a right move exactly when no
/// two horizontally neighbouring cells form an active pair.
proof fn lemma_rows_pair_free(v: Seq<u8>)
    requires
        v.len() == 16,
        all_nibbles(v),
    ensures
        (left_cells(v) == v && right_cells(v) == v) <==> forall|r: int, j: int|
            0 <= r < 4 && 0 <= j < 3 ==> !#[trigger] active_pair(v[4 * r + j], v[4 * r + j + 1]),
{
    lemma_rows_of_cells(v);
    let (a, b, c, d) = (view_row(v, 0), view_row(v, 1), view_row(v, 2), view_row(v, 3));
    lemma_view_row_of_rows(row_left(a), row_left(b), row_left(c), row_left(d));
    lemma_view_row_of_rows(row_right(a), row_right(b), row_right(c), row_right(d));
    lemma_packed_cells(v.subrange(0, 4));
    lemma_packed_cells(v.subrange(4, 8));
    lemma_packed_cells(v.subrange(8, 12));
    lemma_packed_cells(v.subrange(12, 16));
    lemma_row_pair_free(a);
    lemma_row_pair_free(b);
    lemma_row_pair_free(c);
    lemma_row_pair_free(d);
    let all_free = forall|r: int, j: int|
        0 <= r < 4 && 0 <= j < 3 ==> !#[trigger] active_pair(v[4 * r + j], v[4 * r + j + 1]);
    let rows_free = forall|r: int, j: int|
        0 <= r < 4 && 0 <= j < 3 ==> !#[trigger] active_pair(
            row_cells(view_row(v, r))[j],
            row_cells(view_row(v, r))[j + 1],
        );
    assert(all_free <==> rows_free) by {
        assert forall|r: int, j: int| 0 <= r < 4 && 0 <= j < 3 implies #[trigger] row_cells(view_row(v, r))[j]
            == v[4 * r + j] && row_cells(view_row(v, r))[j + 1] == v[4 * r + j + 1] by {
            lemma_packed_cells(v.subrange(4 * r, 4 * r + 4));
        }
        if all_free {
            assert forall|r: int, j: int| 0 <= r < 4 && 0 <= j < 3 implies !#[trigger] active_pair(
                row_cells(view_row(v, r))[j],
                row_cells(view_row(v, r))[j + 1],
            ) by {
                assert(!active_pair(v[4 * r + j], v[4 * r + j + 1]));
            }
        }
        if rows_free {
            assert forall|r: int, j: int| 0 <= r < 4 && 0 <= j < 3 implies !#[trigger] active_pair(
                v[4 * r + j],
                v[4 * r + j + 1],
            ) by {
                assert(!active_pair(
                    row_cells(view_row(v, r))[j],
                    row_cells(view_row(v, r))[j + 1],
                ));
            }
        }
    }
    if rows_free {
        assert forall|j: int| 0 <= j < 3 implies !#[trigger] active_pair(
            row_cells(a)[j],
            row_cells(a)[j + 1],
        ) by {
            assert(!active_pair(row_cells(view_row(v, 0))[j], row_cells(view_row(v, 0))[j + 1]));
        }
        assert forall|j: int| 0 <= j < 3 implies !#[trigger] active_pair(
            row_cells(b)[j],
            row_cells(b)[j + 1],
        ) by {
            assert(!active_pair(row_cells(view_row(v, 1))[j], row_cells(view_row(v, 1))[j + 1]));
        }
        assert forall|j: int| 0 <= j < 3 implies !#[trigger] active_pair(
            row_cells(c)[j],
            row_cells(c)[j + 1],
        ) by {
            assert(!active_pair(row_cells(view_row(v, 2))[j], row_cells(view_row(v, 2))[j + 1]));
        }
        assert forall|j: int| 0 <= j < 3 implies !#[trigger] active_pair(
            row_cells(d)[j],
            row_cells(d)[j + 1],
        ) by {
            assert(!active_pair(row_cells(view_row(v, 3))[j], row_cells(view_row(v, 3))[j + 1]));
        }
    }
    if left_cells(v) == v && right_cells(v) == v {
        assert(row_left(a) == a && row_right(a) == a);
        assert(row_left(b) == b && row_right(b) == b);
        assert(row_left(c) == c && row_right(c) == c);
        assert(row_left(d) == d && row_right(d) == d);
        assert forall|r: int, j: int| 0 <= r < 4 && 0 <= j < 3 implies !#[trigger] active_pair(
            row_cells(view_row(v, r))[j],
            row_cells(view_row(v, r))[j + 1],
        ) by {
            if r == 0 {
            } else if r == 1 {
            } else if r == 2 {
            } else {
            }
        }
    }
}

/// Up and down moves keep sixteen cells exactly when left and right moves keep
/// the transposed cells.
proof fn lemma_columns_fixed_transposed(v: Seq<u8>)
    requires
        v.len() == 16,
    ensures
        (moved_cells(v, Direction::Up) == v && moved_cells(v, Direction::Down) == v) <==> (
        left_cells(transposed(v)) == transposed(v) && right_cells(transposed(v)) == transposed(v)),
{
    let t = transposed(v);
    lemma_transposed_twice(v);
    lemma_view_row_of_rows(
        row_left(view_row(t, 0)),
        row_left(view_row(t, 1)),
        row_left(view_row(t, 2)),
        row_left(view_row(t, 3)),
    );
    lemma_view_row_of_rows(
        row_right(view_row(t, 0)),
        row_right(view_row(t, 1)),
        row_right(view_row(t, 2)),
        row_right(view_row(t, 3)),
    );
    lemma_transposed_twice(left_cells(t));
    lemma_transposed_twice(right_cells(t));
}

/// The horizontal pairs of the transposed cells are the vertical pairs of the
/// cells.
proof fn lemma_transposed_pairs(v: Seq<u8>)
    requires
        v.len() == 16,
    ensures
        (forall|r: int, j: int|
            0 <= r < 4 && 0 <= j < 3 ==> !#[trigger] active_pair(
                transposed(v)[4 * r + j],
                transposed(v)[4 * r + j + 1],
            )) <==> (forall|r: int, c: int|
            0 <= r < 3 && 0 <= c < 4 ==> !#[trigger] active_pair(v[4 * r + c], v[4 * r + 4 + c])),
{
    let t = transposed(v);
    let tf = forall|r: int, j: int|
        0 <= r < 4 && 0 <= j < 3 ==> !#[trigger] active_pair(t[4 * r + j], t[4 * r + j + 1]);
    let vf = forall|r: int, c: int|
        0 <= r < 3 && 0 <= c < 4 ==> !#[trigger] active_pair(v[4 * r + c], v[4 * r + 4 + c]);
    if tf {
        assert forall|r: int, c: int| 0 <= r < 3 && 0 <= c < 4 implies !#[trigger] active_pair(
            v[4 * r + c],
            v[4 * r + 4 + c],
        ) by {
            assert(t[4 * c + r] == v[4 * r + c]);
            assert(t[4 * c + r + 1] == v[4 * r + 4 + c]);
            assert(!active_pair(t[4 * c + r], t[4 * c + r + 1]));
        }
    }
    if vf {
        assert forall|r: int, j: int| 0 <= r < 4 && 0 <= j < 3 implies !#[trigger] active_pair(
            t[4 * r + j],
            t[4 * r + j + 1],
        ) by {
            assert(t[4 * r + j] == v[4 * j + r]);
            assert(t[4 * r + j + 1] == v[4 * j + 4 + r]);
            assert(!active_pair(v[4 * j + r], v[4 * j + 4 + r]));
        }
    }
}

/// Sixteen cells are unchanged by both an up and a down move exactly when no two
/// vertically neighbouring cells form an active pair.
proof fn lemma_columns_pair_free(v: Seq<u8>)
    requires
        v.len() == 16,
        all_nibbles(v),
    ensures
        (moved_cells(v, Direction::Up) == v && moved_cells(v, Direction::Down) == v) <==> forall|
            r: int,
            c: int,
        | 0 <= r < 3 && 0 <= c < 4 ==> !#[trigger] active_pair(v[4 * r + c], v[4 * r + 4 + c]),
{
    let t = transposed(v);
    assert forall|i: int| 0 <= i < t.len() implies #[trigger] t[i] <= 15 by {
        assert(t[i] == v[4 * (i % 4) + i / 4]);
    }
    lemma_rows_pair_free(t);
    lemma_columns_fixed_transposed(v);
    lemma_transposed_pairs(v);
}

/// A board has a move exactly when some two neighbouring cells, in a row or in
/// a column, are one empty and one not, or hold equal tiles.
pub proof fn lemma_has_move_iff_active_pair(v: Seq<u8>)
    requires
        v.len() == 16,
        all_nibbles(v),
    ensures
        has_legal_move(v) <==> has_active_pair(v),
{
    lemma_rows_pair_free(v);
    lemma_columns_pair_free(v);
    if has_legal_move(v) {
        let d = choose|d: Direction| is_legal(v, d);
        assert(is_legal(v, d));
    }
    if has_active_pair(v) {
        if exists|r: int, j: int|
            0 <= r < 4 && 0 <= j < 3 && #[trigger] active_pair(v[4 * r + j], v[4 * r + j + 1]) {
            if left_cells(v) != v {
                assert(is_legal(v, Direction::Left));
            } else {
                assert(is_legal(v, Direction::Right));
            }
        } else {
            if moved_cells(v, Direction::Up) != v {
                assert(is_legal(v, Direction::Up));
            } else {
                assert(is_legal(v, Direction::Down));
            }
        }
    }
}

/// The empty board, all cells zero.
pub fn empty_board() -> (b: Board)
    ensures
        b.0 == 0,
        b@ == Seq::new(16, |i: int| 0u8),
{
    let b = Board(0);
    assert forall|i: int| 0 <= i < 16 implies #[trigger] b@[i] == 0u8 by {
        let s = (4 * i) as u64;
        assert((0u64 >> s) & 0xF == 0) by (bit_vector);
    }
    assert(b@ =~= Seq::new(16, |i: int| 0u8));
    b
}

impl Board {
    /// Bit shift for cell `(r, c)`: `4 * (4*r + c)`.
    pub fn cell_shift(r: usize, c: usize) -> (s: u32)
        requires
            16 * (r as u32) + 4 * (c as u32) <= u32::MAX,
        ensures
            s == 4 * (4 * (r as u32) + (c as u32)),
    {
        4 * (4 * r as u32 + c as u32)
    }

    /// Read the cell at `(r, c)` as a log2 exponent: 0 for an empty cell, `n` for
    /// tile `2^n`.
    pub fn get_cell(self, r: usize, c: usize) -> (v: Cell)
        requires
            r < 4,
            c < 4,
        ensures
            v == self@[4 * r + c],
            v <= 15,
    {
        let s = Board::cell_shift(r, c);
        let x = self.0;
        let v = ((x >> s) & 0xF) as Cell;
        proof {
            assert(((x >> s) & 0xF) <= 15) by (bit_vector);
        }
        v
    }

    /// The tile value at `(r, c)`: 0 for an empty cell, otherwise `2^exp` for the
    /// exponent `exp` stored in the cell.
    pub fn tile_value(self, r: usize, c: usize) -> (t: u32)
        requires
            r < 4,
            c < 4,
        ensures
            t == if self@[4 * r + c] == 0 {
                0
            } else {
                vstd::arithmetic::power2::pow2(self@[4 * r + c] as nat)
            },
    {
        let e = self.get_cell(r, c);
        if e == 0 {
            0
        } else {
            proof {
                vstd::arithmetic::power2::lemma2_to64();
                vstd::bits::lemma_u32_shl_is_mul(1u32, e as u32);
            }
            1u32 << e
        }
    }

    /// A new board with cell `(r, c)` set to `v` (log2 exponent).
    pub fn set_cell(self, r: usize, c: usize, v: Cell) -> (b: Board)
        requires
            r < 4,
            c < 4,
            v <= 15,
        ensures
            b@ == self@.update(4 * r + c, v),
    {
        let shift = Board::cell_shift(r, c);
        let x = self.0;
        let y = (x & !(0xF_u64 << shift)) | ((v as u64 & 0xF) << shift);
        let b = Board(y);
        proof {
            assert forall|i: int| 0 <= i < 16 implies #[trigger] b@[i] == self@.update(
                4 * r + c,
                v,
            )[i] by {
                let k = i as u64;
                let sk = (4 * i) as u64;
                assert(sk == 4 * k);
                assert(shift < 64);
                let s64 = shift as u64;
                assert(s64 == 4 * (4 * (r as u64) + (c as u64)));
                let rr = r as u64;
                let cc = c as u64;
                let vv = v as u64;
                if i == 4 * r + c {
                    assert((((x & !(0xFu64 << s64)) | ((vv & 0xF) << s64)) >> s64) & 0xF == vv)
                        by (bit_vector)
                        requires
                            vv <= 15,
                            s64 <= 60,
                    ;
                } else {
                    assert((((x & !(0xFu64 << s64)) | ((vv & 0xF) << s64)) >> (4 * k)) & 0xF == (x
                        >> (4 * k)) & 0xF) by (bit_vector)
                        requires
                            k < 16,
                            s64 == 4 * (4 * rr + cc),
                            rr < 4,
                            cc < 4,
                            k != 4 * rr + cc,
                    ;
                }
            }
            assert(b@ =~= self@.update(4 * r + c, v));
        }
        b
    }

    /// Row `r` (0..4) as a `u16` of four 4-bit cells: column `c` in nibble `c`.
    ///
    /// Example: row 0 with cells `[1, 0, 2, 0]` gives `0x0201`.
    pub fn get_row(self, r: usize) -> (row: Row)
        requires
            r < 4,
        ensures
            row == view_row(self@, r as int),
            row_cells(row) == self@.subrange(4 * r, 4 * r + 4),
    {
        let x = self.0;
        let row = ((x >> (16 * r)) & 0xFFFF) as Row;
        proof {
            let rr = r as u64;
            assert((16 * r) as u64 == 16 * rr);
            lemma_get_row_bits(x, rr);
            assert(((4 * (4 * r)) as u64) == 4 * (4 * rr));
            assert(((4 * (4 * r + 1)) as u64) == 4 * (4 * rr + 1));
            assert(((4 * (4 * r + 2)) as u64) == 4 * (4 * rr + 2));
            assert(((4 * (4 * r + 3)) as u64) == 4 * (4 * rr + 3));
            assert(row_cells(row) =~= self@.subrange(4 * r, 4 * r + 4));
            lemma_row_cells(row);
        }
        row
    }

    /// A new board with row `r` replaced by `row`.
    pub fn set_row(self, r: usize, row: Row) -> (b: Board)
        requires
            r < 4,
        ensures
            b@ == self@.subrange(0, 4 * r) + row_cells(row) + self@.subrange(4 * r + 4, 16),
    {
        let shift = 16 * r;
        let x = self.0;
        let y = (x & !(0xFFFF_u64 << shift)) | ((row as u64) << shift);
        let b = Board(y);
        proof {
            let rr = r as u64;
            assert(shift as u64 == 16 * rr);
            let target = self@.subrange(0, 4 * r) + row_cells(row) + self@.subrange(4 * r + 4, 16);
            lemma_set_row_own_bits(x, row, rr);
            assert forall|i: int| 0 <= i < 16 implies #[trigger] b@[i] == target[i] by {
                let k = i as u64;
                assert(((4 * i) as u64) == 4 * k);
                if i < 4 * r || i >= 4 * r + 4 {
                    lemma_set_row_other_bits(x, row, rr, k);
                } else {
                    assert(((4 * (4 * r)) as u64) == 4 * (4 * rr));
                    assert(((4 * (4 * r + 1)) as u64) == 4 * (4 * rr + 1));
                    assert(((4 * (4 * r + 2)) as u64) == 4 * (4 * rr + 2));
                    assert(((4 * (4 * r + 3)) as u64) == 4 * (4 * rr + 3));
                }
            }
            assert(b@ =~= target);
        }
        b
    }

    /// Transpose the board: the value at `(r, c)` moves to `(c, r)`.
    pub fn transpose(self) -> (t: Board)
        ensures
            t@ == transposed(self@),
    {
        let x = self.0;
        // Step 1: transpose each 2x2 block: a1 fixed, a2 and a3 swapped
        let a1 = x & 0xF0F0_0F0F_F0F0_0F0F_u64;
        let a2 = x & 0x0000_F0F0_0000_F0F0_u64;
        let a3 = x & 0x0F0F_0000_0F0F_0000_u64;
        let a = a1 | (a2 << 12) | (a3 >> 12);
        // Step 2: transpose the 2x2 blocks: b1 fixed, b2 and b3 swapped
        let b1 = a & 0xFF00_FF00_00FF_00FF_u64;
        let b2 = a & 0x00FF_00FF_0000_0000_u64;
        let b3 = a & 0x0000_0000_FF00_FF00_u64;
        let t = Board(b1 | (b2 >> 24) | (b3 << 24));
        proof {
            assert forall|i: int| 0 <= i < 16 implies #[trigger] t@[i] == transposed(self@)[i] by {
                let r = (i / 4) as u64;
                let c = (i % 4) as u64;
                lemma_transpose_bits(x, r, c);
                assert(((4 * i) as u64) == 4 * (4 * r + c));
                assert(((4 * (4 * (i % 4) + i / 4)) as u64) == 4 * (4 * c + r));
            }
            assert(t@ =~= transposed(self@));
        }
        t
    }

    /// A 64-bit mask where bit `4*i` is set iff cell `i` (row-major) is empty;
    /// all other bits are 0.
    fn empty_mask(self) -> (m: u64)
        ensures
            m & 0xEEEE_EEEE_EEEE_EEEEu64 == 0,
            forall|k: u64| k < 16 ==> #[trigger] ((m >> (4 * k)) & 0xF) == if self@[k as int] == 0 {
                1u64
            } else {
                0u64
            },
    {
        let b = self.0;
        let any_bit_set = b | (b >> 1) | (b >> 2) | (b >> 3);
        let m = !any_bit_set & 0x1111_1111_1111_1111;
        proof {
            lemma_empty_mask_bits(b, 0);
            assert forall|k: u64| k < 16 implies #[trigger] ((m >> (4 * k)) & 0xF) == if self@[k as int]
                == 0 {
                1u64
            } else {
                0u64
            } by {
                lemma_empty_mask_bits(b, k);
                assert(((4 * (k as int)) as u64) == 4 * k);
                assert((b >> (4 * k)) & 0xF <= 15) by (bit_vector);
            }
        }
        m
    }

    /// The number of empty cells on the board.
    pub fn count_empties(self) -> (n: u32)
        ensures
            n == empty_count(self@),
    {
        let m = self.empty_mask();
        proof {
            lemma_mask_ones(m, self@, 0);
            assert(m >> 0u64 == m) by (bit_vector);
            assert(self@.subrange(0, 16) =~= self@);
        }
        m.count_ones()
    }

    /// All empty cell positions `(row, col)`, in row-major order.
    pub fn empties(self) -> (cells: Vec<(usize, usize)>)
        ensures
            cells@ == empty_positions(self@, 16),
            cells.len() == empty_count(self@),
    {
        let mask = self.empty_mask();
        let mut cells: Vec<(usize, usize)> = Vec::new();
        for i in 0..16usize
            invariant
                cells@ == empty_positions(self@, i as int),
                mask & 0xEEEE_EEEE_EEEE_EEEEu64 == 0,
                forall|k: u64| k < 16 ==> #[trigger] ((mask >> (4 * k)) & 0xF) == if self@[k as int]
                    == 0 {
                    1u64
                } else {
                    0u64
                },
        {
            let bit = (mask >> (4 * i)) & 1;
            proof {
                let k = i as u64;
                assert(((mask >> (4 * k)) & 0xF) == if self@[k as int] == 0 {
                    1u64
                } else {
                    0u64
                });
                assert(((mask >> (4 * k)) & 0xF <= 1) ==> (mask >> (4 * k)) & 1 == (mask >> (4 * k))
                    & 0xF) by (bit_vector);
                assert((4 * i) as u64 == 4 * k);
            }
            if bit == 1 {
                cells.push((i / 4, i % 4));
            }
        }
        proof {
            lemma_empty_positions_len(self@, 16);
            assert(self@.subrange(0, 16) =~= self@);
        }
        cells
    }

    /// The largest cell value (log2 exponent) on the board.
    pub fn max_cell(self) -> (m: Cell)
        ensures
            m == max_upto(self@, 16),
            forall|i: int| 0 <= i < 16 ==> #[trigger] self@[i] <= m,
            exists|i: int| 0 <= i < 16 && #[trigger] self@[i] == m,
    {
        let mut max_value = 0u8;
        let mut x = self.0;
        let ghost b = self.0;
        assert(x == b >> (4 * 0u64)) by (bit_vector)
            requires
                x == b,
        ;
        for k in 0..16usize
            invariant
                max_value == max_upto(self@, k as int),
                k < 16 ==> x == b >> (4 * (k as u64)),
                b == self.0,
        {
            let v = (x & 0xF) as u8;
            proof {
                let kk = k as u64;
                assert(((4 * (k as int)) as u64) == 4 * kk);
                assert(kk < 15 ==> (b >> (4 * kk)) >> 4u64 == b >> (4 * (kk + 1))) by (bit_vector);
                assert((b >> (4 * kk)) & 0xF <= 15) by (bit_vector);
            }
            if v > max_value {
                max_value = v;
            }
            x = x >> 4;
        }
        proof {
            lemma_max_upto_is_largest(self@, 16);
        }
        max_value
    }

    /// A board from a 4x4 array of log2 exponents: `cells[r][c]` is the exponent
    /// for cell `(r, c)`.
    pub fn from_array(cells: [[Cell; 4]; 4]) -> (b: Board)
        requires
            forall|r: int, c: int| 0 <= r < 4 && 0 <= c < 4 ==> #[trigger] cells[r][c] <= 15,
        ensures
            forall|r: int, c: int| 0 <= r < 4 && 0 <= c < 4 ==> #[trigger] b@[4 * r + c] == cells[r][c],
    {
        let mut b = empty_board();
        for r in 0..4usize
            invariant
                forall|i: int| 0 <= i < 4 * r ==> #[trigger] b@[i] == cells[i / 4][i % 4],
                forall|i: int| 4 * r <= i < 16 ==> #[trigger] b@[i] == 0,
                forall|r: int, c: int| 0 <= r < 4 && 0 <= c < 4 ==> #[trigger] cells[r][c] <= 15,
        {
            for c in 0..4usize
                invariant
                    r < 4,
                    forall|i: int| 0 <= i < 4 * r + c ==> #[trigger] b@[i] == cells[i / 4][i % 4],
                    forall|i: int| 4 * r + c <= i < 16 ==> #[trigger] b@[i] == 0,
                    forall|r: int, c: int| 0 <= r < 4 && 0 <= c < 4 ==> #[trigger] cells[r][c] <= 15,
            {
                b = b.set_cell(r, c, cells[r][c]);
            }
        }
        proof {
            assert forall|r: int, c: int| 0 <= r < 4 && 0 <= c < 4 implies #[trigger] b@[4 * r + c]
                == cells[r][c] by {
                assert((4 * r + c) / 4 == r && (4 * r + c) % 4 == c);
            }
        }
        b
    }

    /// The board as a 4x4 array of log2 exponents: `cells[r][c]` is cell `(r, c)`.
    pub fn to_array(self) -> (cells: [[Cell; 4]; 4])
        ensures
            forall|r: int, c: int| 0 <= r < 4 && 0 <= c < 4 ==> #[trigger] cells[r][c] == self@[4 * r + c],
    {
        let row0 = [self.get_cell(0, 0), self.get_cell(0, 1), self.get_cell(0, 2), self.get_cell(0, 3)];
        let row1 = [self.get_cell(1, 0), self.get_cell(1, 1), self.get_cell(1, 2), self.get_cell(1, 3)];
        let row2 = [self.get_cell(2, 0), self.get_cell(2, 1), self.get_cell(2, 2), self.get_cell(2, 3)];
        let row3 = [self.get_cell(3, 0), self.get_cell(3, 1), self.get_cell(3, 2), self.get_cell(3, 3)];
        let cells = [row0, row1, row2, row3];
        proof {
            assert forall|r: int, c: int| 0 <= r < 4 && 0 <= c < 4 implies #[trigger] cells[r][c]
                == self@[4 * r + c] by {
                if r == 0 {
                    assert(cells[r] == row0);
                } else if r == 1 {
                    assert(cells[r] == row1);
                } else if r == 2 {
                    assert(cells[r] == row2);
                } else {
                    assert(cells[r] == row3);
                }
            }
        }
        cells
    }

    // -----------------------------------------------------------------------
    // Move engine
    // -----------------------------------------------------------------------

    /// Apply a left move to every row, returning `(new_board, score)`.
    fn move_left(self) -> (res: (Board, Score))
        ensures
            res.0@ == left_cells(self@),
            res.1 == left_score(self@),
    {
        let ghost v = self@;
        let mut b = self;
        let mut score: Score = 0;
        proof {
            lemma_view_nibbles(self);
        }
        for r in 0..4usize
            invariant
                v == self@,
                b@.len() == 16,
                all_nibbles(b@),
                forall|j: int| 0 <= j < 4 ==> #[trigger] view_row(b@, j) == if j < r {
                    row_left(view_row(v, j))
                } else {
                    view_row(v, j)
                },
                score == (if 0 < r { row_left_score(view_row(v, 0)) } else { 0 }) + (if 1 < r {
                    row_left_score(view_row(v, 1))
                } else {
                    0
                }) + (if 2 < r { row_left_score(view_row(v, 2)) } else { 0 }) + (if 3 < r {
                    row_left_score(view_row(v, 3))
                } else {
                    0
                }),
                score <= 0x20000 * r,
        {
            let row = b.get_row(r);
            let (new_row, gained) = slide_row_left(row);
            proof {
                lemma_row_cells(row);
                super::tables::lemma_slid_bounds(row_cells(row));
                lemma_set_row_rows(b@, r as int, new_row);
            }
            b = b.set_row(r, new_row);
            score += gained;
        }
        proof {
            lemma_rows_of_cells(b@);
        }
        (b, score)
    }

    /// Apply a right move to every row, returning `(new_board, score)`.
    fn move_right(self) -> (res: (Board, Score))
        ensures
            res.0@ == right_cells(self@),
            res.1 == right_score(self@),
    {
        let ghost v = self@;
        let mut b = self;
        let mut score: Score = 0;
        proof {
            lemma_view_nibbles(self);
        }
        for r in 0..4usize
            invariant
                v == self@,
                b@.len() == 16,
                all_nibbles(b@),
                forall|j: int| 0 <= j < 4 ==> #[trigger] view_row(b@, j) == if j < r {
                    row_right(view_row(v, j))
                } else {
                    view_row(v, j)
                },
                score == (if 0 < r { row_right_score(view_row(v, 0)) } else { 0 }) + (if 1 < r {
                    row_right_score(view_row(v, 1))
                } else {
                    0
                }) + (if 2 < r { row_right_score(view_row(v, 2)) } else { 0 }) + (if 3 < r {
                    row_right_score(view_row(v, 3))
                } else {
                    0
                }),
                score <= 0x20000 * r,
        {
            let row = b.get_row(r);
            let (new_row, gained) = slide_row_right(row);
            proof {
                let rev = super::tables::reversed_row(row);
                lemma_row_cells(rev);
                super::tables::lemma_slid_bounds(row_cells(rev));
                lemma_set_row_rows(b@, r as int, new_row);
            }
            b = b.set_row(r, new_row);
            score += gained;
        }
        proof {
            lemma_rows_of_cells(b@);
        }
        (b, score)
    }

    /// Apply an up move: transpose so that columns become rows, move left, and
    /// transpose back.
    fn move_up(self) -> (res: (Board, Score))
        ensures
            res.0@ == transposed(left_cells(transposed(self@))),
            res.1 == left_score(transposed(self@)),
    {
        let t = self.transpose();
        let (moved, score) = t.move_left();
        (moved.transpose(), score)
    }

    /// Apply a down move: transpose, move right, transpose back.
    fn move_down(self) -> (res: (Board, Score))
        ensures
            res.0@ == transposed(right_cells(transposed(self@))),
            res.1 == right_score(transposed(self@)),
    {
        let t = self.transpose();
        let (moved, score) = t.move_right();
        (moved.transpose(), score)
    }

    /// Slide all tiles in direction `dir`.
    ///
    /// Returns `Some((new_board, score_gained))` if the board changed, or `None` if
    /// the move is illegal (the board is already packed in that direction).
    pub fn slide(self, dir: Direction) -> (res: Option<(Board, Score)>)
        ensures
            res is Some <==> is_legal(self@, dir),
            res matches Some((b, s)) ==> b@ == moved_cells(self@, dir) && s == move_score(
                self@,
                dir,
            ),
    {
        let (new_board, score) = match dir {
            Direction::Left => self.move_left(),
            Direction::Right => self.move_right(),
            Direction::Up => self.move_up(),
            Direction::Down => self.move_down(),
        };
        if new_board != self {
            proof {
                if new_board@ == self@ {
                    lemma_view_injective(new_board, self);
                }
            }
            Some((new_board, score))
        } else {
            None
        }
    }

    /// Returns `true` if at least one direction changes the board: exactly when
    /// two neighbouring cells are one empty and one not, or hold equal tiles.
    pub fn has_moves(self) -> (r: bool)
        ensures
            r == has_legal_move(self@),
            r == has_active_pair(self@),
    {
        let r = self.slide(Direction::Up).is_some() || self.slide(Direction::Down).is_some()
            || self.slide(Direction::Left).is_some() || self.slide(Direction::Right).is_some();
        proof {
            lemma_view_nibbles(self);
            lemma_has_move_iff_active_pair(self@);
            if !r {
                assert forall|d: Direction| !is_legal(self@, d) by {
                    match d {
                        Direction::Up => {},
                        Direction::Down => {},
                        Direction::Left => {},
                        Direction::Right => {},
                    }
                }
            }
        }
        r
    }

    /// All directions that change the board, in the order of `Direction::ALL`.
    pub fn legal_moves(self) -> (moves: Vec<Direction>)
        ensures
            moves@ == legal_prefix(self@, 4),
    {
        let mut moves: Vec<Direction> = Vec::new();
        let all = Direction::ALL;
        for i in 0..4usize
            invariant
                all@ == all_directions(),
                moves@ == legal_prefix(self@, i as int),
        {
            let d = all[i];
            if self.slide(d).is_some() {
                moves.push(d);
            }
        }
        moves
    }

    /// Apply a left move to every row by table lookup.
    fn move_left_with(self, tables: &RowTables) -> (res: (Board, Score))
        requires
            tables.wf(),
        ensures
            res.0@ == left_cells(self@),
            res.1 == left_score(self@),
    {
        let ghost v = self@;
        let mut b = self;
        let mut score: Score = 0;
        proof {
            lemma_view_nibbles(self);
        }
        for r in 0..4usize
            invariant
                tables.wf(),
                v == self@,
                b@.len() == 16,
                all_nibbles(b@),
                forall|j: int| 0 <= j < 4 ==> #[trigger] view_row(b@, j) == if j < r {
                    row_left(view_row(v, j))
                } else {
                    view_row(v, j)
                },
                score == (if 0 < r { row_left_score(view_row(v, 0)) } else { 0 }) + (if 1 < r {
                    row_left_score(view_row(v, 1))
                } else {
                    0
                }) + (if 2 < r { row_left_score(view_row(v, 2)) } else { 0 }) + (if 3 < r {
                    row_left_score(view_row(v, 3))
                } else {
                    0
                }),
                score <= 0x20000 * r,
        {
            let row = b.get_row(r);
            let new_row = tables.move_left[row as usize];
            let gained = tables.score_left[row as usize];
            proof {
                lemma_row_cells(row);
                super::tables::lemma_slid_bounds(row_cells(row));
                lemma_set_row_rows(b@, r as int, new_row);
            }
            b = b.set_row(r, new_row);
            score += gained;
        }
        proof {
            lemma_rows_of_cells(b@);
        }
        (b, score)
    }

    /// Apply a right move to every row by table lookup.
    fn move_right_with(self, tables: &RowTables) -> (res: (Board, Score))
        requires
            tables.wf(),
        ensures
            res.0@ == right_cells(self@),
            res.1 == right_score(self@),
    {
        let ghost v = self@;
        let mut b = self;
        let mut score: Score = 0;
        proof {
            lemma_view_nibbles(self);
        }
        for r in 0..4usize
            invariant
                tables.wf(),
                v == self@,
                b@.len() == 16,
                all_nibbles(b@),
                forall|j: int| 0 <= j < 4 ==> #[trigger] view_row(b@, j) == if j < r {
                    row_right(view_row(v, j))
                } else {
                    view_row(v, j)
                },
                score == (if 0 < r { row_right_score(view_row(v, 0)) } else { 0 }) + (if 1 < r {
                    row_right_score(view_row(v, 1))
                } else {
                    0
                }) + (if 2 < r { row_right_score(view_row(v, 2)) } else { 0 }) + (if 3 < r {
                    row_right_score(view_row(v, 3))
                } else {
                    0
                }),
                score <= 0x20000 * r,
        {
            let row = b.get_row(r);
            let new_row = tables.move_right[row as usize];
            let gained = tables.score_right[row as usize];
            proof {
                let rev = super::tables::reversed_row(row);
                lemma_row_cells(rev);
                super::tables::lemma_slid_bounds(row_cells(rev));
                lemma_set_row_rows(b@, r as int, new_row);
            }
            b = b.set_row(r, new_row);
            score += gained;
        }
        proof {
            lemma_rows_of_cells(b@);
        }
        (b, score)
    }

    /// Slide all tiles in direction `dir`, reading the row moves from the
    /// precomputed tables; the result is that of `slide`.
    pub fn slide_with(self, tables: &RowTables, dir: Direction) -> (res: Option<(Board, Score)>)
        requires
            tables.wf(),
        ensures
            res is Some <==> is_legal(self@, dir),
            res matches Some((b, s)) ==> b@ == moved_cells(self@, dir) && s == move_score(
                self@,
                dir,
            ),
    {
        let (new_board, score) = match dir {
            Direction::Left => self.move_left_with(tables),
            Direction::Right => self.move_right_with(tables),
            Direction::Up => {
                let (moved, score) = self.transpose().move_left_with(tables);
                (moved.transpose(), score)
            },
            Direction::Down => {
                let (moved, score) = self.transpose().move_right_with(tables);
                (moved.transpose(), score)
            },
        };
        if new_board != self {
            proof {
                if new_board@ == self@ {
                    lemma_view_injective(new_board, self);
                }
            }
            Some((new_board, score))
        } else {
            None
        }
    }
}

} // verus!
