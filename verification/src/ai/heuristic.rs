//! Two-component board evaluation:
//!
//! 1. **Empty-cell utility**: a 17-entry table indexed by the number of empty
//!    cells (0..=16), following a halving-the-gap series up to 200:
//!
//!    ```text
//!    n:   0    1    2    3    4    5    6    7    8    9+
//!    v:   0  100  150  175  188  194  197  198  199  200
//!    ```
//!
//!    scaled by `W_EMPTY = 25_000`, so the range is 0 to 5 M.
//!
//! 2. **Snake score**: the best of the 8 orientations (the symmetries of the
//!    square) of a row-major zigzag path. Each non-empty cell contributes
//!    `2^(tile_exp + weight_exp)` where the head of the snake has weight exponent
//!    15 and each later position one less:
//!
//!    ```text
//!    +----+----+----+----+
//!    |  0 |  1 |  2 |  3 |    position on the canonical snake;
//!    +----+----+----+----+    weight_exp = 15 - position
//!    |  7 |  6 |  5 |  4 |
//!    +----+----+----+----+
//!    |  8 |  9 | 10 | 11 |
//!    +----+----+----+----+
//!    | 15 | 14 | 13 | 12 |
//!    +----+----+----+----+
//!    ```
//!
//! The evaluation is `empty_utility + best_snake_score`, an exact integer.
use vstd::prelude::*;
use vstd::arithmetic::power2::{pow2, lemma_pow2_strictly_increases, lemma2_to64};
use vstd::bits::lemma_u64_shl_is_mul;
use crate::board::bitboard::{Board, empty_count, transposed};

verus! {

/// Scale factor for the empty-cell utility (max utility 200 x 25 000 = 5 M).
pub const W_EMPTY: u64 = 25_000;

/// Halving-the-gap utility values (0..=200) indexed by empty-cell count.
pub open spec fn empty_util_table() -> Seq<u64> {
    seq![0, 100, 150, 175, 188, 194, 197, 198, 199, 200, 200, 200, 200, 200, 200, 200, 200]
}

/// Snake weight exponents: 8 orientations x 16 cells (row-major).
///
/// Orientation 0 is the canonical snake from the top left; 1 to 3 are its
/// horizontal flip, vertical flip and half turn; 4 to 7 are the same for its
/// transpose.
pub open spec fn weight_table() -> Seq<Seq<u8>> {
    seq![
        seq![15, 14, 13, 12, 8, 9, 10, 11, 7, 6, 5, 4, 0, 1, 2, 3],
        seq![12, 13, 14, 15, 11, 10, 9, 8, 4, 5, 6, 7, 3, 2, 1, 0],
        seq![0, 1, 2, 3, 7, 6, 5, 4, 8, 9, 10, 11, 15, 14, 13, 12],
        seq![3, 2, 1, 0, 4, 5, 6, 7, 11, 10, 9, 8, 12, 13, 14, 15],
        seq![15, 8, 7, 0, 14, 9, 6, 1, 13, 10, 5, 2, 12, 11, 4, 3],
        seq![0, 7, 8, 15, 1, 6, 9, 14, 2, 5, 10, 13, 3, 4, 11, 12],
        seq![12, 11, 4, 3, 13, 10, 5, 2, 14, 9, 6, 1, 15, 8, 7, 0],
        seq![3, 4, 11, 12, 2, 5, 10, 13, 1, 6, 9, 14, 0, 7, 8, 15],
    ]
}

/// The contribution of cell `i` under weights `w`: `2^(v[i] + w[i])` for a
/// non-empty cell, 0 for an empty one.
pub open spec fn snake_term(v: Seq<u8>, w: Seq<u8>, i: int) -> nat {
    if v[i] > 0 {
        pow2((v[i] + w[i]) as nat)
    } else {
        0
    }
}

/// The snake score of the first `n` cells under weights `w`.
pub open spec fn snake_sum(v: Seq<u8>, w: Seq<u8>, n: int) -> nat
    decreases n,
{
    if n <= 0 {
        0
    } else {
        snake_sum(v, w, n - 1) + snake_term(v, w, n - 1)
    }
}

/// The best snake score over the first `n` orientations.
pub open spec fn best_snake(v: Seq<u8>, n: int) -> nat
    decreases n,
{
    if n <= 0 {
        0
    } else {
        let s = snake_sum(v, weight_table()[n - 1], 16);
        if s > best_snake(v, n - 1) {
            s
        } else {
            best_snake(v, n - 1)
        }
    }
}

/// The evaluation of a board's cells: empty-cell utility plus best snake score.
pub open spec fn evaluation(v: Seq<u8>) -> nat {
    (W_EMPTY * empty_util_table()[empty_count(v) as int] + best_snake(v, 8)) as nat
}

/// The empty-cell utility for `n` empty cells (0..=16).
pub fn empty_utility(n: usize) -> (u: u64)
    requires
        n <= 16,
    ensures
        u == empty_util_table()[n as int],
        halves_the_gap(n as nat, u as int),
{
    proof {
        lemma_empty_utility_halves_the_gap(n as int);
    }
    let table: [u64; 17] = [
        0,  // 0
        100,  // 1
        150,  // 2
        175,  // 3
        188,  // 4
        194,  // 5
        197,  // 6
        198,  // 7
        199,  // 8
        200,  // 9+
        200,
        200,
        200,
        200,
        200,
        200,
        200,
    ];
    assert(table@ =~= empty_util_table());
    table[n]
}

/// The weight exponent of cell `i` in orientation `o`.
fn weight_exp(o: usize, i: usize) -> (w: u8)
    requires
        o < 8,
        i < 16,
    ensures
        w == weight_table()[o as int][i as int],
        w <= 15,
{
    let weights: [[u8; 16]; 8] = [
        // 0: top-left, row-major
        [15, 14, 13, 12, 8, 9, 10, 11, 7, 6, 5, 4, 0, 1, 2, 3],
        // 1: top-right, row-major (horizontal flip of 0)
        [12, 13, 14, 15, 11, 10, 9, 8, 4, 5, 6, 7, 3, 2, 1, 0],
        // 2: bottom-left, row-major (vertical flip of 0)
        [0, 1, 2, 3, 7, 6, 5, 4, 8, 9, 10, 11, 15, 14, 13, 12],
        // 3: bottom-right, row-major (half turn of 0)
        [3, 2, 1, 0, 4, 5, 6, 7, 11, 10, 9, 8, 12, 13, 14, 15],
        // 4: top-left, column-major (transpose of 0)
        [15, 8, 7, 0, 14, 9, 6, 1, 13, 10, 5, 2, 12, 11, 4, 3],
        // 5: top-right, column-major (horizontal flip of 4)
        [0, 7, 8, 15, 1, 6, 9, 14, 2, 5, 10, 13, 3, 4, 11, 12],
        // 6: bottom-left, column-major (vertical flip of 4)
        [12, 11, 4, 3, 13, 10, 5, 2, 14, 9, 6, 1, 15, 8, 7, 0],
        // 7: bottom-right, column-major (half turn of 4)
        [3, 4, 11, 12, 2, 5, 10, 13, 1, 6, 9, 14, 0, 7, 8, 15],
    ];
    let row = weights[o];
    proof {
        assert(weights@[0]@ =~= weight_table()[0]);
        assert(weights@[1]@ =~= weight_table()[1]);
        assert(weights@[2]@ =~= weight_table()[2]);
        assert(weights@[3]@ =~= weight_table()[3]);
        assert(weights@[4]@ =~= weight_table()[4]);
        assert(weights@[5]@ =~= weight_table()[5]);
        assert(weights@[6]@ =~= weight_table()[6]);
        assert(weights@[7]@ =~= weight_table()[7]);
        assert(row@ == weight_table()[o as int]);
    }
    row[i]
}

/// Evaluate `board`: higher is better for the player.
pub fn evaluate_exact(board: Board) -> (e: u64)
    ensures
        e == evaluation(board@),
{
    proof {
        crate::board::bitboard::lemma_view_nibbles(board);
        board@.lemma_filter_len(|x: u8| x == 0);
        lemma2_to64();
    }
    // Empty utility: one table lookup, one integer multiply.
    let empty_score = W_EMPTY * empty_utility(board.count_empties() as usize);
    // Snake score: best orientation of 2^(tile_exp + weight_exp) via shift.
    let mut best = 0u64;
    for o in 0..8usize
        invariant
            best == best_snake(board@, o as int),
            best <= 0x4_0000_0000,
            board@.len() == 16,
            crate::board::tables::all_nibbles(board@),
            pow2(30) == 0x4000_0000,
    {
        let mut score = 0u64;
        for i in 0..16usize
            invariant
                o < 8,
                score == snake_sum(board@, weight_table()[o as int], i as int),
                score <= 0x4000_0000 * i,
                board@.len() == 16,
                crate::board::tables::all_nibbles(board@),
                pow2(30) == 0x4000_0000,
        {
            let tile_exp = board.get_cell(i / 4, i % 4);
            let w = weight_exp(o, i);
            assert(4 * (i / 4) + i % 4 == i);
            if tile_exp > 0 {
                // tile_exp is in 1..=15 and weight_exp in 0..=15: the sum is at most 30
                let s = tile_exp as u32 + w as u32;
                proof {
                    if s < 30 {
                        lemma_pow2_strictly_increases(s as nat, 30);
                    }
                    lemma_u64_shl_is_mul(1u64, s as u64);
                }
                score += 1u64 << s;
            }
        }
        if score > best {
            best = score;
        }
    }
    empty_score + best
}

/// `u` is `200 * (1 - 2^-n)` rounded to the nearest integer, halves rounding up:
/// the utility closes half of the remaining gap to 200 with each empty cell.
pub open spec fn halves_the_gap(n: nat, u: int) -> bool {
    &&& (2 * (200 - u) - 1) * pow2(n) < 400
    &&& 400 <= (2 * (200 - u) + 1) * pow2(n)
}

/// The empty-cell utility for `n` empty cells is `200 * (1 - 2^-n)` rounded to
/// the nearest integer: 0, 100, 150, 175, 188, 194, 197, 198, 199 for 0 to 8
/// empty cells, and 200 from 9 on.
pub proof fn lemma_empty_utility_halves_the_gap(n: int)
    requires
        0 <= n <= 16,
    ensures
        halves_the_gap(n as nat, empty_util_table()[n] as int),
{
    lemma2_to64();
    if n == 0 {
        assert(pow2(0) == 1);
    } else if n == 1 {
        assert(pow2(1) == 2);
    } else if n == 2 {
        assert(pow2(2) == 4);
    } else if n == 3 {
        assert(pow2(3) == 8);
    } else if n == 4 {
        assert(pow2(4) == 16);
    } else if n == 5 {
        assert(pow2(5) == 32);
    } else if n == 6 {
        assert(pow2(6) == 64);
    } else if n == 7 {
        assert(pow2(7) == 128);
    } else if n == 8 {
        assert(pow2(8) == 256);
    } else if n == 9 {
        assert(pow2(9) == 512);
    } else if n == 10 {
        assert(pow2(10) == 1024);
    } else if n == 11 {
        assert(pow2(11) == 2048);
    } else if n == 12 {
        assert(pow2(12) == 4096);
    } else if n == 13 {
        assert(pow2(13) == 8192);
    } else if n == 14 {
        assert(pow2(14) == 16384);
    } else if n == 15 {
        assert(pow2(15) == 32768);
    } else {
        assert(pow2(16) == 65536);
    }
}

/// The empty-cell utility never decreases as the number of empty cells grows.
pub proof fn lemma_empty_utility_monotone(i: int, j: int)
    requires
        0 <= i <= j <= 16,
    ensures
        empty_util_table()[i] <= empty_util_table()[j],
{
}

/// The cells mirrored left to right: column `c` becomes column `3 - c`.
pub open spec fn mirrored(v: Seq<u8>) -> Seq<u8> {
    Seq::new(16, |i: int| v[4 * (i / 4) + 3 - i % 4])
}

/// The sum of `f` over the sixteen cells.
spec fn sum16(f: spec_fn(int) -> nat) -> nat {
    f(0) + f(1) + f(2) + f(3) + f(4) + f(5) + f(6) + f(7) + f(8) + f(9) + f(10) + f(11) + f(12)
        + f(13) + f(14) + f(15)
}

/// Reading the cells in transposed order does not change a sum over them.
proof fn lemma_sum16_transposed(f: spec_fn(int) -> nat, g: spec_fn(int) -> nat)
    requires
        forall|i: int| 0 <= i < 16 ==> #[trigger] f(i) == g(4 * (i % 4) + i / 4),
    ensures
        sum16(f) == sum16(g),
{
    assert(f(0) == g(0) && f(1) == g(4) && f(2) == g(8) && f(3) == g(12));
    assert(f(4) == g(1) && f(5) == g(5) && f(6) == g(9) && f(7) == g(13));
    assert(f(8) == g(2) && f(9) == g(6) && f(10) == g(10) && f(11) == g(14));
    assert(f(12) == g(3) && f(13) == g(7) && f(14) == g(11) && f(15) == g(15));
}

/// Reading the cells in mirrored order does not change a sum over them.
proof fn lemma_sum16_mirrored(f: spec_fn(int) -> nat, g: spec_fn(int) -> nat)
    requires
        forall|i: int| 0 <= i < 16 ==> #[trigger] f(i) == g(4 * (i / 4) + 3 - i % 4),
    ensures
        sum16(f) == sum16(g),
{
    assert(f(0) == g(3) && f(1) == g(2) && f(2) == g(1) && f(3) == g(0));
    assert(f(4) == g(7) && f(5) == g(6) && f(6) == g(5) && f(7) == g(4));
    assert(f(8) == g(11) && f(9) == g(10) && f(10) == g(9) && f(11) == g(8));
    assert(f(12) == g(15) && f(13) == g(14) && f(14) == g(13) && f(15) == g(12));
}

/// 1 for an empty cell, 0 otherwise.
spec fn is_empty_cell(v: Seq<u8>, i: int) -> nat {
    if v[i] == 0 {
        1
    } else {
        0
    }
}

/// The number of empty cells among the first `n`.
spec fn zeros(v: Seq<u8>, n: int) -> nat
    decreases n,
{
    if n <= 0 {
        0
    } else {
        zeros(v, n - 1) + is_empty_cell(v, n - 1)
    }
}

proof fn lemma_zeros_count(v: Seq<u8>, n: int)
    requires
        0 <= n <= v.len(),
    ensures
        zeros(v, n) == empty_count(v.subrange(0, n)),
    decreases n,
{
    reveal(Seq::filter);
    if n > 0 {
        lemma_zeros_count(v, n - 1);
        assert(v.subrange(0, n).drop_last() =~= v.subrange(0, n - 1));
    }
}

proof fn lemma_zeros_sum16(v: Seq<u8>)
    ensures
        zeros(v, 16) == sum16(|i: int| is_empty_cell(v, i)),
{
    assert(zeros(v, 0) == 0);
    assert(zeros(v, 1) == is_empty_cell(v, 0));
    assert(zeros(v, 2) == zeros(v, 1) + is_empty_cell(v, 1));
    assert(zeros(v, 3) == zeros(v, 2) + is_empty_cell(v, 2));
    assert(zeros(v, 4) == zeros(v, 3) + is_empty_cell(v, 3));
    assert(zeros(v, 5) == zeros(v, 4) + is_empty_cell(v, 4));
    assert(zeros(v, 6) == zeros(v, 5) + is_empty_cell(v, 5));
    assert(zeros(v, 7) == zeros(v, 6) + is_empty_cell(v, 6));
    assert(zeros(v, 8) == zeros(v, 7) + is_empty_cell(v, 7));
    assert(zeros(v, 9) == zeros(v, 8) + is_empty_cell(v, 8));
    assert(zeros(v, 10) == zeros(v, 9) + is_empty_cell(v, 9));
    assert(zeros(v, 11) == zeros(v, 10) + is_empty_cell(v, 10));
    assert(zeros(v, 12) == zeros(v, 11) + is_empty_cell(v, 11));
    assert(zeros(v, 13) == zeros(v, 12) + is_empty_cell(v, 12));
    assert(zeros(v, 14) == zeros(v, 13) + is_empty_cell(v, 13));
    assert(zeros(v, 15) == zeros(v, 14) + is_empty_cell(v, 14));
    assert(zeros(v, 16) == zeros(v, 15) + is_empty_cell(v, 15));
}

proof fn lemma_snake_sum16(v: Seq<u8>, w: Seq<u8>)
    ensures
        snake_sum(v, w, 16) == sum16(|i: int| snake_term(v, w, i)),
{
    assert(snake_sum(v, w, 0) == 0);
    assert(snake_sum(v, w, 1) == snake_term(v, w, 0));
    assert(snake_sum(v, w, 2) == snake_sum(v, w, 1) + snake_term(v, w, 1));
    assert(snake_sum(v, w, 3) == snake_sum(v, w, 2) + snake_term(v, w, 2));
    assert(snake_sum(v, w, 4) == snake_sum(v, w, 3) + snake_term(v, w, 3));
    assert(snake_sum(v, w, 5) == snake_sum(v, w, 4) + snake_term(v, w, 4));
    assert(snake_sum(v, w, 6) == snake_sum(v, w, 5) + snake_term(v, w, 5));
    assert(snake_sum(v, w, 7) == snake_sum(v, w, 6) + snake_term(v, w, 6));
    assert(snake_sum(v, w, 8) == snake_sum(v, w, 7) + snake_term(v, w, 7));
    assert(snake_sum(v, w, 9) == snake_sum(v, w, 8) + snake_term(v, w, 8));
    assert(snake_sum(v, w, 10) == snake_sum(v, w, 9) + snake_term(v, w, 9));
    assert(snake_sum(v, w, 11) == snake_sum(v, w, 10) + snake_term(v, w, 10));
    assert(snake_sum(v, w, 12) == snake_sum(v, w, 11) + snake_term(v, w, 11));
    assert(snake_sum(v, w, 13) == snake_sum(v, w, 12) + snake_term(v, w, 12));
    assert(snake_sum(v, w, 14) == snake_sum(v, w, 13) + snake_term(v, w, 13));
    assert(snake_sum(v, w, 15) == snake_sum(v, w, 14) + snake_term(v, w, 14));
    assert(snake_sum(v, w, 16) == snake_sum(v, w, 15) + snake_term(v, w, 15));
}

/// The empty count of sixteen cells is unchanged by transposing or mirroring.
proof fn lemma_empty_count_symmetric(v: Seq<u8>)
    requires
        v.len() == 16,
    ensures
        empty_count(transposed(v)) == empty_count(v),
        empty_count(mirrored(v)) == empty_count(v),
{
    let t = transposed(v);
    let m = mirrored(v);
    lemma_zeros_count(v, 16);
    lemma_zeros_count(t, 16);
    lemma_zeros_count(m, 16);
    assert(v.subrange(0, 16) =~= v);
    assert(t.subrange(0, 16) =~= t);
    assert(m.subrange(0, 16) =~= m);
    lemma_zeros_sum16(v);
    lemma_zeros_sum16(t);
    lemma_zeros_sum16(m);
    lemma_sum16_transposed(|i: int| is_empty_cell(t, i), |i: int| is_empty_cell(v, i));
    lemma_sum16_mirrored(|i: int| is_empty_cell(m, i), |i: int| is_empty_cell(v, i));
}

/// The best snake score is one of the orientations' scores and at least each of
/// them.
proof fn lemma_best_snake_is_max(v: Seq<u8>, n: int)
    requires
        0 <= n <= 8,
    ensures
        forall|o: int| 0 <= o < n ==> #[trigger] snake_sum(v, weight_table()[o], 16) <= best_snake(
            v,
            n,
        ),
        n > 0 ==> exists|o: int|
            0 <= o < n && best_snake(v, n) == #[trigger] snake_sum(v, weight_table()[o], 16),
    decreases n,
{
    if n > 0 {
        lemma_best_snake_is_max(v, n - 1);
        if n > 1 && best_snake(v, n) == best_snake(v, n - 1) {
            let o = choose|o: int|
                0 <= o < n - 1 && best_snake(v, n - 1) == #[trigger] snake_sum(
                    v,
                    weight_table()[o],
                    16,
                );
            assert(best_snake(v, n) == snake_sum(v, weight_table()[o], 16));
        } else {
            assert(best_snake(v, 0) == 0);
            assert(best_snake(v, n) == snake_sum(v, weight_table()[n - 1], 16));
        }
    }
}

/// The orientation whose weights read the transposed board as orientation `o`
/// reads the board.
spec fn transposed_orientation(o: int) -> int {
    if o == 0 {
        4
    } else if o == 1 {
        6
    } else if o == 2 {
        5
    } else if o == 3 {
        7
    } else if o == 4 {
        0
    } else if o == 5 {
        2
    } else if o == 6 {
        1
    } else {
        3
    }
}

/// The orientation whose weights read the mirrored board as orientation `o`
/// reads the board.
spec fn mirrored_orientation(o: int) -> int {
    if o % 2 == 0 {
        o + 1
    } else {
        o - 1
    }
}

/// The weights of orientation `o` read in transposed order are those of
/// `transposed_orientation(o)`, and in mirrored order those of
/// `mirrored_orientation(o)`.
proof fn lemma_weights_permuted(o: int)
    requires
        0 <= o < 8,
    ensures
        forall|i: int|
            0 <= i < 16 ==> #[trigger] weight_table()[o][i] == weight_table()[transposed_orientation(
                o,
            )][4 * (i % 4) + i / 4],
        forall|i: int|
            0 <= i < 16 ==> #[trigger] weight_table()[o][i] == weight_table()[mirrored_orientation(
                o,
            )][4 * (i / 4) + 3 - i % 4],
{
    let w = weight_table();
    let w0 = seq![15u8, 14, 13, 12, 8, 9, 10, 11, 7, 6, 5, 4, 0, 1, 2, 3];
    let w1 = seq![12u8, 13, 14, 15, 11, 10, 9, 8, 4, 5, 6, 7, 3, 2, 1, 0];
    let w2 = seq![0u8, 1, 2, 3, 7, 6, 5, 4, 8, 9, 10, 11, 15, 14, 13, 12];
    let w3 = seq![3u8, 2, 1, 0, 4, 5, 6, 7, 11, 10, 9, 8, 12, 13, 14, 15];
    let w4 = seq![15u8, 8, 7, 0, 14, 9, 6, 1, 13, 10, 5, 2, 12, 11, 4, 3];
    let w5 = seq![0u8, 7, 8, 15, 1, 6, 9, 14, 2, 5, 10, 13, 3, 4, 11, 12];
    let w6 = seq![12u8, 11, 4, 3, 13, 10, 5, 2, 14, 9, 6, 1, 15, 8, 7, 0];
    let w7 = seq![3u8, 4, 11, 12, 2, 5, 10, 13, 1, 6, 9, 14, 0, 7, 8, 15];
    assert(w[0] == w0 && w[1] == w1 && w[2] == w2 && w[3] == w3);
    assert(w[4] == w4 && w[5] == w5 && w[6] == w6 && w[7] == w7);
    assert forall|i: int| 0 <= i < 16 implies #[trigger] weight_table()[o][i] == weight_table()[transposed_orientation(
        o,
    )][4 * (i % 4) + i / 4] && weight_table()[o][i] == weight_table()[mirrored_orientation(
        o,
    )][4 * (i / 4) + 3 - i % 4] by {
        if i == 0 {} else if i == 1 {} else if i == 2 {} else if i == 3 {} else if i == 4 {}
        else if i == 5 {} else if i == 6 {} else if i == 7 {} else if i == 8 {}
        else if i == 9 {} else if i == 10 {} else if i == 11 {} else if i == 12 {}
        else if i == 13 {} else if i == 14 {} else {}
    }
}

proof fn lemma_snake_permuted(v: Seq<u8>, o: int)
    requires
        v.len() == 16,
        0 <= o < 8,
    ensures
        snake_sum(transposed(v), weight_table()[o], 16) == snake_sum(
            v,
            weight_table()[transposed_orientation(o)],
            16,
        ),
        snake_sum(mirrored(v), weight_table()[o], 16) == snake_sum(
            v,
            weight_table()[mirrored_orientation(o)],
            16,
        ),
{
    let t = transposed(v);
    let m = mirrored(v);
    let w = weight_table()[o];
    let wt = weight_table()[transposed_orientation(o)];
    let wm = weight_table()[mirrored_orientation(o)];
    lemma_weights_permuted(o);
    lemma_snake_sum16(t, w);
    lemma_snake_sum16(m, w);
    lemma_snake_sum16(v, wt);
    lemma_snake_sum16(v, wm);
    assert forall|i: int| 0 <= i < 16 implies #[trigger] snake_term(t, w, i) == snake_term(
        v,
        wt,
        4 * (i % 4) + i / 4,
    ) by {
        assert(t[i] == v[4 * (i % 4) + i / 4]);
        assert(w[i] == wt[4 * (i % 4) + i / 4]);
    }
    assert forall|i: int| 0 <= i < 16 implies #[trigger] snake_term(m, w, i) == snake_term(
        v,
        wm,
        4 * (i / 4) + 3 - i % 4,
    ) by {
        assert(m[i] == v[4 * (i / 4) + 3 - i % 4]);
        assert(w[i] == wm[4 * (i / 4) + 3 - i % 4]);
    }
    lemma_sum16_transposed(|i: int| snake_term(t, w, i), |i: int| snake_term(v, wt, i));
    lemma_sum16_mirrored(|i: int| snake_term(m, w, i), |i: int| snake_term(v, wm, i));
}

/// The evaluation does not depend on how the board is turned: transposing the
/// board or mirroring it left to right (and so any symmetry of the square, as a
/// composition of these) leaves it unchanged, since the eight snake orientations
/// are permuted among themselves and the empty cells are the same in number.
pub proof fn lemma_evaluation_symmetric(v: Seq<u8>)
    requires
        v.len() == 16,
    ensures
        evaluation(transposed(v)) == evaluation(v),
        evaluation(mirrored(v)) == evaluation(v),
{
    lemma_empty_count_symmetric(v);
    lemma_best_snake_is_max(v, 8);
    lemma_best_snake_is_max(transposed(v), 8);
    lemma_best_snake_is_max(mirrored(v), 8);
    assert forall|o: int| 0 <= o < 8 implies snake_sum(transposed(v), weight_table()[o], 16)
        == snake_sum(v, weight_table()[transposed_orientation(o)], 16) && snake_sum(
        mirrored(v),
        weight_table()[o],
        16,
    ) == snake_sum(v, weight_table()[mirrored_orientation(o)], 16) by {
        lemma_snake_permuted(v, o);
    }
    let b = best_snake(v, 8);
    let bt = best_snake(transposed(v), 8);
    let bm = best_snake(mirrored(v), 8);
    // Each side is at least every score of the other, and is one of them.
    assert forall|o: int| 0 <= o < 8 implies #[trigger] snake_sum(v, weight_table()[o], 16) <= bt
        && snake_sum(v, weight_table()[o], 16) <= bm by {
        let ot = transposed_orientation(o);
        assert(transposed_orientation(ot) == o);
        assert(snake_sum(transposed(v), weight_table()[ot], 16) <= bt);
        let om = mirrored_orientation(o);
        assert(mirrored_orientation(om) == o);
        assert(snake_sum(mirrored(v), weight_table()[om], 16) <= bm);
    }
    let ob = choose|o: int| 0 <= o < 8 && b == #[trigger] snake_sum(v, weight_table()[o], 16);
    let ot = choose|o: int|
        0 <= o < 8 && bt == #[trigger] snake_sum(transposed(v), weight_table()[o], 16);
    let om = choose|o: int|
        0 <= o < 8 && bm == #[trigger] snake_sum(mirrored(v), weight_table()[o], 16);
    assert(snake_sum(v, weight_table()[ob], 16) <= bt);
    assert(snake_sum(v, weight_table()[transposed_orientation(ot)], 16) <= b);
    assert(snake_sum(v, weight_table()[mirrored_orientation(om)], 16) <= b);
}

} // verus!
