//! Row moves and the precomputed row tables.
//!
//! A `Row` (`u16`) holds four 4-bit cells: cell 0 in bits 0..3 (column 0 =
//! leftmost), cell 1 in bits 4..7, cell 2 in bits 8..11, cell 3 in bits 12..15.
//! Each nibble is a log2 exponent (0 = empty, n = tile 2^n).
//!
//! A left move on a row:
//! 1. **Compact:** shift all non-zero cells to the left, preserving order.
//! 2. **Merge once:** scan left to right; two adjacent equal cells merge into one
//!    cell with value `v+1` (the doubled tile); a merged cell does not merge again.
//! 3. **Compact again:** the merged cells fill the row from the left.
//!
//! For every one of the 65536 rows the tables hold the row after a left (or
//! right) move and the score gained by it.
use vstd::prelude::*;
use vstd::arithmetic::power2::{pow2, lemma_pow2_strictly_increases, lemma2_to64};
use vstd::bits::lemma_u32_shl_is_mul;
use super::bitboard::{Row, Score};

verus! {

// ---------------------------------------------------------------------------
// The row model
// ---------------------------------------------------------------------------

/// The four nibbles of a row, column 0 first.
pub open spec fn row_cells(row: u16) -> Seq<u8> {
    seq![
        (row & 0xF) as u8,
        ((row >> 4u16) & 0xF) as u8,
        ((row >> 8u16) & 0xF) as u8,
        ((row >> 12u16) & 0xF) as u8,
    ]
}

/// Four cells packed into a row, cell `k` shifted to nibble `k`. A value above 15
/// is not masked: its high bits land in the next nibble (or beyond the row).
pub open spec fn packed(c: Seq<u8>) -> u16 {
    (c[0] as u16) | ((c[1] as u16) << 4u16) | ((c[2] as u16) << 8u16) | ((c[3] as u16) << 12u16)
}

/// The non-empty cells, in order.
pub open spec fn compact(s: Seq<u8>) -> Seq<u8> {
    s.filter(|v: u8| v != 0)
}

/// Merge adjacent equal cells once, left to right: `[a, a, ..]` becomes
/// `[a+1, ..]` and the merged cell takes no further part.
pub open spec fn merged(s: Seq<u8>) -> Seq<u8>
    decreases s.len(),
{
    if s.len() < 2 {
        s
    } else if s[0] == s[1] {
        seq![(s[0] + 1) as u8] + merged(s.subrange(2, s.len() as int))
    } else {
        seq![s[0]] + merged(s.subrange(1, s.len() as int))
    }
}

/// The value of the tiles produced by `merged`: a merge of two `2^a` tiles
/// scores `2^(a+1)`.
pub open spec fn merge_score(s: Seq<u8>) -> nat
    decreases s.len(),
{
    if s.len() < 2 {
        0
    } else if s[0] == s[1] {
        pow2((s[0] + 1) as nat) + merge_score(s.subrange(2, s.len() as int))
    } else {
        merge_score(s.subrange(1, s.len() as int))
    }
}

/// `s` followed by empty cells up to four cells.
pub open spec fn pad4(s: Seq<u8>) -> Seq<u8> {
    s + Seq::new((4 - s.len()) as nat, |i: int| 0u8)
}

/// The cells of a row after a left move.
pub open spec fn slid_cells(cells: Seq<u8>) -> Seq<u8> {
    pad4(merged(compact(cells)))
}

/// The score of a left move on a row.
pub open spec fn slid_score(cells: Seq<u8>) -> nat {
    merge_score(compact(cells))
}

/// The row read right to left.
pub open spec fn reversed_row(row: u16) -> u16 {
    packed(row_cells(row).reverse())
}

/// A row after a left move.
pub open spec fn row_left(row: u16) -> u16 {
    packed(slid_cells(row_cells(row)))
}

/// The score of a left move on a row.
pub open spec fn row_left_score(row: u16) -> nat {
    slid_score(row_cells(row))
}

/// A row after a right move: the mirror image of the left move of its mirror.
pub open spec fn row_right(row: u16) -> u16 {
    reversed_row(row_left(reversed_row(row)))
}

/// The score of a right move on a row.
pub open spec fn row_right_score(row: u16) -> nat {
    row_left_score(reversed_row(row))
}

/// Every cell is a nibble value.
pub open spec fn all_nibbles(s: Seq<u8>) -> bool {
    forall|i: int| 0 <= i < s.len() ==> #[trigger] s[i] <= 15
}

// ---------------------------------------------------------------------------
// Lemmas on the row model
// ---------------------------------------------------------------------------

/// Unpacking a row gives nibbles, and packing them back gives the row.
pub proof fn lemma_row_cells(row: u16)
    ensures
        row_cells(row).len() == 4,
        all_nibbles(row_cells(row)),
        packed(row_cells(row)) == row,
{
    assert((row & 0xF) <= 15 && ((row >> 4u16) & 0xF) <= 15 && ((row >> 8u16) & 0xF) <= 15
        && ((row >> 12u16) & 0xF) <= 15) by (bit_vector);
    let a = (row & 0xF) as u8;
    let b = ((row >> 4u16) & 0xF) as u8;
    let c = ((row >> 8u16) & 0xF) as u8;
    let d = ((row >> 12u16) & 0xF) as u8;
    assert((a as u16) == (row & 0xF));
    assert((b as u16) == ((row >> 4u16) & 0xF));
    assert((c as u16) == ((row >> 8u16) & 0xF));
    assert((d as u16) == ((row >> 12u16) & 0xF));
    assert(((row & 0xF) | (((row >> 4u16) & 0xF) << 4u16) | (((row >> 8u16) & 0xF) << 8u16) | (((
    row >> 12u16) & 0xF) << 12u16)) == row) by (bit_vector);
}

/// Packing four nibbles and unpacking the row gives them back.
pub proof fn lemma_packed_cells(c: Seq<u8>)
    requires
        c.len() == 4,
        all_nibbles(c),
    ensures
        row_cells(packed(c)) == c,
{
    let (a, b, d, e) = (c[0], c[1], c[2], c[3]);
    assert(a <= 15 && b <= 15 && d <= 15 && e <= 15);
    let r = packed(c);
    assert(r == (a as u16) | ((b as u16) << 4u16) | ((d as u16) << 8u16) | ((e as u16) << 12u16));
    assert({
        let r = (a as u16) | ((b as u16) << 4u16) | ((d as u16) << 8u16) | ((e as u16) << 12u16);
        &&& (r & 0xF) == a as u16
        &&& ((r >> 4u16) & 0xF) == b as u16
        &&& ((r >> 8u16) & 0xF) == d as u16
        &&& ((r >> 12u16) & 0xF) == e as u16
    }) by (bit_vector)
        requires
            a <= 15 && b <= 15 && d <= 15 && e <= 15,
    ;
    assert(row_cells(r) =~= c);
}

/// Compacting keeps only cells of the input sequence, all of them non-zero.
pub proof fn lemma_compact_bounds(s: Seq<u8>, bound: u8)
    requires
        forall|i: int| 0 <= i < s.len() ==> #[trigger] s[i] <= bound,
    ensures
        compact(s).len() <= s.len(),
        forall|i: int| 0 <= i < compact(s).len() ==> #[trigger] compact(s)[i] <= bound,
        forall|i: int| 0 <= i < compact(s).len() ==> #[trigger] compact(s)[i] != 0,
    decreases s.len(),
{
    reveal(Seq::filter);
    if s.len() > 0 {
        lemma_compact_bounds(s.drop_last(), bound);
        assert(compact(s) == if s.last() != 0 {
            compact(s.drop_last()).push(s.last())
        } else {
            compact(s.drop_last())
        });
    }
}

/// Merging shortens a sequence by one cell per merge; its cells exceed the
/// input's bound by at most one.
pub proof fn lemma_merged_bounds(s: Seq<u8>, bound: u8)
    requires
        bound < 255,
        forall|i: int| 0 <= i < s.len() ==> #[trigger] s[i] <= bound,
    ensures
        merged(s).len() <= s.len(),
        forall|i: int| 0 <= i < merged(s).len() ==> #[trigger] merged(s)[i] <= bound + 1,
        merge_score(s) * 2 <= s.len() * pow2((bound + 1) as nat),
    decreases s.len(),
{
    if s.len() >= 2 {
        if s[0] == s[1] {
            let rest = s.subrange(2, s.len() as int);
            lemma_merged_bounds(rest, bound);
            if s[0] + 1 < bound + 1 {
                lemma_pow2_strictly_increases((s[0] + 1) as nat, (bound + 1) as nat);
            }
            assert(merged(s) == seq![(s[0] + 1) as u8] + merged(rest));
            assert forall|i: int| 0 <= i < merged(s).len() implies #[trigger] merged(s)[i] <= bound
                + 1 by {
                if i > 0 {
                    assert(merged(s)[i] == merged(rest)[i - 1]);
                }
            }
            assert(merge_score(s) * 2 <= s.len() * pow2((bound + 1) as nat)) by (nonlinear_arith)
                requires
                    merge_score(s) == pow2((s[0] + 1) as nat) + merge_score(rest),
                    pow2((s[0] + 1) as nat) <= pow2((bound + 1) as nat),
                    merge_score(rest) * 2 <= rest.len() * pow2((bound + 1) as nat),
                    rest.len() + 2 == s.len(),
            ;
        } else {
            let rest = s.subrange(1, s.len() as int);
            lemma_merged_bounds(rest, bound);
            assert(merged(s) == seq![s[0]] + merged(rest));
            assert forall|i: int| 0 <= i < merged(s).len() implies #[trigger] merged(s)[i] <= bound
                + 1 by {
                if i > 0 {
                    assert(merged(s)[i] == merged(rest)[i - 1]);
                }
            }
            assert(merge_score(s) * 2 <= s.len() * pow2((bound + 1) as nat)) by (nonlinear_arith)
                requires
                    merge_score(s) == merge_score(rest),
                    merge_score(rest) * 2 <= rest.len() * pow2((bound + 1) as nat),
                    rest.len() + 1 == s.len(),
            ;
        }
    }
}

/// A left move on four nibbles yields four cells of value at most 16 and a
/// score of at most two merges of 2^16.
pub proof fn lemma_slid_bounds(cells: Seq<u8>)
    requires
        cells.len() == 4,
        all_nibbles(cells),
    ensures
        slid_cells(cells).len() == 4,
        forall|i: int| 0 <= i < 4 ==> #[trigger] slid_cells(cells)[i] <= 16,
        slid_score(cells) <= 0x20000,
{
    lemma_compact_bounds(cells, 15);
    lemma_merged_bounds(compact(cells), 15);
    lemma2_to64();
    let m = merged(compact(cells));
    assert(slid_score(cells) <= 0x20000) by (nonlinear_arith)
        requires
            slid_score(cells) * 2 <= compact(cells).len() * pow2(16),
            compact(cells).len() <= 4,
            pow2(16) == 0x10000,
    ;
    assert forall|i: int| 0 <= i < 4 implies #[trigger] slid_cells(cells)[i] <= 16 by {
        if i < m.len() {
            assert(slid_cells(cells)[i] == m[i]);
        } else {
            assert(slid_cells(cells)[i] == 0);
        }
    }
}

/// Reversing a row twice gives the row back.
pub proof fn lemma_reverse_row_involution(row: u16)
    ensures
        reversed_row(reversed_row(row)) == row,
{
    lemma_row_cells(row);
    let c = row_cells(row);
    let r = c.reverse();
    assert(all_nibbles(r));
    lemma_packed_cells(r);
    assert(row_cells(reversed_row(row)) == r);
    assert(r.reverse() =~= c);
}

/// The value of a cell: `2^v` for a tile, 0 for an empty cell.
pub open spec fn tile_value_of(v: u8) -> nat {
    if v != 0 {
        pow2(v as nat)
    } else {
        0
    }
}

/// The total value of the tiles among the first `n` cells.
pub open spec fn tiles_total(s: Seq<u8>, n: int) -> nat
    decreases n,
{
    if n <= 0 {
        0
    } else {
        tiles_total(s, n - 1) + tile_value_of(s[n - 1])
    }
}

/// The total value of all the tiles of `s`.
pub open spec fn tile_total(s: Seq<u8>) -> nat {
    tiles_total(s, s.len() as int)
}

proof fn lemma_tiles_total_prefix(s: Seq<u8>, t: Seq<u8>, n: int)
    requires
        0 <= n <= s.len(),
        n <= t.len(),
        forall|i: int| 0 <= i < n ==> s[i] == t[i],
    ensures
        tiles_total(s, n) == tiles_total(t, n),
    decreases n,
{
    if n > 0 {
        lemma_tiles_total_prefix(s, t, n - 1);
    }
}

/// The total of a concatenation is the sum of the totals.
pub proof fn lemma_tile_total_concat(a: Seq<u8>, b: Seq<u8>)
    ensures
        tile_total(a + b) == tile_total(a) + tile_total(b),
    decreases b.len(),
{
    if b.len() == 0 {
        assert(a + b =~= a);
    } else {
        let b0 = b.drop_last();
        lemma_tile_total_concat(a, b0);
        assert((a + b).drop_last() =~= a + b0);
        lemma_tiles_total_prefix(a + b, a + b0, (a + b0).len() as int);
        lemma_tiles_total_prefix(b, b0, b0.len() as int);
    }
}

/// The total of a sequence is its first cell's value plus the total of the rest.
pub proof fn lemma_tile_total_front(s: Seq<u8>)
    requires
        s.len() > 0,
    ensures
        tile_total(s) == tile_value_of(s[0]) + tile_total(s.subrange(1, s.len() as int)),
{
    assert(s =~= seq![s[0]] + s.subrange(1, s.len() as int));
    lemma_tile_total_concat(seq![s[0]], s.subrange(1, s.len() as int));
    assert(tiles_total(seq![s[0]], 0) == 0);
}

proof fn lemma_tile_total_compact(s: Seq<u8>)
    ensures
        tile_total(compact(s)) == tile_total(s),
    decreases s.len(),
{
    reveal(Seq::filter);
    if s.len() > 0 {
        let s0 = s.drop_last();
        lemma_tile_total_compact(s0);
        lemma_tiles_total_prefix(s, s0, s0.len() as int);
        if s.last() != 0 {
            let c = compact(s0).push(s.last());
            assert(compact(s) == c);
            lemma_tiles_total_prefix(c, compact(s0), compact(s0).len() as int);
        } else {
            assert(compact(s) == compact(s0));
        }
    }
}

proof fn lemma_tile_total_merged(s: Seq<u8>)
    requires
        forall|i: int| 0 <= i < s.len() ==> 1 <= #[trigger] s[i] <= 15,
    ensures
        tile_total(merged(s)) == tile_total(s),
    decreases s.len(),
{
    if s.len() >= 2 {
        if s[0] == s[1] {
            let rest = s.subrange(2, s.len() as int);
            lemma_tile_total_merged(rest);
            lemma_tile_total_concat(seq![(s[0] + 1) as u8], merged(rest));
            lemma_tile_total_front(seq![(s[0] + 1) as u8]);
            lemma_tile_total_front(s);
            lemma_tile_total_front(s.subrange(1, s.len() as int));
            assert(s.subrange(1, s.len() as int).subrange(1, s.len() - 1) =~= rest);
            vstd::arithmetic::power2::lemma_pow2_unfold((s[0] + 1) as nat);
            assert(seq![(s[0] + 1) as u8].subrange(1, 1) =~= Seq::<u8>::empty());
        } else {
            let rest = s.subrange(1, s.len() as int);
            lemma_tile_total_merged(rest);
            lemma_tile_total_concat(seq![s[0]], merged(rest));
            lemma_tile_total_front(seq![s[0]]);
            lemma_tile_total_front(s);
            assert(seq![s[0]].subrange(1, 1) =~= Seq::<u8>::empty());
        }
    }
}

proof fn lemma_tile_total_zeros(n: nat)
    ensures
        tile_total(Seq::new(n, |i: int| 0u8)) == 0,
    decreases n,
{
    if n > 0 {
        lemma_tile_total_zeros((n - 1) as nat);
        let z = Seq::new(n, |i: int| 0u8);
        lemma_tiles_total_prefix(z, Seq::new((n - 1) as nat, |i: int| 0u8), n - 1);
    }
}

/// A left move on a row neither creates nor destroys tile value: merging two
/// tiles `2^a` makes one tile `2^(a+1)`.
pub proof fn lemma_slide_conserves_tiles(cells: Seq<u8>)
    requires
        cells.len() == 4,
        all_nibbles(cells),
    ensures
        tile_total(slid_cells(cells)) == tile_total(cells),
{
    lemma_compact_bounds(cells, 15);
    lemma_tile_total_compact(cells);
    lemma_tile_total_merged(compact(cells));
    lemma_merged_bounds(compact(cells), 15);
    let m = merged(compact(cells));
    lemma_tile_total_concat(m, Seq::new((4 - m.len()) as nat, |i: int| 0u8));
    lemma_tile_total_zeros((4 - m.len()) as nat);
}

/// Merging keeps the length of a sequence only when nothing merges.
proof fn lemma_merged_same_len(s: Seq<u8>)
    requires
        merged(s).len() == s.len(),
    ensures
        merged(s) == s,
    decreases s.len(),
{
    if s.len() >= 2 {
        if s[0] == s[1] {
            lemma_merged_bounds_len(s.subrange(2, s.len() as int));
        } else {
            let rest = s.subrange(1, s.len() as int);
            lemma_merged_same_len(rest);
            assert(s =~= seq![s[0]] + rest);
        }
    }
}

proof fn lemma_merged_bounds_len(s: Seq<u8>)
    ensures
        merged(s).len() <= s.len(),
    decreases s.len(),
{
    if s.len() >= 2 {
        if s[0] == s[1] {
            lemma_merged_bounds_len(s.subrange(2, s.len() as int));
        } else {
            lemma_merged_bounds_len(s.subrange(1, s.len() as int));
        }
    }
}

/// Compacting keeps the length of a sequence only when it has no empty cell.
proof fn lemma_compact_same_len(s: Seq<u8>)
    requires
        compact(s).len() == s.len(),
    ensures
        compact(s) == s,
    decreases s.len(),
{
    reveal(Seq::filter);
    if s.len() > 0 {
        let s0 = s.drop_last();
        s0.lemma_filter_len(|v: u8| v != 0);
        if s.last() != 0 {
            lemma_compact_same_len(s0);
            assert(s =~= s0.push(s.last()));
        } else {
            assert(compact(s) == compact(s0));
        }
    }
}

proof fn lemma_packed_nibbles(a: u8, b: u8, c: u8, d: u8)
    requires
        a <= 16,
        b <= 16,
        c <= 16,
        d <= 16,
    ensures
        ({
            let r = (a as u16) | ((b as u16) << 4u16) | ((c as u16) << 8u16) | ((d as u16) << 12u16);
            &&& (r & 0xF) as u8 == a & 0xF
            &&& ((r >> 4u16) & 0xF) as u8 == (b & 0xF) | (a >> 4u8)
            &&& ((r >> 8u16) & 0xF) as u8 == (c & 0xF) | (b >> 4u8)
            &&& ((r >> 12u16) & 0xF) as u8 == (d & 0xF) | (c >> 4u8)
        }),
{
    assert({
        let r = (a as u16) | ((b as u16) << 4u16) | ((c as u16) << 8u16) | ((d as u16) << 12u16);
        &&& (r & 0xF) as u8 == a & 0xF
        &&& ((r >> 4u16) & 0xF) as u8 == (b & 0xF) | (a >> 4u8)
        &&& ((r >> 8u16) & 0xF) as u8 == (c & 0xF) | (b >> 4u8)
        &&& ((r >> 12u16) & 0xF) as u8 == (d & 0xF) | (c >> 4u8)
    }) by (bit_vector)
        requires
            a <= 16,
            b <= 16,
            c <= 16,
            d <= 16,
    ;
}

/// A left move that leaves a row without empty cells does not change it.
pub proof fn lemma_full_row_left_unchanged(row: u16)
    requires
        !row_cells(row_left(row)).contains(0u8),
    ensures
        row_left(row) == row,
{
    let c = row_cells(row);
    lemma_row_cells(row);
    lemma_slid_bounds(c);
    let sl = slid_cells(c);
    let (a, b, e, d) = (sl[0], sl[1], sl[2], sl[3]);
    lemma_packed_nibbles(a, b, e, d);
    let out = row_cells(row_left(row));
    assert(row_left(row) == packed(sl));
    assert(out[0] != 0 && out[1] != 0 && out[2] != 0 && out[3] != 0) by {
        assert(out.contains(out[0]) && out.contains(out[1]) && out.contains(out[2]) && out.contains(
            out[3],
        ));
    }
    // No cell reached 16 (the first such would read as empty) and none is empty.
    assert(a != 16 && b != 16 && e != 16 && d != 16) by {
        assert(a <= 16 && b <= 16 && e <= 16 && d <= 16);
        assert(a < 16 ==> a >> 4u8 == 0) by (bit_vector);
        assert(b < 16 ==> b >> 4u8 == 0) by (bit_vector);
        assert(e < 16 ==> e >> 4u8 == 0) by (bit_vector);
        assert(b == 16 ==> (b & 0xF) == 0) by (bit_vector);
        assert(e == 16 ==> (e & 0xF) == 0) by (bit_vector);
        assert(d == 16 ==> (d & 0xF) == 0) by (bit_vector);
        assert(a == 16 ==> (a & 0xF) == 0) by (bit_vector);
        assert(((b & 0xF) | 0u8) == (b & 0xF) && ((e & 0xF) | 0u8) == (e & 0xF) && ((d & 0xF) | 0u8)
            == (d & 0xF)) by (bit_vector);
    }
    assert(all_nibbles(sl));
    lemma_packed_cells(sl);
    assert(out == sl);
    let m = merged(compact(c));
    lemma_compact_bounds(c, 15);
    lemma_merged_bounds_len(compact(c));
    if m.len() < 4 {
        assert(sl[3] == 0);
    }
    assert(m.len() == 4);
    assert(compact(c).len() == 4);
    lemma_merged_same_len(compact(c));
    lemma_compact_same_len(c);
    assert(sl =~= m);
}

/// Two neighbouring cells let some move act on them: one is empty and the other
/// not, or they hold equal tiles.
pub open spec fn active_pair(x: u8, y: u8) -> bool {
    (x == 0) != (y == 0) || (x != 0 && x == y)
}

/// No left move acts on the four cells: no empty cell lies left of a tile and
/// no two neighbouring tiles are equal.
pub open spec fn left_stable(c: Seq<u8>) -> bool {
    forall|j: int|
        0 <= j < 3 ==> !(#[trigger] c[j] == 0 && c[j + 1] != 0) && !(c[j] != 0 && c[j] == c[j + 1])
}

/// The number of non-empty cells among the first `n`.
spec fn nonzeros(s: Seq<u8>, n: int) -> nat
    decreases n,
{
    if n <= 0 {
        0
    } else {
        nonzeros(s, n - 1) + if s[n - 1] != 0 {
            1nat
        } else {
            0nat
        }
    }
}

proof fn lemma_compact_len(s: Seq<u8>, n: int)
    requires
        0 <= n <= s.len(),
    ensures
        compact(s.subrange(0, n)).len() == nonzeros(s, n),
    decreases n,
{
    reveal(Seq::filter);
    if n > 0 {
        lemma_compact_len(s, n - 1);
        assert(s.subrange(0, n).drop_last() =~= s.subrange(0, n - 1));
    }
}

/// Cells whose first `p` cells are tiles and the rest empty are their tiles
/// followed by empty cells.
proof fn lemma_compact_prefix(s: Seq<u8>, p: int)
    requires
        0 <= p <= s.len(),
        forall|i: int| 0 <= i < s.len() ==> (#[trigger] s[i] != 0 <==> i < p),
    ensures
        compact(s) == s.subrange(0, p),
    decreases s.len(),
{
    reveal(Seq::filter);
    if p == s.len() {
        lemma_compact_no_zero(s);
        assert(s.subrange(0, p) =~= s);
    } else {
        let d = s.drop_last();
        lemma_compact_prefix(d, p);
        assert(compact(s) == compact(d));
        assert(d.subrange(0, p) =~= s.subrange(0, p));
    }
}

/// Cells without an empty cell are their own compaction.
proof fn lemma_compact_no_zero(s: Seq<u8>)
    requires
        forall|i: int| 0 <= i < s.len() ==> #[trigger] s[i] != 0,
    ensures
        compact(s) == s,
    decreases s.len(),
{
    reveal(Seq::filter);
    if s.len() > 0 {
        lemma_compact_no_zero(s.drop_last());
        assert(s =~= s.drop_last().push(s.last()));
    }
}

/// Without two equal neighbours, merging changes nothing; and when merging
/// changes nothing, no two neighbours are equal.
proof fn lemma_merged_fixed(s: Seq<u8>)
    ensures
        (forall|j: int| 0 <= j < s.len() - 1 ==> #[trigger] s[j] != s[j + 1]) <==> merged(s) == s,
    decreases s.len(),
{
    if s.len() >= 2 {
        if s[0] == s[1] {
            lemma_merged_bounds_len(s.subrange(2, s.len() as int));
            assert(merged(s).len() < s.len());
        } else {
            let rest = s.subrange(1, s.len() as int);
            lemma_merged_fixed(rest);
            if forall|j: int| 0 <= j < s.len() - 1 ==> #[trigger] s[j] != s[j + 1] {
                assert forall|j: int| 0 <= j < rest.len() - 1 implies #[trigger] rest[j] != rest[j
                    + 1] by {
                    assert(s[j + 1] != s[j + 2]);
                }
                assert(s =~= seq![s[0]] + rest);
            }
            if merged(s) == s {
                assert(merged(rest) =~= s.subrange(1, s.len() as int)) by {
                    assert(merged(s) == seq![s[0]] + merged(rest));
                    assert forall|k: int| 0 <= k < merged(rest).len() implies merged(rest)[k]
                        == rest[k] by {
                        assert(merged(s)[k + 1] == merged(rest)[k]);
                    }
                }
                assert forall|j: int| 0 <= j < s.len() - 1 implies #[trigger] s[j] != s[j + 1] by {
                    if j > 0 {
                        assert(rest[j - 1] != rest[j]);
                    }
                }
            }
        }
    }
}

/// Merging tiles gives tiles.
proof fn lemma_merged_nonzero(s: Seq<u8>)
    requires
        forall|i: int| 0 <= i < s.len() ==> 1 <= #[trigger] s[i] <= 15,
    ensures
        forall|i: int| 0 <= i < merged(s).len() ==> #[trigger] merged(s)[i] != 0,
    decreases s.len(),
{
    if s.len() >= 2 {
        let rest = if s[0] == s[1] {
            s.subrange(2, s.len() as int)
        } else {
            s.subrange(1, s.len() as int)
        };
        lemma_merged_nonzero(rest);
        assert forall|i: int| 0 <= i < merged(s).len() implies #[trigger] merged(s)[i] != 0 by {
            if i > 0 {
                assert(merged(s)[i] == merged(rest)[i - 1]);
            }
        }
    }
}

/// 1 for a tile, 0 for an empty cell.
spec fn nz(x: u8) -> int {
    if x != 0 {
        1
    } else {
        0
    }
}

/// Packing cells of value at most 16 gives no more tiles than there were: a 16
/// reads as empty and only carries one bit into the next cell.
proof fn lemma_packed_tiles(a: u8, b: u8, e: u8, d: u8)
    requires
        a <= 16,
        b <= 16,
        e <= 16,
        d <= 16,
    ensures
        nz(a & 0xF) + nz((b & 0xF) | (a >> 4u8)) + nz((e & 0xF) | (b >> 4u8)) + nz((d & 0xF) | (e
            >> 4u8)) <= nz(a) + nz(b) + nz(e) + nz(d),
{
    assert(((a & 0xF) != 0 ==> a != 0 && a != 16) && (a >> 4u8 != 0 ==> a == 16) && ((b & 0xF) != 0
        ==> b != 0 && b != 16) && (b >> 4u8 != 0 ==> b == 16) && ((e & 0xF) != 0 ==> e != 0 && e
        != 16) && (e >> 4u8 != 0 ==> e == 16) && ((d & 0xF) != 0 ==> d != 0 && d != 16)) by (
    bit_vector)
        requires
            a <= 16,
            b <= 16,
            e <= 16,
            d <= 16,
    ;
    assert(forall|x: u8, y: u8| #![trigger (x | y)] (x | y != 0) ==> (x != 0 || y != 0)) by (
    bit_vector);
    assert(((b & 0xF) | (a >> 4u8)) != 0 ==> ((b & 0xF) != 0 || (a >> 4u8) != 0));
    assert(((e & 0xF) | (b >> 4u8)) != 0 ==> ((e & 0xF) != 0 || (b >> 4u8) != 0));
    assert(((d & 0xF) | (e >> 4u8)) != 0 ==> ((d & 0xF) != 0 || (e >> 4u8) != 0));
}

/// Under `left_stable` the left move keeps the cells.
proof fn lemma_row_left_stable(row: u16)
    requires
        left_stable(row_cells(row)),
    ensures
        row_left(row) == row,
{
    let c = row_cells(row);
    lemma_row_cells(row);
    lemma_compact_bounds(c, 15);
    let k = compact(c);
    assert(!(c[0] == 0 && c[1] != 0) && !(c[1] == 0 && c[2] != 0) && !(c[2] == 0 && c[3] != 0));
    let p: int = if c[0] == 0 {
        0
    } else if c[1] == 0 {
        1
    } else if c[2] == 0 {
        2
    } else if c[3] == 0 {
        3
    } else {
        4
    };
    assert forall|i: int| 0 <= i < c.len() implies (#[trigger] c[i] != 0 <==> i < p) by {}
    lemma_compact_prefix(c, p);
    assert forall|j: int| 0 <= j < k.len() - 1 implies #[trigger] k[j] != k[j + 1] by {
        assert(k[j] == c[j] && k[j + 1] == c[j + 1]);
        assert(c[j] != 0);
    }
    lemma_merged_fixed(k);
    assert(slid_cells(c) =~= c);
}

/// A left move that keeps the cells merges nothing: otherwise fewer tiles would
/// remain.
proof fn lemma_row_left_fixed_no_merge(row: u16)
    requires
        row_left(row) == row,
    ensures
        merged(compact(row_cells(row))) == compact(row_cells(row)),
{
    let c = row_cells(row);
    lemma_row_cells(row);
    lemma_compact_bounds(c, 15);
    lemma_compact_len(c, 4);
    assert(c.subrange(0, 4) =~= c);
    let k = compact(c);
    lemma_merged_bounds_len(k);
    lemma_merged_nonzero(k);
    let m = merged(k);
    lemma_slid_bounds(c);
    let sl = slid_cells(c);
    assert(nonzeros(c, 0) == 0);
    assert(nonzeros(c, 1) == nz(c[0]));
    assert(nonzeros(c, 2) == nz(c[0]) + nz(c[1]));
    assert(nonzeros(c, 3) == nz(c[0]) + nz(c[1]) + nz(c[2]));
    assert(nonzeros(c, 4) == nz(c[0]) + nz(c[1]) + nz(c[2]) + nz(c[3]));
    assert forall|i: int| 0 <= i < 4 implies (#[trigger] sl[i] != 0 <==> i < m.len()) by {
        if i < m.len() {
            assert(sl[i] == m[i]);
        } else {
            assert(sl[i] == 0);
        }
    }
    let (a, b, e, d) = (sl[0], sl[1], sl[2], sl[3]);
    lemma_packed_nibbles(a, b, e, d);
    lemma_packed_tiles(a, b, e, d);
    assert(row_cells(row_left(row)) == c);
    if m.len() < k.len() {
        assert(nz(a) + nz(b) + nz(e) + nz(d) == m.len());
        assert(false);
    }
    lemma_merged_same_len(k);
}

/// A left move leaves a row unchanged exactly when no left move acts on its
/// cells: no empty cell lies left of a tile and no two neighbouring tiles are
/// equal.
pub proof fn lemma_row_left_fixed(row: u16)
    ensures
        row_left(row) == row <==> left_stable(row_cells(row)),
{
    let c = row_cells(row);
    if left_stable(c) {
        lemma_row_left_stable(row);
    }
    if row_left(row) == row {
        lemma_row_left_fixed_no_merge(row);
        lemma_row_cells(row);
        lemma_compact_bounds(c, 15);
        let k = compact(c);
        lemma_slid_bounds(c);
        let sl = slid_cells(c);
        assert(sl == pad4(k));
        assert(all_nibbles(sl)) by {
            assert forall|i: int| 0 <= i < sl.len() implies #[trigger] sl[i] <= 15 by {
                if i < k.len() {
                    assert(sl[i] == k[i]);
                }
            }
        }
        lemma_packed_cells(sl);
        assert(c == sl);
        lemma_merged_fixed(k);
        assert forall|j: int| 0 <= j < 3 implies !(c[j] == 0 && #[trigger] c[j + 1] != 0) && !(
        c[j] != 0 && c[j] == c[j + 1]) by {
            if j + 1 < k.len() {
                assert(k[j] == c[j] && k[j + 1] == c[j + 1]);
            } else if j < k.len() {
                assert(c[j + 1] == 0);
            } else {
                assert(c[j] == 0 && c[j + 1] == 0);
            }
        }
    }
}

// ---------------------------------------------------------------------------
// Executable row functions
// ---------------------------------------------------------------------------

/// Extract the four nibbles of a row: `cells[0]` is the leftmost (column 0).
pub fn unpack(row: Row) -> (cells: [u8; 4])
    ensures
        cells@ == row_cells(row),
        all_nibbles(cells@),
{
    proof {
        lemma_row_cells(row);
    }
    let cells = [
        (row & 0xF) as u8,
        ((row >> 4) & 0xF) as u8,
        ((row >> 8) & 0xF) as u8,
        ((row >> 12) & 0xF) as u8,
    ];
    assert(cells@ =~= row_cells(row));
    cells
}

/// Pack four nibbles back into a `Row`.
pub fn pack(cells: [u8; 4]) -> (row: Row)
    ensures
        row == packed(cells@),
{
    (cells[0] as Row) | ((cells[1] as Row) << 4) | ((cells[2] as Row) << 8) | ((cells[3] as Row)
        << 12)
}

/// Apply a left move to four cells, returning the resulting cells and the score.
///
/// 1. Compact: collect the non-zero cells into a contiguous prefix.
/// 2. Merge: scan left to right, merging adjacent equal cells once.
/// 3. The merged cells stay contiguous from the left; the rest is empty.
#[verifier::rlimit(40)]
fn slide_left_cells(cells: [u8; 4]) -> (res: ([u8; 4], Score))
    requires
        all_nibbles(cells@),
    ensures
        res.0@ == slid_cells(cells@),
        res.1 == slid_score(cells@),
{
    let ghost c = compact(cells@);
    proof {
        lemma_compact_bounds(cells@, 15);
        lemma_merged_bounds(c, 15);
        lemma2_to64();
    }
    // Step 1: compact (remove zeros)
    let mut buf = [0u8; 4];
    let mut n = 0usize;
    for k in 0..4
        invariant
            n <= k,
            buf@.subrange(0, n as int) == compact(cells@.subrange(0, k as int)),
            forall|j: int| n <= j < 4 ==> buf@[j] == 0,
            buf@.len() == 4,
    {
        proof {
            reveal(Seq::filter);
            let s = cells@.subrange(0, k + 1);
            assert(s.drop_last() == cells@.subrange(0, k as int));
            assert(s.last() == cells@[k as int]);
        }
        let v = cells[k];
        if v != 0 {
            buf[n] = v;
            n += 1;
        }
        proof {
            assert(buf@.subrange(0, n as int) =~= compact(cells@.subrange(0, k + 1)));
        }
    }
    assert(cells@.subrange(0, 4) =~= cells@);
    proof {
        lemma_compact_bounds(cells@, 15);
        assert forall|j: int| 0 <= j < n implies 1 <= #[trigger] buf@[j] <= 15 by {
            assert(buf@[j] == buf@.subrange(0, n as int)[j]);
        }
    }
    // Step 2: merge adjacent equal cells (left to right, each cell merges at most once)
    let mut score: Score = 0;
    let mut i = 0usize;
    while i + 1 < n
        invariant
            i <= n <= 4,
            buf@.len() == 4,
            c == compact(cells@),
            c.len() <= 4,
            buf@.subrange(0, i as int) + merged(buf@.subrange(i as int, n as int)) == merged(c),
            score + merge_score(buf@.subrange(i as int, n as int)) == merge_score(c),
            merge_score(c) * 2 <= c.len() * pow2(16),
            pow2(16) == 0x10000,
            forall|j: int| i <= j < n ==> 1 <= #[trigger] buf@[j] <= 15,
            forall|j: int| n <= j < 4 ==> buf@[j] == 0,
        decreases n - i,
    {
        let ghost s = buf@.subrange(i as int, n as int);
        if buf[i] == buf[i + 1] {
            let merged_v = buf[i] + 1;
            proof {
                lemma_u32_shl_is_mul(1u32, merged_v as u32);
                if merged_v < 16 {
                    lemma_pow2_strictly_increases(merged_v as nat, 16);
                }
                assert(merged(s) == seq![merged_v] + merged(s.subrange(2, s.len() as int)));
                assert(merge_score(s) == pow2(merged_v as nat) + merge_score(
                    s.subrange(2, s.len() as int),
                ));
            }
            score += 1u32 << merged_v;
            buf[i] = merged_v;
            let ghost before_shift = buf@;
            // Shift the remaining cells left to fill the gap
            for j in i + 1..n - 1
                invariant
                    i + 1 <= n <= 4,
                    buf@.len() == 4,
                    forall|m: int| 0 <= m < j ==> m > i ==> #[trigger] buf@[m] == before_shift[m + 1],
                    forall|m: int| 0 <= m <= i ==> #[trigger] buf@[m] == before_shift[m],
                    forall|m: int| j <= m < 4 ==> #[trigger] buf@[m] == before_shift[m],
            {
                buf[j] = buf[j + 1];
            }
            buf[n - 1] = 0;
            proof {
                assert(buf@.subrange(i + 1, n - 1) =~= s.subrange(2, s.len() as int));
                assert(buf@.subrange(0, i + 1) =~= buf@.subrange(0, i as int).push(merged_v));
                assert(before_shift.subrange(0, i as int) =~= buf@.subrange(0, i as int));
            }
            n -= 1;
            i += 1;
            proof {
                assert(buf@.subrange(0, i as int) + merged(buf@.subrange(i as int, n as int))
                    =~= before_shift.subrange(0, i - 1) + merged(s));
            }
        } else {
            proof {
                assert(merged(s) == seq![s[0]] + merged(s.subrange(1, s.len() as int)));
                assert(buf@.subrange(i as int, n as int).subrange(1, s.len() as int)
                    =~= buf@.subrange(i + 1, n as int));
                assert(buf@.subrange(0, i + 1) =~= buf@.subrange(0, i as int).push(s[0]));
            }
            i += 1;
            proof {
                assert(buf@.subrange(0, i as int) + merged(buf@.subrange(i as int, n as int))
                    =~= buf@.subrange(0, i - 1) + merged(s));
            }
        }
    }
    proof {
        let s = buf@.subrange(i as int, n as int);
        assert(merged(s) == s);
        assert(buf@.subrange(0, n as int) =~= merged(c));
        assert(buf@ =~= pad4(merged(c)));
    }
    ([buf[0], buf[1], buf[2], buf[3]], score)
}

/// Reverse a row (flip left and right): column 0 becomes column 3, and so on.
pub fn reverse_row(row: Row) -> (r: Row)
    ensures
        r == reversed_row(row),
{
    let c = unpack(row);
    let rev = [c[3], c[2], c[1], c[0]];
    assert(rev@ =~= row_cells(row).reverse());
    pack(rev)
}

/// A left move on one row: the resulting row and the score gained.
pub fn slide_row_left(row: Row) -> (res: (Row, Score))
    ensures
        res.0 == row_left(row),
        res.1 == row_left_score(row),
{
    let (result, score) = slide_left_cells(unpack(row));
    (pack(result), score)
}

/// A right move on one row: the mirror image of a left move on the mirrored row.
pub fn slide_row_right(row: Row) -> (res: (Row, Score))
    ensures
        res.0 == row_right(row),
        res.1 == row_right_score(row),
{
    let rev = reverse_row(row);
    let (result, score) = slide_left_cells(unpack(rev));
    (reverse_row(pack(result)), score)
}

/// The table of every row after a left move.
fn build_move_left() -> (table: Vec<Row>)
    ensures
        table.len() == 65536,
        forall|i: int| 0 <= i < 65536 ==> #[trigger] table[i] == row_left(i as u16),
{
    let mut table: Vec<Row> = Vec::new();
    for row in 0u32..65536
        invariant
            table.len() == row,
            forall|i: int| 0 <= i < row ==> #[trigger] table[i] == row_left(i as u16),
    {
        let (result, _) = slide_left_cells(unpack(row as Row));
        table.push(pack(result));
    }
    table
}

/// The table of the score of a left move on every row.
fn build_score_left() -> (table: Vec<Score>)
    ensures
        table.len() == 65536,
        forall|i: int| 0 <= i < 65536 ==> #[trigger] table[i] == row_left_score(i as u16),
{
    let mut table: Vec<Score> = Vec::new();
    for row in 0u32..65536
        invariant
            table.len() == row,
            forall|i: int| 0 <= i < row ==> #[trigger] table[i] == row_left_score(i as u16),
    {
        let (_, score) = slide_left_cells(unpack(row as Row));
        table.push(score);
    }
    table
}

/// The table of every row after a right move.
fn build_move_right() -> (table: Vec<Row>)
    ensures
        table.len() == 65536,
        forall|i: int| 0 <= i < 65536 ==> #[trigger] table[i] == row_right(i as u16),
{
    let mut table: Vec<Row> = Vec::new();
    for row in 0u32..65536
        invariant
            table.len() == row,
            forall|i: int| 0 <= i < row ==> #[trigger] table[i] == row_right(i as u16),
    {
        let rev = reverse_row(row as Row);
        let (result, _) = slide_left_cells(unpack(rev));
        table.push(reverse_row(pack(result)));
    }
    table
}

/// The table of the score of a right move on every row.
fn build_score_right() -> (table: Vec<Score>)
    ensures
        table.len() == 65536,
        forall|i: int| 0 <= i < 65536 ==> #[trigger] table[i] == row_right_score(i as u16),
{
    let mut table: Vec<Score> = Vec::new();
    for row in 0u32..65536
        invariant
            table.len() == row,
            forall|i: int| 0 <= i < row ==> #[trigger] table[i] == row_right_score(i as u16),
    {
        let rev = reverse_row(row as Row);
        let (_, score) = slide_left_cells(unpack(rev));
        table.push(score);
    }
    table
}

/// The four row tables: for each of the 65536 rows, the row after a left and a
/// right move and the score of each move.
pub struct RowTables {
    pub move_left: Vec<Row>,
    pub move_right: Vec<Row>,
    pub score_left: Vec<Score>,
    pub score_right: Vec<Score>,
}

impl RowTables {
    /// Each table has an entry for every row, holding that row's move or score.
    pub open spec fn wf(&self) -> bool {
        &&& self.move_left.len() == 65536
        &&& self.move_right.len() == 65536
        &&& self.score_left.len() == 65536
        &&& self.score_right.len() == 65536
        &&& forall|i: int| 0 <= i < 65536 ==> #[trigger] self.move_left[i] == row_left(i as u16)
        &&& forall|i: int| 0 <= i < 65536 ==> #[trigger] self.move_right[i] == row_right(i as u16)
        &&& forall|i: int|
            0 <= i < 65536 ==> #[trigger] self.score_left[i] == row_left_score(i as u16)
        &&& forall|i: int|
            0 <= i < 65536 ==> #[trigger] self.score_right[i] == row_right_score(i as u16)
    }
}

/// Build all four row tables.
pub fn warm_tables() -> (tables: RowTables)
    ensures
        tables.wf(),
{
    RowTables {
        move_left: build_move_left(),
        move_right: build_move_right(),
        score_left: build_score_left(),
        score_right: build_score_right(),
    }
}

} // verus!
