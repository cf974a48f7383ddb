//! Laws on the score of a move: every row (column, for vertical moves) scores
//! on its own, whatever its place on the board, and a merge of two `2^a` tiles
//! scores `2^(a+1)`.
use vstd::prelude::*;
use vstd::arithmetic::power2::pow2;
use super::bitboard::{Direction, move_score, view_row, transposed};
use super::tables::{
    row_cells, packed, all_nibbles, compact, merge_score, row_left_score, row_right_score,
    reversed_row, lemma_packed_cells,
};

verus! {

/// The board with its rows moved up by one place, the top row going to the
/// bottom.
pub open spec fn rows_rotated(v: Seq<u8>) -> Seq<u8> {
    Seq::new(16, |i: int| v[(i + 4) % 16])
}

/// The board with its columns moved left by one place, the left column going to
/// the right.
pub open spec fn columns_rotated(v: Seq<u8>) -> Seq<u8> {
    Seq::new(16, |i: int| v[4 * (i / 4) + (i % 4 + 1) % 4])
}

/// Row `r` of the rotated board is row `r + 1` (mod 4) of the board.
proof fn lemma_rotated_rows(v: Seq<u8>)
    requires
        v.len() == 16,
    ensures
        view_row(rows_rotated(v), 0) == view_row(v, 1),
        view_row(rows_rotated(v), 1) == view_row(v, 2),
        view_row(rows_rotated(v), 2) == view_row(v, 3),
        view_row(rows_rotated(v), 3) == view_row(v, 0),
{
    let w = rows_rotated(v);
    assert(w.subrange(0, 4) =~= v.subrange(4, 8));
    assert(w.subrange(4, 8) =~= v.subrange(8, 12));
    assert(w.subrange(8, 12) =~= v.subrange(12, 16));
    assert(w.subrange(12, 16) =~= v.subrange(0, 4));
}

/// Rotating the columns of a board rotates the rows of its transpose.
proof fn lemma_rotated_columns(v: Seq<u8>)
    requires
        v.len() == 16,
    ensures
        transposed(columns_rotated(v)) == rows_rotated(transposed(v)),
{
    assert(transposed(columns_rotated(v)) =~= rows_rotated(transposed(v)));
}

/// The score of a move does not depend on where each line stands: moving every
/// row up by one place (the top row to the bottom) leaves the score of a left or
/// right move unchanged, and moving every column left by one place leaves the
/// score of an up or down move unchanged. So every row, or column, counts alike.
pub proof fn lemma_move_score_ignores_line_order(v: Seq<u8>)
    requires
        v.len() == 16,
    ensures
        move_score(rows_rotated(v), Direction::Left) == move_score(v, Direction::Left),
        move_score(rows_rotated(v), Direction::Right) == move_score(v, Direction::Right),
        move_score(columns_rotated(v), Direction::Up) == move_score(v, Direction::Up),
        move_score(columns_rotated(v), Direction::Down) == move_score(v, Direction::Down),
{
    lemma_rotated_rows(v);
    lemma_rotated_columns(v);
    lemma_rotated_rows(transposed(v));
}

/// The score of a move is the sum of the scores of its lines moved on their
/// own: the four rows for a left or right move, the four columns (rows of the
/// transpose) for an up or down move.
pub proof fn lemma_move_score_sums_lines(v: Seq<u8>)
    requires
        v.len() == 16,
    ensures
        move_score(v, Direction::Left) == row_left_score(view_row(v, 0)) + row_left_score(
            view_row(v, 1),
        ) + row_left_score(view_row(v, 2)) + row_left_score(view_row(v, 3)),
        move_score(v, Direction::Right) == row_right_score(view_row(v, 0)) + row_right_score(
            view_row(v, 1),
        ) + row_right_score(view_row(v, 2)) + row_right_score(view_row(v, 3)),
        move_score(v, Direction::Up) == row_left_score(view_row(transposed(v), 0))
            + row_left_score(view_row(transposed(v), 1)) + row_left_score(
            view_row(transposed(v), 2),
        ) + row_left_score(view_row(transposed(v), 3)),
        move_score(v, Direction::Down) == row_right_score(view_row(transposed(v), 0))
            + row_right_score(view_row(transposed(v), 1)) + row_right_score(
            view_row(transposed(v), 2),
        ) + row_right_score(view_row(transposed(v), 3)),
{
}

/// Four cells holding one `a` at `c1`, one at `c2`, and nothing else.
pub open spec fn two_tiles_row(a: u8, c1: int, c2: int) -> Seq<u8> {
    Seq::new(4, |c: int| if c == c1 || c == c2 { a } else { 0u8 })
}

/// Without tiles the cells compact to nothing; with two equal tiles they
/// compact to those two.
proof fn lemma_compact_small(a: u8, c1: int, c2: int)
    requires
        0 <= c1 < c2 < 4,
        a > 0,
    ensures
        compact(Seq::new(4, |c: int| 0u8)) =~= Seq::<u8>::empty(),
        compact(two_tiles_row(a, c1, c2)) =~= seq![a, a],
{
    reveal_with_fuel(Seq::filter, 5);
    let z = Seq::new(4, |c: int| 0u8);
    assert(z.drop_last().drop_last().drop_last().drop_last() =~= Seq::<u8>::empty());
    assert(z.drop_last().drop_last().drop_last() =~= seq![0u8]);
    assert(z.drop_last().drop_last() =~= seq![0u8, 0u8]);
    assert(z.drop_last() =~= seq![0u8, 0u8, 0u8]);
    let t = two_tiles_row(a, c1, c2);
    let t3 = t.drop_last();
    let t2 = t3.drop_last();
    let t1 = t2.drop_last();
    let t0 = t1.drop_last();
    assert(t0 =~= Seq::<u8>::empty());
    assert(t1 =~= seq![t[0]]);
    assert(t2 =~= seq![t[0], t[1]]);
    assert(t3 =~= seq![t[0], t[1], t[2]]);
}

/// Two equal `2^a` tiles alone in one row, anywhere in it: a left or right move
/// merges them and scores exactly `2^(a+1)`, whichever row they are in.
pub proof fn lemma_single_merge_row_score(v: Seq<u8>, r: int, a: u8, c1: int, c2: int)
    requires
        v.len() == 16,
        0 <= r < 4,
        0 <= c1 < c2 < 4,
        1 <= a <= 14,
        forall|i: int|
            0 <= i < 16 ==> #[trigger] v[i] == (if i == 4 * r + c1 || i == 4 * r + c2 {
                a
            } else {
                0u8
            }),
    ensures
        move_score(v, Direction::Left) == pow2((a + 1) as nat),
        move_score(v, Direction::Right) == pow2((a + 1) as nat),
{
    let z = Seq::new(4, |c: int| 0u8);
    let t = two_tiles_row(a, c1, c2);
    lemma_compact_small(a, c1, c2);
    assert(all_nibbles(z));
    assert(all_nibbles(t));
    lemma_packed_cells(z);
    lemma_packed_cells(t);
    assert(merge_score(seq![a, a]) == pow2((a + 1) as nat) + merge_score(
        seq![a, a].subrange(2, 2),
    ));
    assert(merge_score(Seq::<u8>::empty()) == 0);
    assert(row_left_score(packed(z)) == 0);
    assert(row_left_score(packed(t)) == pow2((a + 1) as nat));
    // The mirror image of the row holds the two tiles at mirrored places.
    let m = two_tiles_row(a, 3 - c2, 3 - c1);
    assert(t.reverse() =~= m);
    assert(z.reverse() =~= z);
    lemma_compact_small(a, 3 - c2, 3 - c1);
    assert(all_nibbles(m));
    lemma_packed_cells(m);
    assert(reversed_row(packed(z)) == packed(z));
    assert(reversed_row(packed(t)) == packed(m));
    assert(row_right_score(packed(z)) == 0);
    assert(row_right_score(packed(t)) == pow2((a + 1) as nat));
    assert forall|k: int| 0 <= k < 4 implies #[trigger] view_row(v, k) == if k == r {
        packed(t)
    } else {
        packed(z)
    } by {
        if k == r {
            assert(v.subrange(4 * k, 4 * k + 4) =~= t);
        } else {
            assert(v.subrange(4 * k, 4 * k + 4) =~= z);
        }
    }
    assert(view_row(v, 0) == if 0 == r { packed(t) } else { packed(z) });
    assert(view_row(v, 1) == if 1 == r { packed(t) } else { packed(z) });
    assert(view_row(v, 2) == if 2 == r { packed(t) } else { packed(z) });
    assert(view_row(v, 3) == if 3 == r { packed(t) } else { packed(z) });
}

/// Two equal `2^a` tiles alone in one column, anywhere in it: an up or down move
/// merges them and scores exactly `2^(a+1)`, whichever column they are in.
pub proof fn lemma_single_merge_column_score(v: Seq<u8>, c: int, a: u8, r1: int, r2: int)
    requires
        v.len() == 16,
        0 <= c < 4,
        0 <= r1 < r2 < 4,
        1 <= a <= 14,
        forall|i: int|
            0 <= i < 16 ==> #[trigger] v[i] == (if i == 4 * r1 + c || i == 4 * r2 + c {
                a
            } else {
                0u8
            }),
    ensures
        move_score(v, Direction::Up) == pow2((a + 1) as nat),
        move_score(v, Direction::Down) == pow2((a + 1) as nat),
{
    let t = transposed(v);
    assert forall|i: int| 0 <= i < 16 implies #[trigger] t[i] == (if i == 4 * c + r1 || i == 4
        * c + r2 {
        a
    } else {
        0u8
    }) by {
        assert(t[i] == v[4 * (i % 4) + i / 4]);
    }
    lemma_single_merge_row_score(t, c, a, r1, r2);
}

} // verus!
