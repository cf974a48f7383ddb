use twenty48::ai::heuristic::{empty_utility, evaluate_exact};
use twenty48::board::bitboard::{empty_board, Board};

fn evaluate(board: Board) -> f64 {
    evaluate_exact(board) as f64
}

#[test]
fn evaluate_empty_board_is_finite_and_positive() {
    let v = evaluate(empty_board());
    assert!(v.is_finite(), "non-finite on empty board");
    assert_eq!(v, 5_000_000.0, "unexpected empty board value: {v}");
}

#[test]
fn evaluate_terminal_board_no_panic() {
    let b = Board::from_array([[1, 2, 1, 2], [2, 1, 2, 1], [1, 2, 1, 2], [2, 1, 2, 1]]);
    assert!(evaluate(b).is_finite());
}

#[test]
fn snake_board_scores_higher_than_random_shuffle() {
    let snake = Board::from_array([[11, 10, 9, 8], [5, 6, 7, 4], [3, 2, 1, 0], [0, 0, 0, 0]]);
    let shuffled = Board::from_array([[5, 3, 9, 0], [10, 0, 6, 8], [1, 11, 2, 0], [7, 0, 4, 0]]);
    assert!(
        evaluate(snake) > evaluate(shuffled),
        "snake={} shuffled={}",
        evaluate(snake),
        evaluate(shuffled)
    );
}

#[test]
fn mirror_snake_boards_score_equally() {
    let s0 = Board::from_array([[8, 7, 6, 5], [1, 2, 3, 4], [0, 0, 0, 0], [0, 0, 0, 0]]);
    let s1 = Board::from_array([[5, 6, 7, 8], [4, 3, 2, 1], [0, 0, 0, 0], [0, 0, 0, 0]]);
    assert!((evaluate(s0) - evaluate(s1)).abs() < 1.0, "v0={} v1={}", evaluate(s0), evaluate(s1));
}

#[test]
fn max_tile_at_corner_beats_center() {
    let corner = Board::from_array([[11, 0, 0, 0], [0, 0, 0, 0], [0, 0, 0, 0], [0, 0, 0, 0]]);
    let center = Board::from_array([[0, 0, 0, 0], [0, 11, 0, 0], [0, 0, 0, 0], [0, 0, 0, 0]]);
    let diff = evaluate(corner) - evaluate(center);
    assert!(diff > 60_000_000.0, "expected diff > 60M, got {diff}");
}

#[test]
fn empty_util_is_non_decreasing() {
    for n in 0..16 {
        assert!(empty_utility(n) <= empty_utility(n + 1), "not non-decreasing at n={n}");
    }
}
