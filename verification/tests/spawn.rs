use twenty48::game::rng::SeededRng;
use twenty48::board::bitboard::{empty_board, Board};
use twenty48::game::spawn::spawn;

#[test]
fn spawn_on_empty_board_succeeds() {
    let mut rng = SeededRng::seed_from_u64(42);
    let result = spawn(empty_board(), &mut rng);
    assert!(result.is_some());
    let (board, _pos, val) = result.unwrap();
    assert!(val == 1 || val == 2);
    // Board now has exactly one non-empty cell
    assert_eq!(board.count_empties(), 15);
}

#[test]
fn spawn_on_full_board_returns_none() {
    // Fill every cell
    let full = Board::from_array([[1, 2, 3, 4], [5, 6, 7, 8], [9, 10, 11, 12], [1, 2, 3, 4]]);
    let mut rng = SeededRng::seed_from_u64(1);
    assert!(spawn(full, &mut rng).is_none());
}

#[test]
fn spawn_probability_matches_p_tile_4() {
    // Probability of spawning tile 4 (value 2).
    let p_tile_4: f64 = 0.5;
    let mut rng = SeededRng::seed_from_u64(0);
    let mut fours = 0usize;
    let n = 100_000;
    for _ in 0..n {
        let (_, _, val) = spawn(empty_board(), &mut rng).unwrap();
        if val == 2 {
            fours += 1;
        }
    }
    let rate = fours as f64 / n as f64;
    // Should be ~P_TILE_4; allow +-1%
    assert!((rate - p_tile_4).abs() < 0.01, "4-tile rate was {rate}, expected {}", p_tile_4);
}

#[test]
fn spawn_empties_counts_correct() {
    let b = Board::from_array([[1, 0, 0, 0], [0, 0, 0, 0], [0, 0, 0, 0], [0, 0, 0, 2]]);
    let empty: Vec<_> = b.empties();
    assert_eq!(empty.len(), 14);
}
