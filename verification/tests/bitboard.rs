use twenty48::board::bitboard::{empty_board, Board, Cell, Direction};

#[test]
fn from_array_to_array_round_trip() {
    let arr: [[Cell; 4]; 4] = [[15, 14, 13, 12], [8, 9, 10, 11], [7, 6, 5, 4], [0, 1, 2, 3]];
    assert_eq!(Board::to_array(Board::from_array(arr)), arr);
    // Empty array case
    assert_eq!(Board::from_array([[0u8; 4]; 4]), empty_board());
    assert_eq!(empty_board(), Board(0));
}

#[test]
fn get_and_set_row() {
    let b = Board::from_array([[1, 2, 3, 4], [5, 6, 7, 8], [9, 10, 11, 12], [13, 14, 15, 0]]);
    assert_eq!(b.get_row(0), 0x4321_u16);
    assert_eq!(b.get_row(1), 0x8765_u16);
    assert_eq!(b.get_row(2), 0xCBA9_u16);
    assert_eq!(b.get_row(3), 0x0FED_u16);

    let row0 = b.get_row(0);
    let b2 = empty_board().set_row(0, row0);
    assert_eq!(b2.get_row(0), row0);
    assert_eq!(b2.get_row(1), 0);
    assert_eq!(b2.get_row(2), 0);
    assert_eq!(b2.get_row(3), 0);
}

#[test]
fn transpose_correctness() {
    let b = Board::from_array([[1, 2, 3, 4], [5, 6, 7, 8], [9, 10, 11, 12], [13, 14, 15, 0]]);
    let t = b.transpose();
    let expected =
        Board::from_array([[1, 5, 9, 13], [2, 6, 10, 14], [3, 7, 11, 15], [4, 8, 12, 0]]);
    assert_eq!(t, expected);
}

#[test]
fn count_empty_cases() {
    assert_eq!(empty_board().count_empties(), 16);
    let one_tile = Board::from_array([[1, 0, 0, 0], [0, 0, 0, 0], [0, 0, 0, 0], [0, 0, 0, 0]]);
    assert_eq!(one_tile.count_empties(), 15);
    let two_tiles = Board::from_array([[1, 0, 0, 0], [2, 0, 0, 0], [3, 0, 0, 0], [4, 0, 0, 5]]);
    assert_eq!(two_tiles.count_empties(), 11);
    let full = Board::from_array([[1, 2, 3, 4], [5, 6, 7, 8], [9, 10, 11, 12], [1, 2, 3, 4]]);
    assert_eq!(full.count_empties(), 0);
}

#[test]
fn max_cell_cases() {
    assert_eq!(empty_board().max_cell(), 0);
    let b = Board::from_array([[1, 2, 3, 4], [5, 6, 7, 8], [9, 10, 11, 12], [13, 14, 15, 0]]);
    assert_eq!(b.max_cell(), 15);
    for v in 1u8..=15 {
        let b = empty_board().set_cell(2, 2, v);
        assert_eq!(b.max_cell(), v, "max_cell with single tile value {v}");
    }
}

#[test]
fn bitboard_empties_counts_correct() {
    let b = Board::from_array([[1, 0, 0, 0], [0, 0, 0, 0], [0, 0, 0, 0], [0, 0, 0, 2]]);
    let empty: Vec<_> = b.empties();
    assert_eq!(empty.len(), 14);
}

/// A slide case: `input` slid in `dir` yields `expected` board and `score`.
struct SlideCase {
    input: [[Cell; 4]; 4],
    dir: Direction,
    expected: [[Cell; 4]; 4],
    score: u32,
}

#[test]
fn slide_cases() {
    let cases = vec![
        // Left: basic merge
        SlideCase {
            input: [[1, 1, 1, 1], [0, 0, 0, 0], [0, 0, 0, 0], [0, 0, 0, 0]],
            dir: Direction::Left,
            expected: [[2, 2, 0, 0], [0, 0, 0, 0], [0, 0, 0, 0], [0, 0, 0, 0]],
            score: 8,
        },
        // Left: chain merge [2,2,4,4] -> [4,8,0,0]
        SlideCase {
            input: [[1, 1, 2, 2], [0, 0, 0, 0], [0, 0, 0, 0], [0, 0, 0, 0]],
            dir: Direction::Left,
            expected: [[2, 3, 0, 0], [0, 0, 0, 0], [0, 0, 0, 0], [0, 0, 0, 0]],
            score: 12,
        },
        // Left: middle merge [4,2,2,4] -> [4,4,4,0]
        SlideCase {
            input: [[2, 1, 1, 2], [0, 0, 0, 0], [0, 0, 0, 0], [0, 0, 0, 0]],
            dir: Direction::Left,
            expected: [[2, 2, 2, 0], [0, 0, 0, 0], [0, 0, 0, 0], [0, 0, 0, 0]],
            score: 4,
        },
        // Left: spaced merge [2,0,2,4] -> [4,4,0,0]
        SlideCase {
            input: [[1, 0, 1, 2], [0, 0, 0, 0], [0, 0, 0, 0], [0, 0, 0, 0]],
            dir: Direction::Left,
            expected: [[2, 2, 0, 0], [0, 0, 0, 0], [0, 0, 0, 0], [0, 0, 0, 0]],
            score: 4,
        },
        // Left: single tile slide
        SlideCase {
            input: [[0, 0, 0, 1], [0, 0, 0, 0], [0, 0, 0, 0], [0, 0, 0, 0]],
            dir: Direction::Left,
            expected: [[1, 0, 0, 0], [0, 0, 0, 0], [0, 0, 0, 0], [0, 0, 0, 0]],
            score: 0,
        },
        // Left: triple merge rightmost [2,2,2,0] -> [4,2,0,0]
        SlideCase {
            input: [[1, 1, 1, 0], [0, 0, 0, 0], [0, 0, 0, 0], [0, 0, 0, 0]],
            dir: Direction::Left,
            expected: [[2, 1, 0, 0], [0, 0, 0, 0], [0, 0, 0, 0], [0, 0, 0, 0]],
            score: 4,
        },
        // Right: spaced merge
        SlideCase {
            input: [[0, 1, 0, 1], [0, 0, 0, 0], [0, 0, 0, 0], [0, 0, 0, 0]],
            dir: Direction::Right,
            expected: [[0, 0, 0, 2], [0, 0, 0, 0], [0, 0, 0, 0], [0, 0, 0, 0]],
            score: 4,
        },
        // Up: single tile move
        SlideCase {
            input: [[0, 0, 0, 0], [1, 0, 0, 0], [0, 0, 0, 0], [0, 0, 0, 0]],
            dir: Direction::Up,
            expected: [[1, 0, 0, 0], [0, 0, 0, 0], [0, 0, 0, 0], [0, 0, 0, 0]],
            score: 0,
        },
        // Up: column merge
        SlideCase {
            input: [[1, 0, 0, 0], [1, 0, 0, 0], [0, 0, 0, 0], [0, 0, 0, 0]],
            dir: Direction::Up,
            expected: [[2, 0, 0, 0], [0, 0, 0, 0], [0, 0, 0, 0], [0, 0, 0, 0]],
            score: 4,
        },
        // Down: column merge
        SlideCase {
            input: [[0, 0, 0, 0], [0, 0, 0, 0], [1, 0, 0, 0], [1, 0, 0, 0]],
            dir: Direction::Down,
            expected: [[0, 0, 0, 0], [0, 0, 0, 0], [0, 0, 0, 0], [2, 0, 0, 0]],
            score: 4,
        },
    ];

    for c in &cases {
        let (new_b, score) = Board::from_array(c.input).slide(c.dir).unwrap();
        let expected = Board::from_array(c.expected);
        assert_eq!(new_b, expected, "failed for case: {:?} {:?}", c.input, c.dir);
        assert_eq!(score, c.score, "score mismatch for case: {:?} {:?}", c.input, c.dir);
    }
}

#[test]
fn illegal_move_returns_none() {
    // Single tile at top-left: Left and Up are illegal
    let b = Board::from_array([[1, 0, 0, 0], [0, 0, 0, 0], [0, 0, 0, 0], [0, 0, 0, 0]]);
    assert!(b.slide(Direction::Left).is_none());
    assert!(b.slide(Direction::Up).is_none());
    // Right and Down are legal
    assert!(b.slide(Direction::Right).is_some());
    assert!(b.slide(Direction::Down).is_some());
}

#[test]
fn has_move_and_terminal() {
    // Single tile at top-left: has moves, not terminal
    let b = Board::from_array([[1, 0, 0, 0], [0, 0, 0, 0], [0, 0, 0, 0], [0, 0, 0, 0]]);
    assert!(b.has_moves());

    // Full board with no adjacent equal tiles: terminal
    let full_no_merge = Board::from_array([[1, 2, 1, 2], [2, 1, 2, 1], [1, 2, 1, 2], [2, 1, 2, 1]]);
    assert!(!full_no_merge.has_moves());

    // Full board with one possible merge: has moves
    let full_merge = Board::from_array([[1, 2, 1, 2], [2, 1, 2, 1], [1, 2, 1, 2], [2, 1, 2, 2]]);
    assert!(full_merge.has_moves());
}

#[test]
fn legal_moves_on_sparse_board() {
    let b = Board::from_array([[1, 0, 0, 0], [0, 0, 0, 0], [0, 0, 0, 0], [0, 0, 0, 0]]);
    let moves = b.legal_moves();
    assert!(moves.contains(&Direction::Right));
    assert!(moves.contains(&Direction::Down));
    assert_eq!(moves.len(), 2);
}

/// Up/Down via transpose + left/right equivalence.
#[test]
fn up_down_via_transpose() {
    let b = Board::from_array([[0, 0, 0, 0], [1, 0, 0, 0], [2, 0, 0, 0], [0, 0, 0, 0]]);
    let up_result = b.slide(Direction::Up).unwrap().0;
    let t = b.transpose();
    let (left, _) = t.slide(Direction::Left).unwrap();
    assert_eq!(up_result, left.transpose());

    let down_result = b.slide(Direction::Down).unwrap().0;
    let t = b.transpose();
    let (right, _) = t.slide(Direction::Right).unwrap();
    assert_eq!(down_result, right.transpose());
}
