use twenty48::board::bitboard::{Board, Direction};

#[test]
fn legal_moves_all_on_empty() {
    let b = Board::from_array([[1, 0, 0, 0], [0, 0, 0, 0], [0, 0, 0, 0], [0, 0, 0, 0]]);
    let moves = b.legal_moves();
    assert!(moves.contains(&Direction::Right));
    assert!(moves.contains(&Direction::Down));
    assert_eq!(moves.len(), 2);
}
