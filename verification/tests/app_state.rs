use twenty48::board::bitboard::{Board, Direction};
use twenty48::tui::app::{App, HintInfo};

#[test]
fn undo_restores_board_and_score() {
    let mut app = App::new(1, None);
    let board_before = app.game.board;
    let score_before = app.game.score;
    // Find a legal move
    let legal = app.game.board.legal_moves();
    assert!(!legal.is_empty());
    app.try_move(legal[0]);
    app.undo();
    assert_eq!(app.game.board, board_before);
    assert_eq!(app.game.score, score_before);
}

#[test]
fn illegal_move_does_not_push_history() {
    let mut app = App::new(0, None);
    // Single tile at top-left; Left and Up are illegal
    app.game.board = Board::from_array([[1, 0, 0, 0], [0, 0, 0, 0], [0, 0, 0, 0], [0, 0, 0, 0]]);
    let history_len_before = app.history.len();
    app.try_move(Direction::Left);
    assert_eq!(app.history.len(), history_len_before);
}

#[test]
fn reset_clears_history_and_hint() {
    let mut app = App::new(5, None);
    // Push something
    let legal = app.game.board.legal_moves();
    app.try_move(legal[0]);
    assert!(!app.history.is_empty());
    app.set_hint(HintInfo::Move { dir: Direction::Left, depth: 1 });
    app.reset();
    assert!(app.history.is_empty());
    assert!(app.hint.is_none());
}
