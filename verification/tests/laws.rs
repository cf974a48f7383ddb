//! Concrete checks of the library's laws and edge cases.

use rand::{Rng, RngCore, SeedableRng};
use rand_chacha::ChaCha8Rng;
use twenty48::ai::heuristic::evaluate_exact;
use twenty48::ai::search::{hint_from_result, SearchResult};
use twenty48::board::bitboard::{empty_board, Board, Direction};
use twenty48::board::tables::{pack, reverse_row, slide_row_left, slide_row_right, unpack, warm_tables};
use twenty48::game::rng::SeededRng;
use twenty48::game::spawn::{place_spawn, spawn};
use twenty48::game::state::initial_board;
use twenty48::game::Game;
use twenty48::tui::app::{Action, App, HintInfo, LoopStep, Mode};
use twenty48::tui::text::{hint_text, info_text, status_text};
use twenty48::tui::theme::{tile_shade, TileShade};

fn sample_boards() -> Vec<Board> {
    vec![
        empty_board(),
        Board::from_array([[1, 2, 3, 4], [5, 6, 7, 8], [9, 10, 11, 12], [13, 14, 15, 0]]),
        Board::from_array([[1, 1, 2, 2], [0, 3, 0, 3], [4, 4, 4, 4], [0, 0, 0, 1]]),
        Board::from_array([[11, 10, 9, 8], [5, 6, 7, 4], [3, 2, 1, 0], [0, 0, 0, 0]]),
        Board::from_array([[1, 2, 1, 2], [2, 1, 2, 1], [1, 2, 1, 2], [2, 1, 2, 1]]),
        Board(0x0123_4567_89AB_CDEF),
        Board(0xF0F0_1111_2020_3303),
    ]
}

fn mirror(b: Board) -> Board {
    let a = b.to_array();
    let mut m = [[0u8; 4]; 4];
    for r in 0..4 {
        for c in 0..4 {
            m[r][c] = a[r][3 - c];
        }
    }
    Board::from_array(m)
}

fn tile_total(b: Board) -> u64 {
    let a = b.to_array();
    let mut t = 0u64;
    for r in 0..4 {
        for c in 0..4 {
            if a[r][c] != 0 {
                t += 1u64 << a[r][c];
            }
        }
    }
    t
}

#[test]
fn transpose_twice_is_identity() {
    for b in sample_boards() {
        assert_eq!(b.transpose().transpose(), b);
        let t = b.transpose();
        for r in 0..4 {
            for c in 0..4 {
                assert_eq!(t.get_cell(r, c), b.get_cell(c, r));
            }
        }
    }
}

#[test]
fn set_cell_then_get_cell() {
    let b = Board::from_array([[1, 2, 3, 4], [5, 6, 7, 8], [9, 10, 11, 12], [13, 14, 15, 0]]);
    let b2 = b.set_cell(1, 2, 9);
    assert_eq!(b2.get_cell(1, 2), 9);
    for r in 0..4 {
        for c in 0..4 {
            if (r, c) != (1, 2) {
                assert_eq!(b2.get_cell(r, c), b.get_cell(r, c));
            }
        }
    }
    assert_eq!(b.to_array()[1][2], 7);
}

#[test]
fn set_row_then_get_row_others_unchanged() {
    let b = Board(0x0123_4567_89AB_CDEF);
    let b2 = b.set_row(2, 0xBEEF);
    assert_eq!(b2.get_row(2), 0xBEEF);
    assert_eq!(b2.get_row(0), b.get_row(0));
    assert_eq!(b2.get_row(1), b.get_row(1));
    assert_eq!(b2.get_row(3), b.get_row(3));
    assert_eq!(b2, Board(0x0123_BEEF_89AB_CDEF));
}

#[test]
fn from_array_of_to_array_is_identity() {
    for b in sample_boards() {
        assert_eq!(Board::from_array(b.to_array()), b);
    }
}

#[test]
fn cell_shift_and_tile_value() {
    assert_eq!(Board::cell_shift(0, 0), 0);
    assert_eq!(Board::cell_shift(1, 2), 24);
    assert_eq!(Board::cell_shift(3, 3), 60);
    let b = Board::from_array([[11, 0, 0, 0], [0, 1, 0, 0], [0, 0, 0, 0], [0, 0, 0, 15]]);
    assert_eq!(b.tile_value(0, 0), 2048);
    assert_eq!(b.tile_value(1, 1), 2);
    assert_eq!(b.tile_value(3, 3), 32768);
    // An empty cell has no tile value.
    assert_eq!(b.tile_value(0, 1), 0);
}

#[test]
fn empties_in_row_major_order() {
    let b = Board::from_array([[1, 0, 2, 3], [4, 5, 6, 7], [0, 8, 9, 10], [11, 12, 13, 0]]);
    assert_eq!(b.empties(), vec![(0, 1), (2, 0), (3, 3)]);
    assert_eq!(b.count_empties(), 3);
    for b in sample_boards() {
        assert_eq!(b.empties().len() as u32, b.count_empties());
    }
}

#[test]
fn max_cell_of_mixed_board() {
    let b = Board::from_array([[1, 0, 2, 3], [4, 5, 6, 7], [0, 8, 9, 10], [11, 12, 13, 0]]);
    assert_eq!(b.max_cell(), 13);
}

#[test]
fn merging_two_top_tiles_overflows_the_nibble() {
    // Two 2^15 tiles merge into 2^16, which does not fit in a nibble: its bit
    // spills into the next cell of the row.
    let b = Board::from_array([[15, 15, 0, 0], [0, 0, 0, 0], [0, 0, 0, 0], [0, 0, 0, 0]]);
    let (nb, score) = b.slide(Direction::Left).unwrap();
    assert_eq!(score, 65536);
    assert_eq!(nb.to_array()[0], [0, 1, 0, 0]);
    let (row, s) = slide_row_left(pack([15, 15, 0, 0]));
    assert_eq!(row, 0x0010);
    assert_eq!(s, 65536);
}

#[test]
fn moves_conserve_tile_value_below_the_top_tile() {
    let boards = [
        Board::from_array([[1, 1, 2, 2], [0, 3, 0, 3], [4, 4, 4, 4], [0, 0, 0, 1]]),
        Board::from_array([[14, 14, 0, 1], [1, 1, 1, 1], [2, 0, 2, 0], [7, 7, 7, 0]]),
        Board(0x0123_4567_89AB_CDE0),
    ];
    for b in boards {
        for d in Direction::ALL {
            if let Some((nb, _)) = b.slide(d) {
                assert_eq!(tile_total(nb), tile_total(b), "{d:?} on {:?}", b.to_array());
            }
        }
    }
}

#[test]
fn table_slide_matches_direct_slide() {
    let tables = warm_tables();
    for b in sample_boards() {
        for d in Direction::ALL {
            assert_eq!(b.slide_with(&tables, d), b.slide(d));
        }
    }
    for row in (0..65536u32).step_by(13) {
        let row = row as u16;
        assert_eq!((tables.move_left[row as usize], tables.score_left[row as usize]), slide_row_left(row));
        assert_eq!((tables.move_right[row as usize], tables.score_right[row as usize]), slide_row_right(row));
    }
}

#[test]
fn right_move_is_mirrored_left_move() {
    for row in [0x0000u16, 0x1111, 0x2121, 0x0101, 0x1234, 0x4432] {
        let (left, s) = slide_row_left(reverse_row(row));
        assert_eq!(slide_row_right(row), (reverse_row(left), s));
    }
    assert_eq!(unpack(pack([3, 0, 2, 1])), [3, 0, 2, 1]);
    assert_eq!(reverse_row(pack([3, 0, 2, 1])), pack([1, 2, 0, 3]));
}

#[test]
fn legal_moves_match_slides() {
    for b in sample_boards() {
        let legal = b.legal_moves();
        let expected: Vec<Direction> = Direction::ALL.into_iter().filter(|&d| b.slide(d).is_some()).collect();
        assert_eq!(legal, expected);
        assert_eq!(b.has_moves(), !legal.is_empty());
    }
}

#[test]
fn evaluation_is_symmetric() {
    for b in sample_boards() {
        let v = evaluate_exact(b);
        assert_eq!(evaluate_exact(b.transpose()), v);
        assert_eq!(evaluate_exact(mirror(b)), v);
    }
}

#[test]
fn evaluation_exact_values() {
    // One tile 2^11 in the top-left corner: 15 empty cells (utility 200) and the
    // snake head weight 2^15.
    let corner = Board::from_array([[11, 0, 0, 0], [0, 0, 0, 0], [0, 0, 0, 0], [0, 0, 0, 0]]);
    assert_eq!(evaluate_exact(corner), 5_000_000 + (1u64 << 26));
    // A full board: no empty-cell utility.
    let full = Board::from_array([[1, 1, 1, 1], [1, 1, 1, 1], [1, 1, 1, 1], [1, 1, 1, 1]]);
    assert_eq!(evaluate_exact(full), 2 * ((1u64 << 16) - 1));
}

#[test]
fn place_spawn_picks_the_indexed_empty_cell() {
    let b = Board::from_array([[1, 0, 2, 3], [4, 5, 6, 7], [0, 8, 9, 10], [11, 12, 13, 0]]);
    let cells = b.empties();
    let (nb, pos, v) = place_spawn(b, &cells, 1, true);
    assert_eq!((pos, v), ((2, 0), 1));
    assert_eq!(nb.get_cell(2, 0), 1);
    let (nb, pos, v) = place_spawn(b, &cells, 2, false);
    assert_eq!((pos, v), ((3, 3), 2));
    assert_eq!(nb.get_cell(3, 3), 2);
    assert_eq!(nb.count_empties(), 2);
}

#[test]
fn spawn_fills_an_empty_cell() {
    let mut rng = SeededRng::seed_from_u64(3);
    let b = Board::from_array([[1, 0, 2, 3], [4, 5, 6, 7], [0, 8, 9, 10], [11, 12, 13, 0]]);
    for _ in 0..50 {
        let (nb, (r, c), v) = spawn(b, &mut rng).unwrap();
        assert_eq!(b.get_cell(r, c), 0);
        assert!(v == 1 || v == 2);
        assert_eq!(nb, b.set_cell(r, c, v));
    }
}

#[test]
fn initial_board_keeps_low_bit_of_each_nibble() {
    let b = initial_board(0xFFFF_0000_3333_1234);
    assert_eq!(b, Board(0x1111_0000_1111_1010));
    for seed in 0..20u64 {
        let g = Game::new(seed);
        assert!(g.board.max_cell() <= 1);
    }
}

#[test]
fn hint_follows_search_result() {
    let h = hint_from_result(SearchResult { best_move: Some(Direction::Down), depth_reached: 3 });
    assert_eq!(h, HintInfo::Move { dir: Direction::Down, depth: 3 });
    let h = hint_from_result(SearchResult { best_move: None, depth_reached: 0 });
    assert_eq!(h, HintInfo::NoMoves);
}

#[test]
fn tile_shades() {
    assert_eq!(tile_shade(0), TileShade::Empty);
    assert_eq!(tile_shade(1), TileShade::Tile { r: 255, g: 255, b: 128, dark_text: true });
    assert_eq!(tile_shade(4), TileShade::Tile { r: 248, g: 205, b: 101, dark_text: true });
    assert_eq!(tile_shade(5), TileShade::Tile { r: 245, g: 188, b: 92, dark_text: false });
    assert_eq!(tile_shade(15), TileShade::Tile { r: 220, g: 20, b: 0, dark_text: false });
}

#[test]
fn illegal_move_message_and_no_history() {
    let mut app = App::new(0, Some(11));
    app.game.board = Board::from_array([[1, 0, 0, 0], [0, 0, 0, 0], [0, 0, 0, 0], [0, 0, 0, 0]]);
    app.try_move(Direction::Up);
    assert_eq!(app.message.as_deref(), Some("Illegal move: Up"));
    assert!(app.history.is_empty());
    app.undo();
    assert_eq!(app.message.as_deref(), Some("Nothing to undo"));
    assert_eq!(app.win_tile_value(), Some(2048));
    assert!(!app.is_game_won());
    app.game.board = app.game.board.set_cell(3, 3, 11);
    assert!(app.is_game_won());
}

#[test]
fn history_is_capped_and_undo_restores() {
    let mut app = App::new(11, None);
    let mut steps = 0;
    while steps < 80 && !app.is_game_over() {
        let order = [Direction::Down, Direction::Left, Direction::Right, Direction::Up];
        let d = *order.iter().find(|&&d| app.game.board.slide(d).is_some()).unwrap();
        let before = (app.game.board, app.game.score);
        app.try_move(d);
        assert!(app.history.len() <= 64);
        assert_eq!(app.history.last().copied(), Some(before));
        assert!(app.best_score >= app.game.score);
        steps += 1;
    }
    assert!(steps > 64, "game ended after {steps} moves");
    assert_eq!(app.history.len(), 64);
    let last = *app.history.last().unwrap();
    app.undo();
    assert_eq!((app.game.board, app.game.score), last);
    assert_eq!(app.history.len(), 63);
    assert_eq!(app.message.as_deref(), Some("Undone"));
}

#[test]
fn toggle_and_reset() {
    let mut app = App::new(3, None);
    let start = app.game.board;
    assert_eq!(app.mode, Mode::Human);
    app.toggle_auto();
    assert_eq!(app.mode, Mode::Auto);
    app.toggle_auto();
    assert_eq!(app.mode, Mode::Human);
    let d = app.game.board.legal_moves()[0];
    app.try_move(d);
    app.reset();
    assert_eq!(app.game.board, start);
    assert_eq!(app.game.score, 0);
    assert_eq!(app.message.as_deref(), Some("Game reset"));
}

#[test]
fn play_adds_move_score() {
    let mut g = Game::new(4);
    g.board = Board::from_array([[2, 2, 1, 1], [0, 0, 0, 0], [0, 0, 0, 0], [0, 0, 0, 0]]);
    g.play(Direction::Left).unwrap();
    assert_eq!(g.score, 8 + 4);
    assert_eq!(g.moves, 1);
    assert_eq!(g.board.get_cell(0, 0), 3);
    assert_eq!(g.board.get_cell(0, 1), 2);
    assert_eq!(g.board.count_empties(), 13);
}

#[test]
fn actions_drive_the_app() {
    let mut app = App::new(2, None);
    assert_eq!(app.apply_action(Action::Quit), LoopStep::Quit);
    assert_eq!(app.apply_action(Action::Resize), LoopStep::Resize);
    assert_eq!(app.apply_action(Action::RequestHint), LoopStep::NeedHint);
    assert_eq!(app.apply_action(Action::Idle), LoopStep::Continue);
    let d = app.game.board.legal_moves()[0];
    assert_eq!(app.apply_action(Action::Move(d)), LoopStep::Continue);
    assert_eq!(app.history.len(), 1);
    assert!(!app.autoplay_due());
    app.apply_action(Action::ToggleAuto);
    assert!(app.autoplay_due());
    // Manual moves are ignored in autoplay.
    let board = app.game.board;
    let d = app.game.board.legal_moves()[0];
    app.apply_action(Action::Move(d));
    assert_eq!(app.game.board, board);
    assert_eq!(app.history.len(), 1);
    app.apply_action(Action::Undo);
    assert!(app.history.is_empty());
    app.apply_action(Action::Reset);
    assert_eq!(app.game.moves, 0);
}

#[test]
fn hint_and_status_text() {

    assert_eq!(hint_text(&None), "--");
    assert_eq!(hint_text(&Some(HintInfo::NoMoves)), "No moves possible");
    assert_eq!(hint_text(&Some(HintInfo::Move { dir: Direction::Left, depth: 7 })), "Left (d7)");
    assert_eq!(hint_text(&Some(HintInfo::Move { dir: Direction::Up, depth: 10 })), "Up (d10)");
    assert_eq!(hint_text(&Some(HintInfo::Move { dir: Direction::Down, depth: 255 })), "Down (d255)");

    let mut app = App::new(0, Some(11));
    assert!(status_text(&app).is_empty());
    app.game.board = app.game.board.set_cell(0, 0, 11);
    assert_eq!(status_text(&app), vec![" Game won at 2048!".to_string(), " Please restart.".to_string()]);
    app.win_tile_exp = None;
    app.game.board = Board::from_array([[1, 2, 1, 2], [2, 1, 2, 1], [1, 2, 1, 2], [2, 1, 2, 1]]);
    assert_eq!(status_text(&app), vec![" Game over.".to_string(), " Please restart.".to_string()]);
}

#[test]
fn game_starts_from_the_seeds_first_draw() {

    for seed in [0u64, 1, 7, 99, 12345] {
        let draw = ChaCha8Rng::seed_from_u64(seed).next_u64();
        assert_eq!(Game::new(seed).board, initial_board(draw));
        assert_eq!(Game::new(seed).board, Game::new(seed).board);
    }
}

#[test]
fn reset_restarts_from_the_seed() {
    let mut app = App::new(21, None);
    let d = app.game.board.legal_moves()[0];
    app.try_move(d);
    app.reset();
    assert_eq!(app.game.board, Game::new(21).board);
    assert_eq!((app.game.score, app.game.moves), (0, 0));
}

#[test]
fn has_moves_iff_active_neighbours() {
    fn active_pair(b: Board) -> bool {
        let a = b.to_array();
        let act = |x: u8, y: u8| (x == 0) != (y == 0) || (x != 0 && x == y);
        (0..4).any(|r| (0..3).any(|j| act(a[r][j], a[r][j + 1])))
            || (0..3).any(|r| (0..4).any(|c| act(a[r][c], a[r + 1][c])))
    }
    let mut x: u64 = 0x9E37_79B9_7F4A_7C15;
    for _ in 0..2000 {
        x ^= x << 13;
        x ^= x >> 7;
        x ^= x << 17;
        let b = Board(x);
        assert_eq!(b.has_moves(), active_pair(b), "{:?}", b.to_array());
    }
    for b in sample_boards() {
        assert_eq!(b.has_moves(), active_pair(b));
    }
}

#[test]
fn info_lines() {

    let mut app = App::new(0, None);
    app.game.score = 1234;
    app.best_score = 40960;
    app.game.moves = 7;
    app.hint = Some(HintInfo::NoMoves);
    assert_eq!(
        info_text(&app),
        vec![
            " Score: 1234".to_string(),
            " Best:  40960".to_string(),
            " Moves: 7".to_string(),
            " Mode:  Human".to_string(),
            " Hint:  No moves possible".to_string(),
        ]
    );
}

#[test]
fn spawn_draws_as_the_generator_does() {
    // The spawn takes the cell with `gen_range(0..n)` and the tile with a fair
    // coin, in that order, from the generator seeded with the same seed.
    let b = Board::from_array([[1, 0, 2, 3], [4, 0, 6, 0], [0, 8, 9, 10], [11, 12, 13, 0]]);
    for seed in 0..30u64 {
        let mut ours = SeededRng::seed_from_u64(seed);
        let mut raw = ChaCha8Rng::seed_from_u64(seed);
        for _ in 0..5 {
            let cells = b.empties();
            let idx: usize = raw.gen_range(0..cells.len());
            let two = raw.gen::<f64>() < 0.5;
            let (r, c) = cells[idx];
            let expected = (b.set_cell(r, c, if two { 1 } else { 2 }), (r, c), if two { 1 } else { 2 });
            assert_eq!(spawn(b, &mut ours), Some(expected));
        }
    }
}

#[test]
fn same_seed_same_moves_same_games() {
    let dirs = [Direction::Left, Direction::Up, Direction::Right, Direction::Down];
    for seed in [3u64, 8, 21] {
        let mut a = Game::new(seed);
        let mut b = Game::new(seed);
        for k in 0..200 {
            let d = dirs[(k * 7 + 3) % 4];
            let ra = a.play(d);
            let rb = b.play(d);
            assert_eq!(ra.is_ok(), rb.is_ok());
            assert_eq!(a.board, b.board);
            assert_eq!(a.score, b.score);
            assert_eq!(a.moves, b.moves);
        }
    }
}

#[test]
fn reset_replays_like_a_new_game() {
    let mut app = App::new(13, None);
    for d in [Direction::Left, Direction::Down, Direction::Right] {
        app.try_move(d);
    }
    app.reset();
    let mut fresh = Game::new(13);
    for d in [Direction::Up, Direction::Left, Direction::Down, Direction::Right, Direction::Up] {
        app.try_move(d);
        let _ = fresh.play(d);
        assert_eq!(app.game.board, fresh.board);
        assert_eq!(app.game.score, fresh.score);
    }
}
