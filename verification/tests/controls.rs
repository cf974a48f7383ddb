use twenty48::board::bitboard::Direction;
use twenty48::game::state::Game;
use twenty48::tui::app::{action_for_event, action_for_key, win_tile_exponent, Action, App, InputEvent, Key, Mode};
use twenty48::tui::text::{message_text, title_text};

#[test]
fn arrows_move_tiles() {
    assert_eq!(action_for_key(Key::Left), Action::Move(Direction::Left));
    assert_eq!(action_for_key(Key::Right), Action::Move(Direction::Right));
    assert_eq!(action_for_key(Key::Up), Action::Move(Direction::Up));
    assert_eq!(action_for_key(Key::Down), Action::Move(Direction::Down));
}

#[test]
fn letter_controls() {
    assert_eq!(action_for_key(Key::Char('H')), Action::RequestHint);
    assert_eq!(action_for_key(Key::Char('A')), Action::ToggleAuto);
    assert_eq!(action_for_key(Key::Char('u')), Action::Undo);
    assert_eq!(action_for_key(Key::Char('r')), Action::Reset);
    assert_eq!(action_for_key(Key::Char('q')), Action::Quit);
    assert_eq!(action_for_key(Key::Esc), Action::Quit);
}

#[test]
fn controls_are_case_sensitive() {
    assert_eq!(action_for_key(Key::Char('h')), Action::Idle);
    assert_eq!(action_for_key(Key::Char('a')), Action::Idle);
    assert_eq!(action_for_key(Key::Char('U')), Action::Idle);
    assert_eq!(action_for_key(Key::Char('R')), Action::Idle);
    assert_eq!(action_for_key(Key::Char('Q')), Action::Idle);
}

#[test]
fn other_keys_do_nothing() {
    assert_eq!(action_for_key(Key::Other), Action::Idle);
    assert_eq!(action_for_key(Key::Char('x')), Action::Idle);
    assert_eq!(action_for_key(Key::Char(' ')), Action::Idle);
}

#[test]
fn events_map_to_actions() {
    assert_eq!(action_for_event(InputEvent::Resize), Action::Resize);
    assert_eq!(action_for_event(InputEvent::Other), Action::Idle);
    assert_eq!(action_for_event(InputEvent::Key(Key::Char('u'))), Action::Undo);
    assert_eq!(action_for_event(InputEvent::Key(Key::Left)), Action::Move(Direction::Left));
    assert_eq!(action_for_event(InputEvent::Key(Key::Other)), Action::Idle);
}

#[test]
fn cloned_game_plays_the_same() {
    let mut a = Game::new(7);
    let mut b = a.clone();
    assert_eq!(a.board, b.board);
    for dir in [Direction::Left, Direction::Up, Direction::Right, Direction::Down] {
        if a.board.slide(dir).is_some() {
            assert!(a.play(dir).is_ok());
            assert!(b.play(dir).is_ok());
            assert_eq!(a.board, b.board);
            assert_eq!(a.score, b.score);
        }
    }
}

#[test]
fn win_tile_exponent_of_powers_of_two() {
    assert_eq!(win_tile_exponent(1), 0);
    assert_eq!(win_tile_exponent(2), 1);
    assert_eq!(win_tile_exponent(2048), 11);
    assert_eq!(win_tile_exponent(1 << 31), 31);
}

#[test]
fn win_tile_exponent_rounds_down() {
    assert_eq!(win_tile_exponent(3), 1);
    assert_eq!(win_tile_exponent(3000), 11);
    assert_eq!(win_tile_exponent(4095), 11);
    assert_eq!(win_tile_exponent(u32::MAX), 31);
}

#[test]
fn win_tile_round_trip() {
    let app = App::new(5, Some(win_tile_exponent(2048)));
    assert_eq!(app.win_tile_value(), Some(2048));
}

#[test]
fn title_shows_seed_and_mode() {
    assert_eq!(title_text(42, Mode::Human), " 2048  seed: 42  ");
    assert_eq!(title_text(42, Mode::Auto), " 2048  seed: 42   [AUTO] ");
    assert_eq!(title_text(0, Mode::Human), " 2048  seed: 0  ");
    assert_eq!(
        title_text(u64::MAX, Mode::Human),
        " 2048  seed: 18446744073709551615  "
    );
}

#[test]
fn message_lines_separate_and_indent() {
    assert!(message_text(&None, false).is_empty());
    assert_eq!(message_text(&None, true), vec!["".to_string()]);
    assert_eq!(
        message_text(&Some("Undone".to_string()), false),
        vec!["".to_string(), " Undone".to_string()]
    );
    assert_eq!(
        message_text(&Some("Game reset".to_string()), true),
        vec!["".to_string(), " Game reset".to_string()]
    );
}
