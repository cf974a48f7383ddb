//! Application state machine for the 2048 terminal UI.
//!
//! `App` holds all mutable UI state: the current game, display mode, hint, undo
//! stack and any transient message. It does not touch the terminal.
use vstd::prelude::*;
use crate::board::bitboard::{Board, Direction, Score, is_legal, has_legal_move, max_upto, move_score};
use crate::game::state::{Game, played, fresh_game, same_position, lemma_same_seed_same_start};
use vstd::arithmetic::power2::{pow2, lemma_pow2_pos, lemma_pow2_unfold, lemma_pow2_strictly_increases, lemma2_to64};

verus! {

/// Autoplay / human-play mode selector.
#[derive(Clone, Copy, Debug, PartialEq, Eq, Structural)]
pub enum Mode {
    /// Human is in control.
    Human,
    /// AI plays automatically (one move per ~50 ms tick).
    Auto,
}

/// Result of an AI hint request.
#[derive(Clone, Copy, Debug, PartialEq, Eq, Structural)]
pub enum HintInfo {
    /// A direction is suggested.
    Move { dir: Direction, depth: u8 },
    /// No moves are possible (board is terminal).
    NoMoves,
}

/// Most entries the undo stack keeps.
pub const HISTORY_CAP: usize = 64;

/// Full application state.
#[derive(Debug)]
pub struct App {
    /// Current game state.
    pub game: Game,
    /// Best score seen across resets this session.
    pub best_score: Score,
    /// Current play mode (human or AI).
    pub mode: Mode,
    /// Last computed AI hint, if any.
    pub hint: Option<HintInfo>,
    /// Undo stack: (board, score) pairs, capped at 64 entries.
    pub history: Vec<(Board, Score)>,
    /// Transient status message displayed in the info panel.
    pub message: Option<String>,
    /// The seed used for the current game (for display).
    pub seed: u64,
    /// Winning tile as log2 exponent (e.g. 2048 -> 11); `None` means no win
    /// condition, play continues indefinitely.
    pub win_tile_exp: Option<u8>,
}

/// The message shown after an illegal move in `dir`.
pub open spec fn illegal_move_text(dir: Direction) -> Seq<char> {
    match dir {
        Direction::Up => "Illegal move: Up"@,
        Direction::Down => "Illegal move: Down"@,
        Direction::Left => "Illegal move: Left"@,
        Direction::Right => "Illegal move: Right"@,
    }
}

/// `a` holds the message `text`.
pub open spec fn shows(a: App, text: Seq<char>) -> bool {
    a.message matches Some(m) && m@ == text
}

/// The parts of the state that a move, an undo or a reset leave alone.
pub open spec fn same_settings(a0: App, a1: App) -> bool {
    &&& a1.mode == a0.mode
    &&& a1.seed == a0.seed
    &&& a1.win_tile_exp == a0.win_tile_exp
}

/// `a1` is `a0` after `try_move(dir)`.
pub open spec fn after_try_move(a0: App, dir: Direction, a1: App) -> bool {
    &&& same_settings(a0, a1)
    &&& if is_legal(a0.game.board@, dir) {
        &&& played(a0.game, dir, a1.game)
        &&& a1.history@ == (if a0.history.len() >= HISTORY_CAP {
            a0.history@.drop_first()
        } else {
            a0.history@
        }).push((a0.game.board, a0.game.score))
        &&& a1.best_score == if a1.game.score > a0.best_score {
            a1.game.score
        } else {
            a0.best_score
        }
        &&& a1.hint is None
        &&& a1.message is None
    } else {
        &&& a1.game == a0.game
        &&& a1.history@ == a0.history@
        &&& a1.best_score == a0.best_score
        &&& a1.hint == a0.hint
        &&& shows(a1, illegal_move_text(dir))
    }
}

/// `a1` is `a0` after `undo()`.
pub open spec fn after_undo(a0: App, a1: App) -> bool {
    &&& same_settings(a0, a1)
    &&& a1.best_score == a0.best_score
    &&& a1.game.moves == a0.game.moves
    &&& a1.game.rng == a0.game.rng
    &&& if a0.history.len() > 0 {
        &&& a1.game.board == a0.history@.last().0
        &&& a1.game.score == a0.history@.last().1
        &&& a1.history@ == a0.history@.drop_last()
        &&& a1.hint is None
        &&& shows(a1, "Undone"@)
    } else {
        &&& a1.game == a0.game
        &&& a1.history@ == a0.history@
        &&& a1.hint == a0.hint
        &&& shows(a1, "Nothing to undo"@)
    }
}

/// `a1` is `a0` after `reset()`: a new game from the same seed (on the board
/// that `Game::new(a0.seed)` starts from, with its generator just past the
/// first draw), an empty history and no hint.
pub open spec fn after_reset(a0: App, a1: App) -> bool {
    &&& same_settings(a0, a1)
    &&& fresh_game(a1.game, a0.seed)
    &&& a1.best_score == a0.best_score
    &&& a1.history@ == Seq::<(Board, Score)>::empty()
    &&& a1.hint is None
    &&& shows(a1, "Game reset"@)
}

/// `a1` is `a0` after `toggle_auto()`: the other mode and no hint.
pub open spec fn after_toggle(a0: App, a1: App) -> bool {
    &&& a1.mode == match a0.mode {
        Mode::Human => Mode::Auto,
        Mode::Auto => Mode::Human,
    }
    &&& a1.hint is None
    &&& a1.game == a0.game
    &&& a1.history@ == a0.history@
    &&& a1.best_score == a0.best_score
    &&& a1.message == a0.message
    &&& a1.seed == a0.seed
    &&& a1.win_tile_exp == a0.win_tile_exp
}

/// What the user asked for with a key or the terminal with an event.
#[derive(Clone, Copy, Debug, PartialEq, Eq, Structural)]
pub enum Action {
    /// No action needed.
    Idle,
    /// Quit the application.
    Quit,
    /// Move in the given direction.
    Move(Direction),
    /// Request an AI hint.
    RequestHint,
    /// Undo the last move.
    Undo,
    /// Reset the game.
    Reset,
    /// Toggle autoplay mode.
    ToggleAuto,
    /// The terminal was resized; redraw with the new dimensions.
    Resize,
}

/// A key the user pressed, as far as the controls tell keys apart.
#[derive(Clone, Copy, Debug, PartialEq, Eq, Structural)]
pub enum Key {
    /// A printable character.
    Char(char),
    /// The left arrow.
    Left,
    /// The right arrow.
    Right,
    /// The up arrow.
    Up,
    /// The down arrow.
    Down,
    /// The escape key.
    Esc,
    /// Any other key.
    Other,
}

/// An event from the terminal.
#[derive(Clone, Copy, Debug, PartialEq, Eq, Structural)]
pub enum InputEvent {
    /// The terminal was resized.
    Resize,
    /// A key was pressed.
    Key(Key),
    /// Anything else (mouse, focus, paste).
    Other,
}

/// The controls: arrows move, `H` asks for a hint, `A` toggles autoplay,
/// `u` undoes, `r` resets, `q` or Esc quits; every other key does nothing.
pub open spec fn key_action(key: Key) -> Action {
    match key {
        Key::Char('q') | Key::Esc => Action::Quit,
        Key::Left => Action::Move(Direction::Left),
        Key::Right => Action::Move(Direction::Right),
        Key::Up => Action::Move(Direction::Up),
        Key::Down => Action::Move(Direction::Down),
        Key::Char('H') => Action::RequestHint,
        Key::Char('A') => Action::ToggleAuto,
        Key::Char('u') => Action::Undo,
        Key::Char('r') => Action::Reset,
        _ => Action::Idle,
    }
}

/// What a terminal event asks for: a resize redraws, a key goes by the controls,
/// anything else is ignored.
pub open spec fn event_action(ev: InputEvent) -> Action {
    match ev {
        InputEvent::Resize => Action::Resize,
        InputEvent::Key(k) => key_action(k),
        InputEvent::Other => Action::Idle,
    }
}

/// The action a key asks for, by the controls.
pub fn action_for_key(key: Key) -> (a: Action)
    ensures
        a == key_action(key),
{
    match key {
        Key::Char('q') | Key::Esc => Action::Quit,
        Key::Left => Action::Move(Direction::Left),
        Key::Right => Action::Move(Direction::Right),
        Key::Up => Action::Move(Direction::Up),
        Key::Down => Action::Move(Direction::Down),
        Key::Char('H') => Action::RequestHint,
        Key::Char('A') => Action::ToggleAuto,
        Key::Char('u') => Action::Undo,
        Key::Char('r') => Action::Reset,
        _ => Action::Idle,
    }
}

/// The action a terminal event asks for.
pub fn action_for_event(ev: InputEvent) -> (a: Action)
    ensures
        a == event_action(ev),
{
    match ev {
        InputEvent::Resize => Action::Resize,
        InputEvent::Key(k) => action_for_key(k),
        InputEvent::Other => Action::Idle,
    }
}

/// What the event loop does next after an action.
#[derive(Clone, Copy, Debug, PartialEq, Eq, Structural)]
pub enum LoopStep {
    /// Go on with the next frame.
    Continue,
    /// Leave the loop.
    Quit,
    /// Resize the terminal, then go on.
    Resize,
    /// Run the search and store its hint, then go on.
    NeedHint,
}

/// The message for an illegal move in `dir`.
fn illegal_move_message(dir: Direction) -> (m: String)
    ensures
        m@ == illegal_move_text(dir),
{
    match dir {
        Direction::Up => "Illegal move: Up".to_owned(),
        Direction::Down => "Illegal move: Down".to_owned(),
        Direction::Left => "Illegal move: Left".to_owned(),
        Direction::Right => "Illegal move: Right".to_owned(),
    }
}

/// The winning tile given as a value, as the exponent that `App` keeps: the
/// largest `e` with `2^e <= value` (so 2048 gives 11, and 3000 also gives 11).
pub fn win_tile_exponent(value: u32) -> (e: u8)
    requires
        value > 0,
    ensures
        e < 32,
        pow2(e as nat) <= value < pow2(e as nat + 1),
{
    let mut v: u32 = value;
    let mut e: u8 = 0;
    proof {
        assert(pow2(0) == 1) by { lemma2_to64(); }
    }
    while v > 1
        invariant
            1 <= v <= value,
            e <= 31,
            v * pow2(e as nat) <= value < (v + 1) * pow2(e as nat),
        decreases v,
    {
        let ghost p = pow2(e as nat);
        proof {
            lemma_pow2_pos(e as nat);
            assert(2 * p <= value) by (nonlinear_arith)
                requires v >= 2, p > 0, v * p <= value;
            if e >= 31 {
                lemma2_to64();
                if e > 31 {
                    lemma_pow2_strictly_increases(31, e as nat);
                }
                assert(false);
            }
            lemma_pow2_unfold(e as nat + 1);
        }
        let w: u32 = v / 2;
        proof {
            assert(w * pow2(e as nat + 1) <= value < (w + 1) * pow2(e as nat + 1)) by (nonlinear_arith)
                requires
                    pow2(e as nat + 1) == 2 * p,
                    w == v / 2,
                    p > 0,
                    v * p <= value < (v + 1) * p;
        }
        v = w;
        e = e + 1;
    }
    proof {
        lemma_pow2_unfold(e as nat + 1);
    }
    e
}

impl App {
    /// A new `App` with the given seed, starting in human mode.
    /// `win_tile_exp` is the winning tile as a log2 exponent (e.g. 2048 gives
    /// `Some(11)`); `None` disables the win screen.
    pub fn new(seed: u64, win_tile_exp: Option<u8>) -> (app: Self)
        ensures
            fresh_game(app.game, seed),
            app.best_score == 0,
            app.mode == Mode::Human,
            app.hint is None,
            app.history@ == Seq::<(Board, Score)>::empty(),
            app.message is None,
            app.seed == seed,
            app.win_tile_exp == win_tile_exp,
    {
        Self {
            game: Game::new(seed),
            best_score: 0,
            mode: Mode::Human,
            hint: None,
            history: Vec::new(),
            message: None,
            seed,
            win_tile_exp,
        }
    }

    /// Attempt a move in the given direction.
    ///
    /// If legal: pushes the current (board, score) onto the history stack
    /// (dropping the oldest entry when 64 are kept), applies the move, updates the
    /// best score, and clears the hint and message.
    /// If illegal: sets a brief message and does nothing else.
    pub fn try_move(&mut self, dir: Direction)
        requires
            is_legal(old(self).game.board@, dir) ==> old(self).game.score + move_score(
                old(self).game.board@,
                dir,
            ) <= u32::MAX,
            is_legal(old(self).game.board@, dir) ==> old(self).game.moves < u32::MAX,
        ensures
            after_try_move(*old(self), dir, *final(self)),
    {
        // Save state for undo
        let snapshot = (self.game.board, self.game.score);
        match self.game.play(dir) {
            Ok(_) => {
                if self.history.len() >= HISTORY_CAP {
                    self.history.remove(0);
                }
                self.history.push(snapshot);
                if self.game.score > self.best_score {
                    self.best_score = self.game.score;
                }
                self.hint = None;
                self.message = None;
            },
            Err(_) => {
                self.message = Some(illegal_move_message(dir));
            },
        }
    }

    /// Undo the last move, if any history is available.
    pub fn undo(&mut self)
        ensures
            after_undo(*old(self), *final(self)),
    {
        if let Some((board, score)) = self.history.pop() {
            self.game.board = board;
            self.game.score = score;
            self.hint = None;
            self.message = Some("Undone".to_owned());
        } else {
            self.message = Some("Nothing to undo".to_owned());
        }
    }

    /// Reset the game with the same seed, clearing history and hints.
    pub fn reset(&mut self)
        ensures
            after_reset(*old(self), *final(self)),
    {
        self.game = Game::new(self.seed);
        self.history.clear();
        self.hint = None;
        self.message = Some("Game reset".to_owned());
    }

    /// Toggle between Human and Auto mode, clearing the hint.
    pub fn toggle_auto(&mut self)
        ensures
            after_toggle(*old(self), *final(self)),
    {
        self.mode = match self.mode {
            Mode::Human => Mode::Auto,
            Mode::Auto => Mode::Human,
        };
        self.hint = None;
    }

    /// Apply an action: a move is played only in human mode (autoplay ignores
    /// manual moves); undo, reset and the mode toggle act on the state; quitting,
    /// resizing and hint requests are left to the event loop.
    pub fn apply_action(&mut self, action: Action) -> (step: LoopStep)
        requires
            action matches Action::Move(dir) ==> old(self).mode == Mode::Human && is_legal(
                old(self).game.board@,
                dir,
            ) ==> old(self).game.score + move_score(old(self).game.board@, dir) <= u32::MAX
                && old(self).game.moves < u32::MAX,
        ensures
            step == match action {
                Action::Quit => LoopStep::Quit,
                Action::Resize => LoopStep::Resize,
                Action::RequestHint => LoopStep::NeedHint,
                _ => LoopStep::Continue,
            },
            match action {
                Action::Move(dir) => if old(self).mode == Mode::Human {
                    after_try_move(*old(self), dir, *final(self))
                } else {
                    *final(self) == *old(self)
                },
                Action::Undo => after_undo(*old(self), *final(self)),
                Action::Reset => after_reset(*old(self), *final(self)),
                Action::ToggleAuto => after_toggle(*old(self), *final(self)),
                _ => *final(self) == *old(self),
            },
    {
        match action {
            Action::Quit => LoopStep::Quit,
            Action::Resize => LoopStep::Resize,
            Action::Move(dir) => {
                if self.mode == Mode::Human {
                    self.try_move(dir);
                }
                LoopStep::Continue
            },
            Action::RequestHint => LoopStep::NeedHint,
            Action::ToggleAuto => {
                self.toggle_auto();
                LoopStep::Continue
            },
            Action::Undo => {
                self.undo();
                LoopStep::Continue
            },
            Action::Reset => {
                self.reset();
                LoopStep::Continue
            },
            Action::Idle => LoopStep::Continue,
        }
    }

    /// Autoplay takes a step when it is on and the game is neither over nor won.
    pub fn autoplay_due(&self) -> (due: bool)
        ensures
            due == (self.mode == Mode::Auto && has_legal_move(self.game.board@) && !(
            self.win_tile_exp matches Some(target) && max_upto(self.game.board@, 16) >= target)),
    {
        self.mode == Mode::Auto && !self.is_game_over() && !self.is_game_won()
    }

    /// Store a computed hint and clear any transient message.
    pub fn set_hint(&mut self, hint: HintInfo)
        ensures
            final(self).hint == Some(hint),
            final(self).message is None,
            final(self).game == old(self).game,
            final(self).history@ == old(self).history@,
            final(self).best_score == old(self).best_score,
            same_settings(*old(self), *final(self)),
    {
        self.hint = Some(hint);
        self.message = None;
    }

    /// `true` if the current game is in a terminal state (no move changes the
    /// board).
    pub fn is_game_over(&self) -> (r: bool)
        ensures
            r == !has_legal_move(self.game.board@),
    {
        !self.game.board.has_moves()
    }

    /// `true` if the player has reached (or exceeded) the winning tile; `false`
    /// if no win condition is configured.
    pub fn is_game_won(&self) -> (r: bool)
        ensures
            r == (self.win_tile_exp matches Some(target) && max_upto(self.game.board@, 16) >= target),
            r == (self.win_tile_exp matches Some(target) && exists|i: int|
                0 <= i < 16 && #[trigger] self.game.board@[i] >= target),
    {
        if let Some(target_exp) = self.win_tile_exp {
            let m = self.game.board.max_cell();
            proof {
                if m < target_exp {
                    assert forall|i: int| 0 <= i < 16 implies !(#[trigger] self.game.board@[i]
                        >= target_exp) by {
                        assert(self.game.board@[i] <= m);
                    }
                }
            }
            m >= target_exp
        } else {
            false
        }
    }

    /// The configured winning tile as its value (e.g. 11 gives 2048).
    pub fn win_tile_value(&self) -> (v: Option<u32>)
        requires
            self.win_tile_exp matches Some(e) ==> e < 32,
        ensures
            v == match self.win_tile_exp {
                Some(e) => Some(vstd::arithmetic::power2::pow2(e as nat) as u32),
                None => None,
            },
    {
        match self.win_tile_exp {
            Some(exp) => {
                proof {
                    vstd::bits::lemma_u32_pow2_no_overflow(exp as nat);
                    vstd::bits::lemma_u32_shl_is_mul(1u32, exp as u32);
                }
                Some(1u32 << exp)
            },
            None => None,
        }
    }
}

/// Undoing a legal move restores the board and the score from before it; when
/// fewer than 64 entries were kept, the history is back as it was too. An
/// illegal move followed by an undo takes back the move before it, if any.
pub proof fn lemma_undo_restores(a0: App, dir: Direction, a1: App, a2: App)
    requires
        after_try_move(a0, dir, a1),
        is_legal(a0.game.board@, dir),
        after_undo(a1, a2),
    ensures
        a2.game.board == a0.game.board,
        a2.game.score == a0.game.score,
        a0.history.len() < HISTORY_CAP ==> a2.history@ == a0.history@,
        a2.hint is None,
        shows(a2, "Undone"@),
{
    if a0.history.len() < HISTORY_CAP {
        assert(a1.history@.drop_last() =~= a0.history@);
    }
}

/// With nothing to undo, an undo changes only the message, which becomes
/// "Nothing to undo".
pub proof fn lemma_undo_empty_only_tells(a0: App, a1: App)
    requires
        a0.history.len() == 0,
        after_undo(a0, a1),
    ensures
        a1.game == a0.game,
        a1.best_score == a0.best_score,
        a1.mode == a0.mode,
        a1.hint == a0.hint,
        a1.history@ == a0.history@,
        a1.seed == a0.seed,
        a1.win_tile_exp == a0.win_tile_exp,
        shows(a1, "Nothing to undo"@),
{
}

/// The undo entry that a move records: the board and score before it.
pub open spec fn snapshot(a: App) -> (Board, Score) {
    (a.game.board, a.game.score)
}

/// The snapshots of the states before the last `min(k, 64)` of the first `k`
/// moves along `apps`, oldest first.
pub open spec fn recent_snapshots(apps: Seq<App>, k: int) -> Seq<(Board, Score)> {
    let m = if k < HISTORY_CAP { k } else { HISTORY_CAP as int };
    Seq::new(m as nat, |i: int| snapshot(apps[k - m + i]))
}

/// The undo history keeps the most recent states: starting from an empty history,
/// after `k` legal moves it holds the states before the last `min(k, 64)` of them,
/// oldest first, so successive undos give back the states before moves `k`,
/// `k - 1`, ... in turn, and the oldest state is the one dropped when it is full.
pub proof fn lemma_history_keeps_recent(apps: Seq<App>, dirs: Seq<Direction>, k: int)
    requires
        apps.len() == dirs.len() + 1,
        apps[0].history.len() == 0,
        forall|j: int|
            0 <= j < dirs.len() ==> #[trigger] after_try_move(apps[j], dirs[j], apps[j + 1]),
        forall|j: int| 0 <= j < dirs.len() ==> #[trigger] is_legal(apps[j].game.board@, dirs[j]),
        0 <= k <= dirs.len(),
    ensures
        apps[k].history@ == recent_snapshots(apps, k),
    decreases k,
{
    if k == 0 {
        assert(apps[0].history@ =~= recent_snapshots(apps, 0));
    } else {
        let j = k - 1;
        lemma_history_keeps_recent(apps, dirs, j);
        assert(after_try_move(apps[j], dirs[j], apps[j + 1]));
        assert(is_legal(apps[j].game.board@, dirs[j]));
        assert(j + 1 == k);
        assert(apps[k].history@ =~= recent_snapshots(apps, k));
    }
}

/// The undo stack never holds more than 64 entries: a move keeps a stack of at
/// most 64 entries within 64, and an illegal move or an undo never grows it.
pub proof fn lemma_history_capped(a0: App, dir: Direction, a1: App, a2: App)
    requires
        a0.history.len() <= HISTORY_CAP,
        after_try_move(a0, dir, a1),
        after_undo(a0, a2),
    ensures
        a1.history.len() <= HISTORY_CAP,
        a2.history.len() <= a0.history.len(),
{
}

/// A reset starts the game over exactly as a new game from the same seed does:
/// the same board, zero score and moves, and a generator at the same place, so
/// the same moves then give the same spawns.
pub proof fn lemma_reset_restarts(a0: App, a1: App, g: Game)
    requires
        after_reset(a0, a1),
        fresh_game(g, a0.seed),
    ensures
        same_position(a1.game, g),
{
    lemma_same_seed_same_start(a0.seed, a1.game, g);
}

} // verus!
