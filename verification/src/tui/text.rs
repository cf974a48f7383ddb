//! Text shown in the info panel.
use vstd::prelude::*;
use vstd::string::StringExecFns;
use crate::board::bitboard::Direction;
use crate::tui::app::{App, HintInfo, Mode};
use crate::board::bitboard::{has_legal_move, max_upto};

verus! {

/// The character of a decimal digit.
pub open spec fn digit_char(d: nat) -> char {
    if d == 0 {
        '0'
    } else if d == 1 {
        '1'
    } else if d == 2 {
        '2'
    } else if d == 3 {
        '3'
    } else if d == 4 {
        '4'
    } else if d == 5 {
        '5'
    } else if d == 6 {
        '6'
    } else if d == 7 {
        '7'
    } else if d == 8 {
        '8'
    } else {
        '9'
    }
}

/// The decimal notation of `n`, without leading zeros.
pub open spec fn decimal(n: nat) -> Seq<char>
    decreases n,
{
    if n < 10 {
        seq![digit_char(n)]
    } else {
        decimal(n / 10).push(digit_char(n % 10))
    }
}

/// The name of a direction.
pub open spec fn direction_name(dir: Direction) -> Seq<char> {
    match dir {
        Direction::Up => "Up"@,
        Direction::Down => "Down"@,
        Direction::Left => "Left"@,
        Direction::Right => "Right"@,
    }
}

/// The hint line: the suggested direction with the depth it was found at, a
/// note that no move is possible, or a placeholder.
pub open spec fn hint_line(hint: Option<HintInfo>) -> Seq<char> {
    match hint {
        None => "--"@,
        Some(HintInfo::Move { dir, depth }) => direction_name(dir) + " (d"@ + decimal(depth as nat)
            + ")"@,
        Some(HintInfo::NoMoves) => "No moves possible"@,
    }
}

/// The text of a decimal digit.
fn digit_text(d: u8) -> (s: &'static str)
    requires
        d < 10,
    ensures
        s@ == seq![digit_char(d as nat)],
{
    proof {
        reveal_strlit("0");
        reveal_strlit("1");
        reveal_strlit("2");
        reveal_strlit("3");
        reveal_strlit("4");
        reveal_strlit("5");
        reveal_strlit("6");
        reveal_strlit("7");
        reveal_strlit("8");
        reveal_strlit("9");
    }
    match d {
        0 => "0",
        1 => "1",
        2 => "2",
        3 => "3",
        4 => "4",
        5 => "5",
        6 => "6",
        7 => "7",
        8 => "8",
        _ => "9",
    }
}

/// Append the decimal notation of `n` to `s`.
fn push_decimal(s: &mut String, n: u64)
    ensures
        final(s)@ == old(s)@ + decimal(n as nat),
    decreases n,
{
    if n >= 10 {
        push_decimal(s, n / 10);
    }
    s.append(digit_text((n % 10) as u8));
    proof {
        assert(final(s)@ =~= old(s)@ + decimal(n as nat));
    }
}

/// The name of a direction, as text.
fn direction_text(dir: Direction) -> (s: &'static str)
    ensures
        s@ == direction_name(dir),
{
    match dir {
        Direction::Up => "Up",
        Direction::Down => "Down",
        Direction::Left => "Left",
        Direction::Right => "Right",
    }
}

/// Format the current hint as a display string (or placeholder).
pub fn hint_text(hint: &Option<HintInfo>) -> (text: String)
    ensures
        text@ == hint_line(*hint),
{
    match hint {
        None => "--".to_owned(),
        Some(HintInfo::Move { dir, depth }) => {
            let mut s = direction_text(*dir).to_owned();
            s.append(" (d");
            push_decimal(&mut s, *depth as u64);
            s.append(")");
            s
        },
        Some(HintInfo::NoMoves) => "No moves possible".to_owned(),
    }
}

/// The status lines of the info panel: the win message with the winning tile
/// (2048 if none is configured), or the game-over message, each followed by a
/// request to restart; nothing while the game goes on.
pub open spec fn status_lines(won: bool, over: bool, win_tile: u32) -> Seq<Seq<char>> {
    if won {
        seq![" Game won at "@ + decimal(win_tile as nat) + "!"@, " Please restart."@]
    } else if over {
        seq![" Game over."@, " Please restart."@]
    } else {
        Seq::empty()
    }
}

/// The status lines for the state of `app`.
pub fn status_text(app: &App) -> (lines: Vec<String>)
    requires
        app.win_tile_exp matches Some(e) ==> e < 32,
    ensures
        lines@.map_values(|l: String| l@) == status_lines(
            app.win_tile_exp matches Some(target) && max_upto(app.game.board@, 16) >= target,
            !has_legal_move(app.game.board@),
            match app.win_tile_exp {
                Some(e) => vstd::arithmetic::power2::pow2(e as nat) as u32,
                None => 2048u32,
            },
        ),
{
    let mut lines: Vec<String> = Vec::new();
    if app.is_game_won() {
        let win_tile = match app.win_tile_value() {
            Some(v) => v,
            None => 2048,
        };
        let mut first = " Game won at ".to_owned();
        push_decimal(&mut first, win_tile as u64);
        first.append("!");
        lines.push(first);
        lines.push(" Please restart.".to_owned());
    } else if app.is_game_over() {
        lines.push(" Game over.".to_owned());
        lines.push(" Please restart.".to_owned());
    }
    proof {
        assert(lines@.map_values(|l: String| l@) =~= status_lines(
            app.win_tile_exp matches Some(target) && max_upto(app.game.board@, 16) >= target,
            !has_legal_move(app.game.board@),
            match app.win_tile_exp {
                Some(e) => vstd::arithmetic::power2::pow2(e as nat) as u32,
                None => 2048u32,
            },
        ));
    }
    lines
}

/// The name of a play mode.
pub open spec fn mode_name(mode: Mode) -> Seq<char> {
    match mode {
        Mode::Human => "Human"@,
        Mode::Auto => "Auto"@,
    }
}

/// The info panel's closing lines before the status lines: a blank separator
/// when there is a message or a status to show, then the message, indented by
/// one space.
pub open spec fn message_lines(message: Option<String>, has_status: bool) -> Seq<Seq<char>> {
    let sep: Seq<Seq<char>> = if message is Some || has_status {
        seq![""@]
    } else {
        Seq::empty()
    };
    match message {
        Some(m) => sep.push(" "@ + m@),
        None => sep,
    }
}

/// The separator and message lines of the info panel (see `message_lines`).
pub fn message_text(message: &Option<String>, has_status: bool) -> (lines: Vec<String>)
    ensures
        lines@.map_values(|l: String| l@) == message_lines(*message, has_status),
{
    let mut lines: Vec<String> = Vec::new();
    if message.is_some() || has_status {
        lines.push("".to_owned());
    }
    if let Some(m) = message {
        let mut line = " ".to_owned();
        line.append(m.as_str());
        lines.push(line);
    }
    assert(lines@.map_values(|l: String| l@) =~= message_lines(*message, has_status));
    lines
}

/// The tag that the title shows after the seed: empty in human mode.
pub open spec fn mode_tag(mode: Mode) -> Seq<char> {
    match mode {
        Mode::Human => ""@,
        Mode::Auto => "  [AUTO]"@,
    }
}

/// The title line: the game's name, its seed and the autoplay tag.
pub open spec fn title_line(seed: u64, mode: Mode) -> Seq<char> {
    " 2048  seed: "@ + decimal(seed as nat) + " "@ + mode_tag(mode) + " "@
}

/// The title line for a game with `seed` played in `mode`.
pub fn title_text(seed: u64, mode: Mode) -> (title: String)
    ensures
        title@ == title_line(seed, mode),
{
    let mut title = " 2048  seed: ".to_owned();
    push_decimal(&mut title, seed);
    title.append(" ");
    match mode {
        Mode::Human => title.append(""),
        Mode::Auto => title.append("  [AUTO]"),
    }
    title.append(" ");
    title
}

/// The info panel's lines for the score, the best score, the move count, the
/// mode and the hint, in that order.
pub open spec fn info_lines(app: App) -> Seq<Seq<char>> {
    seq![
        " Score: "@ + decimal(app.game.score as nat),
        " Best:  "@ + decimal(app.best_score as nat),
        " Moves: "@ + decimal(app.game.moves as nat),
        " Mode:  "@ + mode_name(app.mode),
        " Hint:  "@ + hint_line(app.hint),
    ]
}

/// `prefix` followed by the decimal notation of `n`.
fn labelled_number(prefix: &str, n: u32) -> (s: String)
    ensures
        s@ == prefix@ + decimal(n as nat),
{
    let mut s = prefix.to_owned();
    push_decimal(&mut s, n as u64);
    s
}

/// The info panel's lines for the score, the best score, the move count, the
/// mode and the hint.
pub fn info_text(app: &App) -> (lines: Vec<String>)
    ensures
        lines@.map_values(|l: String| l@) == info_lines(*app),
{
    let mut lines: Vec<String> = Vec::new();
    lines.push(labelled_number(" Score: ", app.game.score));
    lines.push(labelled_number(" Best:  ", app.best_score));
    lines.push(labelled_number(" Moves: ", app.game.moves));
    let mut mode = " Mode:  ".to_owned();
    match app.mode {
        Mode::Human => mode.append("Human"),
        Mode::Auto => mode.append("Auto"),
    }
    lines.push(mode);
    let mut hint = " Hint:  ".to_owned();
    hint.append(hint_text(&app.hint).as_str());
    lines.push(hint);
    assert(lines@.map_values(|l: String| l@) =~= info_lines(*app));
    lines
}

} // verus!
