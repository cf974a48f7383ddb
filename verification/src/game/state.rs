//! Game state, rules and move application.
use vstd::prelude::*;
use crate::board::bitboard::{Board, Direction, Score, is_legal, moved_cells, move_score, nibble, empty_count, empty_positions};
use super::rng::{SeededRng, draw_u64, first_draw, u64_draw};
use super::spawn::spawn_draws;
use super::spawn::spawn as do_spawn;

verus! {

/// Returned when an illegal move direction is attempted.
#[derive(Debug)]
pub struct IllegalMove;

/// Full game state: board, cumulative score, move count and seeded generator.
///
/// All randomness is derived from the seed given at construction time.
#[derive(Clone, Debug)]
pub struct Game {
    /// Current board state.
    pub board: Board,
    /// Cumulative score.
    pub score: Score,
    /// Number of successful moves played.
    pub moves: u32,
    /// The generator that every spawn of this game draws from.
    pub rng: SeededRng,
}

/// The starting board that a 64-bit draw gives: cell `i` holds the lowest bit of
/// nibble `i` of the draw (0 = empty, 1 = tile 2).
pub open spec fn starting_cells(draw: u64) -> Seq<u8> {
    Seq::new(16, |i: int| nibble(draw, i) % 2)
}

/// The starting board for a draw: keep only the lowest bit of each nibble.
pub fn initial_board(draw: u64) -> (b: Board)
    ensures
        b@ == starting_cells(draw),
{
    let b = Board(draw & 0x1111_1111_1111_1111_u64);
    proof {
        assert forall|i: int| 0 <= i < 16 implies #[trigger] b@[i] == starting_cells(draw)[i] by {
            let k = i as u64;
            assert(((4 * i) as u64) == 4 * k);
            assert(((draw & 0x1111_1111_1111_1111u64) >> (4 * k)) & 0xF == ((draw >> (4 * k)) & 0xF)
                % 2) by (bit_vector)
                requires
                    k < 16,
            ;
            assert((draw >> (4 * k)) & 0xF <= 15) by (bit_vector);
            let e = (draw >> (4 * k)) & 0xF;
            assert(nibble(draw, i) == e as u8);
            assert((e as u8) % 2 == (e % 2) as u8);
        }
        assert(b@ =~= starting_cells(draw));
    }
    b
}

/// `g` is a new game from `seed`: zero score and moves, the board that the
/// generator's first draw gives, and the generator just past that draw.
pub open spec fn fresh_game(g: Game, seed: u64) -> bool {
    &&& g.score == 0
    &&& g.moves == 0
    &&& g.board@ == starting_cells(first_draw(seed))
    &&& g.rng.seed() == seed
    &&& g.rng.pos() == u64_draw(seed, 0).1
}

/// `g1` is `g0` after a legal move in `dir`: the move's score is added, the move
/// counter grows by one, and the board is the moved board with a tile spawned on
/// one of its empty cells, the cell and the tile being those that the game's
/// generator draws next (`spawn_draws`).
pub open spec fn played(g0: Game, dir: Direction, g1: Game) -> bool {
    let moved = moved_cells(g0.board@, dir);
    let d = spawn_draws(g0.rng.seed(), g0.rng.pos(), empty_count(moved));
    let cell = empty_positions(moved, 16)[d.0];
    &&& g1.score == g0.score + move_score(g0.board@, dir)
    &&& g1.moves == g0.moves + 1
    &&& 0 <= d.0 < empty_count(moved)
    &&& moved[4 * cell.0 + cell.1] == 0
    &&& g1.board@ == moved.update(4 * cell.0 + cell.1, if d.1 { 1u8 } else { 2u8 })
    &&& g1.rng.seed() == g0.rng.seed()
    &&& g1.rng.pos() == d.2
}

/// Two games stand at the same point: the same board, score and move count, and
/// generators from the same seed read equally far.
pub open spec fn same_position(g1: Game, g2: Game) -> bool {
    &&& g1.board == g2.board
    &&& g1.score == g2.score
    &&& g1.moves == g2.moves
    &&& g1.rng.seed() == g2.rng.seed()
    &&& g1.rng.pos() == g2.rng.pos()
}

/// `g1` is `g0` after `play(dir)`: the move and its spawn when `dir` is legal,
/// nothing otherwise.
pub open spec fn stepped(g0: Game, dir: Direction, g1: Game) -> bool {
    if is_legal(g0.board@, dir) {
        played(g0, dir, g1)
    } else {
        g1 == g0
    }
}

impl Game {
    /// A new game with the given seed: the score and move count are zero, and
    /// each of the 16 cells starts empty or with a tile 2, as the lowest bit of
    /// its nibble in the generator's first draw says.
    pub fn new(seed: u64) -> (g: Self)
        ensures
            fresh_game(g, seed),
    {
        let mut rng = SeededRng::seed_from_u64(seed);
        let draw = draw_u64(&mut rng);
        let board = initial_board(draw);
        Self { board, score: 0, moves: 0, rng }
    }

    /// Apply `dir` to the current board.
    ///
    /// On success: applies the move, updates the score and move counter, and
    /// spawns a new tile on an empty cell (a legal move always leaves one).
    /// On an illegal move: returns `Err(IllegalMove)` and changes nothing.
    pub fn play(&mut self, dir: Direction) -> (res: Result<(), IllegalMove>)
        requires
            is_legal(old(self).board@, dir) ==> old(self).score + move_score(old(self).board@, dir)
                <= u32::MAX,
            is_legal(old(self).board@, dir) ==> old(self).moves < u32::MAX,
        ensures
            res is Err <==> !is_legal(old(self).board@, dir),
            res is Err ==> *final(self) == *old(self),
            res is Ok ==> played(*old(self), dir, *final(self)),
            res is Ok ==> final(self).score == old(self).score + move_score(old(self).board@, dir),
            res is Ok ==> final(self).moves == old(self).moves + 1,
            stepped(*old(self), dir, *final(self)),
    {
        match self.board.slide(dir) {
            None => Err(IllegalMove),
            Some((new_board, score_gained)) => {
                self.board = new_board;
                self.score += score_gained;
                self.moves += 1;
                // Spawn a new tile
                let spawned = do_spawn(self.board, &mut self.rng);
                proof {
                    let v = new_board@;
                    if spawned is None {
                        assert(crate::board::bitboard::empty_count(v) == 0);
                        lemma_no_zero(v);
                        crate::board::bitboard::lemma_view_nibbles(old(self).board);
                        crate::board::bitboard::lemma_legal_move_leaves_empty(old(self).board@, dir);
                    }
                }
                if let Some((b, pos, value)) = spawned {
                    self.board = b;
                    proof {
                        let i = 4 * pos.0 + pos.1;
                        assert(new_board@.update(i as int, value) == self.board@);
                    }
                }
                Ok(())
            },
        }
    }
}

/// A sequence without empty cells holds no 0.
proof fn lemma_no_zero(v: Seq<u8>)
    requires
        v.filter(|x: u8| x == 0).len() == 0,
    ensures
        !v.contains(0u8),
{
    if v.contains(0u8) {
        let i = choose|i: int| 0 <= i < v.len() && v[i] == 0u8;
        v.lemma_filter_contains(|x: u8| x == 0, i);
    }
}

/// What `play(dir)` adds to the score of `g`: the score of the move when it is
/// legal, nothing otherwise.
pub open spec fn gain(g: Game, dir: Direction) -> nat {
    if is_legal(g.board@, dir) {
        move_score(g.board@, dir)
    } else {
        0
    }
}

/// The scores of the first `n` plays of `dirs`, started from `games[0]`.
pub open spec fn total_gain(games: Seq<Game>, dirs: Seq<Direction>, n: int) -> int
    decreases n,
{
    if n <= 0 {
        0
    } else {
        total_gain(games, dirs, n - 1) + gain(games[n - 1], dirs[n - 1])
    }
}

/// The number of legal moves among the first `n` plays of `dirs`.
pub open spec fn legal_count(games: Seq<Game>, dirs: Seq<Direction>, n: int) -> int
    decreases n,
{
    if n <= 0 {
        0
    } else {
        legal_count(games, dirs, n - 1) + if is_legal(games[n - 1].board@, dirs[n - 1]) {
            1int
        } else {
            0int
        }
    }
}

/// The score is cumulative: after any number of plays it is the score before
/// them plus the scores of the legal moves among them, and the move counter has
/// grown by the number of those moves.
pub proof fn lemma_score_accumulates(dirs: Seq<Direction>, games: Seq<Game>, n: int)
    requires
        games.len() == dirs.len() + 1,
        forall|k: int| 0 <= k < dirs.len() ==> #[trigger] stepped(games[k], dirs[k], games[k + 1]),
        0 <= n <= dirs.len(),
    ensures
        games[n].score == games[0].score + total_gain(games, dirs, n),
        games[n].moves == games[0].moves + legal_count(games, dirs, n),
    decreases n,
{
    if n > 0 {
        let k = n - 1;
        lemma_score_accumulates(dirs, games, k);
        assert(stepped(games[k], dirs[k], games[k + 1]));
        assert(k + 1 == n);
    }
}

/// Two games started from the same seed stand at the same point (the same board,
/// zero score and moves, generators at the same place), and every cell of that
/// board is empty or a tile 2.
pub proof fn lemma_same_seed_same_start(seed: u64, g1: Game, g2: Game)
    requires
        fresh_game(g1, seed),
        fresh_game(g2, seed),
    ensures
        same_position(g1, g2),
        forall|i: int| 0 <= i < 16 ==> #[trigger] g1.board@[i] <= 1,
{
    crate::board::bitboard::lemma_view_injective(g1.board, g2.board);
}

/// Two games at the same point that play the same direction are at the same
/// point again: the move, the spawned cell and tile, and the generator's new
/// position agree.
pub proof fn lemma_same_move_same_game(g1: Game, g2: Game, dir: Direction, h1: Game, h2: Game)
    requires
        same_position(g1, g2),
        stepped(g1, dir, h1),
        stepped(g2, dir, h2),
    ensures
        same_position(h1, h2),
{
    crate::board::bitboard::lemma_view_injective(h1.board, h2.board);
}

/// Equal seeds and equal moves give equal games: two games started from the same
/// seed, each played with the same directions in the same order, stand at the
/// same point after every move.
pub proof fn lemma_same_seed_same_moves(
    seed: u64,
    dirs: Seq<Direction>,
    games1: Seq<Game>,
    games2: Seq<Game>,
)
    requires
        games1.len() == dirs.len() + 1,
        games2.len() == dirs.len() + 1,
        fresh_game(games1[0], seed),
        fresh_game(games2[0], seed),
        forall|k: int| 0 <= k < dirs.len() ==> #[trigger] stepped(games1[k], dirs[k], games1[k + 1]),
        forall|k: int| 0 <= k < dirs.len() ==> #[trigger] stepped(games2[k], dirs[k], games2[k + 1]),
    ensures
        forall|k: int| 0 <= k <= dirs.len() ==> #[trigger] same_position(games1[k], games2[k]),
    decreases dirs.len(),
{
    if dirs.len() == 0 {
        lemma_same_seed_same_start(seed, games1[0], games2[0]);
    } else {
        let n = dirs.len() - 1;
        let d = dirs.drop_last();
        let p1 = games1.drop_last();
        let p2 = games2.drop_last();
        assert forall|k: int| 0 <= k < d.len() implies #[trigger] stepped(p1[k], d[k], p1[k + 1]) by {
            assert(stepped(games1[k], dirs[k], games1[k + 1]));
        }
        assert forall|k: int| 0 <= k < d.len() implies #[trigger] stepped(p2[k], d[k], p2[k + 1]) by {
            assert(stepped(games2[k], dirs[k], games2[k + 1]));
        }
        lemma_same_seed_same_moves(seed, d, p1, p2);
        assert(same_position(p1[n], p2[n]));
        assert(stepped(games1[n], dirs[n], games1[n + 1]));
        assert(stepped(games2[n], dirs[n], games2[n + 1]));
        lemma_same_move_same_game(games1[n], games2[n], dirs[n], games1[n + 1], games2[n + 1]);
        assert forall|k: int| 0 <= k <= dirs.len() implies #[trigger] same_position(games1[k], games2[k]) by {
            if k < dirs.len() {
                assert(same_position(p1[k], p2[k]));
            }
        }
    }
}

} // verus!
