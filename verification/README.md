# twenty48

A terminal 2048 game with an expectimax AI. The game logic is a Verus library
whose functions carry contracts proved by Verus; a thin binary drives the
terminal UI and runs the AI search.

The board is a `u64` of 16 nibbles (log2 tile values): cell `(r, c)` sits at bit
`4 * (4r + c)`. Its model is the sequence of the 16 cells in row-major order.

## Layout

- `src/board/tables.rs`: the row model (compact, merge once, pad), the row moves
  and the 65536-entry row tables, with the conservation of tile value by a move.
- `src/board/bitboard.rs`: cell and row access, transpose, empty cells, the move
  engine (`slide`, `slide_with` on the tables, `has_moves`, `legal_moves`) and
  the laws on them (moves keep the tile value, a legal move leaves an empty cell,
  transposing twice is the identity, the legal-move list is complete).
- `src/game/`: the seeded generator (`rand_chacha::ChaCha8Rng` kept with its
  seed and stream position as `SeededRng`, behind small trusted wrappers that
  name each draw as a function of seed and position), tile spawning and the
  `Game` state with `play`; a game is a function of its seed and its moves.
- `src/ai/`: the exact integer board evaluation (empty-cell utility plus the
  best of eight snake orientations, invariant under the symmetries of the
  square) and the search result type.
- `src/tui/`: the application state machine (moves, undo, reset, hints), the
  key controls, the panel and title texts and the tile colors.
- `app/`: the binary: command line, terminal drawing with ratatui and
  crossterm, and the expectimax search, which computes in floating point.
- `tests/`: the test suite.

## Running

```bash
cargo run --release -- --seed 42 --win-tile 2048
```

Keys: arrows move, `H` asks for a hint, `A` toggles autoplay, `u` undoes, `r`
resets, `q` or Esc quits (`tui::app::action_for_key`).
