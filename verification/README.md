# monte_cardo

A verified library for a ladder-shedding card game (the family of The Great Dalmuti and
Scum), with a terminal application that plays it against computer players or follows a game
played live at a table and suggests moves.

The library is written in Verus: every function states its behaviour in `requires` /
`ensures` and Verus proves it.

## Layout

- `src/game`: cards, hands, placements, tricks; the rules (legal moves, updating a whole
  game and a player's view of it); dealing a random game; the laws that tie a player's view
  to the game.
- `src/eval`: numbering of actions, rank compression and normalization of a player's view,
  Zobrist hashing, and sampling the possible worlds behind a view.
- `src/world`: random tables with given row and column sums (the deals of unseen cards):
  dealing, greedy and "smart" valid tables, and Markov mixing.
- `src/ui`: everything the screens show and edit, as plain data: settings forms, the live
  setup, the observed-move panel, the view model of a game, texts.
- `src/randomness.rs`: the calls into `rand`, each with its stated contract.
- `app/`: the terminal program (ratatui and crossterm), the Monte Carlo search with its
  floating-point values, and the solver thread. It is ordinary Rust on top of the library.
- `tests/`: tests of the library.
