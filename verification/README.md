# ruversi

A reversi (othello) engine. The board logic, the notations it reads and
writes, the game records, the command line, the text protocols (GTP and the
Othello Engine Protocol) and the readers of other engines' output form a
library whose behaviour is stated in `requires` / `ensures` contracts and
proved with Verus.

## Layout

- `src/` — the verified library.
  - `bits`, `bitboard`, `fixed`, `properties`: the bit board, move
    generation, flips, stable stones, and laws about moves.
  - `notation`, `roundtrip`: RFEN and OBF texts, with the proof that reading
    back a written RFEN gives the same position.
  - `kifu`, `kifu_laws`: game records and their lines.
  - `game`, `openings`, `display`: playing a game step by step, listing the
    positions two moves after a set of positions, drawing the board.
  - `initialpos`, `lexorder`: the file of start positions and its sorted,
    deduplicated selections.
  - `myoption`, `text`: the command line and the text helpers it needs.
  - `gtprotocol`, `cassio`: the two text protocols as state machines.
  - `edaxrunner`, `engine_output`: other engines' configuration and answers.
  - `duelresult`, `weight`, `extractrfen`, `shnode`: duel tallies, evaluation
    file headers, move counting and move ordering.
- `tests/` — tests run against the compiled library.
- `app/` — the program: file and process I/O, the keyboard, the protocol
  loops, and the floating-point evaluation and search.
