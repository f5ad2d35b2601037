# half2k

A chess engine whose search, evaluation, move rules and protocol handling are
verified with Verus.

- `src/` is the library. `position`, `movegen`, `see` and `board` hold the rules
  of the game; `nnue` the network that scores a position; `tt`, `lore`, `trail`,
  `histories`, `rank`, `order` and `drain` what the search remembers and the
  order in which it tries moves; `node`, `tree` and `reftree` say what the two searches
  compute, and `quiesce`, `negamax`, `refsearch` and `deepen` compute it;
  `clock` shares out the time; `fen` and `uci` read what the protocol sends, and
  `session` says what each line changes and what it asks to be done.
- `tests/` runs the library on concrete positions.
- `app/` is the program: standard input and output, files, and the formulas
  that need floating point.

The functions whose names start with `law_` state what holds of the library as
a whole.
