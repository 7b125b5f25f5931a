# maze_hash

A maze puzzle and its companion string hash, as a Verus-verified library with a thin
command-line front end.

- `src/maze.rs`: headings and turns, and the extent of a maze drawn from a sequence of
  turns (`calculate_maze`).
- `src/sequence.rs`: the sequence of turns drawn from a seed with Java's generator
  (through the `java_random` crate), and its printed form.
- `src/grid.rs`, `src/path.rs`: the fixed grid, and a seeded walk over it cell by cell.
- `src/game.rs`: the interactive maze as a state machine from state and key to next state.
- `src/hasher.rs`: the lazy polynomial hash; `src/unhasher.rs`: the search for strings
  that may have a given hash.
- `src/text.rs`: trimming a line ending, decimal output, reading a `u64`.
- `app/`: terminal drawing, key events, standard input and arguments (`maze [seed]`,
  `hash`, `unhash <hash>`).

## Tests

`tests/` exercises the public functions on concrete values. One check is deliberately absent: `test_reversing`, whose only assertion is that
the sample hash 111111111111111111 lies below 2^48. That number is larger than 2^48
(281474976710656), so the assertion cannot hold, and the check calls no function of the
library; it is therefore not among the tests.
