# zmq_arena

A benchmark arena for ZeroMQ engines, with its rules verified by Verus.

- `src/` is the library: the rules by which cells are run, measured, believed and
  drawn. Each function states what it returns; the functions named `law_...`
  state what holds of several of them together.
- `app/` is ordinary Rust around it. The program runs the matrix
  (`zmq-arena`), one target (`<engine>-target`) or the report
  (`zmq-arena-report`), by the name that it is started under. It owns the
  sockets with their options and settling times, the processes, cgroups, files
  and pictures, and everything that is computed in floating point.
- `tests/` holds the tests of the library.

## What is trusted

The proofs rest on these outside functions, each of which is stated where it is
called: `String::push` (`src/text.rs`), `str::to_lowercase` (`src/cell.rs`), the
`Debug` form of a text (`src/record.rs`), `omq_tokio::Endpoint::from_str` and
`zmq::version` (`src/target.rs`).

## Samples are integers

A measured value enters the statistics as a count of a fixed small unit, and
every quantile, spread and verdict is an exact quotient of integers. The
reporter orders doubles by their bit patterns, which for values above zero is
the order of the values.
