# testx

The core of testx — a test runner front end for many languages — as a
library verified with Verus.

- `src/` is the verified library: the output parsers of the eleven runner
  adapters (Rust, Go, Python, JavaScript, Java, C++, Ruby, Elixir, PHP,
  .NET, Zig), test filtering, the result cache and its project hash, the
  event bus, configuration sections, coverage report parsers (LCOV,
  Cobertura, JaCoCo, Go cover profiles) with glob filtering and uncovered
  ranges, and the run history. Public functions state in their `ensures`,
  over spec functions, what they return or change; the `law_*` proof
  functions state properties that hold across calls.
- `app/` is ordinary Rust around it: project detection and runner commands,
  reading and writing `.testx/`, `testx.toml`, report files, shell
  completions, and the reports that compute with floating point.
- `tests/` exercises the library from outside.
