# mutanchor

Mutation testing for Solana Anchor programs. The tool makes one small,
deliberate change to a program's source at a time (each change models a
Solana audit bug class), builds the changed program with `cargo build-sbf`,
runs the program's own test suite against it on LiteSVM, and reports which
changes the tests catch and which survive.

This crate is a Verus project: the library under `src/` states what it does
in `requires`/`ensures` contracts and Verus proves them.

- `src/ops.rs` — the operators and `generate`: the mutants of a source file,
  exactly, line by line.
- `src/fault.rs` — every generated mutant changes the line it stands for.
- `src/engine.rs` — which mutants are kept (`dedup_equivalents`,
  `collect_mutants`, `skip_operators`), the report (`build_report`), the
  program's name, the timestamp format and the CI gate.
- `src/calendar.rs` — civil dates of days since the epoch, with the laws
  that day 0 is 1970-01-01, every day is a valid date and the next day is
  the next date.
- `src/init.rs` — the program directory of a project and the attribution of
  line ranges to instructions, on an outline of what `syn` parses.
- `src/runner.rs` — what each step of a mutant's run means: the build
  outcome, the reading of test output, the mutant's result.
- `src/report.rs` — the HTML scorecard and HTML escaping.
- `src/model.rs`, `src/text.rs`, `src/pattern.rs` — the data model, text
  operations with their specifications, and the regular-expression searches
  made by `regex_lite`.

`app/` is the command-line program around the library: argument parsing,
files, child processes, signals, serde JSON and floating-point scores.
