# ninety_nine

`cargo ninety-nine` finds and tracks flaky tests in Rust projects: it runs
each test many times, scores how likely it is to be flaky, stores the runs
and scores, and reports them in the terminal, in an interactive view, or as
JUnit XML, HTML, CSV and JSON.

## Layout

- `src/` is the library, written in Verus and verified: the filter
  language (lexer, parser, evaluator and its laws), reading cargo's and
  libtest's output, the retry and rr recording loops, stress and isolation
  counting and the flake classes of diagnosis, configuration rules, the
  state and key handling of the interactive views (sorting, filtering,
  cursor), report escaping and truncation, trend windows, storage columns
  and migrations, CI workflow text and environment probing.
- `app/` is the program around it: the command line, processes, files,
  databases (SQLite and PostgreSQL), the terminal, and everything computed
  on floating point (the Bayesian score, duration regressions, pattern
  strengths).
- `tests/` exercises the library from outside.
