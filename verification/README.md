# fjord

Fjord is a small shell language. This crate holds its verified core: the
lexer, a lossless parser whose trees follow a grammar stated in `grammar.rs`,
the evaluator, the command-line splitter of the `fj` shell, an interpreter of
the earlier script dialect, identifier names, the editing model of the text
editor and its colour themes. Each public function states what it returns in
its contract, and `law_*` proof functions state what holds across calls.

- `src/` — the library, verified with Verus.
- `tests/` — ordinary Rust tests of the library.
- `app/` — the programs around it: the shells, the script prompt, the
  editor's terminal loop, and everything that touches files, processes or the
  terminal.

The expression type of `src/expr.rs` has a parser but no evaluator: its
evaluation would rest on a state, an output type, an error type and function
calls that the language does not define yet, and it would run external
commands, so it is left out rather than guessed.

The syntax tree and its builder (`src/tree.rs`, printed by
`src/debug_tree.rs`) are types of this library, modelled on a lossless
green-tree builder, so that the parser's contracts can speak of every node and
token with its kind, text and range.

A script state holds the foreign functions (functions written in Rust, see
`src/ffi.rs`) that it is given, under their names; the script evaluator does
not call them.

Evaluation may not end. Each evaluator has a form with a step bound
(`eval_bounded`) that returns `None` when the bound runs out, and a form
without one whose `requires` says that the evaluation ends.
