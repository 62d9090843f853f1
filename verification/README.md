# Foxash

Foxash is a small programming language with readable commands (`define`, `write`, `get`,
`when ... otherwise`, named loops, functions and lists). This crate holds its interpreter,
with the front end and the interpreter's rules written in Verus and proved against their
contracts.

## Layout

- `src/` — the verified library:
  - `text.rs`: characters of strings, and the few calls into `String` that Verus has no
    specification for.
  - `ast.rs`: the syntax tree and its mathematical model.
  - `lexer.rs`: the lexer, specified by `lex_from`, a function from source characters to
    tokens (or the first error, with its line and column).
  - `parser.rs`: the recursive-descent parser, specified by `program_from` over token kinds.
  - `value.rs`: runtime values, whose numbers are a type parameter, and how `write` shows
    them.
  - `runtime.rs`: the interpreter's rules: scopes of variables, the function table, lists,
    `and`/`or`/`not`, conditions, loops and calls, built-in functions, JSON for `save`, error
    messages, and random numbers (through `rand`).
  - `cli.rs`: the command line.
- `app/` — the program: reading files and input, printing, waiting, and the evaluator,
  which computes with floating-point numbers and builds on the library.
- `tests/` — tests of the library.

Run a program with `foxash run file.foxash`, check it with `foxash check file.foxash`.
