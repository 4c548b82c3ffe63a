# clarity_repl

A verified library for a Clarity smart-contract REPL session: the contract
representations and their parser, the analysis passes (check-checker, taint
checks, dependency detection and ordering), the session and its commands,
the debugger's breakpoints and watchpoints, the asset ledger of the
interpreter, hex and secp256k1 helpers, and the resolution of linked
contracts.

- `src/` is the library, written in Verus: public functions state their
  behaviour in `requires` / `ensures` (the lexer and parser state only what
  their callers need, not the grammar), and the laws that relate several
  functions stand as public proof functions. Values of literals are encoded
  and decoded in the consensus format; evaluating contract code is the work
  of the Clarity virtual machine, which is not part of this library.
- `tests/` runs the library on concrete values.
- `app/` is the command-line REPL around the library: argument handling,
  the terminal, reading contract files and printing.

Verify with `verus` on `src/lib.rs` with the crate's dependencies.
