# sysy

A front end for SysY, the C subset used in compiler courses, written in Verus.

- `src/lexer.rs`: the scanner. `tokenize` is proved to produce exactly the
  token sequence of a functional model of the lexical grammar, and the token
  stream is proved to be well formed (ordered, non-empty tokens, one `Eof`).
  Once the scanner has returned `Eof` it keeps returning the same `Eof`.
- `src/parser.rs`: a recursive-descent parser, proved equal to a functional
  model of the grammar, including the error it reports on bad input.
- `src/semantic.rs`, `src/analyzer.rs`: name resolution with nested scopes,
  the symbol table, and type checking. `analyze` is proved equal to a
  state-passing model of the analysis. Its contract also states that the
  symbol table is consistent (every symbol entered in its own scope), that
  the runtime library comes first, that every identifier is bound only to a
  symbol of its own name and type and every declaration to a symbol of its
  own name, that every stored scope id indexes the scope table, and that a
  program with no errors has every identifier bound and no expression of
  the error type. The laws of
  the symbol table (a declared name is found by the next lookup, a duplicate
  is refused, a closed scope is forgotten) are proof functions in
  `src/analyzer.rs`; `src/resolution.rs` defines what a resolved and a
  complete annotation is.
- `src/ir.rs`: the textual form of semantic types.
- `app/`: the command-line driver, the lowering to the intermediate
  representation, the optimizer and the LLVM back end. These compute with
  floating-point constants and call LLVM, so they are ordinary Rust.
