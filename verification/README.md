# alang

The front end of a small language: a lexer over bytes, a recursive-descent
parser for programs made of its tokens, and a generator of Go text for the
syntax tree, all verified with Verus.

- `src/lexer.rs`: the lexer, with its model as positions in the input
  (`lex_step` says what one `read` gives and where it leaves the lexer).
- `src/grammar.rs`: the grammar, as what each parse returns from a place of
  the token stream; `src/parser.rs` implements it.
- `src/codegen.rs`: the Go text of expressions, statements, imports and
  programs.
- `src/repl.rs`: what the prompt does with a line.
- `src/laws.rs`: properties that relate the parts.
- `app/`: the interactive prompt (terminal input and output).
