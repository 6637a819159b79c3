# jo_compiler

The front end of the Jo compiler and the logic of its language server, verified
with Verus.

- `src/` is the library. Every function has a contract over mathematical models:
  texts are character sequences, and each syntax node has a model of its own.
  - `text` texts, lines, words and numerals
  - `error` diagnostics and their rendering
  - `directives`, `preprocessor` imports and `#define`
  - `lexer` tokens
  - `types`, `ast`, `grammar`, `parser` the syntax tree, the grammar as a
    mathematical function, and the parser that computes it
  - `typing`, `env`, `typechecker` the typing rules, the declarations, and the
    checker that computes them
  - `driver` the stages in order, and the merging of modules
  - `symbols`, `completion`, `lint`, `protocol` the language server
  - `syntax_laws`, `parsed_types` what holds of every text that is parsed
  - `init_order` what an initializer is reported for
  - `soundness`, `well_typed` what holds of every program that is accepted: it is
    ready for the code generator, and every value fits where it stands
- `app/` reads files, runs the compiler from the language server, and talks JSON.
- `tests/` runs the library on concrete texts.
