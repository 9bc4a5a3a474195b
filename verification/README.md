# ornn

A front end for the Lox expression language, written in Verus.

- `src/token.rs`: token types, literals and tokens, and how they are written out.
- `src/lexer.rs`: the scanner, with a model of scanning (`lex_step`, `lex_from`)
  that its contracts are stated against.
- `src/parser.rs`: the recursive-descent parser for the expression grammar, with
  one model function per grammar rule.
- `src/ast/`: the syntax tree and the expression printer.
- `src/interpreter.rs`: what each operator does with the kinds of its operands.
- `src/driver.rs`: runs one command through scanner and parser and words the
  error reports.
- `app/`: the command-line program, and evaluation to floating-point values.
