# sonance

Two small language front ends, written in Verus and verified:

- `compiler`: a tokenizer for a brace-delimited language of functions and
  numbers, and `run`, which gives the value of the last number of a program.
- `spring`: an interpreter for the Spring language. Source text is lexed
  (`parse_tree::lexer`), parsed by recursive descent (`parse_tree`), type
  checked (`type_tree`) and evaluated (`interpret`). Each stage states its
  result exactly against rules written as spec functions: `lex_rule`,
  `grammar::parse_module`, `type_module_rule` and `eval_module_rule`.

`parse_tree::spelling` proves that the two spellings of a postfix call
(`A.m!(B)` and `m!(A, B)`) and of a match (`A.match { .. }` and
`match(A) { .. }`) parse to the same expression.

`char_cursor` gives the tokenizers a peekable cursor over the characters of
a string, built on `itertools`.

The front end in `app/` reads a file, runs it, and prints what the program
printed, its diagnostics (with `ariadne`) and its test output.

The two `Scope` types keep their variables in a `Vec` of name and value
pairs, searched from the front, rather than in a `HashMap` keyed by
`String`: Verus's specification of `HashMap` proves what a lookup gives only
for keys whose hashing and equality it models, and `String` keys are not
among them, so a lookup could not be tied to the scope's contents. vstd's
`StringHashMap` does give such lookups a contract, but only by taking that
model of `String` on trust, and it has neither `Debug` nor `Default`, which
the scopes derive. The `Vec` holds each name at most once (`set` requires
that), which keeps the scope a map from names to entries, and every lookup
is proved against that map.
