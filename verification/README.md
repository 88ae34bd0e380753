# rscc

A small C compiler: a lexer that turns source bytes into tokens with
spans (byte offsets from the start of the source, and a line number), a recursive-descent parser that builds a syntax
tree, and a code generator that prints x86-64 assembly in AT&T syntax.
A second, smaller pipeline (`basic`) handles functions whose body is one
`return` of an expression.

The library under `src/` is written in Verus: each public function states
its result in its contract, and the proof functions named `law_*` state
what holds across functions (the lexer's token order, how it moves with
its position and that blanks between tokens change no token kind, the
parser taking tokens from the front only, the code generator restoring its
scopes and stack slots and counting its labels, the error report finding
the tokens the lexer reads). The program under `app/` reads a file,
runs the pipeline and writes the assembly.

- `src/lexer`: tokens, spans and the lexer.
- `src/parser`: the syntax tree, the parser, its printed form and the
  syntax error report.
- `src/codegen`: the code generator.
- `src/basic`: the smaller pipeline.
- `src/text.rs`: decimal numbers and string building.
