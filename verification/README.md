# codecrafters_interpreter

A tree-walking interpreter for the Lox language — scanner, parser, resolver
and interpreter — written in Verus, with the behaviour of each stage stated
as contracts and proved.

- `src/` is the verified library. `scanner`, `parser_spec`/`parser`,
  `resolver_spec`/`resolver` and `interp_spec`/`interpreter` pair a
  description of each stage as spec functions with the code that is proved
  to follow it. `commands` gives the four commands (`tokenize`, `parse`,
  `evaluate`, `run`) as functions from source text to output and exit status;
  `repl` holds the line editor's key handling.
- Numbers are IEEE doubles held as bits; their arithmetic, parsing and
  printing go through `rustc_apfloat` (`number`).
- `app/` is the command-line program: arguments, files and the terminal.
  It prints a program's output when the run ends (at the prompt, after each
  line), since the library returns the output as a value.
- `tests/` runs the library on programs.
