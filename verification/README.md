# tibanna

A compiler for a small Rust-like language, from source text to x86-64 assembly, written in
Verus: the compiler's stages are executable Rust whose behaviour is stated in `requires` /
`ensures` contracts and proved.

## Layout

- `src/lexer.rs`, `src/lexer/token.rs`: tokens; the lexer is specified as a function on the
  characters of the source.
- `src/parser.rs`: the abstract syntax and a precedence-climbing parser, specified as a
  function on the token sequence.
- `src/analyze.rs`, `src/types.rs`: semantic analysis and type checking.
- `src/compile.rs`, `src/assembly.rs`: the direct compiler from syntax to assembly lines, and
  the text of those lines.
- `src/resolver.rs`: name resolution; every variable and function gets a number of its own.
- `src/ir/`: the SSA intermediate representation (`types.rs`), the block builder
  (`builder.rs`), lowering from resolved syntax (`lower.rs`), the proof that lowering yields
  SSA form and well-formed control flow (`ssa.rs`), and the text of IR (`display.rs`).
- `src/backend/`: liveness, interference graphs and register allocation by graph colouring
  (with coalescing of block parameters), constant folding and dead-code elimination as
  optimisation passes, and x86-64 code emission with a peephole pass.
- `src/common/`: register sets, an undirected graph and a union-find structure.
- `app/`: the command-line program (reads a file, writes `out.s`, runs nasm and ld) and the
  driver that runs passes, allocation and emission for a target.
- `tests/`: tests of each stage.
