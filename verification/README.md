# llvm_compiler

A compiler for a small C-like language ("Pseudo C", with Rust-style type
names), written in Verus: each stage states what it computes in `requires` /
`ensures` contracts over mathematical models, and Verus proves the code
against them.

## Layout

- `src/cli` – the command line: options, the help and version pages, errors
  and the error recorder, and the decisions of a run (`run`, `execute`).
- `src/io.rs` – source files as the compiler sees them.
- `src/tokenizer` – the character stream with line and column tracking, and
  the tokenizer.
- `src/parser` – the parse tree, parse errors, and the drawing of a tree.
- `src/irgen` – the intermediate representation: types, instructions,
  functions (labels, registers, reachability), the lowering of expressions
  and statements, and the optimizer (`irgen/optimize`): the passes, the
  combining of registers whose live ranges never meet (`domains.rs`), the
  typing of values (`typecorrect.rs`), and the driver that runs the passes in
  rounds until the code settles (`pipeline.rs`); laws the passes keep are in
  `laws.rs`.
- `src/codegen` – code generation: the IR listing, AVR assembly and LLVM IR.
- `src/llvm` – a direct LLVM back end over the parse tree: types, target
  triples, expressions, statements, functions and modules.
- `src/compile.rs` – from a parse tree to the compiler's output.
- `src/table.rs`, `src/text.rs` – the association table behind the symbol
  and label tables, and text helpers (decimal text, padding).
- `app/main.rs` – the program: arguments, reading files, printing.
- `tests/` – tests of each stage on concrete inputs.
