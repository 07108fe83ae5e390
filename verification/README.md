# tp0 tool-chain, verified

Two small compiler tools, written in Verus with their behaviour stated as
contracts and proved:

* `tp0c file.tp0` compiles the `tp0` language (functions, `int` and `str`
  values, `let`, assignment, `if`/`else`, `return`, calls, `+ - * /`) to
  LLVM IR, checking types as it goes, and writes `file.ll`.
* `tp0c file.ll` reads a tiny subset of LLVM IR (a `define`, `add` and `ret`)
  and writes ARM64 assembly for macOS to `file.s`.

Layout:

* `src/text.rs` character classes, decimal and hexadecimal rendering.
* `src/lexer.rs`, `src/ast.rs`, `src/parser.rs` the front end.
* `src/codegen.rs` the LLVM IR generator; `src/typing.rs` the typing rules
  and the proof that the generator accepts exactly the well-typed programs;
  `src/output.rs` properties of the emitted code.
* `src/llvm_ir.rs`, `src/arm64.rs` the back end.
* `src/pipeline.rs` both tools end to end, with the resource checks.
* `app/main.rs` the command line: file reading and writing, messages.
* `tests/` executable tests of the library.

Every function that aborts on input it cannot handle comes in two forms: the
one under the plain name requires, as a spec predicate, that the input is one
it handles; `try_…` returns the error that rejects the input instead.  Both
forms keep the machine-limit and well-formedness requirements of the code
generator.  `pipeline::compile_source` and `pipeline::translate_ir` take any
text.
