# walc

WALC compiles stand-alone WebAssembly 1.0 modules into closed untyped lambda expressions,
written in the WALC text format (square brackets in place of the lambda).

- `src/analyzer.rs`: the module as a sequence of parsed sections (`Payload`), checked and
  handed to the code generator. The bytes are validated by `wasmparser`.
- `src/codegen.rs`: `ProgramBuilder`, which assembles the runtime, data segments, functions,
  tables and the entry point into one expression.
- `src/codegen/function.rs`: the code of a function body, a chain of instructions and labels.
  Branches go on at the end label of their target block, or, for a loop, at the start that
  the loop put on the trace; they drop the frames of the blocks they leave.
- `src/codegen/runtime/`: the utilities (instructions and arithmetic on bit lists) that the
  program asks for, each defined once and after what it refers to.
- `src/codegen/lambda/`: terms, numbers, lists, trees and the text format.
- `src/codegen/closedness.rs`: the proof that a compiled module is a closed term.
- `src/codegen/lambda/reduction.rs`: reduction of terms under the definitions of a prelude.
  `src/codegen/lambda/evaluation.rs` shows what the core definitions compute: bits select,
  pairs and lists give back their parts, and a tree read after a write gives back what was
  written, while the other slots read as before, for the tables and for the main memory alike. `src/codegen/runtime/math/sums.rs` shows
  that `ADD` computes the sum of two numbers modulo a power of two.
- `app/`: the command line program, which reads the file, parses it with `wasmparser` and
  writes the result.
