# scratcharch

A verified library for the ScratchArch toolchain, written in Verus. The core
modules are the SAIR intermediate representation, a reader for LLVM's text
format, optimisation passes, a SAIR interpreter, the portable C-style
runtime, and compiler diagnostics. Each executable function carries a
`requires`/`ensures` contract that Verus proves.

## Layout

- `src/ir/`: the SAIR data model (types, values, instructions, blocks,
  functions, modules), the builder, validation, lowering helpers, and the
  text format (`text/`: lexer, parser, writer).
- `src/llvm/`: the LLVM text front end: character classes, the lexer (with a
  functional specification of every token), the syntax tree and the parser.
- `src/opt/`: the CFG analysis, constant folding, dead-code elimination, CFG
  simplification and the pass manager.
- `src/interpreter/`: an interpreter for SAIR modules, specified as a step
  relation over an abstract machine.
- `src/runtime/`: byte memory, the C string and memory routines, the bit
  intrinsics and the intrinsic registry.
- `src/pipeline/`: diagnostics, compilation stages and the decompiler from the
  library's model of ScratchGraph projects back to SAIR.
- `src/strings.rs`: string building helpers with exact contracts.
- `app/`: the parts Verus does not check: JSON output through serde, printing
  a pipeline run, and formatting of floating-point values.
- `tests/`: ordinary Rust tests of the library.

## Not in this library

The LLVM-to-SAIR translator (`translate`, `translate_llvm`), the lowering of
SAIR to machine code (`IsaLowerer` and its helper builders),
`IrType::to_core_type`, and the pipeline stages that run them
(`Pipeline::run_*`) are absent. They are written against the ScratchArch core
and target crates (`scratcharch_core`, `scratcharch_target`): the machine
instruction types, and the struct layout that the translator takes from
`scratcharch_target::layout_struct`. Those crates belong to the toolchain's
own workspace and are not among this library's dependencies, so neither the
calls into them nor the types they return can be declared or built.
The tests that exercise them (such as the signed comparison tests of the
lowering) are absent for the same reason.

## Checking

The library is verified with Verus. The tests are built and run with the
library and the outside crates (`serde`, `serde_json`) linked.
