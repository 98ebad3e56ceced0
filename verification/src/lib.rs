//! ScratchArch toolchain library: the portable runtime, the SAIR data model,
//! the LLVM text frontend, optimisation passes and compiler diagnostics.

pub mod interpreter;
pub mod ir;
pub mod llvm;
pub mod opt;
pub mod pipeline;
pub mod runtime;
pub mod strings;
