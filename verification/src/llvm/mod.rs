//! The LLVM textual-IR frontend: lexer, parser and error type.

pub mod chars;
pub mod errors;
pub mod lexer;
pub mod parser;
pub mod syntax;

pub use errors::LlvmError;
pub use parser::{parse_llvm, Parser};
pub use syntax::{
    CastOp, IcmpPred, LlvmBlock, LlvmConst, LlvmFunction, LlvmGlobal, LlvmGlobalInit, LlvmInstr,
    LlvmProgram, LlvmType, LlvmValue,
};
