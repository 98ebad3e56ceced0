//! SAIR, the ScratchArch intermediate representation.

pub mod block;
pub mod builder;
pub mod debug;
pub mod function;
pub mod instruction;
pub mod lower;
pub mod module;
pub mod text;
pub mod types;
pub mod validate;
pub mod value;

pub use debug::DebugLoc;
pub use instruction::{CastOp, GepIndex, Instruction, Terminator};
pub use types::IrType;
pub use value::{Constant, SsaValue, ValueId};
pub use block::BasicBlock;
pub use function::IrFunction;
pub use module::{IrModule, StaticData, STATIC_DATA_BASE};
