//! A reference interpreter for SAIR modules: it executes a module's entry
//! function over a flat, byte-addressed little-endian memory.

pub mod intrinsics;
pub mod machine;
pub mod values;

pub use machine::{Frame, Interpreter};
pub use values::{InterpError, RuntimeValue};
