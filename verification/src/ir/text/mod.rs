//! The SAIR text format.

pub mod error;
mod lexer;
pub mod parser;
pub mod writer;

pub use error::TextIrError;
pub use parser::deserialize;
pub use writer::serialize;
