//! Compiler diagnostics, pipeline configuration, and decompilation of
//! ScratchGraph projects back to SAIR.

pub mod decompile;
pub mod diagnostic;
pub mod scratch;
pub mod stage;

pub use diagnostic::{Diagnostic, DiagnosticLevel, DiagnosticSink};
pub use stage::{CompilationStage, Pipeline, PipelineConfig};
