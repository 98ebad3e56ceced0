//! Pipeline stages and configuration.

use vstd::prelude::*;

use crate::pipeline::diagnostic::DiagnosticSink;

verus! {

/// Identifies which stage of the pipeline is active.
#[derive(Debug, Clone, Copy, PartialEq, Eq, Hash, Structural)]
pub enum CompilationStage {
    Input,
    LlvmParse,
    SairModule,
    SairOptimize,
    ScratchGraphLower,
    ScratchGraphExport,
    ScratchGraphParse,
    Decompile,
    DumpOutput,
}

/// How a stage is named in diagnostics.
pub open spec fn stage_name(s: CompilationStage) -> Seq<char> {
    match s {
        CompilationStage::Input => "input"@,
        CompilationStage::LlvmParse => "llvm-parse"@,
        CompilationStage::SairModule => "sair-module"@,
        CompilationStage::SairOptimize => "sair-optimize"@,
        CompilationStage::ScratchGraphLower => "scratchgraph-lower"@,
        CompilationStage::ScratchGraphExport => "scratchgraph-export"@,
        CompilationStage::ScratchGraphParse => "scratchgraph-parse"@,
        CompilationStage::Decompile => "decompile"@,
        CompilationStage::DumpOutput => "dump-output"@,
    }
}

impl CompilationStage {
    pub fn name(&self) -> (r: &'static str)
        ensures
            r@ == stage_name(*self),
    {
        match self {
            CompilationStage::Input => "input",
            CompilationStage::LlvmParse => "llvm-parse",
            CompilationStage::SairModule => "sair-module",
            CompilationStage::SairOptimize => "sair-optimize",
            CompilationStage::ScratchGraphLower => "scratchgraph-lower",
            CompilationStage::ScratchGraphExport => "scratchgraph-export",
            CompilationStage::ScratchGraphParse => "scratchgraph-parse",
            CompilationStage::Decompile => "decompile",
            CompilationStage::DumpOutput => "dump-output",
        }
    }
}

/// Configuration for a pipeline run.
#[derive(Debug, Clone)]
pub struct PipelineConfig {
    /// Optimization level (`none`, `basic`, `aggressive`).
    pub opt_level: String,
    /// If set, intermediate files are dumped to this directory.
    pub dump_dir: Option<String>,
    /// Enable optimization passes.
    pub optimize: bool,
}

impl PipelineConfig {
    /// The default configuration: basic optimisation, no dumps.
    pub fn new() -> (r: Self)
        ensures
            r.opt_level@ == "basic"@,
            r.dump_dir.is_none(),
            r.optimize,
    {
        PipelineConfig { opt_level: String::from_str("basic"), dump_dir: None, optimize: true }
    }
}

impl Default for PipelineConfig {
    fn default() -> (r: Self)
        ensures
            r.opt_level@ == "basic"@,
            r.dump_dir.is_none(),
            r.optimize,
    {
        PipelineConfig::new()
    }
}

/// The state of a compiler pipeline: its configuration and the diagnostics
/// collected so far.
#[derive(Debug)]
pub struct Pipeline {
    pub config: PipelineConfig,
    pub diagnostics: DiagnosticSink,
}

impl Pipeline {
    pub fn new(config: PipelineConfig) -> (r: Self)
        ensures
            r.config == config,
            r.diagnostics.diagnostics@.len() == 0,
    {
        Pipeline { config, diagnostics: DiagnosticSink::new() }
    }
}

} // verus!
