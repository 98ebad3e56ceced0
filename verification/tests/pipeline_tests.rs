use scratcharch::pipeline::{
    CompilationStage, Diagnostic, DiagnosticLevel, DiagnosticSink, Pipeline, PipelineConfig,
};

#[test]
fn test_pipeline_diagnostics() {
    let mut sink = DiagnosticSink::new();

    sink.push_error("undefined variable x");
    assert!(sink.has_errors());

    sink.push_warning("unused variable y");
    sink.push_note("declared at line 10");

    let text = sink.to_text();
    assert!(text.contains("error: undefined variable x"));
    assert!(text.contains("warning: unused variable y"));
    assert!(text.contains("note: declared at line 10"));
}

#[test]
fn test_diagnostic_with_source_location() {
    let diag = Diagnostic::error("undefined variable x")
        .with_stage("analyze")
        .with_source("sprite1/main", 10, Some(5))
        .with_suggestion("check variable scope");

    let text = diag.to_string();
    assert!(text.contains("error: undefined variable x"));
    assert!(text.contains("[analyze]"));
    assert!(text.contains("sprite1/main:10:5"));
    assert!(text.contains("check variable scope"));
}

#[test]
fn diagnostic_exact_text() {
    let d = Diagnostic::warning("w").with_source("f", 7, None).with_suggestion("s");
    assert_eq!(d.to_string(), "warning: w\n --> f:7\n help: s");
    let mut sink = DiagnosticSink::new();
    assert_eq!(sink.to_text(), "");
    sink.push_note("a");
    sink.push(Diagnostic::error("b").with_stage("x"));
    assert_eq!(sink.to_text(), "note: a\nerror: b [x]");
}

#[test]
fn sink_without_errors_yields_value() {
    let mut sink = DiagnosticSink::new();
    sink.push_warning("w");
    assert!(!sink.has_errors());
    assert_eq!(sink.clone().into_result(5).ok(), Some(5));
    sink.push_error("e");
    let errs = sink.into_result(5).err().unwrap();
    assert_eq!(errs.len(), 2);
    assert_eq!(errs[1].level, DiagnosticLevel::Error);
}

#[test]
fn stage_names_and_config() {
    assert_eq!(CompilationStage::LlvmParse.name(), "llvm-parse");
    assert_eq!(CompilationStage::DumpOutput.name(), "dump-output");
    let cfg = PipelineConfig::default();
    assert_eq!(cfg.opt_level, "basic");
    assert!(cfg.optimize);
    let p = Pipeline::new(cfg);
    assert!(p.diagnostics.diagnostics.is_empty());
}
