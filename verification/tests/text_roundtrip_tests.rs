use scratcharch::ir::builder::IrBuilder;
use scratcharch::ir::text;
use scratcharch::ir::{DebugLoc, GepIndex, IrModule, IrType};

fn simple_module() -> IrModule {
    let mut builder = IrBuilder::new("main");
    builder.start_function("main", IrType::I32);
    builder.new_block("entry");
    let c = builder.const_i32(42);
    builder.ret(Some(c));
    builder.finish()
}

fn module_with_params() -> IrModule {
    let mut builder = IrBuilder::new("add");
    builder.start_function("add", IrType::I32);
    let a = builder.add_param(IrType::I32, "a");
    let b = builder.add_param(IrType::I32, "b");
    builder.new_block("entry");
    let sum = builder.add(IrType::I32, a, b);
    builder.ret(Some(sum));
    builder.finish()
}

fn module_with_control_flow() -> IrModule {
    let mut builder = IrBuilder::new("max");
    builder.start_function("max", IrType::I32);
    let a = builder.add_param(IrType::I32, "a");
    let b = builder.add_param(IrType::I32, "b");

    builder.new_block("entry");
    let cond = builder.gt(IrType::I32, a, b);
    builder.cond_br(cond, "then", "else");

    builder.new_block("then");
    builder.br("merge");

    builder.new_block("else");
    builder.br("merge");

    builder.new_block("merge");
    let phi = builder.phi(IrType::I32, vec![(a, "then"), (b, "else")]);
    builder.ret(Some(phi));

    builder.finish()
}

fn module_with_memory_and_call() -> IrModule {
    let mut builder = IrBuilder::new("main");
    builder.start_function("main", IrType::I32);
    builder.new_block("entry");
    let ptr = builder.alloca(IrType::I32);
    let c = builder.const_i32(7);
    builder.store(IrType::I32, c, ptr);
    let v = builder.load(IrType::I32, ptr);
    let one = builder.const_i32(1);
    let r = builder.add(IrType::I32, v, one);
    builder.ret(Some(r));
    builder.finish()
}

fn module_with_gep() -> IrModule {
    let mut builder = IrBuilder::new("main");
    builder.start_function("main", IrType::I32);
    builder.new_block("entry");
    let arr = builder.alloca_array(IrType::I32, 4);
    let idx = builder.const_i32(2);
    let elem = builder.gep(IrType::I32, arr, vec![GepIndex::Dynamic(idx)]);
    let val = builder.const_i32(99);
    builder.store(IrType::I32, val, elem);
    let loaded = builder.load(IrType::I32, elem);
    builder.ret(Some(loaded));
    builder.finish()
}

fn module_with_debug_locs() -> IrModule {
    let mut builder = IrBuilder::new("main");
    builder.start_function("main", IrType::I32);
    builder.new_block("entry");
    let c = builder.const_i32(42);
    builder.set_last_debug_loc(Some(DebugLoc::new("src.c", 10, Some(5))));
    builder.ret(Some(c));
    builder.finish()
}

fn module_with_calls() -> IrModule {
    let mut builder = IrBuilder::new("main");
    builder.start_function("add", IrType::I32);
    let a = builder.add_param(IrType::I32, "a");
    let b = builder.add_param(IrType::I32, "b");
    builder.new_block("entry");
    let sum = builder.add(IrType::I32, a, b);
    builder.ret(Some(sum));

    builder.start_function("main", IrType::I32);
    builder.new_block("entry");
    let one = builder.const_i32(1);
    let two = builder.const_i32(2);
    let three = builder.const_i32(3);
    let r = builder.call(IrType::I32, "add", vec![one, two]);
    builder.call(IrType::Void, "dummy", vec![three]);
    builder.ret(r);
    builder.finish()
}

fn roundtrip(module: &IrModule) {
    module.validate().expect("module should be valid");
    let text = text::serialize(module);
    let reparsed = text::deserialize(&text).expect("deserialize should succeed");
    let text2 = text::serialize(&reparsed);
    assert_eq!(
        text, text2,
        "round-trip produced different text:\n--- original ---\n{}\n--- reparsed ---\n{}",
        text, text2
    );
}

#[test]
fn roundtrip_simple() {
    roundtrip(&simple_module());
}

#[test]
fn roundtrip_params() {
    roundtrip(&module_with_params());
}

#[test]
fn roundtrip_control_flow() {
    roundtrip(&module_with_control_flow());
}

#[test]
fn roundtrip_memory_and_call() {
    roundtrip(&module_with_memory_and_call());
}

#[test]
fn roundtrip_gep() {
    roundtrip(&module_with_gep());
}

#[test]
fn serialize_deserialize_simple() {
    let module = simple_module();
    let text = text::serialize(&module);
    let reparsed = text::deserialize(&text).unwrap();
    let text2 = text::serialize(&reparsed);
    assert_eq!(text, text2);
}

#[test]
fn parse_error_on_bad_version() {
    let input = "sair 0.2\nentry \"main\"\n";
    let err = text::deserialize(input).unwrap_err();
    assert!(err.to_string().contains("unsupported version"));
}

#[test]
fn parse_error_on_missing_entry() {
    let input = "sair 0.1\n";
    let err = text::deserialize(input).unwrap_err();
    assert!(err.to_string().contains("parse error"));
}

#[test]
fn roundtrip_debug_locs() {
    roundtrip(&module_with_debug_locs());
}

#[test]
fn roundtrip_calls() {
    roundtrip(&module_with_calls());
}

#[test]
fn debug_locs_preserved() {
    let module = module_with_debug_locs();
    let text = text::serialize(&module);
    assert!(text.contains("!loc \"src.c\" 10 5"), "serialized text should contain debug loc: {text}");
    let reparsed = text::deserialize(&text).unwrap();
    let block = &reparsed.functions[0].blocks[0];
    let loc = block.debug_loc(0).expect("debug loc should be preserved");
    assert_eq!(loc.file, "src.c");
    assert_eq!(loc.line, 10);
    assert_eq!(loc.column, Some(5));
}

#[test]
fn serialize_exact_text() {
    let text = text::serialize(&module_with_params());
    assert_eq!(
        text,
        "sair 0.1\nentry \"add\"\n\nfunc @add -> i32 entry \"entry\" {\n  param i32 %0\n  param i32 %1\n  block \"entry\":\n    %2 = add i32 %0, %1\n    ret i32 %2\n}\n\n"
    );
}

#[test]
fn serialize_escapes_and_float_bits() {
    let mut builder = IrBuilder::new("m\"a\\in");
    builder.start_function("m", IrType::F64);
    builder.new_block("entry");
    let f = builder.const_f64(0x4045_0000_0000_0000);
    let _ = builder.alloca_array(IrType::I8, 3);
    builder.ret(Some(f));
    let text = text::serialize(&builder.finish());
    assert!(text.contains("entry \"m\\\"a\\\\in\""));
    assert!(text.contains("%0 = const f64 0x4045000000000000"));
    assert!(text.contains("%1 = alloca i8, 3"));
}

#[test]
fn deserialize_rejects_invalid_modules() {
    let input = "sair 0.1\nentry \"main\"\nfunc @main -> i32 {\n  block \"entry\":\n    br \"nowhere\"\n}\n";
    match text::deserialize(input) {
        Err(text::TextIrError::Validation(_)) => {}
        other => panic!("expected a validation error, got {:?}", other),
    }
}

#[test]
fn deserialize_reports_lexical_errors() {
    let err = text::deserialize("sair 0.1 entry \"main\" $").unwrap_err();
    assert_eq!(err.to_string(), "parse error: unexpected character: $");
    let err = text::deserialize("sair 0.1 entry \"ma").unwrap_err();
    assert_eq!(err.to_string(), "parse error: unterminated string");
}

#[test]
fn deserialize_checks_entry_block_name() {
    let input = "sair 0.1\nentry \"main\"\nfunc @main -> void entry \"start\" {\n  block \"entry\":\n    ret void\n}\n";
    let err = text::deserialize(input).unwrap_err();
    assert!(err.to_string().contains("entry block mismatch"));
}

#[test]
fn deserialize_skips_comments_and_numbers_values() {
    let input = "; a comment\nsair 0.1\nentry \"f\"\nfunc @f -> i32 {\n  param i32 %7\n  block \"entry\": ; start\n    %9 = add i32 %7, %7\n    ret i32 %9\n}\n";
    let m = text::deserialize(input).unwrap();
    let again = text::serialize(&m);
    assert!(again.contains("%1 = add i32 %0, %0"));
    assert!(again.contains("ret i32 %1"));
}

#[test]
fn reads_smallest_module_text() {
    let m = text::deserialize("sair 0.1\nentry \"main\"\n\nfunc @main -> void {\n  block \"entry\":\n    ret void\n}\n")
        .unwrap();
    assert_eq!(m.entry, "main");
    assert_eq!(m.functions.len(), 1);
    let f = &m.functions[0];
    assert_eq!(f.name, "main");
    assert_eq!(f.return_ty, IrType::Void);
    assert!(f.params.is_empty());
    assert_eq!(f.entry_block, "entry");
    assert_eq!(f.blocks.len(), 1);
    assert_eq!(f.blocks[0].label, "entry");
    assert!(f.blocks[0].instructions.is_empty());
}

#[test]
fn lexing_error_is_reported() {
    assert!(text::deserialize("sair 0.1 entry \"main\" ? ").is_err());
    assert!(text::deserialize("sair 0.1 entry \"unterminated").is_err());
}

#[test]
fn reads_phi_and_gep_operands() {
    let src = "sair 0.1\nentry \"main\"\n\nfunc @main -> void {\n  block \"entry\":\n    %0 = alloca i32\n    %1 = gep i32 %0, field 2\n    br \"next\"\n  block \"next\":\n    %2 = phi ptr [\"entry\", %1]\n    ret void\n}\n";
    let m = text::deserialize(src).unwrap();
    let f = &m.functions[0];
    match &f.blocks[0].instructions[1] {
        scratcharch::ir::Instruction::Gep { elem_ty, indices, .. } => {
            assert_eq!(*elem_ty, IrType::I32);
            assert_eq!(indices.as_slice(), &[GepIndex::StructField(2)]);
        }
        other => panic!("unexpected {:?}", other),
    }
    match &f.blocks[1].instructions[0] {
        scratcharch::ir::Instruction::Phi { ty, incoming } => {
            assert_eq!(*ty, IrType::Pointer);
            assert_eq!(incoming.len(), 1);
            assert_eq!(incoming[0].1, "entry");
        }
        other => panic!("unexpected {:?}", other),
    }
}

#[test]
fn wrong_version_and_missing_header_are_refused() {
    match text::deserialize("sair 0.2 entry \"main\"") {
        Err(text::TextIrError::UnsupportedVersion(msg)) => assert_eq!(msg, "expected 0.1, got 0.2"),
        other => panic!("unexpected {:?}", other),
    }
    assert!(matches!(text::deserialize("entry \"main\""), Err(text::TextIrError::Parse(_))));
}
