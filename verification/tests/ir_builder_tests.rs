use scratcharch::ir::builder::IrBuilder;
use scratcharch::ir::{GepIndex, IrType};

#[test]
fn test_validate_entry_block_first() {
    let mut builder = IrBuilder::new("main");
    builder.start_function("main", IrType::I32);
    builder.new_block("second");
    builder.new_block("entry");
    let _ = builder.const_i32(42);
    builder.ret(None);
    let module = builder.finish();
    assert!(module.validate().is_err());
}

#[test]
fn test_module_validate_functions() {
    let mut builder = IrBuilder::new("main");
    builder.start_function("add", IrType::I32);
    let _a = builder.add_param(IrType::I32, "a");
    let _b = builder.add_param(IrType::I32, "b");
    builder.new_block("entry");
    builder.ret(None);
    builder.start_function("main", IrType::I32);
    builder.new_block("entry");
    let _ = builder.const_i32(0);
    builder.ret(None);
    let module = builder.finish();
    assert!(module.validate().is_ok());
}

#[test]
fn test_validate_phi_predecessor_check() {
    let mut builder = IrBuilder::new("main");
    builder.start_function("main", IrType::I32);
    builder.new_block("entry");
    let cond = builder.const_i1(true);
    let _a = builder.const_i32(1);
    builder.cond_br(cond, "then", "else_");
    builder.new_block("then");
    let b = builder.const_i32(2);
    builder.br("join");
    builder.new_block("else_");
    let c = builder.const_i32(3);
    builder.br("join");
    builder.new_block("join");
    let _ = builder.phi(IrType::I32, vec![(b, "then"), (c, "else_")]);
    builder.ret(None);
    let module = builder.finish();
    match module.validate() {
        Ok(_) => {}
        Err(e) => panic!("validation failed: {}", e),
    }
}

#[test]
fn test_validate_phi_wrong_predecessor() {
    let mut builder = IrBuilder::new("main");
    builder.start_function("main", IrType::I32);
    builder.new_block("entry");
    let a = builder.const_i32(1);
    builder.br("join");
    builder.new_block("join");
    let _ = builder.phi(IrType::I32, vec![(a, "nonexistent")]);
    builder.ret(None);
    let module = builder.finish();
    assert!(module.validate().is_err());
}

#[test]
fn test_validate_unreachable_block() {
    let mut builder = IrBuilder::new("main");
    builder.start_function("main", IrType::I32);
    builder.new_block("entry");
    let _ = builder.const_i32(42);
    builder.ret(None);
    builder.new_block("unreachable");
    let _ = builder.const_i32(0);
    builder.ret(None);
    let module = builder.finish();
    assert!(module.validate().is_err());
}

#[test]
fn test_validate_undefined_block_label() {
    let mut builder = IrBuilder::new("main");
    builder.start_function("main", IrType::I32);
    builder.new_block("entry");
    let _ = builder.const_i32(42);
    builder.br("nowhere");
    let module = builder.finish();
    assert!(module.validate().is_err());
}

#[test]
fn test_const_i1() {
    let mut builder = IrBuilder::new("main");
    builder.start_function("main", IrType::I1);
    builder.new_block("entry");
    let _t = builder.const_i1(true);
    let _f = builder.const_i1(false);
    builder.ret(None);
    let module = builder.finish();
    assert!(module.validate().is_ok());
}

#[test]
fn test_const_i8() {
    let mut builder = IrBuilder::new("main");
    builder.start_function("main", IrType::I8);
    builder.new_block("entry");
    let _v = builder.const_i8(42);
    builder.ret(None);
    let module = builder.finish();
    assert!(module.validate().is_ok());
}

#[test]
fn test_const_i16() {
    let mut builder = IrBuilder::new("main");
    builder.start_function("main", IrType::I16);
    builder.new_block("entry");
    let _v = builder.const_i16(42000);
    builder.ret(None);
    let module = builder.finish();
    assert!(module.validate().is_ok());
}

#[test]
fn test_gep_build_single_index() {
    let mut builder = IrBuilder::new("main");
    builder.start_function("main", IrType::I32);
    builder.new_block("entry");
    let ptr = builder.alloca(IrType::I32);
    let idx = builder.const_i32(0);
    let _result = builder.gep(IrType::I32, ptr, vec![GepIndex::Dynamic(idx)]);
    builder.ret(None);
    let module = builder.finish();
    assert!(module.validate().is_ok());
}

#[test]
fn test_gep_struct_field() {
    let mut builder = IrBuilder::new("main");
    builder.start_function("main", IrType::I32);
    builder.new_block("entry");
    let ptr = builder.alloca(IrType::I32);
    let _result = builder.gep(IrType::I32, ptr, vec![GepIndex::StructField(0)]);
    builder.ret(None);
    let module = builder.finish();
    assert!(module.validate().is_ok());
}

#[test]
fn test_gep_multi_index() {
    let mut builder = IrBuilder::new("main");
    builder.start_function("main", IrType::I32);
    builder.new_block("entry");
    let ptr = builder.alloca(IrType::I32);
    let idx0 = builder.const_i32(0);
    let idx1 = builder.const_i32(2);
    let _result = builder.gep(IrType::I32, ptr, vec![
        GepIndex::Dynamic(idx0),
        GepIndex::Dynamic(idx1),
    ]);
    builder.ret(None);
    let module = builder.finish();
    assert!(module.validate().is_ok());
}

#[test]
fn builder_numbers_params_then_results() {
    let mut builder = IrBuilder::new("f");
    builder.start_function("f", IrType::I32);
    let a = builder.add_param(IrType::I32, "a");
    let b = builder.add_param(IrType::I32, "b");
    builder.new_block("entry");
    let s = builder.add(IrType::I32, a, b);
    builder.store(IrType::I32, s, a);
    let t = builder.const_i32(3);
    assert_eq!((a, b, s, t), (0, 1, 2, 3));
    assert_eq!(builder.call(IrType::Void, "g", vec![t]), None);
    assert_eq!(builder.call(IrType::I32, "g", vec![t]), Some(4));
    let m = builder.finish();
    assert_eq!(m.functions[0].values.len(), 5);
    assert_eq!(m.functions[0].blocks[0].instructions.len(), 5);
}

#[test]
fn validation_messages_name_the_problem() {
    let mut builder = IrBuilder::new("main");
    builder.start_function("main", IrType::I32);
    builder.new_block("entry");
    builder.br("nowhere");
    let m = builder.finish();
    assert_eq!(
        m.validate().unwrap_err(),
        "block 'entry' references undefined block 'nowhere'"
    );

    let mut builder = IrBuilder::new("missing");
    builder.start_function("main", IrType::I32);
    builder.new_block("entry");
    builder.ret(None);
    let m = builder.finish();
    assert_eq!(m.validate().unwrap_err(), "entry function 'missing' not found");

    let mut builder = IrBuilder::new("main");
    builder.start_function("main", IrType::I32);
    let m = builder.finish();
    assert_eq!(m.validate().unwrap_err(), "function 'main' has no blocks");
}

#[test]
fn validation_follows_loops_and_diamonds() {
    let mut builder = IrBuilder::new("main");
    builder.start_function("main", IrType::I32);
    builder.new_block("entry");
    let c = builder.const_i1(true);
    builder.br("head");
    builder.new_block("head");
    builder.cond_br(c, "body", "exit");
    builder.new_block("body");
    builder.br("head");
    builder.new_block("exit");
    builder.ret(None);
    let m = builder.finish();
    assert!(m.validate().is_ok());
}

#[test]
fn set_entry_block_renames_entry() {
    let mut builder = IrBuilder::new("main");
    builder.start_function("main", IrType::I32);
    builder.new_block("start");
    builder.ret(None);
    builder.set_entry_block("start");
    let m = builder.finish();
    assert_eq!(m.functions[0].entry_block, "start");
    assert!(m.validate().is_ok());
}
