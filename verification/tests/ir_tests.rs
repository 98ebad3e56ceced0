use scratcharch::ir::{
    BasicBlock, CastOp, Constant, DebugLoc, Instruction, IrFunction, IrModule, IrType, SsaValue,
    Terminator,
};

#[test]
fn debug_loc_with_column() {
    let loc = DebugLoc::new("src.c", 10, Some(5));
    assert_eq!(loc.file, "src.c");
    assert_eq!(loc.line, 10);
    assert_eq!(loc.column, Some(5));
}

#[test]
fn debug_loc_without_column() {
    let loc = DebugLoc::new("src.c", 20, None);
    assert_eq!(loc.column, None);
}

#[test]
fn ir_type_properties() {
    assert_eq!(IrType::I64.size_in_bytes(), 8);
    assert_eq!(IrType::Pointer.size_in_bytes(), 4);
    assert_eq!(IrType::I16.alignment(), 2);
    assert_eq!(IrType::Void.alignment(), 1);
    assert!(IrType::Void.is_void());
    assert!(IrType::I1.is_integer());
    assert!(!IrType::F64.is_integer());
    assert_eq!(IrType::I16.integer_width(), Some(16));
    assert_eq!(IrType::Pointer.integer_width(), None);
    assert!(IrType::I64.is_pointer_sized_integer());
    assert!(!IrType::I8.is_pointer_sized_integer());
    assert_eq!(IrType::Pointer.as_str(), "ptr");
}

#[test]
fn ssa_value_display_names() {
    assert_eq!(SsaValue::new(7, IrType::I32, None).display_name(), "%7");
    assert_eq!(SsaValue::new(120, IrType::I32, None).display_name(), "%120");
    assert_eq!(SsaValue::new(1, IrType::I32, Some("x".to_string())).display_name(), "%x");
}

#[test]
fn instruction_result_types() {
    assert_eq!(Instruction::Const(Constant::I8(3)).result_type(), Some(IrType::I8));
    assert_eq!(Instruction::Lt { ty: IrType::I32, lhs: 0, rhs: 1 }.result_type(), Some(IrType::I1));
    assert_eq!(Instruction::Store { ty: IrType::I32, value: 0, addr: 1 }.result_type(), None);
    assert_eq!(
        Instruction::Call { return_ty: IrType::Void, callee: "f".to_string(), args: vec![] }.result_type(),
        None
    );
    assert_eq!(Instruction::Alloca { ty: IrType::I8, count: 4 }.result_type(), Some(IrType::Pointer));
    assert_eq!(CastOp::PtrToInt.name(), "ptrtoint");
}

#[test]
fn terminator_labels() {
    let t = Terminator::CondBranch {
        condition: 0,
        true_target: "a".to_string(),
        false_target: "b".to_string(),
    };
    assert_eq!(t.referenced_labels(), vec!["a".to_string(), "b".to_string()]);
    assert!(Terminator::Unreachable.referenced_labels().is_empty());
}

#[test]
fn block_and_function_building() {
    let mut b = BasicBlock::new("entry");
    b.push(Instruction::Const(Constant::I32(1)));
    b.push_with_debug(Instruction::Const(Constant::I32(2)), Some(DebugLoc::new("a.c", 3, None)));
    assert_eq!(b.debug_loc(1).map(|d| d.line), Some(3));
    assert!(b.debug_loc(0).is_none());
    assert_eq!(b.return_type(), Some(IrType::I32));
    b.set_debug_loc(0, Some(DebugLoc::new("a.c", 1, Some(2))));
    assert_eq!(b.debug_loc(0).map(|d| d.column), Some(Some(2)));

    let mut f = IrFunction::new("main", IrType::I32);
    assert_eq!(f.add_param(IrType::I32, "n"), 0);
    assert_eq!(f.new_value(IrType::I32, None), 1);
    assert_eq!(f.value_counter(), 2);
    f.add_block(b);
    f.add_block(BasicBlock::new("exit"));
    assert_eq!(f.block_index("exit"), Some(1));
    assert_eq!(f.block_index("nope"), None);
    assert_eq!(f.get_value(0).map(|v| v.display_name()), Some("%n".to_string()));

    let mut m = IrModule::new("main");
    m.add_function(IrFunction::new("main", IrType::Void));
    m.add_function(f);
    assert_eq!(m.function_index("main"), Some(1));
    assert_eq!(m.get_function("main").map(|f| f.return_ty), Some(IrType::I32));
    assert!(m.get_function("other").is_none());
}

#[test]
fn module_get_function_mut_changes_last_of_name() {
    let mut m = IrModule::new("main");
    m.add_function(IrFunction::new("main", IrType::Void));
    m.add_function(IrFunction::new("main", IrType::I32));
    if let Some(f) = m.get_function_mut("main") {
        f.add_param(IrType::I32, "x");
    }
    assert_eq!(m.functions[0].params.len(), 0);
    assert_eq!(m.functions[1].params.len(), 1);
    assert!(m.get_function_mut("other").is_none());
}
