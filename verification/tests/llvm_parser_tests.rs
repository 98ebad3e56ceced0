use scratcharch::llvm::{
    parse_llvm, LlvmConst, IcmpPred, LlvmError, LlvmGlobalInit, LlvmInstr, LlvmType, LlvmValue,
};

#[test]
fn parses_simple_function() {
    let p = parse_llvm("define i32 @main() {\n  ret i32 42\n}\n").unwrap();
    assert_eq!(p.functions.len(), 1);
    let f = &p.functions[0];
    assert_eq!(f.name, "main");
    assert_eq!(f.return_ty, LlvmType::I32);
    assert!(!f.is_declaration);
    assert_eq!(f.blocks.len(), 1);
    assert_eq!(f.blocks[0].label, "entry");
    match &f.blocks[0].instructions[0] {
        LlvmInstr::Ret { value: Some(LlvmValue::Const(c)) } => assert_eq!(c.value, 42),
        other => panic!("unexpected {:?}", other),
    }
}

#[test]
fn parses_labels_phi_and_icmp() {
    let src = "
; a comment
define dso_local i32 @f(i32 noundef %n) #0 {
entry:
  br label %loop
loop:
  %i = phi i32 [ 0, %entry ], [ %j, %loop ]
  %j = add nsw i32 %i, 1
  %c = icmp slt i32 %j, %n
  br i1 %c, label %loop, label %done
done:
  ret i32 %j
}
declare void @g(i32)
";
    let p = parse_llvm(src).unwrap();
    assert_eq!(p.functions.len(), 2);
    let f = &p.functions[0];
    assert_eq!(f.params.len(), 1);
    assert_eq!(f.params[0].1, "n");
    assert_eq!(f.blocks.len(), 3);
    match &f.blocks[1].instructions[0] {
        LlvmInstr::Phi { dest, incoming, .. } => {
            assert_eq!(dest, "i");
            assert_eq!(incoming.len(), 2);
            assert_eq!(incoming[1].1, "loop");
        }
        other => panic!("unexpected {:?}", other),
    }
    match &f.blocks[1].instructions[1] {
        LlvmInstr::BinOp { dest, op, .. } => {
            assert_eq!(dest.as_deref(), Some("j"));
            assert_eq!(op, "add");
        }
        other => panic!("unexpected {:?}", other),
    }
    match &f.blocks[1].instructions[2] {
        LlvmInstr::Icmp { pred, .. } => assert_eq!(*pred, IcmpPred::Slt),
        other => panic!("unexpected {:?}", other),
    }
    assert!(p.functions[1].is_declaration);
    assert!(p.functions[1].blocks.is_empty());
}

#[test]
fn parses_globals_and_struct_types() {
    let src = "
%struct.P = type { i32, i64 }
@g = dso_local global i32 41, align 4
@s = private constant [3 x i8] c\"a\\0A\\00\"
@t = global [2 x i32] [i32 1, i32 -2]
@e = external global i32
@r = global ptr @g
";
    let p = parse_llvm(src).unwrap();
    assert_eq!(p.struct_types.len(), 1);
    assert_eq!(p.struct_types[0].0, "struct.P");
    assert_eq!(p.struct_types[0].1, vec![LlvmType::I32, LlvmType::I64]);
    assert_eq!(p.globals.len(), 5);
    match &p.globals[0].init {
        LlvmGlobalInit::Scalar(c) => assert_eq!(c.value, 41),
        other => panic!("unexpected {:?}", other),
    }
    assert!(p.globals[1].is_constant);
    assert_eq!(p.globals[1].init, LlvmGlobalInit::Bytes(vec![b'a', 10, 0]));
    match &p.globals[2].init {
        LlvmGlobalInit::Array(v) => assert_eq!(v.len(), 2),
        other => panic!("unexpected {:?}", other),
    }
    assert_eq!(p.globals[3].init, LlvmGlobalInit::Zero);
    assert_eq!(p.globals[4].init, LlvmGlobalInit::GlobalRef("g".to_string()));
}

#[test]
fn rejects_indirect_calls_and_undef() {
    let e = parse_llvm("define i32 @m(ptr %fp) {\n  %r = call i32 %fp()\n  ret i32 %r\n}\n").unwrap_err();
    match e {
        LlvmError::Parse(msg) => assert!(msg.contains("indirect call") && msg.contains("no function-pointer ABI")),
        other => panic!("unexpected {:?}", other),
    }
    let e = parse_llvm("@g = global i32 undef\n").unwrap_err();
    assert!(e.to_string().contains("undef") && e.to_string().contains("no undefined values"));
    let e = parse_llvm("define i32 @m() {\n  %x = fneg i32 1\n  ret i32 %x\n}\n").unwrap_err();
    assert!(matches!(e, LlvmError::UnsupportedInstruction(ref s) if s == "fneg"));
    assert!(e.to_string().starts_with("unsupported instruction: "));
}

#[test]
fn number_literals() {
    let p = parse_llvm("define i64 @m() {\n  ret i64 -9223372036854775808\n}\n").unwrap();
    match &p.functions[0].blocks[0].instructions[0] {
        LlvmInstr::Ret { value: Some(LlvmValue::Const(c)) } => assert_eq!(c.value, i64::MIN),
        other => panic!("unexpected {:?}", other),
    }
    let e = parse_llvm("define i64 @m() {\n  ret i64 99999999999999999999\n}\n").unwrap_err();
    assert!(matches!(e, LlvmError::Parse(_)));
}

#[test]
fn parser_error_on_garbage() {
    assert!(parse_llvm("define").is_err());
    assert!(parse_llvm("not valid llvm").is_ok());
    assert_eq!(parse_llvm("").unwrap().functions.len(), 0);
}

#[test]
fn named_escapes_decode_to_one_byte() {
    let p = parse_llvm("@s = constant [4 x i8] c\"\\a\\b\\f\\00\"\n").unwrap();
    assert_eq!(p.globals[0].init, LlvmGlobalInit::Bytes(vec![0x07, 0x08, 0x0C, 0]));
}

#[test]
fn icmp_operands_and_type_are_kept() {
    let src = "define i1 @f() {\n  %r = icmp slt i64 -3, 5\n  ret i1 %r\n}\n";
    let p = parse_llvm(src).unwrap();
    let i = &p.functions[0].blocks[0].instructions[0];
    assert_eq!(
        *i,
        LlvmInstr::Icmp {
            dest: "r".to_string(),
            pred: IcmpPred::Slt,
            ty: LlvmType::I64,
            lhs: LlvmValue::Const(LlvmConst { value: -3, ty: LlvmType::I64 }),
            rhs: LlvmValue::Const(LlvmConst { value: 5, ty: LlvmType::I64 }),
        }
    );
}

#[test]
fn binop_flags_skipped_operands_kept() {
    let src = "define i32 @f() {\n  %q = sdiv nsw i32 -8, 3\n  ret i32 %q\n}\n";
    let p = parse_llvm(src).unwrap();
    let i = &p.functions[0].blocks[0].instructions[0];
    assert_eq!(
        *i,
        LlvmInstr::BinOp {
            dest: Some("q".to_string()),
            op: "sdiv".to_string(),
            ty: LlvmType::I32,
            lhs: LlvmValue::Const(LlvmConst { value: -8, ty: LlvmType::I32 }),
            rhs: LlvmValue::Const(LlvmConst { value: 3, ty: LlvmType::I32 }),
        }
    );
}

#[test]
fn jump_and_return_operands_are_kept() {
    let src = "define i32 @f(i32 %x) {\n  br label %next\nnext:\n  %y = add i32 %x, 1\n  ret i32 %y\n}\n";
    let p = parse_llvm(src).unwrap();
    let f = &p.functions[0];
    assert_eq!(f.blocks[0].instructions[0], LlvmInstr::Br { target: "next".to_string() });
    assert_eq!(
        f.blocks[1].instructions[1],
        LlvmInstr::Ret { value: Some(LlvmValue::Local("y".to_string())) }
    );
}

#[test]
fn single_struct_type_program() {
    let p = parse_llvm("%T = type { i32 }\n").unwrap();
    assert_eq!(p.functions.len(), 0);
    assert_eq!(p.globals.len(), 0);
    assert_eq!(p.struct_types.len(), 1);
    assert_eq!(p.struct_types[0].0, "T");
    assert_eq!(p.struct_types[0].1, vec![LlvmType::I32]);
}

#[test]
fn single_void_function_program() {
    let p = parse_llvm("define void @main() {\n  ret void\n}\n").unwrap();
    assert_eq!(p.functions.len(), 1);
    assert_eq!(p.globals.len(), 0);
    assert_eq!(p.struct_types.len(), 0);
    let f = &p.functions[0];
    assert_eq!(f.name, "main");
    assert_eq!(f.return_ty, LlvmType::Void);
    assert!(f.params.is_empty());
    assert_eq!(f.blocks.len(), 1);
    assert_eq!(f.blocks[0].label, "entry");
    assert_eq!(f.blocks[0].instructions, vec![LlvmInstr::Ret { value: None }]);
}

#[test]
fn memory_operands_keep_value_and_address() {
    let src = "define void @f(ptr %p) {\n  %a = alloca i32, align 4\n  store i32 7, ptr %a, align 4\n  %v = load i32, ptr %a, align 4\n  ret void\n}\n";
    let p = parse_llvm(src).unwrap();
    let instrs = &p.functions[0].blocks[0].instructions;
    assert_eq!(instrs[0], LlvmInstr::Alloca { dest: "a".to_string(), ty: LlvmType::I32, count: 1 });
    assert_eq!(
        instrs[1],
        LlvmInstr::Store {
            ty: LlvmType::I32,
            value: LlvmValue::Const(LlvmConst { value: 7, ty: LlvmType::I32 }),
            addr: LlvmValue::Local("a".to_string()),
        }
    );
    assert_eq!(
        instrs[2],
        LlvmInstr::Load { dest: "v".to_string(), ty: LlvmType::I32, addr: LlvmValue::Local("a".to_string()) }
    );
}

#[test]
fn cast_select_and_conditional_branch_operands() {
    let src = "define i32 @f(i1 %c, i8 %b) {\n  %w = zext i8 %b to i32\n  %s = select i1 %c, i32 %w, i32 5\n  br i1 %c, label %t, label %e\nt:\n  ret i32 %s\ne:\n  unreachable\n}\n";
    let p = parse_llvm(src).unwrap();
    let instrs = &p.functions[0].blocks[0].instructions;
    assert_eq!(
        instrs[0],
        LlvmInstr::Cast {
            dest: "w".to_string(),
            op: scratcharch::llvm::CastOp::Zext,
            from_ty: LlvmType::I8,
            to_ty: LlvmType::I32,
            value: LlvmValue::Local("b".to_string()),
        }
    );
    assert_eq!(
        instrs[1],
        LlvmInstr::Select {
            dest: "s".to_string(),
            ty: LlvmType::I32,
            cond: LlvmValue::Local("c".to_string()),
            then_value: LlvmValue::Local("w".to_string()),
            else_value: LlvmValue::Const(LlvmConst { value: 5, ty: LlvmType::I32 }),
        }
    );
    assert_eq!(
        instrs[2],
        LlvmInstr::CondBr {
            cond: LlvmValue::Local("c".to_string()),
            true_target: "t".to_string(),
            false_target: "e".to_string(),
        }
    );
    assert_eq!(p.functions[0].blocks[2].instructions[0], LlvmInstr::Unreachable);
}

#[test]
fn call_without_arguments() {
    let src = "declare i32 @g()\ndefine i32 @f() {\n  %r = call i32 @g()\n  ret i32 %r\n}\n";
    let p = parse_llvm(src).unwrap();
    let f = p.functions.iter().find(|f| f.name == "f").unwrap();
    match &f.blocks[0].instructions[0] {
        LlvmInstr::Call { dest, return_ty, callee, args } => {
            assert_eq!(dest.as_deref(), Some("r"));
            assert_eq!(*return_ty, LlvmType::I32);
            assert_eq!(callee, "g");
            assert!(args.is_empty());
        }
        other => panic!("unexpected {:?}", other),
    }
}

#[test]
fn gep_phi_and_switch_operands() {
    let src = "define i32 @f(ptr %p, i32 %x) {\nentry:\n  %q = getelementptr i32, ptr %p, i64 2\n  switch i32 %x, label %done [ ]\ndone:\n  %v = phi i32 [ 7, %entry ]\n  ret i32 %v\n}\n";
    let p = parse_llvm(src).unwrap();
    let f = &p.functions[0];
    assert_eq!(
        f.blocks[0].instructions[0],
        LlvmInstr::Gep {
            dest: "q".to_string(),
            elem_ty: LlvmType::I32,
            base: LlvmValue::Local("p".to_string()),
            indices: vec![LlvmValue::Const(LlvmConst { value: 2, ty: LlvmType::I64 })],
        }
    );
    assert_eq!(
        f.blocks[0].instructions[1],
        LlvmInstr::Switch {
            cond_ty: LlvmType::I32,
            cond: LlvmValue::Local("x".to_string()),
            default_target: "done".to_string(),
            cases: vec![],
        }
    );
    assert_eq!(
        f.blocks[1].instructions[0],
        LlvmInstr::Phi {
            dest: "v".to_string(),
            ty: LlvmType::I32,
            incoming: vec![(LlvmValue::Const(LlvmConst { value: 7, ty: LlvmType::I32 }), "entry".to_string())],
        }
    );
}
