use scratcharch::ir::function::IrFunction;
use scratcharch::ir::instruction::{Instruction, Terminator};
use scratcharch::ir::module::IrModule;
use scratcharch::pipeline::decompile::Decompiler;
use scratcharch::pipeline::scratch::{Expr, Procedure, Project, Stage, Stmt, Value as SgValue};

fn number(x: f64) -> Expr {
    Expr::Literal(SgValue::Number(x.to_bits()))
}

fn decompile_one(params: Vec<String>, body: Vec<Stmt>) -> IrModule {
    let mut project = Project::new();
    project.stage.procedures.push(Procedure::new("p", params, body));
    Decompiler::new().decompile(&project).expect("decompile failed")
}

fn labels(f: &IrFunction) -> Vec<String> {
    f.blocks.iter().map(|b| b.label.clone()).collect()
}

fn branch_target(t: &Terminator) -> Option<String> {
    match t {
        Terminator::Branch { target } => Some(target.clone()),
        _ => None,
    }
}

#[test]
fn test_decompile_with_procedure() {
    let mut project = Project::new();
    project.stage = Stage::new("Stage");

    project.stage.procedures.push(Procedure::new(
        "add",
        vec![],
        vec![
            Stmt::SetVariable { var: "x".to_string(), value: number(1.0) },
            Stmt::SetVariable { var: "y".to_string(), value: number(2.0) },
        ],
    ));

    let decompiler = Decompiler::new();
    let module = decompiler.decompile(&project).expect("decompile failed");
    assert_eq!(module.functions.len(), 1);
    assert_eq!(module.functions[0].name, "add");
}

#[test]
fn decompile_empty_project_gives_empty_module() {
    let module = Decompiler::new().decompile(&Project::new()).expect("decompile failed");
    assert_eq!(module.functions.len(), 0);
    assert_eq!(module.entry, "main");
}

#[test]
fn decompile_takes_stage_then_sprites() {
    let mut project = Project::new();
    project.stage.procedures.push(Procedure::new("s", vec![], vec![]));
    let mut sprite = scratcharch::pipeline::scratch::Sprite::new("cat");
    sprite.procedures.push(Procedure::new("c1", vec![], vec![]));
    sprite.procedures.push(Procedure::new("c2", vec![], vec![]));
    project.sprites.push(scratcharch::pipeline::scratch::Sprite::new("empty"));
    project.sprites.push(sprite);
    let module = Decompiler::new().decompile(&project).expect("decompile failed");
    let names: Vec<String> = module.functions.iter().map(|f| f.name.clone()).collect();
    assert_eq!(names, vec!["s", "c1", "c2"]);
    for f in &module.functions {
        assert_eq!(labels(f), vec!["entry"]);
        assert!(matches!(f.blocks[0].terminator, Terminator::Return { value: None }));
    }
}

#[test]
fn decompile_params_and_sorted_variable_slots() {
    let module = decompile_one(
        vec!["n".to_string()],
        vec![
            Stmt::SetVariable { var: "b".to_string(), value: Expr::ProcedureParam("n".to_string()) },
            Stmt::SetVariable { var: "a".to_string(), value: number(3.0) },
        ],
    );
    let f = &module.functions[0];
    assert_eq!(f.params.len(), 1);
    assert_eq!(f.params[0].1, "n");
    let entry = &f.blocks[0];
    assert!(matches!(entry.instructions[0], Instruction::Alloca { count: 1, .. }));
    assert!(matches!(entry.instructions[1], Instruction::Alloca { count: 1, .. }));
    // "a" sorts first: its slot is value 1, that of "b" value 2; the
    // parameter is value 0 and is stored directly.
    match &entry.instructions[2] {
        Instruction::Store { value, addr, .. } => {
            assert_eq!(*value, 0);
            assert_eq!(*addr, 2);
        }
        other => panic!("expected a store, got {:?}", other),
    }
    let last_store_addr = entry.instructions.iter().rev().find_map(|i| match i {
        Instruction::Store { addr, .. } => Some(*addr),
        _ => None,
    });
    assert_eq!(last_store_addr, Some(1));
}

#[test]
fn decompile_if_makes_then_else_merge() {
    let module = decompile_one(
        vec![],
        vec![Stmt::If {
            condition: Expr::Literal(SgValue::Bool(true)),
            then_body: vec![Stmt::SetVariable { var: "x".to_string(), value: number(1.0) }],
            else_body: vec![],
        }],
    );
    let f = &module.functions[0];
    assert_eq!(labels(f), vec!["entry", "then_0", "else_1", "merge_2"]);
    match &f.blocks[0].terminator {
        Terminator::CondBranch { true_target, false_target, .. } => {
            assert_eq!(true_target, "then_0");
            assert_eq!(false_target, "else_1");
        }
        other => panic!("expected a conditional branch, got {:?}", other),
    }
    assert_eq!(branch_target(&f.blocks[1].terminator), Some("merge_2".to_string()));
    assert_eq!(branch_target(&f.blocks[2].terminator), Some("merge_2".to_string()));
    assert!(matches!(f.blocks[3].terminator, Terminator::Return { value: None }));
}

#[test]
fn decompile_repeat_loops_back_to_header() {
    let module = decompile_one(vec![], vec![Stmt::Repeat { times: number(10.0), body: vec![] }]);
    let f = &module.functions[0];
    assert_eq!(labels(f), vec!["entry", "loop_header_0", "loop_body_1", "loop_end_2"]);
    assert_eq!(branch_target(&f.blocks[0].terminator), Some("loop_header_0".to_string()));
    assert_eq!(branch_target(&f.blocks[1].terminator), Some("loop_body_1".to_string()));
    assert_eq!(branch_target(&f.blocks[2].terminator), Some("loop_header_0".to_string()));
    assert!(matches!(f.blocks[3].terminator, Terminator::Return { value: None }));
}

#[test]
fn decompile_repeat_until_tests_in_header() {
    let module = decompile_one(
        vec![],
        vec![Stmt::RepeatUntil { condition: Expr::Literal(SgValue::Bool(false)), body: vec![] }],
    );
    let f = &module.functions[0];
    assert_eq!(labels(f), vec!["entry", "loop_header_0", "loop_body_1", "loop_end_2"]);
    match &f.blocks[1].terminator {
        Terminator::CondBranch { true_target, false_target, .. } => {
            assert_eq!(true_target, "loop_end_2");
            assert_eq!(false_target, "loop_body_1");
        }
        other => panic!("expected a conditional branch, got {:?}", other),
    }
}

#[test]
fn decompile_forever_last_block_gets_return() {
    let module = decompile_one(vec![], vec![Stmt::Forever { body: vec![] }]);
    let f = &module.functions[0];
    assert_eq!(labels(f), vec!["entry", "forever_body_0"]);
    assert_eq!(branch_target(&f.blocks[0].terminator), Some("forever_body_0".to_string()));
    // The final step replaces the loop's back edge with a return.
    assert!(matches!(f.blocks[1].terminator, Terminator::Return { value: None }));
}

#[test]
fn decompile_stop_opens_unreachable_block() {
    let module = decompile_one(vec![], vec![Stmt::Stop, Stmt::Stop]);
    let f = &module.functions[0];
    assert_eq!(labels(f), vec!["entry", "unreachable_0", "unreachable_1"]);
    for b in &f.blocks {
        assert!(matches!(b.terminator, Terminator::Return { value: None }));
    }
}

#[test]
fn decompile_call_and_change_variable() {
    let module = decompile_one(
        vec![],
        vec![
            Stmt::ChangeVariable { var: "x".to_string(), delta: number(1.0) },
            Stmt::Call { proc: "f".to_string(), args: vec![number(2.0), Expr::Variable("x".to_string())] },
        ],
    );
    let f = &module.functions[0];
    let instrs = &f.blocks[0].instructions;
    assert!(instrs.iter().any(|i| matches!(i, Instruction::Add { .. })));
    match instrs.last() {
        Some(Instruction::Call { callee, args, .. }) => {
            assert_eq!(callee, "f");
            assert_eq!(args.len(), 2);
        }
        other => panic!("expected a call, got {:?}", other),
    }
}
