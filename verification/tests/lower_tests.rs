use scratcharch::ir::builder::IrBuilder;
use scratcharch::ir::lower::{
    const_limb, copy_placement, find_result_id, module_uses_shift, module_uses_wide_divrem,
    module_uses_wide_mul, resolve_parallel_copies, split_critical_edges, CopyPlacement, LowerError,
};
use scratcharch::ir::{Constant, Instruction, IrType, Terminator};

/// Slot contents after the moves, one after another.
fn apply_moves(moves: &[(u32, u32)], slots: &[i64]) -> Vec<i64> {
    let mut s = slots.to_vec();
    for &(src, dst) in moves {
        s[dst as usize] = s[src as usize];
    }
    s
}

/// Slot contents after the copies, all at once (last copy onto a slot wins,
/// self-copies ignored).
fn apply_parallel(copies: &[(u32, u32)], slots: &[i64]) -> Vec<i64> {
    let mut s = slots.to_vec();
    for &(dst, src) in copies {
        if dst != src {
            s[dst as usize] = slots[src as usize];
        }
    }
    s
}

fn check_resolution(copies: &[(u32, u32)], temp: u32) {
    let slots: Vec<i64> = (0..16).map(|i| 100 + i).collect();
    let moves = resolve_parallel_copies(&copies.to_vec(), temp);
    let got = apply_moves(&moves, &slots);
    let want = apply_parallel(copies, &slots);
    for x in 0..16usize {
        if x as u32 != temp {
            assert_eq!(got[x], want[x], "slot {} for copies {:?}", x, copies);
        }
    }
}

#[test]
fn test_parallel_copies_swap_uses_temp() {
    let moves = resolve_parallel_copies(&vec![(1, 2), (2, 1)], 9);
    assert_eq!(moves.len(), 3);
    assert!(moves.iter().any(|&(_, d)| d == 9));
    check_resolution(&[(1, 2), (2, 1)], 9);
}

#[test]
fn test_parallel_copies_chain_needs_no_temp() {
    let copies = vec![(3, 2), (2, 1), (1, 0)];
    let moves = resolve_parallel_copies(&copies, 9);
    assert_eq!(moves, vec![(2, 3), (1, 2), (0, 1)]);
    check_resolution(&copies, 9);
}

#[test]
fn test_parallel_copies_cycles_and_chains() {
    check_resolution(&[(1, 2), (2, 3), (3, 1)], 15);
    check_resolution(&[(1, 2), (2, 1), (4, 5), (5, 4), (6, 1)], 15);
    check_resolution(&[(0, 1), (1, 2), (2, 0), (3, 0), (7, 7)], 15);
    check_resolution(&[(5, 6), (6, 5), (8, 5)], 15);
}

#[test]
fn test_parallel_copies_self_and_repeated_destinations() {
    assert_eq!(resolve_parallel_copies(&vec![(4, 4)], 9), vec![]);
    assert_eq!(resolve_parallel_copies(&vec![], 9), vec![]);
    // The last copy onto slot 1 counts.
    let moves = resolve_parallel_copies(&vec![(1, 2), (1, 3)], 9);
    assert_eq!(moves, vec![(3, 1)]);
    check_resolution(&[(1, 2), (1, 3), (2, 1)], 9);
}

#[test]
fn test_find_result_id_counts_params_and_values() {
    let mut b = IrBuilder::new("main");
    b.start_function("main", IrType::I32);
    b.add_param(IrType::I32, "a");
    b.add_param(IrType::I32, "b");
    b.new_block("entry");
    let x = b.const_i32(1);
    b.store(IrType::I32, x, x);
    let y = b.const_i32(2);
    b.br("next");
    b.new_block("next");
    let z = b.add(IrType::I32, x, y);
    b.ret(Some(z));
    let module = b.finish();
    let f = module.get_function("main").unwrap();
    assert_eq!(find_result_id(f, "entry", 0), x);
    assert_eq!(find_result_id(f, "entry", 2), y);
    assert_eq!(find_result_id(f, "next", 0), z);
    assert_eq!(z, 4);
}

#[test]
fn test_const_limb_halves() {
    let c = Constant::I64(0x1122_3344_5566_7788);
    assert_eq!(const_limb(&c, 0, 2), Constant::I32(0x5566_7788));
    assert_eq!(const_limb(&c, 1, 2), Constant::I32(0x1122_3344));
    assert_eq!(const_limb(&Constant::I8(7), 0, 1), Constant::I8(7));
}

#[test]
fn test_copy_placement_cases() {
    let mut b = IrBuilder::new("main");
    b.start_function("main", IrType::Void);
    b.new_block("entry");
    let c = b.const_i1(true);
    b.cond_br(c, "a", "b");
    b.new_block("a");
    b.br("b");
    b.new_block("b");
    b.ret(None);
    let module = b.finish();
    let f = module.get_function("main").unwrap();
    let tramps = vec!["entry_b_trampoline".to_string()];
    assert_eq!(
        copy_placement(f, &tramps, "entry_b_trampoline", "b"),
        CopyPlacement::AtStartOf("entry_b_trampoline".to_string())
    );
    assert_eq!(copy_placement(f, &tramps, "a", "b"), CopyPlacement::AtEndOf("a".to_string()));
    assert_eq!(copy_placement(f, &tramps, "entry", "a"), CopyPlacement::AtStartOf("a".to_string()));
    assert_eq!(copy_placement(f, &tramps, "b", "a"), CopyPlacement::AtStartOf("a".to_string()));
}

#[test]
fn test_module_uses_helpers() {
    let mut b = IrBuilder::new("main");
    b.start_function("main", IrType::I64);
    b.new_block("entry");
    let x = b.const_i64(5);
    let s = b.lshr(IrType::I64, x, x);
    let m = b.mul(IrType::I64, s, x);
    b.ret(Some(m));
    let module = b.finish();
    assert!(module_uses_shift(&module, "__sair_lshr64"));
    assert!(!module_uses_shift(&module, "__sair_shl64"));
    assert!(!module_uses_shift(&module, "__sair_ashr64"));
    assert!(!module_uses_shift(&module, "lshr"));
    assert!(module_uses_wide_mul(&module));
    assert!(!module_uses_wide_divrem(&module));

    let mut b = IrBuilder::new("main");
    b.start_function("main", IrType::I32);
    b.new_block("entry");
    let x = b.const_i32(5);
    let m = b.mul(IrType::I32, x, x);
    let d = b.rem(IrType::I64, m, x);
    b.ret(Some(d));
    let module = b.finish();
    assert!(!module_uses_wide_mul(&module));
    assert!(module_uses_wide_divrem(&module));
}

#[test]
fn test_lower_error_variants() {
    let e = LowerError::UnsupportedType("f128".to_string());
    assert!(format!("{:?}", e).contains("f128"));
    assert!(matches!(LowerError::ValidationError(String::new()), LowerError::ValidationError(_)));
}

#[test]
fn test_split_critical_edges_diamond() {
    // entry -> {a, join}; a -> join. The edge entry -> join is critical.
    let mut b = IrBuilder::new("main");
    b.start_function("main", IrType::I32);
    b.new_block("entry");
    let c = b.const_i1(true);
    let x = b.const_i32(1);
    b.cond_br(c, "a", "join");
    b.new_block("a");
    let y = b.const_i32(2);
    b.br("join");
    b.new_block("join");
    let p = b.phi(IrType::I32, vec![(x, "entry"), (y, "a")]);
    b.ret(Some(p));
    let mut module = b.finish();
    let f = &mut module.functions[0];
    let tramps = split_critical_edges(f);
    assert_eq!(tramps, vec!["entry_join_trampoline".to_string()]);
    let labels: Vec<&str> = f.blocks.iter().map(|b| b.label.as_str()).collect();
    assert_eq!(labels, vec!["entry", "entry_join_trampoline", "a", "join"]);
    assert!(matches!(
        &f.blocks[0].terminator,
        Terminator::CondBranch { condition, true_target, false_target }
            if *condition == c && true_target == "a" && false_target == "entry_join_trampoline"
    ));
    assert!(matches!(&f.blocks[1].terminator, Terminator::Branch { target } if target == "join"));
    assert!(f.blocks[1].instructions.is_empty());
    match &f.blocks[3].instructions[0] {
        Instruction::Phi { incoming, .. } => {
            assert_eq!(
                incoming,
                &vec![(x, "entry_join_trampoline".to_string()), (y, "a".to_string())]
            );
        }
        other => panic!("expected a phi, got {:?}", other),
    }
}

#[test]
fn test_split_critical_edges_none_needed() {
    let mut b = IrBuilder::new("main");
    b.start_function("main", IrType::Void);
    b.new_block("entry");
    let c = b.const_i1(false);
    b.cond_br(c, "l", "r");
    b.new_block("l");
    b.ret(None);
    b.new_block("r");
    b.ret(None);
    let mut module = b.finish();
    let f = &mut module.functions[0];
    assert!(split_critical_edges(f).is_empty());
    assert_eq!(f.blocks.len(), 3);
}

#[test]
fn test_split_critical_edges_both_targets_critical() {
    // Both successors of entry have two predecessors; each edge gets a
    // trampoline, and the branch is rewritten from its original form once
    // per edge, the last rewrite standing.
    let mut b = IrBuilder::new("main");
    b.start_function("main", IrType::Void);
    b.new_block("entry");
    let c = b.const_i1(true);
    b.cond_br(c, "x", "y");
    b.new_block("other");
    b.cond_br(c, "x", "y");
    b.new_block("x");
    b.ret(None);
    b.new_block("y");
    b.ret(None);
    let mut module = b.finish();
    let f = &mut module.functions[0];
    let mut tramps = split_critical_edges(f);
    tramps.sort();
    assert_eq!(
        tramps,
        vec![
            "entry_x_trampoline".to_string(),
            "entry_y_trampoline".to_string(),
            "other_x_trampoline".to_string(),
            "other_y_trampoline".to_string(),
        ]
    );
    let labels: Vec<&str> = f.blocks.iter().map(|b| b.label.as_str()).collect();
    assert_eq!(
        labels,
        vec![
            "entry",
            "entry_x_trampoline",
            "entry_y_trampoline",
            "other",
            "other_x_trampoline",
            "other_y_trampoline",
            "x",
            "y"
        ]
    );
    assert!(matches!(
        &f.blocks[0].terminator,
        Terminator::CondBranch { condition, true_target, false_target }
            if *condition == c && true_target == "x" && false_target == "entry_y_trampoline"
    ));
}
