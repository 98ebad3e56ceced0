use scratcharch::ir::builder::IrBuilder;
use scratcharch::ir::{Constant, IrType};
use scratcharch::opt::analysis::FunctionAnalysis;

#[test]
fn test_analysis_definitions_uses_and_constants() {
    let mut b = IrBuilder::new("main");
    b.start_function("main", IrType::I32);
    let p = b.add_param(IrType::I32, "x");
    b.new_block("entry");
    let c1 = b.const_i32(5);
    let c2 = b.const_i32(7);
    let s = b.add(IrType::I32, c1, c2);
    let t = b.add(IrType::I32, s, p);
    b.ret(Some(t));
    let module = b.finish();
    let func = module.get_function("main").unwrap();
    let a = FunctionAnalysis::build(func);

    assert_eq!(a.def_map().len(), 4);
    assert!(a.def_map().get(&p).is_none());
    assert_eq!(a.def_map().get(&c1), Some(&("entry".to_string(), 0)));
    assert_eq!(a.def_map().get(&t), Some(&("entry".to_string(), 3)));

    assert_eq!(a.num_users(c1), 1);
    assert_eq!(a.num_users(p), 1);
    assert!(a.has_users(t));
    assert_eq!(a.use_map().get(&t), Some(&vec![("entry".to_string(), usize::MAX)]));
    assert_eq!(a.use_map().get(&s), Some(&vec![("entry".to_string(), 3)]));
    assert!(!a.has_users(99));
    assert_eq!(a.num_users(99), 0);

    assert!(a.is_constant_value(c1));
    assert!(!a.is_constant_value(s));
    assert!(!a.is_constant_value(p));
    assert_eq!(a.get_constant(c2), Some(&Constant::I32(7)));
    assert_eq!(a.get_constant(t), None);
}

#[test]
fn test_analysis_operand_read_twice_counts_twice() {
    let mut b = IrBuilder::new("main");
    b.start_function("main", IrType::I32);
    b.new_block("entry");
    let c = b.const_i32(3);
    let d = b.mul(IrType::I32, c, c);
    b.ret(Some(d));
    let module = b.finish();
    let a = FunctionAnalysis::build(module.get_function("main").unwrap());
    assert_eq!(a.num_users(c), 2);
    assert_eq!(
        a.use_map().get(&c),
        Some(&vec![("entry".to_string(), 1), ("entry".to_string(), 1)])
    );
}

#[test]
fn test_analysis_edges_and_reachability() {
    let mut b = IrBuilder::new("main");
    b.start_function("main", IrType::Void);
    b.new_block("entry");
    let c = b.const_i1(true);
    b.cond_br(c, "left", "right");
    b.new_block("left");
    b.br("join");
    b.new_block("right");
    b.br("join");
    b.new_block("dead");
    b.br("join");
    b.new_block("join");
    b.ret(None);
    let module = b.finish();
    let a = FunctionAnalysis::build(module.get_function("main").unwrap());

    assert_eq!(
        a.successors("entry"),
        Some(&vec!["left".to_string(), "right".to_string()])
    );
    assert_eq!(a.successors("join"), Some(&vec![]));
    assert_eq!(
        a.predecessors("join"),
        Some(&vec!["left".to_string(), "right".to_string(), "dead".to_string()])
    );
    assert_eq!(a.predecessors("entry"), Some(&vec![]));
    assert_eq!(a.predecessors("nowhere"), None);
    assert_eq!(a.successors("nowhere"), None);
    assert_eq!(a.pred_map().len(), 5);

    assert!(a.is_block_reachable("entry"));
    assert!(a.is_block_reachable("join"));
    assert!(!a.is_block_reachable("dead"));
    let mut reach = a.reachable_blocks().clone();
    reach.sort();
    assert_eq!(reach, vec!["entry", "join", "left", "right"]);
}

#[test]
fn test_analysis_undefined_target_is_named_and_reached() {
    let mut b = IrBuilder::new("main");
    b.start_function("main", IrType::Void);
    b.new_block("entry");
    b.br("missing");
    let module = b.finish();
    let a = FunctionAnalysis::build(module.get_function("main").unwrap());
    assert_eq!(a.predecessors("missing"), Some(&vec!["entry".to_string()]));
    assert_eq!(a.successors("missing"), None);
    assert!(a.is_block_reachable("missing"));
}
