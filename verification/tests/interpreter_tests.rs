use scratcharch::interpreter::{InterpError, Interpreter, RuntimeValue};
use scratcharch::ir::builder::IrBuilder;
use scratcharch::ir::{GepIndex, IrType};

fn text_of(v: RuntimeValue) -> String {
    match v {
        RuntimeValue::F64(bits) => format!("f64 {}", f64::from_bits(bits)),
        other => other.to_string(),
    }
}

fn run_sair(builder: IrBuilder) -> Result<String, String> {
    let module = builder.finish();
    module.validate().map_err(|e| e.to_string())?;
    let mut interp = Interpreter::new(module, 65536, 4096);
    let result = interp.run().map_err(|e| format!("{:?}", e))?;
    Ok(match result {
        Some(v) => text_of(v),
        None => "void".to_string(),
    })
}

fn run_raw(builder: IrBuilder) -> Result<Option<RuntimeValue>, InterpError> {
    let module = builder.finish();
    let mut interp = Interpreter::new(module, 65536, 4096);
    interp.run()
}

// ── Basic arithmetic ─────────────────────────────────────────────

#[test]
fn test_interp_add() {
    let mut b = IrBuilder::new("main");
    b.start_function("main", IrType::I32);
    b.new_block("entry");
    let a = b.const_i32(20);
    let bv = b.const_i32(22);
    let s = b.add(IrType::I32, a, bv);
    b.ret(Some(s));
    let result = run_sair(b).unwrap();
    assert_eq!(result, "i32 42");
}

#[test]
fn test_interp_sub() {
    let mut b = IrBuilder::new("main");
    b.start_function("main", IrType::I32);
    b.new_block("entry");
    let a = b.const_i32(50);
    let bv = b.const_i32(8);
    let s = b.sub(IrType::I32, a, bv);
    b.ret(Some(s));
    let result = run_sair(b).unwrap();
    assert_eq!(result, "i32 42");
}

#[test]
fn test_interp_mul() {
    let mut b = IrBuilder::new("main");
    b.start_function("main", IrType::I32);
    b.new_block("entry");
    let a = b.const_i32(6);
    let bv = b.const_i32(7);
    let p = b.mul(IrType::I32, a, bv);
    b.ret(Some(p));
    let result = run_sair(b).unwrap();
    assert_eq!(result, "i32 42");
}

#[test]
fn test_interp_div() {
    let mut b = IrBuilder::new("main");
    b.start_function("main", IrType::I32);
    b.new_block("entry");
    let a = b.const_i32(84);
    let bv = b.const_i32(2);
    let q = b.div(IrType::I32, a, bv);
    b.ret(Some(q));
    let result = run_sair(b).unwrap();
    assert_eq!(result, "i32 42");
}

#[test]
fn test_interp_rem() {
    let mut b = IrBuilder::new("main");
    b.start_function("main", IrType::I32);
    b.new_block("entry");
    let a = b.const_i32(43);
    let bv = b.const_i32(2);
    let r = b.rem(IrType::I32, a, bv);
    b.ret(Some(r));
    let result = run_sair(b).unwrap();
    assert_eq!(result, "i32 1");
}

// ── Comparison ───────────────────────────────────────────────────

#[test]
fn test_interp_eq() {
    let mut b = IrBuilder::new("main");
    b.start_function("main", IrType::I1);
    b.new_block("entry");
    let a = b.const_i32(5);
    let bv = b.const_i32(5);
    let e = b.eq(IrType::I32, a, bv);
    b.ret(Some(e));
    let result = run_sair(b).unwrap();
    assert_eq!(result, "i1 1");
}

#[test]
fn test_interp_neq() {
    let mut b = IrBuilder::new("main");
    b.start_function("main", IrType::I1);
    b.new_block("entry");
    let a = b.const_i32(5);
    let bv = b.const_i32(6);
    let e = b.eq(IrType::I32, a, bv);
    b.ret(Some(e));
    let result = run_sair(b).unwrap();
    assert_eq!(result, "i1 0");
}

#[test]
fn test_interp_lt() {
    let mut b = IrBuilder::new("main");
    b.start_function("main", IrType::I1);
    b.new_block("entry");
    let a = b.const_i32(3);
    let bv = b.const_i32(5);
    let lt = b.lt(IrType::I32, a, bv);
    b.ret(Some(lt));
    let result = run_sair(b).unwrap();
    assert_eq!(result, "i1 1");
}

#[test]
fn test_interp_gt() {
    let mut b = IrBuilder::new("main");
    b.start_function("main", IrType::I1);
    b.new_block("entry");
    let a = b.const_i32(7);
    let bv = b.const_i32(5);
    let gt = b.gt(IrType::I32, a, bv);
    b.ret(Some(gt));
    let result = run_sair(b).unwrap();
    assert_eq!(result, "i1 1");
}

// ── Memory operations ────────────────────────────────────────────

#[test]
fn test_interp_alloca_store_load() {
    let mut b = IrBuilder::new("main");
    b.start_function("main", IrType::I32);
    b.new_block("entry");
    let ptr = b.alloca(IrType::I32);
    let val = b.const_i32(42);
    b.store(IrType::I32, val, ptr);
    let loaded = b.load(IrType::I32, ptr);
    b.ret(Some(loaded));
    let result = run_sair(b).unwrap();
    assert_eq!(result, "i32 42");
}

// ── Constants ────────────────────────────────────────────────────

#[test]
fn test_interp_const_i1() {
    let mut b = IrBuilder::new("main");
    b.start_function("main", IrType::I1);
    b.new_block("entry");
    let v = b.const_i1(true);
    b.ret(Some(v));
    let result = run_sair(b).unwrap();
    assert_eq!(result, "i1 1");
}

#[test]
fn test_interp_const_i8() {
    let mut b = IrBuilder::new("main");
    b.start_function("main", IrType::I8);
    b.new_block("entry");
    let v = b.const_i8(42);
    b.ret(Some(v));
    let result = run_sair(b).unwrap();
    assert_eq!(result, "i8 42");
}

#[test]
fn test_interp_const_i16() {
    let mut b = IrBuilder::new("main");
    b.start_function("main", IrType::I16);
    b.new_block("entry");
    let v = b.const_i16(1000);
    b.ret(Some(v));
    let result = run_sair(b).unwrap();
    assert_eq!(result, "i16 1000");
}

// ── Control flow (multi-block) ───────────────────────────────────

#[test]
fn test_interp_conditional_branch() {
    let mut b = IrBuilder::new("main");
    b.start_function("main", IrType::I32);
    b.new_block("entry");
    let cond = b.const_i1(true);
    b.cond_br(cond, "then", "else_");
    b.new_block("then");
    let v42 = b.const_i32(42);
    b.br("end");
    b.new_block("else_");
    let v0 = b.const_i32(0);
    b.br("end");
    b.new_block("end");
    let result = b.phi(IrType::I32, vec![(v42, "then"), (v0, "else_")]);
    b.ret(Some(result));
    let result = run_sair(b).unwrap();
    assert_eq!(result, "i32 42");
}

#[test]
fn test_interp_conditional_branch_false() {
    let mut b = IrBuilder::new("main");
    b.start_function("main", IrType::I32);
    b.new_block("entry");
    let cond = b.const_i1(false);
    b.cond_br(cond, "then", "else_");
    b.new_block("then");
    let v42 = b.const_i32(42);
    b.br("end");
    b.new_block("else_");
    let v0 = b.const_i32(0);
    b.br("end");
    b.new_block("end");
    let result = b.phi(IrType::I32, vec![(v42, "then"), (v0, "else_")]);
    b.ret(Some(result));
    let result = run_sair(b).unwrap();
    assert_eq!(result, "i32 0");
}

#[test]
fn test_interp_unconditional_branch() {
    let mut b = IrBuilder::new("main");
    b.start_function("main", IrType::I32);
    b.new_block("entry");
    let a = b.const_i32(10);
    b.br("next");
    b.new_block("next");
    let bv = b.const_i32(32);
    let s = b.add(IrType::I32, a, bv);
    b.ret(Some(s));
    let result = run_sair(b).unwrap();
    assert_eq!(result, "i32 42");
}

// ── Function calls ───────────────────────────────────────────────

#[test]
fn test_interp_function_call() {
    let mut b = IrBuilder::new("main");
    b.start_function("add", IrType::I32);
    let a = b.add_param(IrType::I32, "a");
    let bv = b.add_param(IrType::I32, "b");
    b.new_block("entry");
    let s = b.add(IrType::I32, a, bv);
    b.ret(Some(s));
    b.start_function("main", IrType::I32);
    b.new_block("entry");
    let one = b.const_i32(20);
    let two = b.const_i32(22);
    let r = b.call(IrType::I32, "add", vec![one, two]).unwrap();
    b.ret(Some(r));
    let result = run_sair(b).unwrap();
    assert_eq!(result, "i32 42");
}

// ── GEP ──────────────────────────────────────────────────────────

#[test]
fn test_interp_gep_single() {
    let mut b = IrBuilder::new("main");
    b.start_function("main", IrType::Pointer);
    b.new_block("entry");
    let base = b.alloca(IrType::I32);
    let idx = b.const_i32(2);
    let result = b.gep(IrType::I32, base, vec![GepIndex::Dynamic(idx)]);
    b.ret(Some(result));
    let result = run_sair(b).unwrap();
    assert!(result.starts_with("ptr "));
}

#[test]
fn test_interp_gep_struct_field() {
    let mut b = IrBuilder::new("main");
    b.start_function("main", IrType::Pointer);
    b.new_block("entry");
    let base = b.alloca(IrType::I32);
    let result = b.gep(IrType::I32, base, vec![GepIndex::StructField(1)]);
    b.ret(Some(result));
    let result = run_sair(b).unwrap();
    assert!(result.starts_with("ptr "));
}

#[test]
fn test_interp_gep_and_access() {
    let mut b = IrBuilder::new("main");
    b.start_function("main", IrType::I32);
    b.new_block("entry");
    // Allocate array space: 4 * i32 = 16 bytes
    let arr = b.alloca(IrType::I32);
    // Store 42 at arr[0]
    let val = b.const_i32(42);
    b.store(IrType::I32, val, arr);
    // Load from arr[0] using GEP
    let zero = b.const_i32(0);
    let elem_ptr = b.gep(IrType::I32, arr, vec![GepIndex::Dynamic(zero)]);
    let loaded = b.load(IrType::I32, elem_ptr);
    b.ret(Some(loaded));
    let result = run_sair(b).unwrap();
    assert_eq!(result, "i32 42");
}

// ── Multi-block with phi ─────────────────────────────────────────

#[test]
fn test_interp_phi_select() {
    let mut b = IrBuilder::new("main");
    b.start_function("main", IrType::I32);
    b.new_block("entry");
    let cond = b.const_i1(true);
    let a = b.const_i32(100);
    let bv = b.const_i32(200);
    b.cond_br(cond, "then", "else_");
    b.new_block("then");
    b.br("join");
    b.new_block("else_");
    b.br("join");
    b.new_block("join");
    let result = b.phi(IrType::I32, vec![(a, "then"), (bv, "else_")]);
    b.ret(Some(result));
    let result = run_sair(b).unwrap();
    // Values from "then" block: a = 100
    // Values from "else_" block: bv = 200
    // Since cond is true, we get "then" block's value = 100
    assert_eq!(result, "i32 100");
}

#[test]
fn test_interp_void_function() {
    let mut b = IrBuilder::new("main");
    b.start_function("main", IrType::Void);
    b.new_block("entry");
    let _ = b.const_i32(42);
    b.ret(None);
    let result = run_sair(b).unwrap();
    assert_eq!(result, "void");
}

#[test]
fn test_interp_wrapping_arithmetic() {
    let mut b = IrBuilder::new("main");
    b.start_function("main", IrType::I32);
    b.new_block("entry");
    let max = b.const_i32(u32::MAX);
    let one = b.const_i32(1);
    let result = b.add(IrType::I32, max, one);
    b.ret(Some(result));
    let result = run_sair(b).unwrap();
    assert_eq!(result, "i32 0");
}

// ── Further cases ────────────────────────────────────────────────

#[test]
fn test_interp_division_by_zero() {
    let mut b = IrBuilder::new("main");
    b.start_function("main", IrType::I32);
    b.new_block("entry");
    let a = b.const_i32(1);
    let z = b.const_i32(0);
    let q = b.div(IrType::I32, a, z);
    b.ret(Some(q));
    assert_eq!(run_raw(b), Err(InterpError::DivisionByZero));
}

#[test]
fn test_interp_unreachable_traps() {
    let mut b = IrBuilder::new("main");
    b.start_function("main", IrType::I32);
    b.new_block("entry");
    b.unreachable();
    assert_eq!(run_raw(b), Err(InterpError::Trap));
}

#[test]
fn test_interp_missing_entry() {
    let mut b = IrBuilder::new("start");
    b.start_function("main", IrType::I32);
    b.new_block("entry");
    b.ret(None);
    assert_eq!(run_raw(b), Err(InterpError::UndefinedFunction("start".to_string())));
}

#[test]
fn test_interp_shifts_and_masks() {
    let mut b = IrBuilder::new("main");
    b.start_function("main", IrType::I8);
    b.new_block("entry");
    let x = b.const_i8(0x80);
    let one = b.const_i8(1);
    let r = b.ashr(IrType::I8, x, one);
    b.ret(Some(r));
    // 0x80 >> 1 with sign fill at 8 bits is 0xc0, carried as i32.
    assert_eq!(run_sair(b).unwrap(), "i32 192");
}

#[test]
fn test_interp_shift_amount_wraps_at_width() {
    let mut b = IrBuilder::new("main");
    b.start_function("main", IrType::I32);
    b.new_block("entry");
    let x = b.const_i32(1);
    let n = b.const_i32(33);
    let r = b.shl(IrType::I32, x, n);
    b.ret(Some(r));
    assert_eq!(run_sair(b).unwrap(), "i32 2");
}

#[test]
fn test_interp_i8_sum_carried_unmasked() {
    let mut b = IrBuilder::new("main");
    b.start_function("main", IrType::I8);
    b.new_block("entry");
    let x = b.const_i8(200);
    let y = b.const_i8(100);
    let s = b.add(IrType::I8, x, y);
    b.ret(Some(s));
    // The i8 sum is carried in an i32 cell holding the full 64-bit result's
    // low word; readers mask it to eight bits.
    assert_eq!(run_sair(b).unwrap(), "i32 300");
}

#[test]
fn test_interp_store_load_i16_little_endian() {
    let mut b = IrBuilder::new("main");
    b.start_function("main", IrType::I8);
    b.new_block("entry");
    let p = b.alloca(IrType::I16);
    let v = b.const_i16(0x1234);
    b.store(IrType::I16, v, p);
    let lo = b.load(IrType::I8, p);
    b.ret(Some(lo));
    assert_eq!(run_sair(b).unwrap(), "i8 52");
}

#[test]
fn test_interp_llvm_ctpop_intrinsic() {
    let mut b = IrBuilder::new("main");
    b.start_function("main", IrType::I32);
    b.new_block("entry");
    let x = b.const_i32(0xf0f0);
    let r = b.call(IrType::I32, "llvm.ctpop.i32", vec![x]).unwrap();
    b.ret(Some(r));
    assert_eq!(run_sair(b).unwrap(), "i32 8");
}

#[test]
fn test_interp_llvm_bswap_intrinsic() {
    let mut b = IrBuilder::new("main");
    b.start_function("main", IrType::I32);
    b.new_block("entry");
    let x = b.const_i32(0x1122_3344);
    let r = b.call(IrType::I32, "llvm.bswap.i32", vec![x]).unwrap();
    b.ret(Some(r));
    assert_eq!(run_sair(b).unwrap(), format!("i32 {}", 0x4433_2211u32));
}

#[test]
fn test_interp_llvm_bad_width_refused() {
    let mut b = IrBuilder::new("main");
    b.start_function("main", IrType::I32);
    b.new_block("entry");
    let x = b.const_i32(1);
    let r = b.call(IrType::I32, "llvm.ctpop.i7", vec![x]).unwrap();
    b.ret(Some(r));
    assert_eq!(
        run_raw(b),
        Err(InterpError::UnsupportedInstruction("unsupported llvm intrinsic width 7 in llvm.ctpop.i7".to_string()))
    );
}

#[test]
fn test_interp_memset_then_load() {
    let mut b = IrBuilder::new("main");
    b.start_function("main", IrType::I32);
    b.new_block("entry");
    let p = b.alloca(IrType::I32);
    let byte = b.const_i8(0xab);
    let len = b.const_i64(4);
    let _ = b.call(IrType::Void, "llvm.memset.p0.i64", vec![p, byte, len]);
    let v = b.load(IrType::I32, p);
    b.ret(Some(v));
    assert_eq!(run_sair(b).unwrap(), format!("i32 {}", 0xabab_ababu32));
}

#[test]
fn test_interp_memcpy_variant_refused() {
    let mut b = IrBuilder::new("main");
    b.start_function("main", IrType::I32);
    b.new_block("entry");
    let p = b.alloca(IrType::I32);
    let len = b.const_i64(4);
    let _ = b.call(IrType::Void, "llvm.memcpy.inline.p0.p0.i64", vec![p, p, len]);
    b.ret(None);
    assert_eq!(
        run_raw(b),
        Err(InterpError::UnsupportedInstruction(
            "unsupported llvm.memcpy variant: llvm.memcpy.inline.p0.p0.i64".to_string()
        ))
    );
}

#[test]
fn test_interp_runtime_strlen() {
    let mut b = IrBuilder::new("main");
    b.start_function("main", IrType::I32);
    b.new_block("entry");
    let p = b.alloca(IrType::I32);
    let word = b.const_i32(0x0063_6261); // "abc\0"
    b.store(IrType::I32, word, p);
    let n = b.call(IrType::I32, "__scratcharch_strlen", vec![p]).unwrap();
    b.ret(Some(n));
    assert_eq!(run_sair(b).unwrap(), "i32 3");
}

#[test]
fn test_interp_stack_overflow() {
    let mut b = IrBuilder::new("main");
    b.start_function("main", IrType::I32);
    b.new_block("entry");
    let _ = b.alloca_array(IrType::I32, 20000);
    b.ret(None);
    assert_eq!(run_raw(b), Err(InterpError::StackOverflow));
}

#[test]
fn test_interp_recursion_limit() {
    let mut b = IrBuilder::new("main");
    b.start_function("main", IrType::I32);
    b.new_block("entry");
    let r = b.call(IrType::I32, "main", vec![]).unwrap();
    b.ret(Some(r));
    let module = b.finish();
    let mut interp = Interpreter::new(module, 65536, 4096);
    interp.set_max_frames(8);
    assert_eq!(interp.run(), Err(InterpError::CallStackOverflow));
}

#[test]
fn test_runtime_value_text() {
    assert_eq!(RuntimeValue::I1(false).to_string(), "i1 0");
    assert_eq!(RuntimeValue::I64(7).to_string(), "i64 7");
    assert_eq!(RuntimeValue::Pointer(0xff00).to_string(), "ptr 0xff00");
}

#[test]
fn test_set_phi_operand_loop_sum() {
    // sum = 0; for i = 0; i < 5; i++ { sum += i }; return sum
    let mut builder = IrBuilder::new("main");
    builder.start_function("main", IrType::I32);
    builder.new_block("entry");
    let zero = builder.const_i32(0);
    let one = builder.const_i32(1);
    let five = builder.const_i32(5);
    builder.br("check");

    builder.new_block("check");
    let i = builder.phi(IrType::I32, vec![(zero, "entry"), (zero, "body")]);
    let acc = builder.phi(IrType::I32, vec![(zero, "entry"), (zero, "body")]);
    let cond = builder.lt(IrType::I32, i, five);
    builder.cond_br(cond, "body", "end");

    builder.new_block("body");
    let acc_next = builder.add(IrType::I32, acc, i);
    let i_next = builder.add(IrType::I32, i, one);
    builder.set_phi_operand("check", 0, "body", i_next);
    builder.set_phi_operand("check", 1, "body", acc_next);
    builder.br("check");

    builder.new_block("end");
    builder.ret(Some(acc));

    assert_eq!(run_sair(builder).unwrap(), "i32 10");
}
