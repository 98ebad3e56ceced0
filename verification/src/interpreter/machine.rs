//! The interpreter's machine: call frames over a module, a flat memory
//! with a downward-growing stack, and one step of execution at a time.
//!
//! A value-producing instruction stores its result in the frame slot of
//! its SSA id: the id of the first result-producing instruction at the
//! frame's block label and instruction index, in program order. A call to
//! a module function pushes a frame; its return pops it, stores the result
//! in the caller and moves the caller past the call.

use vstd::prelude::*;

use crate::interpreter::intrinsics::{
    dispatch_runtime_intrinsic, intrinsic_call_outcome, lemma_intrinsic_call_keeps_len, spliced,
};
use crate::interpreter::values::{
    lemma_le_bytes_len, lemma_store_load_roundtrip, reloaded, address_of, binop_spec, bitop_spec, bytes_to_runtime, cast_spec, cast_value, f64_bits_equal, f64_equal,
    int_binop, int_bitop, int_bits, int_bits_of, lift, loaded_value, mismatch_error, store_bytes, store_spec,
    type_fault, BinOp, BitOp, Fault, InterpError, RuntimeValue,
};
use crate::ir::block::BasicBlock;
use crate::ir::function::{first_block_index, IrFunction};
use crate::ir::instruction::{result_type_of, GepIndex, Instruction, Terminator};
use crate::ir::module::{last_function_index, lemma_last_function_index, IrModule, StaticData};
use crate::ir::text::writer::{
    blocks_result_count, ids_fit, lemma_blocks_result_count_prefix, lemma_result_count_prefix, result_count,
};
use crate::ir::types::{int_width, type_size, IrType};
use crate::ir::value::Constant;

verus! {

/// One activation of a function.
#[derive(Debug, Clone)]
pub struct Frame {
    pub func_name: String,
    /// Slot `i` holds SSA value `i` once defined.
    pub values: Vec<Option<RuntimeValue>>,
    pub return_ty: IrType,
    pub current_block: String,
    pub instr_idx: usize,
    /// The block control came from, if any.
    pub prev_block: Option<String>,
}

/// What the semantics sees of a frame.
#[verifier::ext_equal]
pub struct FrameView {
    pub func: Seq<char>,
    pub values: Seq<Option<RuntimeValue>>,
    pub block: Seq<char>,
    pub idx: nat,
    pub prev: Option<Seq<char>>,
}

impl View for Frame {
    type V = FrameView;

    open spec fn view(&self) -> FrameView {
        FrameView {
            func: self.func_name@,
            values: self.values@,
            block: self.current_block@,
            idx: self.instr_idx as nat,
            prev: match self.prev_block {
                Some(p) => Some(p@),
                None => None,
            },
        }
    }
}

/// What the semantics sees of the machine: the frames (the last one runs),
/// the memory and the stack pointer.
#[verifier::ext_equal]
pub struct Machine {
    pub frames: Seq<FrameView>,
    pub memory: Seq<u8>,
    pub sp: u32,
}

/// The function a frame named `name` runs: the last one of that name.
pub open spec fn function_of(m: IrModule, name: Seq<char>) -> Option<IrFunction> {
    match last_function_index(m.functions@, name) {
        Some(i) => Some(m.functions@[i]),
        None => None,
    }
}

/// The SSA id of the first result-producing instruction at index `idx` of
/// a block labelled `label`, counting the ids of `bs` from zero.
pub open spec fn id_in_blocks(bs: Seq<BasicBlock>, label: Seq<char>, idx: int) -> Option<nat>
    decreases bs.len(),
{
    if bs.len() == 0 {
        None
    } else {
        match id_in_blocks(bs.drop_last(), label, idx) {
            Some(id) => Some(id),
            None => {
                let b = bs.last();
                if b.label@ == label && 0 <= idx < b.instructions@.len() && result_type_of(
                    b.instructions@[idx],
                ) is Some {
                    Some(blocks_result_count(bs.drop_last()) + result_count(b.instructions@.take(idx)))
                } else {
                    None
                }
            },
        }
    }
}

/// The SSA id an instruction at `idx` of block `label` defines.
pub open spec fn value_id_at(f: IrFunction, label: Seq<char>, idx: int) -> Option<nat> {
    match id_in_blocks(f.blocks@, label, idx) {
        Some(id) => Some(f.params@.len() + id),
        None => None,
    }
}

/// Slot `id` of `vals` set to `v`; an id past the end appends instead.
pub open spec fn values_written(vals: Seq<Option<RuntimeValue>>, id: nat, v: RuntimeValue) -> Seq<Option<RuntimeValue>> {
    if id < vals.len() {
        vals.update(id as int, Some(v))
    } else {
        vals.push(Some(v))
    }
}

/// Frame `fr` after storing `v` as the result of its current instruction.
pub open spec fn frame_written(m: IrModule, fr: FrameView, v: RuntimeValue) -> FrameView {
    match function_of(m, fr.func) {
        Some(f) => match value_id_at(f, fr.block, fr.idx as int) {
            Some(id) => FrameView { values: values_written(fr.values, id, v), ..fr },
            None => fr,
        },
        None => fr,
    }
}

/// The running frame.
pub open spec fn top(s: Machine) -> FrameView {
    s.frames.last()
}

/// `s` with its running frame replaced by `fr`.
pub open spec fn with_top(s: Machine, fr: FrameView) -> Machine {
    Machine { frames: s.frames.update(s.frames.len() - 1, fr), ..s }
}

/// `s` after storing `v` as the result of the running instruction.
pub open spec fn written(m: IrModule, s: Machine, v: RuntimeValue) -> Machine {
    with_top(s, frame_written(m, top(s), v))
}

/// The value of SSA id `id` in frame `fr`.
pub open spec fn read_spec(fr: FrameView, id: usize) -> Result<RuntimeValue, Fault> {
    if id < fr.values.len() && fr.values[id as int] is Some {
        Ok(fr.values[id as int]->0)
    } else {
        Err(Fault::UndefinedValue(id))
    }
}

/// Every function of `m` numbers its values within the id range.
pub open spec fn functions_runnable(m: IrModule) -> bool {
    forall|i: int| 0 <= i < m.functions@.len() ==> ids_fit(#[trigger] m.functions@[i])
}

proof fn lemma_id_prefix(bs: Seq<BasicBlock>, label: Seq<char>, idx: int, k: int)
    requires
        0 <= k <= bs.len(),
        id_in_blocks(bs.take(k), label, idx) is Some,
    ensures
        id_in_blocks(bs, label, idx) == id_in_blocks(bs.take(k), label, idx),
    decreases bs.len() - k,
{
    if k < bs.len() {
        let t = bs.take(k + 1);
        assert(t.drop_last() =~= bs.take(k));
        lemma_id_prefix(bs, label, idx, k + 1);
    } else {
        assert(bs.take(k) =~= bs);
    }
}

/// The id `value_id_at` gives, found by walking the blocks.
fn find_value_id(f: &IrFunction, label: &String, idx: usize) -> (r: Option<usize>)
    requires
        ids_fit(*f),
    ensures
        match value_id_at(*f, label@, idx as int) {
            Some(id) => id <= usize::MAX && r == Some(id as usize),
            None => r is None,
        },
{
    let mut cur: usize = f.params.len();
    let mut b: usize = 0;
    while b < f.blocks.len()
        invariant
            ids_fit(*f),
            b <= f.blocks@.len(),
            cur == f.params@.len() + blocks_result_count(f.blocks@.take(b as int)),
            id_in_blocks(f.blocks@.take(b as int), label@, idx as int) is None,
        decreases f.blocks.len() - b,
    {
        let block = &f.blocks[b];
        proof {
            let t = f.blocks@.take(b + 1);
            assert(t.drop_last() =~= f.blocks@.take(b as int));
            lemma_blocks_result_count_prefix(f.blocks@, b + 1);
            assert(f.blocks@.take(b + 1) =~= f.blocks@.subrange(0, b + 1));
        }
        let mut i: usize = 0;
        let mut count: usize = 0;
        let n = block.instructions.len();
        while i < n
            invariant
                b < f.blocks@.len(),
                *block == f.blocks@[b as int],
                cur == f.params@.len() + blocks_result_count(f.blocks@.take(b as int)),
                id_in_blocks(f.blocks@.take(b as int), label@, idx as int) is None,
                n == block.instructions@.len(),
                i <= n,
                count == result_count(block.instructions@.take(i as int)),
                cur + result_count(block.instructions@) <= usize::MAX,
                !(block.label@ == label@ && idx < i && result_type_of(block.instructions@[idx as int]) is Some),
            decreases n - i,
        {
            proof {
                let t = block.instructions@.take(i + 1);
                assert(t.drop_last() =~= block.instructions@.take(i as int));
                lemma_result_count_prefix(block.instructions@, i + 1);
                assert(block.instructions@.take(i + 1) =~= block.instructions@.subrange(0, i + 1));
            }
            if block.label == *label && i == idx && block.instructions[i].result_type().is_some() {
                proof {
                    let t = f.blocks@.take(b + 1);
                    assert(t.drop_last() =~= f.blocks@.take(b as int));
                    assert(t.last() == *block);
                    lemma_id_prefix(f.blocks@, label@, idx as int, b + 1);
                }
                return Some(cur + count);
            }
            if block.instructions[i].result_type().is_some() {
                count = count + 1;
            }
            i = i + 1;
        }
        proof {
            assert(block.instructions@.take(i as int) =~= block.instructions@);
            if block.label@ == label@ && idx < n && result_type_of(block.instructions@[idx as int]) is Some {
                assert(false);
            }
        }
        cur = cur + count;
        b = b + 1;
    }
    proof {
        assert(f.blocks@.take(b as int) =~= f.blocks@);
    }
    None
}


/// `s` after the running instruction yields `r`: stored when a value,
/// passed on when a fault.
pub open spec fn produce(m: IrModule, s: Machine, r: Result<RuntimeValue, Fault>) -> Result<Machine, Fault> {
    match r {
        Ok(v) => Ok(written(m, s, v)),
        Err(e) => Err(e),
    }
}

/// Arithmetic `op` on two operands read from the running frame.
pub open spec fn binary_spec(m: IrModule, s: Machine, op: BinOp, ty: IrType, lhs: usize, rhs: usize) -> Result<Machine, Fault> {
    match read_spec(top(s), lhs) {
        Err(e) => Err(e),
        Ok(a) => match read_spec(top(s), rhs) {
            Err(e) => Err(e),
            Ok(b) => produce(m, s, binop_spec(op, ty, a, b)),
        },
    }
}

/// Bitwise `op` on two operands read from the running frame.
pub open spec fn bitwise_spec(m: IrModule, s: Machine, op: BitOp, ty: IrType, lhs: usize, rhs: usize) -> Result<Machine, Fault> {
    match read_spec(top(s), lhs) {
        Err(e) => Err(e),
        Ok(a) => match read_spec(top(s), rhs) {
            Err(e) => Err(e),
            Ok(b) => produce(m, s, bitop_spec(op, ty, a, b)),
        },
    }
}

/// The comparisons: 0 for equality, 1 for less-than, 2 for greater-than.
pub open spec fn compare_spec(kind: int, ty: IrType, a: RuntimeValue, b: RuntimeValue) -> Result<RuntimeValue, Fault> {
    if int_width(ty).is_some() {
        let x = int_bits_of(a, ty);
        let y = int_bits_of(b, ty);
        Ok(RuntimeValue::I1(if kind == 0 { x == y } else if kind == 1 { x < y } else { x > y }))
    } else if kind == 0 && ty == IrType::F64 {
        match (a, b) {
            (RuntimeValue::F64(x), RuntimeValue::F64(y)) => Ok(RuntimeValue::I1(f64_bits_equal(x, y))),
            _ => type_fault("eq f64"@),
        }
    } else if kind == 0 {
        type_fault("eq unsupported type"@)
    } else if kind == 1 {
        type_fault("lt unsupported type"@)
    } else {
        type_fault("gt unsupported type"@)
    }
}

/// A comparison of two operands read from the running frame.
pub open spec fn comparison_spec(m: IrModule, s: Machine, kind: int, ty: IrType, lhs: usize, rhs: usize) -> Result<Machine, Fault> {
    match read_spec(top(s), lhs) {
        Err(e) => Err(e),
        Ok(a) => match read_spec(top(s), rhs) {
            Err(e) => Err(e),
            Ok(b) => produce(m, s, compare_spec(kind, ty, a, b)),
        },
    }
}

/// The runtime value of a constant.
pub open spec fn constant_value(c: Constant) -> RuntimeValue {
    match c {
        Constant::I1(v) => RuntimeValue::I1(v),
        Constant::I8(v) => RuntimeValue::I8(v),
        Constant::I16(v) => RuntimeValue::I16(v),
        Constant::I32(v) => RuntimeValue::I32(v),
        Constant::I64(v) => RuntimeValue::I64(v),
        Constant::F64(v) => RuntimeValue::F64(v),
    }
}

/// The operand a phi takes when control came from `pred`: the first
/// operand labelled `pred`.
pub open spec fn phi_operand(inc: Seq<(usize, String)>, pred: Seq<char>) -> Option<usize>
    decreases inc.len(),
{
    if inc.len() == 0 {
        None
    } else {
        match phi_operand(inc.drop_last(), pred) {
            Some(id) => Some(id),
            None => if inc.last().1@ == pred {
                Some(inc.last().0)
            } else {
                None
            },
        }
    }
}

/// `v` reduced modulo 2^32.
pub open spec fn wrap32(v: int) -> u32 {
    (v % 0x1_0000_0000) as u32
}

/// A dynamic GEP index read as a 32-bit element count.
pub open spec fn gep_index_value(v: RuntimeValue) -> Option<u32> {
    match v {
        RuntimeValue::I1(b) => Some(if b { 1u32 } else { 0u32 }),
        RuntimeValue::I8(x) => Some(x as u32),
        RuntimeValue::I16(x) => Some(x as u32),
        RuntimeValue::I32(x) => Some(x),
        RuntimeValue::I64(x) => Some(wrap32(x as int)),
        _ => None,
    }
}

/// The address after applying `ix` to `a`: a dynamic index adds that
/// many elements of `size` bytes, a field index four bytes per field,
/// all modulo 2^32.
pub open spec fn gep_address(fr: FrameView, a: u32, size: u32, ix: Seq<GepIndex>) -> Result<u32, Fault>
    decreases ix.len(),
{
    if ix.len() == 0 {
        Ok(a)
    } else {
        match gep_address(fr, a, size, ix.drop_last()) {
            Err(e) => Err(e),
            Ok(x) => match ix.last() {
                GepIndex::Dynamic(id) => match read_spec(fr, id) {
                    Err(e) => Err(e),
                    Ok(v) => match gep_index_value(v) {
                        None => type_fault("GEP index must be integer"@),
                        Some(k) => Ok(wrap32(x + wrap32(k * size))),
                    },
                },
                GepIndex::StructField(f) => Ok(wrap32(x + wrap32(f * 4))),
            },
        }
    }
}

/// The machine after the running instruction `instr`, which is not a
/// call, with the frame still at that instruction.
pub open spec fn instr_spec(m: IrModule, stack_limit: u32, s: Machine, instr: Instruction) -> Result<Machine, Fault> {
    let fr = top(s);
    match instr {
        Instruction::Add { ty, lhs, rhs } => binary_spec(m, s, BinOp::Add, ty, lhs, rhs),
        Instruction::Sub { ty, lhs, rhs } => binary_spec(m, s, BinOp::Sub, ty, lhs, rhs),
        Instruction::Mul { ty, lhs, rhs } => binary_spec(m, s, BinOp::Mul, ty, lhs, rhs),
        Instruction::Div { ty, lhs, rhs } => binary_spec(m, s, BinOp::Div, ty, lhs, rhs),
        Instruction::Rem { ty, lhs, rhs } => binary_spec(m, s, BinOp::Rem, ty, lhs, rhs),
        Instruction::And { ty, lhs, rhs } => bitwise_spec(m, s, BitOp::And, ty, lhs, rhs),
        Instruction::Or { ty, lhs, rhs } => bitwise_spec(m, s, BitOp::Or, ty, lhs, rhs),
        Instruction::Xor { ty, lhs, rhs } => bitwise_spec(m, s, BitOp::Xor, ty, lhs, rhs),
        Instruction::Shl { ty, lhs, rhs } => bitwise_spec(m, s, BitOp::Shl, ty, lhs, rhs),
        Instruction::Lshr { ty, lhs, rhs } => bitwise_spec(m, s, BitOp::Lshr, ty, lhs, rhs),
        Instruction::Ashr { ty, lhs, rhs } => bitwise_spec(m, s, BitOp::Ashr, ty, lhs, rhs),
        Instruction::Eq { ty, lhs, rhs } => comparison_spec(m, s, 0, ty, lhs, rhs),
        Instruction::Lt { ty, lhs, rhs } => comparison_spec(m, s, 1, ty, lhs, rhs),
        Instruction::Gt { ty, lhs, rhs } => comparison_spec(m, s, 2, ty, lhs, rhs),
        Instruction::Select { condition, then_value, else_value, .. } => match read_spec(fr, condition) {
            Err(e) => Err(e),
            Ok(RuntimeValue::I1(flag)) => match read_spec(fr, then_value) {
                Err(e) => Err(e),
                Ok(t) => match read_spec(fr, else_value) {
                    Err(e) => Err(e),
                    Ok(f) => Ok(written(m, s, if flag { t } else { f })),
                },
            },
            Ok(_) => type_fault("select condition must be i1"@),
        },
        Instruction::Const(c) => Ok(written(m, s, constant_value(c))),
        Instruction::Cast { op, from_ty, to_ty, value } => match read_spec(fr, value) {
            Err(e) => Err(e),
            Ok(v) => produce(m, s, cast_spec(op, from_ty, to_ty, v)),
        },
        Instruction::Alloca { ty, count } => {
            let size = type_size(ty) * count;
            if s.sp < size || s.sp - size < stack_limit {
                Err(Fault::StackOverflow)
            } else {
                let s2 = Machine { sp: (s.sp - size) as u32, ..s };
                Ok(written(m, s2, RuntimeValue::Pointer(s2.sp)))
            }
        },
        Instruction::Load { ty, addr } => match read_spec(fr, addr) {
            Err(e) => Err(e),
            Ok(av) => match address_of(av) {
                None => type_fault("load expects pointer"@),
                Some(a) => if a == 0 {
                    Err(Fault::NullPointer)
                } else if a + type_size(ty) > s.memory.len() {
                    Err(Fault::MemoryOutOfBounds(a))
                } else {
                    Ok(written(m, s, loaded_value(ty, s.memory.subrange(a as int, a + type_size(ty)))))
                },
            },
        },
        Instruction::Store { ty, value, addr } => match read_spec(fr, value) {
            Err(e) => Err(e),
            Ok(val) => match read_spec(fr, addr) {
                Err(e) => Err(e),
                Ok(av) => match address_of(av) {
                    None => type_fault("store expects pointer"@),
                    Some(a) => if a == 0 {
                        Err(Fault::NullPointer)
                    } else if a + type_size(ty) > s.memory.len() {
                        Err(Fault::MemoryOutOfBounds(a))
                    } else {
                        match store_spec(val, ty) {
                            Err(e) => Err(e),
                            Ok(bytes) => Ok(Machine { memory: spliced(s.memory, a as int, bytes), ..s }),
                        }
                    },
                },
            },
        },
        Instruction::Phi { incoming, .. } => match fr.prev {
            None => Err(Fault::UndefinedBlock("no predecessor for phi"@)),
            Some(p) => match phi_operand(incoming@, p) {
                None => Err(Fault::UndefinedValue(0)),
                Some(id) => produce(m, s, read_spec(fr, id)),
            },
        },
        Instruction::Gep { elem_ty, base, indices, .. } => match read_spec(fr, base) {
            Err(e) => Err(e),
            Ok(bv) => match address_of(bv) {
                None => type_fault("GEP base must be pointer"@),
                Some(a) => match gep_address(fr, a, type_size(elem_ty), indices@) {
                    Err(e) => Err(e),
                    Ok(x) => Ok(written(m, s, RuntimeValue::Pointer(x))),
                },
            },
        },
        Instruction::Call { .. } => Ok(s),
    }
}


/// Every `alloca` of `m` has a byte size that fits 32 bits.
pub open spec fn module_allocas_fit(m: IrModule) -> bool {
    forall|f: int, b: int, i: int|
        0 <= f < m.functions@.len() && 0 <= b < m.functions@[f].blocks@.len() && 0 <= i
            < m.functions@[f].blocks@[b].instructions@.len() ==> alloca_fits(
            #[trigger] m.functions@[f].blocks@[b].instructions@[i],
        )
}

/// Every frame runs a function of `m`, and every frame from depth `base`
/// up below the running one waits at an instruction index below
/// `usize::MAX`.
pub open spec fn frames_valid(m: IrModule, s: Machine, base: nat) -> bool {
    forall|i: int|
        0 <= i < s.frames.len() ==> function_of(m, (#[trigger] s.frames[i]).func) is Some && (base <= i
            < s.frames.len() - 1 ==> s.frames[i].idx < usize::MAX)
}

/// The block the running frame is in: the first block of its function
/// with the frame's label.
pub open spec fn current_block(m: IrModule, fr: FrameView) -> Option<BasicBlock> {
    match function_of(m, fr.func) {
        Some(f) => match first_block_index(f.blocks@, fr.block) {
            Some(b) => Some(f.blocks@[b]),
            None => None,
        },
        None => None,
    }
}

/// `s` with the running frame moved to its next instruction.
pub open spec fn advanced(s: Machine) -> Machine {
    with_top(s, FrameView { idx: top(s).idx + 1, ..top(s) })
}

/// The values of `ids` in frame `fr`, or the fault of the first that is
/// not defined.
pub open spec fn read_args(fr: FrameView, ids: Seq<usize>) -> Result<Seq<RuntimeValue>, Fault>
    decreases ids.len(),
{
    if ids.len() == 0 {
        Ok(seq![])
    } else {
        match read_args(fr, ids.drop_last()) {
            Err(e) => Err(e),
            Ok(vs) => match read_spec(fr, ids.last()) {
                Err(e) => Err(e),
                Ok(v) => Ok(vs.push(v)),
            },
        }
    }
}

/// The frame a call of `g` with `args` starts: each parameter slot holds
/// its argument, every other slot is empty.
pub open spec fn entry_frame(g: IrFunction, args: Seq<RuntimeValue>) -> FrameView {
    FrameView {
        func: g.name@,
        values: Seq::new(
            g.values@.len(),
            |i: int|
                if i < args.len() && i < g.params@.len() {
                    Some(args[i])
                } else {
                    None
                },
        ),
        block: g.entry_block@,
        idx: 0,
        prev: None,
    }
}

/// `s` after the running frame returned `ret` to the frame below it.
pub open spec fn returned(m: IrModule, s: Machine, ret: Option<RuntimeValue>) -> Machine {
    advanced(
        match ret {
            Some(v) => written(m, s, v),
            None => s,
        },
    )
}

/// The outcome `r` and next machine `t` of the running frame's call of
/// `callee` with `args` at return type `ret`.
pub open spec fn call_outcome(
    m: IrModule,
    max_frames: usize,
    s: Machine,
    ret: IrType,
    callee: Seq<char>,
    args: Seq<usize>,
    r: Result<Option<Option<RuntimeValue>>, InterpError>,
    t: Machine,
) -> bool {
    match read_args(top(s), args) {
        Err(e) => lift(r) == Err::<Option<Option<RuntimeValue>>, Fault>(e),
        Ok(vals) => match function_of(m, callee) {
            Some(g) => if s.frames.len() >= max_frames {
                lift(r) == Err::<Option<Option<RuntimeValue>>, Fault>(Fault::CallStackOverflow)
            } else {
                r == Ok::<Option<Option<RuntimeValue>>, InterpError>(None) && t == Machine {
                    frames: s.frames.push(entry_frame(g, vals)),
                    ..s
                }
            },
            None => exists|rv: Result<RuntimeValue, InterpError>, m2: Seq<u8>|
                #[trigger] intrinsic_call_outcome(callee, ret, vals, s.memory, rv, m2) && match rv {
                    Err(e) => r == Err::<Option<Option<RuntimeValue>>, InterpError>(e),
                    Ok(v) => r == Ok::<Option<Option<RuntimeValue>>, InterpError>(None) && t == advanced(
                        written(m, Machine { memory: m2, ..s }, v),
                    ),
                },
        },
    }
}

/// The outcome of the running frame's terminator; a return to depth
/// `base` finishes.
pub open spec fn term_outcome(
    m: IrModule,
    base: nat,
    s: Machine,
    term: Terminator,
    r: Result<Option<Option<RuntimeValue>>, InterpError>,
    t: Machine,
) -> bool {
    let fr = top(s);
    match term {
        Terminator::Branch { target } => r == Ok::<Option<Option<RuntimeValue>>, InterpError>(None) && t == with_top(
            s,
            FrameView { prev: Some(fr.block), block: target@, idx: 0, ..fr },
        ),
        Terminator::CondBranch { condition, true_target, false_target } => match read_spec(fr, condition) {
            Err(e) => lift(r) == Err::<Option<Option<RuntimeValue>>, Fault>(e),
            Ok(RuntimeValue::I1(c)) => r == Ok::<Option<Option<RuntimeValue>>, InterpError>(None) && t
                == with_top(
                s,
                FrameView {
                    prev: Some(fr.block),
                    block: if c {
                        true_target@
                    } else {
                        false_target@
                    },
                    idx: 0,
                    ..fr
                },
            ),
            Ok(_) => lift(r) == type_fault::<Option<Option<RuntimeValue>>>("cond_br condition must be i1"@),
        },
        Terminator::Return { value } => {
            let rv = match value {
                Some(id) => match read_spec(fr, id) {
                    Err(e) => Err(e),
                    Ok(v) => Ok(Some(v)),
                },
                None => Ok(None),
            };
            match rv {
                Err(e) => lift(r) == Err::<Option<Option<RuntimeValue>>, Fault>(e),
                Ok(ret) => {
                    let popped = Machine { frames: s.frames.drop_last(), ..s };
                    if popped.frames.len() <= base {
                        r == Ok::<Option<Option<RuntimeValue>>, InterpError>(Some(ret)) && t == popped
                    } else {
                        r == Ok::<Option<Option<RuntimeValue>>, InterpError>(None) && t == returned(m, popped, ret)
                    }
                },
            }
        },
        Terminator::Unreachable => lift(r) == Err::<Option<Option<RuntimeValue>>, Fault>(Fault::Trap),
    }
}

/// One step of the running frame: its current instruction, or its
/// terminator once past the instructions. `r` is `Ok(None)` while running
/// and `Ok(Some(v))` when the frame at depth `base` returned `v`.
pub open spec fn step_outcome(
    m: IrModule,
    stack_limit: u32,
    max_frames: usize,
    base: nat,
    s: Machine,
    r: Result<Option<Option<RuntimeValue>>, InterpError>,
    t: Machine,
) -> bool {
    let fr = top(s);
    match current_block(m, fr) {
        None => lift(r) == Err::<Option<Option<RuntimeValue>>, Fault>(Fault::UndefinedBlock(fr.block)),
        Some(blk) => if fr.idx < blk.instructions@.len() {
            match blk.instructions@[fr.idx as int] {
                Instruction::Call { return_ty, callee, args } => call_outcome(
                    m,
                    max_frames,
                    s,
                    return_ty,
                    callee@,
                    args@,
                    r,
                    t,
                ),
                instr => match instr_spec(m, stack_limit, s, instr) {
                    Err(f) => lift(r) == Err::<Option<Option<RuntimeValue>>, Fault>(f),
                    Ok(t1) => r == Ok::<Option<Option<RuntimeValue>>, InterpError>(None) && t == advanced(t1),
                },
            }
        } else {
            term_outcome(m, base, s, blk.terminator, r, t)
        },
    }
}

/// `n` running steps lead from `s0` to `s`, frames from depth `base` up
/// executing.
pub open spec fn trace(m: IrModule, sl: u32, mf: usize, base: nat, s0: Machine, n: nat, s: Machine) -> bool
    decreases n,
{
    if n == 0 {
        s == s0
    } else {
        exists|p: Machine|
            trace(m, sl, mf, base, s0, (n - 1) as nat, p) && #[trigger] step_outcome(
                m,
                sl,
                mf,
                base,
                p,
                Ok::<Option<Option<RuntimeValue>>, InterpError>(None),
                s,
            )
    }
}

/// A step that ends a run: `r1` finishing with `v` gives `Ok(v)`, a fault
/// gives that error.
pub open spec fn ends_with(r1: Result<Option<Option<RuntimeValue>>, InterpError>, r: Result<Option<RuntimeValue>, InterpError>) -> bool {
    match r1 {
        Ok(Some(v)) => r == Ok::<Option<RuntimeValue>, InterpError>(v),
        Err(e) => r == Err::<Option<RuntimeValue>, InterpError>(e),
        Ok(None) => false,
    }
}

/// Running the frame at depth `base` of `s0` to its return gives `r`:
/// fewer than `u64::MAX` running steps and then one that ends the run, or
/// `StepLimit` after `u64::MAX` running steps.
pub open spec fn frame_run(m: IrModule, sl: u32, mf: usize, base: nat, s0: Machine, r: Result<Option<RuntimeValue>, InterpError>) -> bool {
    ||| exists|n: nat, s: Machine, t: Machine, r1: Result<Option<Option<RuntimeValue>>, InterpError>|
        #![trigger trace(m, sl, mf, base, s0, n, s), step_outcome(m, sl, mf, base, s, r1, t)]
        trace(m, sl, mf, base, s0, n, s) && n < u64::MAX && step_outcome(m, sl, mf, base, s, r1, t) && ends_with(r1, r)
    ||| r == Err::<Option<RuntimeValue>, InterpError>(InterpError::StepLimit) && exists|s: Machine|
        #[trigger] trace(m, sl, mf, base, s0, u64::MAX as nat, s)
}

/// The memory after seeding the static data image at address 8, once.
pub open spec fn seed_spec(seeded: bool, mem: Seq<u8>, image: Seq<u8>, stack_limit: u32) -> Result<Seq<u8>, Fault> {
    if seeded || image.len() == 0 {
        Ok(mem)
    } else if 8 + image.len() > stack_limit || 8 + image.len() > mem.len() {
        Err(Fault::StaticDataTooLarge { base: 8, size: image.len() as usize, stack_limit })
    } else {
        Ok(spliced(mem, 8, image))
    }
}

/// What a run of `s` gives: the static data is seeded, then the entry
/// function is called with no arguments and run to its return.
pub open spec fn run_outcome(s: Interpreter, r: Result<Option<RuntimeValue>, InterpError>) -> bool {
    match seed_spec(s.static_seeded, s.memory@, s.module.static_data.image@, s.stack_limit) {
        Err(f) => lift(r) == Err::<Option<RuntimeValue>, Fault>(f),
        Ok(mem) => match function_of(s.module, s.module.entry@) {
            None => lift(r) == Err::<Option<RuntimeValue>, Fault>(Fault::UndefinedFunction(s.module.entry@)),
            Some(g) => if s.frames@.len() >= s.max_frames {
                r == Err::<Option<RuntimeValue>, InterpError>(InterpError::CallStackOverflow)
            } else {
                frame_run(
                    s.module,
                    s.stack_limit,
                    s.max_frames,
                    s.frames@.len() as nat,
                    Machine { frames: s.machine().frames.push(entry_frame(g, seq![])), memory: mem, sp: s.sp },
                    r,
                )
            },
        },
    }
}

/// An `alloca`'s byte size fits 32 bits.
pub open spec fn alloca_fits(i: Instruction) -> bool {
    match i {
        Instruction::Alloca { ty, count } => type_size(ty) * count <= u32::MAX,
        _ => true,
    }
}

proof fn lemma_gep_prefix_err(fr: FrameView, a: u32, size: u32, ix: Seq<GepIndex>, k: int)
    requires
        0 <= k <= ix.len(),
        gep_address(fr, a, size, ix.take(k)) is Err,
    ensures
        gep_address(fr, a, size, ix) == gep_address(fr, a, size, ix.take(k)),
    decreases ix.len() - k,
{
    if k < ix.len() {
        assert(ix.take(k + 1).drop_last() =~= ix.take(k));
        lemma_gep_prefix_err(fr, a, size, ix, k + 1);
    } else {
        assert(ix.take(k) =~= ix);
    }
}

/// The frames `b` run the functions of `a` at the same instructions.
pub open spec fn frames_kept(a: Seq<Frame>, b: Seq<Frame>) -> bool {
    &&& b.len() == a.len()
    &&& forall|i: int|
        0 <= i < a.len() ==> (#[trigger] b[i]).func_name@ == a[i].func_name@ && b[i].instr_idx == a[i].instr_idx
}

proof fn lemma_read_args_prefix_err(fr: FrameView, ids: Seq<usize>, k: int)
    requires
        0 <= k <= ids.len(),
        read_args(fr, ids.take(k)) is Err,
    ensures
        read_args(fr, ids) == read_args(fr, ids.take(k)),
    decreases ids.len() - k,
{
    if k < ids.len() {
        assert(ids.take(k + 1).drop_last() =~= ids.take(k));
        lemma_read_args_prefix_err(fr, ids, k + 1);
    } else {
        assert(ids.take(k) =~= ids);
    }
}

proof fn lemma_trace_next(
    m: IrModule,
    sl: u32,
    mf: usize,
    base: nat,
    s0: Machine,
    n: nat,
    p: Machine,
    s: Machine,
)
    requires
        trace(m, sl, mf, base, s0, n, p),
        step_outcome(m, sl, mf, base, p, Ok::<Option<Option<RuntimeValue>>, InterpError>(None), s),
    ensures
        trace(m, sl, mf, base, s0, n + 1, s),
{
    assert(((n + 1) - 1) as nat == n);
}

proof fn lemma_frames_valid_kept(m: IrModule, a: Machine, b: Machine, base: nat)
    requires
        frames_valid(m, a, base),
        b.frames.len() == a.frames.len(),
        forall|i: int| 0 <= i < b.frames.len() ==> (#[trigger] b.frames[i]).func == a.frames[i].func,
        forall|i: int| 0 <= i < b.frames.len() - 1 ==> (#[trigger] b.frames[i]).idx == a.frames[i].idx,
    ensures
        frames_valid(m, b, base),
{
    assert forall|i: int| 0 <= i < b.frames.len() implies function_of(m, (#[trigger] b.frames[i]).func) is Some && (base
        <= i < b.frames.len() - 1 ==> b.frames[i].idx < usize::MAX) by {
        assert(function_of(m, a.frames[i].func) is Some);
    }
}

/// `b` runs the same module with the same limits as `a`.
pub open spec fn same_config(a: Interpreter, b: Interpreter) -> bool {
    &&& b.module == a.module
    &&& b.stack_limit == a.stack_limit
    &&& b.max_frames == a.max_frames
    &&& b.static_seeded == a.static_seeded
}

/// The interpreter: a module, its call frames and its memory.
pub struct Interpreter {
    pub module: IrModule,
    pub frames: Vec<Frame>,
    pub memory: Vec<u8>,
    /// The stack grows down from the top of memory to `stack_limit`.
    pub sp: u32,
    pub stack_limit: u32,
    pub max_frames: usize,
    pub static_seeded: bool,
}

impl Interpreter {
    /// The machine state the semantics sees.
    pub open spec fn machine(&self) -> Machine {
        Machine { frames: self.frames@.map_values(|f: Frame| f@), memory: self.memory@, sp: self.sp }
    }

    /// The value of SSA id `id` in the running frame.
    fn read_current_value(&self, id: usize) -> (r: Result<RuntimeValue, InterpError>)
        requires
            self.frames@.len() > 0,
        ensures
            lift(r) == read_spec(top(self.machine()), id),
    {
        let k = self.frames.len() - 1;
        let frame = &self.frames[k];
        assert(top(self.machine()) == frame@);
        if id < frame.values.len() {
            match frame.values[id] {
                Some(v) => Ok(v),
                None => Err(InterpError::UndefinedValue(id)),
            }
        } else {
            Err(InterpError::UndefinedValue(id))
        }
    }

    /// The value of SSA id `id`, read at type `_expected_ty`.
    fn read_value(&self, id: usize, _expected_ty: IrType) -> (r: Result<RuntimeValue, InterpError>)
        requires
            self.frames@.len() > 0,
        ensures
            lift(r) == read_spec(top(self.machine()), id),
    {
        let val = self.read_current_value(id);
        match val {
            Ok(v) => Ok(v),
            Err(e) => Err(e),
        }
    }

    /// Store `val` as the result of the running instruction.
    fn write_top_value(&mut self, m: &IrModule, val: RuntimeValue)
        requires
            old(self).frames@.len() > 0,
            functions_runnable(*m),
        ensures
            final(self).machine() == written(*m, old(self).machine(), val),
            same_config(*old(self), *final(self)),
            frames_kept(old(self).frames@, final(self).frames@),
            final(self).memory == old(self).memory,
    {
        let k = self.frames.len() - 1;
        let ghost fr = self.frames@[k as int];
        let id = match m.get_function(self.frames[k].func_name.as_str()) {
            Some(f) => {
                proof {
                    lemma_last_function_index(m.functions@, fr.func_name@);
                    let i = last_function_index(m.functions@, fr.func_name@)->0;
                    assert(ids_fit(m.functions@[i]));
                }
                find_value_id(f, &self.frames[k].current_block, self.frames[k].instr_idx)
            },
            None => None,
        };
        let ghost s0 = self.machine();
        match id {
            Some(id) => {
                if id < self.frames[k].values.len() {
                    self.frames[k].values.set(id, Some(val));
                } else {
                    self.frames[k].values.push(Some(val));
                }
            },
            None => {},
        }
        proof {
            let w = written(*m, s0, val);
            assert(self.frames@[k as int]@ =~= w.frames[k as int]);
            assert(self.machine().frames =~= w.frames);
            assert(self.machine() =~= w);
        }
    }

    /// Apply arithmetic `op` to two operands of the running frame.
    fn exec_binary(&mut self, m: &IrModule, op: BinOp, ty: IrType, lhs: usize, rhs: usize) -> (r: Result<(), InterpError>)
        requires
            old(self).frames@.len() > 0,
            functions_runnable(*m),
        ensures
            same_config(*old(self), *final(self)),
            frames_kept(old(self).frames@, final(self).frames@),
            final(self).memory == old(self).memory,
            match binary_spec(*m, old(self).machine(), op, ty, lhs, rhs) {
                Ok(t) => r is Ok && final(self).machine() == t,
                Err(f) => lift(r) == Err::<(), Fault>(f),
            },
    {
        let a = match self.read_value(lhs, ty) {
            Ok(v) => v,
            Err(e) => return Err(e),
        };
        let b = match self.read_value(rhs, ty) {
            Ok(v) => v,
            Err(e) => return Err(e),
        };
        match int_binop(op, ty, &a, &b) {
            Ok(v) => {
                self.write_top_value(m, v);
                Ok(())
            },
            Err(e) => Err(e),
        }
    }

    /// Apply bitwise `op` to two operands of the running frame.
    fn exec_bitwise(&mut self, m: &IrModule, op: BitOp, ty: IrType, lhs: usize, rhs: usize) -> (r: Result<(), InterpError>)
        requires
            old(self).frames@.len() > 0,
            functions_runnable(*m),
        ensures
            same_config(*old(self), *final(self)),
            frames_kept(old(self).frames@, final(self).frames@),
            final(self).memory == old(self).memory,
            match bitwise_spec(*m, old(self).machine(), op, ty, lhs, rhs) {
                Ok(t) => r is Ok && final(self).machine() == t,
                Err(f) => lift(r) == Err::<(), Fault>(f),
            },
    {
        let a = match self.read_value(lhs, ty) {
            Ok(v) => v,
            Err(e) => return Err(e),
        };
        let b = match self.read_value(rhs, ty) {
            Ok(v) => v,
            Err(e) => return Err(e),
        };
        match int_bitop(op, ty, &a, &b) {
            Ok(v) => {
                self.write_top_value(m, v);
                Ok(())
            },
            Err(e) => Err(e),
        }
    }

    /// Compare two operands of the running frame (`kind` 0: equal, 1: less,
    /// 2: greater).
    fn exec_compare(&mut self, m: &IrModule, kind: u8, ty: IrType, lhs: usize, rhs: usize) -> (r: Result<(), InterpError>)
        requires
            old(self).frames@.len() > 0,
            functions_runnable(*m),
            kind <= 2,
        ensures
            same_config(*old(self), *final(self)),
            frames_kept(old(self).frames@, final(self).frames@),
            final(self).memory == old(self).memory,
            match comparison_spec(*m, old(self).machine(), kind as int, ty, lhs, rhs) {
                Ok(t) => r is Ok && final(self).machine() == t,
                Err(f) => lift(r) == Err::<(), Fault>(f),
            },
    {
        let a = match self.read_value(lhs, ty) {
            Ok(v) => v,
            Err(e) => return Err(e),
        };
        let b = match self.read_value(rhs, ty) {
            Ok(v) => v,
            Err(e) => return Err(e),
        };
        let result = if ty.is_integer() {
            let x = int_bits(&a, ty);
            let y = int_bits(&b, ty);
            RuntimeValue::I1(
                if kind == 0 {
                    x == y
                } else if kind == 1 {
                    x < y
                } else {
                    x > y
                },
            )
        } else if kind == 0 && ty == IrType::F64 {
            let x = match a {
                RuntimeValue::F64(v) => v,
                _ => return mismatch_error("eq f64"),
            };
            let y = match b {
                RuntimeValue::F64(v) => v,
                _ => return mismatch_error("eq f64"),
            };
            RuntimeValue::I1(f64_equal(x, y))
        } else if kind == 0 {
            return mismatch_error("eq unsupported type");
        } else if kind == 1 {
            return mismatch_error("lt unsupported type");
        } else {
            return mismatch_error("gt unsupported type");
        };
        self.write_top_value(m, result);
        Ok(())
    }


    /// The address a GEP computes from `a` and `indices`.
    fn gep_walk(&self, a: u32, size: u32, indices: &Vec<GepIndex>) -> (r: Result<u32, InterpError>)
        requires
            self.frames@.len() > 0,
        ensures
            lift(r) == gep_address(top(self.machine()), a, size, indices@),
    {
        let mut addr = a;
        let mut i: usize = 0;
        while i < indices.len()
            invariant
                self.frames@.len() > 0,
                i <= indices@.len(),
                gep_address(top(self.machine()), a, size, indices@.take(i as int)) == Ok::<u32, Fault>(addr),
            decreases indices.len() - i,
        {
            proof {
                assert(indices@.take(i + 1).drop_last() =~= indices@.take(i as int));
            }
            match &indices[i] {
                GepIndex::Dynamic(id) => {
                    let v = match self.read_current_value(*id) {
                        Ok(v) => v,
                        Err(e) => {
                            proof {
                                lemma_gep_prefix_err(top(self.machine()), a, size, indices@, i + 1);
                            }
                            return Err(e);
                        },
                    };
                    let k: u32 = match v {
                        RuntimeValue::I1(b) => if b {
                            1
                        } else {
                            0
                        },
                        RuntimeValue::I8(x) => x as u32,
                        RuntimeValue::I16(x) => x as u32,
                        RuntimeValue::I32(x) => x,
                        RuntimeValue::I64(x) => (x % 0x1_0000_0000) as u32,
                        _ => {
                            let r: Result<u32, InterpError> = mismatch_error("GEP index must be integer");
                            proof {
                                lemma_gep_prefix_err(top(self.machine()), a, size, indices@, i + 1);
                            }
                            return r;
                        },
                    };
                    addr = addr.wrapping_add(k.wrapping_mul(size));
                },
                GepIndex::StructField(f) => {
                    addr = addr.wrapping_add(f.wrapping_mul(4));
                },
            }
            i = i + 1;
        }
        proof {
            assert(indices@.take(i as int) =~= indices@);
        }
        Ok(addr)
    }

    /// Execute `instr`, which is not a call, in the running frame; the
    /// frame stays at the instruction.
    #[verifier::spinoff_prover]
    #[verifier::rlimit(60)]
    fn execute_instruction(&mut self, m: &IrModule, instr: &Instruction) -> (r: Result<(), InterpError>)
        requires
            old(self).frames@.len() > 0,
            functions_runnable(*m),
            !(instr is Call),
            alloca_fits(*instr),
        ensures
            same_config(*old(self), *final(self)),
            frames_kept(old(self).frames@, final(self).frames@),
            final(self).memory@.len() == old(self).memory@.len(),
            match instr_spec(*m, old(self).stack_limit, old(self).machine(), *instr) {
                Ok(t) => r is Ok && final(self).machine() == t,
                Err(f) => lift(r) == Err::<(), Fault>(f),
            },
    {
        match instr {
            Instruction::Add { ty, lhs, rhs } => self.exec_binary(m, BinOp::Add, *ty, *lhs, *rhs),
            Instruction::Sub { ty, lhs, rhs } => self.exec_binary(m, BinOp::Sub, *ty, *lhs, *rhs),
            Instruction::Mul { ty, lhs, rhs } => self.exec_binary(m, BinOp::Mul, *ty, *lhs, *rhs),
            Instruction::Div { ty, lhs, rhs } => self.exec_binary(m, BinOp::Div, *ty, *lhs, *rhs),
            Instruction::Rem { ty, lhs, rhs } => self.exec_binary(m, BinOp::Rem, *ty, *lhs, *rhs),
            Instruction::And { ty, lhs, rhs } => self.exec_bitwise(m, BitOp::And, *ty, *lhs, *rhs),
            Instruction::Or { ty, lhs, rhs } => self.exec_bitwise(m, BitOp::Or, *ty, *lhs, *rhs),
            Instruction::Xor { ty, lhs, rhs } => self.exec_bitwise(m, BitOp::Xor, *ty, *lhs, *rhs),
            Instruction::Shl { ty, lhs, rhs } => self.exec_bitwise(m, BitOp::Shl, *ty, *lhs, *rhs),
            Instruction::Lshr { ty, lhs, rhs } => self.exec_bitwise(m, BitOp::Lshr, *ty, *lhs, *rhs),
            Instruction::Ashr { ty, lhs, rhs } => self.exec_bitwise(m, BitOp::Ashr, *ty, *lhs, *rhs),
            Instruction::Eq { ty, lhs, rhs } => self.exec_compare(m, 0, *ty, *lhs, *rhs),
            Instruction::Lt { ty, lhs, rhs } => self.exec_compare(m, 1, *ty, *lhs, *rhs),
            Instruction::Gt { ty, lhs, rhs } => self.exec_compare(m, 2, *ty, *lhs, *rhs),
            Instruction::Select { condition, then_value, else_value, .. } => {
                let cond = match self.read_current_value(*condition) {
                    Ok(v) => v,
                    Err(e) => return Err(e),
                };
                let take_true = match cond {
                    RuntimeValue::I1(v) => v,
                    _ => return mismatch_error("select condition must be i1"),
                };
                let then_v = match self.read_current_value(*then_value) {
                    Ok(v) => v,
                    Err(e) => return Err(e),
                };
                let else_v = match self.read_current_value(*else_value) {
                    Ok(v) => v,
                    Err(e) => return Err(e),
                };
                self.write_top_value(m, 
                    if take_true {
                        then_v
                    } else {
                        else_v
                    },
                );
                Ok(())
            },
            Instruction::Const(c) => {
                let val = match c {
                    Constant::I1(v) => RuntimeValue::I1(*v),
                    Constant::I8(v) => RuntimeValue::I8(*v),
                    Constant::I16(v) => RuntimeValue::I16(*v),
                    Constant::I32(v) => RuntimeValue::I32(*v),
                    Constant::I64(v) => RuntimeValue::I64(*v),
                    Constant::F64(v) => RuntimeValue::F64(*v),
                };
                self.write_top_value(m, val);
                Ok(())
            },
            Instruction::Cast { op, from_ty, to_ty, value } => {
                let v = match self.read_value(*value, *from_ty) {
                    Ok(v) => v,
                    Err(e) => return Err(e),
                };
                match cast_value(*op, *from_ty, *to_ty, &v) {
                    Ok(result) => {
                        self.write_top_value(m, result);
                        Ok(())
                    },
                    Err(e) => Err(e),
                }
            },
            Instruction::Alloca { ty, count } => {
                let size = ty.size_in_bytes() * *count;
                if self.sp < size {
                    return Err(InterpError::StackOverflow);
                }
                let new_sp = self.sp - size;
                if new_sp < self.stack_limit {
                    return Err(InterpError::StackOverflow);
                }
                self.sp = new_sp;
                self.write_top_value(m, RuntimeValue::Pointer(new_sp));
                Ok(())
            },
            Instruction::Load { ty, addr } => {
                let addr_val = match self.read_value(*addr, IrType::Pointer) {
                    Ok(v) => v,
                    Err(e) => return Err(e),
                };
                let a: u32 = match addr_val {
                    RuntimeValue::Pointer(a) => a,
                    RuntimeValue::I32(a) => a,
                    _ => return mismatch_error("load expects pointer"),
                };
                if a == 0 {
                    return Err(InterpError::NullPointer);
                }
                let size = ty.size_in_bytes();
                if a as u64 + size as u64 > self.memory.len() as u64 {
                    return Err(InterpError::MemoryOutOfBounds(a));
                }
                let start = a as usize;
                let n = size as usize;
                let mlen = self.memory.len();
                let mut bytes: Vec<u8> = Vec::new();
                let mut i: usize = 0;
                while i < n
                    invariant
                        mlen == self.memory@.len(),
                        start + n <= self.memory@.len(),
                        i <= n,
                        bytes@ == self.memory@.subrange(start as int, start + i),
                    decreases n - i,
                {
                    bytes.push(self.memory[start + i]);
                    i = i + 1;
                    assert(bytes@ =~= self.memory@.subrange(start as int, start + i));
                }
                let val = bytes_to_runtime(ty, bytes.as_slice());
                self.write_top_value(m, val);
                Ok(())
            },
            Instruction::Store { ty, value, addr } => {
                let val = match self.read_value(*value, *ty) {
                    Ok(v) => v,
                    Err(e) => return Err(e),
                };
                let addr_val = match self.read_value(*addr, IrType::Pointer) {
                    Ok(v) => v,
                    Err(e) => return Err(e),
                };
                let a: u32 = match addr_val {
                    RuntimeValue::Pointer(a) => a,
                    RuntimeValue::I32(a) => a,
                    _ => return mismatch_error("store expects pointer"),
                };
                if a == 0 {
                    return Err(InterpError::NullPointer);
                }
                let size = ty.size_in_bytes();
                if a as u64 + size as u64 > self.memory.len() as u64 {
                    return Err(InterpError::MemoryOutOfBounds(a));
                }
                let bytes = match store_bytes(&val, *ty) {
                    Ok(b) => b,
                    Err(e) => return Err(e),
                };
                let ghost m0 = self.memory@;
                let ghost s0 = self.machine();
                let start = a as usize;
                let mlen = self.memory.len();
                let mut i: usize = 0;
                while i < bytes.len()
                    invariant
                        same_config(*old(self), *self),
                        self.frames == old(self).frames,
                        self.sp == old(self).sp,
                        m0 == old(self).memory@,
                        mlen == m0.len(),
                        bytes@.len() == type_size(*ty),
                        start + bytes@.len() <= m0.len(),
                        self.memory@.len() == m0.len(),
                        i <= bytes@.len(),
                        forall|k: int| 0 <= k < start ==> self.memory@[k] == m0[k],
                        forall|k: int| start + bytes@.len() <= k < m0.len() ==> self.memory@[k] == m0[k],
                        forall|k: int| start <= k < start + i ==> self.memory@[k] == bytes@[k - start],
                        forall|k: int| start + i <= k < start + bytes@.len() ==> self.memory@[k] == m0[k],
                    decreases bytes.len() - i,
                {
                    self.memory.set(start + i, bytes[i]);
                    i = i + 1;
                }
                proof {
                    assert(self.memory@ =~= spliced(m0, a as int, bytes@));
                    assert(self.machine() =~= Machine { memory: spliced(m0, a as int, bytes@), ..s0 });
                }
                Ok(())
            },
            Instruction::Phi { incoming, .. } => {
                let k = self.frames.len() - 1;
                let pred = match &self.frames[k].prev_block {
                    Some(p) => p,
                    None => {
                        return Err(InterpError::UndefinedBlock(crate::strings::owned("no predecessor for phi")));
                    },
                };
                let mut found: Option<usize> = None;
                let mut j: usize = 0;
                while j < incoming.len()
                    invariant
                        j <= incoming@.len(),
                        found == phi_operand(incoming@.take(j as int), pred@),
                    decreases incoming.len() - j,
                {
                    proof {
                        assert(incoming@.take(j + 1).drop_last() =~= incoming@.take(j as int));
                    }
                    if found.is_none() && incoming[j].1 == *pred {
                        found = Some(incoming[j].0);
                    }
                    j = j + 1;
                }
                proof {
                    assert(incoming@.take(j as int) =~= incoming@);
                }
                let id = match found {
                    Some(id) => id,
                    None => return Err(InterpError::UndefinedValue(0)),
                };
                let v = match self.read_current_value(id) {
                    Ok(v) => v,
                    Err(e) => return Err(e),
                };
                self.write_top_value(m, v);
                Ok(())
            },
            Instruction::Gep { elem_ty, base, indices, .. } => {
                let base_val = match self.read_value(*base, IrType::Pointer) {
                    Ok(v) => v,
                    Err(e) => return Err(e),
                };
                let a: u32 = match base_val {
                    RuntimeValue::Pointer(a) => a,
                    RuntimeValue::I32(a) => a,
                    _ => return mismatch_error("GEP base must be pointer"),
                };
                let addr = match self.gep_walk(a, elem_ty.size_in_bytes(), indices) {
                    Ok(x) => x,
                    Err(e) => return Err(e),
                };
                self.write_top_value(m, RuntimeValue::Pointer(addr));
                Ok(())
            },
            Instruction::Call { .. } => Ok(()),
        }
    }


    /// Move the running frame to its next instruction.
    fn advance(&mut self)
        requires
            old(self).frames@.len() > 0,
            old(self).frames@.last().instr_idx < usize::MAX,
        ensures
            final(self).machine() == advanced(old(self).machine()),
            same_config(*old(self), *final(self)),
            final(self).memory == old(self).memory,
            final(self).frames@.len() == old(self).frames@.len(),
            forall|i: int|
                0 <= i < final(self).frames@.len() ==> (#[trigger] final(self).frames@[i]).func_name@
                    == old(self).frames@[i].func_name@,
            forall|i: int|
                0 <= i < final(self).frames@.len() - 1 ==> (#[trigger] final(self).frames@[i]).instr_idx
                    == old(self).frames@[i].instr_idx,
    {
        let k = self.frames.len() - 1;
        let ghost s0 = self.machine();
        let next = self.frames[k].instr_idx + 1;
        self.frames[k].instr_idx = next;
        proof {
            let w = advanced(s0);
            assert(self.frames@[k as int]@ =~= w.frames[k as int]);
            assert(self.machine().frames =~= w.frames);
            assert(self.machine() =~= w);
        }
    }

    /// The values of `args` in the running frame.
    fn read_args(&self, args: &Vec<usize>) -> (r: Result<Vec<RuntimeValue>, InterpError>)
        requires
            self.frames@.len() > 0,
        ensures
            match read_args(top(self.machine()), args@) {
                Ok(vs) => r matches Ok(v) && v@ == vs,
                Err(e) => r matches Err(x) && x@ == e,
            },
    {
        let ghost fr = top(self.machine());
        let mut out: Vec<RuntimeValue> = Vec::new();
        let mut i: usize = 0;
        while i < args.len()
            invariant
                self.frames@.len() > 0,
                fr == top(self.machine()),
                i <= args@.len(),
                read_args(fr, args@.take(i as int)) == Ok::<Seq<RuntimeValue>, Fault>(out@),
            decreases args.len() - i,
        {
            proof {
                assert(args@.take(i + 1).drop_last() =~= args@.take(i as int));
            }
            match self.read_current_value(args[i]) {
                Ok(v) => out.push(v),
                Err(e) => {
                    proof {
                        lemma_read_args_prefix_err(fr, args@, i + 1);
                    }
                    return Err(e);
                },
            }
            i = i + 1;
        }
        proof {
            assert(args@.take(i as int) =~= args@);
        }
        Ok(out)
    }

    /// A frame starting a call of `g` with `vals`.
    fn new_frame(g: &IrFunction, vals: &Vec<RuntimeValue>) -> (f: Frame)
        ensures
            f@ == entry_frame(*g, vals@),
    {
        let n = g.values.len();
        let mut values: Vec<Option<RuntimeValue>> = Vec::new();
        let mut i: usize = 0;
        while i < n
            invariant
                n == g.values@.len(),
                i <= n,
                values@.len() == i,
                forall|j: int| 0 <= j < i ==> #[trigger] values@[j] == entry_frame(*g, vals@).values[j],
            decreases n - i,
        {
            if i < vals.len() && i < g.params.len() {
                values.push(Some(vals[i]));
            } else {
                values.push(None);
            }
            i = i + 1;
        }
        let f = Frame {
            func_name: g.name.clone(),
            values,
            return_ty: g.return_ty,
            current_block: g.entry_block.clone(),
            instr_idx: 0,
            prev_block: None,
        };
        proof {
            assert(f@.values =~= entry_frame(*g, vals@).values);
            assert(f@ =~= entry_frame(*g, vals@));
        }
        f
    }


    /// Call `callee` with the values of `args` from the running frame: a
    /// module function gets a new frame; any other name is resolved as an
    /// intrinsic and its result stored.
    fn exec_call(&mut self, m: &IrModule, ret: IrType, callee: &String, args: &Vec<usize>, base: usize) -> (r: Result<
        Option<Option<RuntimeValue>>,
        InterpError,
    >)
        requires
            old(self).frames@.len() > base,
            functions_runnable(*m),
            frames_valid(*m, old(self).machine(), base as nat),
            old(self).frames@.last().instr_idx < usize::MAX,
            old(self).memory@.len() < 0x1_0000_0000,
        ensures
            same_config(*old(self), *final(self)),
            call_outcome(*m, old(self).max_frames, old(self).machine(), ret, callee@, args@, r, final(self).machine()),
            frames_valid(*m, final(self).machine(), base as nat),
            final(self).memory@.len() == old(self).memory@.len(),
    {
        let ghost s0 = self.machine();
        let vals = match self.read_args(args) {
            Ok(v) => v,
            Err(e) => return Err(e),
        };
        match m.get_function(callee.as_str()) {
            Some(g) => {
                proof {
                    lemma_last_function_index(m.functions@, callee@);
                }
                if self.frames.len() >= self.max_frames {
                    return Err(InterpError::CallStackOverflow);
                }
                let frame = Interpreter::new_frame(g, &vals);
                self.frames.push(frame);
                proof {
                    assert(self.machine().frames =~= s0.frames.push(entry_frame(*g, vals@)));
                    assert(self.machine() =~= Machine { frames: s0.frames.push(entry_frame(*g, vals@)), ..s0 });
                    assert(function_of(*m, g.name@) == Some(*g));
                    assert forall|i: int| 0 <= i < self.machine().frames.len() implies function_of(
                        *m,
                        (#[trigger] self.machine().frames[i]).func,
                    ) is Some && (base <= i < self.machine().frames.len() - 1 ==> self.machine().frames[i].idx
                        < usize::MAX) by {
                        if i < s0.frames.len() {
                            assert(self.machine().frames[i] == s0.frames[i]);
                        }
                    }
                }
                Ok(None)
            },
            None => {
                let ghost m0 = self.memory@;
                let res = dispatch_runtime_intrinsic(&mut self.memory, callee.as_str(), ret, vals.as_slice());
                proof {
                    lemma_intrinsic_call_keeps_len(callee@, ret, vals@, m0, res, self.memory@);
                    assert(self.machine() =~= Machine { memory: self.memory@, ..s0 });
                }
                match res {
                    Ok(v) => {
                        let ghost s1 = self.machine();
                        self.write_top_value(m, v);
                        self.advance();
                        proof {
                            assert(intrinsic_call_outcome(callee@, ret, vals@, s0.memory, res, s1.memory));
                            assert forall|i: int| 0 <= i < self.machine().frames.len() implies function_of(
                                *m,
                                (#[trigger] self.machine().frames[i]).func,
                            ) is Some && (base <= i < self.machine().frames.len() - 1 ==> self.machine().frames[i].idx
                                < usize::MAX) by {
                                assert(s0.frames[i].func == self.machine().frames[i].func);
                            }
                        }
                        Ok(None)
                    },
                    Err(e) => {
                        proof {
                            assert(intrinsic_call_outcome(callee@, ret, vals@, s0.memory, res, self.memory@));
                            assert(self.machine().frames == s0.frames);
                        }
                        Err(e)
                    },
                }
            },
        }
    }

    /// Send the running frame to the start of block `target`.
    fn jump(&mut self, target: &String)
        requires
            old(self).frames@.len() > 0,
        ensures
            final(self).machine() == with_top(
                old(self).machine(),
                FrameView {
                    prev: Some(top(old(self).machine()).block),
                    block: target@,
                    idx: 0,
                    ..top(old(self).machine())
                },
            ),
            same_config(*old(self), *final(self)),
            final(self).memory == old(self).memory,
            final(self).frames@.len() == old(self).frames@.len(),
            forall|i: int|
                0 <= i < final(self).frames@.len() ==> (#[trigger] final(self).frames@[i]).func_name@
                    == old(self).frames@[i].func_name@,
            forall|i: int|
                0 <= i < final(self).frames@.len() - 1 ==> (#[trigger] final(self).frames@[i]).instr_idx
                    == old(self).frames@[i].instr_idx,
    {
        let k = self.frames.len() - 1;
        let ghost s0 = self.machine();
        let cur = self.frames[k].current_block.clone();
        self.frames[k].prev_block = Some(cur);
        self.frames[k].current_block = target.clone();
        self.frames[k].instr_idx = 0;
        proof {
            let w = with_top(s0, FrameView { prev: Some(top(s0).block), block: target@, idx: 0, ..top(s0) });
            assert(self.frames@[k as int]@ =~= w.frames[k as int]);
            assert(self.machine().frames =~= w.frames);
            assert(self.machine() =~= w);
        }
    }

    /// Run the running frame's terminator; a return to depth `base`
    /// finishes with the returned value.
    fn execute_terminator(&mut self, m: &IrModule, term: &Terminator, base: usize) -> (r: Result<
        Option<Option<RuntimeValue>>,
        InterpError,
    >)
        requires
            old(self).frames@.len() > base,
            functions_runnable(*m),
            frames_valid(*m, old(self).machine(), base as nat),
        ensures
            same_config(*old(self), *final(self)),
            term_outcome(*m, base as nat, old(self).machine(), *term, r, final(self).machine()),
            frames_valid(*m, final(self).machine(), base as nat),
            final(self).memory == old(self).memory,
            r == Ok::<Option<Option<RuntimeValue>>, InterpError>(None) ==> final(self).frames@.len() > base,
    {
        let ghost s0 = self.machine();
        match term {
            Terminator::Branch { target } => {
                self.jump(target);
                proof {
                    lemma_frames_valid_kept(*m, s0, self.machine(), base as nat);
                }
                Ok(None)
            },
            Terminator::CondBranch { condition, true_target, false_target } => {
                let cond = match self.read_current_value(*condition) {
                    Ok(v) => v,
                    Err(e) => return Err(e),
                };
                let take_true = match cond {
                    RuntimeValue::I1(v) => v,
                    _ => return mismatch_error("cond_br condition must be i1"),
                };
                if take_true {
                    self.jump(true_target);
                } else {
                    self.jump(false_target);
                }
                proof {
                    lemma_frames_valid_kept(*m, s0, self.machine(), base as nat);
                }
                Ok(None)
            },
            Terminator::Return { value } => {
                let val = match value {
                    Some(id) => match self.read_current_value(*id) {
                        Ok(v) => Some(v),
                        Err(e) => return Err(e),
                    },
                    None => None,
                };
                self.frames.pop();
                let ghost popped = self.machine();
                proof {
                    assert(popped.frames =~= s0.frames.drop_last());
                    assert(popped =~= Machine { frames: s0.frames.drop_last(), ..s0 });
                }
                if self.frames.len() <= base {
                    proof {
                        assert forall|i: int| 0 <= i < popped.frames.len() implies function_of(
                            *m,
                            (#[trigger] popped.frames[i]).func,
                        ) is Some && (base <= i < popped.frames.len() - 1 ==> popped.frames[i].idx < usize::MAX) by {
                            assert(popped.frames[i] == s0.frames[i]);
                        }
                    }
                    return Ok(Some(val));
                }
                proof {
                    assert(popped.frames[popped.frames.len() - 1] == s0.frames[popped.frames.len() - 1]);
                }
                match val {
                    Some(v) => self.write_top_value(m, v),
                    None => {},
                }
                self.advance();
                proof {
                    assert forall|i: int| 0 <= i < self.machine().frames.len() implies function_of(
                        *m,
                        (#[trigger] self.machine().frames[i]).func,
                    ) is Some && (base <= i < self.machine().frames.len() - 1 ==> self.machine().frames[i].idx
                        < usize::MAX) by {
                        assert(self.machine().frames[i].func == s0.frames[i].func);
                        if i < self.machine().frames.len() - 1 {
                            assert(self.machine().frames[i].idx == s0.frames[i].idx);
                        }
                    }
                }
                Ok(None)
            },
            Terminator::Unreachable => Err(InterpError::Trap),
        }
    }


    /// One step of the running frame (see [`step_outcome`]).
    fn step_in(&mut self, m: &IrModule, base: usize) -> (r: Result<Option<Option<RuntimeValue>>, InterpError>)
        requires
            old(self).frames@.len() > base,
            functions_runnable(*m),
            module_allocas_fit(*m),
            frames_valid(*m, old(self).machine(), base as nat),
            old(self).memory@.len() < 0x1_0000_0000,
        ensures
            same_config(*old(self), *final(self)),
            step_outcome(
                *m,
                old(self).stack_limit,
                old(self).max_frames,
                base as nat,
                old(self).machine(),
                r,
                final(self).machine(),
            ),
            frames_valid(*m, final(self).machine(), base as nat),
            final(self).memory@.len() == old(self).memory@.len(),
            r == Ok::<Option<Option<RuntimeValue>>, InterpError>(None) ==> final(self).frames@.len() > base,
    {
        let ghost s0 = self.machine();
        let k = self.frames.len() - 1;
        proof {
            assert(s0.frames[k as int] == self.frames@[k as int]@);
            lemma_last_function_index(m.functions@, self.frames@[k as int].func_name@);
        }
        let f = match m.get_function(self.frames[k].func_name.as_str()) {
            Some(f) => f,
            None => {
                proof {
                    assert(function_of(*m, s0.frames[k as int].func) is Some);
                }
                return Err(InterpError::CallStackEmpty);
            },
        };
        let ghost fi = last_function_index(m.functions@, self.frames@[k as int].func_name@)->0;
        let b = match f.block_index(self.frames[k].current_block.as_str()) {
            Some(b) => b,
            None => return Err(InterpError::UndefinedBlock(self.frames[k].current_block.clone())),
        };
        let block = &f.blocks[b];
        let idx = self.frames[k].instr_idx;
        if idx < block.instructions.len() {
            match &block.instructions[idx] {
                Instruction::Call { return_ty, callee, args } => self.exec_call(m, *return_ty, callee, args, base),
                instr => {
                    proof {
                        assert(alloca_fits(m.functions@[fi].blocks@[b as int].instructions@[idx as int]));
                    }
                    match self.execute_instruction(m, instr) {
                        Ok(()) => {},
                        Err(e) => {
                            proof {
                                lemma_frames_valid_kept(*m, s0, self.machine(), base as nat);
                            }
                            return Err(e);
                        },
                    }
                    let ghost s1 = self.machine();
                    self.advance();
                    proof {
                        lemma_frames_valid_kept(*m, s0, s1, base as nat);
                        lemma_frames_valid_kept(*m, s1, self.machine(), base as nat);
                    }
                    Ok(None)
                },
            }
        } else {
            self.execute_terminator(m, &block.terminator, base)
        }
    }


    /// The interpreter can run: its module's functions number their values
    /// in range with a slot per parameter, every `alloca` size fits 32
    /// bits, every frame runs a function of the module, and memory is
    /// addressable with 32 bits.
    pub open spec fn wf(&self) -> bool {
        &&& functions_runnable(self.module)
        &&& module_allocas_fit(self.module)
        &&& frames_valid(self.module, self.machine(), self.frames@.len() as nat)
        &&& self.memory@.len() < 0x1_0000_0000
    }

    /// Run the frame at depth `base` until it returns.
    fn execute_frame(&mut self, base: usize) -> (r: Result<Option<RuntimeValue>, InterpError>)
        requires
            old(self).frames@.len() > base,
            functions_runnable(old(self).module),
            module_allocas_fit(old(self).module),
            frames_valid(old(self).module, old(self).machine(), base as nat),
            old(self).memory@.len() < 0x1_0000_0000,
        ensures
            same_config(*old(self), *final(self)),
            frame_run(
                old(self).module,
                old(self).stack_limit,
                old(self).max_frames,
                base as nat,
                old(self).machine(),
                r,
            ),
            frames_valid(final(self).module, final(self).machine(), base as nat),
            final(self).memory@.len() == old(self).memory@.len(),
    {
        let mut module = IrModule {
            functions: Vec::new(),
            entry: crate::strings::owned(""),
            static_data: StaticData { image: Vec::new(), word_exact: true },
        };
        std::mem::swap(&mut module, &mut self.module);
        let ghost s0 = self.machine();
        let ghost sl = self.stack_limit;
        let ghost mf = self.max_frames;
        let mut fuel: u64 = 0xffff_ffff_ffff_ffff;
        let mut result: Result<Option<RuntimeValue>, InterpError> = Err(InterpError::StepLimit);
        loop
            invariant_except_break
                self.frames@.len() > base,
                trace(module, sl, mf, base as nat, s0, (0xffff_ffff_ffff_ffffu64 - fuel) as nat, self.machine()),
            invariant
                module == old(self).module,
                sl == old(self).stack_limit,
                mf == old(self).max_frames,
                s0 == old(self).machine(),
                self.stack_limit == sl,
                self.max_frames == mf,
                self.static_seeded == old(self).static_seeded,
                functions_runnable(module),
                module_allocas_fit(module),
                frames_valid(module, self.machine(), base as nat),
                self.memory@.len() == old(self).memory@.len(),
                self.memory@.len() < 0x1_0000_0000,
            ensures
                frame_run(module, sl, mf, base as nat, s0, result),
            decreases fuel,
        {
            if fuel == 0 {
                result = Err(InterpError::StepLimit);
                proof {
                    assert(trace(module, sl, mf, base as nat, s0, u64::MAX as nat, self.machine()));
                }
                break;
            }
            let ghost pre = self.machine();
            let ghost n = (0xffff_ffff_ffff_ffffu64 - fuel) as nat;
            let r1 = self.step_in(&module, base);
            fuel = fuel - 1;
            match r1 {
                Ok(None) => {
                    proof {
                        lemma_trace_next(module, sl, mf, base as nat, s0, n, pre, self.machine());
                    }
                },
                Ok(Some(v)) => {
                    result = Ok(v);
                    proof {
                        assert(ends_with(r1, result));
                        assert(trace(module, sl, mf, base as nat, s0, n, pre));
                        assert(step_outcome(module, sl, mf, base as nat, pre, r1, self.machine()));
                    }
                    break;
                },
                Err(e) => {
                    result = Err(e);
                    proof {
                        assert(ends_with(r1, result));
                        assert(trace(module, sl, mf, base as nat, s0, n, pre));
                        assert(step_outcome(module, sl, mf, base as nat, pre, r1, self.machine()));
                    }
                    break;
                },
            }
        }
        std::mem::swap(&mut module, &mut self.module);
        result
    }


    /// Call the module function `name` with `args` and run it to its
    /// return.
    fn call_function(&mut self, name: &str, args: Vec<RuntimeValue>) -> (r: Result<Option<RuntimeValue>, InterpError>)
        requires
            old(self).wf(),
        ensures
            final(self).wf(),
            same_config(*old(self), *final(self)),
            old(self).frames@.len() >= old(self).max_frames ==> r == Err::<Option<RuntimeValue>, InterpError>(
                InterpError::CallStackOverflow,
            ),
            old(self).frames@.len() < old(self).max_frames ==> match function_of(old(self).module, name@) {
                None => lift(r) == Err::<Option<RuntimeValue>, Fault>(Fault::UndefinedFunction(name@)),
                Some(g) => frame_run(
                    old(self).module,
                    old(self).stack_limit,
                    old(self).max_frames,
                    old(self).frames@.len() as nat,
                    Machine { frames: old(self).machine().frames.push(entry_frame(g, args@)), ..old(self).machine() },
                    r,
                ),
            },
    {
        if self.frames.len() >= self.max_frames {
            return Err(InterpError::CallStackOverflow);
        }
        proof {
            lemma_last_function_index(self.module.functions@, name@);
        }
        let frame = match self.module.get_function(name) {
            Some(g) => Interpreter::new_frame(g, &args),
            None => return Err(InterpError::UndefinedFunction(crate::strings::owned(name))),
        };
        let ghost s0 = self.machine();
        let base = self.frames.len();
        self.frames.push(frame);
        proof {
            assert(self.machine().frames =~= s0.frames.push(frame@));
            assert(self.machine() =~= Machine { frames: s0.frames.push(frame@), ..s0 });
            assert(function_of(self.module, frame@.func) is Some);
            assert forall|i: int| 0 <= i < self.machine().frames.len() implies function_of(
                self.module,
                (#[trigger] self.machine().frames[i]).func,
            ) is Some && (base <= i < self.machine().frames.len() - 1 ==> self.machine().frames[i].idx
                < usize::MAX) by {
                if i < s0.frames.len() {
                    assert(self.machine().frames[i] == s0.frames[i]);
                }
            }
        }
        let r = self.execute_frame(base);
        proof {
            assert forall|i: int| 0 <= i < self.machine().frames.len() implies function_of(
                self.module,
                (#[trigger] self.machine().frames[i]).func,
            ) is Some && (self.frames@.len() <= i < self.machine().frames.len() - 1 ==> self.machine().frames[i].idx
                < usize::MAX) by {
            }
        }
        r
    }

    /// Copy the module's static data image to address 8, once, before the
    /// first run; an image reaching the stack floor or the end of memory
    /// is refused.
    fn seed_static_data(&mut self) -> (r: Result<(), InterpError>)
        requires
            old(self).wf(),
        ensures
            final(self).wf(),
            final(self).module == old(self).module,
            final(self).frames == old(self).frames,
            final(self).sp == old(self).sp,
            final(self).stack_limit == old(self).stack_limit,
            final(self).max_frames == old(self).max_frames,
            final(self).static_seeded,
            match seed_spec(
                old(self).static_seeded,
                old(self).memory@,
                old(self).module.static_data.image@,
                old(self).stack_limit,
            ) {
                Ok(mem) => r is Ok && final(self).memory@ == mem,
                Err(f) => lift(r) == Err::<(), Fault>(f),
            },
    {
        if self.static_seeded {
            return Ok(());
        }
        self.static_seeded = true;
        let size = self.module.static_data.image.len();
        if size == 0 {
            return Ok(());
        }
        if size as u64 > self.stack_limit as u64 || size as u64 + 8 > self.stack_limit as u64 || size > self.memory.len() || size as u64 + 8 > self.memory.len() as u64 {
            return Err(InterpError::StaticDataTooLarge { base: 8, size, stack_limit: self.stack_limit });
        }
        let ghost m0 = self.memory@;
        let ghost image = self.module.static_data.image@;
        let mlen = self.memory.len();
        let mut i: usize = 0;
        while i < size
            invariant
                image == self.module.static_data.image@,
                image.len() == size,
                mlen == m0.len(),
                8 + size <= m0.len(),
                self.memory@.len() == m0.len(),
                i <= size,
                forall|k: int| 0 <= k < 8 ==> self.memory@[k] == m0[k],
                forall|k: int| 8 + size <= k < m0.len() ==> self.memory@[k] == m0[k],
                forall|k: int| 8 <= k < 8 + i ==> self.memory@[k] == image[k - 8],
                forall|k: int| 8 + i <= k < 8 + size ==> self.memory@[k] == m0[k],
                self.module == old(self).module,
                self.frames == old(self).frames,
                self.sp == old(self).sp,
                self.stack_limit == old(self).stack_limit,
                self.max_frames == old(self).max_frames,
                self.static_seeded,
            decreases size - i,
        {
            let b = self.module.static_data.image[i];
            self.memory.set(8 + i, b);
            i = i + 1;
        }
        proof {
            assert(self.memory@ =~= spliced(m0, 8, image));
            assert(self.machine().frames == old(self).machine().frames);
        }
        Ok(())
    }
}

/// A zero-filled memory of `n` bytes.
fn zeroed(n: u32) -> (v: Vec<u8>)
    ensures
        v@ == Seq::new(n as nat, |i: int| 0u8),
{
    let mut v: Vec<u8> = Vec::new();
    let mut i: u32 = 0;
    while i < n
        invariant
            i <= n,
            v@ == Seq::new(i as nat, |k: int| 0u8),
        decreases n - i,
    {
        v.push(0);
        i = i + 1;
        assert(v@ =~= Seq::new(i as nat, |k: int| 0u8));
    }
    v
}

impl Interpreter {
    /// An interpreter for `module` over `memory_size` zeroed bytes; the
    /// stack starts at the top of memory and may grow down to
    /// `stack_limit`; at most 1024 frames.
    pub fn new(module: IrModule, memory_size: u32, stack_limit: u32) -> (r: Self)
        requires
            functions_runnable(module),
            module_allocas_fit(module),
        ensures
            r.wf(),
            r.module == module,
            r.frames@.len() == 0,
            r.memory@ == Seq::new(memory_size as nat, |i: int| 0u8),
            r.sp == memory_size,
            r.stack_limit == stack_limit,
            r.max_frames == 1024,
            !r.static_seeded,
    {
        let r = Interpreter {
            module,
            frames: Vec::new(),
            memory: zeroed(memory_size),
            sp: memory_size,
            stack_limit,
            max_frames: 1024,
            static_seeded: false,
        };
        r
    }

    /// Set the most call frames a run may hold.
    pub fn set_max_frames(&mut self, max_frames: usize)
        ensures
            final(self).max_frames == max_frames,
            final(self).module == old(self).module,
            final(self).frames == old(self).frames,
            final(self).memory == old(self).memory,
            final(self).sp == old(self).sp,
            final(self).stack_limit == old(self).stack_limit,
            final(self).static_seeded == old(self).static_seeded,
    {
        self.max_frames = max_frames;
    }

    /// Run the module's entry function with no arguments (see
    /// [`run_outcome`]).
    pub fn run(&mut self) -> (r: Result<Option<RuntimeValue>, InterpError>)
        requires
            old(self).wf(),
        ensures
            final(self).wf(),
            run_outcome(*old(self), r),
    {
        match self.seed_static_data() {
            Ok(()) => {},
            Err(e) => return Err(e),
        }
        let entry_name = self.module.entry.clone();
        proof {
            lemma_last_function_index(self.module.functions@, entry_name@);
        }
        if self.module.get_function(entry_name.as_str()).is_none() {
            return Err(InterpError::UndefinedFunction(entry_name));
        }
        self.call_function(entry_name.as_str(), Vec::new())
    }

}


/// A load right after a store, of the same type through the same
/// operand, reads back the stored value reduced to that type.
#[verifier::spinoff_prover]
#[verifier::rlimit(80)]
pub proof fn lemma_store_then_load(m: IrModule, sl: u32, s: Machine, ty: IrType, value: usize, addr: usize)
    requires
        s.frames.len() > 0,
        instr_spec(m, sl, s, Instruction::Store { ty, value, addr }) is Ok,
    ensures
        instr_spec(m, sl, instr_spec(m, sl, s, Instruction::Store { ty, value, addr })->Ok_0, Instruction::Load { ty, addr })
            == Ok::<Machine, Fault>(
            written(
                m,
                instr_spec(m, sl, s, Instruction::Store { ty, value, addr })->Ok_0,
                reloaded(read_spec(top(s), value)->Ok_0, ty),
            ),
        ),
{
    let t = instr_spec(m, sl, s, Instruction::Store { ty, value, addr })->Ok_0;
    let val = read_spec(top(s), value)->Ok_0;
    let a = address_of(read_spec(top(s), addr)->Ok_0)->0;
    let bytes = store_spec(val, ty)->Ok_0;
    lemma_store_load_roundtrip(val, ty);
    assert(top(t) == top(s));
    assert(bytes.len() == type_size(ty)) by {
        match ty {
            IrType::F64 => lemma_le_bytes_len(val->F64_0 as nat, 8),
            IrType::Pointer => lemma_le_bytes_len(address_of(val)->0 as nat, 4),
            IrType::Void => {},
            _ => lemma_le_bytes_len(int_bits_of(val, ty) as nat, type_size(ty) as nat),
        }
    }
    assert(t.memory.subrange(a as int, a + type_size(ty)) =~= bytes);
}

} // verus!
