//! Constant folding: an `add`, `sub`, `mul`, `eq`, `lt` or `gt` whose two
//! operands are `i32` constants becomes a constant (arithmetic wraps
//! modulo 2^32, comparisons are unsigned). Folding repeats until a round
//! folds nothing, so chains of constant arithmetic collapse completely.

use vstd::prelude::*;

use crate::ir::block::BasicBlock;
use crate::ir::function::IrFunction;
use crate::ir::instruction::{result_type_of, Instruction};
use crate::ir::module::IrModule;
use crate::ir::value::{Constant, ValueId};
use crate::opt::pass::OptimizationPass;
use crate::interpreter::machine::{instr_spec, read_spec, top, Machine};
use crate::interpreter::values::{int_bits_of, lemma_arithmetic_i32, Fault, RuntimeValue};
use crate::ir::types::IrType;
use vstd::arithmetic::div_mod::lemma_small_mod;

verus! {

/// The constant-folding pass.
pub struct ConstantFold;

/// `n` reduced modulo 2^32.
pub open spec fn wrap32(n: int) -> u32 {
    (n % 0x1_0000_0000) as u32
}

/// The constants that the value-defining instructions of `instrs` define,
/// one entry per defined value (`None` for a non-constant).
pub open spec fn result_constants(instrs: Seq<Instruction>) -> Seq<Option<Constant>>
    decreases instrs.len(),
{
    if instrs.len() == 0 {
        seq![]
    } else {
        result_constants(instrs.drop_last()) + if result_type_of(instrs.last()) is Some {
            seq![
                match instrs.last() {
                    Instruction::Const(c) => Some(c),
                    _ => None,
                },
            ]
        } else {
            seq![]
        }
    }
}

/// [`result_constants`] over blocks in order.
pub open spec fn blocks_result_constants(m: Seq<Seq<Instruction>>) -> Seq<Option<Constant>>
    decreases m.len(),
{
    if m.len() == 0 {
        seq![]
    } else {
        blocks_result_constants(m.drop_last()) + result_constants(m.last())
    }
}

/// The constant each value id names in a function with `params`
/// parameters and instructions `m`: parameters name none.
pub open spec fn constant_table(params: nat, m: Seq<Seq<Instruction>>) -> Seq<Option<Constant>> {
    Seq::new(params, |i: int| None::<Constant>) + blocks_result_constants(m)
}

/// The constant value `id` names, if any.
pub open spec fn table_constant(t: Seq<Option<Constant>>, id: ValueId) -> Option<Constant> {
    if id < t.len() {
        t[id as int]
    } else {
        None
    }
}

/// The instructions folding rewrites.
pub open spec fn is_foldable_kind(i: Instruction) -> bool {
    match i {
        Instruction::Add { .. } | Instruction::Sub { .. } | Instruction::Mul { .. } | Instruction::Eq { .. }
        | Instruction::Lt { .. } | Instruction::Gt { .. } => true,
        _ => false,
    }
}

/// What folding makes of `i` given the constant table `t`.
pub open spec fn folded_instruction(i: Instruction, t: Seq<Option<Constant>>) -> Instruction {
    match i {
        Instruction::Add { lhs, rhs, .. } => match (table_constant(t, lhs), table_constant(t, rhs)) {
            (Some(Constant::I32(a)), Some(Constant::I32(b))) => Instruction::Const(Constant::I32(wrap32(a + b))),
            _ => i,
        },
        Instruction::Sub { lhs, rhs, .. } => match (table_constant(t, lhs), table_constant(t, rhs)) {
            (Some(Constant::I32(a)), Some(Constant::I32(b))) => Instruction::Const(Constant::I32(wrap32(a - b))),
            _ => i,
        },
        Instruction::Mul { lhs, rhs, .. } => match (table_constant(t, lhs), table_constant(t, rhs)) {
            (Some(Constant::I32(a)), Some(Constant::I32(b))) => Instruction::Const(Constant::I32(wrap32(a * b))),
            _ => i,
        },
        Instruction::Eq { lhs, rhs, .. } => match (table_constant(t, lhs), table_constant(t, rhs)) {
            (Some(Constant::I32(a)), Some(Constant::I32(b))) => Instruction::Const(Constant::I1(a == b)),
            _ => i,
        },
        Instruction::Lt { lhs, rhs, .. } => match (table_constant(t, lhs), table_constant(t, rhs)) {
            (Some(Constant::I32(a)), Some(Constant::I32(b))) => Instruction::Const(Constant::I1(a < b)),
            _ => i,
        },
        Instruction::Gt { lhs, rhs, .. } => match (table_constant(t, lhs), table_constant(t, rhs)) {
            (Some(Constant::I32(a)), Some(Constant::I32(b))) => Instruction::Const(Constant::I1(a > b)),
            _ => i,
        },
        _ => i,
    }
}

/// The instructions of a function, block by block.
pub open spec fn instruction_matrix(f: IrFunction) -> Seq<Seq<Instruction>> {
    f.blocks@.map_values(|b: BasicBlock| b.instructions@)
}

/// One folding round: every instruction folded against the table of the
/// instructions before the round.
pub open spec fn fold_step(params: nat, m: Seq<Seq<Instruction>>) -> Seq<Seq<Instruction>> {
    m.map_values(|is: Seq<Instruction>| is.map_values(|i: Instruction| folded_instruction(i, constant_table(params, m))))
}

/// `n` folding rounds.
pub open spec fn fold_iterate(params: nat, m: Seq<Seq<Instruction>>, n: nat) -> Seq<Seq<Instruction>>
    decreases n,
{
    if n == 0 {
        m
    } else {
        fold_step(params, fold_iterate(params, m, (n - 1) as nat))
    }
}

/// `g` is `f` with other instructions only: signature, values, block
/// labels, terminators and debug locations are kept.
pub open spec fn same_but_instructions(f: IrFunction, g: IrFunction) -> bool {
    &&& g.name == f.name
    &&& g.return_ty == f.return_ty
    &&& g.params == f.params
    &&& g.values == f.values
    &&& g.entry_block == f.entry_block
    &&& g.value_counter == f.value_counter
    &&& g.blocks@.len() == f.blocks@.len()
    &&& forall|b: int|
        0 <= b < f.blocks@.len() ==> {
            &&& (#[trigger] g.blocks@[b]).label == f.blocks@[b].label
            &&& g.blocks@[b].terminator == f.blocks@[b].terminator
            &&& g.blocks@[b].debug_locs == f.blocks@[b].debug_locs
        }
}

/// `g` is `f` folded to a fixpoint: the result of repeating folding rounds
/// until one changes nothing.
pub open spec fn constant_folded(f: IrFunction, g: IrFunction) -> bool {
    &&& same_but_instructions(f, g)
    &&& exists|n: nat| instruction_matrix(g) == #[trigger] fold_iterate(f.params@.len(), instruction_matrix(f), n)
    &&& fold_step(f.params@.len(), instruction_matrix(g)) == instruction_matrix(g)
}

/// The number of instructions of a foldable kind.
pub open spec fn count_foldable(is: Seq<Instruction>) -> nat
    decreases is.len(),
{
    if is.len() == 0 {
        0
    } else {
        count_foldable(is.drop_last()) + if is_foldable_kind(is.last()) {
            1nat
        } else {
            0nat
        }
    }
}

/// [`count_foldable`] over all blocks.
pub open spec fn matrix_foldable(m: Seq<Seq<Instruction>>) -> nat
    decreases m.len(),
{
    if m.len() == 0 {
        0
    } else {
        matrix_foldable(m.drop_last()) + count_foldable(m.last())
    }
}

proof fn lemma_count_foldable_update(s: Seq<Instruction>, i: int, x: Instruction)
    requires
        0 <= i < s.len(),
        is_foldable_kind(s[i]),
        !is_foldable_kind(x),
    ensures
        count_foldable(s.update(i, x)) + 1 == count_foldable(s),
    decreases s.len(),
{
    let t = s.update(i, x);
    if i == s.len() - 1 {
        assert(t.drop_last() =~= s.drop_last());
    } else {
        assert(t.drop_last() =~= s.drop_last().update(i, x));
        lemma_count_foldable_update(s.drop_last(), i, x);
    }
}

proof fn lemma_matrix_foldable_update(m: Seq<Seq<Instruction>>, b: int, s: Seq<Instruction>)
    requires
        0 <= b < m.len(),
    ensures
        matrix_foldable(m.update(b, s)) + count_foldable(m[b]) == matrix_foldable(m) + count_foldable(s),
    decreases m.len(),
{
    let t = m.update(b, s);
    if b == m.len() - 1 {
        assert(t.drop_last() =~= m.drop_last());
    } else {
        assert(t.drop_last() =~= m.drop_last().update(b, s));
        lemma_matrix_foldable_update(m.drop_last(), b, s);
    }
}

/// The constant an id names in `table`.
fn lookup_constant(table: &Vec<Option<Constant>>, id: ValueId) -> (r: Option<Constant>)
    ensures
        r == table_constant(table@, id),
{
    if id < table.len() {
        table[id]
    } else {
        None
    }
}

/// Fold `instr` against `table` in place; tells whether it changed.
fn try_fold(instr: &mut Instruction, table: &Vec<Option<Constant>>) -> (changed: bool)
    ensures
        *final(instr) == folded_instruction(*old(instr), table@),
        changed ==> is_foldable_kind(*old(instr)) && !is_foldable_kind(*final(instr)),
        !changed ==> *final(instr) == *old(instr),
{
    let (lhs, rhs) = match &*instr {
        Instruction::Add { lhs, rhs, .. }
        | Instruction::Sub { lhs, rhs, .. }
        | Instruction::Mul { lhs, rhs, .. }
        | Instruction::Eq { lhs, rhs, .. }
        | Instruction::Lt { lhs, rhs, .. }
        | Instruction::Gt { lhs, rhs, .. } => (*lhs, *rhs),
        _ => {
            return false;
        },
    };
    let (a, b) = match (lookup_constant(table, lhs), lookup_constant(table, rhs)) {
        (Some(Constant::I32(a)), Some(Constant::I32(b))) => (a, b),
        _ => {
            return false;
        },
    };
    let folded = match &*instr {
        Instruction::Add { .. } => Constant::I32(a.wrapping_add(b)),
        Instruction::Sub { .. } => Constant::I32(a.wrapping_sub(b)),
        Instruction::Mul { .. } => Constant::I32(a.wrapping_mul(b)),
        Instruction::Eq { .. } => Constant::I1(a == b),
        Instruction::Lt { .. } => Constant::I1(a < b),
        _ => Constant::I1(a > b),
    };
    proof {
        assert(vstd::wrapping::u32_specs::wrapping_add(a, b) == wrap32(a + b));
        assert(vstd::wrapping::u32_specs::wrapping_sub(a, b) == wrap32(a - b));
        assert(vstd::wrapping::u32_specs::wrapping_mul(a, b) == wrap32(a * b)) by (nonlinear_arith);
    }
    *instr = Instruction::Const(folded);
    true
}

/// Fold every instruction of `block` against `table`; gives the number
/// folded.
fn fold_block(block: &mut BasicBlock, table: &Vec<Option<Constant>>) -> (folded: usize)
    ensures
        final(block).label == old(block).label,
        final(block).terminator == old(block).terminator,
        final(block).debug_locs == old(block).debug_locs,
        final(block).instructions@ == old(block).instructions@.map_values(
            |i: Instruction| folded_instruction(i, table@),
        ),
        count_foldable(final(block).instructions@) + folded == count_foldable(old(block).instructions@),
        folded == 0 ==> final(block).instructions@ == old(block).instructions@,
{
    let ghost orig = block.instructions@;
    let mut folded: usize = 0;
    let mut i: usize = 0;
    while i < block.instructions.len()
        invariant
            block.label == old(block).label,
            block.terminator == old(block).terminator,
            block.debug_locs == old(block).debug_locs,
            orig == old(block).instructions@,
            block.instructions@.len() == orig.len(),
            i <= orig.len(),
            forall|k: int| 0 <= k < i ==> #[trigger] block.instructions@[k] == folded_instruction(orig[k], table@),
            forall|k: int| i <= k < orig.len() ==> #[trigger] block.instructions@[k] == orig[k],
            count_foldable(block.instructions@) + folded == count_foldable(orig),
            folded == 0 ==> block.instructions@ == orig,
            folded <= i,
        decreases orig.len() - i,
    {
        let ghost before = block.instructions@;
        let changed = try_fold(&mut block.instructions[i], table);
        proof {
            if changed {
                lemma_count_foldable_update(before, i as int, block.instructions@[i as int]);
                assert(block.instructions@ == before.update(i as int, block.instructions@[i as int]));
            } else {
                assert(block.instructions@ =~= before);
            }
        }
        if changed {
            folded = folded + 1;
        }
        i = i + 1;
    }
    proof {
        assert(block.instructions@ =~= orig.map_values(|i: Instruction| folded_instruction(i, table@)));
    }
    folded
}

/// The constant table of `func` (see [`constant_table`]).
pub(crate) fn build_constant_table(func: &IrFunction) -> (t: Vec<Option<Constant>>)
    ensures
        t@ == constant_table(func.params@.len(), instruction_matrix(*func)),
{
    let ghost m = instruction_matrix(*func);
    let mut t: Vec<Option<Constant>> = Vec::new();
    let mut p: usize = 0;
    while p < func.params.len()
        invariant
            p <= func.params@.len(),
            t@ == Seq::new(p as nat, |i: int| None::<Constant>),
        decreases func.params.len() - p,
    {
        t.push(None);
        p = p + 1;
        assert(t@ =~= Seq::new(p as nat, |i: int| None::<Constant>));
    }
    let ghost head = t@;
    let mut b: usize = 0;
    while b < func.blocks.len()
        invariant
            m == instruction_matrix(*func),
            b <= func.blocks@.len(),
            head == Seq::new(func.params@.len(), |i: int| None::<Constant>),
            t@ == head + blocks_result_constants(m.subrange(0, b as int)),
        decreases func.blocks.len() - b,
    {
        let block = &func.blocks[b];
        let ghost mid = t@;
        let mut i: usize = 0;
        while i < block.instructions.len()
            invariant
                *block == func.blocks@[b as int],
                i <= block.instructions@.len(),
                t@ == mid + result_constants(block.instructions@.subrange(0, i as int)),
            decreases block.instructions.len() - i,
        {
            let instr = &block.instructions[i];
            if instr.result_type().is_some() {
                match instr {
                    Instruction::Const(c) => t.push(Some(*c)),
                    _ => t.push(None),
                }
            }
            proof {
                let s = block.instructions@.subrange(0, i + 1);
                assert(s.drop_last() =~= block.instructions@.subrange(0, i as int));
                assert(s.last() == *instr);
            }
            i = i + 1;
            assert(t@ =~= mid + result_constants(block.instructions@.subrange(0, i as int)));
        }
        proof {
            assert(block.instructions@.subrange(0, i as int) =~= block.instructions@);
            let s = m.subrange(0, b + 1);
            assert(s.drop_last() =~= m.subrange(0, b as int));
            assert(s.last() == block.instructions@);
        }
        b = b + 1;
        assert(t@ =~= head + blocks_result_constants(m.subrange(0, b as int)));
    }
    proof {
        assert(m.subrange(0, b as int) =~= m);
    }
    t
}

/// One folding round over all blocks; tells whether anything folded.
fn fold_round(func: &mut IrFunction, table: &Vec<Option<Constant>>) -> (changed: bool)
    requires
        table@ == constant_table(old(func).params@.len(), instruction_matrix(*old(func))),
    ensures
        same_but_instructions(*old(func), *final(func)),
        instruction_matrix(*final(func)) == fold_step(old(func).params@.len(), instruction_matrix(*old(func))),
        changed ==> matrix_foldable(instruction_matrix(*final(func))) < matrix_foldable(
            instruction_matrix(*old(func)),
        ),
        !changed ==> instruction_matrix(*final(func)) == instruction_matrix(*old(func)),
{
    let ghost m0 = instruction_matrix(*func);
    let ghost p = func.params@.len();
    let mut changed = false;
    let mut b: usize = 0;
    while b < func.blocks.len()
        invariant
            same_but_instructions(*old(func), *func),
            m0 == instruction_matrix(*old(func)),
            p == old(func).params@.len(),
            table@ == constant_table(p, m0),
            b <= func.blocks@.len(),
            forall|k: int|
                0 <= k < b ==> (#[trigger] func.blocks@[k]).instructions@ == m0[k].map_values(
                    |i: Instruction| folded_instruction(i, table@),
                ),
            forall|k: int| b <= k < func.blocks@.len() ==> #[trigger] func.blocks@[k] == old(func).blocks@[k],
            matrix_foldable(instruction_matrix(*func)) <= matrix_foldable(m0),
            changed ==> matrix_foldable(instruction_matrix(*func)) < matrix_foldable(m0),
            !changed ==> instruction_matrix(*func) == m0,
        decreases func.blocks.len() - b,
    {
        let ghost mb = instruction_matrix(*func);
        let n = fold_block(&mut func.blocks[b], table);
        proof {
            assert(instruction_matrix(*func) =~= mb.update(b as int, func.blocks@[b as int].instructions@));
            lemma_matrix_foldable_update(mb, b as int, func.blocks@[b as int].instructions@);
            lemma_matrix_foldable_bound(mb, b as int);
            if n == 0 {
                assert(instruction_matrix(*func) =~= mb);
            }
        }
        if n > 0 {
            changed = true;
        }
        b = b + 1;
    }
    proof {
        assert(instruction_matrix(*func) =~= fold_step(p, m0));
    }
    changed
}

proof fn lemma_matrix_foldable_bound(m: Seq<Seq<Instruction>>, b: int)
    requires
        0 <= b < m.len(),
    ensures
        count_foldable(m[b]) <= matrix_foldable(m),
    decreases m.len(),
{
    if b < m.len() - 1 {
        lemma_matrix_foldable_bound(m.drop_last(), b);
    }
}

/// Fold `func` to a fixpoint (see [`constant_folded`]).
pub fn fold_function(func: &mut IrFunction)
    ensures
        constant_folded(*old(func), *final(func)),
{
    let ghost m0 = instruction_matrix(*func);
    let ghost p = func.params@.len();
    let ghost mut rounds: nat = 0;
    loop
        invariant
            same_but_instructions(*old(func), *func),
            m0 == instruction_matrix(*old(func)),
            p == old(func).params@.len(),
            instruction_matrix(*func) == fold_iterate(p, m0, rounds),
        decreases matrix_foldable(instruction_matrix(*func)),
    {
        let table = build_constant_table(func);
        let changed = fold_round(func, &table);
        proof {
            rounds = rounds + 1;
        }
        if !changed {
            proof {
                assert(instruction_matrix(*old(func)) == fold_iterate(p, m0, 0));
                assert(fold_iterate(p, m0, rounds) == instruction_matrix(*func));
            }
            return ;
        }
    }
}

/// Folding keeps what an instruction computes: where a foldable `i32`
/// instruction reads ids whose table entries are the constants `a` and `b`,
/// in every machine whose running frame holds those words at the same ids,
/// the interpreter gives the same outcome for the instruction and for what
/// folding makes of it, and what folding makes of it is a constant.
pub proof fn lemma_fold_keeps_meaning(
    m: IrModule,
    limit: u32,
    s: Machine,
    i: Instruction,
    t: Seq<Option<Constant>>,
    l: ValueId,
    r: ValueId,
    a: u32,
    b: u32,
)
    requires
        i == (Instruction::Add { ty: IrType::I32, lhs: l, rhs: r }) || i == (Instruction::Sub {
            ty: IrType::I32,
            lhs: l,
            rhs: r,
        }) || i == (Instruction::Mul { ty: IrType::I32, lhs: l, rhs: r }) || i == (Instruction::Eq {
            ty: IrType::I32,
            lhs: l,
            rhs: r,
        }) || i == (Instruction::Lt { ty: IrType::I32, lhs: l, rhs: r }) || i == (Instruction::Gt {
            ty: IrType::I32,
            lhs: l,
            rhs: r,
        }),
        table_constant(t, l) == Some(Constant::I32(a)),
        table_constant(t, r) == Some(Constant::I32(b)),
        read_spec(top(s), l) == Ok::<RuntimeValue, Fault>(RuntimeValue::I32(a)),
        read_spec(top(s), r) == Ok::<RuntimeValue, Fault>(RuntimeValue::I32(b)),
    ensures
        folded_instruction(i, t) is Const,
        instr_spec(m, limit, s, folded_instruction(i, t)) == instr_spec(m, limit, s, i),
{
    lemma_arithmetic_i32(a, b);
    lemma_small_mod(a as nat, 0x1_0000_0000);
    lemma_small_mod(b as nat, 0x1_0000_0000);
    assert(int_bits_of(RuntimeValue::I32(a), IrType::I32) == a);
    assert(int_bits_of(RuntimeValue::I32(b), IrType::I32) == b);
}

impl OptimizationPass for ConstantFold {
    /// Each function is constant-folded; the entry and the static data are
    /// kept.
    open spec fn transforms(&self, before: IrModule, after: IrModule) -> bool {
        &&& after.functions@.len() == before.functions@.len()
        &&& forall|i: int|
            0 <= i < before.functions@.len() ==> constant_folded(
                before.functions@[i],
                #[trigger] after.functions@[i],
            )
        &&& after.entry == before.entry
        &&& after.static_data == before.static_data
    }

    fn name(&self) -> &str {
        "constant-fold"
    }

    fn run(&mut self, module: &mut IrModule)
        ensures
            final(module).functions@.len() == old(module).functions@.len(),
            forall|i: int|
                0 <= i < old(module).functions@.len() ==> constant_folded(
                    old(module).functions@[i],
                    #[trigger] final(module).functions@[i],
                ),
            final(module).entry == old(module).entry,
            final(module).static_data == old(module).static_data,
    {
        let mut i: usize = 0;
        while i < module.functions.len()
            invariant
                i <= module.functions@.len(),
                module.functions@.len() == old(module).functions@.len(),
                module.entry == old(module).entry,
                module.static_data == old(module).static_data,
                forall|k: int|
                    0 <= k < i ==> constant_folded(old(module).functions@[k], #[trigger] module.functions@[k]),
                forall|k: int| i <= k < module.functions@.len() ==> #[trigger] module.functions@[k] == old(module).functions@[k],
            decreases module.functions.len() - i,
        {
            fold_function(&mut module.functions[i]);
            i = i + 1;
        }
    }
}

} // verus!
