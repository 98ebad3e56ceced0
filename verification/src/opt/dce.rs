//! Dead-code elimination: a value-defining instruction without side
//! effects whose value nothing reads is deleted, and the remaining values
//! are renumbered. Rounds repeat until nothing more is dead, so chains of
//! unused computations disappear.

use vstd::prelude::*;

use crate::ir::block::BasicBlock;
use crate::ir::function::IrFunction;
use crate::ir::instruction::{result_type_of, Instruction};
use crate::ir::module::IrModule;
use crate::ir::text::writer::{blocks_result_count, result_count};
use crate::ir::value::ValueId;
use crate::opt::analysis::{instruction_operand_ids, instruction_operands, terminator_operand_ids, terminator_operands};
use crate::opt::pass::OptimizationPass;
use crate::opt::util::{compact_value_ids, count_kept, ids_compacted, instruction_renumbered};

verus! {

/// The dead-code elimination pass.
pub struct DeadCodeElimination;

/// Instructions whose deletion cannot change behaviour when their value is
/// unused.
pub open spec fn removable_kind(i: Instruction) -> bool {
    match i {
        Instruction::Add { .. } | Instruction::Sub { .. } | Instruction::Mul { .. } | Instruction::And { .. }
        | Instruction::Or { .. } | Instruction::Xor { .. } | Instruction::Eq { .. } | Instruction::Lt { .. }
        | Instruction::Gt { .. } | Instruction::Const(_) => true,
        _ => false,
    }
}

/// Whether an instruction may be deleted when its value is unused:
/// arithmetic, bitwise logic, comparisons and constants; never a memory
/// access, call, phi, division, shift, cast or select.
pub fn is_safe_to_remove(instr: &Instruction) -> (r: bool)
    ensures
        r == removable_kind(*instr),
{
    match instr {
        Instruction::Add { .. } | Instruction::Sub { .. } | Instruction::Mul { .. } | Instruction::And { .. }
        | Instruction::Or { .. } | Instruction::Xor { .. } | Instruction::Eq { .. } | Instruction::Lt { .. }
        | Instruction::Gt { .. } | Instruction::Const(_) => true,
        _ => false,
    }
}

/// Some instruction or terminator of `blocks` reads `id`.
pub open spec fn value_used(blocks: Seq<BasicBlock>, id: ValueId) -> bool {
    ||| exists|b: int, i: int|
        0 <= b < blocks.len() && 0 <= i < blocks[b].instructions@.len() && #[trigger] instruction_operand_ids(
            blocks[b].instructions@[i],
        ).contains(id)
    ||| exists|b: int| 0 <= b < blocks.len() && #[trigger] terminator_operand_ids(blocks[b].terminator).contains(id)
}

/// The dead flags of the values `instrs` define, the first being
/// `first`: removable and unused in `all`.
pub open spec fn instruction_dead_flags(instrs: Seq<Instruction>, all: Seq<BasicBlock>, first: nat) -> Seq<bool>
    decreases instrs.len(),
{
    if instrs.len() == 0 {
        seq![]
    } else {
        let before = instrs.drop_last();
        instruction_dead_flags(before, all, first) + if result_type_of(instrs.last()) is Some {
            seq![removable_kind(instrs.last()) && !value_used(all, (first + result_count(before)) as ValueId)]
        } else {
            seq![]
        }
    }
}

/// [`instruction_dead_flags`] over blocks in order.
pub open spec fn blocks_dead_flags(bs: Seq<BasicBlock>, all: Seq<BasicBlock>, first: nat) -> Seq<bool>
    decreases bs.len(),
{
    if bs.len() == 0 {
        seq![]
    } else {
        blocks_dead_flags(bs.drop_last(), all, first) + instruction_dead_flags(
            bs.last().instructions@,
            all,
            first + blocks_result_count(bs.drop_last()),
        )
    }
}

/// One flag per value id of `f`: parameters are never dead.
pub open spec fn dead_flags(f: IrFunction) -> Seq<bool> {
    Seq::new(f.params@.len(), |i: int| false) + blocks_dead_flags(f.blocks@, f.blocks@, f.params@.len())
}

/// Whether flag `j` is set (ids past the flags are not).
pub open spec fn flagged(dead: Seq<bool>, j: nat) -> bool {
    j < dead.len() && dead[j as int]
}

/// The instructions left once those defining flagged values are dropped;
/// the first defined value is `first`.
pub open spec fn kept_instructions(instrs: Seq<Instruction>, dead: Seq<bool>, first: nat) -> Seq<Instruction>
    decreases instrs.len(),
{
    if instrs.len() == 0 {
        seq![]
    } else {
        let before = instrs.drop_last();
        kept_instructions(before, dead, first) + if result_type_of(instrs.last()) is Some && flagged(
            dead,
            first + result_count(before),
        ) {
            seq![]
        } else {
            seq![instrs.last()]
        }
    }
}

/// `g` is `h` with the instructions defining flagged values dropped.
pub open spec fn instructions_dropped(h: IrFunction, g: IrFunction, dead: Seq<bool>) -> bool {
    &&& g.name == h.name
    &&& g.return_ty == h.return_ty
    &&& g.params == h.params
    &&& g.values == h.values
    &&& g.entry_block == h.entry_block
    &&& g.value_counter == h.value_counter
    &&& g.blocks@.len() == h.blocks@.len()
    &&& forall|b: int|
        0 <= b < h.blocks@.len() ==> {
            &&& (#[trigger] g.blocks@[b]).label == h.blocks@[b].label
            &&& g.blocks@[b].terminator == h.blocks@[b].terminator
            &&& g.blocks@[b].debug_locs == h.blocks@[b].debug_locs
            &&& g.blocks@[b].instructions@ == kept_instructions(
                h.blocks@[b].instructions@,
                dead,
                h.params@.len() + blocks_result_count(h.blocks@.subrange(0, b)),
            )
        }
}

/// One round: some value is dead; `g` is `f` with ids compacted and the
/// dead instructions dropped.
pub open spec fn dce_round(f: IrFunction, g: IrFunction) -> bool {
    let dead = dead_flags(f);
    &&& exists|j: int| 0 <= j < dead.len() && dead[j]
    &&& exists|h: IrFunction| ids_compacted(f, h, dead) && #[trigger] instructions_dropped(h, g, dead)
}

/// `g` is reached from `f` by `n` rounds.
pub open spec fn dce_rounds(f: IrFunction, g: IrFunction, n: nat) -> bool
    decreases n,
{
    if n == 0 {
        g == f
    } else {
        exists|h: IrFunction| dce_rounds(f, h, (n - 1) as nat) && #[trigger] dce_round(h, g)
    }
}

/// `g` is `f` after rounds until no value is dead.
pub open spec fn dead_code_eliminated(f: IrFunction, g: IrFunction) -> bool {
    &&& exists|n: nat| #[trigger] dce_rounds(f, g, n)
    &&& forall|j: int| 0 <= j < dead_flags(g).len() ==> !#[trigger] dead_flags(g)[j]
}

/// The number of instructions in `bs`.
pub open spec fn total_instructions(bs: Seq<BasicBlock>) -> nat
    decreases bs.len(),
{
    if bs.len() == 0 {
        0
    } else {
        total_instructions(bs.drop_last()) + bs.last().instructions@.len()
    }
}

/// The number of set flags.
pub open spec fn count_set(s: Seq<bool>) -> nat
    decreases s.len(),
{
    if s.len() == 0 {
        0
    } else {
        count_set(s.drop_last()) + if s.last() {
            1nat
        } else {
            0nat
        }
    }
}

/// Whether `seq` contains `id`.
fn contains_id(ids: &Vec<ValueId>, id: ValueId) -> (r: bool)
    ensures
        r == ids@.contains(id),
{
    let mut k: usize = 0;
    while k < ids.len()
        invariant
            k <= ids@.len(),
            forall|q: int| 0 <= q < k ==> ids@[q] != id,
        decreases ids.len() - k,
    {
        if ids[k] == id {
            return true;
        }
        k = k + 1;
    }
    false
}

/// Whether some instruction or terminator of `func` reads `id`.
fn has_users(func: &IrFunction, id: ValueId) -> (r: bool)
    ensures
        r == value_used(func.blocks@, id),
{
    let mut b: usize = 0;
    while b < func.blocks.len()
        invariant
            b <= func.blocks@.len(),
            forall|bb: int, i: int|
                0 <= bb < b && 0 <= i < func.blocks@[bb].instructions@.len() ==> !#[trigger] instruction_operand_ids(
                    func.blocks@[bb].instructions@[i],
                ).contains(id),
            forall|bb: int| 0 <= bb < b ==> !#[trigger] terminator_operand_ids(func.blocks@[bb].terminator).contains(id),
        decreases func.blocks.len() - b,
    {
        let block = &func.blocks[b];
        let mut i: usize = 0;
        while i < block.instructions.len()
            invariant
                b < func.blocks@.len(),
                *block == func.blocks@[b as int],
                i <= block.instructions@.len(),
                forall|q: int| 0 <= q < i ==> !#[trigger] instruction_operand_ids(block.instructions@[q]).contains(id),
            decreases block.instructions.len() - i,
        {
            let ops = instruction_operands(&block.instructions[i]);
            if contains_id(&ops, id) {
                assert(instruction_operand_ids(func.blocks@[b as int].instructions@[i as int]).contains(id));
                return true;
            }
            i = i + 1;
        }
        let ops = terminator_operands(&block.terminator);
        if contains_id(&ops, id) {
            return true;
        }
        b = b + 1;
    }
    false
}

/// The dead flags of `func` (see [`dead_flags`]).
fn compute_dead(func: &IrFunction) -> (dead: Vec<bool>)
    requires
        func.params@.len() + blocks_result_count(func.blocks@) <= usize::MAX,
    ensures
        dead@ == dead_flags(*func),
{
    let ghost all = func.blocks@;
    let mut dead: Vec<bool> = Vec::new();
    let mut p: usize = 0;
    while p < func.params.len()
        invariant
            p <= func.params@.len(),
            dead@ == Seq::new(p as nat, |i: int| false),
        decreases func.params.len() - p,
    {
        dead.push(false);
        p = p + 1;
        assert(dead@ =~= Seq::new(p as nat, |i: int| false));
    }
    let ghost head = dead@;
    let mut cur_id: usize = func.params.len();
    let mut b: usize = 0;
    while b < func.blocks.len()
        invariant
            all == func.blocks@,
            func.params@.len() + blocks_result_count(all) <= usize::MAX,
            b <= all.len(),
            head == Seq::new(func.params@.len(), |i: int| false),
            cur_id == func.params@.len() + blocks_result_count(all.subrange(0, b as int)),
            dead@ == head + blocks_dead_flags(all.subrange(0, b as int), all, func.params@.len()),
        decreases all.len() - b,
    {
        let block = &func.blocks[b];
        let ghost mid = dead@;
        let ghost first = cur_id as nat;
        proof {
            lemma_blocks_count_prefix(all, b as int + 1);
            let t = all.subrange(0, b + 1);
            assert(t.drop_last() =~= all.subrange(0, b as int));
        }
        let mut i: usize = 0;
        while i < block.instructions.len()
            invariant
                all == func.blocks@,
                *block == all[b as int],
                b < all.len(),
                func.params@.len() + blocks_result_count(all.subrange(0, b + 1)) <= usize::MAX,
                first == func.params@.len() + blocks_result_count(all.subrange(0, b as int)),
                blocks_result_count(all.subrange(0, b + 1)) == blocks_result_count(all.subrange(0, b as int))
                    + result_count(block.instructions@),
                i <= block.instructions@.len(),
                cur_id == first + result_count(block.instructions@.subrange(0, i as int)),
                dead@ == mid + instruction_dead_flags(block.instructions@.subrange(0, i as int), all, first),
            decreases block.instructions.len() - i,
        {
            proof {
                lemma_result_count_prefix(block.instructions@, i as int + 1);
                let s = block.instructions@.subrange(0, i + 1);
                assert(s.drop_last() =~= block.instructions@.subrange(0, i as int));
            }
            let instr = &block.instructions[i];
            if instr.result_type().is_some() {
                let removable = is_safe_to_remove(instr);
                let flag = removable && !has_users(func, cur_id);
                dead.push(flag);
                cur_id = cur_id + 1;
            }
            i = i + 1;
            proof {
                let s = block.instructions@.subrange(0, i as int);
                assert(s.last() == *instr);
                assert(dead@ =~= mid + instruction_dead_flags(s, all, first));
            }
        }
        proof {
            assert(block.instructions@.subrange(0, i as int) =~= block.instructions@);
            let t = all.subrange(0, b + 1);
            assert(t.last() == *block);
        }
        b = b + 1;
        proof {
            assert(dead@ =~= head + blocks_dead_flags(all.subrange(0, b as int), all, func.params@.len()));
        }
    }
    proof {
        assert(all.subrange(0, b as int) =~= all);
    }
    dead
}

proof fn lemma_result_count_prefix(instrs: Seq<Instruction>, k: int)
    requires
        0 <= k <= instrs.len(),
    ensures
        result_count(instrs.subrange(0, k)) <= result_count(instrs),
    decreases instrs.len() - k,
{
    if k < instrs.len() {
        lemma_result_count_prefix(instrs, k + 1);
        let t = instrs.subrange(0, k + 1);
        assert(t.drop_last() =~= instrs.subrange(0, k));
    } else {
        assert(instrs.subrange(0, k) =~= instrs);
    }
}

proof fn lemma_blocks_count_prefix(bs: Seq<BasicBlock>, k: int)
    requires
        0 <= k <= bs.len(),
    ensures
        blocks_result_count(bs.subrange(0, k)) <= blocks_result_count(bs),
    decreases bs.len() - k,
{
    if k < bs.len() {
        lemma_blocks_count_prefix(bs, k + 1);
        let t = bs.subrange(0, k + 1);
        assert(t.drop_last() =~= bs.subrange(0, k));
    } else {
        assert(bs.subrange(0, k) =~= bs);
    }
}

/// The number of flagged ids in `a..b`.
pub open spec fn count_flagged(dead: Seq<bool>, a: nat, b: nat) -> nat
    decreases b - a,
{
    if b <= a {
        0
    } else {
        count_flagged(dead, a, (b - 1) as nat) + if flagged(dead, (b - 1) as nat) {
            1nat
        } else {
            0nat
        }
    }
}

proof fn lemma_count_flagged_bound(dead: Seq<bool>, a: nat, b: nat)
    ensures
        count_flagged(dead, a, b) <= if b >= a { b - a } else { 0 },
    decreases b - a,
{
    if b > a {
        lemma_count_flagged_bound(dead, a, (b - 1) as nat);
    }
}

proof fn lemma_count_flagged_positive(dead: Seq<bool>, a: nat, b: nat, j: nat)
    requires
        a <= j < b,
        flagged(dead, j),
    ensures
        count_flagged(dead, a, b) > 0,
    decreases b - a,
{
    if j < b - 1 {
        lemma_count_flagged_positive(dead, a, (b - 1) as nat, j);
    }
}

proof fn lemma_renumbered_result_type(a: Instruction, c: Instruction, removed: Seq<bool>)
    requires
        instruction_renumbered(a, c, removed),
    ensures
        result_type_of(a) == result_type_of(c),
{
}

proof fn lemma_result_count_same(a: Seq<Instruction>, c: Seq<Instruction>)
    requires
        a.len() == c.len(),
        forall|i: int| 0 <= i < a.len() ==> result_type_of(#[trigger] a[i]) == result_type_of(c[i]),
    ensures
        result_count(a) == result_count(c),
    decreases a.len(),
{
    if a.len() > 0 {
        lemma_result_count_same(a.drop_last(), c.drop_last());
        assert(result_type_of(a[a.len() - 1]) == result_type_of(c[c.len() - 1]));
    }
}

proof fn lemma_compacted_counts(f: IrFunction, h: IrFunction, removed: Seq<bool>)
    requires
        ids_compacted(f, h, removed),
    ensures
        forall|k: int|
            0 <= k <= f.blocks@.len() ==> #[trigger] blocks_result_count(h.blocks@.subrange(0, k))
                == blocks_result_count(f.blocks@.subrange(0, k)),
        total_instructions(h.blocks@) == total_instructions(f.blocks@),
{
    assert forall|b: int| 0 <= b < f.blocks@.len() implies #[trigger] result_count(h.blocks@[b].instructions@)
        == result_count(f.blocks@[b].instructions@) by {
        let a = f.blocks@[b].instructions@;
        let c = h.blocks@[b].instructions@;
        assert forall|i: int| 0 <= i < a.len() implies result_type_of(#[trigger] a[i]) == result_type_of(c[i]) by {
            lemma_renumbered_result_type(a[i], c[i], removed);
        }
        lemma_result_count_same(a, c);
    }
    assert forall|k: int| 0 <= k <= f.blocks@.len() implies #[trigger] blocks_result_count(h.blocks@.subrange(0, k))
        == blocks_result_count(f.blocks@.subrange(0, k)) by {
        lemma_blocks_count_same(f.blocks@.subrange(0, k), h.blocks@.subrange(0, k));
    }
    lemma_total_same(f.blocks@, h.blocks@);
}

proof fn lemma_blocks_count_same(fb: Seq<BasicBlock>, hb: Seq<BasicBlock>)
    requires
        fb.len() == hb.len(),
        forall|b: int|
            0 <= b < fb.len() ==> #[trigger] result_count(hb[b].instructions@) == result_count(fb[b].instructions@),
    ensures
        blocks_result_count(hb) == blocks_result_count(fb),
    decreases fb.len(),
{
    if fb.len() > 0 {
        lemma_blocks_count_same(fb.drop_last(), hb.drop_last());
        assert(result_count(hb[hb.len() - 1].instructions@) == result_count(fb[fb.len() - 1].instructions@));
    }
}

proof fn lemma_total_same(fb: Seq<BasicBlock>, hb: Seq<BasicBlock>)
    requires
        fb.len() == hb.len(),
        forall|b: int| 0 <= b < fb.len() ==> (#[trigger] hb[b]).instructions@.len() == fb[b].instructions@.len(),
    ensures
        total_instructions(hb) == total_instructions(fb),
    decreases fb.len(),
{
    if fb.len() > 0 {
        lemma_total_same(fb.drop_last(), hb.drop_last());
        assert(hb[hb.len() - 1].instructions@.len() == fb[fb.len() - 1].instructions@.len());
    }
}

proof fn lemma_flags_len(instrs: Seq<Instruction>, all: Seq<BasicBlock>, first: nat)
    ensures
        instruction_dead_flags(instrs, all, first).len() == result_count(instrs),
    decreases instrs.len(),
{
    if instrs.len() > 0 {
        lemma_flags_len(instrs.drop_last(), all, first);
    }
}

proof fn lemma_blocks_flags_len(bs: Seq<BasicBlock>, all: Seq<BasicBlock>, first: nat)
    ensures
        blocks_dead_flags(bs, all, first).len() == blocks_result_count(bs),
    decreases bs.len(),
{
    if bs.len() > 0 {
        lemma_blocks_flags_len(bs.drop_last(), all, first);
        lemma_flags_len(bs.last().instructions@, all, first + blocks_result_count(bs.drop_last()));
    }
}

proof fn lemma_kept_count(instrs: Seq<Instruction>, dead: Seq<bool>, first: nat)
    ensures
        result_count(kept_instructions(instrs, dead, first)) <= result_count(instrs),
    decreases instrs.len(),
{
    if instrs.len() > 0 {
        lemma_kept_count(instrs.drop_last(), dead, first);
        let before = instrs.drop_last();
        let k0 = kept_instructions(before, dead, first);
        let k = kept_instructions(instrs, dead, first);
        if !(result_type_of(instrs.last()) is Some && flagged(dead, first + result_count(before))) {
            assert(k.drop_last() =~= k0);
        } else {
            assert(k =~= k0);
        }
    }
}

proof fn lemma_blocks_kept_count(hb: Seq<BasicBlock>, gb: Seq<BasicBlock>)
    requires
        hb.len() == gb.len(),
        forall|b: int|
            0 <= b < hb.len() ==> #[trigger] result_count(gb[b].instructions@) <= result_count(hb[b].instructions@),
    ensures
        blocks_result_count(gb) <= blocks_result_count(hb),
    decreases hb.len(),
{
    if hb.len() > 0 {
        lemma_blocks_kept_count(hb.drop_last(), gb.drop_last());
        assert(result_count(gb[gb.len() - 1].instructions@) <= result_count(hb[hb.len() - 1].instructions@));
    }
}

proof fn lemma_total_drop(hb: Seq<BasicBlock>, gb: Seq<BasicBlock>, b: int)
    requires
        hb.len() == gb.len(),
        0 <= b <= hb.len(),
        forall|k: int| b <= k < hb.len() ==> #[trigger] gb[k] == hb[k],
    ensures
        total_instructions(hb) == total_instructions(hb.subrange(0, b)) + total_instructions(hb.subrange(b, hb.len() as int)),
        total_instructions(gb) == total_instructions(gb.subrange(0, b)) + total_instructions(hb.subrange(b, hb.len() as int)),
    decreases hb.len() - b,
{
    if b < hb.len() {
        lemma_total_drop(hb, gb, b + 1);
        lemma_total_split(hb, b);
        lemma_total_split(gb, b);
        assert(gb.subrange(b, gb.len() as int) =~= hb.subrange(b, hb.len() as int));
    } else {
        assert(hb.subrange(0, b) =~= hb);
        assert(gb.subrange(0, b) =~= gb);
        assert(hb.subrange(b, hb.len() as int).len() == 0);
    }
}

proof fn lemma_total_split(bs: Seq<BasicBlock>, b: int)
    requires
        0 <= b <= bs.len(),
    ensures
        total_instructions(bs) == total_instructions(bs.subrange(0, b)) + total_instructions(bs.subrange(b, bs.len() as int)),
    decreases bs.len(),
{
    if bs.len() > 0 && b < bs.len() {
        lemma_total_split(bs.drop_last(), b);
        assert(bs.drop_last().subrange(0, b) =~= bs.subrange(0, b));
        let tail = bs.subrange(b, bs.len() as int);
        assert(tail.drop_last() =~= bs.drop_last().subrange(b, bs.len() - 1));
    } else if b == bs.len() {
        assert(bs.subrange(0, b) =~= bs);
        assert(bs.subrange(b, bs.len() as int).len() == 0);
    }
}

/// Drop the instructions that define flagged values (ids counted in
/// program order from the first value after the parameters); gives how
/// many went.
fn remove_dead_instructions(func: &mut IrFunction, dead: &Vec<bool>) -> (removed: usize)
    requires
        old(func).params@.len() + blocks_result_count(old(func).blocks@) <= usize::MAX,
    ensures
        instructions_dropped(*old(func), *final(func), dead@),
        total_instructions(final(func).blocks@) + removed == total_instructions(old(func).blocks@),
        removed == count_flagged(
            dead@,
            old(func).params@.len(),
            old(func).params@.len() + blocks_result_count(old(func).blocks@),
        ),
{
    let ghost hb = func.blocks@;
    let ghost p = func.params@.len();
    let mut cur_id: usize = func.params.len();
    let mut removed: usize = 0;
    let mut b: usize = 0;
    while b < func.blocks.len()
        invariant
            p == old(func).params@.len(),
            hb == old(func).blocks@,
            p + blocks_result_count(hb) <= usize::MAX,
            func.name == old(func).name,
            func.return_ty == old(func).return_ty,
            func.params == old(func).params,
            func.values == old(func).values,
            func.entry_block == old(func).entry_block,
            func.value_counter == old(func).value_counter,
            func.blocks@.len() == hb.len(),
            b <= hb.len(),
            cur_id == p + blocks_result_count(hb.subrange(0, b as int)),
            removed == count_flagged(dead@, p, cur_id as nat),
            forall|k: int| b <= k < hb.len() ==> #[trigger] func.blocks@[k] == hb[k],
            forall|k: int|
                0 <= k < b ==> {
                    &&& (#[trigger] func.blocks@[k]).label == hb[k].label
                    &&& func.blocks@[k].terminator == hb[k].terminator
                    &&& func.blocks@[k].debug_locs == hb[k].debug_locs
                    &&& func.blocks@[k].instructions@ == kept_instructions(
                        hb[k].instructions@,
                        dead@,
                        p + blocks_result_count(hb.subrange(0, k)),
                    )
                },
            total_instructions(func.blocks@.subrange(0, b as int)) + removed == total_instructions(hb.subrange(0, b as int)),
        decreases hb.len() - b,
    {
        let ghost orig = hb[b as int].instructions@;
        let ghost first = cur_id as nat;
        let ghost start = func.blocks@;
        proof {
            lemma_blocks_count_prefix(hb, b as int + 1);
            let t = hb.subrange(0, b + 1);
            assert(t.drop_last() =~= hb.subrange(0, b as int));
        }
        let mut rest: Vec<Instruction> = Vec::new();
        std::mem::swap(&mut rest, &mut func.blocks[b].instructions);
        let n = rest.len();
        assert(n == orig.len());
        let mut kept: Vec<Instruction> = Vec::new();
        let mut i: usize = 0;
        while rest.len() > 0
            invariant
                b < hb.len(),
                orig.len() <= usize::MAX,
                orig == hb[b as int].instructions@,
                i + rest@.len() == orig.len(),
                rest@ == orig.subrange(i as int, orig.len() as int),
                first + result_count(orig) <= usize::MAX,
                cur_id == first + result_count(orig.subrange(0, i as int)),
                removed == count_flagged(dead@, p, cur_id as nat),
                first >= p,
                kept@ == kept_instructions(orig.subrange(0, i as int), dead@, first),
                kept@.len() + (removed - count_flagged(dead@, p, first)) == i,
                count_flagged(dead@, p, first) <= removed,
            decreases rest.len(),
        {
            proof {
                lemma_result_count_prefix(orig, i as int + 1);
                let s = orig.subrange(0, i + 1);
                assert(s.drop_last() =~= orig.subrange(0, i as int));
            }
            let instr = rest.remove(0);
            proof {
                assert(instr == orig[i as int]);
            }
            let mut keep = true;
            proof {
                lemma_count_flagged_bound(dead@, p, cur_id as nat);
            }
            if instr.result_type().is_some() {
                if cur_id < dead.len() && dead[cur_id] {
                    keep = false;
                    removed = removed + 1;
                }
                cur_id = cur_id + 1;
            }
            let ghost was = instr;
            if keep {
                kept.push(instr);
            }
            i = i + 1;
            proof {
                let s = orig.subrange(0, i as int);
                assert(s.last() == was);
                assert(rest@ =~= orig.subrange(i as int, orig.len() as int));
                assert(kept@ =~= kept_instructions(s, dead@, first));
            }
        }
        proof {
            assert(orig.subrange(0, i as int) =~= orig);
        }
        func.blocks[b].instructions = kept;
        proof {
            let t = hb.subrange(0, b + 1);
            assert(t.last() == hb[b as int]);
            let nb = func.blocks@.subrange(0, b + 1);
            assert(nb.drop_last() =~= func.blocks@.subrange(0, b as int));
            assert(func.blocks@.subrange(0, b as int) =~= start.subrange(0, b as int));
        }
        b = b + 1;
    }
    proof {
        assert(hb.subrange(0, b as int) =~= hb);
        assert(func.blocks@.subrange(0, b as int) =~= func.blocks@);
    }
    removed
}

/// Delete dead instructions of `func` until none is left (see
/// [`dead_code_eliminated`]).
pub fn dce_function(func: &mut IrFunction)
    requires
        old(func).params@.len() + blocks_result_count(old(func).blocks@) <= usize::MAX,
    ensures
        dead_code_eliminated(*old(func), *final(func)),
{
    let ghost mut rounds: nat = 0;
    loop
        invariant
            dce_rounds(*old(func), *func, rounds),
            func.params@.len() + blocks_result_count(func.blocks@) <= usize::MAX,
        decreases total_instructions(func.blocks@),
    {
        let dead = compute_dead(func);
        let mut any = false;
        let mut j: usize = 0;
        while j < dead.len()
            invariant
                j <= dead@.len(),
                any == exists|k: int| 0 <= k < j && dead@[k],
            decreases dead.len() - j,
        {
            if dead[j] {
                any = true;
            }
            j = j + 1;
        }
        if !any {
            proof {
                assert(exists|n: nat| #[trigger] dce_rounds(*old(func), *func, n));
            }
            return ;
        }
        let ghost f0 = *func;
        compact_value_ids(func, &dead);
        let ghost h = *func;
        proof {
            lemma_compacted_counts(f0, h, dead@);
            assert(h.blocks@.subrange(0, h.blocks@.len() as int) =~= h.blocks@);
            assert(f0.blocks@.subrange(0, f0.blocks@.len() as int) =~= f0.blocks@);
        }
        let removed = remove_dead_instructions(func, &dead);
        proof {
            assert(dce_round(f0, *func));
            assert(dce_rounds(*old(func), *func, rounds + 1));
            rounds = rounds + 1;
            let p = f0.params@.len();
            lemma_blocks_flags_len(f0.blocks@, f0.blocks@, p);
            let k = choose|k: int| 0 <= k < dead@.len() && dead@[k];
            assert(k >= p);
            lemma_count_flagged_positive(dead@, p, p + blocks_result_count(f0.blocks@), k as nat);
            assert forall|b: int| 0 <= b < h.blocks@.len() implies #[trigger] result_count(func.blocks@[b].instructions@)
                <= result_count(h.blocks@[b].instructions@) by {
                lemma_kept_count(h.blocks@[b].instructions@, dead@, p + blocks_result_count(h.blocks@.subrange(0, b)));
            }
            lemma_blocks_kept_count(h.blocks@, func.blocks@);
        }
    }
}

impl OptimizationPass for DeadCodeElimination {
    /// Each function whose ids fit the id range has its dead code
    /// eliminated; the others, the entry and the static data are kept.
    open spec fn transforms(&self, before: IrModule, after: IrModule) -> bool {
        &&& after.functions@.len() == before.functions@.len()
        &&& forall|i: int|
            0 <= i < before.functions@.len() ==> {
                let f = before.functions@[i];
                let g = #[trigger] after.functions@[i];
                if f.params@.len() + blocks_result_count(f.blocks@) <= usize::MAX {
                    dead_code_eliminated(f, g)
                } else {
                    g == f
                }
            }
        &&& after.entry == before.entry
        &&& after.static_data == before.static_data
    }

    fn name(&self) -> &str {
        "dce"
    }

    /// Functions whose ids would not fit the id range are left alone.
    fn run(&mut self, module: &mut IrModule)
        ensures
            final(module).functions@.len() == old(module).functions@.len(),
            forall|i: int|
                0 <= i < old(module).functions@.len() ==> {
                    let f = old(module).functions@[i];
                    let g = #[trigger] final(module).functions@[i];
                    if f.params@.len() + blocks_result_count(f.blocks@) <= usize::MAX {
                        dead_code_eliminated(f, g)
                    } else {
                        g == f
                    }
                },
            final(module).entry == old(module).entry,
            final(module).static_data == old(module).static_data,
    {
        let mut i: usize = 0;
        while i < module.functions.len()
            invariant
                i <= module.functions@.len(),
                module.functions@.len() == old(module).functions@.len(),
                module.entry == old(module).entry,
                module.static_data == old(module).static_data,
                forall|k: int|
                    0 <= k < i ==> {
                        let f = old(module).functions@[k];
                        let g = #[trigger] module.functions@[k];
                        if f.params@.len() + blocks_result_count(f.blocks@) <= usize::MAX {
                            dead_code_eliminated(f, g)
                        } else {
                            g == f
                        }
                    },
                forall|k: int| i <= k < module.functions@.len() ==> #[trigger] module.functions@[k] == old(module).functions@[k],
            decreases module.functions.len() - i,
        {
            if ids_fit_function(&module.functions[i]) {
                dce_function(&mut module.functions[i]);
            }
            i = i + 1;
        }
    }
}

/// Whether the parameters and instruction results of `func` number at
/// most `usize::MAX`.
fn ids_fit_function(func: &IrFunction) -> (r: bool)
    ensures
        r == (func.params@.len() + blocks_result_count(func.blocks@) <= usize::MAX),
{
    let mut total: usize = func.params.len();
    let mut b: usize = 0;
    while b < func.blocks.len()
        invariant
            b <= func.blocks@.len(),
            total == func.params@.len() + blocks_result_count(func.blocks@.subrange(0, b as int)),
        decreases func.blocks.len() - b,
    {
        let block = &func.blocks[b];
        let mut i: usize = 0;
        let ghost base = total;
        while i < block.instructions.len()
            invariant
                b < func.blocks@.len(),
                *block == func.blocks@[b as int],
                i <= block.instructions@.len(),
                total == base + result_count(block.instructions@.subrange(0, i as int)),
                base == func.params@.len() + blocks_result_count(func.blocks@.subrange(0, b as int)),
            decreases block.instructions.len() - i,
        {
            if block.instructions[i].result_type().is_some() {
                if total == usize::MAX {
                    proof {
                        lemma_result_count_prefix(block.instructions@, i as int + 1);
                        let s = block.instructions@.subrange(0, i + 1);
                        assert(s.drop_last() =~= block.instructions@.subrange(0, i as int));
                        lemma_blocks_count_prefix(func.blocks@, b as int + 1);
                        let t = func.blocks@.subrange(0, b + 1);
                        assert(t.drop_last() =~= func.blocks@.subrange(0, b as int));
                        assert(t.last() == *block);
                    }
                    return false;
                }
                total = total + 1;
            }
            proof {
                let s = block.instructions@.subrange(0, i + 1);
                assert(s.drop_last() =~= block.instructions@.subrange(0, i as int));
            }
            i = i + 1;
        }
        proof {
            assert(block.instructions@.subrange(0, i as int) =~= block.instructions@);
            let t = func.blocks@.subrange(0, b + 1);
            assert(t.drop_last() =~= func.blocks@.subrange(0, b as int));
        }
        b = b + 1;
    }
    proof {
        assert(func.blocks@.subrange(0, b as int) =~= func.blocks@);
    }
    true
}

} // verus!
