//! Facts about a function that the passes read: where each value is
//! defined and read, which constants the values name, the control-flow
//! edges between labels and the labels reachable from the entry.
//!
//! Values are numbered as the function numbers them: the parameters
//! first, then each value-defining instruction in block and instruction
//! order.

use std::collections::HashMap;

use vstd::prelude::*;

use crate::ir::block::BasicBlock;
use crate::ir::function::IrFunction;
use crate::ir::instruction::{result_type_of, terminator_targets, GepIndex, Instruction, Terminator};
use crate::ir::text::writer::{
    blocks_result_count, ids_fit, lemma_blocks_result_count_prefix, lemma_result_count_prefix, result_count,
};
use crate::ir::value::{Constant, ValueId};
use crate::ir::validate::{has_block, is_predecessor};
use crate::opt::cfg_simplify::{is_label_path, label_reachable, lemma_entry_reachable, lemma_label_reach_extend, path_step};
use crate::opt::constant_fold::{build_constant_table, constant_table, instruction_matrix, table_constant};

verus! {

/// The values read by dynamic GEP indices, in order.
pub open spec fn dynamic_index_ids(ix: Seq<GepIndex>) -> Seq<ValueId>
    decreases ix.len(),
{
    if ix.len() == 0 {
        seq![]
    } else {
        dynamic_index_ids(ix.drop_last()) + match ix.last() {
            GepIndex::Dynamic(id) => seq![id],
            GepIndex::StructField(_) => seq![],
        }
    }
}

/// The values an instruction reads, in operand order.
pub open spec fn instruction_operand_ids(i: Instruction) -> Seq<ValueId> {
    match i {
        Instruction::Add { lhs, rhs, .. }
        | Instruction::Sub { lhs, rhs, .. }
        | Instruction::Mul { lhs, rhs, .. }
        | Instruction::Div { lhs, rhs, .. }
        | Instruction::Rem { lhs, rhs, .. }
        | Instruction::And { lhs, rhs, .. }
        | Instruction::Or { lhs, rhs, .. }
        | Instruction::Xor { lhs, rhs, .. }
        | Instruction::Shl { lhs, rhs, .. }
        | Instruction::Lshr { lhs, rhs, .. }
        | Instruction::Ashr { lhs, rhs, .. }
        | Instruction::Eq { lhs, rhs, .. }
        | Instruction::Lt { lhs, rhs, .. }
        | Instruction::Gt { lhs, rhs, .. } => seq![lhs, rhs],
        Instruction::Const(_) | Instruction::Alloca { .. } => seq![],
        Instruction::Load { addr, .. } => seq![addr],
        Instruction::Store { value, addr, .. } => seq![value, addr],
        Instruction::Call { args, .. } => args@,
        Instruction::Phi { incoming, .. } => incoming@.map_values(|p: (ValueId, String)| p.0),
        Instruction::Cast { value, .. } => seq![value],
        Instruction::Select { condition, then_value, else_value, .. } => seq![condition, then_value, else_value],
        Instruction::Gep { base, indices, .. } => seq![base] + dynamic_index_ids(indices@),
    }
}

/// The values a terminator reads.
pub open spec fn terminator_operand_ids(t: Terminator) -> Seq<ValueId> {
    match t {
        Terminator::CondBranch { condition, .. } => seq![condition],
        Terminator::Return { value: Some(v) } => seq![v],
        _ => seq![],
    }
}

/// The values `instr` reads, in operand order.
pub fn instruction_operands(instr: &Instruction) -> (r: Vec<ValueId>)
    ensures
        r@ == instruction_operand_ids(*instr),
{
    match instr {
        Instruction::Add { lhs, rhs, .. }
        | Instruction::Sub { lhs, rhs, .. }
        | Instruction::Mul { lhs, rhs, .. }
        | Instruction::Div { lhs, rhs, .. }
        | Instruction::Rem { lhs, rhs, .. }
        | Instruction::And { lhs, rhs, .. }
        | Instruction::Or { lhs, rhs, .. }
        | Instruction::Xor { lhs, rhs, .. }
        | Instruction::Shl { lhs, rhs, .. }
        | Instruction::Lshr { lhs, rhs, .. }
        | Instruction::Ashr { lhs, rhs, .. }
        | Instruction::Eq { lhs, rhs, .. }
        | Instruction::Lt { lhs, rhs, .. }
        | Instruction::Gt { lhs, rhs, .. } => {
            let v = vec![*lhs, *rhs];
            assert(v@ =~= instruction_operand_ids(*instr));
            v
        },
        Instruction::Const(_) | Instruction::Alloca { .. } => {
            let v = Vec::new();
            assert(v@ =~= instruction_operand_ids(*instr));
            v
        },
        Instruction::Load { addr, .. } => {
            let v = vec![*addr];
            assert(v@ =~= instruction_operand_ids(*instr));
            v
        },
        Instruction::Store { value, addr, .. } => {
            let v = vec![*value, *addr];
            assert(v@ =~= instruction_operand_ids(*instr));
            v
        },
        Instruction::Call { args, .. } => {
            let mut v: Vec<ValueId> = Vec::new();
            let mut i: usize = 0;
            while i < args.len()
                invariant
                    i <= args@.len(),
                    v@ == args@.subrange(0, i as int),
                decreases args.len() - i,
            {
                v.push(args[i]);
                i = i + 1;
                assert(v@ =~= args@.subrange(0, i as int));
            }
            assert(args@.subrange(0, i as int) =~= args@);
            v
        },
        Instruction::Phi { incoming, .. } => {
            let mut v: Vec<ValueId> = Vec::new();
            let mut i: usize = 0;
            while i < incoming.len()
                invariant
                    i <= incoming@.len(),
                    v@ == incoming@.subrange(0, i as int).map_values(|p: (ValueId, String)| p.0),
                decreases incoming.len() - i,
            {
                v.push(incoming[i].0);
                i = i + 1;
                assert(v@ =~= incoming@.subrange(0, i as int).map_values(|p: (ValueId, String)| p.0));
            }
            assert(incoming@.subrange(0, i as int) =~= incoming@);
            v
        },
        Instruction::Cast { value, .. } => {
            let v = vec![*value];
            assert(v@ =~= instruction_operand_ids(*instr));
            v
        },
        Instruction::Select { condition, then_value, else_value, .. } => {
            let v = vec![*condition, *then_value, *else_value];
            assert(v@ =~= instruction_operand_ids(*instr));
            v
        },
        Instruction::Gep { base, indices, .. } => {
            let mut v: Vec<ValueId> = vec![*base];
            let mut i: usize = 0;
            while i < indices.len()
                invariant
                    i <= indices@.len(),
                    v@ == seq![*base] + dynamic_index_ids(indices@.subrange(0, i as int)),
                decreases indices.len() - i,
            {
                let ghost before = v@;
                match indices[i] {
                    GepIndex::Dynamic(id) => v.push(id),
                    GepIndex::StructField(_) => {},
                }
                proof {
                    let t = indices@.subrange(0, i + 1);
                    assert(t.drop_last() =~= indices@.subrange(0, i as int));
                    assert(t.last() == indices@[i as int]);
                }
                i = i + 1;
                assert(v@ =~= seq![*base] + dynamic_index_ids(indices@.subrange(0, i as int)));
            }
            assert(indices@.subrange(0, i as int) =~= indices@);
            v
        },
    }
}

/// The values `term` reads.
pub fn terminator_operands(term: &Terminator) -> (r: Vec<ValueId>)
    ensures
        r@ == terminator_operand_ids(*term),
{
    match term {
        Terminator::CondBranch { condition, .. } => {
            let v = vec![*condition];
            assert(v@ =~= terminator_operand_ids(*term));
            v
        },
        Terminator::Return { value: Some(v) } => {
            let r = vec![*v];
            assert(r@ =~= terminator_operand_ids(*term));
            r
        },
        _ => {
            let v = Vec::new();
            assert(v@ =~= terminator_operand_ids(*term));
            v
        },
    }
}

/// Block label and instruction index of each value-defining instruction of
/// `instrs`, in order.
pub open spec fn definition_sites(label: String, instrs: Seq<Instruction>) -> Seq<(String, usize)>
    decreases instrs.len(),
{
    if instrs.len() == 0 {
        seq![]
    } else {
        definition_sites(label, instrs.drop_last()) + if result_type_of(instrs.last()) is Some {
            seq![(label, (instrs.len() - 1) as usize)]
        } else {
            seq![]
        }
    }
}

/// [`definition_sites`] over blocks in order.
pub open spec fn blocks_definition_sites(bs: Seq<BasicBlock>) -> Seq<(String, usize)>
    decreases bs.len(),
{
    if bs.len() == 0 {
        seq![]
    } else {
        blocks_definition_sites(bs.drop_last()) + definition_sites(bs.last().label, bs.last().instructions@)
    }
}

/// Where each instruction-defined value of `f` is defined.
pub open spec fn definitions(f: IrFunction) -> Map<ValueId, (String, usize)> {
    let sites = blocks_definition_sites(f.blocks@);
    let p = f.params@.len();
    Map::new(|id: ValueId| p <= id < p + sites.len(), |id: ValueId| sites[id - p])
}

/// The reads of `ids`, each at block label `label` and instruction index
/// `idx`.
pub open spec fn operand_uses(ids: Seq<ValueId>, label: String, idx: usize) -> Seq<(ValueId, (String, usize))> {
    ids.map_values(|d: ValueId| (d, (label, idx)))
}

/// Every read by the instructions of `instrs` in a block labelled `label`,
/// in order.
pub open spec fn instruction_uses(label: String, instrs: Seq<Instruction>) -> Seq<(ValueId, (String, usize))>
    decreases instrs.len(),
{
    if instrs.len() == 0 {
        seq![]
    } else {
        instruction_uses(label, instrs.drop_last()) + operand_uses(
            instruction_operand_ids(instrs.last()),
            label,
            (instrs.len() - 1) as usize,
        )
    }
}

/// Every read in block `b`: its instructions', then its terminator's, whose
/// reads are placed at index `usize::MAX`.
pub open spec fn block_uses(b: BasicBlock) -> Seq<(ValueId, (String, usize))> {
    instruction_uses(b.label, b.instructions@) + operand_uses(terminator_operand_ids(b.terminator), b.label, usize::MAX)
}

/// [`block_uses`] over blocks in order.
pub open spec fn blocks_uses(bs: Seq<BasicBlock>) -> Seq<(ValueId, (String, usize))>
    decreases bs.len(),
{
    if bs.len() == 0 {
        seq![]
    } else {
        blocks_uses(bs.drop_last()) + block_uses(bs.last())
    }
}

/// The places where `id` is read, in order.
pub open spec fn uses_of(us: Seq<(ValueId, (String, usize))>, id: ValueId) -> Seq<(String, usize)>
    decreases us.len(),
{
    if us.len() == 0 {
        seq![]
    } else {
        uses_of(us.drop_last(), id) + if us.last().0 == id {
            seq![us.last().1]
        } else {
            seq![]
        }
    }
}

/// Where each value of `f` that is read somewhere is read.
pub open spec fn uses(f: IrFunction) -> Map<ValueId, Seq<(String, usize)>> {
    let us = blocks_uses(f.blocks@);
    Map::new(|id: ValueId| uses_of(us, id).len() > 0, |id: ValueId| uses_of(us, id))
}

/// The constant each value of `f` defined by a `const` instruction holds.
pub open spec fn constants(f: IrFunction) -> Map<ValueId, Constant> {
    let t = constant_table(f.params@.len(), instruction_matrix(f));
    Map::new(|id: ValueId| table_constant(t, id) is Some, |id: ValueId| table_constant(t, id)->0)
}

proof fn lemma_definition_sites_len(label: String, instrs: Seq<Instruction>)
    ensures
        definition_sites(label, instrs).len() == result_count(instrs),
    decreases instrs.len(),
{
    if instrs.len() > 0 {
        lemma_definition_sites_len(label, instrs.drop_last());
    }
}

proof fn lemma_blocks_definition_sites_len(bs: Seq<BasicBlock>)
    ensures
        blocks_definition_sites(bs).len() == blocks_result_count(bs),
    decreases bs.len(),
{
    if bs.len() > 0 {
        lemma_blocks_definition_sites_len(bs.drop_last());
        lemma_definition_sites_len(bs.last().label, bs.last().instructions@);
    }
}

/// `m` maps the values numbered from `p` to `sites`, in order.
spec fn numbered(m: Map<ValueId, (String, usize)>, p: nat, sites: Seq<(String, usize)>) -> bool {
    m =~= Map::new(|id: ValueId| p <= id < p + sites.len(), |id: ValueId| sites[id - p])
}

/// The definition sites of `func`'s values.
fn build_definitions(func: &IrFunction) -> (m: HashMap<ValueId, (String, usize)>)
    requires
        ids_fit(*func),
    ensures
        m@ == definitions(*func),
{
    broadcast use vstd::std_specs::hash::group_hash_axioms;

    let ghost blocks = func.blocks@;
    let p = func.params.len();
    let mut m: HashMap<ValueId, (String, usize)> = HashMap::new();
    let mut cur: usize = p;
    let mut b: usize = 0;
    while b < func.blocks.len()
        invariant
            blocks == func.blocks@,
            ids_fit(*func),
            p == func.params@.len(),
            b <= blocks.len(),
            cur == p + blocks_definition_sites(blocks.subrange(0, b as int)).len(),
            numbered(m@, p as nat, blocks_definition_sites(blocks.subrange(0, b as int))),
        decreases blocks.len() - b,
    {
        let block = &func.blocks[b];
        let ghost before = blocks_definition_sites(blocks.subrange(0, b as int));
        proof {
            let t = blocks.subrange(0, b + 1);
            assert(t.drop_last() =~= blocks.subrange(0, b as int));
            lemma_blocks_result_count_prefix(blocks, b + 1);
            lemma_blocks_definition_sites_len(t);
        }
        let mut i: usize = 0;
        while i < block.instructions.len()
            invariant
                *block == blocks[b as int],
                b < blocks.len(),
                p == func.params@.len(),
                i <= block.instructions@.len(),
                p + blocks_definition_sites(blocks.subrange(0, b + 1)).len() <= usize::MAX,
                blocks_definition_sites(blocks.subrange(0, b + 1)) == before + definition_sites(
                    block.label,
                    block.instructions@,
                ),
                cur == p + (before + definition_sites(block.label, block.instructions@.subrange(0, i as int))).len(),
                numbered(m@, p as nat, before + definition_sites(block.label, block.instructions@.subrange(0, i as int))),
            decreases block.instructions.len() - i,
        {
            let ghost s0 = before + definition_sites(block.label, block.instructions@.subrange(0, i as int));
            proof {
                let t = block.instructions@.subrange(0, i + 1);
                assert(t.drop_last() =~= block.instructions@.subrange(0, i as int));
                lemma_result_count_prefix(block.instructions@, i + 1);
                lemma_definition_sites_len(block.label, t);
                lemma_definition_sites_len(block.label, block.instructions@);
            }
            if block.instructions[i].result_type().is_some() {
                m.insert(cur, (block.label.clone(), i));
                cur = cur + 1;
                proof {
                    let s1 = s0.push((block.label, i));
                    assert(s1 =~= before + definition_sites(block.label, block.instructions@.subrange(0, i + 1)));
                    assert(numbered(m@, p as nat, s1));
                }
            } else {
                proof {
                    assert(s0 =~= before + definition_sites(block.label, block.instructions@.subrange(0, i + 1)));
                }
            }
            i = i + 1;
        }
        proof {
            assert(block.instructions@.subrange(0, i as int) =~= block.instructions@);
        }
        b = b + 1;
    }
    proof {
        assert(blocks.subrange(0, b as int) =~= blocks);
    }
    m
}

/// `m` holds, for each value read in `us`, the places where it is read.
spec fn uses_recorded(m: Map<ValueId, Vec<(String, usize)>>, us: Seq<(ValueId, (String, usize))>) -> bool {
    forall|id: ValueId|
        #![trigger m.contains_key(id)]
        #![trigger uses_of(us, id)]
        (m.contains_key(id) <==> uses_of(us, id).len() > 0) && (m.contains_key(id) ==> m[id]@ == uses_of(us, id))
}

/// Record that each of `ids` is read at block `label`, index `idx`.
fn record_uses(
    m: &mut HashMap<ValueId, Vec<(String, usize)>>,
    ids: &Vec<ValueId>,
    label: &String,
    idx: usize,
    Ghost(done): Ghost<Seq<(ValueId, (String, usize))>>,
)
    requires
        uses_recorded(old(m)@, done),
    ensures
        uses_recorded(final(m)@, done + operand_uses(ids@, *label, idx)),
{
    broadcast use vstd::std_specs::hash::group_hash_axioms;

    let mut k: usize = 0;
    while k < ids.len()
        invariant
            k <= ids@.len(),
            uses_recorded(m@, done + operand_uses(ids@.subrange(0, k as int), *label, idx)),
        decreases ids.len() - k,
    {
        let ghost us0 = done + operand_uses(ids@.subrange(0, k as int), *label, idx);
        let d = ids[k];
        let mut v = match m.remove(&d) {
            Some(v) => v,
            None => Vec::new(),
        };
        v.push((label.clone(), idx));
        m.insert(d, v);
        proof {
            let us1 = us0.push((d, (*label, idx)));
            assert(us1 =~= done + operand_uses(ids@.subrange(0, k + 1), *label, idx));
            assert(us1.drop_last() =~= us0);
            assert forall|id: ValueId|
                (m@.contains_key(id) <==> uses_of(us1, id).len() > 0) && (m@.contains_key(id) ==> m@[id]@
                    == uses_of(us1, id)) by {
                assert(uses_of(us1, id) == uses_of(us0, id) + if d == id {
                    seq![(*label, idx)]
                } else {
                    seq![]
                });
            }
        }
        k = k + 1;
    }
    proof {
        assert(ids@.subrange(0, k as int) =~= ids@);
    }
}

/// The places where each value of `func` is read.
fn build_uses(func: &IrFunction) -> (m: HashMap<ValueId, Vec<(String, usize)>>)
    ensures
        m@.dom() == uses(*func).dom(),
        forall|id: ValueId| #[trigger] m@.contains_key(id) ==> m@[id]@ == uses(*func)[id],
{
    broadcast use vstd::std_specs::hash::group_hash_axioms;

    let ghost blocks = func.blocks@;
    let mut m: HashMap<ValueId, Vec<(String, usize)>> = HashMap::new();
    let mut b: usize = 0;
    while b < func.blocks.len()
        invariant
            blocks == func.blocks@,
            b <= blocks.len(),
            uses_recorded(m@, blocks_uses(blocks.subrange(0, b as int))),
        decreases blocks.len() - b,
    {
        let block = &func.blocks[b];
        let ghost before = blocks_uses(blocks.subrange(0, b as int));
        let mut i: usize = 0;
        while i < block.instructions.len()
            invariant
                *block == blocks[b as int],
                b < blocks.len(),
                i <= block.instructions@.len(),
                uses_recorded(m@, before + instruction_uses(block.label, block.instructions@.subrange(0, i as int))),
            decreases block.instructions.len() - i,
        {
            let ghost us0 = before + instruction_uses(block.label, block.instructions@.subrange(0, i as int));
            let ops = instruction_operands(&block.instructions[i]);
            record_uses(&mut m, &ops, &block.label, i, Ghost(us0));
            proof {
                let t = block.instructions@.subrange(0, i + 1);
                assert(t.drop_last() =~= block.instructions@.subrange(0, i as int));
                assert(us0 + operand_uses(ops@, block.label, i) =~= before + instruction_uses(block.label, t));
            }
            i = i + 1;
        }
        let ghost us1 = before + instruction_uses(block.label, block.instructions@);
        proof {
            assert(block.instructions@.subrange(0, i as int) =~= block.instructions@);
        }
        let ops = terminator_operands(&block.terminator);
        record_uses(&mut m, &ops, &block.label, usize::MAX, Ghost(us1));
        proof {
            let t = blocks.subrange(0, b + 1);
            assert(t.drop_last() =~= blocks.subrange(0, b as int));
            assert(us1 + operand_uses(ops@, block.label, usize::MAX) =~= blocks_uses(t));
        }
        b = b + 1;
    }
    proof {
        assert(blocks.subrange(0, b as int) =~= blocks);
        assert(m@.dom() =~= uses(*func).dom());
    }
    m
}

/// The constants the `const`-defined values of `func` hold.
fn build_constants(func: &IrFunction) -> (m: HashMap<ValueId, Constant>)
    ensures
        m@ == constants(*func),
{
    broadcast use vstd::std_specs::hash::group_hash_axioms;

    let t = build_constant_table(func);
    let mut m: HashMap<ValueId, Constant> = HashMap::new();
    let mut id: usize = 0;
    while id < t.len()
        invariant
            t@ == constant_table(func.params@.len(), instruction_matrix(*func)),
            id <= t@.len(),
            m@ =~= Map::new(
                |x: ValueId| x < id && table_constant(t@, x) is Some,
                |x: ValueId| table_constant(t@, x)->0,
            ),
        decreases t.len() - id,
    {
        if let Some(c) = t[id] {
            m.insert(id, c);
        }
        id = id + 1;
    }
    m
}

/// The texts of `labels`.
pub open spec fn label_texts(labels: Seq<String>) -> Seq<Seq<char>> {
    labels.map_values(|s: String| s@)
}

/// The label texts occurring in `labels`.
pub open spec fn labels_in(labels: Seq<String>) -> Set<Seq<char>> {
    Set::new(|l: Seq<char>| exists|k: int| 0 <= k < labels.len() && #[trigger] labels[k]@ == l)
}

/// No label text occurs twice in `labels`.
pub open spec fn distinct_labels(labels: Seq<String>) -> bool {
    forall|i: int, j: int| 0 <= i < j < labels.len() ==> #[trigger] labels[i]@ != #[trigger] labels[j]@
}

/// The keys of an association list from labels to labels.
pub open spec fn assoc_keys(list: Seq<(String, Vec<String>)>) -> Seq<String> {
    list.map_values(|e: (String, Vec<String>)| e.0)
}

/// An association list from labels to labels, read as a map.
pub open spec fn assoc_view(list: Seq<(String, Vec<String>)>) -> Map<Seq<char>, Seq<Seq<char>>> {
    Map::new(
        |l: Seq<char>| exists|k: int| 0 <= k < list.len() && #[trigger] list[k].0@ == l,
        |l: Seq<char>| label_texts(list[choose|k: int| 0 <= k < list.len() && #[trigger] list[k].0@ == l].1@),
    )
}

/// The targets of the blocks labelled `l`, block by block.
pub open spec fn label_successors(bs: Seq<BasicBlock>, l: Seq<char>) -> Seq<Seq<char>>
    decreases bs.len(),
{
    if bs.len() == 0 {
        seq![]
    } else {
        label_successors(bs.drop_last(), l) + if bs.last().label@ == l {
            terminator_targets(bs.last().terminator)
        } else {
            seq![]
        }
    }
}

/// `label`, once for each of `targets` equal to `l`.
pub open spec fn edges_into(targets: Seq<Seq<char>>, l: Seq<char>, label: Seq<char>) -> Seq<Seq<char>>
    decreases targets.len(),
{
    if targets.len() == 0 {
        seq![]
    } else {
        edges_into(targets.drop_last(), l, label) + if targets.last() == l {
            seq![label]
        } else {
            seq![]
        }
    }
}

/// The labels of the blocks that branch to `l`, once per branch, block by
/// block.
pub open spec fn label_predecessors(bs: Seq<BasicBlock>, l: Seq<char>) -> Seq<Seq<char>>
    decreases bs.len(),
{
    if bs.len() == 0 {
        seq![]
    } else {
        label_predecessors(bs.drop_last(), l) + edges_into(terminator_targets(bs.last().terminator), l, bs.last().label@)
    }
}

/// Some block of `bs` is labelled `l` or branches to `l`.
pub open spec fn names_label(bs: Seq<BasicBlock>, l: Seq<char>) -> bool {
    ||| has_block(bs, l)
    ||| exists|b: int| 0 <= b < bs.len() && #[trigger] terminator_targets(bs[b].terminator).contains(l)
}

/// For each block label of `f`, the labels control may pass to.
pub open spec fn successor_map(f: IrFunction) -> Map<Seq<char>, Seq<Seq<char>>> {
    Map::new(|l: Seq<char>| has_block(f.blocks@, l), |l: Seq<char>| label_successors(f.blocks@, l))
}

/// For each label that `f` names, the labels of the blocks that branch to
/// it.
pub open spec fn predecessor_map(f: IrFunction) -> Map<Seq<char>, Seq<Seq<char>>> {
    Map::new(|l: Seq<char>| names_label(f.blocks@, l), |l: Seq<char>| label_predecessors(f.blocks@, l))
}

/// The labels control can reach from `f`'s entry label, that label
/// included.
pub open spec fn reachable_labels(f: IrFunction) -> Set<Seq<char>> {
    Set::new(|l: Seq<char>| label_reachable(f.blocks@, f.entry_block@, l))
}

/// Add `l` to `labels` unless it occurs there already.
pub(crate) fn add_label(labels: &mut Vec<String>, l: &String)
    requires
        distinct_labels(old(labels)@),
    ensures
        distinct_labels(final(labels)@),
        labels_in(final(labels)@) == labels_in(old(labels)@).insert(l@),
{
    let mut k: usize = 0;
    while k < labels.len()
        invariant
            k <= labels@.len(),
            distinct_labels(labels@),
            forall|j: int| 0 <= j < k ==> labels@[j]@ != l@,
        decreases labels.len() - k,
    {
        if labels[k] == *l {
            proof {
                assert(labels_in(labels@) =~= labels_in(labels@).insert(l@));
            }
            return;
        }
        k = k + 1;
    }
    let ghost before = labels@;
    labels.push(l.clone());
    proof {
        assert(labels@[before.len() as int]@ == l@);
        assert forall|x: Seq<char>| labels_in(labels@).contains(x) <==> labels_in(before).insert(l@).contains(x) by {
            if labels_in(labels@).contains(x) {
                let q = choose|q: int| 0 <= q < labels@.len() && #[trigger] labels@[q]@ == x;
                if q < before.len() {
                    assert(before[q]@ == x);
                }
            }
            if labels_in(before).contains(x) {
                let q = choose|q: int| 0 <= q < before.len() && #[trigger] before[q]@ == x;
                assert(labels@[q]@ == x);
            }
        }
        assert(labels_in(labels@) =~= labels_in(before).insert(l@));
    }
}

/// The targets of the blocks labelled `l`, block by block.
fn successors_for(blocks: &Vec<BasicBlock>, l: &String) -> (r: Vec<String>)
    ensures
        label_texts(r@) == label_successors(blocks@, l@),
{
    let mut r: Vec<String> = Vec::new();
    let mut b: usize = 0;
    while b < blocks.len()
        invariant
            b <= blocks@.len(),
            label_texts(r@) == label_successors(blocks@.subrange(0, b as int), l@),
        decreases blocks.len() - b,
    {
        let ghost r0 = r@;
        proof {
            let t = blocks@.subrange(0, b + 1);
            assert(t.drop_last() =~= blocks@.subrange(0, b as int));
        }
        if blocks[b].label == *l {
            let ts = blocks[b].referenced_labels();
            let mut k: usize = 0;
            while k < ts.len()
                invariant
                    k <= ts@.len(),
                    label_texts(r@) == label_texts(r0) + label_texts(ts@.subrange(0, k as int)),
                decreases ts.len() - k,
            {
                let ghost r1 = r@;
                r.push(ts[k].clone());
                proof {
                    assert(ts@.subrange(0, k + 1) =~= ts@.subrange(0, k as int).push(ts@[k as int]));
                    assert(label_texts(ts@.subrange(0, k + 1)) =~= label_texts(ts@.subrange(0, k as int)).push(
                        ts@[k as int]@,
                    ));
                    assert(label_texts(r@) =~= label_texts(r1).push(ts@[k as int]@));
                }
                k = k + 1;
                assert(label_texts(r@) =~= label_texts(r0) + label_texts(ts@.subrange(0, k as int)));
            }
            assert(ts@.subrange(0, k as int) =~= ts@);
            assert(label_texts(r@) =~= label_successors(blocks@.subrange(0, b + 1), l@));
        } else {
            assert(label_texts(r@) =~= label_successors(blocks@.subrange(0, b + 1), l@));
        }
        b = b + 1;
    }
    assert(blocks@.subrange(0, b as int) =~= blocks@);
    r
}

/// The labels of the blocks that branch to `l`, once per branch, block by
/// block.
pub(crate) fn predecessors_for(blocks: &Vec<BasicBlock>, l: &String) -> (r: Vec<String>)
    ensures
        label_texts(r@) == label_predecessors(blocks@, l@),
{
    let mut r: Vec<String> = Vec::new();
    let mut b: usize = 0;
    while b < blocks.len()
        invariant
            b <= blocks@.len(),
            label_texts(r@) == label_predecessors(blocks@.subrange(0, b as int), l@),
        decreases blocks.len() - b,
    {
        let ghost r0 = r@;
        let ts = blocks[b].referenced_labels();
        let ghost targets = terminator_targets(blocks@[b as int].terminator);
        let mut k: usize = 0;
        while k < ts.len()
            invariant
                b < blocks@.len(),
                k <= ts@.len(),
                label_texts(ts@) == targets,
                label_texts(r@) == label_texts(r0) + edges_into(targets.subrange(0, k as int), l@, blocks@[b as int].label@),
            decreases ts.len() - k,
        {
            let ghost r1 = r@;
            proof {
                let t = targets.subrange(0, k + 1);
                assert(t.drop_last() =~= targets.subrange(0, k as int));
                assert(label_texts(ts@)[k as int] == ts@[k as int]@);
                assert(t.last() == ts@[k as int]@);
            }
            if ts[k] == *l {
                r.push(blocks[b].label.clone());
                assert(label_texts(r@) =~= label_texts(r1).push(blocks@[b as int].label@));
            }
            k = k + 1;
            assert(label_texts(r@) =~= label_texts(r0) + edges_into(targets.subrange(0, k as int), l@, blocks@[b as int].label@));
        }
        proof {
            assert(targets.subrange(0, k as int) =~= targets);
            let t = blocks@.subrange(0, b + 1);
            assert(t.drop_last() =~= blocks@.subrange(0, b as int));
            assert(label_texts(r@) =~= label_predecessors(t, l@));
        }
        b = b + 1;
    }
    assert(blocks@.subrange(0, b as int) =~= blocks@);
    r
}

/// A label other than the entry that control reaches is a target of a
/// block whose label control reaches.
proof fn lemma_reached_through_block(bs: Seq<BasicBlock>, entry: Seq<char>, l: Seq<char>)
    requires
        label_reachable(bs, entry, l),
        l != entry,
    ensures
        exists|c: int|
            0 <= c < bs.len() && label_reachable(bs, entry, bs[c].label@) && #[trigger] terminator_targets(
                bs[c].terminator,
            ).contains(l),
{
    reveal(label_reachable);
    let p = choose|p: Seq<Seq<char>>| #[trigger] is_label_path(bs, entry, p) && p.last() == l;
    let n = p.len();
    assert(n >= 2);
    assert(path_step(bs, p, n - 2));
    let c = choose|c: int|
        0 <= c < bs.len() && #[trigger] bs[c].label@ == p[n - 2] && terminator_targets(bs[c].terminator).contains(
            p[n - 1],
        );
    let q = p.drop_last();
    assert forall|k: int| 0 <= k < q.len() - 1 implies #[trigger] path_step(bs, q, k) by {
        assert(path_step(bs, p, k));
    }
    assert(is_label_path(bs, entry, q));
    assert(label_reachable(bs, entry, bs[c].label@));
}

proof fn lemma_labels_in_texts(v: Seq<String>)
    ensures
        labels_in(v) == Set::new(|l: Seq<char>| label_texts(v).contains(l)),
{
    assert forall|l: Seq<char>| labels_in(v).contains(l) <==> label_texts(v).contains(l) by {
        if labels_in(v).contains(l) {
            let q = choose|q: int| 0 <= q < v.len() && #[trigger] v[q]@ == l;
            assert(label_texts(v)[q] == l);
        }
        if label_texts(v).contains(l) {
            let q = choose|q: int| 0 <= q < label_texts(v).len() && label_texts(v)[q] == l;
            assert(v[q]@ == l);
        }
    }
    assert(labels_in(v) =~= Set::new(|l: Seq<char>| label_texts(v).contains(l)));
}

proof fn lemma_flagged_step(bs: Seq<BasicBlock>, flags: Seq<bool>, entry: Seq<char>, b: int)
    requires
        0 <= b < bs.len(),
        flags.len() == bs.len(),
    ensures
        flagged_labels(bs, flags, entry, b + 1) == if flags[b] {
            flagged_labels(bs, flags, entry, b).insert(bs[b].label@).union(
                Set::new(|l: Seq<char>| terminator_targets(bs[b].terminator).contains(l)),
            )
        } else {
            flagged_labels(bs, flags, entry, b)
        },
{
    let lo = flagged_labels(bs, flags, entry, b);
    let hi = flagged_labels(bs, flags, entry, b + 1);
    assert forall|x: Seq<char>| lo.contains(x) implies hi.contains(x) by {
        if x != entry {
            let c = choose|c: int|
                0 <= c < b && flags[c] && (#[trigger] bs[c].label@ == x || terminator_targets(bs[c].terminator).contains(x));
            assert(0 <= c < b + 1 && flags[c] && (bs[c].label@ == x || terminator_targets(bs[c].terminator).contains(x)));
        }
    }
    assert forall|x: Seq<char>| hi.contains(x) && x != entry implies lo.contains(x) || (flags[b] && (bs[b].label@ == x
        || terminator_targets(bs[b].terminator).contains(x))) by {
        let c = choose|c: int|
            0 <= c < b + 1 && flags[c] && (#[trigger] bs[c].label@ == x || terminator_targets(bs[c].terminator).contains(x));
        if c < b {
            assert(0 <= c < b && flags[c] && (bs[c].label@ == x || terminator_targets(bs[c].terminator).contains(x)));
        }
    }
    if flags[b] {
        assert(bs[b].label@ == bs[b].label@);
        assert forall|x: Seq<char>| terminator_targets(bs[b].terminator).contains(x) implies hi.contains(x) by {
            assert(0 <= b < b + 1 && flags[b] && (bs[b].label@ == x || terminator_targets(bs[b].terminator).contains(x)));
        }
        assert(hi.contains(bs[b].label@));
        assert(hi =~= lo.insert(bs[b].label@).union(
            Set::new(|l: Seq<char>| terminator_targets(bs[b].terminator).contains(l)),
        ));
    } else {
        assert(hi =~= lo);
    }
}

/// The labels `entry`, and the labels and targets of the blocks among the
/// first `b` whose flag is set.
spec fn flagged_labels(bs: Seq<BasicBlock>, flags: Seq<bool>, entry: Seq<char>, b: int) -> Set<Seq<char>> {
    Set::new(
        |l: Seq<char>|
            l == entry || exists|c: int|
                0 <= c < b && flags[c] && (#[trigger] bs[c].label@ == l || terminator_targets(
                    bs[c].terminator,
                ).contains(l)),
    )
}

/// The labels control can reach from `func`'s entry label, each once.
fn build_reachable(func: &IrFunction) -> (r: Vec<String>)
    ensures
        distinct_labels(r@),
        labels_in(r@) == reachable_labels(*func),
{
    let ghost bs = func.blocks@;
    let ghost entry = func.entry_block@;
    let flags = func.reachable_block_flags();
    let mut r: Vec<String> = Vec::new();
    add_label(&mut r, &func.entry_block);
    proof {
        assert(labels_in(r@) =~= flagged_labels(bs, flags@, entry, 0));
    }
    let mut b: usize = 0;
    while b < func.blocks.len()
        invariant
            bs == func.blocks@,
            entry == func.entry_block@,
            flags@.len() == bs.len(),
            b <= bs.len(),
            distinct_labels(r@),
            labels_in(r@) == flagged_labels(bs, flags@, entry, b as int),
        decreases bs.len() - b,
    {
        if flags[b] {
            add_label(&mut r, &func.blocks[b].label);
            let ts = func.blocks[b].referenced_labels();
            let ghost base = flagged_labels(bs, flags@, entry, b as int).insert(bs[b as int].label@);
            let mut k: usize = 0;
            while k < ts.len()
                invariant
                    b < bs.len(),
                    k <= ts@.len(),
                    distinct_labels(r@),
                    labels_in(r@) == base.union(labels_in(ts@.subrange(0, k as int))),
                decreases ts.len() - k,
            {
                let ghost before = labels_in(r@);
                add_label(&mut r, &ts[k]);
                proof {
                    assert(labels_in(ts@.subrange(0, k + 1)) =~= labels_in(ts@.subrange(0, k as int)).insert(ts@[k as int]@)) by {
                        assert forall|x: Seq<char>| labels_in(ts@.subrange(0, k + 1)).contains(x) implies labels_in(
                            ts@.subrange(0, k as int),
                        ).insert(ts@[k as int]@).contains(x) by {
                            let q = choose|q: int| 0 <= q < k + 1 && #[trigger] ts@.subrange(0, k + 1)[q]@ == x;
                            if q < k {
                                assert(ts@.subrange(0, k as int)[q]@ == x);
                            }
                        }
                        assert forall|x: Seq<char>| labels_in(ts@.subrange(0, k as int)).contains(x) implies labels_in(
                            ts@.subrange(0, k + 1),
                        ).contains(x) by {
                            let q = choose|q: int| 0 <= q < k && #[trigger] ts@.subrange(0, k as int)[q]@ == x;
                            assert(ts@.subrange(0, k + 1)[q]@ == x);
                        }
                        assert(ts@.subrange(0, k + 1)[k as int]@ == ts@[k as int]@);
                    }
                    assert(labels_in(r@) =~= base.union(labels_in(ts@.subrange(0, k + 1))));
                }
                k = k + 1;
            }
            proof {
                assert(ts@.subrange(0, k as int) =~= ts@);
                lemma_labels_in_texts(ts@);
                lemma_flagged_step(bs, flags@, entry, b as int);
                assert(labels_in(r@) =~= flagged_labels(bs, flags@, entry, b + 1));
            }
        } else {
            proof {
                lemma_flagged_step(bs, flags@, entry, b as int);
            }
        }
        b = b + 1;
    }
    proof {
        assert forall|x: Seq<char>| flagged_labels(bs, flags@, entry, bs.len() as int).contains(x) <==> label_reachable(
            bs,
            entry,
            x,
        ) by {
            if x == entry {
                lemma_entry_reachable(bs, entry);
            } else if label_reachable(bs, entry, x) {
                lemma_reached_through_block(bs, entry, x);
                let c = choose|c: int|
                    0 <= c < bs.len() && label_reachable(bs, entry, bs[c].label@) && #[trigger] terminator_targets(
                        bs[c].terminator,
                    ).contains(x);
                assert(flags@[c]);
            } else if flagged_labels(bs, flags@, entry, bs.len() as int).contains(x) {
                let c = choose|c: int|
                    0 <= c < bs.len() && flags@[c] && (#[trigger] bs[c].label@ == x || terminator_targets(
                        bs[c].terminator,
                    ).contains(x));
                assert(label_reachable(bs, entry, bs[c].label@));
                if bs[c].label@ != x {
                    assert(is_predecessor(bs, bs[c].label@, x));
                    lemma_label_reach_extend(bs, entry, bs[c].label@, x);
                }
            }
        }
        assert(labels_in(r@) =~= reachable_labels(*func));
    }
    r
}

/// The list pairing each of `keys` with `value(key)`, keys in order.
spec fn pairs_each(list: Seq<(String, Vec<String>)>, keys: Seq<String>, value: spec_fn(Seq<char>) -> Seq<Seq<char>>) -> bool {
    &&& list.len() == keys.len()
    &&& forall|j: int|
        0 <= j < keys.len() ==> (#[trigger] list[j]).0 == keys[j] && label_texts(list[j].1@) == value(keys[j]@)
}

proof fn lemma_pairs_view(
    list: Seq<(String, Vec<String>)>,
    keys: Seq<String>,
    value: spec_fn(Seq<char>) -> Seq<Seq<char>>,
    dom: spec_fn(Seq<char>) -> bool,
)
    requires
        pairs_each(list, keys, value),
        distinct_labels(keys),
        forall|l: Seq<char>| #[trigger] labels_in(keys).contains(l) <==> dom(l),
    ensures
        distinct_labels(assoc_keys(list)),
        assoc_view(list) == Map::new(dom, value),
{
    assert(assoc_keys(list) =~= keys);
    assert forall|l: Seq<char>| #[trigger] assoc_view(list).contains_key(l) <==> dom(l) by {
        if dom(l) {
            assert(labels_in(keys).contains(l));
            let q = choose|q: int| 0 <= q < keys.len() && #[trigger] keys[q]@ == l;
            assert(list[q].0@ == l);
        }
        if assoc_view(list).contains_key(l) {
            let q = choose|q: int| 0 <= q < list.len() && #[trigger] list[q].0@ == l;
            assert(keys[q]@ == l);
            assert(labels_in(keys).contains(l));
        }
    }
    assert forall|l: Seq<char>| #[trigger] assoc_view(list).contains_key(l) implies assoc_view(list)[l] == value(l) by {
        let q = choose|q: int| 0 <= q < list.len() && #[trigger] list[q].0@ == l;
        assert(list[q].0 == keys[q]);
    }
    assert(assoc_view(list) =~= Map::new(dom, value));
}

/// Pair each of `keys` with the result of `successors_for` or
/// `predecessors_for` on it.
fn pair_keys(blocks: &Vec<BasicBlock>, keys: &Vec<String>, successors: bool) -> (r: Vec<(String, Vec<String>)>)
    ensures
        successors ==> pairs_each(r@, keys@, |l: Seq<char>| label_successors(blocks@, l)),
        !successors ==> pairs_each(r@, keys@, |l: Seq<char>| label_predecessors(blocks@, l)),
{
    let mut r: Vec<(String, Vec<String>)> = Vec::new();
    let mut k: usize = 0;
    while k < keys.len()
        invariant
            k <= keys@.len(),
            successors ==> pairs_each(r@, keys@.subrange(0, k as int), |l: Seq<char>| label_successors(blocks@, l)),
            !successors ==> pairs_each(r@, keys@.subrange(0, k as int), |l: Seq<char>| label_predecessors(blocks@, l)),
        decreases keys.len() - k,
    {
        let v = if successors {
            successors_for(blocks, &keys[k])
        } else {
            predecessors_for(blocks, &keys[k])
        };
        r.push((keys[k].clone(), v));
        k = k + 1;
    }
    proof {
        assert(keys@.subrange(0, k as int) =~= keys@);
    }
    r
}

/// For each block label of `func`, the labels control may pass to.
fn build_successor_list(func: &IrFunction) -> (r: Vec<(String, Vec<String>)>)
    ensures
        distinct_labels(assoc_keys(r@)),
        assoc_view(r@) == successor_map(*func),
{
    let ghost bs = func.blocks@;
    let mut keys: Vec<String> = Vec::new();
    let mut b: usize = 0;
    while b < func.blocks.len()
        invariant
            bs == func.blocks@,
            b <= bs.len(),
            distinct_labels(keys@),
            labels_in(keys@) == Set::new(|l: Seq<char>| exists|c: int| 0 <= c < b && #[trigger] bs[c].label@ == l),
        decreases bs.len() - b,
    {
        add_label(&mut keys, &func.blocks[b].label);
        proof {
            assert forall|l: Seq<char>| #[trigger] labels_in(keys@).contains(l) <==> exists|c: int|
                0 <= c < b + 1 && #[trigger] bs[c].label@ == l by {
                if exists|c: int| 0 <= c < b + 1 && #[trigger] bs[c].label@ == l {
                    let c = choose|c: int| 0 <= c < b + 1 && #[trigger] bs[c].label@ == l;
                    if c < b {
                        assert(exists|c2: int| 0 <= c2 < b && #[trigger] bs[c2].label@ == l);
                    }
                }
            }
            assert(labels_in(keys@) =~= Set::new(|l: Seq<char>| exists|c: int| 0 <= c < b + 1 && #[trigger] bs[c].label@ == l));
        }
        b = b + 1;
    }
    let r = pair_keys(&func.blocks, &keys, true);
    proof {
        lemma_pairs_view(r@, keys@, |l: Seq<char>| label_successors(bs, l), |l: Seq<char>| has_block(bs, l));
        assert(Map::new(|l: Seq<char>| has_block(bs, l), |l: Seq<char>| label_successors(bs, l)) =~= successor_map(*func));
    }
    r
}

/// For each label that `func` names, the labels of the blocks that branch
/// to it.
fn build_predecessor_list(func: &IrFunction) -> (r: Vec<(String, Vec<String>)>)
    ensures
        distinct_labels(assoc_keys(r@)),
        assoc_view(r@) == predecessor_map(*func),
{
    let ghost bs = func.blocks@;
    let mut keys: Vec<String> = Vec::new();
    let mut b: usize = 0;
    while b < func.blocks.len()
        invariant
            bs == func.blocks@,
            b <= bs.len(),
            distinct_labels(keys@),
            labels_in(keys@) == Set::new(|l: Seq<char>| names_label(bs.subrange(0, b as int), l)),
        decreases bs.len() - b,
    {
        let ghost before = Set::new(|l: Seq<char>| names_label(bs.subrange(0, b as int), l));
        add_label(&mut keys, &func.blocks[b].label);
        let ts = func.blocks[b].referenced_labels();
        let ghost base = before.insert(bs[b as int].label@);
        let mut k: usize = 0;
        while k < ts.len()
            invariant
                b < bs.len(),
                k <= ts@.len(),
                distinct_labels(keys@),
                labels_in(keys@) == base.union(labels_in(ts@.subrange(0, k as int))),
            decreases ts.len() - k,
        {
            add_label(&mut keys, &ts[k]);
            proof {
                assert forall|x: Seq<char>| labels_in(ts@.subrange(0, k + 1)).contains(x) <==> labels_in(
                    ts@.subrange(0, k as int),
                ).insert(ts@[k as int]@).contains(x) by {
                    if labels_in(ts@.subrange(0, k + 1)).contains(x) {
                        let q = choose|q: int| 0 <= q < k + 1 && #[trigger] ts@.subrange(0, k + 1)[q]@ == x;
                        if q < k {
                            assert(ts@.subrange(0, k as int)[q]@ == x);
                        }
                    }
                    if labels_in(ts@.subrange(0, k as int)).contains(x) {
                        let q = choose|q: int| 0 <= q < k && #[trigger] ts@.subrange(0, k as int)[q]@ == x;
                        assert(ts@.subrange(0, k + 1)[q]@ == x);
                    }
                    assert(ts@.subrange(0, k + 1)[k as int]@ == ts@[k as int]@);
                }
                assert(labels_in(ts@.subrange(0, k + 1)) =~= labels_in(ts@.subrange(0, k as int)).insert(ts@[k as int]@));
                assert(labels_in(keys@) =~= base.union(labels_in(ts@.subrange(0, k + 1))));
            }
            k = k + 1;
        }
        proof {
            assert(ts@.subrange(0, k as int) =~= ts@);
            let t = bs.subrange(0, b + 1);
            let targets = terminator_targets(bs[b as int].terminator);
            assert forall|x: Seq<char>| labels_in(keys@).contains(x) <==> names_label(t, x) by {
                if labels_in(ts@).contains(x) {
                    let q = choose|q: int| 0 <= q < ts@.len() && #[trigger] ts@[q]@ == x;
                    assert(label_texts(ts@)[q] == x);
                    assert(targets.contains(x));
                    assert(t[b as int] == bs[b as int]);
                }
                if x == bs[b as int].label@ {
                    assert(t[b as int].label@ == x);
                }
                if before.contains(x) {
                    let u = bs.subrange(0, b as int);
                    if has_block(u, x) {
                        let c = choose|c: int| 0 <= c < u.len() && #[trigger] u[c].label@ == x;
                        assert(t[c].label@ == x);
                    } else {
                        let c = choose|c: int| 0 <= c < u.len() && #[trigger] terminator_targets(u[c].terminator).contains(x);
                        assert(t[c] == u[c]);
                    }
                }
                if names_label(t, x) {
                    let u = bs.subrange(0, b as int);
                    if has_block(t, x) {
                        let c = choose|c: int| 0 <= c < t.len() && #[trigger] t[c].label@ == x;
                        if c < b {
                            assert(u[c].label@ == x);
                        }
                    } else {
                        let c = choose|c: int| 0 <= c < t.len() && #[trigger] terminator_targets(t[c].terminator).contains(x);
                        if c < b {
                            assert(u[c] == t[c]);
                            assert(names_label(u, x));
                        } else {
                            let q = choose|q: int| 0 <= q < targets.len() && targets[q] == x;
                            assert(label_texts(ts@)[q] == x);
                            assert(ts@[q]@ == x);
                        }
                    }
                }
            }
            assert(labels_in(keys@) =~= Set::new(|l: Seq<char>| names_label(bs.subrange(0, b + 1), l)));
        }
        b = b + 1;
    }
    proof {
        assert(bs.subrange(0, b as int) =~= bs);
    }
    let r = pair_keys(&func.blocks, &keys, false);
    proof {
        lemma_pairs_view(r@, keys@, |l: Seq<char>| label_predecessors(bs, l), |l: Seq<char>| names_label(bs, l));
        assert(Map::new(|l: Seq<char>| names_label(bs, l), |l: Seq<char>| label_predecessors(bs, l)) =~= predecessor_map(*func));
    }
    r
}

/// What the passes read about one function: where each value is defined
/// and read, the constants values hold, the control-flow edges between
/// labels and the labels reachable from the entry.
///
/// Labels key the edge lists and the reachable set; each label occurs
/// there once.
pub struct FunctionAnalysis {
    def_map: HashMap<ValueId, (String, usize)>,
    use_map: HashMap<ValueId, Vec<(String, usize)>>,
    pred_map: Vec<(String, Vec<String>)>,
    succ_map: Vec<(String, Vec<String>)>,
    reachable: Vec<String>,
    constant_map: HashMap<ValueId, Constant>,
}

impl FunctionAnalysis {
    #[verifier::type_invariant]
    spec fn labels_distinct(self) -> bool {
        &&& distinct_labels(assoc_keys(self.pred_map@))
        &&& distinct_labels(assoc_keys(self.succ_map@))
        &&& distinct_labels(self.reachable@)
    }

    /// Where each value is defined: block label and instruction index.
    pub closed spec fn definitions_view(&self) -> Map<ValueId, (String, usize)> {
        self.def_map@
    }

    /// Where each value is read: block label and instruction index, in
    /// order (`usize::MAX` for a terminator).
    pub closed spec fn uses_view(&self) -> Map<ValueId, Seq<(String, usize)>> {
        self.use_map@.map_values(|v: Vec<(String, usize)>| v@)
    }

    /// The constant each `const`-defined value holds.
    pub closed spec fn constants_view(&self) -> Map<ValueId, Constant> {
        self.constant_map@
    }

    /// The labels branching to each label.
    pub closed spec fn predecessors_view(&self) -> Map<Seq<char>, Seq<Seq<char>>> {
        assoc_view(self.pred_map@)
    }

    /// The labels each block label branches to.
    pub closed spec fn successors_view(&self) -> Map<Seq<char>, Seq<Seq<char>>> {
        assoc_view(self.succ_map@)
    }

    /// The labels reachable from the entry.
    pub closed spec fn reachable_view(&self) -> Set<Seq<char>> {
        labels_in(self.reachable@)
    }

    /// Analyse `func`.
    pub fn build(func: &IrFunction) -> (r: Self)
        requires
            ids_fit(*func),
        ensures
            r.definitions_view() == definitions(*func),
            r.uses_view() == uses(*func),
            r.constants_view() == constants(*func),
            r.predecessors_view() == predecessor_map(*func),
            r.successors_view() == successor_map(*func),
            r.reachable_view() == reachable_labels(*func),
    {
        let def_map = build_definitions(func);
        let use_map = build_uses(func);
        let pred_map = build_predecessor_list(func);
        let succ_map = build_successor_list(func);
        let reachable = build_reachable(func);
        let constant_map = build_constants(func);
        let r = FunctionAnalysis { def_map, use_map, pred_map, succ_map, reachable, constant_map };
        proof {
            assert(r.uses_view() =~= uses(*func));
        }
        r
    }

    /// Whether `id` holds a constant.
    pub fn is_constant_value(&self, id: ValueId) -> (r: bool)
        ensures
            r == self.constants_view().contains_key(id),
    {
        broadcast use vstd::std_specs::hash::group_hash_axioms;

        self.constant_map.contains_key(&id)
    }

    /// The constant `id` holds, if any.
    pub fn get_constant(&self, id: ValueId) -> (r: Option<&Constant>)
        ensures
            r is Some == self.constants_view().contains_key(id),
            r matches Some(c) ==> *c == self.constants_view()[id],
    {
        broadcast use vstd::std_specs::hash::group_hash_axioms;

        self.constant_map.get(&id)
    }

    /// Whether something reads `id`.
    pub fn has_users(&self, id: ValueId) -> (r: bool)
        ensures
            r == (self.uses_view().contains_key(id) && self.uses_view()[id].len() > 0),
    {
        broadcast use vstd::std_specs::hash::group_hash_axioms;

        match self.use_map.get(&id) {
            Some(u) => u.len() > 0,
            None => false,
        }
    }

    /// How many times `id` is read.
    pub fn num_users(&self, id: ValueId) -> (r: usize)
        ensures
            r == (if self.uses_view().contains_key(id) {
                self.uses_view()[id].len()
            } else {
                0
            }),
    {
        broadcast use vstd::std_specs::hash::group_hash_axioms;

        match self.use_map.get(&id) {
            Some(u) => u.len(),
            None => 0,
        }
    }

    /// Whether control reaches `label` from the entry.
    pub fn is_block_reachable(&self, label: &str) -> (r: bool)
        ensures
            r == self.reachable_view().contains(label@),
    {
        let key = String::from_str(label);
        let mut k: usize = 0;
        while k < self.reachable.len()
            invariant
                key@ == label@,
                k <= self.reachable@.len(),
                forall|j: int| 0 <= j < k ==> self.reachable@[j]@ != label@,
            decreases self.reachable.len() - k,
        {
            if self.reachable[k] == key {
                return true;
            }
            k = k + 1;
        }
        false
    }

    /// The position of `label` among the keys of `list`.
    fn find_key(list: &Vec<(String, Vec<String>)>, label: &str) -> (r: Option<usize>)
        ensures
            r is Some == exists|k: int| 0 <= k < list@.len() && #[trigger] list@[k].0@ == label@,
            r matches Some(k) ==> k < list@.len() && list@[k as int].0@ == label@,
    {
        let key = String::from_str(label);
        let mut k: usize = 0;
        while k < list.len()
            invariant
                key@ == label@,
                k <= list@.len(),
                forall|j: int| 0 <= j < k ==> list@[j].0@ != label@,
            decreases list.len() - k,
        {
            if list[k].0 == key {
                return Some(k);
            }
            k = k + 1;
        }
        None
    }

    /// The labels branching to `label`, if `label` is named in the function.
    pub fn predecessors(&self, label: &str) -> (r: Option<&Vec<String>>)
        ensures
            r is Some == self.predecessors_view().contains_key(label@),
            r matches Some(v) ==> label_texts(v@) == self.predecessors_view()[label@],
    {
        proof {
            use_type_invariant(self);
        }
        match Self::find_key(&self.pred_map, label) {
            Some(k) => {
                proof {
                    let q = choose|q: int| 0 <= q < self.pred_map@.len() && #[trigger] self.pred_map@[q].0@ == label@;
                    if q != k {
                        assert(assoc_keys(self.pred_map@)[q]@ == assoc_keys(self.pred_map@)[k as int]@);
                    }
                }
                Some(&self.pred_map[k].1)
            },
            None => None,
        }
    }

    /// The labels `label` branches to, if a block carries `label`.
    pub fn successors(&self, label: &str) -> (r: Option<&Vec<String>>)
        ensures
            r is Some == self.successors_view().contains_key(label@),
            r matches Some(v) ==> label_texts(v@) == self.successors_view()[label@],
    {
        proof {
            use_type_invariant(self);
        }
        match Self::find_key(&self.succ_map, label) {
            Some(k) => {
                proof {
                    let q = choose|q: int| 0 <= q < self.succ_map@.len() && #[trigger] self.succ_map@[q].0@ == label@;
                    if q != k {
                        assert(assoc_keys(self.succ_map@)[q]@ == assoc_keys(self.succ_map@)[k as int]@);
                    }
                }
                Some(&self.succ_map[k].1)
            },
            None => None,
        }
    }

    /// The labels reachable from the entry, each once.
    pub fn reachable_blocks(&self) -> (r: &Vec<String>)
        ensures
            labels_in(r@) == self.reachable_view(),
            distinct_labels(r@),
    {
        proof {
            use_type_invariant(self);
        }
        &self.reachable
    }

    /// Where each value is defined.
    pub fn def_map(&self) -> (r: &HashMap<ValueId, (String, usize)>)
        ensures
            r@ == self.definitions_view(),
    {
        &self.def_map
    }

    /// Where each value is read.
    pub fn use_map(&self) -> (r: &HashMap<ValueId, Vec<(String, usize)>>)
        ensures
            r@.map_values(|v: Vec<(String, usize)>| v@) == self.uses_view(),
    {
        &self.use_map
    }

    /// The labels branching to each label, as a list keyed by label.
    pub fn pred_map(&self) -> (r: &Vec<(String, Vec<String>)>)
        ensures
            assoc_view(r@) == self.predecessors_view(),
            distinct_labels(assoc_keys(r@)),
    {
        proof {
            use_type_invariant(self);
        }
        &self.pred_map
    }
}

proof fn lemma_edges_into_contains(ts: Seq<Seq<char>>, l: Seq<char>, label: Seq<char>, x: Seq<char>)
    ensures
        edges_into(ts, l, label).contains(x) <==> ts.contains(l) && x == label,
    decreases ts.len(),
{
    if ts.len() > 0 {
        let d = ts.drop_last();
        lemma_edges_into_contains(d, l, label, x);
        let tail = if ts.last() == l {
            seq![label]
        } else {
            seq![]
        };
        assert(edges_into(ts, l, label) == edges_into(d, l, label) + tail);
        if edges_into(ts, l, label).contains(x) {
            let q = choose|q: int| 0 <= q < edges_into(ts, l, label).len() && edges_into(ts, l, label)[q] == x;
            if q < edges_into(d, l, label).len() {
                assert(edges_into(d, l, label)[q] == x);
                let r = choose|r: int| 0 <= r < d.len() && d[r] == l;
                assert(ts[r] == l);
            } else {
                assert(tail[q - edges_into(d, l, label).len()] == x);
                assert(ts[ts.len() - 1] == l);
            }
        }
        if ts.contains(l) && x == label {
            let r = choose|r: int| 0 <= r < ts.len() && ts[r] == l;
            if r < ts.len() - 1 {
                assert(d[r] == l);
                let q = choose|q: int| 0 <= q < edges_into(d, l, label).len() && edges_into(d, l, label)[q] == x;
                assert(edges_into(ts, l, label)[q] == x);
            } else {
                assert(edges_into(ts, l, label)[edges_into(d, l, label).len() as int] == x);
            }
        }
    }
}

proof fn lemma_successors_contain(bs: Seq<BasicBlock>, a: Seq<char>, t: Seq<char>)
    ensures
        label_successors(bs, a).contains(t) <==> is_predecessor(bs, a, t),
    decreases bs.len(),
{
    if bs.len() > 0 {
        let d = bs.drop_last();
        lemma_successors_contain(d, a, t);
        let n = bs.len() - 1;
        let tail = if bs.last().label@ == a {
            terminator_targets(bs.last().terminator)
        } else {
            seq![]
        };
        let s = label_successors(bs, a);
        assert(s == label_successors(d, a) + tail);
        if s.contains(t) {
            let q = choose|q: int| 0 <= q < s.len() && s[q] == t;
            if q < label_successors(d, a).len() {
                assert(label_successors(d, a)[q] == t);
                let c = choose|c: int|
                    0 <= c < d.len() && #[trigger] d[c].label@ == a && terminator_targets(d[c].terminator).contains(t);
                assert(bs[c] == d[c]);
            } else {
                assert(tail[q - label_successors(d, a).len()] == t);
                assert(bs[n].label@ == a && terminator_targets(bs[n].terminator).contains(t));
            }
        }
        if is_predecessor(bs, a, t) {
            let c = choose|c: int|
                0 <= c < bs.len() && #[trigger] bs[c].label@ == a && terminator_targets(bs[c].terminator).contains(t);
            if c < n {
                assert(d[c] == bs[c]);
                assert(is_predecessor(d, a, t));
                let q = choose|q: int| 0 <= q < label_successors(d, a).len() && label_successors(d, a)[q] == t;
                assert(s[q] == t);
            } else {
                let r = choose|r: int| 0 <= r < tail.len() && tail[r] == t;
                assert(s[label_successors(d, a).len() + r] == t);
            }
        }
    }
}

proof fn lemma_predecessors_contain(bs: Seq<BasicBlock>, a: Seq<char>, t: Seq<char>)
    ensures
        label_predecessors(bs, t).contains(a) <==> is_predecessor(bs, a, t),
    decreases bs.len(),
{
    if bs.len() > 0 {
        let d = bs.drop_last();
        lemma_predecessors_contain(d, a, t);
        let n = bs.len() - 1;
        let tail = edges_into(terminator_targets(bs[n].terminator), t, bs[n].label@);
        lemma_edges_into_contains(terminator_targets(bs[n].terminator), t, bs[n].label@, a);
        let s = label_predecessors(bs, t);
        assert(s == label_predecessors(d, t) + tail);
        if s.contains(a) {
            let q = choose|q: int| 0 <= q < s.len() && s[q] == a;
            if q < label_predecessors(d, t).len() {
                assert(label_predecessors(d, t)[q] == a);
                let c = choose|c: int|
                    0 <= c < d.len() && #[trigger] d[c].label@ == a && terminator_targets(d[c].terminator).contains(t);
                assert(bs[c] == d[c]);
            } else {
                assert(tail[q - label_predecessors(d, t).len()] == a);
                assert(bs[n].label@ == a && terminator_targets(bs[n].terminator).contains(t));
            }
        }
        if is_predecessor(bs, a, t) {
            let c = choose|c: int|
                0 <= c < bs.len() && #[trigger] bs[c].label@ == a && terminator_targets(bs[c].terminator).contains(t);
            if c < n {
                assert(d[c] == bs[c]);
                assert(is_predecessor(d, a, t));
                let q = choose|q: int| 0 <= q < label_predecessors(d, t).len() && label_predecessors(d, t)[q] == a;
                assert(s[q] == a);
            } else {
                let r = choose|r: int| 0 <= r < tail.len() && tail[r] == a;
                assert(s[label_predecessors(d, t).len() + r] == a);
            }
        }
    }
}

/// The predecessor and successor lists describe the same edges: `t` is
/// among the successors of `a` exactly when `a` is among the predecessors
/// of `t`, exactly when some block labelled `a` branches to `t`.
pub proof fn lemma_edges_agree(f: IrFunction, a: Seq<char>, t: Seq<char>)
    ensures
        (successor_map(f).contains_key(a) && successor_map(f)[a].contains(t)) <==> is_predecessor(f.blocks@, a, t),
        (predecessor_map(f).contains_key(t) && predecessor_map(f)[t].contains(a)) <==> is_predecessor(f.blocks@, a, t),
{
    let bs = f.blocks@;
    lemma_successors_contain(bs, a, t);
    lemma_predecessors_contain(bs, a, t);
    if is_predecessor(bs, a, t) {
        let c = choose|c: int|
            0 <= c < bs.len() && #[trigger] bs[c].label@ == a && terminator_targets(bs[c].terminator).contains(t);
        assert(has_block(bs, a));
        assert(names_label(bs, t));
    }
}

} // verus!
