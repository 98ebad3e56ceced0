//! Renumbering SSA ids after values are removed.
//!
//! Removed values are given by flags indexed by value id: `removed[id]`.
//! Every id below `removed.len()` that is not removed moves down to the
//! number of kept ids before it; other ids are left as they are.

use vstd::prelude::*;

use crate::ir::function::IrFunction;
use crate::ir::instruction::{GepIndex, Instruction, Terminator};
use crate::ir::value::{Constant, SsaValue, ValueId};

verus! {

/// The number of ids that `removed` keeps.
pub open spec fn count_kept(removed: Seq<bool>) -> nat
    decreases removed.len(),
{
    if removed.len() == 0 {
        0
    } else {
        count_kept(removed.drop_last()) + if removed.last() {
            0nat
        } else {
            1nat
        }
    }
}

/// The id `id` takes after compaction.
pub open spec fn renumbered(removed: Seq<bool>, id: ValueId) -> ValueId {
    if id < removed.len() && !removed[id as int] {
        count_kept(removed.subrange(0, id as int)) as ValueId
    } else {
        id
    }
}

/// A GEP index after compaction.
pub open spec fn renumbered_index(removed: Seq<bool>, ix: GepIndex) -> GepIndex {
    match ix {
        GepIndex::Dynamic(id) => GepIndex::Dynamic(renumbered(removed, id)),
        GepIndex::StructField(n) => GepIndex::StructField(n),
    }
}

/// Ids after compaction.
pub open spec fn renumbered_ids(removed: Seq<bool>, ids: Seq<ValueId>) -> Seq<ValueId> {
    ids.map_values(|id: ValueId| renumbered(removed, id))
}

/// GEP indices after compaction.
pub open spec fn renumbered_indices(removed: Seq<bool>, ix: Seq<GepIndex>) -> Seq<GepIndex> {
    ix.map_values(|i: GepIndex| renumbered_index(removed, i))
}

/// Phi operands after compaction: values renumbered, labels kept.
pub open spec fn incoming_renumbered(
    old: Seq<(ValueId, String)>,
    new: Seq<(ValueId, String)>,
    removed: Seq<bool>,
) -> bool {
    &&& new.len() == old.len()
    &&& forall|k: int|
        0 <= k < old.len() ==> (#[trigger] new[k]).0 == renumbered(removed, old[k].0) && new[k].1@ == old[k].1@
}

/// `new` is `old` with every operand id renumbered.
pub open spec fn instruction_renumbered(old: Instruction, new: Instruction, removed: Seq<bool>) -> bool {
    match (old, new) {
        (Instruction::Add { ty, lhs, rhs }, Instruction::Add { ty: t, lhs: l, rhs: h }) => t == ty && l == renumbered(removed, lhs) && h == renumbered(removed, rhs),
        (Instruction::Sub { ty, lhs, rhs }, Instruction::Sub { ty: t, lhs: l, rhs: h }) => t == ty && l == renumbered(removed, lhs) && h == renumbered(removed, rhs),
        (Instruction::Mul { ty, lhs, rhs }, Instruction::Mul { ty: t, lhs: l, rhs: h }) => t == ty && l == renumbered(removed, lhs) && h == renumbered(removed, rhs),
        (Instruction::Div { ty, lhs, rhs }, Instruction::Div { ty: t, lhs: l, rhs: h }) => t == ty && l == renumbered(removed, lhs) && h == renumbered(removed, rhs),
        (Instruction::Rem { ty, lhs, rhs }, Instruction::Rem { ty: t, lhs: l, rhs: h }) => t == ty && l == renumbered(removed, lhs) && h == renumbered(removed, rhs),
        (Instruction::And { ty, lhs, rhs }, Instruction::And { ty: t, lhs: l, rhs: h }) => t == ty && l == renumbered(removed, lhs) && h == renumbered(removed, rhs),
        (Instruction::Or { ty, lhs, rhs }, Instruction::Or { ty: t, lhs: l, rhs: h }) => t == ty && l == renumbered(removed, lhs) && h == renumbered(removed, rhs),
        (Instruction::Xor { ty, lhs, rhs }, Instruction::Xor { ty: t, lhs: l, rhs: h }) => t == ty && l == renumbered(removed, lhs) && h == renumbered(removed, rhs),
        (Instruction::Shl { ty, lhs, rhs }, Instruction::Shl { ty: t, lhs: l, rhs: h }) => t == ty && l == renumbered(removed, lhs) && h == renumbered(removed, rhs),
        (Instruction::Lshr { ty, lhs, rhs }, Instruction::Lshr { ty: t, lhs: l, rhs: h }) => t == ty && l == renumbered(removed, lhs) && h == renumbered(removed, rhs),
        (Instruction::Ashr { ty, lhs, rhs }, Instruction::Ashr { ty: t, lhs: l, rhs: h }) => t == ty && l == renumbered(removed, lhs) && h == renumbered(removed, rhs),
        (Instruction::Eq { ty, lhs, rhs }, Instruction::Eq { ty: t, lhs: l, rhs: h }) => t == ty && l == renumbered(removed, lhs) && h == renumbered(removed, rhs),
        (Instruction::Lt { ty, lhs, rhs }, Instruction::Lt { ty: t, lhs: l, rhs: h }) => t == ty && l == renumbered(removed, lhs) && h == renumbered(removed, rhs),
        (Instruction::Gt { ty, lhs, rhs }, Instruction::Gt { ty: t, lhs: l, rhs: h }) => t == ty && l == renumbered(removed, lhs) && h == renumbered(removed, rhs),
        (Instruction::Cast { op, from_ty, to_ty, value }, Instruction::Cast { op: o, from_ty: f, to_ty: t, value: v }) => o
            == op && f == from_ty && t == to_ty && v == renumbered(removed, value),
        (
            Instruction::Select { ty, condition, then_value, else_value },
            Instruction::Select { ty: t, condition: c, then_value: a, else_value: b },
        ) => t == ty && c == renumbered(removed, condition) && a == renumbered(removed, then_value) && b == renumbered(removed, else_value),
        (Instruction::Const(c), Instruction::Const(d)) => c == d,
        (Instruction::Alloca { ty, count }, Instruction::Alloca { ty: t, count: n }) => t == ty && n == count,
        (Instruction::Load { ty, addr }, Instruction::Load { ty: t, addr: a }) => t == ty && a == renumbered(removed, addr),
        (Instruction::Store { ty, value, addr }, Instruction::Store { ty: t, value: v, addr: a }) => t == ty && v == renumbered(removed, value) && a == renumbered(removed, addr),
        (Instruction::Call { return_ty, callee, args }, Instruction::Call { return_ty: t, callee: c, args: a }) => t
            == return_ty && c == callee && a@ == renumbered_ids(removed, args@),
        (Instruction::Phi { ty, incoming }, Instruction::Phi { ty: t, incoming: inc }) => t == ty
            && incoming_renumbered(incoming@, inc@, removed),
        (
            Instruction::Gep { result_ty, elem_ty, base, indices },
            Instruction::Gep { result_ty: rt, elem_ty: et, base: b, indices: ix },
        ) => rt == result_ty && et == elem_ty && b == renumbered(removed, base) && ix@ == renumbered_indices(removed, indices@),
        _ => false,
    }
}

/// `new` is `old` with its operand renumbered.
pub open spec fn terminator_renumbered(old: Terminator, new: Terminator, removed: Seq<bool>) -> bool {
    match old {
        Terminator::CondBranch { condition, true_target, false_target } => new == Terminator::CondBranch {
            condition: renumbered(removed, condition),
            true_target,
            false_target,
        },
        Terminator::Return { value: Some(v) } => new == Terminator::Return { value: Some(renumbered(removed, v)) },
        _ => new == old,
    }
}

/// The value table after compaction: kept entries, renumbered, in order.
pub open spec fn values_compacted(old: Seq<SsaValue>, removed: Seq<bool>) -> Seq<SsaValue>
    decreases old.len(),
{
    if old.len() == 0 {
        seq![]
    } else {
        let j = (old.len() - 1) as nat;
        values_compacted(old.drop_last(), removed) + if j < removed.len() && !removed[j as int] {
            seq![SsaValue { id: count_kept(removed.subrange(0, j as int)) as ValueId, ty: old.last().ty, name: old.last().name }]
        } else {
            seq![]
        }
    }
}

/// The new ids of a removal: `map[j]` is the new id of a kept `j`.
pub open spec fn new_id_map(removed: Seq<bool>, map: Seq<usize>) -> bool {
    &&& map.len() == removed.len()
    &&& forall|j: int|
        0 <= j < removed.len() && !removed[j] ==> #[trigger] map[j] == count_kept(removed.subrange(0, j))
}

proof fn lemma_count_kept_bound(removed: Seq<bool>)
    ensures
        count_kept(removed) <= removed.len(),
    decreases removed.len(),
{
    if removed.len() > 0 {
        lemma_count_kept_bound(removed.drop_last());
    }
}

/// The new id of every kept id.
fn build_id_map(removed: &Vec<bool>) -> (map: Vec<usize>)
    ensures
        new_id_map(removed@, map@),
{
    let mut map: Vec<usize> = Vec::new();
    let mut next: usize = 0;
    let mut j: usize = 0;
    while j < removed.len()
        invariant
            j <= removed@.len(),
            map@.len() == j,
            next == count_kept(removed@.subrange(0, j as int)),
            forall|k: int| 0 <= k < j && !removed@[k] ==> #[trigger] map@[k] == count_kept(removed@.subrange(0, k)),
        decreases removed.len() - j,
    {
        proof {
            let s = removed@.subrange(0, j + 1);
            assert(s.drop_last() =~= removed@.subrange(0, j as int));
            lemma_count_kept_bound(removed@.subrange(0, j as int));
        }
        map.push(next);
        if !removed[j] {
            next = next + 1;
        }
        j = j + 1;
    }
    map
}

/// The id `id` takes after compaction.
fn remap_id(removed: &Vec<bool>, map: &Vec<usize>, id: ValueId) -> (r: ValueId)
    requires
        new_id_map(removed@, map@),
    ensures
        r == renumbered(removed@, id),
{
    if id < removed.len() && !removed[id] {
        map[id]
    } else {
        id
    }
}

fn remap_ids(args: &mut Vec<ValueId>, removed: &Vec<bool>, map: &Vec<usize>)
    requires
        new_id_map(removed@, map@),
    ensures
        final(args)@ == renumbered_ids(removed@, old(args)@),
{
    let mut out: Vec<ValueId> = Vec::new();
    let mut k: usize = 0;
    while k < args.len()
        invariant
            k <= args@.len(),
            new_id_map(removed@, map@),
            out@ == renumbered_ids(removed@, args@.subrange(0, k as int)),
        decreases args.len() - k,
    {
        let v = remap_id(removed, map, args[k]);
        out.push(v);
        k = k + 1;
        assert(out@ =~= renumbered_ids(removed@, args@.subrange(0, k as int)));
    }
    assert(args@.subrange(0, k as int) =~= args@);
    *args = out;
}

proof fn lemma_incoming_push(
    orig: Seq<(usize, String)>,
    out: Seq<(usize, String)>,
    v: usize,
    label: String,
    removed: Seq<bool>,
)
    requires
        out.len() < orig.len(),
        incoming_renumbered(orig.subrange(0, out.len() as int), out, removed),
        v == renumbered(removed, orig[out.len() as int].0),
        label == orig[out.len() as int].1,
    ensures
        incoming_renumbered(orig.subrange(0, out.len() + 1 as int), out.push((v, label)), removed),
{
    let n = out.len();
    let o = orig.subrange(0, n + 1 as int);
    let p = out.push((v, label));
    assert forall|k: int| 0 <= k < o.len() implies (#[trigger] p[k]).0 == renumbered(removed, o[k].0) && p[k].1@
        == o[k].1@ by {
        if k < n {
            assert(o[k] == orig.subrange(0, n as int)[k]);
        }
    }
}

fn remap_incoming(incoming: &mut Vec<(usize, String)>, removed: &Vec<bool>, map: &Vec<usize>)
    requires
        new_id_map(removed@, map@),
    ensures
        incoming_renumbered(old(incoming)@, final(incoming)@, removed@),
{
    let ghost orig = incoming@;
    let mut out: Vec<(usize, String)> = Vec::new();
    while incoming.len() > 0
        invariant
            new_id_map(removed@, map@),
            out@.len() + incoming@.len() == orig.len(),
            incoming@ == orig.subrange(out@.len() as int, orig.len() as int),
            incoming_renumbered(orig.subrange(0, out@.len() as int), out@, removed@),
        decreases incoming.len(),
    {
        let pair = incoming.remove(0);
        let v = remap_id(removed, map, pair.0);
        proof {
            lemma_incoming_push(orig, out@, v, pair.1, removed@);
        }
        out.push((v, pair.1));
        proof {
            assert(incoming@ =~= orig.subrange(out@.len() as int, orig.len() as int));
        }
    }
    proof {
        assert(orig.subrange(0, out@.len() as int) =~= orig);
    }
    *incoming = out;
}

fn remap_indices(indices: &mut Vec<GepIndex>, removed: &Vec<bool>, map: &Vec<usize>)
    requires
        new_id_map(removed@, map@),
    ensures
        final(indices)@ == renumbered_indices(removed@, old(indices)@),
{
    let mut out: Vec<GepIndex> = Vec::new();
    let mut k: usize = 0;
    while k < indices.len()
        invariant
            k <= indices@.len(),
            new_id_map(removed@, map@),
            out@ == renumbered_indices(removed@, indices@.subrange(0, k as int)),
        decreases indices.len() - k,
    {
        let ix = match indices[k] {
            GepIndex::Dynamic(id) => GepIndex::Dynamic(remap_id(removed, map, id)),
            GepIndex::StructField(n) => GepIndex::StructField(n),
        };
        out.push(ix);
        k = k + 1;
        assert(out@ =~= renumbered_indices(removed@, indices@.subrange(0, k as int)));
    }
    assert(indices@.subrange(0, k as int) =~= indices@);
    *indices = out;
}

/// `g` is `f` with every operand renumbered after removing the ids that
/// `removed` flags, the value table compacted and the id counter set to the
/// number of kept ids; instructions themselves all stay.
pub open spec fn ids_compacted(f: IrFunction, g: IrFunction, removed: Seq<bool>) -> bool {
    &&& g.name == f.name
    &&& g.return_ty == f.return_ty
    &&& g.params == f.params
    &&& g.entry_block == f.entry_block
    &&& g.values@ == values_compacted(f.values@, removed)
    &&& g.value_counter == count_kept(removed)
    &&& g.blocks@.len() == f.blocks@.len()
    &&& forall|b: int|
        0 <= b < f.blocks@.len() ==> {
            &&& (#[trigger] g.blocks@[b]).label == f.blocks@[b].label
            &&& g.blocks@[b].debug_locs == f.blocks@[b].debug_locs
            &&& g.blocks@[b].instructions@.len() == f.blocks@[b].instructions@.len()
            &&& forall|i: int|
                0 <= i < f.blocks@[b].instructions@.len() ==> instruction_renumbered(
                    f.blocks@[b].instructions@[i],
                    #[trigger] g.blocks@[b].instructions@[i],
                    removed,
                )
            &&& terminator_renumbered(f.blocks@[b].terminator, g.blocks@[b].terminator, removed)
        }
}

/// Renumber the SSA ids of `func` after the values that `removed` flags
/// are deleted (see [`ids_compacted`]); nothing changes when no id is
/// flagged. The deleted values' instructions are left for the caller to
/// drop.
pub fn compact_value_ids(func: &mut IrFunction, removed: &Vec<bool>)
    requires
        removed@.len() <= usize::MAX,
    ensures
        (forall|j: int| 0 <= j < removed@.len() ==> !removed@[j]) ==> *final(func) == *old(func),
        (exists|j: int| 0 <= j < removed@.len() && removed@[j]) ==> ids_compacted(*old(func), *final(func), removed@),
{
    let mut any = false;
    let mut j: usize = 0;
    while j < removed.len()
        invariant
            j <= removed@.len(),
            any == exists|k: int| 0 <= k < j && removed@[k],
        decreases removed.len() - j,
    {
        if removed[j] {
            any = true;
        }
        j = j + 1;
    }
    if !any {
        return ;
    }
    let map = build_id_map(removed);
    let mut b: usize = 0;
    while b < func.blocks.len()
        invariant
            new_id_map(removed@, map@),
            func.name == old(func).name,
            func.return_ty == old(func).return_ty,
            func.params == old(func).params,
            func.entry_block == old(func).entry_block,
            func.values == old(func).values,
            func.value_counter == old(func).value_counter,
            func.blocks@.len() == old(func).blocks@.len(),
            b <= func.blocks@.len(),
            forall|k: int| b <= k < func.blocks@.len() ==> #[trigger] func.blocks@[k] == old(func).blocks@[k],
            forall|k: int|
                0 <= k < b ==> {
                    &&& (#[trigger] func.blocks@[k]).label == old(func).blocks@[k].label
                    &&& func.blocks@[k].debug_locs == old(func).blocks@[k].debug_locs
                    &&& func.blocks@[k].instructions@.len() == old(func).blocks@[k].instructions@.len()
                    &&& forall|i: int|
                        0 <= i < old(func).blocks@[k].instructions@.len() ==> instruction_renumbered(
                            old(func).blocks@[k].instructions@[i],
                            #[trigger] func.blocks@[k].instructions@[i],
                            removed@,
                        )
                    &&& terminator_renumbered(old(func).blocks@[k].terminator, func.blocks@[k].terminator, removed@)
                },
        decreases func.blocks.len() - b,
    {
        let ghost orig = func.blocks@[b as int];
        let ghost start = func.blocks@;
        let mut i: usize = 0;
        while i < func.blocks[b].instructions.len()
            invariant
                new_id_map(removed@, map@),
                func.name == old(func).name,
                func.return_ty == old(func).return_ty,
                func.params == old(func).params,
                func.entry_block == old(func).entry_block,
                func.values == old(func).values,
                func.value_counter == old(func).value_counter,
                func.blocks@.len() == start.len(),
                orig == start[b as int],
                forall|k: int| 0 <= k < start.len() && k != b ==> #[trigger] func.blocks@[k] == start[k],
                b < func.blocks@.len(),
                func.blocks@[b as int].label == orig.label,
                func.blocks@[b as int].debug_locs == orig.debug_locs,
                func.blocks@[b as int].terminator == orig.terminator,
                func.blocks@[b as int].instructions@.len() == orig.instructions@.len(),
                i <= orig.instructions@.len(),
                forall|q: int|
                    0 <= q < i ==> instruction_renumbered(
                        orig.instructions@[q],
                        #[trigger] func.blocks@[b as int].instructions@[q],
                        removed@,
                    ),
                forall|q: int|
                    i <= q < orig.instructions@.len() ==> #[trigger] func.blocks@[b as int].instructions@[q]
                        == orig.instructions@[q],
            decreases orig.instructions@.len() - i,
        {
            let mut taken = Instruction::Const(Constant::I1(false));
            std::mem::swap(&mut taken, &mut func.blocks[b].instructions[i]);
            let renumbered_instr = remap_instruction(taken, removed, &map);
            func.blocks[b].instructions.set(i, renumbered_instr);
            i = i + 1;
        }
        let mut term = Terminator::Unreachable;
        std::mem::swap(&mut term, &mut func.blocks[b].terminator);
        func.blocks[b].terminator = remap_terminator(term, removed, &map);
        b = b + 1;
    }
    let mut new_values: Vec<SsaValue> = Vec::new();
    let mut old_values: Vec<SsaValue> = Vec::new();
    std::mem::swap(&mut old_values, &mut func.values);
    let ghost ov = old_values@;
    assert(ov.len() == old_values.len());
    let mut k: usize = 0;
    while old_values.len() > 0
        invariant
            new_id_map(removed@, map@),
            k + old_values@.len() == ov.len(),
            ov.len() <= usize::MAX,
            old_values@ == ov.subrange(k as int, ov.len() as int),
            new_values@ == values_compacted(ov.subrange(0, k as int), removed@),
        decreases old_values.len(),
    {
        let value = old_values.remove(0);
        proof {
            assert(value == ov[k as int]);
        }
        if k < removed.len() && !removed[k] {
            new_values.push(SsaValue { id: map[k], ty: value.ty, name: value.name });
        }
        proof {
            let s = ov.subrange(0, k + 1);
            assert(s.drop_last() =~= ov.subrange(0, k as int));
            assert(s.last() == value);
        }
        k = k + 1;
        proof {
            assert(old_values@ =~= ov.subrange(k as int, ov.len() as int));
            assert(new_values@ =~= values_compacted(ov.subrange(0, k as int), removed@));
        }
    }
    proof {
        assert(ov.subrange(0, k as int) =~= ov);
    }
    func.values = new_values;
    let next = count_kept_exec(removed);
    func.value_counter = next;
}

/// The number of ids that `removed` keeps.
fn count_kept_exec(removed: &Vec<bool>) -> (n: usize)
    ensures
        n == count_kept(removed@),
{
    let mut n: usize = 0;
    let mut j: usize = 0;
    while j < removed.len()
        invariant
            j <= removed@.len(),
            n == count_kept(removed@.subrange(0, j as int)),
        decreases removed.len() - j,
    {
        proof {
            let s = removed@.subrange(0, j + 1);
            assert(s.drop_last() =~= removed@.subrange(0, j as int));
            lemma_count_kept_bound(removed@.subrange(0, j as int));
        }
        if !removed[j] {
            n = n + 1;
        }
        j = j + 1;
    }
    proof {
        assert(removed@.subrange(0, j as int) =~= removed@);
    }
    n
}

/// `instr` with its operands renumbered.
fn remap_instruction(instr: Instruction, removed: &Vec<bool>, map: &Vec<usize>) -> (r: Instruction)
    requires
        new_id_map(removed@, map@),
    ensures
        instruction_renumbered(instr, r, removed@),
{
    match instr {
        Instruction::Add { ty, lhs, rhs } => Instruction::Add {
            ty,
            lhs: remap_id(removed, map, lhs),
            rhs: remap_id(removed, map, rhs),
        },
        Instruction::Sub { ty, lhs, rhs } => Instruction::Sub {
            ty,
            lhs: remap_id(removed, map, lhs),
            rhs: remap_id(removed, map, rhs),
        },
        Instruction::Mul { ty, lhs, rhs } => Instruction::Mul {
            ty,
            lhs: remap_id(removed, map, lhs),
            rhs: remap_id(removed, map, rhs),
        },
        Instruction::Div { ty, lhs, rhs } => Instruction::Div {
            ty,
            lhs: remap_id(removed, map, lhs),
            rhs: remap_id(removed, map, rhs),
        },
        Instruction::Rem { ty, lhs, rhs } => Instruction::Rem {
            ty,
            lhs: remap_id(removed, map, lhs),
            rhs: remap_id(removed, map, rhs),
        },
        Instruction::And { ty, lhs, rhs } => Instruction::And {
            ty,
            lhs: remap_id(removed, map, lhs),
            rhs: remap_id(removed, map, rhs),
        },
        Instruction::Or { ty, lhs, rhs } => Instruction::Or {
            ty,
            lhs: remap_id(removed, map, lhs),
            rhs: remap_id(removed, map, rhs),
        },
        Instruction::Xor { ty, lhs, rhs } => Instruction::Xor {
            ty,
            lhs: remap_id(removed, map, lhs),
            rhs: remap_id(removed, map, rhs),
        },
        Instruction::Shl { ty, lhs, rhs } => Instruction::Shl {
            ty,
            lhs: remap_id(removed, map, lhs),
            rhs: remap_id(removed, map, rhs),
        },
        Instruction::Lshr { ty, lhs, rhs } => Instruction::Lshr {
            ty,
            lhs: remap_id(removed, map, lhs),
            rhs: remap_id(removed, map, rhs),
        },
        Instruction::Ashr { ty, lhs, rhs } => Instruction::Ashr {
            ty,
            lhs: remap_id(removed, map, lhs),
            rhs: remap_id(removed, map, rhs),
        },
        Instruction::Eq { ty, lhs, rhs } => Instruction::Eq {
            ty,
            lhs: remap_id(removed, map, lhs),
            rhs: remap_id(removed, map, rhs),
        },
        Instruction::Lt { ty, lhs, rhs } => Instruction::Lt {
            ty,
            lhs: remap_id(removed, map, lhs),
            rhs: remap_id(removed, map, rhs),
        },
        Instruction::Gt { ty, lhs, rhs } => Instruction::Gt {
            ty,
            lhs: remap_id(removed, map, lhs),
            rhs: remap_id(removed, map, rhs),
        },
        Instruction::Cast { op, from_ty, to_ty, value } => Instruction::Cast {
            op,
            from_ty,
            to_ty,
            value: remap_id(removed, map, value),
        },
        Instruction::Select { ty, condition, then_value, else_value } => Instruction::Select {
            ty,
            condition: remap_id(removed, map, condition),
            then_value: remap_id(removed, map, then_value),
            else_value: remap_id(removed, map, else_value),
        },
        Instruction::Const(c) => Instruction::Const(c),
        Instruction::Alloca { ty, count } => Instruction::Alloca { ty, count },
        Instruction::Load { ty, addr } => Instruction::Load { ty, addr: remap_id(removed, map, addr) },
        Instruction::Store { ty, value, addr } => Instruction::Store {
            ty,
            value: remap_id(removed, map, value),
            addr: remap_id(removed, map, addr),
        },
        Instruction::Call { return_ty, callee, args } => {
            let mut args = args;
            remap_ids(&mut args, removed, map);
            Instruction::Call { return_ty, callee, args }
        },
        Instruction::Phi { ty, incoming } => {
            let mut incoming = incoming;
            remap_incoming(&mut incoming, removed, map);
            Instruction::Phi { ty, incoming }
        },
        Instruction::Gep { result_ty, elem_ty, base, indices } => {
            let mut indices = indices;
            remap_indices(&mut indices, removed, map);
            Instruction::Gep { result_ty, elem_ty, base: remap_id(removed, map, base), indices }
        },
    }
}

/// `term` with its operand renumbered.
fn remap_terminator(term: Terminator, removed: &Vec<bool>, map: &Vec<usize>) -> (r: Terminator)
    requires
        new_id_map(removed@, map@),
    ensures
        terminator_renumbered(term, r, removed@),
{
    match term {
        Terminator::CondBranch { condition, true_target, false_target } => Terminator::CondBranch {
            condition: remap_id(removed, map, condition),
            true_target,
            false_target,
        },
        Terminator::Return { value: Some(v) } => Terminator::Return { value: Some(remap_id(removed, map, v)) },
        other => other,
    }
}

} // verus!
