//! Control-flow simplification: blocks unreachable from the entry are
//! deleted (with the values they define), and a block that only branches
//! on is bypassed by redirecting its predecessors. Both repeat until
//! neither applies.
//!
//! Here control may pass from label `a` to `t` when some block labelled `a`
//! ends in a branch to `t`.

use vstd::prelude::*;

use crate::ir::block::BasicBlock;
use crate::ir::function::{first_block_index, IrFunction};
use crate::ir::instruction::{terminator_targets, Instruction, Terminator};
use crate::ir::module::IrModule;
use crate::ir::text::writer::result_count;
use crate::ir::validate::{
    count_marked, has_block, is_predecessor, lemma_count_marked_bound, lemma_count_marked_set,
    lemma_first_index_of_label, lemma_has_block_first, lemma_marking_facts, lemma_queue_step, queue_tracks,
    targets_contain,
};
use crate::ir::value::ValueId;
use crate::opt::pass::OptimizationPass;
use crate::opt::util::{compact_value_ids, ids_compacted, terminator_renumbered};

verus! {

/// Step `k` of `p` follows an edge.
pub open spec fn path_step(blocks: Seq<BasicBlock>, p: Seq<Seq<char>>, k: int) -> bool {
    is_predecessor(blocks, p[k], p[k + 1])
}

/// `p` is a path of labels from `entry` along edges.
pub open spec fn is_label_path(blocks: Seq<BasicBlock>, entry: Seq<char>, p: Seq<Seq<char>>) -> bool {
    &&& p.len() > 0
    &&& p[0] == entry
    &&& forall|k: int| 0 <= k < p.len() - 1 ==> #[trigger] path_step(blocks, p, k)
}

/// Control can reach label `l` from `entry`.
#[verifier::opaque]
pub open spec fn label_reachable(blocks: Seq<BasicBlock>, entry: Seq<char>, l: Seq<char>) -> bool {
    exists|p: Seq<Seq<char>>| #[trigger] is_label_path(blocks, entry, p) && p.last() == l
}

/// Every marked block is the first of a reachable label.
pub open spec fn reps_sound(blocks: Seq<BasicBlock>, entry: Seq<char>, marks: Seq<bool>) -> bool {
    forall|i: int|
        0 <= i < marks.len() && #[trigger] marks[i] ==> first_block_index(blocks, blocks[i].label@) == Some(i)
            && label_reachable(blocks, entry, blocks[i].label@)
}

/// Every defined target of every block sharing block `i`'s label is
/// marked.
pub open spec fn rep_closed(blocks: Seq<BasicBlock>, marks: Seq<bool>, i: int) -> bool {
    forall|c: int, t: int|
        0 <= c < blocks.len() && blocks[c].label@ == blocks[i].label@ && 0 <= t < terminator_targets(
            blocks[c].terminator,
        ).len() && has_block(blocks, terminator_targets(blocks[c].terminator)[t]) ==> marks[first_block_index(
            blocks,
            #[trigger] terminator_targets(blocks[c].terminator)[t],
        )->0]
}

/// The marking walk's state.
pub open spec fn walk_inv(blocks: Seq<BasicBlock>, entry: Seq<char>, marks: Seq<bool>, order: Seq<usize>) -> bool {
    &&& marks.len() == blocks.len()
    &&& queue_tracks(marks, order)
    &&& reps_sound(blocks, entry, marks)
    &&& has_block(blocks, entry) ==> marks[first_block_index(blocks, entry)->0]
}

pub(crate) proof fn lemma_label_reach_extend(blocks: Seq<BasicBlock>, entry: Seq<char>, a: Seq<char>, t: Seq<char>)
    requires
        label_reachable(blocks, entry, a),
        is_predecessor(blocks, a, t),
    ensures
        label_reachable(blocks, entry, t),
{
    reveal(label_reachable);
    let p = choose|p: Seq<Seq<char>>| #[trigger] is_label_path(blocks, entry, p) && p.last() == a;
    let p2 = p.push(t);
    assert forall|k: int| 0 <= k < p2.len() - 1 implies #[trigger] path_step(blocks, p2, k) by {
        if k < p.len() - 1 {
            assert(path_step(blocks, p, k));
        }
    }
    assert(is_label_path(blocks, entry, p2));
}

pub(crate) proof fn lemma_entry_reachable(blocks: Seq<BasicBlock>, entry: Seq<char>)
    ensures
        label_reachable(blocks, entry, entry),
{
    reveal(label_reachable);
    assert(is_label_path(blocks, entry, seq![entry]));
}

proof fn lemma_walk_start(blocks: Seq<BasicBlock>, entry: Seq<char>, marks: Seq<bool>, j: usize)
    requires
        marks.len() == blocks.len(),
        count_marked(marks) == 0,
        forall|k: int| 0 <= k < marks.len() ==> !#[trigger] marks[k],
        has_block(blocks, entry),
        first_block_index(blocks, entry) == Some(j as int),
    ensures
        walk_inv(blocks, entry, marks.update(j as int, true), seq![j]),
{
    lemma_has_block_first(blocks, entry);
    lemma_entry_reachable(blocks, entry);
    reveal(queue_tracks);
    lemma_count_marked_set(marks, j as int);
    let m = marks.update(j as int, true);
    assert(seq![j][0] == j);
    assert forall|i: int| 0 <= i < m.len() && #[trigger] m[i] implies exists|q: int|
        0 <= q < seq![j].len() && seq![j][q] as int == i by {
        assert(i == j);
        assert(seq![j][0] as int == i);
    }
}

proof fn lemma_walk_empty(blocks: Seq<BasicBlock>, entry: Seq<char>, marks: Seq<bool>)
    requires
        marks.len() == blocks.len(),
        count_marked(marks) == 0,
        forall|k: int| 0 <= k < marks.len() ==> !#[trigger] marks[k],
        !has_block(blocks, entry),
    ensures
        walk_inv(blocks, entry, marks, Seq::<usize>::empty()),
{
    reveal(queue_tracks);
}

proof fn lemma_walk_step(
    blocks: Seq<BasicBlock>,
    entry: Seq<char>,
    marks: Seq<bool>,
    order: Seq<usize>,
    i: int,
    c: int,
    target: Seq<char>,
    j: usize,
)
    requires
        walk_inv(blocks, entry, marks, order),
        0 <= i < blocks.len(),
        marks[i],
        0 <= c < blocks.len(),
        blocks[c].label@ == blocks[i].label@,
        terminator_targets(blocks[c].terminator).contains(target),
        first_block_index(blocks, target) == Some(j as int),
        j < blocks.len(),
        blocks[j as int].label@ == target,
        !marks[j as int],
    ensures
        walk_inv(blocks, entry, marks.update(j as int, true), order.push(j)),
{
    lemma_queue_step(marks, order, j);
    if has_block(blocks, entry) {
        lemma_has_block_first(blocks, entry);
    }
    assert(is_predecessor(blocks, blocks[i].label@, target));
    lemma_label_reach_extend(blocks, entry, blocks[i].label@, target);
    let m = marks.update(j as int, true);
    assert forall|x: int| 0 <= x < m.len() && #[trigger] m[x] implies first_block_index(blocks, blocks[x].label@)
        == Some(x) && label_reachable(blocks, entry, blocks[x].label@) by {
        if x != j {
            assert(marks[x]);
        }
    }
}

/// Along any path from `entry`, every label that has a block has its first
/// block marked, when the marks are closed and include the entry's block.
proof fn lemma_label_path_marked(
    blocks: Seq<BasicBlock>,
    entry: Seq<char>,
    marks: Seq<bool>,
    p: Seq<Seq<char>>,
    k: int,
)
    requires
        marks.len() == blocks.len(),
        has_block(blocks, entry) ==> marks[first_block_index(blocks, entry)->0],
        forall|i: int| 0 <= i < blocks.len() && #[trigger] marks[i] ==> rep_closed(blocks, marks, i),
        forall|i: int|
            0 <= i < marks.len() && #[trigger] marks[i] ==> first_block_index(blocks, blocks[i].label@) == Some(i),
        is_label_path(blocks, entry, p),
        0 <= k < p.len(),
        has_block(blocks, p[k]),
    ensures
        marks[first_block_index(blocks, p[k])->0],
    decreases k,
{
    if k > 0 {
        assert(path_step(blocks, p, k - 1));
        let c = choose|c: int|
            0 <= c < blocks.len() && #[trigger] blocks[c].label@ == p[k - 1] && terminator_targets(
                blocks[c].terminator,
            ).contains(p[k]);
        assert(has_block(blocks, p[k - 1]));
        lemma_label_path_marked(blocks, entry, marks, p, k - 1);
        lemma_has_block_first(blocks, p[k - 1]);
        let i = first_block_index(blocks, p[k - 1])->0;
        assert(rep_closed(blocks, marks, i));
        let ts = terminator_targets(blocks[c].terminator);
        let t = choose|t: int| 0 <= t < ts.len() && ts[t] == p[k];
        assert(marks[first_block_index(blocks, ts[t])->0]);
    }
}

impl IrFunction {
    /// For each block, whether control can reach its label from the entry
    /// label.
    pub fn reachable_block_flags(&self) -> (reach: Vec<bool>)
        ensures
            reach@.len() == self.blocks@.len(),
            forall|b: int|
                0 <= b < self.blocks@.len() ==> #[trigger] reach@[b] == label_reachable(
                    self.blocks@,
                    self.entry_block@,
                    self.blocks@[b].label@,
                ),
    {
        let ghost blocks = self.blocks@;
        let ghost entry = self.entry_block@;
        let n = self.blocks.len();
        let mut marks: Vec<bool> = Vec::new();
        while marks.len() < n
            invariant
                marks@.len() <= n,
                count_marked(marks@) == 0,
                forall|k: int| 0 <= k < marks@.len() ==> !#[trigger] marks@[k],
            decreases n - marks.len(),
        {
            let ghost before = marks@;
            marks.push(false);
            proof {
                assert(marks@.drop_last() =~= before);
            }
        }
        let mut order: Vec<usize> = Vec::new();
        match self.block_index(self.entry_block.as_str()) {
            Some(j) => {
                proof {
                    lemma_walk_start(blocks, entry, marks@, j);
                }
                marks.set(j, true);
                order.push(j);
                proof {
                    assert(order@ =~= seq![j]);
                }
            },
            None => {
                proof {
                    lemma_walk_empty(blocks, entry, marks@);
                    assert(order@ =~= Seq::<usize>::empty());
                }
            },
        }
        let mut head: usize = 0;
        while head < order.len()
            invariant
                blocks == self.blocks@,
                entry == self.entry_block@,
                n == blocks.len(),
                walk_inv(blocks, entry, marks@, order@),
                head <= order@.len(),
                forall|q: int| 0 <= q < head ==> rep_closed(blocks, marks@, #[trigger] order@[q] as int),
            decreases n - head,
        {
            proof {
                lemma_marking_facts(marks@, order@);
            }
            let i = order[head];
            let ghost marks0 = marks@;
            let ghost order0 = order@;
            let mut c: usize = 0;
            while c < n
                invariant
                    blocks == self.blocks@,
                    entry == self.entry_block@,
                    n == blocks.len(),
                    i < n,
                    marks@[i as int],
                    walk_inv(blocks, entry, marks@, order@),
                    order0.len() <= order@.len(),
                    order0 == order@.subrange(0, order0.len() as int),
                    marks0.len() == marks@.len(),
                    forall|x: int| 0 <= x < marks0.len() && marks0[x] ==> #[trigger] marks@[x],
                    c <= n,
                    forall|cc: int, t: int|
                        0 <= cc < c && blocks[cc].label@ == blocks[i as int].label@ && 0 <= t < terminator_targets(
                            blocks[cc].terminator,
                        ).len() && has_block(blocks, terminator_targets(blocks[cc].terminator)[t])
                            ==> marks@[first_block_index(
                            blocks,
                            #[trigger] terminator_targets(blocks[cc].terminator)[t],
                        )->0],
                decreases n - c,
            {
                if self.blocks[c].label == self.blocks[i].label {
                    let ghost m1 = marks@;
                    let ghost o1 = order@;
                    match &self.blocks[c].terminator {
                        Terminator::Branch { target } => {
                            proof {
                                assert(terminator_targets(blocks[c as int].terminator)[0] == target@);
                            }
                            self.walk_target(&mut marks, &mut order, i, c, target);
                        },
                        Terminator::CondBranch { true_target, false_target, .. } => {
                            proof {
                                assert(terminator_targets(blocks[c as int].terminator)[0] == true_target@);
                                assert(terminator_targets(blocks[c as int].terminator)[1] == false_target@);
                            }
                            self.walk_target(&mut marks, &mut order, i, c, true_target);
                            let ghost m2 = marks@;
                            let ghost o2 = order@;
                            self.walk_target(&mut marks, &mut order, i, c, false_target);
                            proof {
                                assert forall|q: int| 0 <= q < o1.len() implies o1[q] == order@[q] by {
                                    assert(o1[q] == o2.subrange(0, o1.len() as int)[q]);
                                    assert(o2[q] == order@.subrange(0, o2.len() as int)[q]);
                                }
                                assert(o1 =~= order@.subrange(0, o1.len() as int));
                                let ts = terminator_targets(blocks[c as int].terminator);
                                if has_block(blocks, ts[0]) {
                                    lemma_has_block_first(blocks, ts[0]);
                                    assert(m2[first_block_index(blocks, ts[0])->0]);
                                }
                            }
                        },
                        _ => {},
                    }
                    proof {
                        assert forall|q: int| 0 <= q < order0.len() implies order0[q] == order@[q] by {
                            assert(order0[q] == o1.subrange(0, order0.len() as int)[q]);
                            assert(o1[q] == order@.subrange(0, o1.len() as int)[q]);
                        }
                        assert(order0 =~= order@.subrange(0, order0.len() as int));
                    }
                }
                proof {
                    assert forall|cc: int, t: int|
                        0 <= cc < c + 1 && blocks[cc].label@ == blocks[i as int].label@ && 0 <= t < terminator_targets(
                            blocks[cc].terminator,
                        ).len() && has_block(blocks, terminator_targets(blocks[cc].terminator)[t])
                            implies marks@[first_block_index(
                            blocks,
                            #[trigger] terminator_targets(blocks[cc].terminator)[t],
                        )->0] by {
                        let ts = terminator_targets(blocks[cc].terminator);
                        lemma_has_block_first(blocks, ts[t]);
                    }
                }
                c = c + 1;
            }
            proof {
                assert(rep_closed(blocks, marks@, i as int));
                assert forall|q: int| 0 <= q < head + 1 implies rep_closed(blocks, marks@, #[trigger] order@[q] as int) by {
                    assert(order@[q] == order0[q]);
                    if q < head {
                        lemma_marking_facts(marks0, order0);
                        lemma_rep_closed_grow(blocks, marks0, marks@, order0[q] as int);
                    }
                }
            }
            head = head + 1;
        }
        proof {
            reveal(queue_tracks);
            assert forall|i: int| 0 <= i < blocks.len() && #[trigger] marks@[i] implies rep_closed(blocks, marks@, i) by {
                let q = choose|q: int| 0 <= q < order@.len() && order@[q] as int == i;
                assert(rep_closed(blocks, marks@, order@[q] as int));
            }
        }
        let mut reach: Vec<bool> = Vec::new();
        let mut b: usize = 0;
        while b < n
            invariant
                blocks == self.blocks@,
                entry == self.entry_block@,
                n == blocks.len(),
                walk_inv(blocks, entry, marks@, order@),
                forall|i: int| 0 <= i < blocks.len() && #[trigger] marks@[i] ==> rep_closed(blocks, marks@, i),
                b <= n,
                reach@.len() == b,
                forall|k: int| 0 <= k < b ==> #[trigger] reach@[k] == label_reachable(blocks, entry, blocks[k].label@),
            decreases n - b,
        {
            let j = self.block_index(self.blocks[b].label.as_str()).unwrap();
            let r = marks[j];
            proof {
                let l = blocks[b as int].label@;
                assert(blocks[j as int].label@ == l);
                if label_reachable(blocks, entry, l) {
                    reveal(label_reachable);
                    let p = choose|p: Seq<Seq<char>>| #[trigger] is_label_path(blocks, entry, p) && p.last() == l;
                    assert(has_block(blocks, l));
                    lemma_label_path_marked(blocks, entry, marks@, p, p.len() - 1);
                }
            }
            reach.push(r);
            b = b + 1;
        }
        reach
    }

    /// Mark the first block labelled `target`, a target of block `c`,
    /// which shares its label with marked block `i`.
    fn walk_target(&self, marks: &mut Vec<bool>, order: &mut Vec<usize>, i: usize, c: usize, target: &String)
        requires
            i < self.blocks@.len(),
            c < self.blocks@.len(),
            self.blocks@[c as int].label@ == self.blocks@[i as int].label@,
            old(marks)@[i as int],
            terminator_targets(self.blocks@[c as int].terminator).contains(target@),
            walk_inv(self.blocks@, self.entry_block@, old(marks)@, old(order)@),
        ensures
            walk_inv(self.blocks@, self.entry_block@, final(marks)@, final(order)@),
            final(marks)@.len() == old(marks)@.len(),
            has_block(self.blocks@, target@) ==> final(marks)@[first_block_index(self.blocks@, target@)->0],
            old(order)@.len() <= final(order)@.len(),
            old(order)@ == final(order)@.subrange(0, old(order)@.len() as int),
            forall|j: int| 0 <= j < old(marks)@.len() && old(marks)@[j] ==> #[trigger] final(marks)@[j],
    {
        match self.block_index(target.as_str()) {
            Some(j) => {
                if !marks[j] {
                    proof {
                        lemma_walk_step(self.blocks@, self.entry_block@, marks@, order@, i as int, c as int, target@, j);
                    }
                    marks.set(j, true);
                    order.push(j);
                }
            },
            None => {},
        }
        proof {
            assert(old(order)@ =~= order@.subrange(0, old(order)@.len() as int));
        }
    }
}

proof fn lemma_rep_closed_grow(blocks: Seq<BasicBlock>, m1: Seq<bool>, m2: Seq<bool>, i: int)
    requires
        0 <= i < blocks.len(),
        m1.len() == blocks.len(),
        m2.len() == blocks.len(),
        forall|j: int| 0 <= j < m1.len() && m1[j] ==> #[trigger] m2[j],
        rep_closed(blocks, m1, i),
    ensures
        rep_closed(blocks, m2, i),
{
    assert forall|c: int, t: int|
        0 <= c < blocks.len() && blocks[c].label@ == blocks[i].label@ && 0 <= t < terminator_targets(
            blocks[c].terminator,
        ).len() && has_block(blocks, terminator_targets(blocks[c].terminator)[t]) implies m2[first_block_index(
        blocks,
        #[trigger] terminator_targets(blocks[c].terminator)[t],
    )->0] by {
        let ts = terminator_targets(blocks[c].terminator);
        lemma_has_block_first(blocks, ts[t]);
        assert(m1[first_block_index(blocks, ts[t])->0]);
    }
}

/// Flags per value id: set for the values defined in blocks whose label
/// is unreachable.
pub open spec fn unreachable_value_flags_in(bs: Seq<BasicBlock>, all: Seq<BasicBlock>, entry: Seq<char>) -> Seq<bool>
    decreases bs.len(),
{
    if bs.len() == 0 {
        seq![]
    } else {
        unreachable_value_flags_in(bs.drop_last(), all, entry) + Seq::new(
            result_count(bs.last().instructions@),
            |i: int| !label_reachable(all, entry, bs.last().label@),
        )
    }
}

/// [`unreachable_value_flags_in`] for a whole function; parameters are
/// never flagged.
pub open spec fn unreachable_value_flags(f: IrFunction) -> Seq<bool> {
    Seq::new(f.params@.len(), |i: int| false) + unreachable_value_flags_in(f.blocks@, f.blocks@, f.entry_block@)
}

/// Phi operands whose label is reachable, in order.
pub open spec fn reachable_incoming(
    inc: Seq<(ValueId, String)>,
    blocks: Seq<BasicBlock>,
    entry: Seq<char>,
) -> Seq<(ValueId, String)>
    decreases inc.len(),
{
    if inc.len() == 0 {
        seq![]
    } else {
        reachable_incoming(inc.drop_last(), blocks, entry) + if label_reachable(blocks, entry, inc.last().1@) {
            seq![inc.last()]
        } else {
            seq![]
        }
    }
}

/// `new` is `old` with a phi's operands from unreachable labels dropped.
pub open spec fn phi_pruned(old: Instruction, new: Instruction, blocks: Seq<BasicBlock>, entry: Seq<char>) -> bool {
    match old {
        Instruction::Phi { ty, incoming } => new matches Instruction::Phi { ty: t, incoming: inc } && t == ty
            && inc@ == reachable_incoming(incoming@, blocks, entry),
        _ => new == old,
    }
}

/// `new` is block `old` with its phis pruned.
pub open spec fn block_pruned(old: BasicBlock, new: BasicBlock, blocks: Seq<BasicBlock>, entry: Seq<char>) -> bool {
    &&& new.label == old.label
    &&& new.terminator == old.terminator
    &&& new.debug_locs == old.debug_locs
    &&& new.instructions@.len() == old.instructions@.len()
    &&& forall|i: int|
        0 <= i < old.instructions@.len() ==> phi_pruned(
            old.instructions@[i],
            #[trigger] new.instructions@[i],
            blocks,
            entry,
        )
}

/// `new` holds the blocks of `old` whose label is reachable, in order,
/// each with its phis pruned.
pub open spec fn reachable_blocks_kept(
    old: Seq<BasicBlock>,
    new: Seq<BasicBlock>,
    blocks: Seq<BasicBlock>,
    entry: Seq<char>,
) -> bool
    decreases old.len(),
{
    if old.len() == 0 {
        new.len() == 0
    } else if label_reachable(blocks, entry, old.last().label@) {
        &&& new.len() > 0
        &&& block_pruned(old.last(), new.last(), blocks, entry)
        &&& reachable_blocks_kept(old.drop_last(), new.drop_last(), blocks, entry)
    } else {
        reachable_blocks_kept(old.drop_last(), new, blocks, entry)
    }
}

/// `g` is `f` without its unreachable blocks. Nothing changes unless an
/// unreachable block defines a value; then the values of unreachable
/// blocks are compacted away, those blocks deleted and phi operands from
/// unreachable labels dropped.
pub open spec fn unreachable_removed(f: IrFunction, g: IrFunction) -> bool {
    let flags = unreachable_value_flags(f);
    if forall|j: int| 0 <= j < flags.len() ==> !#[trigger] flags[j] {
        g == f
    } else {
        exists|h: IrFunction|
            #[trigger] ids_compacted(f, h, flags) && g.name == h.name && g.return_ty == h.return_ty && g.params
                == h.params && g.values == h.values && g.entry_block == h.entry_block && g.value_counter
                == h.value_counter && reachable_blocks_kept(h.blocks@, g.blocks@, f.blocks@, f.entry_block@)
    }
}

/// The blocks that [`reachable_blocks_kept`] keeps all have reachable
/// labels.
proof fn lemma_kept_blocks_reachable(old: Seq<BasicBlock>, new: Seq<BasicBlock>, blocks: Seq<BasicBlock>, entry: Seq<char>)
    requires
        reachable_blocks_kept(old, new, blocks, entry),
    ensures
        forall|i: int| 0 <= i < new.len() ==> label_reachable(blocks, entry, #[trigger] new[i].label@),
    decreases old.len(),
{
    if old.len() > 0 {
        if label_reachable(blocks, entry, old.last().label@) {
            lemma_kept_blocks_reachable(old.drop_last(), new.drop_last(), blocks, entry);
            assert forall|i: int| 0 <= i < new.len() implies label_reachable(blocks, entry, #[trigger] new[i].label@) by {
                if i < new.len() - 1 {
                    assert(new.drop_last()[i] == new[i]);
                }
            }
        } else {
            lemma_kept_blocks_reachable(old.drop_last(), new, blocks, entry);
        }
    }
}

/// Removing the unreachable blocks of a function in which some unreachable
/// block defines a value leaves only blocks whose labels are reachable from
/// the entry.
pub proof fn lemma_removal_leaves_reachable_blocks(f: IrFunction, g: IrFunction)
    requires
        unreachable_removed(f, g),
        exists|j: int| 0 <= j < unreachable_value_flags(f).len() && #[trigger] unreachable_value_flags(f)[j],
    ensures
        forall|i: int|
            0 <= i < g.blocks@.len() ==> label_reachable(f.blocks@, f.entry_block@, #[trigger] g.blocks@[i].label@),
{
    let flags = unreachable_value_flags(f);
    assert(!(forall|j: int| 0 <= j < flags.len() ==> !#[trigger] flags[j]));
    let h = choose|h: IrFunction|
        #[trigger] ids_compacted(f, h, flags) && g.name == h.name && g.return_ty == h.return_ty && g.params == h.params
            && g.values == h.values && g.entry_block == h.entry_block && g.value_counter == h.value_counter
            && reachable_blocks_kept(h.blocks@, g.blocks@, f.blocks@, f.entry_block@);
    lemma_kept_blocks_reachable(h.blocks@, g.blocks@, f.blocks@, f.entry_block@);
}

proof fn lemma_path_prefix(blocks: Seq<BasicBlock>, entry: Seq<char>, p: Seq<Seq<char>>, n: int)
    requires
        is_label_path(blocks, entry, p),
        0 < n <= p.len(),
    ensures
        is_label_path(blocks, entry, p.subrange(0, n)),
{
    let q = p.subrange(0, n);
    assert forall|k: int| 0 <= k < q.len() - 1 implies #[trigger] path_step(blocks, q, k) by {
        assert(path_step(blocks, p, k));
        assert(q[k] == p[k] && q[k + 1] == p[k + 1]);
    }
}

/// A label other than the entry is reachable exactly when some block of a
/// reachable label branches to it.
proof fn lemma_reachable_step_back(blocks: Seq<BasicBlock>, entry: Seq<char>, l: Seq<char>)
    requires
        label_reachable(blocks, entry, l),
        l != entry,
    ensures
        exists|c: int|
            0 <= c < blocks.len() && label_reachable(blocks, entry, #[trigger] blocks[c].label@) && terminator_targets(
                blocks[c].terminator,
            ).contains(l),
{
    reveal(label_reachable);
    let p = choose|p: Seq<Seq<char>>| #[trigger] is_label_path(blocks, entry, p) && p.last() == l;
    assert(p.len() >= 2);
    let n = p.len() - 1;
    assert(path_step(blocks, p, n - 1));
    let c = choose|c: int|
        0 <= c < blocks.len() && #[trigger] blocks[c].label@ == p[n - 1] && terminator_targets(blocks[c].terminator).contains(p[n]);
    lemma_path_prefix(blocks, entry, p, n);
    let q = p.subrange(0, n);
    assert(q.last() == blocks[c].label@);
    assert(is_label_path(blocks, entry, q));
}

/// Whether a phi operand label is reachable, given the reachability of
/// each block.
fn label_reachable_by(func: &IrFunction, reach: &Vec<bool>, l: &String) -> (r: bool)
    requires
        reach@.len() == func.blocks@.len(),
        forall|b: int|
            0 <= b < func.blocks@.len() ==> #[trigger] reach@[b] == label_reachable(
                func.blocks@,
                func.entry_block@,
                func.blocks@[b].label@,
            ),
    ensures
        r == label_reachable(func.blocks@, func.entry_block@, l@),
{
    if *l == func.entry_block {
        proof {
            lemma_entry_reachable(func.blocks@, func.entry_block@);
        }
        return true;
    }
    let mut c: usize = 0;
    while c < func.blocks.len()
        invariant
            c <= func.blocks@.len(),
            reach@.len() == func.blocks@.len(),
            forall|b: int|
                0 <= b < func.blocks@.len() ==> #[trigger] reach@[b] == label_reachable(
                    func.blocks@,
                    func.entry_block@,
                    func.blocks@[b].label@,
                ),
            forall|d: int| 0 <= d < c ==> !(reach@[d] && terminator_targets(func.blocks@[d].terminator).contains(l@)),
        decreases func.blocks.len() - c,
    {
        if reach[c] && targets_contain(&func.blocks[c].terminator, l) {
            proof {
                assert(is_predecessor(func.blocks@, func.blocks@[c as int].label@, l@));
                lemma_label_reach_extend(func.blocks@, func.entry_block@, func.blocks@[c as int].label@, l@);
            }
            return true;
        }
        c = c + 1;
    }
    proof {
        if label_reachable(func.blocks@, func.entry_block@, l@) {
            lemma_reachable_step_back(func.blocks@, func.entry_block@, l@);
            let d = choose|d: int|
                0 <= d < func.blocks@.len() && label_reachable(func.blocks@, func.entry_block@, #[trigger] func.blocks@[d].label@)
                    && terminator_targets(func.blocks@[d].terminator).contains(l@);
            assert(reach@[d]);
        }
    }
    false
}

/// Blocks with the same labels and branch targets, in the same order.
pub open spec fn same_shape(a: Seq<BasicBlock>, b: Seq<BasicBlock>) -> bool {
    &&& a.len() == b.len()
    &&& forall|k: int|
        0 <= k < a.len() ==> (#[trigger] a[k]).label@ == b[k].label@ && terminator_targets(a[k].terminator)
            == terminator_targets(b[k].terminator)
}

proof fn lemma_same_shape_reachable(a: Seq<BasicBlock>, b: Seq<BasicBlock>, entry: Seq<char>)
    requires
        same_shape(a, b),
    ensures
        forall|l: Seq<char>| #[trigger] label_reachable(a, entry, l) == label_reachable(b, entry, l),
{
    assert forall|x: Seq<char>, y: Seq<char>| #[trigger] is_predecessor(a, x, y) == is_predecessor(b, x, y) by {
        if is_predecessor(a, x, y) {
            let c = choose|c: int|
                0 <= c < a.len() && #[trigger] a[c].label@ == x && terminator_targets(a[c].terminator).contains(y);
            assert(b[c].label@ == x);
        }
        if is_predecessor(b, x, y) {
            let c = choose|c: int|
                0 <= c < b.len() && #[trigger] b[c].label@ == x && terminator_targets(b[c].terminator).contains(y);
            assert(a[c].label@ == x);
        }
    }
    assert forall|p: Seq<Seq<char>>| is_label_path(a, entry, p) implies #[trigger] is_label_path(b, entry, p) by {
        assert forall|k: int| 0 <= k < p.len() - 1 implies #[trigger] path_step(b, p, k) by {
            assert(path_step(a, p, k));
            assert(is_predecessor(a, p[k], p[k + 1]) == is_predecessor(b, p[k], p[k + 1]));
        }
    }
    assert forall|p: Seq<Seq<char>>| is_label_path(b, entry, p) implies #[trigger] is_label_path(a, entry, p) by {
        assert forall|k: int| 0 <= k < p.len() - 1 implies #[trigger] path_step(a, p, k) by {
            assert(path_step(b, p, k));
            assert(is_predecessor(a, p[k], p[k + 1]) == is_predecessor(b, p[k], p[k + 1]));
        }
    }
    reveal(label_reachable);
    assert forall|l: Seq<char>| #[trigger] label_reachable(a, entry, l) == label_reachable(b, entry, l) by {
        if label_reachable(a, entry, l) {
            let p = choose|p: Seq<Seq<char>>| #[trigger] is_label_path(a, entry, p) && p.last() == l;
            assert(is_label_path(b, entry, p));
        }
        if label_reachable(b, entry, l) {
            let p = choose|p: Seq<Seq<char>>| #[trigger] is_label_path(b, entry, p) && p.last() == l;
            assert(is_label_path(a, entry, p));
        }
    }
}

proof fn lemma_renumbered_targets(old: Terminator, new: Terminator, removed: Seq<bool>)
    requires
        terminator_renumbered(old, new, removed),
    ensures
        terminator_targets(old) == terminator_targets(new),
{
}

/// The flags of the values defined in unreachable blocks.
fn unreachable_flags(func: &IrFunction, reach: &Vec<bool>) -> (flags: Vec<bool>)
    requires
        reach@.len() == func.blocks@.len(),
        forall|b: int|
            0 <= b < func.blocks@.len() ==> #[trigger] reach@[b] == label_reachable(
                func.blocks@,
                func.entry_block@,
                func.blocks@[b].label@,
            ),
    ensures
        flags@ == unreachable_value_flags(*func),
{
    let ghost all = func.blocks@;
    let ghost entry = func.entry_block@;
    let mut flags: Vec<bool> = Vec::new();
    let mut p: usize = 0;
    while p < func.params.len()
        invariant
            p <= func.params@.len(),
            flags@ == Seq::new(p as nat, |i: int| false),
        decreases func.params.len() - p,
    {
        flags.push(false);
        p = p + 1;
        assert(flags@ =~= Seq::new(p as nat, |i: int| false));
    }
    let ghost head = flags@;
    let mut b: usize = 0;
    while b < func.blocks.len()
        invariant
            all == func.blocks@,
            entry == func.entry_block@,
            reach@.len() == all.len(),
            forall|bb: int| 0 <= bb < all.len() ==> #[trigger] reach@[bb] == label_reachable(all, entry, all[bb].label@),
            b <= all.len(),
            head == Seq::new(func.params@.len(), |i: int| false),
            flags@ == head + unreachable_value_flags_in(all.subrange(0, b as int), all, entry),
        decreases all.len() - b,
    {
        let block = &func.blocks[b];
        let ghost mid = flags@;
        let flag = !reach[b];
        let mut i: usize = 0;
        while i < block.instructions.len()
            invariant
                *block == all[b as int],
                i <= block.instructions@.len(),
                flag == !label_reachable(all, entry, block.label@),
                flags@ == mid + Seq::new(
                    result_count(block.instructions@.subrange(0, i as int)),
                    |k: int| !label_reachable(all, entry, block.label@),
                ),
            decreases block.instructions.len() - i,
        {
            proof {
                let s = block.instructions@.subrange(0, i + 1);
                assert(s.drop_last() =~= block.instructions@.subrange(0, i as int));
            }
            if block.instructions[i].result_type().is_some() {
                flags.push(flag);
            }
            i = i + 1;
            assert(flags@ =~= mid + Seq::new(
                result_count(block.instructions@.subrange(0, i as int)),
                |k: int| !label_reachable(all, entry, block.label@),
            ));
        }
        proof {
            assert(block.instructions@.subrange(0, i as int) =~= block.instructions@);
            let t = all.subrange(0, b + 1);
            assert(t.drop_last() =~= all.subrange(0, b as int));
            assert(t.last() == *block);
        }
        b = b + 1;
        assert(flags@ =~= head + unreachable_value_flags_in(all.subrange(0, b as int), all, entry));
    }
    proof {
        assert(all.subrange(0, b as int) =~= all);
    }
    flags
}

/// The operands of `inc` whose flag in `keep` is set.
fn filter_incoming(
    inc: Vec<(ValueId, String)>,
    keep: &Vec<bool>,
    Ghost(blocks): Ghost<Seq<BasicBlock>>,
    Ghost(entry): Ghost<Seq<char>>,
) -> (r: Vec<(ValueId, String)>)
    requires
        keep@.len() == inc@.len(),
        forall|k: int| 0 <= k < inc@.len() ==> #[trigger] keep@[k] == label_reachable(blocks, entry, inc@[k].1@),
    ensures
        r@ == reachable_incoming(inc@, blocks, entry),
{
    let ghost orig = inc@;
    let mut rest = inc;
    let n = rest.len();
    assert(n == orig.len());
    let mut out: Vec<(ValueId, String)> = Vec::new();
    let mut k: usize = 0;
    while rest.len() > 0
        invariant
            orig.len() <= usize::MAX,
            k + rest@.len() == orig.len(),
            rest@ == orig.subrange(k as int, orig.len() as int),
            keep@.len() == orig.len(),
            forall|q: int| 0 <= q < orig.len() ==> #[trigger] keep@[q] == label_reachable(blocks, entry, orig[q].1@),
            out@ == reachable_incoming(orig.subrange(0, k as int), blocks, entry),
        decreases rest.len(),
    {
        let pair = rest.remove(0);
        proof {
            assert(pair == orig[k as int]);
            let s = orig.subrange(0, k + 1);
            assert(s.drop_last() =~= orig.subrange(0, k as int));
            assert(s.last() == pair);
        }
        if keep[k] {
            out.push(pair);
        }
        k = k + 1;
        proof {
            assert(rest@ =~= orig.subrange(k as int, orig.len() as int));
            assert(out@ =~= reachable_incoming(orig.subrange(0, k as int), blocks, entry));
        }
    }
    proof {
        assert(orig.subrange(0, k as int) =~= orig);
    }
    out
}

/// Drop the operands of the phi at instruction `i` of block `b` whose
/// label is unreachable (nothing happens to other instructions).
fn prune_phi(func: &mut IrFunction, reach: &Vec<bool>, b: usize, i: usize, Ghost(fb): Ghost<Seq<BasicBlock>>)
    requires
        b < old(func).blocks@.len(),
        i < old(func).blocks@[b as int].instructions@.len(),
        reach@.len() == old(func).blocks@.len(),
        same_shape(fb, old(func).blocks@),
        forall|k: int|
            0 <= k < fb.len() ==> #[trigger] reach@[k] == label_reachable(
                fb,
                old(func).entry_block@,
                fb[k].label@,
            ),
    ensures
        final(func).name == old(func).name,
        final(func).return_ty == old(func).return_ty,
        final(func).params == old(func).params,
        final(func).values == old(func).values,
        final(func).entry_block == old(func).entry_block,
        final(func).value_counter == old(func).value_counter,
        final(func).blocks@.len() == old(func).blocks@.len(),
        forall|k: int| 0 <= k < old(func).blocks@.len() && k != b ==> #[trigger] final(func).blocks@[k] == old(func).blocks@[k],
        final(func).blocks@[b as int].label == old(func).blocks@[b as int].label,
        final(func).blocks@[b as int].terminator == old(func).blocks@[b as int].terminator,
        final(func).blocks@[b as int].debug_locs == old(func).blocks@[b as int].debug_locs,
        final(func).blocks@[b as int].instructions@.len() == old(func).blocks@[b as int].instructions@.len(),
        forall|q: int|
            0 <= q < old(func).blocks@[b as int].instructions@.len() && q != i ==> #[trigger] final(func).blocks@[b as int].instructions@[q]
                == old(func).blocks@[b as int].instructions@[q],
        phi_pruned(
            old(func).blocks@[b as int].instructions@[i as int],
            final(func).blocks@[b as int].instructions@[i as int],
            fb,
            old(func).entry_block@,
        ),
{
    let ghost entry = func.entry_block@;
    proof {
        lemma_same_shape_reachable(fb, func.blocks@, entry);
    }
    let keep = match &func.blocks[b].instructions[i] {
        Instruction::Phi { incoming, .. } => {
            let mut keep: Vec<bool> = Vec::new();
            let mut k: usize = 0;
            while k < incoming.len()
                invariant
                    k <= incoming@.len(),
                    keep@.len() == k,
                    reach@.len() == func.blocks@.len(),
                    forall|bb: int|
                        0 <= bb < func.blocks@.len() ==> #[trigger] reach@[bb] == label_reachable(
                            func.blocks@,
                            func.entry_block@,
                            func.blocks@[bb].label@,
                        ),
                    forall|l: Seq<char>| #[trigger] label_reachable(fb, entry, l) == label_reachable(func.blocks@, entry, l),
                    entry == func.entry_block@,
                    forall|q: int| 0 <= q < k ==> #[trigger] keep@[q] == label_reachable(fb, entry, incoming@[q].1@),
                decreases incoming.len() - k,
            {
                let r = label_reachable_by(&*func, reach, &incoming[k].1);
                keep.push(r);
                k = k + 1;
            }
            keep
        },
        _ => {
            return ;
        },
    };
    let mut taken = Instruction::Alloca { ty: crate::ir::types::IrType::I8, count: 0 };
    std::mem::swap(&mut taken, &mut func.blocks[b].instructions[i]);
    let pruned = match taken {
        Instruction::Phi { ty, incoming } => {
            let inc = filter_incoming(incoming, &keep, Ghost(fb), Ghost(entry));
            Instruction::Phi { ty, incoming: inc }
        },
        other => other,
    };
    func.blocks[b].instructions.set(i, pruned);
}


proof fn lemma_kept_len(old: Seq<BasicBlock>, new: Seq<BasicBlock>, blocks: Seq<BasicBlock>, entry: Seq<char>)
    requires
        reachable_blocks_kept(old, new, blocks, entry),
    ensures
        new.len() <= old.len(),
    decreases old.len(),
{
    if old.len() > 0 {
        if label_reachable(blocks, entry, old.last().label@) {
            lemma_kept_len(old.drop_last(), new.drop_last(), blocks, entry);
        } else {
            lemma_kept_len(old.drop_last(), new, blocks, entry);
        }
    }
}

/// Delete the blocks unreachable from the entry, when one of them defines
/// a value; returns how many blocks were deleted.
fn remove_unreachable_blocks(func: &mut IrFunction) -> (removed: usize)
    ensures
        unreachable_removed(*old(func), *final(func)),
        removed as int == old(func).blocks@.len() - final(func).blocks@.len(),
{
    let ghost f = *func;
    let reach = func.reachable_block_flags();
    let flags = unreachable_flags(func, &reach);
    let mut any = false;
    let mut j: usize = 0;
    while j < flags.len()
        invariant
            j <= flags@.len(),
            any == exists|k: int| 0 <= k < j && flags@[k],
        decreases flags.len() - j,
    {
        if flags[j] {
            any = true;
        }
        j = j + 1;
    }
    if !any {
        return 0;
    }
    compact_value_ids(func, &flags);
    let ghost h = *func;
    let ghost fb = f.blocks@;
    let ghost entry = f.entry_block@;
    proof {
        assert(ids_compacted(f, h, flags@));
        assert forall|k: int| 0 <= k < fb.len() implies (#[trigger] fb[k]).label@ == h.blocks@[k].label@
            && terminator_targets(fb[k].terminator) == terminator_targets(h.blocks@[k].terminator) by {
            lemma_renumbered_targets(fb[k].terminator, h.blocks@[k].terminator, flags@);
        }
        assert(same_shape(fb, h.blocks@));
    }
    let n = func.blocks.len();
    let mut b: usize = 0;
    while b < n
        invariant
            n == h.blocks@.len(),
            func.name == h.name,
            func.return_ty == h.return_ty,
            func.params == h.params,
            func.values == h.values,
            func.entry_block == h.entry_block,
            func.value_counter == h.value_counter,
            entry == h.entry_block@,
            func.blocks@.len() == n,
            reach@.len() == n,
            fb.len() == n,
            forall|k: int| 0 <= k < fb.len() ==> #[trigger] reach@[k] == label_reachable(fb, entry, fb[k].label@),
            same_shape(fb, func.blocks@),
            b <= n,
            forall|k: int| 0 <= k < b ==> block_pruned(h.blocks@[k], #[trigger] func.blocks@[k], fb, entry),
            forall|k: int| b <= k < n ==> #[trigger] func.blocks@[k] == h.blocks@[k],
        decreases n - b,
    {
        let m = func.blocks[b].instructions.len();
        let mut i: usize = 0;
        while i < m
            invariant
                n == h.blocks@.len(),
                b < n,
                func.name == h.name,
                func.return_ty == h.return_ty,
                func.params == h.params,
                func.values == h.values,
                func.entry_block == h.entry_block,
                func.value_counter == h.value_counter,
                entry == h.entry_block@,
                func.blocks@.len() == n,
                reach@.len() == n,
                fb.len() == n,
                forall|k: int| 0 <= k < fb.len() ==> #[trigger] reach@[k] == label_reachable(fb, entry, fb[k].label@),
                same_shape(fb, func.blocks@),
                forall|k: int| 0 <= k < b ==> block_pruned(h.blocks@[k], #[trigger] func.blocks@[k], fb, entry),
                forall|k: int| b < k < n ==> #[trigger] func.blocks@[k] == h.blocks@[k],
                m == h.blocks@[b as int].instructions@.len(),
                i <= m,
                func.blocks@[b as int].label == h.blocks@[b as int].label,
                func.blocks@[b as int].terminator == h.blocks@[b as int].terminator,
                func.blocks@[b as int].debug_locs == h.blocks@[b as int].debug_locs,
                func.blocks@[b as int].instructions@.len() == m,
                forall|q: int|
                    0 <= q < i ==> phi_pruned(
                        h.blocks@[b as int].instructions@[q],
                        #[trigger] func.blocks@[b as int].instructions@[q],
                        fb,
                        entry,
                    ),
                forall|q: int|
                    i <= q < m ==> #[trigger] func.blocks@[b as int].instructions@[q]
                        == h.blocks@[b as int].instructions@[q],
            decreases m - i,
        {
            let ghost before = func.blocks@;
            prune_phi(func, &reach, b, i, Ghost(fb));
            proof {
                assert forall|k: int| 0 <= k < fb.len() implies (#[trigger] fb[k]).label@ == func.blocks@[k].label@
                    && terminator_targets(fb[k].terminator) == terminator_targets(func.blocks@[k].terminator) by {
                    if k != b {
                        assert(func.blocks@[k] == before[k]);
                    }
                }
                assert forall|k: int| 0 <= k < b implies block_pruned(h.blocks@[k], #[trigger] func.blocks@[k], fb, entry) by {
                    assert(func.blocks@[k] == before[k]);
                }
                assert forall|k: int| b < k < n implies #[trigger] func.blocks@[k] == h.blocks@[k] by {
                    assert(func.blocks@[k] == before[k]);
                }
            }
            i = i + 1;
        }
        proof {
            assert(block_pruned(h.blocks@[b as int], func.blocks@[b as int], fb, entry));
        }
        b = b + 1;
    }
    let mut rest: Vec<BasicBlock> = Vec::new();
    std::mem::swap(&mut rest, &mut func.blocks);
    let ghost pruned = rest@;
    let mut out: Vec<BasicBlock> = Vec::new();
    let mut k: usize = 0;
    while rest.len() > 0
        invariant
            pruned.len() == n,
            n == h.blocks@.len(),
            reach@.len() == n,
            fb.len() == n,
            forall|q: int| 0 <= q < fb.len() ==> #[trigger] reach@[q] == label_reachable(fb, entry, fb[q].label@),
            same_shape(fb, pruned),
            forall|q: int| 0 <= q < n ==> block_pruned(h.blocks@[q], #[trigger] pruned[q], fb, entry),
            k + rest@.len() == n,
            rest@ == pruned.subrange(k as int, n as int),
            out@.len() <= k,
            reachable_blocks_kept(h.blocks@.subrange(0, k as int), out@, fb, entry),
        decreases rest.len(),
    {
        let blk = rest.remove(0);
        let ghost before = out@;
        proof {
            assert(blk == pruned[k as int]);
            let s = h.blocks@.subrange(0, k + 1);
            assert(s.drop_last() =~= h.blocks@.subrange(0, k as int));
            assert(s.last() == h.blocks@[k as int]);
            assert(h.blocks@[k as int].label@ == fb[k as int].label@);
        }
        if reach[k] {
            out.push(blk);
            proof {
                assert(out@.drop_last() =~= before);
            }
        }
        k = k + 1;
        proof {
            assert(rest@ =~= pruned.subrange(k as int, n as int));
        }
    }
    proof {
        assert(h.blocks@.subrange(0, k as int) =~= h.blocks@);
        lemma_kept_len(h.blocks@, out@, fb, entry);
    }
    let kept = out.len();
    func.blocks = out;
    proof {
        assert(exists|j: int| 0 <= j < flags@.len() && flags@[j]);
        assert(ids_compacted(f, h, unreachable_value_flags(f)));
    }
    n - kept
}


/// Some block branches to `l`.
pub open spec fn has_predecessor(blocks: Seq<BasicBlock>, l: Seq<char>) -> bool {
    exists|c: int| 0 <= c < blocks.len() && #[trigger] terminator_targets(blocks[c].terminator).contains(l)
}

/// `l` is among the skipped labels.
pub open spec fn label_skipped(skipped: Seq<String>, l: Seq<char>) -> bool {
    exists|k: int| 0 <= k < skipped.len() && #[trigger] skipped[k]@ == l
}

/// Block `i` holds nothing but a branch, something branches to it, and its
/// label is not skipped.
pub open spec fn merge_candidate(blocks: Seq<BasicBlock>, skipped: Seq<String>, i: int) -> bool {
    &&& 0 <= i < blocks.len()
    &&& !label_skipped(skipped, blocks[i].label@)
    &&& blocks[i].instructions@.len() == 0
    &&& blocks[i].terminator is Branch
    &&& has_predecessor(blocks, blocks[i].label@)
}

/// Block `i` is the first merge candidate.
pub open spec fn first_candidate(blocks: Seq<BasicBlock>, skipped: Seq<String>, i: int) -> bool {
    &&& merge_candidate(blocks, skipped, i)
    &&& forall|j: int| 0 <= j < i ==> !#[trigger] merge_candidate(blocks, skipped, j)
}

/// The label an unconditional branch goes to.
pub open spec fn branch_target(t: Terminator) -> Seq<char> {
    match t {
        Terminator::Branch { target } => target@,
        _ => Seq::empty(),
    }
}

/// The first block labelled `l` holds a phi.
pub open spec fn label_has_phi(blocks: Seq<BasicBlock>, l: Seq<char>) -> bool {
    match first_block_index(blocks, l) {
        Some(k) => exists|q: int|
            #![trigger blocks[k].instructions@[q]]
            0 <= q < blocks[k].instructions@.len() && blocks[k].instructions@[q] is Phi,
        None => false,
    }
}

/// `new` is `old` with every target `from` replaced by `to`.
pub open spec fn terminator_redirected(old: Terminator, new: Terminator, from: Seq<char>, to: Seq<char>) -> bool {
    match old {
        Terminator::Branch { target } => if target@ == from {
            new matches Terminator::Branch { target: t } && t@ == to
        } else {
            new == old
        },
        Terminator::CondBranch { condition, true_target, false_target } => new matches Terminator::CondBranch {
            condition: c,
            true_target: tt,
            false_target: ft,
        } && c == condition && (if true_target@ == from {
            tt@ == to
        } else {
            tt == true_target
        }) && (if false_target@ == from {
            ft@ == to
        } else {
            ft == false_target
        }),
        _ => new == old,
    }
}

/// Block `k` is the first of its label, and some block of that label
/// branches to `src`.
pub open spec fn redirects(blocks: Seq<BasicBlock>, k: int, src: Seq<char>) -> bool {
    first_block_index(blocks, blocks[k].label@) == Some(k) && is_predecessor(blocks, blocks[k].label@, src)
}

/// `new` is `old` with the branches to `src` of the first block of each
/// predecessor label sent to `dst` instead.
pub open spec fn preds_redirected(old: Seq<BasicBlock>, new: Seq<BasicBlock>, src: Seq<char>, dst: Seq<char>) -> bool {
    &&& new.len() == old.len()
    &&& forall|k: int|
        #![trigger new[k]]
        0 <= k < old.len() ==> if redirects(old, k, src) {
            &&& new[k].label == old[k].label
            &&& new[k].instructions == old[k].instructions
            &&& new[k].debug_locs == old[k].debug_locs
            &&& terminator_redirected(old[k].terminator, new[k].terminator, src, dst)
        } else {
            new[k] == old[k]
        }
}

/// `bs` without its blocks labelled `l`.
pub open spec fn blocks_without(bs: Seq<BasicBlock>, l: Seq<char>) -> Seq<BasicBlock>
    decreases bs.len(),
{
    if bs.len() == 0 {
        seq![]
    } else {
        blocks_without(bs.drop_last(), l) + if bs.last().label@ == l {
            seq![]
        } else {
            seq![bs.last()]
        }
    }
}

/// One step of merging from `blocks` with `skipped`: the first candidate
/// is bypassed and deleted, or skipped when its target starts with a phi.
pub open spec fn merge_step(blocks: Seq<BasicBlock>, skipped: Seq<String>, nb: Seq<BasicBlock>, ns: Seq<String>) -> bool {
    exists|i: int|
        #[trigger] first_candidate(blocks, skipped, i) && {
            let src = blocks[i].label@;
            let dst = branch_target(blocks[i].terminator);
            &&& dst != src
            &&& if label_has_phi(blocks, dst) {
                &&& nb == blocks
                &&& ns.len() == skipped.len() + 1
                &&& ns.drop_last() == skipped
                &&& ns.last()@ == src
            } else {
                &&& ns.len() == 0
                &&& exists|mid: Seq<BasicBlock>| #[trigger] preds_redirected(blocks, mid, src, dst) && nb == blocks_without(mid, src)
            }
        }
}

/// Merging stops: no candidate is left, or the first one branches to
/// itself.
pub open spec fn merge_done(blocks: Seq<BasicBlock>, skipped: Seq<String>) -> bool {
    ||| forall|i: int| !#[trigger] merge_candidate(blocks, skipped, i)
    ||| exists|i: int| #[trigger] first_candidate(blocks, skipped, i) && branch_target(blocks[i].terminator) == blocks[i].label@
}

/// From `(pb, ps)` after `pt` merges, one step leads to `(bs, skipped)`
/// after `total` merges.
pub open spec fn merge_transition(
    pb: Seq<BasicBlock>,
    ps: Seq<String>,
    pt: nat,
    bs: Seq<BasicBlock>,
    skipped: Seq<String>,
    total: nat,
) -> bool {
    &&& !merge_done(pb, ps)
    &&& merge_step(pb, ps, bs, skipped)
    &&& total == if skipped.len() == 0 {
        pt + 1
    } else {
        pt
    }
}

/// `n` merge steps lead from `b0`, nothing skipped, to `bs` with `skipped`;
/// `total` of them deleted a block.
pub open spec fn merge_rounds(b0: Seq<BasicBlock>, bs: Seq<BasicBlock>, skipped: Seq<String>, total: nat, n: nat) -> bool
    decreases n,
{
    if n == 0 {
        bs == b0 && skipped.len() == 0 && total == 0
    } else {
        exists|pb: Seq<BasicBlock>, ps: Seq<String>, pt: nat|
            merge_rounds(b0, pb, ps, pt, (n - 1) as nat) && #[trigger] merge_transition(pb, ps, pt, bs, skipped, total)
    }
}

/// `bs` is `b0` after merging until it stops, with `total` merges.
pub open spec fn trivial_blocks_merged(b0: Seq<BasicBlock>, bs: Seq<BasicBlock>, total: nat) -> bool {
    exists|n: nat, skipped: Seq<String>| #[trigger] merge_rounds(b0, bs, skipped, total, n) && merge_done(bs, skipped)
}

/// `term` with every target `from` replaced by `to`.
fn redirect_branch(term: Terminator, from: &String, to: &String) -> (r: Terminator)
    ensures
        terminator_redirected(term, r, from@, to@),
{
    match term {
        Terminator::Branch { target } => {
            if target == *from {
                Terminator::Branch { target: to.clone() }
            } else {
                Terminator::Branch { target }
            }
        },
        Terminator::CondBranch { condition, true_target, false_target } => {
            let t = if true_target == *from {
                to.clone()
            } else {
                true_target
            };
            let f = if false_target == *from {
                to.clone()
            } else {
                false_target
            };
            Terminator::CondBranch { condition, true_target: t, false_target: f }
        },
        other => other,
    }
}

/// Whether the first block labelled `label` holds a phi.
fn block_has_phi(func: &IrFunction, label: &String) -> (r: bool)
    ensures
        r == label_has_phi(func.blocks@, label@),
{
    match func.block_index(label.as_str()) {
        Some(k) => {
            let instrs = &func.blocks[k].instructions;
            let mut q: usize = 0;
            while q < instrs.len()
                invariant
                    k < func.blocks@.len(),
                    first_block_index(func.blocks@, label@) == Some(k as int),
                    *instrs == func.blocks@[k as int].instructions,
                    q <= instrs@.len(),
                    forall|p: int| #![trigger instrs@[p]] 0 <= p < q ==> !(instrs@[p] is Phi),
                decreases instrs.len() - q,
            {
                if let Instruction::Phi { .. } = &instrs[q] {
                    proof {
                        assert(func.blocks@[k as int].instructions@[q as int] is Phi);
                    }
                    return true;
                }
                q = q + 1;
            }
            false
        },
        None => false,
    }
}

/// Whether `l` is among the skipped labels.
fn is_skipped(skipped: &Vec<String>, l: &String) -> (r: bool)
    ensures
        r == label_skipped(skipped@, l@),
{
    let mut k: usize = 0;
    while k < skipped.len()
        invariant
            k <= skipped@.len(),
            forall|p: int| 0 <= p < k ==> skipped@[p]@ != l@,
        decreases skipped.len() - k,
    {
        if skipped[k] == *l {
            return true;
        }
        k = k + 1;
    }
    false
}

/// Whether some block branches to `l`.
fn has_predecessor_exec(func: &IrFunction, l: &String) -> (r: bool)
    ensures
        r == has_predecessor(func.blocks@, l@),
{
    let mut c: usize = 0;
    while c < func.blocks.len()
        invariant
            c <= func.blocks@.len(),
            forall|d: int| 0 <= d < c ==> !terminator_targets(func.blocks@[d].terminator).contains(l@),
        decreases func.blocks.len() - c,
    {
        if targets_contain(&func.blocks[c].terminator, l) {
            return true;
        }
        c = c + 1;
    }
    false
}

/// The first merge candidate and the label it branches to.
fn find_trivial_branch_block(func: &IrFunction, skipped: &Vec<String>) -> (r: Option<(usize, String)>)
    ensures
        match r {
            Some((i, t)) => first_candidate(func.blocks@, skipped@, i as int) && t@ == branch_target(
                func.blocks@[i as int].terminator,
            ),
            None => forall|i: int| !#[trigger] merge_candidate(func.blocks@, skipped@, i),
        },
{
    let mut i: usize = 0;
    while i < func.blocks.len()
        invariant
            i <= func.blocks@.len(),
            forall|j: int| 0 <= j < i ==> !#[trigger] merge_candidate(func.blocks@, skipped@, j),
        decreases func.blocks.len() - i,
    {
        let block = &func.blocks[i];
        if !is_skipped(skipped, &block.label) && block.instructions.len() == 0 {
            if let Terminator::Branch { target } = &block.terminator {
                if has_predecessor_exec(func, &block.label) {
                    return Some((i, target.clone()));
                }
            }
        }
        i = i + 1;
    }
    None
}


/// `g` differs from `f` at most in its blocks.
pub open spec fn same_but_blocks(f: IrFunction, g: IrFunction) -> bool {
    &&& g.name == f.name
    &&& g.return_ty == f.return_ty
    &&& g.params == f.params
    &&& g.values == f.values
    &&& g.entry_block == f.entry_block
    &&& g.value_counter == f.value_counter
}

/// Send the branches to `src` of the first block of each predecessor label
/// to `dst`.
fn redirect_all_predecessors(func: &mut IrFunction, src: &String, dst: &String)
    ensures
        preds_redirected(old(func).blocks@, final(func).blocks@, src@, dst@),
        same_but_blocks(*old(func), *final(func)),
{
    let ghost b0 = func.blocks@;
    let n = func.blocks.len();
    let mut flags: Vec<bool> = Vec::new();
    let mut k: usize = 0;
    while k < n
        invariant
            n == b0.len(),
            func.blocks@ == b0,
            k <= n,
            flags@.len() == k,
            forall|q: int| 0 <= q < k ==> #[trigger] flags@[q] == redirects(b0, q, src@),
        decreases n - k,
    {
        let label = &func.blocks[k].label;
        let first = match func.block_index(label.as_str()) {
            Some(j) => j == k,
            None => false,
        };
        let r = first && func.has_predecessor(label, src);
        flags.push(r);
        k = k + 1;
    }
    let mut k: usize = 0;
    while k < n
        invariant
            n == b0.len(),
            func.blocks@.len() == n,
            same_but_blocks(*old(func), *func),
            b0 == old(func).blocks@,
            flags@.len() == n,
            forall|q: int| 0 <= q < n ==> #[trigger] flags@[q] == redirects(b0, q, src@),
            k <= n,
            forall|q: int|
                #![trigger func.blocks@[q]]
                0 <= q < k ==> if redirects(b0, q, src@) {
                    &&& func.blocks@[q].label == b0[q].label
                    &&& func.blocks@[q].instructions == b0[q].instructions
                    &&& func.blocks@[q].debug_locs == b0[q].debug_locs
                    &&& terminator_redirected(b0[q].terminator, func.blocks@[q].terminator, src@, dst@)
                } else {
                    func.blocks@[q] == b0[q]
                },
            forall|q: int| k <= q < n ==> #[trigger] func.blocks@[q] == b0[q],
        decreases n - k,
    {
        if flags[k] {
            let ghost before = func.blocks@;
            let mut t = Terminator::Unreachable;
            std::mem::swap(&mut t, &mut func.blocks[k].terminator);
            let mut t2 = redirect_branch(t, src, dst);
            std::mem::swap(&mut t2, &mut func.blocks[k].terminator);
            proof {
                assert forall|q: int| 0 <= q < n && q != k implies #[trigger] func.blocks@[q] == before[q] by {}
            }
        }
        k = k + 1;
    }
}

proof fn lemma_blocks_without_len(bs: Seq<BasicBlock>, l: Seq<char>)
    ensures
        blocks_without(bs, l).len() <= bs.len(),
        (exists|k: int| 0 <= k < bs.len() && #[trigger] bs[k].label@ == l) ==> blocks_without(bs, l).len() < bs.len(),
    decreases bs.len(),
{
    if bs.len() > 0 {
        lemma_blocks_without_len(bs.drop_last(), l);
        if exists|k: int| 0 <= k < bs.len() && #[trigger] bs[k].label@ == l {
            let k = choose|k: int| 0 <= k < bs.len() && #[trigger] bs[k].label@ == l;
            if k < bs.len() - 1 {
                assert(bs.drop_last()[k].label@ == l);
            }
        }
    }
}

/// Delete the blocks labelled `l`.
fn remove_label_blocks(func: &mut IrFunction, l: &String)
    ensures
        final(func).blocks@ == blocks_without(old(func).blocks@, l@),
        same_but_blocks(*old(func), *final(func)),
{
    let mut rest: Vec<BasicBlock> = Vec::new();
    std::mem::swap(&mut rest, &mut func.blocks);
    let ghost all = rest@;
    let n = rest.len();
    let mut out: Vec<BasicBlock> = Vec::new();
    let mut k: usize = 0;
    while rest.len() > 0
        invariant
            all.len() == n,
            k + rest@.len() == n,
            rest@ == all.subrange(k as int, n as int),
            out@ == blocks_without(all.subrange(0, k as int), l@),
        decreases rest.len(),
    {
        let blk = rest.remove(0);
        proof {
            assert(blk == all[k as int]);
            let s = all.subrange(0, k + 1);
            assert(s.drop_last() =~= all.subrange(0, k as int));
            assert(s.last() == blk);
        }
        if blk.label != *l {
            out.push(blk);
        }
        k = k + 1;
        proof {
            assert(rest@ =~= all.subrange(k as int, n as int));
            assert(out@ =~= blocks_without(all.subrange(0, k as int), l@));
        }
    }
    proof {
        assert(all.subrange(0, k as int) =~= all);
    }
    func.blocks = out;
}


/// How many blocks of `bs` carry a label that is not skipped.
pub open spec fn count_unskipped(bs: Seq<BasicBlock>, skipped: Seq<String>) -> nat
    decreases bs.len(),
{
    if bs.len() == 0 {
        0
    } else {
        count_unskipped(bs.drop_last(), skipped) + if label_skipped(skipped, bs.last().label@) {
            0nat
        } else {
            1nat
        }
    }
}

/// Skipping one more label, carried by a block, leaves fewer blocks
/// unskipped.
proof fn lemma_count_unskipped_push(bs: Seq<BasicBlock>, skipped: Seq<String>, s: String)
    ensures
        count_unskipped(bs, skipped.push(s)) <= count_unskipped(bs, skipped),
        (exists|k: int| 0 <= k < bs.len() && #[trigger] bs[k].label@ == s@) && !label_skipped(skipped, s@)
            ==> count_unskipped(bs, skipped.push(s)) < count_unskipped(bs, skipped),
    decreases bs.len(),
{
    let s2 = skipped.push(s);
    assert forall|l: Seq<char>| label_skipped(skipped, l) implies #[trigger] label_skipped(s2, l) by {
        let k = choose|k: int| 0 <= k < skipped.len() && #[trigger] skipped[k]@ == l;
        assert(s2[k] == skipped[k]);
    }
    assert(s2[skipped.len() as int] == s);
    assert(label_skipped(s2, s@));
    if bs.len() > 0 {
        lemma_count_unskipped_push(bs.drop_last(), skipped, s);
        if exists|k: int| 0 <= k < bs.len() && #[trigger] bs[k].label@ == s@ {
            let k = choose|k: int| 0 <= k < bs.len() && #[trigger] bs[k].label@ == s@;
            if k < bs.len() - 1 {
                assert(bs.drop_last()[k].label@ == s@);
            }
        }
    }
}

proof fn lemma_first_candidate_unique(blocks: Seq<BasicBlock>, skipped: Seq<String>, i: int, j: int)
    requires
        first_candidate(blocks, skipped, i),
        first_candidate(blocks, skipped, j),
    ensures
        i == j,
{
    if i < j {
        assert(!merge_candidate(blocks, skipped, i));
    }
    if j < i {
        assert(!merge_candidate(blocks, skipped, j));
    }
}

proof fn lemma_merge_rounds_next(
    b0: Seq<BasicBlock>,
    pb: Seq<BasicBlock>,
    ps: Seq<String>,
    pt: nat,
    n: nat,
    bs: Seq<BasicBlock>,
    skipped: Seq<String>,
    total: nat,
)
    requires
        merge_rounds(b0, pb, ps, pt, n),
        merge_transition(pb, ps, pt, bs, skipped, total),
    ensures
        merge_rounds(b0, bs, skipped, total, n + 1),
{
}

/// Bypass and delete blocks that only branch on, until none is left to
/// bypass; returns how many were bypassed.
fn merge_trivial_blocks(func: &mut IrFunction) -> (total: usize)
    ensures
        trivial_blocks_merged(old(func).blocks@, final(func).blocks@, total as nat),
        final(func).blocks@.len() + total <= old(func).blocks@.len(),
        same_but_blocks(*old(func), *final(func)),
{
    let ghost b0 = func.blocks@;
    let n0 = func.blocks.len();
    let mut total: usize = 0;
    let mut skipped: Vec<String> = Vec::new();
    let ghost mut n: nat = 0;
    proof {
        assert(merge_rounds(b0, func.blocks@, skipped@, 0, 0));
    }
    loop
        invariant
            b0 == old(func).blocks@,
            n0 == b0.len(),
            merge_rounds(b0, func.blocks@, skipped@, total as nat, n),
            func.blocks@.len() + total <= b0.len(),
            same_but_blocks(*old(func), *func),
        decreases func.blocks@.len(), count_unskipped(func.blocks@, skipped@),
    {
        let candidate = find_trivial_branch_block(func, &skipped);
        match candidate {
            None => {
                proof {
                    assert(merge_done(func.blocks@, skipped@));
                }
                return total;
            },
            Some((i, dst)) => {
                let src = func.blocks[i].label.clone();
                if src == dst {
                    proof {
                        assert(merge_done(func.blocks@, skipped@));
                    }
                    return total;
                }
                let ghost pb = func.blocks@;
                let ghost ps = skipped@;
                let ghost pt = total as nat;
                proof {
                    if merge_done(pb, ps) {
                        if exists|j: int| #[trigger] first_candidate(pb, ps, j) && branch_target(pb[j].terminator) == pb[j].label@ {
                            let j = choose|j: int| #[trigger] first_candidate(pb, ps, j) && branch_target(pb[j].terminator) == pb[j].label@;
                            lemma_first_candidate_unique(pb, ps, i as int, j);
                        } else {
                            assert(merge_candidate(pb, ps, i as int));
                        }
                    }
                    assert(!merge_done(pb, ps));
                    assert(merge_rounds(b0, pb, ps, pt, n));
                }
                if block_has_phi(func, &dst) {
                    skipped.push(src);
                    proof {
                        assert(skipped@.drop_last() =~= ps);
                        assert(merge_step(pb, ps, func.blocks@, skipped@));
                        lemma_count_unskipped_push(pb, ps, skipped@.last());
                        assert(pb[i as int].label@ == skipped@.last()@);
                        assert(skipped@ == ps.push(skipped@.last()));
                        n = n + 1;
                        lemma_merge_rounds_next(b0, pb, ps, pt, (n - 1) as nat, func.blocks@, skipped@, total as nat);
                    }
                } else {
                    redirect_all_predecessors(func, &src, &dst);
                    let ghost mid = func.blocks@;
                    remove_label_blocks(func, &src);
                    proof {
                        assert(mid[i as int].label@ == src@);
                        lemma_blocks_without_len(mid, src@);
                    }
                    total = total + 1;
                    skipped = Vec::new();
                    proof {
                        assert(preds_redirected(pb, mid, src@, dst@));
                        assert(merge_step(pb, ps, func.blocks@, skipped@));
                        n = n + 1;
                        lemma_merge_rounds_next(b0, pb, ps, pt, (n - 1) as nat, func.blocks@, skipped@, total as nat);
                    }
                }
            },
        }
    }
}


/// One round: the unreachable blocks are removed (`removed` blocks), then
/// trivial blocks merged (`merged` merges).
pub open spec fn simplify_round(f: IrFunction, g: IrFunction, removed: nat, merged: nat) -> bool {
    exists|h: IrFunction|
        #[trigger] unreachable_removed(f, h) && removed == f.blocks@.len() - h.blocks@.len() && same_but_blocks(h, g)
            && trivial_blocks_merged(h.blocks@, g.blocks@, merged)
}

/// A round from `f` to `g` changed something, bringing the count from `t`
/// to `total`.
pub open spec fn simplify_round_changed(f: IrFunction, g: IrFunction, t: nat, total: nat) -> bool {
    exists|r: nat, m: nat| #[trigger] simplify_round(f, g, r, m) && r + m > 0 && total == t + r + m
}

/// `n` rounds that each changed something lead from `f` to `g`, `total`
/// blocks removed or merged in all.
pub open spec fn simplify_rounds(f: IrFunction, g: IrFunction, total: nat, n: nat) -> bool
    decreases n,
{
    if n == 0 {
        g == f && total == 0
    } else {
        exists|h: IrFunction, t: nat|
            simplify_rounds(f, h, t, (n - 1) as nat) && #[trigger] simplify_round_changed(h, g, t, total)
    }
}

/// `g` is `f` after rounds of simplification until a round changes
/// nothing; `total` blocks were removed or merged.
pub open spec fn cfg_simplified(f: IrFunction, g: IrFunction, total: nat) -> bool {
    exists|n: nat, h: IrFunction| #[trigger] simplify_rounds(f, h, total, n) && simplify_round(h, g, 0, 0)
}

/// `g` is `f` simplified, whatever the count.
pub open spec fn function_simplified(f: IrFunction, g: IrFunction) -> bool {
    exists|t: nat| #[trigger] cfg_simplified(f, g, t)
}

proof fn lemma_simplify_rounds_next(f: IrFunction, h: IrFunction, t: nat, n: nat, g: IrFunction, total: nat)
    requires
        simplify_rounds(f, h, t, n),
        simplify_round_changed(h, g, t, total),
    ensures
        simplify_rounds(f, g, total, n + 1),
{
}

/// Simplify until a round changes nothing; returns how many blocks were
/// removed or merged.
fn simplify_function(func: &mut IrFunction) -> (total: usize)
    ensures
        cfg_simplified(*old(func), *final(func), total as nat),
{
    let ghost f0 = *func;
    let n0 = func.blocks.len();
    let mut total: usize = 0;
    let ghost mut n: nat = 0;
    loop
        invariant
            f0 == *old(func),
            n0 == f0.blocks@.len(),
            simplify_rounds(f0, *func, total as nat, n),
            func.blocks@.len() + total <= n0,
        decreases func.blocks@.len(),
    {
        let ghost before = *func;
        let removed = remove_unreachable_blocks(func);
        let ghost mid = *func;
        let merged = merge_trivial_blocks(func);
        proof {
            assert(simplify_round(before, *func, removed as nat, merged as nat));
        }
        if removed == 0 && merged == 0 {
            proof {
                assert(simplify_rounds(f0, before, total as nat, n));
            }
            return total;
        }
        let ghost t = total as nat;
        total = total + removed + merged;
        proof {
            assert(simplify_round_changed(before, *func, t, total as nat));
            lemma_simplify_rounds_next(f0, before, t, n, *func, total as nat);
            n = n + 1;
        }
    }
}

/// The cfg-simplify pass.
pub struct CfgSimplify;

impl OptimizationPass for CfgSimplify {
    /// Each function is simplified; the entry and the static data are kept.
    open spec fn transforms(&self, before: IrModule, after: IrModule) -> bool {
        &&& after.functions@.len() == before.functions@.len()
        &&& forall|i: int|
            0 <= i < before.functions@.len() ==> function_simplified(
                before.functions@[i],
                #[trigger] after.functions@[i],
            )
        &&& after.entry == before.entry
        &&& after.static_data == before.static_data
    }

    fn name(&self) -> &str {
        "cfg-simplify"
    }

    fn run(&mut self, module: &mut IrModule)
        ensures
            final(module).functions@.len() == old(module).functions@.len(),
            forall|i: int|
                0 <= i < old(module).functions@.len() ==> function_simplified(
                    old(module).functions@[i],
                    #[trigger] final(module).functions@[i],
                ),
            final(module).entry == old(module).entry,
            final(module).static_data == old(module).static_data,
    {
        let mut i: usize = 0;
        while i < module.functions.len()
            invariant
                i <= module.functions@.len(),
                module.functions@.len() == old(module).functions@.len(),
                module.entry == old(module).entry,
                module.static_data == old(module).static_data,
                forall|k: int|
                    0 <= k < i ==> function_simplified(old(module).functions@[k], #[trigger] module.functions@[k]),
                forall|k: int| i <= k < module.functions@.len() ==> #[trigger] module.functions@[k] == old(module).functions@[k],
            decreases module.functions.len() - i,
        {
            let t = simplify_function(&mut module.functions[i]);
            proof {
                assert(cfg_simplified(old(module).functions@[i as int], module.functions@[i as int], t as nat));
                assert(function_simplified(old(module).functions@[i as int], module.functions@[i as int]));
            }
            i = i + 1;
        }
    }
}


proof fn lemma_flag_block(bs: Seq<BasicBlock>, all: Seq<BasicBlock>, entry: Seq<char>, j: int)
    requires
        0 <= j < unreachable_value_flags_in(bs, all, entry).len(),
        unreachable_value_flags_in(bs, all, entry)[j],
    ensures
        exists|k: int| 0 <= k < bs.len() && !label_reachable(all, entry, #[trigger] bs[k].label@),
    decreases bs.len(),
{
    let prev = unreachable_value_flags_in(bs.drop_last(), all, entry);
    if j < prev.len() {
        lemma_flag_block(bs.drop_last(), all, entry, j);
        let k = choose|k: int| 0 <= k < bs.drop_last().len() && !label_reachable(all, entry, #[trigger] bs.drop_last()[k].label@);
        assert(bs[k] == bs.drop_last()[k]);
    } else {
        assert(!label_reachable(all, entry, bs[bs.len() - 1].label@));
    }
}

proof fn lemma_kept_drops(old: Seq<BasicBlock>, new: Seq<BasicBlock>, blocks: Seq<BasicBlock>, entry: Seq<char>, k: int)
    requires
        reachable_blocks_kept(old, new, blocks, entry),
        0 <= k < old.len(),
        !label_reachable(blocks, entry, old[k].label@),
    ensures
        new.len() < old.len(),
    decreases old.len(),
{
    if label_reachable(blocks, entry, old.last().label@) {
        assert(k < old.len() - 1);
        assert(old.drop_last()[k] == old[k]);
        lemma_kept_drops(old.drop_last(), new.drop_last(), blocks, entry, k);
    } else {
        lemma_kept_len(old.drop_last(), new, blocks, entry);
    }
}

/// Removing unreachable blocks without deleting one changes nothing, and
/// then no unreachable block defines a value.
proof fn lemma_removed_nothing(f: IrFunction, g: IrFunction)
    requires
        unreachable_removed(f, g),
        g.blocks@.len() == f.blocks@.len(),
    ensures
        g == f,
        forall|j: int| 0 <= j < unreachable_value_flags(f).len() ==> !#[trigger] unreachable_value_flags(f)[j],
{
    let flags = unreachable_value_flags(f);
    if exists|j: int| 0 <= j < flags.len() && #[trigger] flags[j] {
        let j = choose|j: int| 0 <= j < flags.len() && #[trigger] flags[j];
        let p = f.params@.len() as int;
        let tail = unreachable_value_flags_in(f.blocks@, f.blocks@, f.entry_block@);
        assert(j >= p);
        assert(tail[j - p] == flags[j]);
        lemma_flag_block(f.blocks@, f.blocks@, f.entry_block@, j - p);
        let k = choose|k: int|
            0 <= k < f.blocks@.len() && !label_reachable(f.blocks@, f.entry_block@, #[trigger] f.blocks@[k].label@);
        let h = choose|h: IrFunction|
            #[trigger] ids_compacted(f, h, flags) && g.name == h.name && g.return_ty == h.return_ty && g.params
                == h.params && g.values == h.values && g.entry_block == h.entry_block && g.value_counter
                == h.value_counter && reachable_blocks_kept(h.blocks@, g.blocks@, f.blocks@, f.entry_block@);
        assert(h.blocks@[k].label == f.blocks@[k].label);
        lemma_kept_drops(h.blocks@, g.blocks@, f.blocks@, f.entry_block@, k);
    }
}

/// Merging that deletes nothing leaves the blocks as they were.
proof fn lemma_no_merges(b0: Seq<BasicBlock>, bs: Seq<BasicBlock>, skipped: Seq<String>, n: nat)
    requires
        merge_rounds(b0, bs, skipped, 0, n),
    ensures
        bs == b0,
    decreases n,
{
    if n > 0 {
        let (pb, ps, pt) = choose|pb: Seq<BasicBlock>, ps: Seq<String>, pt: nat|
            merge_rounds(b0, pb, ps, pt, (n - 1) as nat) && #[trigger] merge_transition(pb, ps, pt, bs, skipped, 0);
        assert(skipped.len() != 0);
        let i = choose|i: int|
            #[trigger] first_candidate(pb, ps, i) && {
                let src = pb[i].label@;
                let dst = branch_target(pb[i].terminator);
                &&& dst != src
                &&& if label_has_phi(pb, dst) {
                    &&& bs == pb
                    &&& skipped.len() == ps.len() + 1
                    &&& skipped.drop_last() == ps
                    &&& skipped.last()@ == src
                } else {
                    &&& skipped.len() == 0
                    &&& exists|mid: Seq<BasicBlock>| #[trigger] preds_redirected(pb, mid, src, dst) && bs == blocks_without(mid, src)
                }
            };
        lemma_no_merges(b0, pb, ps, (n - 1) as nat);
    }
}

/// After simplification, no block unreachable from the entry defines a
/// value: each such block has been deleted with its values.
pub proof fn lemma_simplified_no_unreachable_values(f: IrFunction, g: IrFunction)
    requires
        function_simplified(f, g),
    ensures
        forall|j: int| 0 <= j < unreachable_value_flags(g).len() ==> !#[trigger] unreachable_value_flags(g)[j],
{
    let t = choose|t: nat| #[trigger] cfg_simplified(f, g, t);
    let (n, h) = choose|n: nat, h: IrFunction| #[trigger] simplify_rounds(f, h, t, n) && simplify_round(h, g, 0, 0);
    let h2 = choose|h2: IrFunction|
        #[trigger] unreachable_removed(h, h2) && 0 == h.blocks@.len() - h2.blocks@.len() && same_but_blocks(h2, g)
            && trivial_blocks_merged(h2.blocks@, g.blocks@, 0);
    lemma_removed_nothing(h, h2);
    let (m, sk) = choose|m: nat, sk: Seq<String>| #[trigger] merge_rounds(h2.blocks@, g.blocks@, sk, 0, m) && merge_done(g.blocks@, sk);
    lemma_no_merges(h2.blocks@, g.blocks@, sk, m);
    assert(unreachable_value_flags(g) == unreachable_value_flags(h));
}

} // verus!
