//! Structural validation of SAIR functions and modules: entry block first,
//! every branch target defined, phi operands named after real predecessors,
//! and every block reachable from the entry block.

use vstd::prelude::*;

use crate::ir::block::BasicBlock;
use crate::ir::function::{first_block_index, lemma_first_block_index, IrFunction};
use crate::ir::instruction::{terminator_targets, Instruction, Terminator};
use crate::ir::module::{last_function_index, IrModule};
use crate::ir::value::ValueId;
use crate::strings::{owned, push_str};

verus! {

/// Whether some block carries `label`.
pub open spec fn has_block(blocks: Seq<BasicBlock>, label: Seq<char>) -> bool {
    exists|i: int| 0 <= i < blocks.len() && #[trigger] blocks[i].label@ == label
}

/// The labels control may pass to from `label`: the terminator targets of
/// the first block carrying it.
pub open spec fn successors_of(blocks: Seq<BasicBlock>, label: Seq<char>) -> Seq<Seq<char>> {
    match first_block_index(blocks, label) {
        Some(i) => terminator_targets(blocks[i].terminator),
        None => seq![],
    }
}

/// `p` is a control-flow path that starts at `entry`.
pub open spec fn is_cfg_path(blocks: Seq<BasicBlock>, entry: Seq<char>, p: Seq<Seq<char>>) -> bool {
    &&& p.len() > 0
    &&& p[0] == entry
    &&& forall|k: int| 0 <= k < p.len() - 1 ==> (#[trigger] successors_of(blocks, p[k])).contains(p[k + 1])
}

/// Some control-flow path from `entry` ends at `label`.
#[verifier::opaque]
pub open spec fn reachable_from(blocks: Seq<BasicBlock>, entry: Seq<char>, label: Seq<char>) -> bool {
    exists|p: Seq<Seq<char>>| #[trigger] is_cfg_path(blocks, entry, p) && p.last() == label
}

/// Every terminator target names a block.
pub open spec fn targets_defined(blocks: Seq<BasicBlock>) -> bool {
    forall|i: int, k: int|
        0 <= i < blocks.len() && 0 <= k < terminator_targets(blocks[i].terminator).len() ==> has_block(
            blocks,
            #[trigger] terminator_targets(blocks[i].terminator)[k],
        )
}

/// Some block labelled `pred` may pass control to `label`.
pub open spec fn is_predecessor(blocks: Seq<BasicBlock>, pred: Seq<char>, label: Seq<char>) -> bool {
    exists|c: int|
        0 <= c < blocks.len() && #[trigger] blocks[c].label@ == pred && terminator_targets(
            blocks[c].terminator,
        ).contains(label)
}

/// Instruction `instr` of a block labelled `label` is no phi, or each of
/// its operands comes from a predecessor of that block.
pub open spec fn phi_operands_ok(blocks: Seq<BasicBlock>, instr: Instruction, label: Seq<char>) -> bool {
    match instr {
        Instruction::Phi { incoming, .. } => operands_from_predecessors(blocks, incoming@, label),
        _ => true,
    }
}

/// Each phi operand comes from a predecessor of the block labelled `label`.
pub open spec fn operands_from_predecessors(
    blocks: Seq<BasicBlock>,
    incoming: Seq<(ValueId, String)>,
    label: Seq<char>,
) -> bool {
    forall|k: int| 0 <= k < incoming.len() ==> is_predecessor(blocks, #[trigger] incoming[k].1@, label)
}

/// Every phi operand comes from a predecessor of the phi's block.
pub open spec fn phi_operands_from_predecessors(blocks: Seq<BasicBlock>) -> bool {
    forall|b: int, i: int|
        0 <= b < blocks.len() && 0 <= i < blocks[b].instructions@.len() ==> phi_operands_ok(
            blocks,
            #[trigger] blocks[b].instructions@[i],
            blocks[b].label@,
        )
}

/// Every block is reachable from `entry`.
pub open spec fn all_blocks_reachable(blocks: Seq<BasicBlock>, entry: Seq<char>) -> bool {
    forall|b: int| 0 <= b < blocks.len() ==> reachable_from(blocks, entry, #[trigger] blocks[b].label@)
}

/// The structural rules a SAIR function obeys.
pub open spec fn function_is_valid(f: IrFunction) -> bool {
    let blocks = f.blocks@;
    &&& blocks.len() > 0
    &&& blocks[0].label@ == f.entry_block@
    &&& targets_defined(blocks)
    &&& phi_operands_from_predecessors(blocks)
    &&& all_blocks_reachable(blocks, f.entry_block@)
}

/// The structural rules a SAIR module obeys: its entry function exists and
/// every function is valid.
pub open spec fn module_is_valid(m: IrModule) -> bool {
    &&& last_function_index(m.functions@, m.entry@).is_some()
    &&& forall|i: int| 0 <= i < m.functions@.len() ==> function_is_valid(#[trigger] m.functions@[i])
}

/// The number of `true` marks in `s`.
pub open spec fn count_marked(s: Seq<bool>) -> nat
    decreases s.len(),
{
    if s.len() == 0 {
        0
    } else {
        count_marked(s.drop_last()) + if s.last() {
            1nat
        } else {
            0nat
        }
    }
}

pub proof fn lemma_count_marked_bound(s: Seq<bool>)
    ensures
        count_marked(s) <= s.len(),
    decreases s.len(),
{
    if s.len() > 0 {
        lemma_count_marked_bound(s.drop_last());
    }
}

pub proof fn lemma_count_marked_set(s: Seq<bool>, j: int)
    requires
        0 <= j < s.len(),
        !s[j],
    ensures
        count_marked(s.update(j, true)) == count_marked(s) + 1,
    decreases s.len(),
{
    let t = s.update(j, true);
    if j == s.len() - 1 {
        assert(t.drop_last() =~= s.drop_last());
    } else {
        assert(t.drop_last() =~= s.drop_last().update(j, true));
        lemma_count_marked_set(s.drop_last(), j);
    }
}

pub proof fn lemma_first_index_of_label(blocks: Seq<BasicBlock>, i: int)
    requires
        0 <= i < blocks.len(),
        forall|j: int| 0 <= j < i ==> blocks[j].label@ != blocks[i].label@,
    ensures
        first_block_index(blocks, blocks[i].label@) == Some(i),
{
    reveal(first_block_index);
    let l = blocks[i].label@;
    assert(blocks[i].label@ == l);
    let k = choose|k: int|
        0 <= k < blocks.len() && #[trigger] blocks[k].label@ == l && forall|j: int|
            0 <= j < k ==> blocks[j].label@ != l;
    if k < i {
    } else if k > i {
    }
}

pub proof fn lemma_has_block_first(blocks: Seq<BasicBlock>, label: Seq<char>)
    requires
        has_block(blocks, label),
    ensures
        first_block_index(blocks, label) matches Some(i) && 0 <= i < blocks.len() && blocks[i].label@ == label
            && forall|j: int| 0 <= j < i ==> blocks[j].label@ != label,
{
    reveal(first_block_index);
    let i = choose|i: int| 0 <= i < blocks.len() && #[trigger] blocks[i].label@ == label;
    lemma_first_block_index(blocks, label);
}

/// Every marked block is the first block of its label.
pub open spec fn marks_first(blocks: Seq<BasicBlock>, marks: Seq<bool>) -> bool {
    forall|i: int| 0 <= i < marks.len() && #[trigger] marks[i] ==> first_block_index(blocks, blocks[i].label@) == Some(i)
}

/// Every marked block's label is reachable from `entry`.
pub open spec fn marks_reachable(blocks: Seq<BasicBlock>, entry: Seq<char>, marks: Seq<bool>) -> bool {
    forall|i: int| 0 <= i < marks.len() && #[trigger] marks[i] ==> reachable_from(blocks, entry, blocks[i].label@)
}

/// The successors of marked block `i` are marked.
pub open spec fn successors_marked(blocks: Seq<BasicBlock>, marks: Seq<bool>, i: int) -> bool {
    forall|t: int|
        0 <= t < terminator_targets(blocks[i].terminator).len() ==> marks[first_block_index(
            blocks,
            #[trigger] terminator_targets(blocks[i].terminator)[t],
        )->0]
}

/// The marks are closed under successors.
pub open spec fn marks_closed(blocks: Seq<BasicBlock>, marks: Seq<bool>) -> bool {
    forall|i: int| 0 <= i < marks.len() && #[trigger] marks[i] ==> successors_marked(blocks, marks, i)
}

proof fn lemma_reach_extend(blocks: Seq<BasicBlock>, entry: Seq<char>, i: int, target: Seq<char>)
    requires
        0 <= i < blocks.len(),
        first_block_index(blocks, blocks[i].label@) == Some(i),
        reachable_from(blocks, entry, blocks[i].label@),
        terminator_targets(blocks[i].terminator).contains(target),
    ensures
        reachable_from(blocks, entry, target),
{
    reveal(reachable_from);
    let li = blocks[i].label@;
    let p = choose|p: Seq<Seq<char>>| #[trigger] is_cfg_path(blocks, entry, p) && p.last() == li;
    let p2 = p.push(target);
    assert(successors_of(blocks, li) == terminator_targets(blocks[i].terminator));
    assert forall|k: int| 0 <= k < p2.len() - 1 implies (#[trigger] successors_of(blocks, p2[k])).contains(
        p2[k + 1],
    ) by {
        if k < p.len() - 1 {
            assert(p2[k] == p[k] && p2[k + 1] == p[k + 1]);
        } else {
            assert(p2[k] == li);
        }
    }
    assert(is_cfg_path(blocks, entry, p2));
}

/// Marks closed under successors that include the entry block cover every
/// label on every path from the entry.
proof fn lemma_path_marked(
    blocks: Seq<BasicBlock>,
    entry: Seq<char>,
    marks: Seq<bool>,
    p: Seq<Seq<char>>,
    k: int,
)
    requires
        marks.len() == blocks.len(),
        blocks.len() > 0,
        blocks[0].label@ == entry,
        marks[0],
        targets_defined(blocks),
        marks_closed(blocks, marks),
        marks_first(blocks, marks),
        is_cfg_path(blocks, entry, p),
        0 <= k < p.len(),
    ensures
        has_block(blocks, p[k]),
        marks[first_block_index(blocks, p[k])->0],
    decreases k,
{
    if k == 0 {
        lemma_first_index_of_label(blocks, 0);
        assert(blocks[0].label@ == p[0]);
    } else {
        lemma_path_marked(blocks, entry, marks, p, k - 1);
        lemma_has_block_first(blocks, p[k - 1]);
        let i = first_block_index(blocks, p[k - 1])->0;
        assert(successors_of(blocks, p[k - 1]).contains(p[k]));
        let ts = terminator_targets(blocks[i].terminator);
        let t = choose|t: int| 0 <= t < ts.len() && ts[t] == p[k];
        assert(has_block(blocks, ts[t]));
        assert(marks[i]);
        assert(successors_marked(blocks, marks, i));
        assert(marks[first_block_index(blocks, ts[t])->0]);
    }
}

/// The queue lists exactly the marked blocks, and there are as many entries
/// as marks.
#[verifier::opaque]
pub open spec fn queue_tracks(marks: Seq<bool>, order: Seq<usize>) -> bool {
    &&& order.len() == count_marked(marks)
    &&& forall|q: int| 0 <= q < order.len() ==> (#[trigger] order[q]) < marks.len() && marks[order[q] as int]
    &&& forall|i: int|
        0 <= i < marks.len() && #[trigger] marks[i] ==> exists|q: int| 0 <= q < order.len() && order[q] as int == i
}

/// The state of the marking walk: marks and the queue of marked blocks
/// agree, and every marked block is the first of a reachable label.
pub open spec fn marking_inv(
    blocks: Seq<BasicBlock>,
    entry: Seq<char>,
    marks: Seq<bool>,
    order: Seq<usize>,
) -> bool {
    &&& marks.len() == blocks.len()
    &&& blocks.len() > 0
    &&& blocks[0].label@ == entry
    &&& marks[0]
    &&& queue_tracks(marks, order)
    &&& marks_first(blocks, marks)
    &&& marks_reachable(blocks, entry, marks)
}

proof fn lemma_queue_start(marks: Seq<bool>)
    requires
        marks.len() > 0,
        count_marked(marks) == 0,
        forall|k: int| 0 <= k < marks.len() ==> !#[trigger] marks[k],
    ensures
        queue_tracks(marks.update(0, true), seq![0usize]),
{
    reveal(queue_tracks);
    lemma_count_marked_set(marks, 0);
    let m = marks.update(0, true);
    assert(seq![0usize][0] == 0usize);
    assert forall|i: int| 0 <= i < m.len() && #[trigger] m[i] implies exists|q: int|
        0 <= q < seq![0usize].len() && seq![0usize][q] as int == i by {
        assert(i == 0);
        assert(seq![0usize][0] as int == i);
    }
}

proof fn lemma_marking_start(blocks: Seq<BasicBlock>, entry: Seq<char>, marks: Seq<bool>)
    requires
        marks.len() == blocks.len(),
        blocks.len() > 0,
        blocks[0].label@ == entry,
        count_marked(marks) == 0,
        forall|k: int| 0 <= k < marks.len() ==> !#[trigger] marks[k],
    ensures
        marking_inv(blocks, entry, marks.update(0, true), seq![0usize]),
{
    lemma_queue_start(marks);
    lemma_first_index_of_label(blocks, 0);
    let p = seq![entry];
    assert(is_cfg_path(blocks, entry, p));
    let m = marks.update(0, true);
    assert forall|i: int| 0 <= i < m.len() && #[trigger] m[i] implies reachable_from(blocks, entry, blocks[i].label@) by {
        reveal(reachable_from);
        assert(i == 0);
        assert(p.last() == blocks[0].label@);
    }
}

pub proof fn lemma_marking_facts(marks: Seq<bool>, order: Seq<usize>)
    requires
        queue_tracks(marks, order),
    ensures
        order.len() <= marks.len(),
        forall|q: int| 0 <= q < order.len() ==> (#[trigger] order[q]) < marks.len() && marks[order[q] as int],
{
    reveal(queue_tracks);
    lemma_count_marked_bound(marks);
}

pub proof fn lemma_queue_step(marks: Seq<bool>, order: Seq<usize>, j: usize)
    requires
        queue_tracks(marks, order),
        j < marks.len(),
        !marks[j as int],
    ensures
        queue_tracks(marks.update(j as int, true), order.push(j)),
{
    reveal(queue_tracks);
    lemma_count_marked_set(marks, j as int);
    let m = marks.update(j as int, true);
    let o = order.push(j);
    assert(o[o.len() - 1] == j);
    assert forall|x: int| 0 <= x < m.len() && #[trigger] m[x] implies exists|q: int|
        0 <= q < o.len() && o[q] as int == x by {
        if x != j {
            assert(marks[x]);
            let q = choose|q: int| 0 <= q < order.len() && order[q] as int == x;
            assert(o[q] == order[q]);
        } else {
            assert(o[o.len() - 1] as int == x);
        }
    }
    assert forall|q: int| 0 <= q < o.len() implies (#[trigger] o[q]) < m.len() && m[o[q] as int] by {
        if q < order.len() {
            assert(o[q] == order[q]);
            assert(order[q] < marks.len() && marks[order[q] as int]);
        } else {
            assert(o[q] == j);
        }
    }
}

proof fn lemma_mark_step(
    blocks: Seq<BasicBlock>,
    entry: Seq<char>,
    marks: Seq<bool>,
    order: Seq<usize>,
    i: int,
    j: usize,
    target: Seq<char>,
)
    requires
        marking_inv(blocks, entry, marks, order),
        0 <= i < blocks.len(),
        marks[i],
        terminator_targets(blocks[i].terminator).contains(target),
        first_block_index(blocks, target) == Some(j as int),
        j < blocks.len(),
        blocks[j as int].label@ == target,
        !marks[j as int],
    ensures
        marking_inv(blocks, entry, marks.update(j as int, true), order.push(j)),
{
    lemma_queue_step(marks, order, j);
    lemma_reach_extend(blocks, entry, i, target);
    let m = marks.update(j as int, true);
    assert forall|x: int| 0 <= x < m.len() && #[trigger] m[x] implies first_block_index(blocks, blocks[x].label@) == Some(x) by {
        if x != j {
            assert(marks[x]);
        }
    }
    assert forall|x: int| 0 <= x < m.len() && #[trigger] m[x] implies reachable_from(blocks, entry, blocks[x].label@) by {
        if x != j {
            assert(marks[x]);
        }
    }
}

proof fn lemma_marking_done(blocks: Seq<BasicBlock>, entry: Seq<char>, marks: Seq<bool>, order: Seq<usize>)
    requires
        marking_inv(blocks, entry, marks, order),
        forall|q: int| 0 <= q < order.len() ==> successors_marked(blocks, marks, #[trigger] order[q] as int),
    ensures
        marks_closed(blocks, marks),
{
    reveal(queue_tracks);
    assert forall|i: int| 0 <= i < marks.len() && #[trigger] marks[i] implies successors_marked(blocks, marks, i) by {
        let q = choose|q: int| 0 <= q < order.len() && order[q] as int == i;
        assert(successors_marked(blocks, marks, order[q] as int));
    }
}

proof fn lemma_successors_marked_grow(blocks: Seq<BasicBlock>, m1: Seq<bool>, m2: Seq<bool>, i: int)
    requires
        targets_defined(blocks),
        0 <= i < blocks.len(),
        m1.len() == blocks.len(),
        m2.len() == blocks.len(),
        forall|j: int| 0 <= j < m1.len() && m1[j] ==> #[trigger] m2[j],
        successors_marked(blocks, m1, i),
    ensures
        successors_marked(blocks, m2, i),
{
    let ts = terminator_targets(blocks[i].terminator);
    assert forall|t: int| 0 <= t < ts.len() implies m2[first_block_index(blocks, #[trigger] ts[t])->0] by {
        assert(has_block(blocks, ts[t]));
        lemma_has_block_first(blocks, ts[t]);
        assert(m1[first_block_index(blocks, ts[t])->0]);
    }
}

/// Whether `t` passes control to `label`.
pub fn targets_contain(t: &Terminator, label: &String) -> (r: bool)
    ensures
        r == terminator_targets(*t).contains(label@),
{
    match t {
        Terminator::Branch { target } => {
            let r = *target == *label;
            assert(terminator_targets(*t)[0] == target@);
            r
        },
        Terminator::CondBranch { true_target, false_target, .. } => {
            let r = *true_target == *label || *false_target == *label;
            assert(terminator_targets(*t)[0] == true_target@);
            assert(terminator_targets(*t)[1] == false_target@);
            r
        },
        _ => false,
    }
}

fn error_message(prefix: &str, subject: &String, suffix: &str) -> (s: String)
    ensures
        s@ == prefix@ + subject@ + suffix@,
{
    let mut s = owned(prefix);
    push_str(&mut s, subject.as_str());
    push_str(&mut s, suffix);
    s
}

impl IrFunction {
    /// A target of `t` that names no block of this function, if any.
    fn undefined_target<'a>(&self, t: &'a Terminator) -> (r: Option<&'a String>)
        ensures
            r.is_none() == forall|k: int|
                0 <= k < terminator_targets(*t).len() ==> has_block(
                    self.blocks@,
                    #[trigger] terminator_targets(*t)[k],
                ),
    {
        match t {
            Terminator::Branch { target } => {
                assert(terminator_targets(*t)[0] == target@);
                if self.block_index(target.as_str()).is_none() {
                    Some(target)
                } else {
                    None
                }
            },
            Terminator::CondBranch { true_target, false_target, .. } => {
                assert(terminator_targets(*t)[0] == true_target@);
                assert(terminator_targets(*t)[1] == false_target@);
                if self.block_index(true_target.as_str()).is_none() {
                    Some(true_target)
                } else if self.block_index(false_target.as_str()).is_none() {
                    Some(false_target)
                } else {
                    None
                }
            },
            _ => None,
        }
    }

    /// Whether some block labelled `pred` may pass control to `label`.
    pub(crate) fn has_predecessor(&self, pred: &String, label: &String) -> (r: bool)
        ensures
            r == is_predecessor(self.blocks@, pred@, label@),
    {
        let mut c: usize = 0;
        while c < self.blocks.len()
            invariant
                c <= self.blocks@.len(),
                forall|d: int|
                    0 <= d < c ==> !(self.blocks@[d].label@ == pred@ && terminator_targets(
                        self.blocks@[d].terminator,
                    ).contains(label@)),
            decreases self.blocks.len() - c,
        {
            if self.blocks[c].label == *pred && targets_contain(&self.blocks[c].terminator, label) {
                return true;
            }
            c = c + 1;
        }
        false
    }

    /// Whether every phi operand of block `b` names a predecessor of it.
    fn block_phis_ok(&self, b: usize) -> (r: bool)
        requires
            b < self.blocks@.len(),
        ensures
            r == forall|i: int|
                0 <= i < self.blocks@[b as int].instructions@.len() ==> phi_operands_ok(
                    self.blocks@,
                    #[trigger] self.blocks@[b as int].instructions@[i],
                    self.blocks@[b as int].label@,
                ),
    {
        let block = &self.blocks[b];
        let mut i: usize = 0;
        while i < block.instructions.len()
            invariant
                b < self.blocks@.len(),
                *block == self.blocks@[b as int],
                i <= block.instructions@.len(),
                forall|j: int|
                    0 <= j < i ==> phi_operands_ok(self.blocks@, #[trigger] block.instructions@[j], block.label@),
            decreases block.instructions.len() - i,
        {
            if !self.instruction_phis_ok(&block.instructions[i], &block.label) {
                return false;
            }
            i = i + 1;
        }
        true
    }

    /// Whether `instr` is no phi, or each of its operands names a
    /// predecessor of the block labelled `label`.
    fn instruction_phis_ok(&self, instr: &Instruction, label: &String) -> (r: bool)
        ensures
            r == phi_operands_ok(self.blocks@, *instr, label@),
    {
        match instr {
            Instruction::Phi { incoming, .. } => self.operands_ok(incoming, label),
            _ => true,
        }
    }

    /// Whether each phi operand in `incoming` names a predecessor of the
    /// block labelled `label`.
    fn operands_ok(&self, incoming: &Vec<(ValueId, String)>, label: &String) -> (r: bool)
        ensures
            r == operands_from_predecessors(self.blocks@, incoming@, label@),
    {
        let mut k: usize = 0;
        while k < incoming.len()
            invariant
                k <= incoming@.len(),
                forall|q: int| 0 <= q < k ==> is_predecessor(self.blocks@, #[trigger] incoming@[q].1@, label@),
            decreases incoming.len() - k,
        {
            if !self.has_predecessor(&incoming[k].1, label) {
                return false;
            }
            k = k + 1;
        }
        true
    }

    /// Marks, for each block, whether it is the first block of its label and
    /// that label is reachable from the entry block.
    fn reachable_marks(&self) -> (marks: Vec<bool>)
        requires
            self.blocks@.len() > 0,
            self.blocks@[0].label@ == self.entry_block@,
            targets_defined(self.blocks@),
        ensures
            marks@.len() == self.blocks@.len(),
            marks@[0],
            marks_first(self.blocks@, marks@),
            marks_reachable(self.blocks@, self.entry_block@, marks@),
            marks_closed(self.blocks@, marks@),
    {
        let ghost blocks = self.blocks@;
        let ghost entry = self.entry_block@;
        let n = self.blocks.len();
        let mut marks: Vec<bool> = Vec::new();
        while marks.len() < n
            invariant
                marks@.len() <= n,
                count_marked(marks@) == 0,
                forall|k: int| 0 <= k < marks@.len() ==> !#[trigger] marks@[k],
            decreases n - marks.len(),
        {
            let ghost before = marks@;
            marks.push(false);
            proof {
                assert(marks@.drop_last() =~= before);
            }
        }
        proof {
            lemma_marking_start(blocks, entry, marks@);
        }
        marks.set(0, true);
        let mut order: Vec<usize> = vec![0];
        proof {
            assert(order@ =~= seq![0usize]);
        }
        let mut head: usize = 0;
        while head < order.len()
            invariant
                blocks == self.blocks@,
                entry == self.entry_block@,
                n == blocks.len(),
                targets_defined(blocks),
                marking_inv(blocks, entry, marks@, order@),
                head <= order@.len(),
                forall|q: int| 0 <= q < head ==> successors_marked(blocks, marks@, #[trigger] order@[q] as int),
            decreases n - head,
        {
            proof {
                lemma_marking_facts(marks@, order@);
            }
            let i = order[head];
            let ghost marks0 = marks@;
            let ghost order0 = order@;
            let ghost ts = terminator_targets(blocks[i as int].terminator);
            match &self.blocks[i].terminator {
                Terminator::Branch { target } => {
                    proof {
                        assert(ts[0] == target@);
                    }
                    self.mark_target(&mut marks, &mut order, i, target);
                    proof {
                        assert forall|t: int| 0 <= t < ts.len() implies marks@[first_block_index(
                            blocks,
                            #[trigger] ts[t],
                        )->0] by {
                            assert(t == 0);
                        }
                    }
                },
                Terminator::CondBranch { true_target, false_target, .. } => {
                    proof {
                        assert(ts[0] == true_target@);
                        assert(ts[1] == false_target@);
                    }
                    self.mark_target(&mut marks, &mut order, i, true_target);
                    let ghost order1 = order@;
                    let ghost marks1 = marks@;
                    self.mark_target(&mut marks, &mut order, i, false_target);
                    proof {
                        assert forall|q: int| 0 <= q < order0.len() implies order0[q] == order@[q] by {
                            assert(order0[q] == order1.subrange(0, order0.len() as int)[q]);
                            assert(order1[q] == order@.subrange(0, order1.len() as int)[q]);
                        }
                        assert(order0 =~= order@.subrange(0, order0.len() as int));
                        lemma_has_block_first(blocks, ts[0]);
                        assert(marks1[first_block_index(blocks, ts[0])->0]);
                        assert forall|t: int| 0 <= t < ts.len() implies marks@[first_block_index(
                            blocks,
                            #[trigger] ts[t],
                        )->0] by {
                            if t == 0 {
                                assert(marks@[first_block_index(blocks, ts[0])->0]);
                            } else {
                                assert(t == 1);
                            }
                        }
                    }
                },
                _ => {},
            }
            proof {
                assert(order0 =~= order@.subrange(0, order0.len() as int));
                assert(successors_marked(blocks, marks@, i as int));
                assert forall|q: int| 0 <= q < head + 1 implies successors_marked(
                    blocks,
                    marks@,
                    #[trigger] order@[q] as int,
                ) by {
                    assert(order@[q] == order0[q]);
                    if q < head {
                        lemma_marking_facts(marks0, order0);
                        assert(successors_marked(blocks, marks0, order0[q] as int));
                        lemma_successors_marked_grow(blocks, marks0, marks@, order0[q] as int);
                    }
                }
            }
            head = head + 1;
        }
        proof {
            lemma_marking_done(blocks, entry, marks@, order@);
        }
        marks
    }

    /// Mark the first block labelled `target` (a successor of marked block
    /// `i`), queueing it when it was unmarked.
    fn mark_target(&self, marks: &mut Vec<bool>, order: &mut Vec<usize>, i: usize, target: &String)
        requires
            i < self.blocks@.len(),
            old(marks)@.len() == self.blocks@.len(),
            old(marks)@[i as int],
            terminator_targets(self.blocks@[i as int].terminator).contains(target@),
            targets_defined(self.blocks@),
            marking_inv(self.blocks@, self.entry_block@, old(marks)@, old(order)@),
        ensures
            marking_inv(self.blocks@, self.entry_block@, final(marks)@, final(order)@),
            final(marks)@.len() == old(marks)@.len(),
            has_block(self.blocks@, target@),
            final(marks)@[first_block_index(self.blocks@, target@)->0],
            old(order)@.len() <= final(order)@.len(),
            old(order)@ == final(order)@.subrange(0, old(order)@.len() as int),
            forall|j: int| 0 <= j < old(marks)@.len() && old(marks)@[j] ==> #[trigger] final(marks)@[j],
    {
        proof {
            let ts = terminator_targets(self.blocks@[i as int].terminator);
            let t = choose|t: int| 0 <= t < ts.len() && ts[t] == target@;
            assert(has_block(self.blocks@, ts[t]));
            lemma_has_block_first(self.blocks@, target@);
        }
        let j = self.block_index(target.as_str()).unwrap();
        if !marks[j] {
            proof {
                lemma_mark_step(self.blocks@, self.entry_block@, marks@, order@, i as int, j, target@);
            }
            marks.set(j, true);
            order.push(j);
        }
        proof {
            assert(old(order)@ =~= order@.subrange(0, old(order)@.len() as int));
        }
    }

    /// Check the function's structural rules (see [`function_is_valid`]).
    pub fn validate(&self) -> (r: Result<(), String>)
        ensures
            r.is_ok() <==> function_is_valid(*self),
    {
        if self.blocks.len() == 0 {
            return Err(error_message("function '", &self.name, "' has no blocks"));
        }
        match self.block_index(self.entry_block.as_str()) {
            None => {
                return Err(error_message("entry block '", &self.entry_block, "' not found"));
            },
            Some(idx) => {
                if idx != 0 {
                    return Err(owned("entry block must be first"));
                }
            },
        }
        let mut b: usize = 0;
        while b < self.blocks.len()
            invariant
                b <= self.blocks@.len(),
                forall|i: int, k: int|
                    0 <= i < b && 0 <= k < terminator_targets(self.blocks@[i].terminator).len() ==> has_block(
                        self.blocks@,
                        #[trigger] terminator_targets(self.blocks@[i].terminator)[k],
                    ),
            decreases self.blocks.len() - b,
        {
            match self.undefined_target(&self.blocks[b].terminator) {
                Some(label) => {
                    let mut msg = error_message("block '", &self.blocks[b].label, "' references undefined block '");
                    push_str(&mut msg, label.as_str());
                    push_str(&mut msg, "'");
                    return Err(msg);
                },
                None => {},
            }
            b = b + 1;
        }
        let mut b: usize = 0;
        while b < self.blocks.len()
            invariant
                b <= self.blocks@.len(),
                forall|bb: int, i: int|
                    0 <= bb < b && 0 <= i < self.blocks@[bb].instructions@.len() ==> phi_operands_ok(
                        self.blocks@,
                        #[trigger] self.blocks@[bb].instructions@[i],
                        self.blocks@[bb].label@,
                    ),
            decreases self.blocks.len() - b,
        {
            if !self.block_phis_ok(b) {
                return Err(error_message("phi in block '", &self.blocks[b].label, "' references a non-predecessor block"));
            }
            b = b + 1;
        }
        let marks = self.reachable_marks();
        let mut b: usize = 0;
        while b < self.blocks.len()
            invariant
                b <= self.blocks@.len(),
                self.blocks@.len() > 0,
                self.blocks@[0].label@ == self.entry_block@,
                targets_defined(self.blocks@),
                marks@.len() == self.blocks@.len(),
                marks@[0],
                marks_first(self.blocks@, marks@),
                marks_reachable(self.blocks@, self.entry_block@, marks@),
                marks_closed(self.blocks@, marks@),
                forall|i: int| 0 <= i < b ==> reachable_from(self.blocks@, self.entry_block@, #[trigger] self.blocks@[i].label@),
            decreases self.blocks.len() - b,
        {
            let j = self.block_index(self.blocks[b].label.as_str()).unwrap();
            if !marks[j] {
                proof {
                    let l = self.blocks@[b as int].label@;
                    reveal(reachable_from);
                    if reachable_from(self.blocks@, self.entry_block@, l) {
                        let p = choose|p: Seq<Seq<char>>| #[trigger] is_cfg_path(self.blocks@, self.entry_block@, p) && p.last() == l;
                        lemma_path_marked(self.blocks@, self.entry_block@, marks@, p, p.len() - 1);
                    }
                    assert(!all_blocks_reachable(self.blocks@, self.entry_block@));
                }
                return Err(error_message("block '", &self.blocks[b].label, "' is not reachable from entry"));
            }
            proof {
                assert(marks@[j as int]);
                assert(self.blocks@[j as int].label@ == self.blocks@[b as int].label@);
            }
            b = b + 1;
        }
        Ok(())
    }
}

impl IrModule {
    /// Check that the entry function exists and every function is valid.
    pub fn validate(&self) -> (r: Result<(), String>)
        ensures
            r.is_ok() <==> module_is_valid(*self),
    {
        if self.function_index(self.entry.as_str()).is_none() {
            return Err(error_message("entry function '", &self.entry, "' not found"));
        }
        let mut i: usize = 0;
        while i < self.functions.len()
            invariant
                i <= self.functions@.len(),
                forall|j: int| 0 <= j < i ==> function_is_valid(#[trigger] self.functions@[j]),
            decreases self.functions.len() - i,
        {
            match self.functions[i].validate() {
                Ok(()) => {},
                Err(e) => {
                    return Err(e);
                },
            }
            i = i + 1;
        }
        Ok(())
    }
}

} // verus!
