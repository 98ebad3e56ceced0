//! The target-independent steps of lowering SAIR to the stack machine.
//!
//! Phi nodes become copies between local slots on control-flow edges.
//! Critical edges get a trampoline block of their own so that each edge's
//! copies have one place to go, and the copies of one edge, which happen
//! at once, are put in an order that a machine moving one slot at a time
//! can follow, using one scratch slot to break cycles.

use vstd::prelude::*;

use crate::ir::block::BasicBlock;
use crate::ir::function::{first_block_index, lemma_first_block_index, IrFunction};
use crate::ir::instruction::{result_type_of, terminator_targets, Instruction, Terminator};
use crate::ir::module::IrModule;
use crate::ir::text::writer::{blocks_result_count, ids_fit, lemma_blocks_result_count_prefix, lemma_result_count_prefix, result_count};
use crate::ir::types::IrType;
use crate::ir::value::{Constant, ValueId};
use crate::ir::validate::has_block;
use crate::llvm::chars::str_equal;
use crate::ir::function::lemma_first_block_index_same_labels;
use crate::opt::analysis::{add_label, distinct_labels, label_predecessors, label_texts, labels_in, predecessors_for};
use crate::strings::push_str;

verus! {

/// Why lowering failed.
#[derive(Debug)]
pub enum LowerError {
    UnsupportedType(String),
    UnsupportedInstruction(String),
    ValidationError(String),
}

/// Slot contents after the move `mv` (source slot, destination slot).
pub open spec fn after_move(st: spec_fn(u32) -> int, mv: (u32, u32)) -> spec_fn(u32) -> int {
    |x: u32|
        if x == mv.1 {
            st(mv.0)
        } else {
            st(x)
        }
}

/// Slot contents after the moves of `moves`, each a (source, destination)
/// pair, one after another.
pub open spec fn run_moves(moves: Seq<(u32, u32)>, st: spec_fn(u32) -> int) -> spec_fn(u32) -> int
    decreases moves.len(),
{
    if moves.len() == 0 {
        st
    } else {
        after_move(run_moves(moves.drop_last(), st), moves.last())
    }
}

/// The slot that slot `x` takes its value from when the copies of `copies`,
/// each a (destination, source) pair, happen at once: a copy of a slot
/// onto itself is ignored, and of several copies onto `x` the last counts.
pub open spec fn copy_source(copies: Seq<(u32, u32)>, x: u32) -> Option<u32>
    decreases copies.len(),
{
    if copies.len() == 0 {
        None
    } else if copies.last().0 == x && copies.last().0 != copies.last().1 {
        Some(copies.last().1)
    } else {
        copy_source(copies.drop_last(), x)
    }
}

/// The value of slot `x` after the copies of `copies` happen at once.
pub open spec fn parallel_value(copies: Seq<(u32, u32)>, st: spec_fn(u32) -> int, x: u32) -> int {
    match copy_source(copies, x) {
        Some(s) => st(s),
        None => st(x),
    }
}

/// No copy that moves anything reads or writes slot `temp`.
pub open spec fn temp_unused(copies: Seq<(u32, u32)>, temp: u32) -> bool {
    forall|k: int|
        0 <= k < copies.len() && (#[trigger] copies[k]).0 != copies[k].1 ==> copies[k].0 != temp && copies[k].1
            != temp
}

/// Copies still to place: one per destination, none onto its own source.
spec fn pending_ok(p: Seq<(u32, u32)>) -> bool {
    &&& forall|i: int, j: int| 0 <= i < j < p.len() ==> #[trigger] p[i].0 != #[trigger] p[j].0
    &&& forall|i: int| 0 <= i < p.len() ==> (#[trigger] p[i]).0 != p[i].1
}

/// Some pending copy writes `x`.
spec fn has_dst(p: Seq<(u32, u32)>, x: u32) -> bool {
    exists|k: int| 0 <= k < p.len() && #[trigger] p[k].0 == x
}

/// The source of the pending copy that writes `x`.
spec fn src_of(p: Seq<(u32, u32)>, x: u32) -> u32 {
    p[choose|k: int| 0 <= k < p.len() && #[trigger] p[k].0 == x].1
}

/// The value of slot `x` once the pending copies happen at once.
spec fn pending_value(p: Seq<(u32, u32)>, st: spec_fn(u32) -> int, x: u32) -> int {
    if has_dst(p, x) {
        st(src_of(p, x))
    } else {
        st(x)
    }
}

/// Some pending copy reads `x`.
spec fn is_read(p: Seq<(u32, u32)>, x: u32) -> bool {
    exists|j: int| 0 <= j < p.len() && #[trigger] p[j].1 == x
}

/// No pending copy reads or writes `temp`.
spec fn temp_free(p: Seq<(u32, u32)>, temp: u32) -> bool {
    forall|k: int| 0 <= k < p.len() ==> (#[trigger] p[k]).0 != temp && p[k].1 != temp
}

/// Performing `moves` and then the pending copies `p` at once has the
/// effect of the copies `copies` at once, on every slot but `temp`.
spec fn resolves(p: Seq<(u32, u32)>, moves: Seq<(u32, u32)>, copies: Seq<(u32, u32)>, temp: u32) -> bool {
    forall|st: spec_fn(u32) -> int, x: u32|
        x != temp ==> #[trigger] pending_value(p, run_moves(moves, st), x) == parallel_value(copies, st, x)
}

proof fn lemma_src_of(p: Seq<(u32, u32)>, k: int)
    requires
        pending_ok(p),
        0 <= k < p.len(),
    ensures
        has_dst(p, p[k].0),
        src_of(p, p[k].0) == p[k].1,
{
    let j = choose|j: int| 0 <= j < p.len() && #[trigger] p[j].0 == p[k].0;
    if j < k {
        assert(p[j].0 != p[k].0);
    } else if k < j {
        assert(p[k].0 != p[j].0);
    }
}

/// A sequence of distinct values, each found in `b`, is no longer than `b`.
proof fn lemma_distinct_within(a: Seq<u32>, b: Seq<u32>)
    requires
        a.no_duplicates(),
        forall|i: int| 0 <= i < a.len() ==> b.contains(#[trigger] a[i]),
    ensures
        a.len() <= b.len(),
{
    broadcast use vstd::seq_lib::seq_to_set_is_finite;

    a.unique_seq_to_set();
    b.lemma_cardinality_of_set();
    assert forall|v: u32| a.to_set().contains(v) implies b.to_set().contains(v) by {
        let i = choose|i: int| 0 <= i < a.len() && a[i] == v;
        assert(b.contains(a[i]));
    }
    vstd::set_lib::lemma_len_subset(a.to_set(), b.to_set());
}

/// When every pending destination is also read by some pending copy, the
/// copies permute their destinations: no two read the same slot, and each
/// reads a slot some copy writes.
proof fn lemma_no_leaf_permutes(p: Seq<(u32, u32)>)
    requires
        pending_ok(p),
        forall|k: int| 0 <= k < p.len() ==> is_read(p, #[trigger] p[k].0),
    ensures
        forall|i: int, j: int| 0 <= i < j < p.len() ==> #[trigger] p[i].1 != #[trigger] p[j].1,
        forall|j: int| 0 <= j < p.len() ==> has_dst(p, #[trigger] p[j].1),
{
    broadcast use vstd::seq_lib::seq_to_set_is_finite;

    let d = p.map_values(|c: (u32, u32)| c.0);
    let s = p.map_values(|c: (u32, u32)| c.1);
    assert(d.no_duplicates()) by {
        assert forall|i: int, j: int| 0 <= i < d.len() && 0 <= j < d.len() && i != j implies d[i] != d[j] by {
            if i < j {
                assert(p[i].0 != p[j].0);
            } else {
                assert(p[j].0 != p[i].0);
            }
        }
    }
    d.unique_seq_to_set();
    s.lemma_cardinality_of_set();
    assert forall|v: u32| d.to_set().contains(v) implies s.to_set().contains(v) by {
        let k = choose|k: int| 0 <= k < d.len() && d[k] == v;
        assert(is_read(p, p[k].0));
        let j = choose|j: int| 0 <= j < p.len() && #[trigger] p[j].1 == p[k].0;
        assert(s[j] == v);
    }
    vstd::set_lib::lemma_len_subset(d.to_set(), s.to_set());
    s.lemma_no_dup_set_cardinality();
    vstd::set_lib::lemma_subset_equality(d.to_set(), s.to_set());
    assert forall|i: int, j: int| 0 <= i < j < p.len() implies #[trigger] p[i].1 != #[trigger] p[j].1 by {
        assert(s[i] != s[j]);
    }
    assert forall|j: int| 0 <= j < p.len() implies has_dst(p, #[trigger] p[j].1) by {
        assert(s.to_set().contains(s[j]));
        assert(d.to_set().contains(s[j]));
        let k = choose|k: int| 0 <= k < d.len() && d[k] == s[j];
        assert(p[k].0 == p[j].1);
    }
}

proof fn lemma_remove_keeps(p: Seq<(u32, u32)>, i: int)
    requires
        0 <= i < p.len(),
    ensures
        forall|k: int| 0 <= k < p.len() - 1 ==> #[trigger] p.remove(i)[k] == if k < i {
            p[k]
        } else {
            p[k + 1]
        },
{
}

/// Placing a copy whose destination no pending copy reads first keeps the
/// effect.
proof fn lemma_leaf_step(p: Seq<(u32, u32)>, moves: Seq<(u32, u32)>, copies: Seq<(u32, u32)>, temp: u32, i: int)
    requires
        pending_ok(p),
        0 <= i < p.len(),
        !is_read(p, p[i].0),
    ensures
        pending_ok(p.remove(i)),
        temp_free(p, temp) ==> temp_free(p.remove(i), temp),
        temp_free(p, temp) && resolves(p, moves, copies, temp) ==> resolves(
            p.remove(i),
            moves.push((p[i].1, p[i].0)),
            copies,
            temp,
        ),
{
    let q = p.remove(i);
    let m2 = moves.push((p[i].1, p[i].0));
    let d = p[i].0;
    let s = p[i].1;
    lemma_remove_keeps(p, i);
    assert(pending_ok(q)) by {
        assert forall|a: int, b: int| 0 <= a < b < q.len() implies #[trigger] q[a].0 != #[trigger] q[b].0 by {
            let a2 = if a < i { a } else { a + 1 };
            let b2 = if b < i { b } else { b + 1 };
            assert(q[a] == p[a2] && q[b] == p[b2]);
            assert(p[a2].0 != p[b2].0);
        }
        assert forall|a: int| 0 <= a < q.len() implies (#[trigger] q[a]).0 != q[a].1 by {
            let a2 = if a < i { a } else { a + 1 };
            assert(q[a] == p[a2]);
        }
    }
    if temp_free(p, temp) {
        assert forall|a: int| 0 <= a < q.len() implies (#[trigger] q[a]).0 != temp && q[a].1 != temp by {
            let a2 = if a < i { a } else { a + 1 };
            assert(q[a] == p[a2]);
        }
    }
    if temp_free(p, temp) && resolves(p, moves, copies, temp) {
        lemma_leaf_effect(p, moves, copies, temp, i);
    }
}

proof fn lemma_leaf_effect(p: Seq<(u32, u32)>, moves: Seq<(u32, u32)>, copies: Seq<(u32, u32)>, temp: u32, i: int)
    requires
        pending_ok(p),
        pending_ok(p.remove(i)),
        0 <= i < p.len(),
        !is_read(p, p[i].0),
        temp_free(p, temp),
        resolves(p, moves, copies, temp),
    ensures
        resolves(p.remove(i), moves.push((p[i].1, p[i].0)), copies, temp),
{
    let q = p.remove(i);
    let m2 = moves.push((p[i].1, p[i].0));
    let d = p[i].0;
    let s = p[i].1;
    lemma_remove_keeps(p, i);
    lemma_src_of(p, i);
    assert forall|st: spec_fn(u32) -> int, x: u32| x != temp implies #[trigger] pending_value(q, run_moves(m2, st), x)
        == parallel_value(copies, st, x) by {
        let st0 = run_moves(moves, st);
        assert(m2.drop_last() =~= moves);
        assert(run_moves(m2, st) == after_move(st0, (s, d)));
        assert(pending_value(p, st0, x) == parallel_value(copies, st, x));
        if x == d {
            if has_dst(q, x) {
                let k = choose|k: int| 0 <= k < q.len() && #[trigger] q[k].0 == x;
                let k2 = if k < i { k } else { k + 1 };
                assert(q[k] == p[k2]);
                if k2 < i {
                    assert(p[k2].0 != p[i].0);
                } else {
                    assert(p[i].0 != p[k2].0);
                }
            }
        } else if has_dst(q, x) {
            let k = choose|k: int| 0 <= k < q.len() && #[trigger] q[k].0 == x;
            let k2 = if k < i { k } else { k + 1 };
            assert(q[k] == p[k2]);
            lemma_src_of(q, k);
            lemma_src_of(p, k2);
            assert(p[k2].1 != d) by {
                if p[k2].1 == d {
                    assert(is_read(p, d));
                }
            }
        } else {
            if has_dst(p, x) {
                let k = choose|k: int| 0 <= k < p.len() && #[trigger] p[k].0 == x;
                assert(k != i);
                let k2 = if k < i { k } else { k - 1 };
                assert(q[k2] == p[k]);
            }
        }
    }
}

/// The pending copies at `idx` form a cycle: each reads the slot the next
/// writes, the last reads the slot the first writes, and no slot is
/// written twice.
spec fn cycle_at(p: Seq<(u32, u32)>, idx: Seq<usize>) -> bool {
    &&& idx.len() >= 1
    &&& forall|a: int| 0 <= a < idx.len() ==> #[trigger] idx[a] < p.len()
    &&& forall|a: int| 0 <= a < idx.len() - 1 ==> #[trigger] p[idx[a] as int].1 == p[idx[a + 1] as int].0
    &&& p[idx[idx.len() - 1] as int].1 == p[idx[0] as int].0
    &&& forall|a: int, b: int| 0 <= a < b < idx.len() ==> #[trigger] p[idx[a] as int].0 != #[trigger] p[idx[b] as int].0
}

/// Some copy of the cycle at `idx` writes `y`.
spec fn in_cycle(p: Seq<(u32, u32)>, idx: Seq<usize>, y: u32) -> bool {
    exists|a: int| 0 <= a < idx.len() && #[trigger] p[idx[a] as int].0 == y
}

/// Slot `y` after the first `k` copies of the cycle at `idx` rotate through
/// `temp`, from contents `st0`.
spec fn rotated(st0: spec_fn(u32) -> int, p: Seq<(u32, u32)>, idx: Seq<usize>, k: int, temp: u32, y: u32) -> int {
    if y == temp {
        st0(p[idx[0] as int].0)
    } else if exists|a: int| 0 <= a < k && #[trigger] p[idx[a] as int].0 == y {
        st0(src_of(p, y))
    } else {
        st0(y)
    }
}

/// Removing a rotated cycle from the pending copies keeps the effect.
proof fn lemma_cycle_removed(
    p: Seq<(u32, u32)>,
    rest: Seq<(u32, u32)>,
    idx: Seq<usize>,
    moves0: Seq<(u32, u32)>,
    moves1: Seq<(u32, u32)>,
    copies: Seq<(u32, u32)>,
    temp: u32,
)
    requires
        pending_ok(p),
        temp_free(p, temp),
        resolves(p, moves0, copies, temp),
        forall|i: int, j: int| 0 <= i < j < p.len() ==> #[trigger] p[i].1 != #[trigger] p[j].1,
        cycle_at(p, idx),
        pending_ok(rest),
        forall|x: u32| #[trigger] has_dst(rest, x) <==> has_dst(p, x) && !in_cycle(p, idx, x),
        forall|x: u32| #[trigger] has_dst(rest, x) ==> src_of(rest, x) == src_of(p, x),
        forall|st: spec_fn(u32) -> int, y: u32|
            #[trigger] run_moves(moves1, st)(y) == rotated(run_moves(moves0, st), p, idx, idx.len() as int, temp, y),
    ensures
        resolves(rest, moves1, copies, temp),
{
    let m = idx.len() as int;
    assert forall|st: spec_fn(u32) -> int, x: u32| x != temp implies #[trigger] pending_value(rest, run_moves(moves1, st), x)
        == parallel_value(copies, st, x) by {
        let st0 = run_moves(moves0, st);
        let st1 = run_moves(moves1, st);
        assert(pending_value(p, st0, x) == parallel_value(copies, st, x));
        assert(st1(x) == rotated(st0, p, idx, m, temp, x));
        if in_cycle(p, idx, x) {
            let a = choose|a: int| 0 <= a < idx.len() && #[trigger] p[idx[a] as int].0 == x;
            lemma_src_of(p, idx[a] as int);
            assert(!has_dst(rest, x));
        } else if has_dst(rest, x) {
            let j = choose|j: int| 0 <= j < p.len() && #[trigger] p[j].0 == x;
            lemma_src_of(p, j);
            let sx = p[j].1;
            assert(st1(sx) == rotated(st0, p, idx, m, temp, sx));
            assert(!in_cycle(p, idx, sx)) by {
                if in_cycle(p, idx, sx) {
                    let b = choose|b: int| 0 <= b < idx.len() && #[trigger] p[idx[b] as int].0 == sx;
                    let r = if b == 0 { m - 1 } else { b - 1 };
                    assert(p[idx[r] as int].1 == p[idx[b] as int].0);
                    let jr = idx[r] as int;
                    if jr < j {
                        assert(p[jr].1 != p[j].1);
                    } else if j < jr {
                        assert(p[j].1 != p[jr].1);
                    }
                    assert(p[idx[r] as int].0 == x);
                }
            }
            assert(sx != temp);
        } else {
            assert(!has_dst(p, x));
        }
    }
}

/// The position of the pending copy that writes `x`, if any.
fn find_dst(p: &Vec<(u32, u32)>, x: u32) -> (r: Option<usize>)
    ensures
        r matches Some(j) ==> j < p@.len() && p@[j as int].0 == x,
        r is None ==> !has_dst(p@, x),
{
    let mut j: usize = 0;
    while j < p.len()
        invariant
            j <= p@.len(),
            forall|k: int| 0 <= k < j ==> p@[k].0 != x,
        decreases p.len() - j,
    {
        if p[j].0 == x {
            return Some(j);
        }
        j = j + 1;
    }
    None
}

/// The position of a pending copy whose destination no pending copy
/// reads, if any.
fn find_leaf(p: &Vec<(u32, u32)>) -> (r: Option<usize>)
    ensures
        r matches Some(i) ==> i < p@.len() && !is_read(p@, p@[i as int].0),
        r is None ==> forall|k: int| 0 <= k < p@.len() ==> is_read(p@, #[trigger] p@[k].0),
{
    let mut i: usize = 0;
    while i < p.len()
        invariant
            i <= p@.len(),
            forall|k: int| 0 <= k < i ==> is_read(p@, #[trigger] p@[k].0),
        decreases p.len() - i,
    {
        let d = p[i].0;
        let mut j: usize = 0;
        let mut read = false;
        while j < p.len()
            invariant
                i < p@.len(),
                d == p@[i as int].0,
                j <= p@.len(),
                read ==> is_read(p@, d),
                !read ==> forall|k: int| 0 <= k < j ==> p@[k].1 != d,
            decreases p.len() - j,
        {
            if p[j].1 == d {
                read = true;
            }
            j = j + 1;
        }
        if !read {
            return Some(i);
        }
        i = i + 1;
    }
    None
}

/// Follow the pending copies from the first one, each to the copy that
/// writes the slot it reads, until the walk is back at the first: the
/// positions visited.
fn walk_cycle(p: &Vec<(u32, u32)>) -> (idx: Vec<usize>)
    requires
        pending_ok(p@),
        p@.len() > 0,
        forall|i: int, j: int| 0 <= i < j < p@.len() ==> #[trigger] p@[i].1 != #[trigger] p@[j].1,
        forall|j: int| 0 <= j < p@.len() ==> has_dst(p@, #[trigger] p@[j].1),
    ensures
        cycle_at(p@, idx@),
        idx@[0] == 0,
{
    let d0 = p[0].0;
    let mut idx: Vec<usize> = Vec::new();
    idx.push(0);
    let mut cur = p[0].1;
    while cur != d0
        invariant
            pending_ok(p@),
            p@.len() > 0,
            d0 == p@[0].0,
            forall|i: int, j: int| 0 <= i < j < p@.len() ==> #[trigger] p@[i].1 != #[trigger] p@[j].1,
            forall|j: int| 0 <= j < p@.len() ==> has_dst(p@, #[trigger] p@[j].1),
            idx@.len() >= 1,
            idx@[0] == 0,
            idx@.len() <= p@.len(),
            forall|a: int| 0 <= a < idx@.len() ==> #[trigger] idx@[a] < p@.len(),
            forall|a: int| 0 <= a < idx@.len() - 1 ==> #[trigger] p@[idx@[a] as int].1 == p@[idx@[a + 1] as int].0,
            cur == p@[idx@[idx@.len() - 1] as int].1,
            forall|a: int, b: int|
                0 <= a < b < idx@.len() ==> #[trigger] p@[idx@[a] as int].0 != #[trigger] p@[idx@[b] as int].0,
            cur != d0 ==> forall|a: int| 0 <= a < idx@.len() ==> #[trigger] p@[idx@[a] as int].0 != cur,
        decreases p@.len() - idx@.len(),
    {
        let ghost n = idx@.len();
        proof {
            assert(has_dst(p@, p@[idx@[n - 1] as int].1));
            let ds = idx@.map_values(|q: usize| p@[q as int].0).push(cur);
            let all = p@.map_values(|c: (u32, u32)| c.0);
            assert(ds.no_duplicates()) by {
                assert forall|a: int, b: int| 0 <= a < ds.len() && 0 <= b < ds.len() && a != b implies ds[a] != ds[b] by {
                    if a < n && b < n {
                        if a < b {
                            assert(p@[idx@[a] as int].0 != p@[idx@[b] as int].0);
                        } else {
                            assert(p@[idx@[b] as int].0 != p@[idx@[a] as int].0);
                        }
                    } else if a < n {
                        assert(p@[idx@[a] as int].0 != cur);
                    } else {
                        assert(p@[idx@[b] as int].0 != cur);
                    }
                }
            }
            assert forall|a: int| 0 <= a < ds.len() implies all.contains(#[trigger] ds[a]) by {
                if a < n {
                    assert(all[idx@[a] as int] == ds[a]);
                } else {
                    let k = choose|k: int| 0 <= k < p@.len() && #[trigger] p@[k].0 == cur;
                    assert(all[k] == ds[a]);
                }
            }
            lemma_distinct_within(ds, all);
        }
        let j = find_dst(p, cur).unwrap();
        let ghost before = idx@;
        idx.push(j);
        cur = p[j].1;
        proof {
            assert(idx@[n as int] == j);
            assert forall|a: int| 0 <= a < idx@.len() - 1 implies #[trigger] p@[idx@[a] as int].1 == p@[idx@[a + 1] as int].0 by {
                if a < n - 1 {
                    assert(idx@[a] == before[a] && idx@[a + 1] == before[a + 1]);
                }
            }
            assert forall|a: int, b: int| 0 <= a < b < idx@.len() implies #[trigger] p@[idx@[a] as int].0
                != #[trigger] p@[idx@[b] as int].0 by {
                assert(idx@[a] == before[a]);
                if b < n {
                    assert(idx@[b] == before[b]);
                }
            }
            if cur != d0 {
                assert forall|a: int| 0 <= a < idx@.len() implies #[trigger] p@[idx@[a] as int].0 != cur by {
                    if p@[idx@[a] as int].0 == cur {
                        if a == 0 {
                        } else {
                            assert(p@[idx@[a - 1] as int].1 == p@[idx@[a] as int].0);
                            let i1 = idx@[a - 1] as int;
                            let i2 = j as int;
                            if i1 < i2 {
                                assert(p@[i1].1 != p@[i2].1);
                            } else if i2 < i1 {
                                assert(p@[i2].1 != p@[i1].1);
                            }
                            assert(i1 == i2);
                            if a - 1 < n {
                                assert(p@[idx@[a - 1] as int].0 != p@[idx@[n as int] as int].0);
                            }
                        }
                    }
                }
            }
        }
    }
    idx
}

/// Whether a copy of the cycle at `idx` writes `y`.
fn cycle_writes(p: &Vec<(u32, u32)>, idx: &Vec<usize>, y: u32) -> (r: bool)
    requires
        forall|a: int| 0 <= a < idx@.len() ==> #[trigger] idx@[a] < p@.len(),
    ensures
        r == in_cycle(p@, idx@, y),
{
    let mut a: usize = 0;
    while a < idx.len()
        invariant
            forall|b: int| 0 <= b < idx@.len() ==> #[trigger] idx@[b] < p@.len(),
            a <= idx@.len(),
            forall|b: int| 0 <= b < a ==> #[trigger] p@[idx@[b] as int].0 != y,
        decreases idx.len() - a,
    {
        if p[idx[a]].0 == y {
            return true;
        }
        a = a + 1;
    }
    false
}

/// Append the moves that rotate the cycle at `idx` through `temp`: save
/// the first destination in `temp`, move each source into its
/// destination, and put the saved value in the last destination.
fn rotate_cycle(p: &Vec<(u32, u32)>, idx: &Vec<usize>, temp: u32, moves: &mut Vec<(u32, u32)>)
    requires
        pending_ok(p@),
        cycle_at(p@, idx@),
    ensures
        temp_free(p@, temp) ==> forall|st: spec_fn(u32) -> int, y: u32|
            #[trigger] run_moves(final(moves)@, st)(y) == rotated(
                run_moves(old(moves)@, st),
                p@,
                idx@,
                idx@.len() as int,
                temp,
                y,
            ),
{
    let ghost moves0 = moves@;
    let m = idx.len();
    let d0 = p[idx[0]].0;
    moves.push((d0, temp));
    proof {
        assert forall|st: spec_fn(u32) -> int, y: u32| #[trigger] run_moves(moves@, st)(y) == rotated(
            run_moves(moves0, st),
            p@,
            idx@,
            0,
            temp,
            y,
        ) by {
            assert(moves@.drop_last() =~= moves0);
        }
    }
    let mut q: usize = 0;
    while q + 1 < m
        invariant
            pending_ok(p@),
            cycle_at(p@, idx@),
            m == idx@.len(),
            q + 1 <= m,
            temp_free(p@, temp) ==> forall|st: spec_fn(u32) -> int, y: u32|
                #[trigger] run_moves(moves@, st)(y) == rotated(run_moves(moves0, st), p@, idx@, q as int, temp, y),
        decreases m - q,
    {
        let e = p[idx[q]];
        let ghost before = moves@;
        moves.push((e.1, e.0));
        proof {
            if temp_free(p@, temp) {
                let qi = q as int;
                lemma_src_of(p@, idx@[qi] as int);
                assert(p@[idx@[qi] as int].1 == p@[idx@[qi + 1] as int].0);
                assert forall|st: spec_fn(u32) -> int, y: u32| #[trigger] run_moves(moves@, st)(y) == rotated(
                    run_moves(moves0, st),
                    p@,
                    idx@,
                    qi + 1,
                    temp,
                    y,
                ) by {
                    let st0 = run_moves(moves0, st);
                    assert(moves@.drop_last() =~= before);
                    let src = e.1;
                    assert(run_moves(before, st)(src) == rotated(st0, p@, idx@, qi, temp, src));
                    assert(run_moves(before, st)(y) == rotated(st0, p@, idx@, qi, temp, y));
                    assert(src != temp && e.0 != temp);
                    assert(!(exists|a: int| 0 <= a < qi && #[trigger] p@[idx@[a] as int].0 == src)) by {
                        if exists|a: int| 0 <= a < qi && #[trigger] p@[idx@[a] as int].0 == src {
                            let a = choose|a: int| 0 <= a < qi && #[trigger] p@[idx@[a] as int].0 == src;
                            assert(p@[idx@[a] as int].0 != p@[idx@[qi + 1] as int].0);
                        }
                    }
                    if y != e.0 && y != temp {
                        if exists|a: int| 0 <= a < qi + 1 && #[trigger] p@[idx@[a] as int].0 == y {
                            let a = choose|a: int| 0 <= a < qi + 1 && #[trigger] p@[idx@[a] as int].0 == y;
                            assert(a < qi);
                        }
                    }
                    if y == e.0 {
                        assert(p@[idx@[qi] as int].0 == y);
                    }
                }
            }
        }
        q = q + 1;
    }
    let last = p[idx[m - 1]].0;
    let ghost before = moves@;
    moves.push((temp, last));
    proof {
        if temp_free(p@, temp) {
            let mi = m as int;
            lemma_src_of(p@, idx@[mi - 1] as int);
            assert forall|st: spec_fn(u32) -> int, y: u32| #[trigger] run_moves(moves@, st)(y) == rotated(
                run_moves(moves0, st),
                p@,
                idx@,
                mi,
                temp,
                y,
            ) by {
                let st0 = run_moves(moves0, st);
                assert(moves@.drop_last() =~= before);
                assert(run_moves(before, st)(temp) == rotated(st0, p@, idx@, mi - 1, temp, temp));
                assert(run_moves(before, st)(y) == rotated(st0, p@, idx@, mi - 1, temp, y));
                assert(last != temp);
                if y != last && y != temp {
                    if exists|a: int| 0 <= a < mi && #[trigger] p@[idx@[a] as int].0 == y {
                        let a = choose|a: int| 0 <= a < mi && #[trigger] p@[idx@[a] as int].0 == y;
                        assert(a < mi - 1);
                    }
                }
                if y == last {
                    assert(p@[idx@[mi - 1] as int].0 == y);
                }
            }
        }
    }
}

/// The pending copies outside the cycle at `idx`, in order.
fn without_cycle(p: &Vec<(u32, u32)>, idx: &Vec<usize>, temp: u32) -> (rest: Vec<(u32, u32)>)
    requires
        pending_ok(p@),
        cycle_at(p@, idx@),
        idx@[0] == 0,
    ensures
        pending_ok(rest@),
        rest@.len() < p@.len(),
        temp_free(p@, temp) ==> temp_free(rest@, temp),
        forall|x: u32| #[trigger] has_dst(rest@, x) <==> has_dst(p@, x) && !in_cycle(p@, idx@, x),
        forall|x: u32| #[trigger] has_dst(rest@, x) ==> src_of(rest@, x) == src_of(p@, x),
{
    let mut rest: Vec<(u32, u32)> = Vec::new();
    let ghost mut origin: Seq<int> = seq![];
    let mut j: usize = 0;
    while j < p.len()
        invariant
            pending_ok(p@),
            cycle_at(p@, idx@),
            idx@[0] == 0,
            j <= p@.len(),
            rest@.len() == origin.len(),
            forall|i: int|
                0 <= i < rest@.len() ==> 0 <= #[trigger] origin[i] < j && rest@[i] == p@[origin[i]] && !in_cycle(
                    p@,
                    idx@,
                    p@[origin[i]].0,
                ),
            forall|a: int, b: int| 0 <= a < b < origin.len() ==> #[trigger] origin[a] < #[trigger] origin[b],
            forall|t: int|
                0 <= t < j && !in_cycle(p@, idx@, #[trigger] p@[t].0) ==> exists|i: int|
                    0 <= i < origin.len() && origin[i] == t,
            j >= 1 ==> rest@.len() < j,
            rest@.len() <= j,
        decreases p.len() - j,
    {
        let e = p[j];
        let ghost o0 = origin;
        if !cycle_writes(p, idx, e.0) {
            rest.push(e);
            proof {
                origin = origin.push(j as int);
            }
        } else {
            proof {
                if j == 0 {
                    assert(p@[idx@[0] as int].0 == e.0);
                }
            }
        }
        proof {
            if j == 0 {
                assert(in_cycle(p@, idx@, p@[0].0)) by {
                    assert(p@[idx@[0] as int].0 == p@[0].0);
                }
            }
            assert forall|t: int| 0 <= t < j + 1 && !in_cycle(p@, idx@, #[trigger] p@[t].0) implies exists|i: int|
                0 <= i < origin.len() && origin[i] == t by {
                if t == j {
                    assert(origin[origin.len() - 1] == t);
                } else {
                    let i = choose|i: int| 0 <= i < o0.len() && o0[i] == t;
                    assert(origin[i] == t);
                }
            }
        }
        j = j + 1;
    }
    proof {
        assert forall|a: int, b: int| 0 <= a < b < rest@.len() implies #[trigger] rest@[a].0 != #[trigger] rest@[b].0 by {
            assert(origin[a] < origin[b]);
            assert(p@[origin[a]].0 != p@[origin[b]].0);
        }
        assert forall|a: int| 0 <= a < rest@.len() implies (#[trigger] rest@[a]).0 != rest@[a].1 by {
            assert(rest@[a] == p@[origin[a]]);
        }
        assert(pending_ok(rest@));
        assert forall|x: u32| #[trigger] has_dst(rest@, x) <==> has_dst(p@, x) && !in_cycle(p@, idx@, x) by {
            if has_dst(rest@, x) {
                let i = choose|i: int| 0 <= i < rest@.len() && #[trigger] rest@[i].0 == x;
                assert(p@[origin[i]].0 == x);
            }
            if has_dst(p@, x) && !in_cycle(p@, idx@, x) {
                let t = choose|t: int| 0 <= t < p@.len() && #[trigger] p@[t].0 == x;
                let i = choose|i: int| 0 <= i < origin.len() && origin[i] == t;
                assert(rest@[i].0 == x);
            }
        }
        assert forall|x: u32| #[trigger] has_dst(rest@, x) implies src_of(rest@, x) == src_of(p@, x) by {
            let i = choose|i: int| 0 <= i < rest@.len() && #[trigger] rest@[i].0 == x;
            lemma_src_of(rest@, i);
            lemma_src_of(p@, origin[i]);
        }
        if temp_free(p@, temp) {
            assert forall|i: int| 0 <= i < rest@.len() implies (#[trigger] rest@[i]).0 != temp && rest@[i].1 != temp by {
                assert(rest@[i] == p@[origin[i]]);
            }
        }
    }
    rest
}

/// One pending copy per destination slot, from the copies that move
/// anything: the last copy onto each slot counts.
fn pending_copies(copies: &Vec<(u32, u32)>, temp: u32) -> (p: Vec<(u32, u32)>)
    ensures
        pending_ok(p@),
        temp_unused(copies@, temp) ==> temp_free(p@, temp),
        forall|x: u32| #[trigger] has_dst(p@, x) == copy_source(copies@, x) is Some,
        forall|x: u32| #[trigger] has_dst(p@, x) ==> src_of(p@, x) == copy_source(copies@, x)->0,
{
    let mut p: Vec<(u32, u32)> = Vec::new();
    let mut k: usize = 0;
    while k < copies.len()
        invariant
            k <= copies@.len(),
            pending_ok(p@),
            temp_unused(copies@, temp) ==> temp_free(p@, temp),
            forall|x: u32| #[trigger] has_dst(p@, x) == copy_source(copies@.subrange(0, k as int), x) is Some,
            forall|x: u32|
                #[trigger] has_dst(p@, x) ==> src_of(p@, x) == copy_source(copies@.subrange(0, k as int), x)->0,
        decreases copies.len() - k,
    {
        let (d, s) = copies[k];
        let ghost p0 = p@;
        let ghost pre = copies@.subrange(0, k as int);
        let ghost now = copies@.subrange(0, k + 1);
        proof {
            assert(now.drop_last() =~= pre);
            assert(now.last() == (d, s));
            if temp_unused(copies@, temp) && d != s {
                assert(copies@[k as int] == (d, s));
            }
        }
        if d != s {
            match find_dst(&p, d) {
                Some(i) => {
                    p.set(i, (d, s));
                    proof {
                        assert forall|a: int, b: int| 0 <= a < b < p@.len() implies #[trigger] p@[a].0
                            != #[trigger] p@[b].0 by {
                            assert(p0[a].0 != p0[b].0);
                        }
                        assert(pending_ok(p@));
                        assert forall|x: u32| #[trigger] has_dst(p@, x) == has_dst(p0, x) by {
                            if has_dst(p0, x) {
                                let j = choose|j: int| 0 <= j < p0.len() && #[trigger] p0[j].0 == x;
                                assert(p@[j].0 == x);
                            }
                            if has_dst(p@, x) {
                                let j = choose|j: int| 0 <= j < p@.len() && #[trigger] p@[j].0 == x;
                                assert(p0[j].0 == x);
                            }
                        }
                        assert forall|x: u32| #[trigger] has_dst(p@, x) implies src_of(p@, x) == copy_source(now, x)->0 by {
                            let j = choose|j: int| 0 <= j < p@.len() && #[trigger] p@[j].0 == x;
                            lemma_src_of(p@, j);
                            if x != d {
                                lemma_src_of(p0, j);
                            }
                        }
                    }
                },
                None => {
                    p.push((d, s));
                    proof {
                        assert forall|a: int, b: int| 0 <= a < b < p@.len() implies #[trigger] p@[a].0
                            != #[trigger] p@[b].0 by {
                            if b < p0.len() {
                                assert(p0[a].0 != p0[b].0);
                            } else {
                                assert(p0[a].0 != d);
                            }
                        }
                        assert(pending_ok(p@));
                        assert forall|x: u32| #[trigger] has_dst(p@, x) == (has_dst(p0, x) || x == d) by {
                            if has_dst(p0, x) {
                                let j = choose|j: int| 0 <= j < p0.len() && #[trigger] p0[j].0 == x;
                                assert(p@[j].0 == x);
                            }
                            if x == d {
                                assert(p@[p0.len() as int].0 == x);
                            }
                            if has_dst(p@, x) && x != d {
                                let j = choose|j: int| 0 <= j < p@.len() && #[trigger] p@[j].0 == x;
                                assert(p0[j].0 == x);
                            }
                        }
                        assert forall|x: u32| #[trigger] has_dst(p@, x) implies src_of(p@, x) == copy_source(now, x)->0 by {
                            let j = choose|j: int| 0 <= j < p@.len() && #[trigger] p@[j].0 == x;
                            lemma_src_of(p@, j);
                            if x != d {
                                lemma_src_of(p0, j);
                            }
                        }
                    }
                },
            }
        }
        k = k + 1;
    }
    proof {
        assert(copies@.subrange(0, k as int) =~= copies@);
    }
    p
}

/// The copies of `copies`, each a (destination, source) pair of local
/// slots that happen at once, as moves, each a (source, destination) pair,
/// that happen one after another. A copy of a slot onto itself is dropped,
/// and of several copies onto one slot the last counts. Copies whose
/// destination no remaining copy reads go first; what is left then forms
/// cycles, each rotated through the scratch slot `temp_slot`.
///
/// Where no copy that moves anything touches `temp_slot`, the moves leave
/// every other slot as the copies would.
pub fn resolve_parallel_copies(copies: &Vec<(u32, u32)>, temp_slot: u32) -> (moves: Vec<(u32, u32)>)
    ensures
        temp_unused(copies@, temp_slot) ==> forall|st: spec_fn(u32) -> int, x: u32|
            x != temp_slot ==> #[trigger] run_moves(moves@, st)(x) == parallel_value(copies@, st, x),
{
    let ghost fresh = temp_unused(copies@, temp_slot);
    let mut p = pending_copies(copies, temp_slot);
    let mut moves: Vec<(u32, u32)> = Vec::new();
    proof {
        if fresh {
            assert forall|st: spec_fn(u32) -> int, x: u32| x != temp_slot implies #[trigger] pending_value(
                p@,
                run_moves(moves@, st),
                x,
            ) == parallel_value(copies@, st, x) by {
                assert(run_moves(moves@, st) == st);
                if has_dst(p@, x) {
                } else {
                }
            }
        }
    }
    while p.len() > 0
        invariant
            fresh == temp_unused(copies@, temp_slot),
            pending_ok(p@),
            fresh ==> temp_free(p@, temp_slot),
            fresh ==> resolves(p@, moves@, copies@, temp_slot),
        decreases p@.len(),
    {
        match find_leaf(&p) {
            Some(i) => {
                let ghost p0 = p@;
                let ghost m0 = moves@;
                let (d, s) = p.remove(i);
                moves.push((s, d));
                proof {
                    lemma_leaf_step(p0, m0, copies@, temp_slot, i as int);
                }
            },
            None => {
                proof {
                    lemma_no_leaf_permutes(p@);
                }
                let idx = walk_cycle(&p);
                let ghost m0 = moves@;
                rotate_cycle(&p, &idx, temp_slot, &mut moves);
                let rest = without_cycle(&p, &idx, temp_slot);
                proof {
                    if fresh {
                        lemma_cycle_removed(p@, rest@, idx@, m0, moves@, copies@, temp_slot);
                    }
                }
                p = rest;
            },
        }
    }
    proof {
        if fresh {
            assert forall|st: spec_fn(u32) -> int, x: u32| x != temp_slot implies #[trigger] run_moves(moves@, st)(x)
                == parallel_value(copies@, st, x) by {
                assert(pending_value(p@, run_moves(moves@, st), x) == parallel_value(copies@, st, x));
                assert(!has_dst(p@, x));
            }
        }
    }
    moves
}

/// What a scan of a module's instructions looks for.
enum Scan {
    /// A left, logical right or arithmetic right shift, as each flag says.
    Shift(bool, bool, bool),
    /// A 64-bit multiply.
    WideMul,
    /// A 64-bit division or remainder.
    WideDivRem,
}

/// Instruction `i` is what `scan` looks for.
spec fn scan_matches(scan: Scan, i: Instruction) -> bool {
    match scan {
        Scan::Shift(shl, lshr, ashr) => (shl && i is Shl) || (lshr && i is Lshr) || (ashr && i is Ashr),
        Scan::WideMul => i matches Instruction::Mul { ty: IrType::I64, .. },
        Scan::WideDivRem => i matches Instruction::Div { ty: IrType::I64, .. } || i matches Instruction::Rem {
            ty: IrType::I64,
            ..
        },
    }
}

/// Some instruction of some block of some function of `m` is what `scan`
/// looks for.
spec fn module_has(m: IrModule, scan: Scan) -> bool {
    exists|f: int, b: int, i: int|
        0 <= f < m.functions@.len() && 0 <= b < m.functions@[f].blocks@.len() && 0 <= i
            < m.functions@[f].blocks@[b].instructions@.len() && scan_matches(
            scan,
            #[trigger] m.functions@[f].blocks@[b].instructions@[i],
        )
}

fn instruction_matches(scan: &Scan, i: &Instruction) -> (r: bool)
    ensures
        r == scan_matches(*scan, *i),
{
    match scan {
        Scan::Shift(shl, lshr, ashr) => match i {
            Instruction::Shl { .. } => *shl,
            Instruction::Lshr { .. } => *lshr,
            Instruction::Ashr { .. } => *ashr,
            _ => false,
        },
        Scan::WideMul => match i {
            Instruction::Mul { ty: IrType::I64, .. } => true,
            _ => false,
        },
        Scan::WideDivRem => match i {
            Instruction::Div { ty: IrType::I64, .. } | Instruction::Rem { ty: IrType::I64, .. } => true,
            _ => false,
        },
    }
}

fn module_scan(module: &IrModule, scan: Scan) -> (r: bool)
    ensures
        r == module_has(*module, scan),
{
    let mut f: usize = 0;
    while f < module.functions.len()
        invariant
            f <= module.functions@.len(),
            forall|f2: int, b: int, i: int|
                0 <= f2 < f && 0 <= b < module.functions@[f2].blocks@.len() && 0 <= i
                    < module.functions@[f2].blocks@[b].instructions@.len() ==> !scan_matches(
                    scan,
                    #[trigger] module.functions@[f2].blocks@[b].instructions@[i],
                ),
        decreases module.functions.len() - f,
    {
        let func = &module.functions[f];
        let mut b: usize = 0;
        while b < func.blocks.len()
            invariant
                f < module.functions@.len(),
                *func == module.functions@[f as int],
                b <= func.blocks@.len(),
                forall|f2: int, b2: int, i: int|
                    0 <= f2 < f && 0 <= b2 < module.functions@[f2].blocks@.len() && 0 <= i
                        < module.functions@[f2].blocks@[b2].instructions@.len() ==> !scan_matches(
                        scan,
                        #[trigger] module.functions@[f2].blocks@[b2].instructions@[i],
                    ),
                forall|b2: int, i: int|
                    0 <= b2 < b && 0 <= i < func.blocks@[b2].instructions@.len() ==> !scan_matches(
                        scan,
                        #[trigger] func.blocks@[b2].instructions@[i],
                    ),
            decreases func.blocks.len() - b,
        {
            let block = &func.blocks[b];
            let mut i: usize = 0;
            while i < block.instructions.len()
                invariant
                    f < module.functions@.len(),
                    *func == module.functions@[f as int],
                    b < func.blocks@.len(),
                    *block == func.blocks@[b as int],
                    i <= block.instructions@.len(),
                    forall|q: int| 0 <= q < i ==> !scan_matches(scan, #[trigger] block.instructions@[q]),
                decreases block.instructions.len() - i,
            {
                if instruction_matches(&scan, &block.instructions[i]) {
                    assert(scan_matches(scan, module.functions@[f as int].blocks@[b as int].instructions@[i as int]));
                    return true;
                }
                i = i + 1;
            }
            b = b + 1;
        }
        proof {
            assert forall|f2: int, b2: int, i: int|
                0 <= f2 < f + 1 && 0 <= b2 < module.functions@[f2].blocks@.len() && 0 <= i
                    < module.functions@[f2].blocks@[b2].instructions@.len() implies !scan_matches(
                    scan,
                    #[trigger] module.functions@[f2].blocks@[b2].instructions@[i],
                ) by {
                if f2 == f {
                    assert(module.functions@[f2] == *func);
                }
            }
        }
        f = f + 1;
    }
    false
}

/// Instruction `i` is a shift that lowers to the helper named `helper`.
pub open spec fn shift_lowers_to(helper: Seq<char>, i: Instruction) -> bool {
    ||| helper == "__sair_shl64"@ && i is Shl
    ||| helper == "__sair_lshr64"@ && i is Lshr
    ||| helper == "__sair_ashr64"@ && i is Ashr
}

/// Some instruction of some block of some function of `m` satisfies `p`.
pub open spec fn module_contains(m: IrModule, p: spec_fn(Instruction) -> bool) -> bool {
    exists|f: int, b: int, i: int|
        0 <= f < m.functions@.len() && 0 <= b < m.functions@[f].blocks@.len() && 0 <= i
            < m.functions@[f].blocks@[b].instructions@.len() && p(#[trigger] m.functions@[f].blocks@[b].instructions@[i])
}

/// Whether `module` holds a shift that lowers to the helper named `helper`.
pub fn module_uses_shift(module: &IrModule, helper: &str) -> (r: bool)
    ensures
        r == module_contains(*module, |i: Instruction| shift_lowers_to(helper@, i)),
{
    let scan = Scan::Shift(
        str_equal(helper, "__sair_shl64"),
        str_equal(helper, "__sair_lshr64"),
        str_equal(helper, "__sair_ashr64"),
    );
    let r = module_scan(module, scan);
    proof {
        let p = |i: Instruction| shift_lowers_to(helper@, i);
        assert forall|i: Instruction| scan_matches(scan, i) == p(i) by {}
        if r {
            let (f, b, i) = choose|f: int, b: int, i: int|
                0 <= f < module.functions@.len() && 0 <= b < module.functions@[f].blocks@.len() && 0 <= i
                    < module.functions@[f].blocks@[b].instructions@.len() && scan_matches(
                    scan,
                    #[trigger] module.functions@[f].blocks@[b].instructions@[i],
                );
            assert(p(module.functions@[f].blocks@[b].instructions@[i]));
        }
        if module_contains(*module, p) {
            let (f, b, i) = choose|f: int, b: int, i: int|
                0 <= f < module.functions@.len() && 0 <= b < module.functions@[f].blocks@.len() && 0 <= i
                    < module.functions@[f].blocks@[b].instructions@.len() && p(
                    #[trigger] module.functions@[f].blocks@[b].instructions@[i],
                );
            assert(scan_matches(scan, module.functions@[f].blocks@[b].instructions@[i]));
        }
    }
    r
}

/// Whether `module` holds a 64-bit multiply.
pub fn module_uses_wide_mul(module: &IrModule) -> (r: bool)
    ensures
        r == module_contains(*module, |i: Instruction| i matches Instruction::Mul { ty: IrType::I64, .. }),
{
    let r = module_scan(module, Scan::WideMul);
    proof {
        let p = |i: Instruction| i matches Instruction::Mul { ty: IrType::I64, .. };
        if r {
            let (f, b, i) = choose|f: int, b: int, i: int|
                0 <= f < module.functions@.len() && 0 <= b < module.functions@[f].blocks@.len() && 0 <= i
                    < module.functions@[f].blocks@[b].instructions@.len() && scan_matches(
                    Scan::WideMul,
                    #[trigger] module.functions@[f].blocks@[b].instructions@[i],
                );
            assert(p(module.functions@[f].blocks@[b].instructions@[i]));
        }
        if module_contains(*module, p) {
            let (f, b, i) = choose|f: int, b: int, i: int|
                0 <= f < module.functions@.len() && 0 <= b < module.functions@[f].blocks@.len() && 0 <= i
                    < module.functions@[f].blocks@[b].instructions@.len() && p(
                    #[trigger] module.functions@[f].blocks@[b].instructions@[i],
                );
            assert(scan_matches(Scan::WideMul, module.functions@[f].blocks@[b].instructions@[i]));
        }
    }
    r
}

/// Whether `module` holds a 64-bit division or remainder.
pub fn module_uses_wide_divrem(module: &IrModule) -> (r: bool)
    ensures
        r == module_contains(
            *module,
            |i: Instruction|
                i matches Instruction::Div { ty: IrType::I64, .. } || i matches Instruction::Rem { ty: IrType::I64, .. },
        ),
{
    let r = module_scan(module, Scan::WideDivRem);
    proof {
        let p = |i: Instruction|
            i matches Instruction::Div { ty: IrType::I64, .. } || i matches Instruction::Rem { ty: IrType::I64, .. };
        if r {
            let (f, b, i) = choose|f: int, b: int, i: int|
                0 <= f < module.functions@.len() && 0 <= b < module.functions@[f].blocks@.len() && 0 <= i
                    < module.functions@[f].blocks@[b].instructions@.len() && scan_matches(
                    Scan::WideDivRem,
                    #[trigger] module.functions@[f].blocks@[b].instructions@[i],
                );
            assert(p(module.functions@[f].blocks@[b].instructions@[i]));
        }
        if module_contains(*module, p) {
            let (f, b, i) = choose|f: int, b: int, i: int|
                0 <= f < module.functions@.len() && 0 <= b < module.functions@[f].blocks@.len() && 0 <= i
                    < module.functions@[f].blocks@[b].instructions@.len() && p(
                    #[trigger] module.functions@[f].blocks@[b].instructions@[i],
                );
            assert(scan_matches(Scan::WideDivRem, module.functions@[f].blocks@[b].instructions@[i]));
        }
    }
    r
}

/// Block `b` is the first block labelled `label` that has an instruction
/// at index `idx`.
pub open spec fn result_site(blocks: Seq<BasicBlock>, label: Seq<char>, idx: int, b: int) -> bool {
    &&& 0 <= b < blocks.len()
    &&& blocks[b].label@ == label
    &&& 0 <= idx < blocks[b].instructions@.len()
    &&& forall|c: int| 0 <= c < b ==> !(#[trigger] blocks[c].label@ == label && idx < blocks[c].instructions@.len())
}

/// The id the value of instruction `idx` of block `b` of `f` has (or
/// would have, were it to define one): the parameters and the values
/// defined before it come first.
pub open spec fn id_at(f: IrFunction, b: int, idx: int) -> nat {
    f.params@.len() + blocks_result_count(f.blocks@.subrange(0, b)) + result_count(
        f.blocks@[b].instructions@.subrange(0, idx),
    )
}

/// The id of the value that instruction `instr_idx` of the first block
/// labelled `block_label` having such an instruction defines.
pub fn find_result_id(func: &IrFunction, block_label: &str, instr_idx: usize) -> (id: ValueId)
    requires
        ids_fit(*func),
        exists|b: int| result_site(func.blocks@, block_label@, instr_idx as int, b),
    ensures
        exists|b: int| result_site(func.blocks@, block_label@, instr_idx as int, b) && id == id_at(*func, b, instr_idx as int),
{
    let ghost blocks = func.blocks@;
    let key = String::from_str(block_label);
    let mut id: usize = func.params.len();
    let mut b: usize = 0;
    while b < func.blocks.len()
        invariant
            blocks == func.blocks@,
            key@ == block_label@,
            ids_fit(*func),
            b <= blocks.len(),
            id == func.params@.len() + blocks_result_count(blocks.subrange(0, b as int)),
            forall|c: int| 0 <= c < b ==> !(#[trigger] blocks[c].label@ == block_label@ && instr_idx < blocks[c].instructions@.len()),
            exists|c: int| result_site(blocks, block_label@, instr_idx as int, c),
        decreases blocks.len() - b,
    {
        let block = &func.blocks[b];
        let same = block.label == key;
        let ghost base = id;
        proof {
            let t = blocks.subrange(0, b + 1);
            assert(t.drop_last() =~= blocks.subrange(0, b as int));
            lemma_blocks_result_count_prefix(blocks, b + 1);
        }
        let mut i: usize = 0;
        while i < block.instructions.len()
            invariant
                blocks == func.blocks@,
                b < blocks.len(),
                *block == blocks[b as int],
                same == (block.label@ == block_label@),
                key@ == block_label@,
                i <= block.instructions@.len(),
                base == func.params@.len() + blocks_result_count(blocks.subrange(0, b as int)),
                func.params@.len() + blocks_result_count(blocks.subrange(0, b + 1)) <= usize::MAX,
                blocks_result_count(blocks.subrange(0, b + 1)) == blocks_result_count(blocks.subrange(0, b as int))
                    + result_count(block.instructions@),
                id == base + result_count(block.instructions@.subrange(0, i as int)),
                same ==> i <= instr_idx,
                forall|c: int| 0 <= c < b ==> !(#[trigger] blocks[c].label@ == block_label@ && instr_idx < blocks[c].instructions@.len()),
            decreases block.instructions.len() - i,
        {
            if same && i == instr_idx {
                proof {
                    assert(result_site(blocks, block_label@, instr_idx as int, b as int));
                    assert(id == id_at(*func, b as int, instr_idx as int));
                }
                return id;
            }
            proof {
                let t = block.instructions@.subrange(0, i + 1);
                assert(t.drop_last() =~= block.instructions@.subrange(0, i as int));
                lemma_result_count_prefix(block.instructions@, i + 1);
            }
            if block.instructions[i].result_type().is_some() {
                id = id + 1;
            }
            i = i + 1;
        }
        proof {
            assert(block.instructions@.subrange(0, i as int) =~= block.instructions@);
        }
        b = b + 1;
    }
    proof {
        let c = choose|c: int| result_site(blocks, block_label@, instr_idx as int, c);
        assert(!(blocks[c].label@ == block_label@ && instr_idx < blocks[c].instructions@.len()));
    }
    id
}

/// Limb `limb` (0 for the low half) of the 64-bit value `v`.
pub open spec fn limb_of(v: u64, limb: u32) -> u32 {
    if limb == 0 {
        (v % 0x1_0000_0000) as u32
    } else {
        (v / 0x1_0000_0000) as u32
    }
}

/// Limb `limb` of the constant `c`, which spans `cells` cells: a
/// one-cell constant is its own limb, and a 64-bit one splits into its
/// low and high 32-bit halves.
pub fn const_limb(c: &Constant, limb: u32, cells: u32) -> (r: Constant)
    requires
        cells == 1 || (c is I64 && limb < 2),
    ensures
        cells == 1 ==> r == *c,
        cells != 1 ==> (*c matches Constant::I64(v) && r == Constant::I32(limb_of(v, limb))),
{
    if cells == 1 {
        return *c;
    }
    match c {
        Constant::I64(v) => {
            let v = *v;
            let shift: u32 = 32 * limb;
            let half = (v >> shift) as u32;
            proof {
                if limb == 0 {
                    assert((v >> 0u32) as u32 == (v % 0x1_0000_0000) as u32) by (bit_vector);
                } else {
                    assert((v >> 32u32) as u32 == (v / 0x1_0000_0000) as u32) by (bit_vector);
                }
            }
            Constant::I32(half)
        },
        _ => {
            proof {
                assert(false);
            }
            *c
        },
    }
}

/// Where the copies of one control-flow edge go.
#[derive(Debug, PartialEq, Eq)]
pub enum CopyPlacement {
    /// At the start of the block with this label.
    AtStartOf(String),
    /// At the end of the block with this label, before its terminator.
    AtEndOf(String),
}

/// Where the copies of the edge from `pred` to `succ` go: at the start of
/// `pred` when it is a trampoline, at the end of `pred` when the first
/// block labelled `pred` simply branches to `succ`, and otherwise at the
/// start of `succ`. The first component tells whether at a start.
pub open spec fn placement(f: IrFunction, trampolines: Seq<String>, pred: Seq<char>, succ: Seq<char>) -> (bool, Seq<char>) {
    if labels_in(trampolines).contains(pred) {
        (true, pred)
    } else {
        match f.blocks@[first_block_index(f.blocks@, pred)->0].terminator {
            Terminator::Branch { target } => if target@ == succ {
                (false, pred)
            } else {
                (true, succ)
            },
            _ => (true, succ),
        }
    }
}

/// Where the copies of the edge from `pred_label` to `succ_label` go.
pub fn copy_placement(func: &IrFunction, trampolines: &Vec<String>, pred_label: &str, succ_label: &str) -> (r: CopyPlacement)
    requires
        labels_in(trampolines@).contains(pred_label@) || has_block(func.blocks@, pred_label@),
    ensures
        match r {
            CopyPlacement::AtStartOf(l) => placement(*func, trampolines@, pred_label@, succ_label@) == (true, l@),
            CopyPlacement::AtEndOf(l) => placement(*func, trampolines@, pred_label@, succ_label@) == (false, l@),
        },
{
    let pred = String::from_str(pred_label);
    let mut k: usize = 0;
    while k < trampolines.len()
        invariant
            pred@ == pred_label@,
            k <= trampolines@.len(),
            forall|j: int| 0 <= j < k ==> trampolines@[j]@ != pred_label@,
        decreases trampolines.len() - k,
    {
        if trampolines[k] == pred {
            return CopyPlacement::AtStartOf(pred);
        }
        k = k + 1;
    }
    proof {
        lemma_first_block_index(func.blocks@, pred_label@);
    }
    let b = func.block_index(pred_label).unwrap();
    match &func.blocks[b].terminator {
        Terminator::Branch { target } => {
            if str_equal(target.as_str(), succ_label) {
                CopyPlacement::AtEndOf(pred)
            } else {
                CopyPlacement::AtStartOf(String::from_str(succ_label))
            }
        },
        _ => CopyPlacement::AtStartOf(String::from_str(succ_label)),
    }
}

/// The targets of the last block of `bs` labelled `l`.
pub open spec fn last_targets(bs: Seq<BasicBlock>, l: Seq<char>) -> Seq<Seq<char>>
    decreases bs.len(),
{
    if bs.len() == 0 {
        seq![]
    } else if bs.last().label@ == l {
        terminator_targets(bs.last().terminator)
    } else {
        last_targets(bs.drop_last(), l)
    }
}

/// Those of `ts` into which more than one edge of `bs` leads, in order.
pub open spec fn shared_targets(bs: Seq<BasicBlock>, ts: Seq<Seq<char>>) -> Seq<Seq<char>>
    decreases ts.len(),
{
    if ts.len() == 0 {
        seq![]
    } else {
        shared_targets(bs, ts.drop_last()) + if label_predecessors(bs, ts.last()).len() > 1 {
            seq![ts.last()]
        } else {
            seq![]
        }
    }
}

/// The targets of the critical edges out of block `i`: when the last block
/// carrying its label has more than one target, those of its targets into
/// which more than one edge leads.
pub open spec fn critical_targets(bs: Seq<BasicBlock>, i: int) -> Seq<Seq<char>> {
    let ts = last_targets(bs, bs[i].label@);
    if ts.len() <= 1 {
        seq![]
    } else {
        shared_targets(bs, ts)
    }
}

/// The label of the trampoline block on the edge from `pred` to `succ`.
pub open spec fn trampoline_label(pred: Seq<char>, succ: Seq<char>) -> Seq<char> {
    pred + "_"@ + succ + "_trampoline"@
}

/// How many critical edges leave the first `i` blocks.
pub open spec fn critical_before(bs: Seq<BasicBlock>, i: int) -> nat
    decreases i,
{
    if i <= 0 {
        0
    } else {
        critical_before(bs, i - 1) + critical_targets(bs, i - 1).len()
    }
}

/// The critical edges out of the first `i` blocks, in order, each as
/// (predecessor label, target, trampoline label).
pub open spec fn critical_edges(bs: Seq<BasicBlock>, i: int) -> Seq<(Seq<char>, Seq<char>, Seq<char>)>
    decreases i,
{
    if i <= 0 {
        seq![]
    } else {
        let l = bs[i - 1].label@;
        critical_edges(bs, i - 1) + critical_targets(bs, i - 1).map_values(
            |t: Seq<char>| (l, t, trampoline_label(l, t)),
        )
    }
}

/// The label renames, each (from, to), of the edges of `edges` whose
/// target's first block in `after` is block `j`, in order.
pub open spec fn renames_for(
    edges: Seq<(Seq<char>, Seq<char>, Seq<char>)>,
    after: Seq<BasicBlock>,
    j: int,
) -> Seq<(Seq<char>, Seq<char>)>
    decreases edges.len(),
{
    if edges.len() == 0 {
        seq![]
    } else {
        let e = edges.last();
        renames_for(edges.drop_last(), after, j) + if first_block_index(after, e.1) == Some(j) {
            seq![(e.0, e.2)]
        } else {
            seq![]
        }
    }
}

/// `l` after the renames of `rs`, each (from, to), one after another.
pub open spec fn renamed(l: Seq<char>, rs: Seq<(Seq<char>, Seq<char>)>) -> Seq<char>
    decreases rs.len(),
{
    if rs.len() == 0 {
        l
    } else {
        let l2 = renamed(l, rs.drop_last());
        if l2 == rs.last().0 {
            rs.last().1
        } else {
            l2
        }
    }
}

/// `new` is `old` with, if it is a phi, each predecessor label renamed by
/// `rs`.
pub open spec fn phi_renamed(old: Instruction, new: Instruction, rs: Seq<(Seq<char>, Seq<char>)>) -> bool {
    match old {
        Instruction::Phi { ty, incoming } => {
            &&& new matches Instruction::Phi { ty: t2, incoming: i2 }
            &&& t2 == ty
            &&& i2@.len() == incoming@.len()
            &&& forall|m: int|
                0 <= m < incoming@.len() ==> (#[trigger] i2@[m]).0 == incoming@[m].0 && i2@[m].1@ == renamed(
                    incoming@[m].1@,
                    rs,
                )
        },
        _ => new == old,
    }
}

/// `new` is the terminator `old` with the edge to `t` sent to `tramp`
/// instead: both targets of a conditional branch that are `t`, or the
/// target of a branch.
pub open spec fn redirected(old: Terminator, new: Terminator, t: Seq<char>, tramp: Seq<char>) -> bool {
    match old {
        Terminator::CondBranch { condition, true_target, false_target } => {
            &&& new matches Terminator::CondBranch { condition: c2, true_target: t2, false_target: f2 }
            &&& c2 == condition
            &&& t2@ == if true_target@ == t {
                tramp
            } else {
                true_target@
            }
            &&& f2@ == if false_target@ == t {
                tramp
            } else {
                false_target@
            }
        },
        Terminator::Branch { .. } => new matches Terminator::Branch { target } && target@ == tramp,
        _ => new == old,
    }
}

/// In every phi of `block`, name predecessor `to` wherever it names `from`.
fn rename_phi_predecessor(block: &mut BasicBlock, from: &String, to: &String, Ghost(rs): Ghost<Seq<(Seq<char>, Seq<char>)>>, Ghost(orig): Ghost<BasicBlock>)
    requires
        old(block).instructions@.len() == orig.instructions@.len(),
        forall|m: int| 0 <= m < orig.instructions@.len() ==> phi_renamed(#[trigger] orig.instructions@[m], old(block).instructions@[m], rs),
    ensures
        final(block).label == old(block).label,
        final(block).terminator == old(block).terminator,
        final(block).debug_locs == old(block).debug_locs,
        final(block).instructions@.len() == orig.instructions@.len(),
        forall|m: int| 0 <= m < orig.instructions@.len() ==> phi_renamed(
            #[trigger] orig.instructions@[m],
            final(block).instructions@[m],
            rs.push((from@, to@)),
        ),
{
    let ghost rs2 = rs.push((from@, to@));
    let mut m: usize = 0;
    while m < block.instructions.len()
        invariant
            rs2 == rs.push((from@, to@)),
            block.label == old(block).label,
            block.terminator == old(block).terminator,
            block.debug_locs == old(block).debug_locs,
            block.instructions@.len() == orig.instructions@.len(),
            m <= block.instructions@.len(),
            forall|q: int| 0 <= q < m ==> phi_renamed(#[trigger] orig.instructions@[q], block.instructions@[q], rs2),
            forall|q: int| m <= q < orig.instructions@.len() ==> phi_renamed(#[trigger] orig.instructions@[q], block.instructions@[q], rs),
            forall|q: int| m <= q < orig.instructions@.len() ==> #[trigger] block.instructions@[q] == old(block).instructions@[q],
        decreases block.instructions.len() - m,
    {
        let ghost cur = block.instructions@[m as int];
        let replacement = match &block.instructions[m] {
            Instruction::Phi { ty, incoming } => {
                let mut renamed_incoming: Vec<(ValueId, String)> = Vec::new();
                let mut k: usize = 0;
                while k < incoming.len()
                    invariant
                        k <= incoming@.len(),
                        renamed_incoming@.len() == k,
                        forall|q: int|
                            0 <= q < k ==> (#[trigger] renamed_incoming@[q]).0 == incoming@[q].0 && renamed_incoming@[q].1@
                                == if incoming@[q].1@ == from@ {
                                to@
                            } else {
                                incoming@[q].1@
                            },
                    decreases incoming.len() - k,
                {
                    if incoming[k].1 == *from {
                        renamed_incoming.push((incoming[k].0, to.clone()));
                    } else {
                        renamed_incoming.push((incoming[k].0, incoming[k].1.clone()));
                    }
                    k = k + 1;
                }
                Some(Instruction::Phi { ty: *ty, incoming: renamed_incoming })
            },
            _ => None,
        };
        match replacement {
            Some(r) => {
                block.instructions.set(m, r);
            },
            None => {},
        }
        proof {
            let o = orig.instructions@[m as int];
            assert(phi_renamed(o, cur, rs));
            let n = block.instructions@[m as int];
            if let Instruction::Phi { ty, incoming } = o {
                assert forall|q: int| 0 <= q < incoming@.len() implies (#[trigger] n->Phi_incoming@[q]).0 == incoming@[q].0
                    && n->Phi_incoming@[q].1@ == renamed(incoming@[q].1@, rs2) by {
                    assert(rs2.drop_last() =~= rs);
                }
            }
            assert(phi_renamed(o, n, rs2));
        }
        m = m + 1;
    }
}

/// Block `i` of `bs` sits in `after` at `i` plus the number of critical
/// edges before it, with its label, debug locations and instructions; its
/// terminator sends its last critical edge, if any, to that edge's
/// trampoline.
pub open spec fn placed_unrenamed(bs: Seq<BasicBlock>, after: Seq<BasicBlock>, i: int) -> bool {
    let j = i + critical_before(bs, i);
    let b = bs[i];
    let a = after[j];
    let cs = critical_targets(bs, i);
    &&& a.label == b.label
    &&& a.debug_locs == b.debug_locs
    &&& a.instructions == b.instructions
    &&& if cs.len() == 0 {
        a.terminator == b.terminator
    } else {
        redirected(b.terminator, a.terminator, cs.last(), trampoline_label(b.label@, cs.last()))
    }
}

/// As [`placed_unrenamed`], but the phis of the block carry the renames
/// that the critical edges of `bs` aim at its position in `after`.
pub open spec fn placed(bs: Seq<BasicBlock>, after: Seq<BasicBlock>, i: int) -> bool {
    let j = i + critical_before(bs, i);
    let b = bs[i];
    let a = after[j];
    let cs = critical_targets(bs, i);
    &&& a.label == b.label
    &&& a.debug_locs == b.debug_locs
    &&& a.instructions@.len() == b.instructions@.len()
    &&& forall|m: int|
        0 <= m < b.instructions@.len() ==> phi_renamed(
            #[trigger] b.instructions@[m],
            a.instructions@[m],
            renames_for(critical_edges(bs, bs.len() as int), after, j),
        )
    &&& if cs.len() == 0 {
        a.terminator == b.terminator
    } else {
        redirected(b.terminator, a.terminator, cs.last(), trampoline_label(b.label@, cs.last()))
    }
}

/// The trampoline of the `k`-th critical edge out of block `i` follows
/// that block (and its earlier trampolines) in `after`: empty, and
/// branching to the edge's target.
pub open spec fn trampoline_placed(bs: Seq<BasicBlock>, after: Seq<BasicBlock>, i: int, k: int) -> bool {
    let j = i + critical_before(bs, i) + 1 + k;
    let t = critical_targets(bs, i)[k];
    &&& after[j].label@ == trampoline_label(bs[i].label@, t)
    &&& after[j].instructions@.len() == 0
    &&& after[j].debug_locs@.len() == 0
    &&& after[j].terminator matches Terminator::Branch { target } && target@ == t
}

/// `after` is `bs` with a trampoline block on every critical edge.
pub open spec fn edges_split(bs: Seq<BasicBlock>, after: Seq<BasicBlock>) -> bool {
    &&& after.len() == bs.len() + critical_before(bs, bs.len() as int)
    &&& forall|i: int| 0 <= i < bs.len() ==> #[trigger] placed(bs, after, i)
    &&& forall|i: int, k: int|
        0 <= i < bs.len() && 0 <= k < critical_targets(bs, i).len() ==> #[trigger] trampoline_placed(bs, after, i, k)
}

/// The targets of the last block labelled `label`.
fn last_targets_of(blocks: &Vec<BasicBlock>, label: &String) -> (r: Vec<String>)
    ensures
        label_texts(r@) == last_targets(blocks@, label@),
{
    let mut b: usize = blocks.len();
    assert(blocks@.subrange(0, b as int) =~= blocks@);
    while b > 0
        invariant
            b <= blocks@.len(),
            last_targets(blocks@, label@) == last_targets(blocks@.subrange(0, b as int), label@),
        decreases b,
    {
        proof {
            let t = blocks@.subrange(0, b as int);
            assert(t.drop_last() =~= blocks@.subrange(0, b - 1));
        }
        if blocks[b - 1].label == *label {
            return blocks[b - 1].referenced_labels();
        }
        b = b - 1;
    }
    let r: Vec<String> = Vec::new();
    assert(label_texts(r@) =~= seq![]);
    r
}

/// The targets of the critical edges out of block `i`.
fn critical_targets_of(blocks: &Vec<BasicBlock>, i: usize) -> (r: Vec<String>)
    requires
        i < blocks@.len(),
    ensures
        label_texts(r@) == critical_targets(blocks@, i as int),
{
    let ts = last_targets_of(blocks, &blocks[i].label);
    let mut r: Vec<String> = Vec::new();
    if ts.len() <= 1 {
        assert(label_texts(r@) =~= seq![]);
        return r;
    }
    let ghost tv = label_texts(ts@);
    let mut k: usize = 0;
    while k < ts.len()
        invariant
            tv == label_texts(ts@),
            k <= ts@.len(),
            label_texts(r@) == shared_targets(blocks@, tv.subrange(0, k as int)),
        decreases ts.len() - k,
    {
        let preds = predecessors_for(blocks, &ts[k]);
        let ghost r0 = r@;
        proof {
            let t = tv.subrange(0, k + 1);
            assert(t.drop_last() =~= tv.subrange(0, k as int));
            assert(t.last() == ts@[k as int]@);
            assert(label_texts(preds@).len() == preds@.len());
        }
        if preds.len() > 1 {
            r.push(ts[k].clone());
            assert(label_texts(r@) =~= label_texts(r0).push(ts@[k as int]@));
        }
        k = k + 1;
        assert(label_texts(r@) =~= shared_targets(blocks@, tv.subrange(0, k as int)));
    }
    assert(tv.subrange(0, k as int) =~= tv);
    r
}

/// The label of the trampoline on the edge from `pred` to `succ`.
fn trampoline_label_of(pred: &String, succ: &String) -> (r: String)
    ensures
        r@ == trampoline_label(pred@, succ@),
{
    let mut r = pred.clone();
    push_str(&mut r, "_");
    push_str(&mut r, succ.as_str());
    push_str(&mut r, "_trampoline");
    r
}

/// `term` with the edge to `t` sent to `tramp` (see [`redirected`]).
fn redirect_terminator(term: &Terminator, t: &String, tramp: &String) -> (r: Terminator)
    ensures
        redirected(*term, r, t@, tramp@),
{
    match term {
        Terminator::CondBranch { condition, true_target, false_target } => {
            let tt = if *true_target == *t {
                tramp.clone()
            } else {
                true_target.clone()
            };
            let ft = if *false_target == *t {
                tramp.clone()
            } else {
                false_target.clone()
            };
            Terminator::CondBranch { condition: *condition, true_target: tt, false_target: ft }
        },
        Terminator::Branch { .. } => Terminator::Branch { target: tramp.clone() },
        Terminator::Return { value } => Terminator::Return { value: *value },
        Terminator::Unreachable => Terminator::Unreachable,
    }
}

/// The texts of each (predecessor, target, trampoline) label triple.
pub open spec fn edge_texts(es: Seq<(String, String, String)>) -> Seq<(Seq<char>, Seq<char>, Seq<char>)> {
    es.map_values(|e: (String, String, String)| (e.0@, e.1@, e.2@))
}

/// The critical targets of every block.
fn all_critical_targets(blocks: &Vec<BasicBlock>) -> (crit: Vec<Vec<String>>)
    ensures
        crit@.len() == blocks@.len(),
        forall|i: int| 0 <= i < blocks@.len() ==> label_texts(#[trigger] crit@[i]@) == critical_targets(blocks@, i),
{
    let mut crit: Vec<Vec<String>> = Vec::new();
    let mut i: usize = 0;
    while i < blocks.len()
        invariant
            i <= blocks@.len(),
            crit@.len() == i,
            forall|q: int| 0 <= q < i ==> label_texts(#[trigger] crit@[q]@) == critical_targets(blocks@, q),
        decreases blocks.len() - i,
    {
        crit.push(critical_targets_of(blocks, i));
        i = i + 1;
    }
    crit
}

/// `renames_for` reads only the labels of `after`.
proof fn lemma_renames_same_labels(
    edges: Seq<(Seq<char>, Seq<char>, Seq<char>)>,
    a: Seq<BasicBlock>,
    b: Seq<BasicBlock>,
    j: int,
)
    requires
        a.len() == b.len(),
        forall|i: int| 0 <= i < a.len() ==> #[trigger] a[i].label@ == b[i].label@,
    ensures
        renames_for(edges, a, j) == renames_for(edges, b, j),
    decreases edges.len(),
{
    if edges.len() > 0 {
        lemma_renames_same_labels(edges.drop_last(), a, b, j);
        lemma_first_block_index_same_labels(a, b, edges.last().1);
    }
}

/// Rename, edge after edge, the phi predecessors of the first block
/// labelled with the edge's target, from the edge's predecessor to its
/// trampoline.
fn rename_along_edges(laid: &mut Vec<BasicBlock>, edges: &Vec<(String, String, String)>)
    ensures
        final(laid)@.len() == old(laid)@.len(),
        forall|j: int|
            0 <= j < old(laid)@.len() ==> {
                let o = old(laid)@[j];
                let n = #[trigger] final(laid)@[j];
                &&& n.label == o.label
                &&& n.terminator == o.terminator
                &&& n.debug_locs == o.debug_locs
                &&& n.instructions@.len() == o.instructions@.len()
                &&& forall|m: int|
                    0 <= m < o.instructions@.len() ==> phi_renamed(
                        #[trigger] o.instructions@[m],
                        n.instructions@[m],
                        renames_for(edge_texts(edges@), old(laid)@, j),
                    )
            },
{
    let ghost start = laid@;
    let ghost es = edge_texts(edges@);
    let mut q: usize = 0;
    while q < edges.len()
        invariant
            start == old(laid)@,
            es == edge_texts(edges@),
            q <= edges@.len(),
            laid@.len() == start.len(),
            forall|j: int|
                0 <= j < start.len() ==> {
                    let o = start[j];
                    let n = #[trigger] laid@[j];
                    &&& n.label == o.label
                    &&& n.terminator == o.terminator
                    &&& n.debug_locs == o.debug_locs
                    &&& n.instructions@.len() == o.instructions@.len()
                    &&& forall|m: int|
                        0 <= m < o.instructions@.len() ==> phi_renamed(
                            #[trigger] o.instructions@[m],
                            n.instructions@[m],
                            renames_for(es.subrange(0, q as int), start, j),
                        )
                },
        decreases edges.len() - q,
    {
        let ghost before = laid@;
        proof {
            let t = es.subrange(0, q + 1);
            assert(t.drop_last() =~= es.subrange(0, q as int));
            assert(t.last() == (edges@[q as int].0@, edges@[q as int].1@, edges@[q as int].2@));
            assert forall|i: int| 0 <= i < start.len() implies #[trigger] before[i].label@ == start[i].label@ by {
                assert(before[i].label == start[i].label);
            }
            lemma_first_block_index_same_labels(before, start, edges@[q as int].1@);
        }
        match block_position(laid, &edges[q].1) {
            Some(j) => {
                let mut blk = laid.remove(j);
                rename_phi_predecessor(
                    &mut blk,
                    &edges[q].0,
                    &edges[q].2,
                    Ghost(renames_for(es.subrange(0, q as int), start, j as int)),
                    Ghost(start[j as int]),
                );
                laid.insert(j, blk);
                proof {
                    assert(laid@ =~= before.update(j as int, blk));
                    let e = es[q as int];
                    let t = es.subrange(0, q + 1);
                    assert(first_block_index(start, e.1) == Some(j as int));
                    assert(renames_for(t, start, j as int) =~= renames_for(es.subrange(0, q as int), start, j as int).push(
                        (e.0, e.2),
                    ));
                    assert forall|jj: int| 0 <= jj < start.len() && jj != j implies renames_for(t, start, jj)
                        == renames_for(es.subrange(0, q as int), start, jj) by {
                        assert(renames_for(t, start, jj) =~= renames_for(es.subrange(0, q as int), start, jj));
                    }
                    assert forall|jj: int| 0 <= jj < start.len() implies {
                        let o = start[jj];
                        let n = #[trigger] laid@[jj];
                        &&& n.label == o.label
                        &&& n.terminator == o.terminator
                        &&& n.debug_locs == o.debug_locs
                        &&& n.instructions@.len() == o.instructions@.len()
                        &&& forall|m: int|
                            0 <= m < o.instructions@.len() ==> phi_renamed(
                                #[trigger] o.instructions@[m],
                                n.instructions@[m],
                                renames_for(es.subrange(0, q + 1), start, jj),
                            )
                    } by {
                        if jj != j {
                            assert(laid@[jj] == before[jj]);
                        }
                    }
                }
            },
            None => {
                proof {
                    let t = es.subrange(0, q + 1);
                    assert forall|jj: int| 0 <= jj < start.len() implies renames_for(t, start, jj)
                        == renames_for(es.subrange(0, q as int), start, jj) by {
                        assert(renames_for(t, start, jj) =~= renames_for(es.subrange(0, q as int), start, jj));
                    }
                    assert forall|jj: int| 0 <= jj < start.len() implies {
                        let o = start[jj];
                        let n = #[trigger] laid@[jj];
                        &&& n.label == o.label
                        &&& n.terminator == o.terminator
                        &&& n.debug_locs == o.debug_locs
                        &&& n.instructions@.len() == o.instructions@.len()
                        &&& forall|m: int|
                            0 <= m < o.instructions@.len() ==> phi_renamed(
                                #[trigger] o.instructions@[m],
                                n.instructions@[m],
                                renames_for(es.subrange(0, q + 1), start, jj),
                            )
                    } by {
                        assert(laid@[jj] == before[jj]);
                    }
                }
            },
        }
        q = q + 1;
    }
    proof {
        assert(es.subrange(0, q as int) =~= es);
    }
}

/// The position of the first block labelled `label`.
fn block_position(blocks: &Vec<BasicBlock>, label: &String) -> (r: Option<usize>)
    ensures
        r matches Some(j) ==> j < blocks@.len() && first_block_index(blocks@, label@) == Some(j as int),
        r is None ==> first_block_index(blocks@, label@) is None,
{
    let mut j: usize = 0;
    while j < blocks.len()
        invariant
            j <= blocks@.len(),
            forall|q: int| 0 <= q < j ==> blocks@[q].label@ != label@,
        decreases blocks.len() - j,
    {
        if blocks[j].label == *label {
            proof {
                reveal(first_block_index);
                let k = choose|k: int|
                    0 <= k < blocks@.len() && #[trigger] blocks@[k].label@ == label@ && forall|q: int|
                        0 <= q < k ==> blocks@[q].label@ != label@;
                if k < j {
                } else if k > j {
                }
                assert(k == j);
            }
            return Some(j);
        }
        j = j + 1;
    }
    proof {
        reveal(first_block_index);
    }
    None
}

/// The trampoline labels of `es`.
pub open spec fn trampoline_labels(es: Seq<(Seq<char>, Seq<char>, Seq<char>)>) -> Set<Seq<char>> {
    es.map_values(|e: (Seq<char>, Seq<char>, Seq<char>)| e.2).to_set()
}

proof fn lemma_critical_before_grows(bs: Seq<BasicBlock>, a: int, b: int)
    requires
        0 <= a <= b,
    ensures
        a + critical_before(bs, a) <= b + critical_before(bs, b),
    decreases b - a,
{
    if a < b {
        lemma_critical_before_grows(bs, a, b - 1);
    }
}

/// The blocks before block `i` and their trampolines are in place.
spec fn laid_upto(bs: Seq<BasicBlock>, laid: Seq<BasicBlock>, i: int) -> bool {
    &&& forall|i2: int| 0 <= i2 < i ==> #[trigger] placed_unrenamed(bs, laid, i2)
    &&& forall|i2: int, k: int|
        0 <= i2 < i && 0 <= k < critical_targets(bs, i2).len() ==> #[trigger] trampoline_placed(bs, laid, i2, k)
}

proof fn lemma_laid_extend(bs: Seq<BasicBlock>, laid: Seq<BasicBlock>, x: BasicBlock, i: int)
    requires
        0 <= i <= bs.len(),
        laid.len() >= i + critical_before(bs, i),
        laid_upto(bs, laid, i),
    ensures
        laid_upto(bs, laid.push(x), i),
{
    let l2 = laid.push(x);
    assert forall|i2: int| 0 <= i2 < i implies #[trigger] placed_unrenamed(bs, l2, i2) by {
        assert(placed_unrenamed(bs, laid, i2));
        lemma_critical_before_grows(bs, i2 + 1, i);
        assert(l2[i2 + critical_before(bs, i2)] == laid[i2 + critical_before(bs, i2)]);
    }
    assert forall|i2: int, k: int| 0 <= i2 < i && 0 <= k < critical_targets(bs, i2).len() implies #[trigger] trampoline_placed(
        bs,
        l2,
        i2,
        k,
    ) by {
        assert(trampoline_placed(bs, laid, i2, k));
        lemma_critical_before_grows(bs, i2 + 1, i);
        assert(l2[i2 + critical_before(bs, i2) + 1 + k] == laid[i2 + critical_before(bs, i2) + 1 + k]);
    }
}

/// The blocks `blocks` with a trampoline block after each block for each
/// of its critical edges, that block's last critical edge sent to its
/// trampoline; the critical edges as (predecessor, target, trampoline)
/// labels; the trampoline labels, each once.
fn lay_out_trampolines(blocks: Vec<BasicBlock>, crit: &Vec<Vec<String>>) -> (r: (Vec<BasicBlock>, Vec<(String, String, String)>, Vec<String>))
    requires
        crit@.len() == blocks@.len(),
        forall|i: int| 0 <= i < blocks@.len() ==> label_texts(#[trigger] crit@[i]@) == critical_targets(blocks@, i),
    ensures
        r.0@.len() == blocks@.len() + critical_before(blocks@, blocks@.len() as int),
        laid_upto(blocks@, r.0@, blocks@.len() as int),
        edge_texts(r.1@) == critical_edges(blocks@, blocks@.len() as int),
        distinct_labels(r.2@),
        labels_in(r.2@) == trampoline_labels(critical_edges(blocks@, blocks@.len() as int)),
{
    let ghost bs = blocks@;
    let n = blocks.len();
    let mut rest = blocks;
    let mut laid: Vec<BasicBlock> = Vec::new();
    let mut edges: Vec<(String, String, String)> = Vec::new();
    let mut tramps: Vec<String> = Vec::new();
    proof {
        assert(bs.subrange(0, bs.len() as int) =~= bs);
        assert(labels_in(tramps@) =~= trampoline_labels(critical_edges(bs, 0)));
        assert(edge_texts(edges@) =~= critical_edges(bs, 0));
    }
    let mut i: usize = 0;
    while i < n
        invariant
            n == bs.len(),
            crit@.len() == bs.len(),
            forall|q: int| 0 <= q < bs.len() ==> label_texts(#[trigger] crit@[q]@) == critical_targets(bs, q),
            i <= n,
            rest@ == bs.subrange(i as int, n as int),
            laid@.len() == i + critical_before(bs, i as int),
            laid_upto(bs, laid@, i as int),
            edge_texts(edges@) == critical_edges(bs, i as int),
            distinct_labels(tramps@),
            labels_in(tramps@) == trampoline_labels(edge_texts(edges@)),
        decreases n - i,
    {
        let ghost ii = i as int;
        let ghost ct = critical_targets(bs, ii);
        let ghost lab = bs[ii].label@;
        let mut b = rest.remove(0);
        assert(b == bs[ii]);
        let cs = &crit[i];
        assert(label_texts(cs@) == ct);
        assert(label_texts(cs@).len() == cs@.len());
        if cs.len() > 0 {
            let t = &cs[cs.len() - 1];
            assert(label_texts(cs@)[cs@.len() - 1] == t@);
            let tramp = trampoline_label_of(&b.label, t);
            b.terminator = redirect_terminator(&b.terminator, t, &tramp);
        }
        let label = b.label.clone();
        let ghost laid0 = laid@;
        laid.push(b);
        proof {
            lemma_laid_extend(bs, laid0, b, ii);
            assert(laid@[ii + critical_before(bs, ii)] == b);
            assert(placed_unrenamed(bs, laid@, ii));
            assert(rest@ =~= bs.subrange(ii + 1, n as int));
        }
        let ghost edges0 = edge_texts(edges@);
        let mut k: usize = 0;
        while k < cs.len()
            invariant
                n == bs.len(),
                ii == i,
                i < n,
                ct == critical_targets(bs, ii),
                lab == bs[ii].label@,
                label@ == lab,
                label_texts(cs@) == ct,
                cs@.len() == ct.len(),
                k <= cs@.len(),
                laid@.len() == ii + critical_before(bs, ii) + 1 + k,
                laid_upto(bs, laid@, ii),
                placed_unrenamed(bs, laid@, ii),
                forall|k2: int| 0 <= k2 < k ==> #[trigger] trampoline_placed(bs, laid@, ii, k2),
                edges0 == critical_edges(bs, ii),
                edge_texts(edges@) == edges0 + ct.subrange(0, k as int).map_values(
                    |t: Seq<char>| (lab, t, trampoline_label(lab, t)),
                ),
                distinct_labels(tramps@),
                labels_in(tramps@) == trampoline_labels(edge_texts(edges@)),
            decreases cs.len() - k,
        {
            let tramp = trampoline_label_of(&label, &cs[k]);
            let ghost e0 = edge_texts(edges@);
            add_label(&mut tramps, &tramp);
            edges.push((label.clone(), cs[k].clone(), tramp.clone()));
            let tb = BasicBlock {
                label: tramp,
                instructions: Vec::new(),
                debug_locs: Vec::new(),
                terminator: Terminator::Branch { target: cs[k].clone() },
            };
            let ghost laid1 = laid@;
            laid.push(tb);
            proof {
                let kk = k as int;
                assert(label_texts(cs@)[kk] == cs@[kk]@);
                let x = (lab, ct[kk], trampoline_label(lab, ct[kk]));
                assert(edge_texts(edges@) =~= e0.push(x));
                assert(ct.subrange(0, kk + 1).map_values(|t: Seq<char>| (lab, t, trampoline_label(lab, t))) =~= ct.subrange(
                    0,
                    kk,
                ).map_values(|t: Seq<char>| (lab, t, trampoline_label(lab, t))).push(x));
                assert(edge_texts(edges@) =~= edges0 + ct.subrange(0, kk + 1).map_values(
                    |t: Seq<char>| (lab, t, trampoline_label(lab, t)),
                ));
                let f = |e: (Seq<char>, Seq<char>, Seq<char>)| e.2;
                assert(edge_texts(edges@).map_values(f) =~= e0.map_values(f).push(x.2));
                e0.map_values(f).lemma_push_to_set_commute(x.2);
                assert(labels_in(tramps@) =~= trampoline_labels(edge_texts(edges@)));
                lemma_laid_extend(bs, laid1, tb, ii);
                lemma_critical_before_grows(bs, ii, ii);
                assert forall|k2: int| 0 <= k2 < kk + 1 implies #[trigger] trampoline_placed(bs, laid@, ii, k2) by {
                    if k2 < kk {
                        assert(trampoline_placed(bs, laid1, ii, k2));
                        assert(laid@[ii + critical_before(bs, ii) + 1 + k2] == laid1[ii + critical_before(bs, ii) + 1 + k2]);
                    } else {
                        assert(laid@[ii + critical_before(bs, ii) + 1 + k2] == tb);
                    }
                }
                assert(laid@[ii + critical_before(bs, ii)] == laid1[ii + critical_before(bs, ii)]);
            }
            k = k + 1;
        }
        proof {
            assert(ct.subrange(0, k as int) =~= ct);
            assert(critical_edges(bs, ii + 1) == critical_edges(bs, ii) + ct.map_values(
                |t: Seq<char>| (lab, t, trampoline_label(lab, t)),
            ));
            assert(laid_upto(bs, laid@, ii + 1)) by {
                assert forall|i2: int, k2: int|
                    0 <= i2 < ii + 1 && 0 <= k2 < critical_targets(bs, i2).len() implies #[trigger] trampoline_placed(
                    bs,
                    laid@,
                    i2,
                    k2,
                ) by {
                    if i2 == ii {
                        assert(trampoline_placed(bs, laid@, ii, k2));
                    }
                }
                assert forall|i2: int| 0 <= i2 < ii + 1 implies #[trigger] placed_unrenamed(bs, laid@, i2) by {
                    if i2 == ii {
                        assert(placed_unrenamed(bs, laid@, ii));
                    }
                }
            }
        }
        i = i + 1;
    }
    (laid, edges, tramps)
}

/// Give every critical edge a block of its own: an edge is critical when
/// it leaves a block whose label's last block has more than one target and
/// enters a label into which more than one edge leads. After each block
/// come the trampolines of its critical edges, each an empty block that
/// branches to the edge's target; the block's last critical edge is sent
/// to its trampoline; and in the first block labelled with each edge's
/// target, phis name the trampoline where they named the block. Returns
/// the trampoline labels, each once.
pub fn split_critical_edges(func: &mut IrFunction) -> (trampolines: Vec<String>)
    ensures
        final(func).name == old(func).name,
        final(func).return_ty == old(func).return_ty,
        final(func).params == old(func).params,
        final(func).values == old(func).values,
        final(func).entry_block == old(func).entry_block,
        final(func).value_counter == old(func).value_counter,
        edges_split(old(func).blocks@, final(func).blocks@),
        distinct_labels(trampolines@),
        labels_in(trampolines@) == trampoline_labels(critical_edges(old(func).blocks@, old(func).blocks@.len() as int)),
{
    let ghost bs = func.blocks@;
    let crit = all_critical_targets(&func.blocks);
    let mut blocks: Vec<BasicBlock> = Vec::new();
    std::mem::swap(&mut blocks, &mut func.blocks);
    let (mut laid, edges, tramps) = lay_out_trampolines(blocks, &crit);
    let ghost unrenamed = laid@;
    rename_along_edges(&mut laid, &edges);
    func.blocks = laid;
    proof {
        let after = func.blocks@;
        let n = bs.len() as int;
        assert forall|j: int| 0 <= j < unrenamed.len() implies #[trigger] unrenamed[j].label@ == after[j].label@ by {
            assert(after[j].label == unrenamed[j].label);
        }
        assert forall|i: int| 0 <= i < n implies #[trigger] placed(bs, after, i) by {
            assert(placed_unrenamed(bs, unrenamed, i));
            let j = i + critical_before(bs, i);
            lemma_critical_before_grows(bs, i + 1, n);
            assert(0 <= j < unrenamed.len());
            let nb = after[j];
            assert(nb.label == unrenamed[j].label);
            lemma_renames_same_labels(critical_edges(bs, n), unrenamed, after, j);
            assert forall|m: int| 0 <= m < bs[i].instructions@.len() implies phi_renamed(
                #[trigger] bs[i].instructions@[m],
                after[j].instructions@[m],
                renames_for(critical_edges(bs, n), after, j),
            ) by {
                assert(unrenamed[j].instructions@[m] == bs[i].instructions@[m]);
            }
        }
        assert forall|i: int, k: int| 0 <= i < n && 0 <= k < critical_targets(bs, i).len() implies #[trigger] trampoline_placed(
            bs,
            after,
            i,
            k,
        ) by {
            assert(trampoline_placed(bs, unrenamed, i, k));
            lemma_critical_before_grows(bs, i + 1, n);
            let j = i + critical_before(bs, i) + 1 + k;
            assert(0 <= j < unrenamed.len());
            let nb = after[j];
        }
    }
    tramps
}

} // verus!
