//! Incremental construction of SAIR modules.
//!
//! The builder appends to a module: [`IrBuilder::start_function`] opens a
//! function, [`IrBuilder::new_block`] opens a block in it, and the
//! instruction methods append to that block. Value-producing instructions
//! take the function's next SSA id.

use vstd::prelude::*;

use crate::ir::block::BasicBlock;
use crate::ir::debug::DebugLoc;
use crate::ir::function::{first_block_index, lemma_first_block_index, lemma_first_block_index_same_labels, IrFunction};
use crate::ir::instruction::{CastOp, GepIndex, Instruction, Terminator};
use crate::ir::module::{last_function_index, lemma_last_function_index, lemma_last_function_index_same_names, IrModule};
use crate::ir::types::IrType;
use crate::ir::value::{Constant, SsaValue, ValueId};
use crate::strings::owned;

verus! {

/// Builds an [`IrModule`] function by function and block by block.
///
/// `current_func` and `current_block` name the function and block being
/// built; the contracts speak of them through
/// [`IrBuilder::current_function_name`] and
/// [`IrBuilder::current_block_label`].
pub struct IrBuilder {
    pub module: IrModule,
    pub current_func: Option<String>,
    pub current_block: Option<String>,
}

/// Every block of every function of `m` is well formed.
#[verifier::opaque]
pub open spec fn module_blocks_wf(m: IrModule) -> bool {
    forall|f: int, b: int|
        0 <= f < m.functions@.len() && 0 <= b < m.functions@[f].blocks@.len() ==> (
        #[trigger] m.functions@[f].blocks@[b]).wf()
}

impl IrBuilder {
    /// The name of the function being built, if any.
    pub open spec fn current_function_name(&self) -> Option<Seq<char>> {
        match self.current_func {
            Some(n) => Some(n@),
            None => None,
        }
    }

    /// The label of the block being built, if any.
    pub open spec fn current_block_label(&self) -> Option<Seq<char>> {
        match self.current_block {
            Some(l) => Some(l@),
            None => None,
        }
    }

    /// The position in the module of the function being built: the last
    /// function carrying its name.
    pub open spec fn function_slot(&self) -> Option<int> {
        match self.current_function_name() {
            Some(n) => last_function_index(self.module.functions@, n),
            None => None,
        }
    }

    /// The function being built.
    pub open spec fn current_function(&self) -> IrFunction {
        self.module.functions@[self.function_slot()->0]
    }

    /// The position in the current function of the block being built: the
    /// first block carrying its label.
    pub open spec fn block_slot(&self) -> Option<int> {
        match (self.function_slot(), self.current_block_label()) {
            (Some(f), Some(l)) => first_block_index(self.module.functions@[f].blocks@, l),
            _ => None,
        }
    }

    /// The block being built.
    pub open spec fn current_block(&self) -> BasicBlock {
        self.current_function().blocks@[self.block_slot()->0]
    }

    /// The builder's module keeps one debug slot per instruction.
    pub open spec fn wf(&self) -> bool {
        module_blocks_wf(self.module)
    }

    /// A function can take parameters and values.
    pub open spec fn in_function(&self) -> bool {
        self.function_slot() is Some
    }

    /// A block can take instructions and a terminator; the current
    /// function can hand out another SSA id.
    pub open spec fn can_emit(&self) -> bool {
        &&& self.block_slot() is Some
        &&& self.current_function().next_id() < usize::MAX
    }
}

/// `new` differs from `old` at most in the function being built, and keeps
/// the builder's position and the module's entry and static data.
pub open spec fn same_outside_current(old: IrBuilder, new: IrBuilder) -> bool {
    &&& new.module.functions@.len() == old.module.functions@.len()
    &&& forall|j: int|
        0 <= j < old.module.functions@.len() && j != old.function_slot()->0 ==> #[trigger] new.module.functions@[j]
            == old.module.functions@[j]
    &&& new.module.entry == old.module.entry
    &&& new.module.static_data == old.module.static_data
    &&& new.current_function_name() == old.current_function_name()
    &&& new.current_block_label() == old.current_block_label()
    &&& new.function_slot() == old.function_slot()
    &&& new.block_slot() == old.block_slot()
    &&& new.current_function().name == old.current_function().name
    &&& new.current_function().return_ty == old.current_function().return_ty
    &&& new.current_function().params == old.current_function().params
    &&& new.current_function().entry_block == old.current_function().entry_block
}

/// `new` is `old` with `instr` appended, without debug location, to the
/// block being built; the current function's value table is `values` and
/// its next id `next`; every other block is unchanged.
pub open spec fn appended(
    old: IrBuilder,
    new: IrBuilder,
    instr: Instruction,
    values: Seq<SsaValue>,
    next: nat,
) -> bool {
    let of = old.current_function();
    let nf = new.current_function();
    let bi = old.block_slot()->0;
    &&& same_outside_current(old, new)
    &&& nf.values@ == values
    &&& nf.next_id() == next
    &&& nf.blocks@.len() == of.blocks@.len()
    &&& forall|k: int| 0 <= k < of.blocks@.len() && k != bi ==> #[trigger] nf.blocks@[k] == of.blocks@[k]
    &&& nf.blocks@[bi].label == of.blocks@[bi].label
    &&& nf.blocks@[bi].terminator == of.blocks@[bi].terminator
    &&& nf.blocks@[bi].instructions@ == of.blocks@[bi].instructions@.push(instr)
    &&& nf.blocks@[bi].debug_locs@ == of.blocks@[bi].debug_locs@.push(None)
}

/// `new` is `old` with `instr` appended to the block being built, defining
/// the value `id` of type `ty`, the current function's next id.
pub open spec fn appended_value(old: IrBuilder, new: IrBuilder, instr: Instruction, ty: IrType, id: ValueId) -> bool {
    &&& id == old.current_function().next_id()
    &&& appended(
        old,
        new,
        instr,
        old.current_function().values@.push(SsaValue { id, ty, name: None }),
        old.current_function().next_id() + 1,
    )
}

/// `new` is `old` with the block being built now ending in `term`.
pub open spec fn terminated(old: IrBuilder, new: IrBuilder, term: Terminator) -> bool {
    let of = old.current_function();
    let nf = new.current_function();
    let bi = old.block_slot()->0;
    &&& same_outside_current(old, new)
    &&& nf.values == of.values
    &&& nf.next_id() == of.next_id()
    &&& nf.name == of.name
    &&& nf.return_ty == of.return_ty
    &&& nf.params == of.params
    &&& nf.entry_block == of.entry_block
    &&& nf.blocks@.len() == of.blocks@.len()
    &&& forall|k: int| 0 <= k < of.blocks@.len() && k != bi ==> #[trigger] nf.blocks@[k] == of.blocks@[k]
    &&& nf.blocks@[bi].label == of.blocks@[bi].label
    &&& nf.blocks@[bi].instructions == of.blocks@[bi].instructions
    &&& nf.blocks@[bi].debug_locs == of.blocks@[bi].debug_locs
    &&& nf.blocks@[bi].terminator == term
}

/// `k` is the first position of `incoming` whose predecessor label is `pred`.
pub open spec fn first_from(incoming: Seq<(ValueId, String)>, pred: Seq<char>, k: int) -> bool {
    &&& 0 <= k < incoming.len()
    &&& incoming[k].1@ == pred
    &&& forall|j: int| 0 <= j < k ==> (#[trigger] incoming[j]).1@ != pred
}

/// The position of the first block labelled `label` in the function being
/// built.
pub open spec fn block_in_current(b: IrBuilder, label: Seq<char>) -> Option<int> {
    match b.function_slot() {
        Some(f) => first_block_index(b.module.functions@[f].blocks@, label),
        None => None,
    }
}

/// Instruction `idx` of block `label` of the function being built is a phi
/// with an operand coming from `pred`.
pub open spec fn phi_operand_present(b: IrBuilder, label: Seq<char>, idx: int, pred: Seq<char>) -> bool {
    &&& block_in_current(b, label) matches Some(bi)
    &&& 0 <= idx < b.current_function().blocks@[bi].instructions@.len()
    &&& b.current_function().blocks@[bi].instructions@[idx] matches Instruction::Phi { incoming, .. }
    &&& exists|k: int| 0 <= k < incoming@.len() && #[trigger] incoming@[k].1@ == pred
}

/// `new` is `old` with the first operand coming from `pred` of the phi at
/// instruction `idx` of block `label` of the function being built replaced
/// by `value`; nothing else changes.
pub open spec fn phi_operand_set(
    old: IrBuilder,
    new: IrBuilder,
    label: Seq<char>,
    idx: int,
    pred: Seq<char>,
    value: ValueId,
) -> bool {
    let of = old.current_function();
    let nf = new.current_function();
    let bi = block_in_current(old, label)->0;
    let ob = of.blocks@[bi];
    let nb = nf.blocks@[bi];
    &&& same_outside_current(old, new)
    &&& nf.values == of.values
    &&& nf.next_id() == of.next_id()
    &&& nf.blocks@.len() == of.blocks@.len()
    &&& forall|k: int| 0 <= k < of.blocks@.len() && k != bi ==> #[trigger] nf.blocks@[k] == of.blocks@[k]
    &&& nb.label == ob.label
    &&& nb.terminator == ob.terminator
    &&& nb.debug_locs == ob.debug_locs
    &&& nb.instructions@.len() == ob.instructions@.len()
    &&& forall|i: int| 0 <= i < ob.instructions@.len() && i != idx ==> #[trigger] nb.instructions@[i] == ob.instructions@[i]
    &&& ob.instructions@[idx] matches Instruction::Phi { ty, incoming }
    &&& nb.instructions@[idx] matches Instruction::Phi { ty: nty, incoming: ninc }
    &&& nty == ty
    &&& exists|k: int| first_from(incoming@, pred, k) && ninc@ == incoming@.update(k, (value, incoming@[k].1))
}

/// `new` is `old` with a new block labelled `label`, empty and returning
/// nothing, appended to the function being built and made current.
pub open spec fn opened_block(old: IrBuilder, new: IrBuilder, label: Seq<char>) -> bool {
    &&& new.module.functions@.len() == old.module.functions@.len()
    &&& forall|j: int|
        0 <= j < old.module.functions@.len() && j != old.function_slot()->0 ==> #[trigger] new.module.functions@[j]
            == old.module.functions@[j]
    &&& new.module.entry == old.module.entry
    &&& new.module.static_data == old.module.static_data
    &&& new.current_function_name() == old.current_function_name()
    &&& new.current_block_label() == Some(label)
    &&& new.function_slot() == old.function_slot()
    &&& new.current_function().blocks@.drop_last() == old.current_function().blocks@
    &&& new.current_function().blocks@.len() == old.current_function().blocks@.len() + 1
    &&& new.current_function().blocks@.last().label@ == label
    &&& new.current_function().blocks@.last().instructions@.len() == 0
    &&& new.current_function().blocks@.last().terminator == (Terminator::Return { value: None })
    &&& new.current_function().name == old.current_function().name
    &&& new.current_function().return_ty == old.current_function().return_ty
    &&& new.current_function().params == old.current_function().params
    &&& new.current_function().values == old.current_function().values
    &&& new.current_function().entry_block == old.current_function().entry_block
    &&& new.current_function().next_id() == old.current_function().next_id()
    &&& new.block_slot() is Some
}

/// `new` is `old` with the last block of the function being built changed
/// to `last`, which keeps its label; nothing else changes.
pub open spec fn last_block_replaced(old: IrBuilder, new: IrBuilder, last: BasicBlock) -> bool {
    let of = old.current_function();
    let nf = new.current_function();
    let n = of.blocks@.len();
    &&& same_outside_current(old, new)
    &&& nf.values == of.values
    &&& nf.next_id() == of.next_id()
    &&& nf.blocks@ == of.blocks@.update(n - 1, last)
    &&& last.label == of.blocks@[n - 1].label
}

/// The most recently appended instruction of the block being built.
pub open spec fn last_instruction(b: IrBuilder) -> Instruction {
    b.current_block().instructions@.last()
}

impl IrBuilder {
    /// A builder for an empty module whose entry function is `entry`.
    pub fn new(entry: &str) -> (r: Self)
        ensures
            r.wf(),
            r.module.functions@.len() == 0,
            r.module.entry@ == entry@,
            r.module.static_data.image@.len() == 0,
            r.current_function_name() is None,
            r.current_block_label() is None,
    {
        let r = IrBuilder { module: IrModule::new(entry), current_func: None, current_block: None };
        proof {
            reveal(module_blocks_wf);
        }
        r
    }

    /// The module positions of the function and block being built.
    fn slots(&self) -> (r: (usize, usize))
        requires
            self.block_slot() is Some,
        ensures
            r.0 == self.function_slot()->0,
            r.1 == self.block_slot()->0,
            r.0 < self.module.functions@.len(),
            r.1 < self.current_function().blocks@.len(),
    {
        let f = self.function_position();
        let label = match &self.current_block {
            Some(l) => l,
            None => {
                proof {
                    assert(false);
                }
                return (f, 0);
            },
        };
        proof {
            lemma_first_block_index(self.module.functions@[f as int].blocks@, label@);
        }
        let b = self.module.functions[f].block_index(label.as_str()).unwrap();
        (f, b)
    }

    /// The module position of the function being built.
    fn function_position(&self) -> (r: usize)
        requires
            self.function_slot() is Some,
        ensures
            r == self.function_slot()->0,
            r < self.module.functions@.len(),
    {
        let name = match &self.current_func {
            Some(n) => n,
            None => {
                proof {
                    assert(false);
                }
                return 0;
            },
        };
        proof {
            lemma_last_function_index(self.module.functions@, name@);
        }
        self.module.function_index(name.as_str()).unwrap()
    }

    proof fn lemma_slots_kept(old: IrBuilder, new: IrBuilder, f: int)
        requires
            old.function_slot() == Some(f),
            new.module.functions@.len() == old.module.functions@.len(),
            forall|j: int|
                0 <= j < old.module.functions@.len() && j != f ==> #[trigger] new.module.functions@[j]
                    == old.module.functions@[j],
            new.module.functions@[f].name == old.module.functions@[f].name,
            new.module.functions@[f].blocks@.len() == old.module.functions@[f].blocks@.len(),
            forall|k: int|
                0 <= k < old.module.functions@[f].blocks@.len() ==> #[trigger] new.module.functions@[f].blocks@[k].label
                    == old.module.functions@[f].blocks@[k].label,
            new.current_function_name() == old.current_function_name(),
            new.current_block_label() == old.current_block_label(),
        ensures
            new.function_slot() == old.function_slot(),
            new.block_slot() == old.block_slot(),
    {
        let n = old.current_function_name()->0;
        assert forall|i: int| 0 <= i < old.module.functions@.len() implies #[trigger] old.module.functions@[i].name@
            == new.module.functions@[i].name@ by {
            if i != f {
                assert(new.module.functions@[i] == old.module.functions@[i]);
            }
        }
        lemma_last_function_index_same_names(old.module.functions@, new.module.functions@, n);
        if let Some(l) = old.current_block_label() {
            assert forall|k: int| 0 <= k < old.module.functions@[f].blocks@.len() implies #[trigger] old.module.functions@[f].blocks@[k].label@
                == new.module.functions@[f].blocks@[k].label@ by {
                assert(new.module.functions@[f].blocks@[k].label == old.module.functions@[f].blocks@[k].label);
            }
            lemma_first_block_index_same_labels(
                old.module.functions@[f].blocks@,
                new.module.functions@[f].blocks@,
                l,
            );
        }
    }

    proof fn lemma_block_wf(self, f: int, b: int)
        requires
            self.wf(),
            0 <= f < self.module.functions@.len(),
            0 <= b < self.module.functions@[f].blocks@.len(),
        ensures
            self.module.functions@[f].blocks@[b].wf(),
    {
        reveal(module_blocks_wf);
    }

    /// Open a new function named `name` and make it the current one; no
    /// block is current afterwards.
    pub fn start_function(&mut self, name: &str, return_ty: IrType)
        requires
            old(self).wf(),
        ensures
            final(self).wf(),
            final(self).module.functions@.len() == old(self).module.functions@.len() + 1,
            final(self).module.functions@.drop_last() == old(self).module.functions@,
            final(self).module.entry == old(self).module.entry,
            final(self).module.static_data == old(self).module.static_data,
            final(self).current_function_name() == Some(name@),
            final(self).current_block_label() is None,
            final(self).function_slot() == Some(old(self).module.functions@.len() as int),
            final(self).current_function().name@ == name@,
            final(self).current_function().return_ty == return_ty,
            final(self).current_function().params@.len() == 0,
            final(self).current_function().blocks@.len() == 0,
            final(self).current_function().values@.len() == 0,
            final(self).current_function().entry_block@ == "entry"@,
            final(self).current_function().next_id() == 0,
    {
        let func = IrFunction::new(name, return_ty);
        self.module.add_function(func);
        self.current_func = Some(owned(name));
        self.current_block = None;
        proof {
            let fs = self.module.functions@;
            lemma_last_function_index(fs, name@);
            let i = last_function_index(fs, name@)->0;
            assert(fs[fs.len() - 1].name@ == name@);
            assert(fs.drop_last() =~= old(self).module.functions@);
            reveal(module_blocks_wf);
            assert forall|f: int, b: int|
                0 <= f < fs.len() && 0 <= b < fs[f].blocks@.len() implies (#[trigger] fs[f].blocks@[b]).wf() by {
                assert(f < fs.len() - 1);
                assert(fs[f] == old(self).module.functions@[f]);
            }
        }
    }

    /// Add a parameter to the current function, returning its SSA id.
    pub fn add_param(&mut self, ty: IrType, name: &str) -> (id: ValueId)
        requires
            old(self).wf(),
            old(self).in_function(),
            old(self).current_function().next_id() < usize::MAX,
        ensures
            final(self).wf(),
            id == old(self).current_function().next_id(),
            final(self).module.functions@.len() == old(self).module.functions@.len(),
            forall|j: int|
                0 <= j < old(self).module.functions@.len() && j != old(self).function_slot()->0
                    ==> #[trigger] final(self).module.functions@[j] == old(self).module.functions@[j],
            final(self).module.entry == old(self).module.entry,
            final(self).module.static_data == old(self).module.static_data,
            final(self).current_function_name() == old(self).current_function_name(),
            final(self).current_block_label() == old(self).current_block_label(),
            final(self).function_slot() == old(self).function_slot(),
            final(self).block_slot() == old(self).block_slot(),
            final(self).current_function().next_id() == id + 1,
            final(self).current_function().params@.len() == old(self).current_function().params@.len() + 1,
            final(self).current_function().params@.drop_last() == old(self).current_function().params@,
            final(self).current_function().params@.last().0 == ty,
            final(self).current_function().params@.last().1@ == name@,
            final(self).current_function().values@.drop_last() == old(self).current_function().values@,
            final(self).current_function().values@.last().id == id,
            final(self).current_function().values@.last().ty == ty,
            final(self).current_function().name == old(self).current_function().name,
            final(self).current_function().return_ty == old(self).current_function().return_ty,
            final(self).current_function().blocks == old(self).current_function().blocks,
            final(self).current_function().entry_block == old(self).current_function().entry_block,
    {
        let f = self.function_position();
        let id = self.module.functions[f].add_param(ty, name);
        proof {
            Self::lemma_slots_kept(*old(self), *self, f as int);
            self.lemma_wf_one_function_changed(*old(self), f as int);
        }
        id
    }

    proof fn lemma_wf_one_function_changed(self, old: IrBuilder, f: int)
        requires
            old.wf(),
            0 <= f < old.module.functions@.len(),
            self.module.functions@.len() == old.module.functions@.len(),
            forall|j: int| 0 <= j < old.module.functions@.len() && j != f ==> #[trigger] self.module.functions@[j]
                == old.module.functions@[j],
            forall|b: int|
                0 <= b < self.module.functions@[f].blocks@.len() ==> (#[trigger] self.module.functions@[f].blocks@[b]).wf()
                    || (b < old.module.functions@[f].blocks@.len() && self.module.functions@[f].blocks@[b]
                    == old.module.functions@[f].blocks@[b]),
        ensures
            self.wf(),
    {
        reveal(module_blocks_wf);
        assert forall|g: int, b: int|
            0 <= g < self.module.functions@.len() && 0 <= b < self.module.functions@[g].blocks@.len() implies (
            #[trigger] self.module.functions@[g].blocks@[b]).wf() by {
            if g != f {
                assert(self.module.functions@[g] == old.module.functions@[g]);
            } else if !self.module.functions@[f].blocks@[b].wf() {
                assert(old.module.functions@[f].blocks@[b].wf());
            }
        }
    }

    /// Open a new block labelled `label` in the current function and make
    /// it the current block.
    pub fn new_block(&mut self, label: &str)
        requires
            old(self).wf(),
            old(self).in_function(),
        ensures
            final(self).wf(),
            final(self).module.functions@.len() == old(self).module.functions@.len(),
            forall|j: int|
                0 <= j < old(self).module.functions@.len() && j != old(self).function_slot()->0
                    ==> #[trigger] final(self).module.functions@[j] == old(self).module.functions@[j],
            final(self).module.entry == old(self).module.entry,
            final(self).module.static_data == old(self).module.static_data,
            final(self).current_function_name() == old(self).current_function_name(),
            final(self).current_block_label() == Some(label@),
            final(self).function_slot() == old(self).function_slot(),
            final(self).current_function().blocks@.drop_last() == old(self).current_function().blocks@,
            final(self).current_function().blocks@.len() == old(self).current_function().blocks@.len() + 1,
            final(self).current_function().blocks@.last().label@ == label@,
            final(self).current_function().blocks@.last().instructions@.len() == 0,
            final(self).current_function().blocks@.last().terminator == (Terminator::Return { value: None }),
            final(self).current_function().name == old(self).current_function().name,
            final(self).current_function().return_ty == old(self).current_function().return_ty,
            final(self).current_function().params == old(self).current_function().params,
            final(self).current_function().values == old(self).current_function().values,
            final(self).current_function().entry_block == old(self).current_function().entry_block,
            final(self).current_function().next_id() == old(self).current_function().next_id(),
            final(self).block_slot() is Some,
            opened_block(*old(self), *final(self), label@),
    {
        let f = self.function_position();
        let block = BasicBlock::new(label);
        self.module.functions[f].add_block(block);
        self.current_block = Some(owned(label));
        proof {
            let fs = self.module.functions@;
            lemma_last_function_index_same_names(old(self).module.functions@, fs, self.current_function_name()->0);
            assert(fs[f as int].blocks@.drop_last() =~= old(self).current_function().blocks@);
            let bs = fs[f as int].blocks@;
            assert(bs[bs.len() - 1].label@ == label@);
            lemma_first_block_index(bs, label@);
            self.lemma_wf_one_function_changed(*old(self), f as int);
        }
    }

    /// Allocate a fresh SSA value in the current function, returning its id.
    pub fn new_value(&mut self, ty: IrType, name: Option<String>) -> (id: ValueId)
        requires
            old(self).wf(),
            old(self).in_function(),
            old(self).current_function().next_id() < usize::MAX,
        ensures
            final(self).wf(),
            id == old(self).current_function().next_id(),
            same_outside_current(*old(self), *final(self)),
            final(self).current_function().next_id() == id + 1,
            final(self).current_function().values@ == old(self).current_function().values@.push(
                SsaValue { id, ty, name },
            ),
            final(self).current_function().blocks == old(self).current_function().blocks,
    {
        let f = self.function_position();
        let id = self.module.functions[f].new_value(ty, name);
        proof {
            Self::lemma_slots_kept(*old(self), *self, f as int);
            self.lemma_wf_one_function_changed(*old(self), f as int);
        }
        id
    }

    /// Append `instr` to the current block.
    pub fn emit(&mut self, instr: Instruction)
        requires
            old(self).wf(),
            old(self).block_slot() is Some,
        ensures
            final(self).wf(),
            appended(
                *old(self),
                *final(self),
                instr,
                old(self).current_function().values@,
                old(self).current_function().next_id(),
            ),
    {
        let (f, b) = self.slots();
        proof {
            self.lemma_block_wf(f as int, b as int);
        }
        self.module.functions[f].blocks[b].push(instr);
        proof {
            Self::lemma_slots_kept(*old(self), *self, f as int);
            self.lemma_wf_one_function_changed(*old(self), f as int);
        }
    }

    fn emit_value(&mut self, instr: Instruction, ty: IrType) -> (id: ValueId)
        requires
            old(self).wf(),
            old(self).can_emit(),
        ensures
            final(self).wf(),
            appended_value(*old(self), *final(self), instr, ty, id),
    {
        let id = self.new_value(ty, None);
        self.emit(instr);
        id
    }

    pub fn add(&mut self, ty: IrType, lhs: ValueId, rhs: ValueId) -> (id: ValueId)
        requires
            old(self).wf(),
            old(self).can_emit(),
        ensures
            final(self).wf(),
            appended_value(*old(self), *final(self), Instruction::Add { ty, lhs, rhs }, ty, id),
    {
        self.emit_value(Instruction::Add { ty, lhs, rhs }, ty)
    }

    pub fn sub(&mut self, ty: IrType, lhs: ValueId, rhs: ValueId) -> (id: ValueId)
        requires
            old(self).wf(),
            old(self).can_emit(),
        ensures
            final(self).wf(),
            appended_value(*old(self), *final(self), Instruction::Sub { ty, lhs, rhs }, ty, id),
    {
        self.emit_value(Instruction::Sub { ty, lhs, rhs }, ty)
    }

    pub fn mul(&mut self, ty: IrType, lhs: ValueId, rhs: ValueId) -> (id: ValueId)
        requires
            old(self).wf(),
            old(self).can_emit(),
        ensures
            final(self).wf(),
            appended_value(*old(self), *final(self), Instruction::Mul { ty, lhs, rhs }, ty, id),
    {
        self.emit_value(Instruction::Mul { ty, lhs, rhs }, ty)
    }

    pub fn div(&mut self, ty: IrType, lhs: ValueId, rhs: ValueId) -> (id: ValueId)
        requires
            old(self).wf(),
            old(self).can_emit(),
        ensures
            final(self).wf(),
            appended_value(*old(self), *final(self), Instruction::Div { ty, lhs, rhs }, ty, id),
    {
        self.emit_value(Instruction::Div { ty, lhs, rhs }, ty)
    }

    pub fn rem(&mut self, ty: IrType, lhs: ValueId, rhs: ValueId) -> (id: ValueId)
        requires
            old(self).wf(),
            old(self).can_emit(),
        ensures
            final(self).wf(),
            appended_value(*old(self), *final(self), Instruction::Rem { ty, lhs, rhs }, ty, id),
    {
        self.emit_value(Instruction::Rem { ty, lhs, rhs }, ty)
    }

    pub fn and(&mut self, ty: IrType, lhs: ValueId, rhs: ValueId) -> (id: ValueId)
        requires
            old(self).wf(),
            old(self).can_emit(),
        ensures
            final(self).wf(),
            appended_value(*old(self), *final(self), Instruction::And { ty, lhs, rhs }, ty, id),
    {
        self.emit_value(Instruction::And { ty, lhs, rhs }, ty)
    }

    pub fn or(&mut self, ty: IrType, lhs: ValueId, rhs: ValueId) -> (id: ValueId)
        requires
            old(self).wf(),
            old(self).can_emit(),
        ensures
            final(self).wf(),
            appended_value(*old(self), *final(self), Instruction::Or { ty, lhs, rhs }, ty, id),
    {
        self.emit_value(Instruction::Or { ty, lhs, rhs }, ty)
    }

    pub fn xor(&mut self, ty: IrType, lhs: ValueId, rhs: ValueId) -> (id: ValueId)
        requires
            old(self).wf(),
            old(self).can_emit(),
        ensures
            final(self).wf(),
            appended_value(*old(self), *final(self), Instruction::Xor { ty, lhs, rhs }, ty, id),
    {
        self.emit_value(Instruction::Xor { ty, lhs, rhs }, ty)
    }

    pub fn shl(&mut self, ty: IrType, lhs: ValueId, rhs: ValueId) -> (id: ValueId)
        requires
            old(self).wf(),
            old(self).can_emit(),
        ensures
            final(self).wf(),
            appended_value(*old(self), *final(self), Instruction::Shl { ty, lhs, rhs }, ty, id),
    {
        self.emit_value(Instruction::Shl { ty, lhs, rhs }, ty)
    }

    pub fn lshr(&mut self, ty: IrType, lhs: ValueId, rhs: ValueId) -> (id: ValueId)
        requires
            old(self).wf(),
            old(self).can_emit(),
        ensures
            final(self).wf(),
            appended_value(*old(self), *final(self), Instruction::Lshr { ty, lhs, rhs }, ty, id),
    {
        self.emit_value(Instruction::Lshr { ty, lhs, rhs }, ty)
    }

    pub fn ashr(&mut self, ty: IrType, lhs: ValueId, rhs: ValueId) -> (id: ValueId)
        requires
            old(self).wf(),
            old(self).can_emit(),
        ensures
            final(self).wf(),
            appended_value(*old(self), *final(self), Instruction::Ashr { ty, lhs, rhs }, ty, id),
    {
        self.emit_value(Instruction::Ashr { ty, lhs, rhs }, ty)
    }

    /// An `i1` comparison result.
    pub fn eq(&mut self, ty: IrType, lhs: ValueId, rhs: ValueId) -> (id: ValueId)
        requires
            old(self).wf(),
            old(self).can_emit(),
        ensures
            final(self).wf(),
            appended_value(*old(self), *final(self), Instruction::Eq { ty, lhs, rhs }, IrType::I1, id),
    {
        self.emit_value(Instruction::Eq { ty, lhs, rhs }, IrType::I1)
    }

    pub fn lt(&mut self, ty: IrType, lhs: ValueId, rhs: ValueId) -> (id: ValueId)
        requires
            old(self).wf(),
            old(self).can_emit(),
        ensures
            final(self).wf(),
            appended_value(*old(self), *final(self), Instruction::Lt { ty, lhs, rhs }, IrType::I1, id),
    {
        self.emit_value(Instruction::Lt { ty, lhs, rhs }, IrType::I1)
    }

    pub fn gt(&mut self, ty: IrType, lhs: ValueId, rhs: ValueId) -> (id: ValueId)
        requires
            old(self).wf(),
            old(self).can_emit(),
        ensures
            final(self).wf(),
            appended_value(*old(self), *final(self), Instruction::Gt { ty, lhs, rhs }, IrType::I1, id),
    {
        self.emit_value(Instruction::Gt { ty, lhs, rhs }, IrType::I1)
    }

    pub fn const_i32(&mut self, val: u32) -> (id: ValueId)
        requires
            old(self).wf(),
            old(self).can_emit(),
        ensures
            final(self).wf(),
            appended_value(*old(self), *final(self), Instruction::Const(Constant::I32(val)), IrType::I32, id),
    {
        self.emit_value(Instruction::Const(Constant::I32(val)), IrType::I32)
    }

    /// An `f64` constant, given by its IEEE-754 bit pattern.
    pub fn const_f64(&mut self, bits: u64) -> (id: ValueId)
        requires
            old(self).wf(),
            old(self).can_emit(),
        ensures
            final(self).wf(),
            appended_value(*old(self), *final(self), Instruction::Const(Constant::F64(bits)), IrType::F64, id),
    {
        self.emit_value(Instruction::Const(Constant::F64(bits)), IrType::F64)
    }

    pub fn const_i1(&mut self, val: bool) -> (id: ValueId)
        requires
            old(self).wf(),
            old(self).can_emit(),
        ensures
            final(self).wf(),
            appended_value(*old(self), *final(self), Instruction::Const(Constant::I1(val)), IrType::I1, id),
    {
        self.emit_value(Instruction::Const(Constant::I1(val)), IrType::I1)
    }

    pub fn const_i8(&mut self, val: u8) -> (id: ValueId)
        requires
            old(self).wf(),
            old(self).can_emit(),
        ensures
            final(self).wf(),
            appended_value(*old(self), *final(self), Instruction::Const(Constant::I8(val)), IrType::I8, id),
    {
        self.emit_value(Instruction::Const(Constant::I8(val)), IrType::I8)
    }

    pub fn const_i16(&mut self, val: u16) -> (id: ValueId)
        requires
            old(self).wf(),
            old(self).can_emit(),
        ensures
            final(self).wf(),
            appended_value(*old(self), *final(self), Instruction::Const(Constant::I16(val)), IrType::I16, id),
    {
        self.emit_value(Instruction::Const(Constant::I16(val)), IrType::I16)
    }

    pub fn const_i64(&mut self, val: u64) -> (id: ValueId)
        requires
            old(self).wf(),
            old(self).can_emit(),
        ensures
            final(self).wf(),
            appended_value(*old(self), *final(self), Instruction::Const(Constant::I64(val)), IrType::I64, id),
    {
        self.emit_value(Instruction::Const(Constant::I64(val)), IrType::I64)
    }

    /// A conversion of `value` (of static type `from_ty`) to `to_ty`.
    pub fn cast(&mut self, op: CastOp, from_ty: IrType, to_ty: IrType, value: ValueId) -> (id: ValueId)
        requires
            old(self).wf(),
            old(self).can_emit(),
        ensures
            final(self).wf(),
            appended_value(*old(self), *final(self), Instruction::Cast { op, from_ty, to_ty, value }, to_ty, id),
    {
        self.emit_value(Instruction::Cast { op, from_ty, to_ty, value }, to_ty)
    }

    /// `then_value` when `condition` is true, else `else_value`.
    pub fn select(&mut self, ty: IrType, condition: ValueId, then_value: ValueId, else_value: ValueId) -> (id: ValueId)
        requires
            old(self).wf(),
            old(self).can_emit(),
        ensures
            final(self).wf(),
            appended_value(
                *old(self),
                *final(self),
                Instruction::Select { ty, condition, then_value, else_value },
                ty,
                id,
            ),
    {
        self.emit_value(Instruction::Select { ty, condition, then_value, else_value }, ty)
    }

    /// End the current block with `unreachable`.
    pub fn unreachable(&mut self)
        requires
            old(self).wf(),
            old(self).block_slot() is Some,
        ensures
            final(self).wf(),
            terminated(*old(self), *final(self), Terminator::Unreachable),
    {
        self.set_terminator(Terminator::Unreachable);
    }

    /// A pointer into `base` at `indices`, stepping over `elem_ty` elements.
    pub fn gep(&mut self, elem_ty: IrType, base: ValueId, indices: Vec<GepIndex>) -> (id: ValueId)
        requires
            old(self).wf(),
            old(self).can_emit(),
        ensures
            final(self).wf(),
            appended_value(
                *old(self),
                *final(self),
                Instruction::Gep { result_ty: IrType::Pointer, elem_ty, base, indices },
                IrType::Pointer,
                id,
            ),
    {
        self.emit_value(Instruction::Gep { result_ty: IrType::Pointer, elem_ty, base, indices }, IrType::Pointer)
    }

    /// Stack space for one `ty`.
    pub fn alloca(&mut self, ty: IrType) -> (id: ValueId)
        requires
            old(self).wf(),
            old(self).can_emit(),
        ensures
            final(self).wf(),
            appended_value(*old(self), *final(self), Instruction::Alloca { ty, count: 1 }, IrType::Pointer, id),
    {
        self.emit_value(Instruction::Alloca { ty, count: 1 }, IrType::Pointer)
    }

    /// Stack space for `count` consecutive `ty`s.
    pub fn alloca_array(&mut self, ty: IrType, count: u32) -> (id: ValueId)
        requires
            old(self).wf(),
            old(self).can_emit(),
        ensures
            final(self).wf(),
            appended_value(*old(self), *final(self), Instruction::Alloca { ty, count }, IrType::Pointer, id),
    {
        self.emit_value(Instruction::Alloca { ty, count }, IrType::Pointer)
    }

    pub fn load(&mut self, ty: IrType, addr: ValueId) -> (id: ValueId)
        requires
            old(self).wf(),
            old(self).can_emit(),
        ensures
            final(self).wf(),
            appended_value(*old(self), *final(self), Instruction::Load { ty, addr }, ty, id),
    {
        self.emit_value(Instruction::Load { ty, addr }, ty)
    }

    pub fn store(&mut self, ty: IrType, value: ValueId, addr: ValueId)
        requires
            old(self).wf(),
            old(self).block_slot() is Some,
        ensures
            final(self).wf(),
            appended(
                *old(self),
                *final(self),
                Instruction::Store { ty, value, addr },
                old(self).current_function().values@,
                old(self).current_function().next_id(),
            ),
    {
        self.emit(Instruction::Store { ty, value, addr });
    }

    /// Call `callee`; the result value is defined unless `return_ty` is
    /// void.
    pub fn call(&mut self, return_ty: IrType, callee: &str, args: Vec<ValueId>) -> (r: Option<ValueId>)
        requires
            old(self).wf(),
            old(self).can_emit(),
        ensures
            final(self).wf(),
            last_instruction(*final(self)) matches Instruction::Call { return_ty: t, callee: c, args: a } && t
                == return_ty && c@ == callee@ && a == args,
            return_ty == IrType::Void ==> r is None && appended(
                *old(self),
                *final(self),
                last_instruction(*final(self)),
                old(self).current_function().values@,
                old(self).current_function().next_id(),
            ),
            return_ty != IrType::Void ==> (r matches Some(id) && appended_value(
                *old(self),
                *final(self),
                last_instruction(*final(self)),
                return_ty,
                id,
            )),
    {
        let callee_str = owned(callee);
        let id = if !return_ty.is_void() {
            Some(self.new_value(return_ty, None))
        } else {
            None
        };
        let ghost mid = *self;
        self.emit(Instruction::Call { return_ty, callee: callee_str, args });
        id
    }

    /// A phi of `ty` over `(value, predecessor label)` pairs.
    pub fn phi(&mut self, ty: IrType, incoming: Vec<(ValueId, &str)>) -> (id: ValueId)
        requires
            old(self).wf(),
            old(self).can_emit(),
        ensures
            final(self).wf(),
            last_instruction(*final(self)) matches Instruction::Phi { ty: t, incoming: inc } && t == ty
                && inc@.len() == incoming@.len() && forall|k: int|
                0 <= k < incoming@.len() ==> (#[trigger] inc@[k]).0 == incoming@[k].0 && inc@[k].1@
                    == incoming@[k].1@,
            appended_value(*old(self), *final(self), last_instruction(*final(self)), ty, id),
    {
        let mut owned_incoming: Vec<(ValueId, String)> = Vec::new();
        let mut k: usize = 0;
        while k < incoming.len()
            invariant
                k <= incoming@.len(),
                owned_incoming@.len() == k,
                forall|q: int|
                    0 <= q < k ==> (#[trigger] owned_incoming@[q]).0 == incoming@[q].0 && owned_incoming@[q].1@
                        == incoming@[q].1@,
            decreases incoming.len() - k,
        {
            owned_incoming.push((incoming[k].0, owned(incoming[k].1)));
            k = k + 1;
        }
        self.emit_value(Instruction::Phi { ty, incoming: owned_incoming }, ty)
    }

    /// End the current block with `term`.
    pub fn set_terminator(&mut self, term: Terminator)
        requires
            old(self).wf(),
            old(self).block_slot() is Some,
        ensures
            final(self).wf(),
            terminated(*old(self), *final(self), term),
    {
        let (f, b) = self.slots();
        proof {
            self.lemma_block_wf(f as int, b as int);
        }
        self.module.functions[f].blocks[b].set_terminator(term);
        proof {
            Self::lemma_slots_kept(*old(self), *self, f as int);
            self.lemma_wf_one_function_changed(*old(self), f as int);
        }
    }

    /// End the current block with a return of `value`.
    pub fn ret(&mut self, value: Option<ValueId>)
        requires
            old(self).wf(),
            old(self).block_slot() is Some,
        ensures
            final(self).wf(),
            terminated(*old(self), *final(self), Terminator::Return { value }),
    {
        self.set_terminator(Terminator::Return { value });
    }

    /// End the current block with a branch to `target`.
    pub fn br(&mut self, target: &str)
        requires
            old(self).wf(),
            old(self).block_slot() is Some,
        ensures
            final(self).wf(),
            final(self).current_block().terminator matches Terminator::Branch { target: t } && t@ == target@,
            terminated(*old(self), *final(self), final(self).current_block().terminator),
    {
        self.set_terminator(Terminator::Branch { target: owned(target) });
    }

    /// End the current block with a branch on `condition`.
    pub fn cond_br(&mut self, condition: ValueId, true_target: &str, false_target: &str)
        requires
            old(self).wf(),
            old(self).block_slot() is Some,
        ensures
            final(self).wf(),
            final(self).current_block().terminator matches Terminator::CondBranch {
                condition: c,
                true_target: t,
                false_target: e,
            } && c == condition && t@ == true_target@ && e@ == false_target@,
            terminated(*old(self), *final(self), final(self).current_block().terminator),
    {
        self.set_terminator(
            Terminator::CondBranch { condition, true_target: owned(true_target), false_target: owned(false_target) },
        );
    }

    /// In the phi at instruction `instr_idx` of block `block_label` of the
    /// current function, make the operand coming from `pred_label` the value
    /// `value` (the first such operand, where there are several).
    pub fn set_phi_operand(&mut self, block_label: &str, instr_idx: usize, pred_label: &str, value: ValueId)
        requires
            old(self).wf(),
            phi_operand_present(*old(self), block_label@, instr_idx as int, pred_label@),
        ensures
            final(self).wf(),
            phi_operand_set(*old(self), *final(self), block_label@, instr_idx as int, pred_label@, value),
    {
        let f = self.function_position();
        proof {
            lemma_first_block_index(self.module.functions@[f as int].blocks@, block_label@);
        }
        let b = self.module.functions[f].block_index(block_label).unwrap();
        let new_instr = match &self.module.functions[f].blocks[b].instructions[instr_idx] {
            Instruction::Phi { ty, incoming } => {
                let pred = owned(pred_label);
                let mut replaced: Vec<(ValueId, String)> = Vec::new();
                let mut found = false;
                let mut k: usize = 0;
                let ghost at: int = 0;
                while k < incoming.len()
                    invariant
                        k <= incoming@.len(),
                        pred@ == pred_label@,
                        replaced@.len() == k,
                        !found ==> forall|j: int| 0 <= j < k ==> (#[trigger] incoming@[j]).1@ != pred_label@,
                        !found ==> replaced@ == incoming@.subrange(0, k as int),
                        found ==> first_from(incoming@, pred_label@, at) && at < k && replaced@
                            == incoming@.update(at, (value, incoming@[at].1)).subrange(0, k as int),
                    decreases incoming.len() - k,
                {
                    let same = incoming[k].1 == pred;
                    if !found && same {
                        replaced.push((value, incoming[k].1.clone()));
                        found = true;
                        proof {
                            at = k as int;
                        }
                    } else {
                        replaced.push((incoming[k].0, incoming[k].1.clone()));
                    }
                    k = k + 1;
                    proof {
                        if found {
                            assert(replaced@ =~= incoming@.update(at, (value, incoming@[at].1)).subrange(0, k as int));
                        } else {
                            assert(replaced@ =~= incoming@.subrange(0, k as int));
                        }
                    }
                }
                proof {
                    if !found {
                        let q = choose|q: int| 0 <= q < incoming@.len() && #[trigger] incoming@[q].1@ == pred_label@;
                        assert(incoming@[q].1@ != pred_label@);
                    }
                    assert(replaced@ =~= incoming@.update(at, (value, incoming@[at].1)));
                }
                Instruction::Phi { ty: *ty, incoming: replaced }
            },
            _ => {
                proof {
                    assert(false);
                }
                return;
            },
        };
        proof {
            self.lemma_block_wf(f as int, b as int);
        }
        self.module.functions[f].blocks[b].instructions.set(instr_idx, new_instr);
        proof {
            assert(self.module.functions@[f as int].blocks@[b as int].wf());
            Self::lemma_slots_kept(*old(self), *self, f as int);
            self.lemma_wf_one_function_changed(*old(self), f as int);
        }
    }

    /// The terminator of the last block of the function being built.
    pub(crate) fn last_block_terminator(&self) -> (r: &Terminator)
        requires
            self.in_function(),
            self.current_function().blocks@.len() > 0,
        ensures
            *r == self.current_function().blocks@.last().terminator,
    {
        let f = self.function_position();
        let n = self.module.functions[f].blocks.len();
        &self.module.functions[f].blocks[n - 1].terminator
    }

    /// End the last block of the function being built with a return of
    /// nothing.
    pub(crate) fn return_from_last_block(&mut self)
        requires
            old(self).wf(),
            old(self).in_function(),
            old(self).current_function().blocks@.len() > 0,
        ensures
            final(self).wf(),
            last_block_replaced(*old(self), *final(self), final(self).current_function().blocks@.last()),
            final(self).current_function().blocks@.last().terminator == (Terminator::Return { value: None }),
            final(self).current_function().blocks@.last().instructions == old(self).current_function().blocks@.last().instructions,
            final(self).current_function().blocks@.last().debug_locs == old(self).current_function().blocks@.last().debug_locs,
    {
        let f = self.function_position();
        let n = self.module.functions[f].blocks.len();
        proof {
            self.lemma_block_wf(f as int, n - 1);
        }
        self.module.functions[f].blocks[n - 1].set_terminator(Terminator::Return { value: None });
        proof {
            assert(self.module.functions@[f as int].blocks@[n - 1].wf());
            Self::lemma_slots_kept(*old(self), *self, f as int);
            self.lemma_wf_one_function_changed(*old(self), f as int);
            assert(self.current_function().blocks@ =~= old(self).current_function().blocks@.update(
                n - 1,
                self.current_function().blocks@.last(),
            ));
        }
    }

    /// Append `instr`, without debug location, to the last block of the
    /// function being built.
    pub(crate) fn push_to_last_block(&mut self, instr: Instruction)
        requires
            old(self).wf(),
            old(self).in_function(),
            old(self).current_function().blocks@.len() > 0,
        ensures
            final(self).wf(),
            last_block_replaced(*old(self), *final(self), final(self).current_function().blocks@.last()),
            final(self).current_function().blocks@.last().terminator == old(self).current_function().blocks@.last().terminator,
            final(self).current_function().blocks@.last().instructions@ == old(self).current_function().blocks@.last().instructions@.push(instr),
            final(self).current_function().blocks@.last().debug_locs@ == old(self).current_function().blocks@.last().debug_locs@.push(None),
    {
        let f = self.function_position();
        let n = self.module.functions[f].blocks.len();
        proof {
            self.lemma_block_wf(f as int, n - 1);
        }
        self.module.functions[f].blocks[n - 1].push(instr);
        proof {
            Self::lemma_slots_kept(*old(self), *self, f as int);
            self.lemma_wf_one_function_changed(*old(self), f as int);
            assert(self.current_function().blocks@ =~= old(self).current_function().blocks@.update(
                n - 1,
                self.current_function().blocks@.last(),
            ));
        }
    }

    /// The module built so far.
    pub fn finish(self) -> (m: IrModule)
        ensures
            m == self.module,
    {
        self.module
    }

    /// Name the current function's entry block `label` (no effect when no
    /// function is current).
    pub fn set_entry_block(&mut self, label: &str)
        requires
            old(self).wf(),
        ensures
            final(self).wf(),
            old(self).function_slot() is None ==> *final(self) == *old(self),
            old(self).function_slot() is Some ==> {
                &&& final(self).module.functions@.len() == old(self).module.functions@.len()
                &&& forall|j: int|
                    0 <= j < old(self).module.functions@.len() && j != old(self).function_slot()->0
                        ==> #[trigger] final(self).module.functions@[j] == old(self).module.functions@[j]
                &&& final(self).module.entry == old(self).module.entry
                &&& final(self).module.static_data == old(self).module.static_data
                &&& final(self).current_function_name() == old(self).current_function_name()
                &&& final(self).current_block_label() == old(self).current_block_label()
                &&& final(self).function_slot() == old(self).function_slot()
                &&& final(self).block_slot() == old(self).block_slot()
                &&& final(self).current_function().entry_block@ == label@
                &&& final(self).current_function().name == old(self).current_function().name
                &&& final(self).current_function().return_ty == old(self).current_function().return_ty
                &&& final(self).current_function().params == old(self).current_function().params
                &&& final(self).current_function().blocks == old(self).current_function().blocks
                &&& final(self).current_function().values == old(self).current_function().values
                &&& final(self).current_function().next_id() == old(self).current_function().next_id()
            },
    {
        let name = match &self.current_func {
            Some(n) => n,
            None => {
                return ;
            },
        };
        match self.module.function_index(name.as_str()) {
            Some(f) => {
                proof {
                    lemma_last_function_index(self.module.functions@, name@);
                }
                self.module.functions[f].entry_block = owned(label);
                proof {
                    Self::lemma_slots_kept(*old(self), *self, f as int);
                    self.lemma_wf_one_function_changed(*old(self), f as int);
                }
            },
            None => {},
        }
    }

    /// Set the debug location of the most recently appended instruction of
    /// the current block (no effect when there is none).
    pub fn set_last_debug_loc(&mut self, debug: Option<DebugLoc>)
        requires
            old(self).wf(),
        ensures
            final(self).wf(),
            !(old(self).block_slot() is Some && old(self).current_block().instructions@.len() > 0) ==> *final(self)
                == *old(self),
            old(self).block_slot() is Some && old(self).current_block().instructions@.len() > 0 ==> {
                let of = old(self).current_function();
                let nf = final(self).current_function();
                let bi = old(self).block_slot()->0;
                &&& same_outside_current(*old(self), *final(self))
                &&& nf.values == of.values
                &&& nf.next_id() == of.next_id()
                &&& nf.blocks@.len() == of.blocks@.len()
                &&& forall|k: int| 0 <= k < of.blocks@.len() && k != bi ==> #[trigger] nf.blocks@[k] == of.blocks@[k]
                &&& nf.blocks@[bi].label == of.blocks@[bi].label
                &&& nf.blocks@[bi].instructions == of.blocks@[bi].instructions
                &&& nf.blocks@[bi].terminator == of.blocks@[bi].terminator
                &&& nf.blocks@[bi].debug_locs@ == of.blocks@[bi].debug_locs@.update(
                    of.blocks@[bi].debug_locs@.len() - 1,
                    debug,
                )
            },
    {
        let name = match &self.current_func {
            Some(n) => n,
            None => {
                return ;
            },
        };
        let label = match &self.current_block {
            Some(l) => l,
            None => {
                return ;
            },
        };
        let f = match self.module.function_index(name.as_str()) {
            Some(f) => f,
            None => {
                return ;
            },
        };
        let b = match self.module.functions[f].block_index(label.as_str()) {
            Some(b) => b,
            None => {
                return ;
            },
        };
        proof {
            lemma_last_function_index(self.module.functions@, name@);
            self.lemma_block_wf(f as int, b as int);
        }
        let n = self.module.functions[f].blocks[b].instructions.len();
        if n == 0 {
            return ;
        }
        self.module.functions[f].blocks[b].set_debug_loc(n - 1, debug);
        proof {
            Self::lemma_slots_kept(*old(self), *self, f as int);
            self.lemma_wf_one_function_changed(*old(self), f as int);
        }
    }
}

} // verus!
