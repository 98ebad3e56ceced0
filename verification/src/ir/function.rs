//! SAIR functions.

use vstd::prelude::*;

use crate::ir::block::BasicBlock;
use crate::ir::types::IrType;
use crate::ir::value::{SsaValue, ValueId};

verus! {

/// A SAIR function: its signature, blocks and SSA value table.
///
/// Parameters take the first SSA ids; `value_counter` is the next id to hand
/// out (read and set it through [`IrFunction::value_counter`] and
/// [`IrFunction::set_value_counter`]).
#[derive(Debug, Clone)]
pub struct IrFunction {
    pub name: String,
    pub return_ty: IrType,
    pub params: Vec<(IrType, String)>,
    pub blocks: Vec<BasicBlock>,
    pub values: Vec<SsaValue>,
    pub entry_block: String,
    pub value_counter: ValueId,
}

/// The index of the first block labelled `label`, if any.
#[verifier::opaque]
pub open spec fn first_block_index(blocks: Seq<BasicBlock>, label: Seq<char>) -> Option<int> {
    if exists|i: int| 0 <= i < blocks.len() && #[trigger] blocks[i].label@ == label {
        Some(
            choose|i: int|
                0 <= i < blocks.len() && #[trigger] blocks[i].label@ == label && forall|j: int|
                    0 <= j < i ==> blocks[j].label@ != label,
        )
    } else {
        None
    }
}

proof fn lemma_min_label_index(blocks: Seq<BasicBlock>, label: Seq<char>, i: int)
    requires
        0 <= i < blocks.len(),
        blocks[i].label@ == label,
    ensures
        exists|m: int|
            0 <= m < blocks.len() && #[trigger] blocks[m].label@ == label && forall|j: int|
                0 <= j < m ==> blocks[j].label@ != label,
    decreases i,
{
    if exists|j: int| 0 <= j < i && #[trigger] blocks[j].label@ == label {
        let j = choose|j: int| 0 <= j < i && #[trigger] blocks[j].label@ == label;
        lemma_min_label_index(blocks, label, j);
    } else {
        assert(forall|j: int| 0 <= j < i ==> blocks[j].label@ != label);
    }
}

/// `first_block_index` is the least index carrying `label`, or `None` when
/// no block carries it.
pub proof fn lemma_first_block_index(blocks: Seq<BasicBlock>, label: Seq<char>)
    ensures
        first_block_index(blocks, label) matches Some(i) ==> 0 <= i < blocks.len() && blocks[i].label@ == label
            && forall|j: int| 0 <= j < i ==> blocks[j].label@ != label,
        first_block_index(blocks, label) is None ==> forall|j: int|
            0 <= j < blocks.len() ==> blocks[j].label@ != label,
{
    reveal(first_block_index);
    if exists|i: int| 0 <= i < blocks.len() && #[trigger] blocks[i].label@ == label {
        let i = choose|i: int| 0 <= i < blocks.len() && #[trigger] blocks[i].label@ == label;
        lemma_min_label_index(blocks, label, i);
    }
}

/// Blocks with the same labels in the same order have the same first index
/// for every label.
pub proof fn lemma_first_block_index_same_labels(a: Seq<BasicBlock>, b: Seq<BasicBlock>, label: Seq<char>)
    requires
        a.len() == b.len(),
        forall|i: int| 0 <= i < a.len() ==> #[trigger] a[i].label@ == b[i].label@,
    ensures
        first_block_index(a, label) == first_block_index(b, label),
{
    lemma_first_block_index(a, label);
    lemma_first_block_index(b, label);
    match (first_block_index(a, label), first_block_index(b, label)) {
        (Some(i), Some(j)) => {
            if i < j {
                assert(b[i].label@ == label);
            } else if j < i {
                assert(a[j].label@ == label);
            }
        },
        (Some(i), None) => {
            assert(b[i].label@ == label);
        },
        (None, Some(j)) => {
            assert(a[j].label@ == label);
        },
        (None, None) => {},
    }
}

impl IrFunction {
    /// The next SSA id this function hands out.
    pub open spec fn next_id(&self) -> nat {
        self.value_counter as nat
    }

    /// A function with no parameters, blocks or values, whose entry block is
    /// labelled `entry`.
    pub fn new(name: &str, return_ty: IrType) -> (r: Self)
        ensures
            r.name@ == name@,
            r.return_ty == return_ty,
            r.params@.len() == 0,
            r.blocks@.len() == 0,
            r.values@.len() == 0,
            r.entry_block@ == "entry"@,
            r.next_id() == 0,
    {
        IrFunction {
            name: String::from_str(name),
            return_ty,
            params: Vec::new(),
            blocks: Vec::new(),
            values: Vec::new(),
            entry_block: String::from_str("entry"),
            value_counter: 0,
        }
    }

    /// Add a named parameter, returning its SSA id.
    pub fn add_param(&mut self, ty: IrType, name: &str) -> (id: ValueId)
        requires
            old(self).next_id() < usize::MAX,
        ensures
            id == old(self).next_id(),
            final(self).next_id() == old(self).next_id() + 1,
            final(self).params@.len() == old(self).params@.len() + 1,
            final(self).params@.last().0 == ty,
            final(self).params@.last().1@ == name@,
            final(self).params@.drop_last() == old(self).params@,
            final(self).values@.len() == old(self).values@.len() + 1,
            final(self).values@.drop_last() == old(self).values@,
            final(self).values@.last().id == id,
            final(self).values@.last().ty == ty,
            final(self).values@.last().name matches Some(n) && n@ == name@,
            final(self).name == old(self).name,
            final(self).return_ty == old(self).return_ty,
            final(self).blocks == old(self).blocks,
            final(self).entry_block == old(self).entry_block,
    {
        let id = self.value_counter;
        self.value_counter = self.value_counter + 1;
        self.values.push(SsaValue::new(id, ty, Some(String::from_str(name))));
        self.params.push((ty, String::from_str(name)));
        proof {
            assert(self.params@.drop_last() =~= old(self).params@);
            assert(self.values@.drop_last() =~= old(self).values@);
        }
        id
    }

    /// Allocate a fresh SSA value, returning its id.
    pub fn new_value(&mut self, ty: IrType, name: Option<String>) -> (id: ValueId)
        requires
            old(self).next_id() < usize::MAX,
        ensures
            id == old(self).next_id(),
            final(self).next_id() == old(self).next_id() + 1,
            final(self).values@ == old(self).values@.push(
                SsaValue { id, ty, name },
            ),
            final(self).name == old(self).name,
            final(self).return_ty == old(self).return_ty,
            final(self).params == old(self).params,
            final(self).blocks == old(self).blocks,
            final(self).entry_block == old(self).entry_block,
    {
        let id = self.value_counter;
        self.value_counter = self.value_counter + 1;
        self.values.push(SsaValue::new(id, ty, name));
        id
    }

    pub fn add_block(&mut self, block: BasicBlock)
        ensures
            final(self).blocks@ == old(self).blocks@.push(block),
            final(self).name == old(self).name,
            final(self).return_ty == old(self).return_ty,
            final(self).params == old(self).params,
            final(self).values == old(self).values,
            final(self).entry_block == old(self).entry_block,
            final(self).next_id() == old(self).next_id(),
    {
        self.blocks.push(block);
    }

    pub fn get_value(&self, id: ValueId) -> (r: Option<&SsaValue>)
        ensures
            id < self.values@.len() ==> r == Some(&self.values@[id as int]),
            id >= self.values@.len() ==> r.is_none(),
    {
        if id < self.values.len() {
            Some(&self.values[id])
        } else {
            None
        }
    }

    /// The index of the first block labelled `label`.
    pub fn block_index(&self, label: &str) -> (r: Option<usize>)
        ensures
            match r {
                Some(i) => i < self.blocks@.len() && self.blocks@[i as int].label@ == label@
                    && forall|j: int| 0 <= j < i ==> self.blocks@[j].label@ != label@,
                None => forall|j: int| 0 <= j < self.blocks@.len() ==> self.blocks@[j].label@ != label@,
            },
            r.is_some() <==> first_block_index(self.blocks@, label@).is_some(),
            r matches Some(i) ==> first_block_index(self.blocks@, label@) == Some(i as int),
    {
        let key = String::from_str(label);
        let mut i: usize = 0;
        while i < self.blocks.len()
            invariant
                i <= self.blocks@.len(),
                key@ == label@,
                forall|j: int| 0 <= j < i ==> self.blocks@[j].label@ != label@,
            decreases self.blocks.len() - i,
        {
            if self.blocks[i].label == key {
                proof {
                    reveal(first_block_index);
                    let k = choose|k: int|
                        0 <= k < self.blocks@.len() && #[trigger] self.blocks@[k].label@ == label@
                            && forall|j: int| 0 <= j < k ==> self.blocks@[j].label@ != label@;
                    if k < i {
                    } else if k > i {
                    }
                    assert(k == i);
                }
                return Some(i);
            }
            i = i + 1;
        }
        proof {
            reveal(first_block_index);
        }
        None
    }

    pub fn value_counter(&self) -> (r: ValueId)
        ensures
            r == self.next_id(),
    {
        self.value_counter
    }

    pub fn set_value_counter(&mut self, counter: ValueId)
        ensures
            final(self).next_id() == counter,
            final(self).name == old(self).name,
            final(self).return_ty == old(self).return_ty,
            final(self).params == old(self).params,
            final(self).blocks == old(self).blocks,
            final(self).values == old(self).values,
            final(self).entry_block == old(self).entry_block,
    {
        self.value_counter = counter;
    }
}

} // verus!
