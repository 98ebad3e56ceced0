//! SAIR modules.

use vstd::prelude::*;

use crate::ir::function::IrFunction;

verus! {

/// Address of the base of the module's static data segment (global
/// variables). Address 0 stays reserved as null and the base keeps 8-byte
/// alignment for 64-bit globals.
pub const STATIC_DATA_BASE: u32 = 8;

/// The module's static data segment (global variables).
#[derive(Debug, Clone, PartialEq)]
pub struct StaticData {
    /// Byte image of the segment, seeded at [`STATIC_DATA_BASE`].
    pub image: Vec<u8>,
    /// `true` when every data element is 32-bit-word granular, so a 32-bit
    /// word backend can access the segment exactly.
    pub word_exact: bool,
}

impl StaticData {
    /// An empty segment.
    pub fn empty() -> (r: Self)
        ensures
            r.image@.len() == 0,
            !r.word_exact,
    {
        StaticData { image: Vec::new(), word_exact: false }
    }
}

/// A SAIR module: its functions, the name of its entry function and its
/// static data. A name refers to the function most recently added under it.
#[derive(Debug, Clone)]
pub struct IrModule {
    pub functions: Vec<IrFunction>,
    pub entry: String,
    pub static_data: StaticData,
}

/// The index of the last function named `name`, if any.
#[verifier::opaque]
pub open spec fn last_function_index(functions: Seq<IrFunction>, name: Seq<char>) -> Option<int> {
    if exists|i: int| 0 <= i < functions.len() && #[trigger] functions[i].name@ == name {
        Some(
            choose|i: int|
                0 <= i < functions.len() && #[trigger] functions[i].name@ == name && forall|j: int|
                    i < j < functions.len() ==> functions[j].name@ != name,
        )
    } else {
        None
    }
}

proof fn lemma_max_name_index(functions: Seq<IrFunction>, name: Seq<char>, i: int)
    requires
        0 <= i < functions.len(),
        functions[i].name@ == name,
    ensures
        exists|m: int|
            0 <= m < functions.len() && #[trigger] functions[m].name@ == name && forall|j: int|
                m < j < functions.len() ==> functions[j].name@ != name,
    decreases functions.len() - i,
{
    if exists|j: int| i < j < functions.len() && #[trigger] functions[j].name@ == name {
        let j = choose|j: int| i < j < functions.len() && #[trigger] functions[j].name@ == name;
        lemma_max_name_index(functions, name, j);
    } else {
        assert(forall|j: int| i < j < functions.len() ==> functions[j].name@ != name);
    }
}

/// `last_function_index` is the greatest index carrying `name`, or `None`
/// when no function carries it.
pub proof fn lemma_last_function_index(functions: Seq<IrFunction>, name: Seq<char>)
    ensures
        last_function_index(functions, name) matches Some(i) ==> 0 <= i < functions.len() && functions[i].name@
            == name && forall|j: int| i < j < functions.len() ==> functions[j].name@ != name,
        last_function_index(functions, name) is None ==> forall|j: int|
            0 <= j < functions.len() ==> functions[j].name@ != name,
{
    reveal(last_function_index);
    if exists|i: int| 0 <= i < functions.len() && #[trigger] functions[i].name@ == name {
        let i = choose|i: int| 0 <= i < functions.len() && #[trigger] functions[i].name@ == name;
        lemma_max_name_index(functions, name, i);
    }
}

/// Functions with the same names in the same order have the same last index
/// for every name.
pub proof fn lemma_last_function_index_same_names(a: Seq<IrFunction>, b: Seq<IrFunction>, name: Seq<char>)
    requires
        a.len() == b.len(),
        forall|i: int| 0 <= i < a.len() ==> #[trigger] a[i].name@ == b[i].name@,
    ensures
        last_function_index(a, name) == last_function_index(b, name),
{
    lemma_last_function_index(a, name);
    lemma_last_function_index(b, name);
    match (last_function_index(a, name), last_function_index(b, name)) {
        (Some(i), Some(j)) => {
            if i < j {
                assert(a[j].name@ == name);
            } else if j < i {
                assert(b[i].name@ == name);
            }
        },
        (Some(i), None) => {
            assert(b[i].name@ == name);
        },
        (None, Some(j)) => {
            assert(a[j].name@ == name);
        },
        (None, None) => {},
    }
}

impl IrModule {
    /// An empty module whose entry function is `entry`.
    pub fn new(entry: &str) -> (r: Self)
        ensures
            r.functions@.len() == 0,
            r.entry@ == entry@,
            r.static_data.image@.len() == 0,
            !r.static_data.word_exact,
    {
        IrModule {
            functions: Vec::new(),
            entry: String::from_str(entry),
            static_data: StaticData::empty(),
        }
    }

    pub fn add_function(&mut self, func: IrFunction)
        ensures
            final(self).functions@ == old(self).functions@.push(func),
            final(self).entry == old(self).entry,
            final(self).static_data == old(self).static_data,
    {
        self.functions.push(func);
    }

    /// The index of the function most recently added under `name`.
    pub fn function_index(&self, name: &str) -> (r: Option<usize>)
        ensures
            r.is_some() == last_function_index(self.functions@, name@).is_some(),
            r matches Some(i) ==> last_function_index(self.functions@, name@) == Some(i as int),
            r matches Some(i) ==> i < self.functions@.len() && self.functions@[i as int].name@ == name@,
    {
        let key = String::from_str(name);
        let mut i: usize = self.functions.len();
        while i > 0
            invariant
                i <= self.functions@.len(),
                key@ == name@,
                forall|j: int| i <= j < self.functions@.len() ==> self.functions@[j].name@ != name@,
            decreases i,
        {
            i = i - 1;
            if self.functions[i].name == key {
                proof {
                    reveal(last_function_index);
                    let k = choose|k: int|
                        0 <= k < self.functions@.len() && #[trigger] self.functions@[k].name@ == name@
                            && forall|j: int| k < j < self.functions@.len() ==> self.functions@[j].name@ != name@;
                    if k < i {
                    } else if k > i {
                    }
                    assert(k == i);
                }
                return Some(i);
            }
        }
        proof {
            reveal(last_function_index);
        }
        None
    }

    /// The function most recently added under `name`.
    pub fn get_function(&self, name: &str) -> (r: Option<&IrFunction>)
        ensures
            r.is_some() == last_function_index(self.functions@, name@).is_some(),
            r matches Some(f) ==> *f == self.functions@[last_function_index(self.functions@, name@)->0],
    {
        match self.function_index(name) {
            Some(i) => Some(&self.functions[i]),
            None => None,
        }
    }

    /// The function most recently added under `name`, to be changed in
    /// place: what is written through the reference becomes that function.
    pub fn get_function_mut(&mut self, name: &str) -> (r: Option<&mut IrFunction>)
        ensures
            r.is_some() == last_function_index(old(self).functions@, name@).is_some(),
            r is None ==> *final(self) == *old(self),
            r matches Some(f) ==> {
                let i = last_function_index(old(self).functions@, name@)->0;
                &&& *f == old(self).functions@[i]
                &&& final(self).functions@ == old(self).functions@.update(i, *final(f))
                &&& final(self).entry == old(self).entry
                &&& final(self).static_data == old(self).static_data
            },
    {
        match self.function_index(name) {
            Some(i) => Some(&mut self.functions[i]),
            None => None,
        }
    }
}

} // verus!
