//! SAIR basic blocks.

use vstd::prelude::*;

use crate::ir::debug::DebugLoc;
use crate::ir::instruction::{result_type_of, terminator_targets, Instruction, Terminator};
use crate::ir::types::IrType;

verus! {

/// A labelled straight-line run of instructions ending in a terminator.
///
/// `debug_locs[i]` is the optional debug location of `instructions[i]`; the
/// two vectors always have the same length.
#[derive(Debug, Clone)]
pub struct BasicBlock {
    pub label: String,
    pub instructions: Vec<Instruction>,
    pub debug_locs: Vec<Option<DebugLoc>>,
    pub terminator: Terminator,
}

impl BasicBlock {
    /// Well-formedness: one debug slot per instruction.
    pub open spec fn wf(&self) -> bool {
        self.debug_locs@.len() == self.instructions@.len()
    }

    /// An empty block that returns nothing.
    pub fn new(label: &str) -> (r: Self)
        ensures
            r.wf(),
            r.label@ == label@,
            r.instructions@.len() == 0,
            r.terminator == (Terminator::Return { value: None }),
    {
        BasicBlock {
            label: String::from_str(label),
            instructions: Vec::new(),
            debug_locs: Vec::new(),
            terminator: Terminator::Return { value: None },
        }
    }

    /// Append an instruction without debug location.
    pub fn push(&mut self, instr: Instruction)
        requires
            old(self).wf(),
        ensures
            final(self).wf(),
            final(self).label == old(self).label,
            final(self).terminator == old(self).terminator,
            final(self).instructions@ == old(self).instructions@.push(instr),
            final(self).debug_locs@ == old(self).debug_locs@.push(None),
    {
        self.instructions.push(instr);
        self.debug_locs.push(None);
    }

    /// Append an instruction with its debug location.
    pub fn push_with_debug(&mut self, instr: Instruction, debug: Option<DebugLoc>)
        requires
            old(self).wf(),
        ensures
            final(self).wf(),
            final(self).label == old(self).label,
            final(self).terminator == old(self).terminator,
            final(self).instructions@ == old(self).instructions@.push(instr),
            final(self).debug_locs@ == old(self).debug_locs@.push(debug),
    {
        self.instructions.push(instr);
        self.debug_locs.push(debug);
    }

    pub fn set_terminator(&mut self, term: Terminator)
        ensures
            final(self).terminator == term,
            final(self).label == old(self).label,
            final(self).instructions == old(self).instructions,
            final(self).debug_locs == old(self).debug_locs,
    {
        self.terminator = term;
    }

    /// Set the debug location for the instruction at `index` (no effect when
    /// there is no such instruction).
    pub fn set_debug_loc(&mut self, index: usize, debug: Option<DebugLoc>)
        ensures
            final(self).label == old(self).label,
            final(self).instructions == old(self).instructions,
            final(self).terminator == old(self).terminator,
            index < old(self).debug_locs@.len() ==> final(self).debug_locs@ == old(
                self,
            ).debug_locs@.update(index as int, debug),
            index >= old(self).debug_locs@.len() ==> final(self).debug_locs == old(self).debug_locs,
    {
        if index < self.debug_locs.len() {
            self.debug_locs.set(index, debug);
        }
    }

    /// The debug location of the instruction at `index`, if any.
    pub fn debug_loc(&self, index: usize) -> (r: Option<&DebugLoc>)
        ensures
            index < self.debug_locs@.len() ==> r == match self.debug_locs@[index as int] {
                Some(d) => Some(&d),
                None => None::<&DebugLoc>,
            },
            index >= self.debug_locs@.len() ==> r.is_none(),
    {
        if index < self.debug_locs.len() {
            match &self.debug_locs[index] {
                Some(d) => Some(d),
                None => None,
            }
        } else {
            None
        }
    }

    /// The result type of the last instruction, if it defines a value.
    pub fn return_type(&self) -> (r: Option<IrType>)
        ensures
            r == (if self.instructions@.len() == 0 {
                None
            } else {
                result_type_of(self.instructions@.last())
            }),
    {
        let n = self.instructions.len();
        if n == 0 {
            None
        } else {
            self.instructions[n - 1].result_type()
        }
    }

    /// Blocks this block's terminator may pass control to.
    pub fn referenced_labels(&self) -> (r: Vec<String>)
        ensures
            r@.map_values(|s: String| s@) == terminator_targets(self.terminator),
    {
        self.terminator.referenced_labels()
    }
}

} // verus!
