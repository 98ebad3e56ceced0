//! The interface every optimisation pass offers.

use vstd::prelude::*;

use crate::ir::module::IrModule;

verus! {

/// A transformation of a whole module.
pub trait OptimizationPass {
    /// The pass's short name.
    fn name(&self) -> &str;

    /// What running this pass makes of a module `before`: `after`.
    spec fn transforms(&self, before: IrModule, after: IrModule) -> bool;

    /// Transform `module` in place.
    fn run(&mut self, module: &mut IrModule)
        ensures
            old(self).transforms(*old(module), *final(module)),
    ;
}

} // verus!
