//! Running a sequence of passes over a module.

use vstd::prelude::*;

use crate::ir::module::IrModule;
use crate::opt::pass::OptimizationPass;

verus! {

/// An ordered list of passes.
pub struct PassManager {
    pub passes: Vec<Box<dyn OptimizationPass>>,
}

impl PassManager {
    /// A manager with no passes.
    pub fn new() -> (r: Self)
        ensures
            r.passes@.len() == 0,
    {
        PassManager { passes: Vec::new() }
    }

    /// Append `pass` to the pipeline.
    pub fn add<P: OptimizationPass + 'static>(&mut self, pass: P) {
        let b: Box<dyn OptimizationPass> = Box::new(pass);
        self.passes.push(b);
    }

    /// The passes, in the order they run.
    pub fn passes(&self) -> (r: &Vec<Box<dyn OptimizationPass>>)
        ensures
            r == &self.passes,
    {
        &self.passes
    }

    /// Run every pass, in the order added, over `module`.
    pub fn run(&mut self, module: &mut IrModule)
        ensures
            exists|ms: Seq<IrModule>| #[trigger] passes_applied(old(self).passes@, ms, *old(module), *final(module)),
    {
        let ghost ms: Seq<IrModule> = seq![*module];
        let ghost ps = self.passes@;
        let mut i: usize = 0;
        while i < self.passes.len()
            invariant
                i <= self.passes@.len(),
                self.passes@.len() == ps.len(),
                forall|j: int| i <= j < ps.len() ==> #[trigger] self.passes@[j] == ps[j],
                passes_applied(ps.subrange(0, i as int), ms, *old(module), *module),
            decreases self.passes.len() - i,
        {
            let ghost before = *module;
            self.passes[i].run(module);
            proof {
                let ms2 = ms.push(*module);
                assert(ps.subrange(0, i + 1).subrange(0, i as int) =~= ps.subrange(0, i as int));
                assert forall|j: int| 0 <= j < i + 1 implies #[trigger] ps.subrange(0, i + 1)[j].transforms(
                    ms2[j],
                    ms2[j + 1],
                ) by {
                    if j < i {
                        assert(ps.subrange(0, i as int)[j] == ps.subrange(0, i + 1)[j]);
                    }
                }
                ms = ms2;
            }
            i = i + 1;
        }
        proof {
            assert(ps.subrange(0, i as int) =~= ps);
        }
    }
}

/// `ms` are the modules that running passes `ps` in order, each once, goes
/// through from `before` to `after`.
pub open spec fn passes_applied(
    ps: Seq<Box<dyn OptimizationPass>>,
    ms: Seq<IrModule>,
    before: IrModule,
    after: IrModule,
) -> bool {
    &&& ms.len() == ps.len() + 1
    &&& ms[0] == before
    &&& ms.last() == after
    &&& forall|j: int| 0 <= j < ps.len() ==> #[trigger] ps[j].transforms(ms[j], ms[j + 1])
}

impl Default for PassManager {
    /// A manager with no passes.
    fn default() -> (r: Self)
        ensures
            r.passes@.len() == 0,
    {
        PassManager::new()
    }
}

} // verus!
