//! Optimisation passes over SAIR modules.

pub mod analysis;
pub mod cfg_simplify;
pub mod constant_fold;
pub mod dce;
pub mod manager;
pub mod pass;
pub mod util;

pub use constant_fold::ConstantFold;
pub use pass::OptimizationPass;
