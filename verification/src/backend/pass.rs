use vstd::prelude::*;

use crate::ir::types::TIRFunction;

verus! {

/// A transformation of one function, run repeatedly until it reports no change.
pub trait OptimizationPass {
    /// The functions on which one run of the pass is defined.
    spec fn accepts(&self, function: TIRFunction) -> bool;

    /// `after` is what one run of the pass makes of `before`, and `changed` what it reports.
    spec fn transforms(&self, before: TIRFunction, after: TIRFunction, changed: bool) -> bool;

    /// Whether the pass is defined on `function`.
    fn can_run(&self, function: &TIRFunction) -> (b: bool)
        ensures
            b == self.accepts(*function),
    ;

    /// Runs a single iteration of the pass on `function`; returns `true` if the function was
    /// modified.
    fn run(&mut self, function: &mut TIRFunction) -> (changed: bool)
        requires
            old(self).accepts(*old(function)),
        ensures
            old(self).transforms(*old(function), *final(function), changed),
    ;
}

} // verus!
