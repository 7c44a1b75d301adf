use vstd::prelude::*;

use crate::backend::allocator::Allocator;
use crate::ir::types::TIRFunction;

verus! {

/// A machine that code is emitted for.
pub trait Target: Sized {
    /// Code can be emitted for `function` with `allocator`.
    spec fn accepts(&self, function: TIRFunction, allocator: Allocator) -> bool;

    /// `after` is this target with the code of `function` appended.
    spec fn emitted(&self, after: Self, function: TIRFunction, allocator: Allocator) -> bool;

    /// `after` is this target with the program header appended.
    spec fn with_header(&self, after: Self) -> bool;

    /// The assembly text emitted so far.
    spec fn text_of(&self) -> Seq<char>;

    /// The number of registers the allocator may use.
    fn num_gp_registers(&self) -> usize;

    /// Appends the program header.
    fn asm_header(&mut self)
        ensures
            old(self).with_header(*final(self)),
    ;

    /// Appends the code of `function`, whose registers `allocator` assigned.
    fn emit(&mut self, function: TIRFunction, allocator: Allocator)
        requires
            old(self).accepts(function, allocator),
        ensures
            old(self).emitted(*final(self), function, allocator),
    ;

    /// The assembly text emitted.
    fn assembly(self) -> (s: String)
        ensures
            s@ == self.text_of(),
    ;
}

} // verus!
