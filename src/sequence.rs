//! The ids that orders must carry: 1, 2, 3, ... in the order they arrive.
use vstd::prelude::*;

verus! {

/// The id that the next accepted order must carry.
pub struct IdSequence {
    next: usize,
}

impl View for IdSequence {
    type V = nat;

    closed spec fn view(&self) -> nat {
        self.next as nat
    }
}

impl IdSequence {
    /// A sequence that expects id 1 first.
    pub fn new() -> (r: IdSequence)
        ensures
            r@ == 1,
    {
        IdSequence { next: 1 }
    }

    /// The id that the next order must carry.
    pub fn expected(&self) -> (r: usize)
        ensures
            r == self@,
    {
        self.next
    }

    /// Takes `id` if it is the expected one, and then expects the one after;
    /// any other id is refused and the sequence left as it was. Once the
    /// largest id has been taken, no further id is.
    pub fn accept(&mut self, id: usize) -> (r: bool)
        ensures
            r == (id == old(self)@ && old(self)@ < usize::MAX),
            r ==> final(self)@ == old(self)@ + 1,
            !r ==> final(self)@ == old(self)@,
    {
        if id == self.next && self.next < usize::MAX {
            self.next = self.next + 1;
            true
        } else {
            false
        }
    }
}

} // verus!
