//! The kernel's main state.

use vstd::prelude::*;

verus! {

/// The running kernel.
pub struct Kernel {}

impl Kernel {
    /// One step of the kernel's main loop; there is nothing to do yet.
    pub fn tick(&mut self)
        ensures
            *final(self) == *old(self),
    {
    }
}

} // verus!
