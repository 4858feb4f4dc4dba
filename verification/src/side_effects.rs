//! What a command leaves to be done after it.

use vstd::prelude::*;

verus! {

/// What a command asks for beyond the state it has changed. At present there is nothing
/// that a command can ask for.
#[derive(Debug, Clone, Copy, PartialEq, Eq, Structural)]
pub struct SideEffects;

impl SideEffects {
    /// Nothing is left to be done.
    pub fn none() -> (r: SideEffects)
        ensures
            r == SideEffects,
    {
        SideEffects
    }
}

} // verus!
