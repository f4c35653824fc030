//! The reflection probe: wraps a message so that the hook generated for it
//! can pick the reflecting conversion when the type supports one.

use vstd::prelude::*;

verus! {

/// A borrowed message under probe.
pub struct Probe<'a, T>(pub &'a T);

impl<'a, T> Probe<'a, T> {
    pub fn new(value: &'a T) -> (r: Self)
        ensures
            r.0 == value,
    {
        Probe(value)
    }
}

} // verus!
