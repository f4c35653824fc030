//! Plumbing for the code `#[message]` generates in crates that define
//! messages: public only because generated code must reach it across crates.

use vstd::prelude::*;

pub mod facet;
pub mod instrument;
pub mod serde;

use crate::instrument::CapturedFields;

verus! {

/// The pseudo-seal: only `#[message]` writes `impl Sealed`, so neither
/// `MessageBehaviour` nor `Message` is implemented by hand by accident.
pub trait Sealed {}

/// Behaviour of a message type that `#[message]` generates.
pub trait MessageBehaviour: Sealed {
    /// Fills still-`None` `Option` fields from the ambient span scope
    /// (`scope` lists the spans innermost first). A no-op for a message with
    /// no `Option` field; for one with such fields, the override that
    /// `#[message]` generates joins each of them through the probe's
    /// `__tracing_wide_join` (see `__private::instrument::ambient_join`) and
    /// touches no other field.
    fn join_ambient(&mut self, scope: &[CapturedFields]) where Self: Sized
        default_ensures
            *final(self) == *old(self),
    {
    }
}

} // verus!
