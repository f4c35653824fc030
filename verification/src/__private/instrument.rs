//! The read half of ambient capture, as the generated `join_ambient` uses
//! it: look a name up in the span scope, and fill a field from it.

use vstd::prelude::*;

use core::marker::PhantomData;

use crate::instrument::{scope_value, CapturedFields, CapturedValue, FromCaptured};

verus! {

/// Selects, per field type, whether a captured value converts into it.
pub struct Probe<T>(PhantomData<T>);

impl<T> Probe<T> {
    pub fn new() -> (r: Self) {
        Probe(PhantomData)
    }
}

/// The conversion for a type that implements `FromCaptured`.
pub trait ViaFromCaptured<T> {
    fn __tracing_wide_from_captured(&self, value: &CapturedValue) -> Option<T>;

    /// The join of one `Option` field named `name` from the span scope.
    fn __tracing_wide_join(&self, slot: &mut Option<T>, name: &str, scope: &[CapturedFields]);
}

/// The fallback for a type that does not: it never fills.
pub trait ViaNotCapturable<T> {
    fn __tracing_wide_from_captured(&self, value: &CapturedValue) -> Option<T>;

    /// The join of one `Option` field of a type that does not convert: the
    /// field is left as it is.
    fn __tracing_wide_join(&self, slot: &mut Option<T>, name: &str, scope: &[CapturedFields]);
}

impl<T: FromCaptured> ViaFromCaptured<T> for Probe<T> {
    fn __tracing_wide_from_captured(&self, value: &CapturedValue) -> (r: Option<T>)
        ensures
            r == T::captured_as(*value),
    {
        T::from_captured(value)
    }

    fn __tracing_wide_join(&self, slot: &mut Option<T>, name: &str, scope: &[CapturedFields])
        ensures
            *final(slot) == ambient_join(*old(slot), name@, scope@),
    {
        join_field(slot, name, scope)
    }
}

impl<'a, T> ViaNotCapturable<T> for &'a Probe<T> {
    fn __tracing_wide_from_captured(&self, value: &CapturedValue) -> (r: Option<T>)
        ensures
            r is None,
    {
        None
    }

    fn __tracing_wide_join(&self, slot: &mut Option<T>, name: &str, scope: &[CapturedFields])
        ensures
            *final(slot) == *old(slot),
    {
    }
}

/// Looks `name` up in the span scope (`scope` lists the spans innermost
/// first): the value of the innermost span that recorded the name.
pub fn get(scope: &[CapturedFields], name: &str) -> (r: Option<CapturedValue>)
    ensures
        r == scope_value(scope@, name@),
{
    let n = scope.len();
    let mut i: usize = 0;
    while i < n
        invariant
            n == scope@.len(),
            i <= n,
            scope_value(scope@.take(i as int), name@) is None,
        decreases n - i,
    {
        assert(scope@.take(i + 1).drop_last() =~= scope@.take(i as int));
        let found = scope[i].value_of(name);
        if found.is_some() {
            proof {
                lemma_scope_value_prefix(scope@, name@, i as int + 1);
            }
            return found;
        }
        i = i + 1;
    }
    assert(scope@.take(n as int) =~= scope@);
    None
}

proof fn lemma_scope_value_prefix(scope: Seq<CapturedFields>, name: Seq<char>, k: int)
    requires
        0 <= k <= scope.len(),
        scope_value(scope.take(k), name) is Some,
    ensures
        scope_value(scope, name) == scope_value(scope.take(k), name),
    decreases scope.len() - k,
{
    if k < scope.len() {
        assert(scope.take(k + 1).drop_last() =~= scope.take(k));
        lemma_scope_value_prefix(scope, name, k + 1);
    } else {
        assert(scope.take(k) =~= scope);
    }
}

/// An `Option` field after the join: a field that is `Some` keeps its value;
/// a `None` field takes the converted value of `name` from the span scope,
/// and stays `None` when the scope holds no such value or it does not convert.
pub open spec fn ambient_join<T: FromCaptured>(
    slot: Option<T>,
    name: Seq<char>,
    scope: Seq<CapturedFields>,
) -> Option<T> {
    match slot {
        Some(v) => Some(v),
        None => match scope_value(scope, name) {
            Some(v) => T::captured_as(v),
            None => None,
        },
    }
}

/// The join for one `Option` field (see `ambient_join`).
pub fn join_field<T: FromCaptured>(slot: &mut Option<T>, name: &str, scope: &[CapturedFields])
    ensures
        *final(slot) == ambient_join(*old(slot), name@, scope@),
{
    if slot.is_none() {
        if let Some(value) = get(scope, name) {
            *slot = T::from_captured(&value);
        }
    }
}

} // verus!
