//! Typed wide events for `tracing`: one struct per event, a static message
//! text, and every variance in typed fields.
//!
//! The library holds the rules of the crate: what `#[message]` accepts and
//! records for a message type (`expansion`), the catalogue of message types
//! (`catalogue`), the ambient capture of span fields (`instrument`) and the
//! subscriber sets with their scoping (`subscriber`).

use vstd::prelude::*;

pub mod __private;
pub mod catalogue;
pub mod expansion;
pub mod instrument;
pub mod integration;
pub mod subscriber;
pub mod text;

use crate::catalogue::LevelName;
use crate::text::{decimal, owned, push_char, push_decimal, strictly_sorted, texts};

verus! {

/// Where a message type is defined: the provenance `#[message]` records.
#[derive(Debug, Clone, Copy, PartialEq, Eq)]
pub struct Origin {
    /// Column of the definition.
    pub column: u32,
    /// Source file of the definition.
    pub file: &'static str,
    /// The defining crate.
    pub krate: &'static str,
    /// Line of the definition.
    pub line: u32,
    /// The defining module path, e.g. `mycrate::sub`.
    pub module: &'static str,
}

impl Origin {
    /// The compact one-line form `crate file:line:column`.
    pub open spec fn spec_display(self) -> Seq<char> {
        self.krate@ + seq![' '] + self.file@ + seq![':'] + decimal(self.line as nat) + seq![':']
            + decimal(self.column as nat)
    }

    /// The compact one-line form `crate file:line:column` (the module is left
    /// out: the crate prefixes it and it is rarely needed at a glance).
    pub fn to_string(&self) -> (r: String)
        ensures
            r@ == self.spec_display(),
    {
        let mut out = owned(self.krate);
        push_char(&mut out, ' ');
        out.append(self.file);
        push_char(&mut out, ':');
        push_decimal(&mut out, self.line);
        push_char(&mut out, ':');
        push_decimal(&mut out, self.column);
        out
    }
}

/// A type eligible to be a field of a message: a value `tracing` records
/// (`tracing::field::Value`): the integers and their `Wrapping` forms,
/// `bool`, texts and bytes, format arguments, `tracing`'s display, debug and
/// empty values, and references, boxes and `Option`s of these.
pub trait Field {}

/// `core::num::Wrapping`: an integer with wrapping arithmetic.
#[verifier::external_type_specification]
#[verifier::external_body]
#[verifier::reject_recursive_types(T)]
pub struct ExWrapping<T>(core::num::Wrapping<T>);

/// `core::fmt::Arguments`: precompiled format arguments.
#[verifier::external_type_specification]
#[verifier::external_body]
pub struct ExArguments<'a>(core::fmt::Arguments<'a>);

/// `tracing::field::DisplayValue`: a value recorded through `Display`.
#[verifier::external_type_specification]
#[verifier::external_body]
#[verifier::reject_recursive_types(T)]
pub struct ExDisplayValue<T: core::fmt::Display>(tracing::field::DisplayValue<T>);

/// `tracing::field::DebugValue`: a value recorded through `Debug`.
#[verifier::external_type_specification]
#[verifier::external_body]
#[verifier::reject_recursive_types(T)]
pub struct ExDebugValue<T: core::fmt::Debug>(tracing::field::DebugValue<T>);

/// `tracing::field::Empty`: a field declared without a value.
#[verifier::external_type_specification]
#[verifier::external_body]
pub struct ExEmpty(tracing::field::Empty);

impl Field for bool {}
impl Field for u8 {}
impl Field for u16 {}
impl Field for u32 {}
impl Field for u64 {}
impl Field for u128 {}
impl Field for usize {}
impl Field for i8 {}
impl Field for i16 {}
impl Field for i32 {}
impl Field for i64 {}
impl Field for i128 {}
impl Field for isize {}
impl<T: Field> Field for core::num::Wrapping<T> {}
impl Field for str {}
impl Field for String {}
impl Field for [u8] {}
impl<'a> Field for core::fmt::Arguments<'a> {}
impl<T: core::fmt::Display> Field for tracing::field::DisplayValue<T> {}
impl<T: core::fmt::Debug> Field for tracing::field::DebugValue<T> {}
impl Field for tracing::field::Empty {}
impl<'a, T: Field + ?Sized> Field for &'a T {}
impl<'a, T: Field + ?Sized> Field for &'a mut T {}
impl<T: Field + ?Sized> Field for Box<T> {}
impl<T: Field> Field for Option<T> {}

/// A struct that may be emitted as a wide event. `#[message]` implements it
/// from the message's attributes.
pub trait Message: __private::MessageBehaviour {
    /// Severity of this event type; `#[message(level = ...)]`, `INFO` by default.
    fn level(&self) -> LevelName;

    /// The constant, static message text.
    fn msg(&self) -> &'static str;

    /// Where this message type is defined.
    fn origin(&self) -> &'static Origin;

    /// The static routing tags: sorted, each once, lowercase; none unless
    /// `#[message(tags = [...])]` gives some.
    fn tags(&self) -> (r: &'static [&'static str])
        ensures
            strictly_sorted(texts(r@)),
        default_ensures
            r@.len() == 0,
    {
        &[]
    }
}
} // verus!
