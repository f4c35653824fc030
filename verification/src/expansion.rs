//! The rules of `#[message]`: what the attribute accepts on a struct and what
//! it records for the message type: the `msg` text (and its format-safe
//! form), the level, the routing tags, the metadata, the docs and deprecation
//! notes, and the fields that the ambient join may fill.
//!
//! The attribute's tokens arrive here already split into the plain shapes
//! below (`MetaArg`, `Attribute`, `ItemInput`); the result is a
//! `MessageDefinition` from which the generated code is written, or the
//! `MessageError` that the attribute reports.

use vstd::prelude::*;

use crate::catalogue::LevelName;
use crate::text::{
    canonical, escape_braces, escape_format_braces, insert_sorted, lemma_canonical,
    lemma_canonical_is, lemma_unescape_escape, lowercase, owned, push_char, same_elements,
    same_text, strictly_sorted, texts, to_lowercase, trim, trimmed, unescape_braces,
};

verus! {

// ---------------------------------------------------------------------------
// The input shapes
// ---------------------------------------------------------------------------

/// A path in an attribute: `ident` is the identifier when the path is a single
/// plain identifier (`msg`, `note`), and `None` for any other path (`foo::bar`).
#[derive(Debug, PartialEq, Eq)]
pub struct AttrPath {
    pub ident: Option<String>,
}

/// A literal. `Int` and `Float` hold their base-10 digits as written (without
/// a type suffix); `Other` is any other literal (a char, a byte string, ...).
#[derive(Debug, PartialEq, Eq)]
pub enum Literal {
    Str(String),
    Int(String),
    Float(String),
    Bool(bool),
    Other,
}

/// An element of an array expression: a literal or any other expression.
#[derive(Debug, PartialEq, Eq)]
pub enum ArrayElement {
    Lit(Literal),
    Other,
}

/// The value side of `key = value`.
#[derive(Debug, PartialEq, Eq)]
pub enum Expression {
    Lit(Literal),
    Path(AttrPath),
    Array(Vec<ArrayElement>),
    Other,
}

/// One argument of `#[message(...)]`.
#[derive(Debug, PartialEq, Eq)]
pub enum MetaArg {
    /// A bare path, e.g. `serialize`.
    Flag(AttrPath),
    /// `key = value`.
    NameValue(AttrPath, Expression),
    /// `key(...)`.
    List(AttrPath),
}

/// One entry inside an attribute's parentheses: `key = value`, or anything
/// that does not parse as that, with the parser's message.
#[derive(Debug, PartialEq, Eq)]
pub enum NestedMeta {
    Pair(AttrPath, Expression),
    Malformed(String),
}

/// The shape of an attribute after its path.
#[derive(Debug, PartialEq, Eq)]
pub enum AttrBody {
    /// `#[path]`
    Word,
    /// `#[path = value]`
    NameValue(Expression),
    /// `#[path(...)]`
    List(Vec<NestedMeta>),
}

/// An outer attribute on the struct or on one of its fields (`///` docs are
/// `#[doc = "..."]` attributes).
#[derive(Debug, PartialEq, Eq)]
pub struct Attribute {
    pub path: AttrPath,
    pub body: AttrBody,
}

/// A generic argument of a path segment: a type (written as text), or a
/// lifetime, const or binding.
#[derive(Debug, PartialEq, Eq)]
pub enum GenericArg {
    Type(String),
    Other,
}

/// The arguments of the last segment of a type path.
#[derive(Debug, PartialEq, Eq)]
pub enum PathArgs {
    Bare,
    AngleBracketed(Vec<GenericArg>),
    Parenthesized,
}

/// The last segment of a type path.
#[derive(Debug, PartialEq, Eq)]
pub struct PathSegment {
    pub ident: String,
    pub args: PathArgs,
}

/// The syntactic shape of a field's type.
#[derive(Debug, PartialEq, Eq)]
pub enum TypeShape {
    /// A type path; `qualified` when it has a `<T as Trait>::` self type;
    /// `last` is its last segment (`None` for an empty path).
    Path { qualified: bool, last: Option<PathSegment> },
    /// A reference, tuple, array or any other non-path type.
    Other,
}

/// A named field of the struct.
#[derive(Debug, PartialEq, Eq)]
pub struct FieldInput {
    pub ident: String,
    pub attrs: Vec<Attribute>,
    pub ty: TypeShape,
}

/// What the attribute is applied to.
#[derive(Debug, PartialEq, Eq)]
pub enum ItemBody {
    /// A struct with named fields.
    NamedStruct(Vec<FieldInput>),
    /// A tuple or unit struct.
    UnnamedStruct,
    /// An enum or union.
    NotStruct,
}

/// The item under `#[message]`.
#[derive(Debug, PartialEq, Eq)]
pub struct ItemInput {
    pub name: String,
    pub has_generics: bool,
    pub attrs: Vec<Attribute>,
    pub body: ItemBody,
}

// ---------------------------------------------------------------------------
// The errors
// ---------------------------------------------------------------------------

/// Why `#[message]` rejects its input.
#[derive(Debug, PartialEq, Eq)]
pub enum MessageError {
    /// The arguments (or a `#[field(...)]` list) did not parse; the parser's message.
    Syntax(String),
    GenericParams,
    BareFlag,
    MsgNotString,
    LevelNotName,
    MetaList,
    MetaKeyNotIdent,
    DuplicateMetaKey(String),
    MetaValueNotLiteral,
    TagsNotArray,
    TagNotString,
    EmptyTag,
    /// A tag with upper-case characters; holds its lowercase form.
    TagNotLowercase(String),
    UnknownLevel(String),
    NotStruct,
    UnnamedFields,
    FieldNamedMessage,
    /// `#[field]` written without parentheses; `true` for `#[field = ...]`.
    FieldNotList(bool),
}

/// A `MessageError` with its texts as character sequences.
pub enum SpecMessageError {
    Syntax(Seq<char>),
    GenericParams,
    BareFlag,
    MsgNotString,
    LevelNotName,
    MetaList,
    MetaKeyNotIdent,
    DuplicateMetaKey(Seq<char>),
    MetaValueNotLiteral,
    TagsNotArray,
    TagNotString,
    EmptyTag,
    TagNotLowercase(Seq<char>),
    UnknownLevel(Seq<char>),
    NotStruct,
    UnnamedFields,
    FieldNamedMessage,
    FieldNotList(bool),
}

impl View for MessageError {
    type V = SpecMessageError;

    open spec fn view(&self) -> SpecMessageError {
        match self {
            MessageError::Syntax(s) => SpecMessageError::Syntax(s@),
            MessageError::GenericParams => SpecMessageError::GenericParams,
            MessageError::BareFlag => SpecMessageError::BareFlag,
            MessageError::MsgNotString => SpecMessageError::MsgNotString,
            MessageError::LevelNotName => SpecMessageError::LevelNotName,
            MessageError::MetaList => SpecMessageError::MetaList,
            MessageError::MetaKeyNotIdent => SpecMessageError::MetaKeyNotIdent,
            MessageError::DuplicateMetaKey(k) => SpecMessageError::DuplicateMetaKey(k@),
            MessageError::MetaValueNotLiteral => SpecMessageError::MetaValueNotLiteral,
            MessageError::TagsNotArray => SpecMessageError::TagsNotArray,
            MessageError::TagNotString => SpecMessageError::TagNotString,
            MessageError::EmptyTag => SpecMessageError::EmptyTag,
            MessageError::TagNotLowercase(t) => SpecMessageError::TagNotLowercase(t@),
            MessageError::UnknownLevel(l) => SpecMessageError::UnknownLevel(l@),
            MessageError::NotStruct => SpecMessageError::NotStruct,
            MessageError::UnnamedFields => SpecMessageError::UnnamedFields,
            MessageError::FieldNamedMessage => SpecMessageError::FieldNamedMessage,
            MessageError::FieldNotList(b) => SpecMessageError::FieldNotList(*b),
        }
    }
}

/// The message `#[message]` reports for an error.
pub open spec fn error_text(e: SpecMessageError) -> Seq<char> {
    match e {
        SpecMessageError::Syntax(t) => t,
        SpecMessageError::GenericParams =>
            "#[message] does not support generic parameters (a message must be a concrete `'static` type)"@,
        SpecMessageError::BareFlag =>
            "expected `key = value`; `#[message]` takes no bare flags (serialization is enabled by `#[derive(Serialize)]`)"@,
        SpecMessageError::MsgNotString => "`msg` must be a string literal"@,
        SpecMessageError::LevelNotName => "`level` must be one of trace/debug/info/warn/error"@,
        SpecMessageError::MetaList => "expected `key = value` or a bare flag, not a list"@,
        SpecMessageError::MetaKeyNotIdent => "metadata keys must be identifiers"@,
        SpecMessageError::DuplicateMetaKey(k) => "duplicate metadata key `"@ + k + "`"@,
        SpecMessageError::MetaValueNotLiteral =>
            "metadata values must be literals (str/int/bool/float)"@,
        SpecMessageError::TagsNotArray =>
            "`tags` must be an array of string literals, e.g. `tags = [\"analytics\"]`"@,
        SpecMessageError::TagNotString => "each tag must be a string literal"@,
        SpecMessageError::EmptyTag => "a tag must not be empty"@,
        SpecMessageError::TagNotLowercase(l) => "tags must be lowercase; use `"@ + l + "`"@,
        SpecMessageError::UnknownLevel(l) =>
            "unknown level `"@ + l + "` (expected trace/debug/info/warn/error)"@,
        SpecMessageError::NotStruct => "#[message] can only be applied to structs"@,
        SpecMessageError::UnnamedFields => "#[message] requires named fields"@,
        SpecMessageError::FieldNamedMessage =>
            "a message field must not be named `message`; tracing reserves it for the event text"@,
        SpecMessageError::FieldNotList(name_value) => if name_value {
            "expected parentheses: #[field(...)]"@
        } else {
            "expected attribute arguments in parentheses: #[field(...)]"@
        },
    }
}

fn text(s: &str) -> (r: String)
    ensures
        r@ == s@,
{
    owned(s)
}

impl MessageError {
    /// The message `#[message]` reports for this error.
    pub fn describe(&self) -> (r: String)
        ensures
            r@ == error_text(self@),
    {
        match self {
            MessageError::Syntax(t) => t.clone(),
            MessageError::GenericParams => text(
                "#[message] does not support generic parameters (a message must be a concrete `'static` type)",
            ),
            MessageError::BareFlag => text(
                "expected `key = value`; `#[message]` takes no bare flags (serialization is enabled by `#[derive(Serialize)]`)",
            ),
            MessageError::MsgNotString => text("`msg` must be a string literal"),
            MessageError::LevelNotName => text(
                "`level` must be one of trace/debug/info/warn/error",
            ),
            MessageError::MetaList => text("expected `key = value` or a bare flag, not a list"),
            MessageError::MetaKeyNotIdent => text("metadata keys must be identifiers"),
            MessageError::DuplicateMetaKey(k) => {
                let mut r = text("duplicate metadata key `");
                r.append(k.as_str());
                r.append("`");
                r
            },
            MessageError::MetaValueNotLiteral => text(
                "metadata values must be literals (str/int/bool/float)",
            ),
            MessageError::TagsNotArray => text(
                "`tags` must be an array of string literals, e.g. `tags = [\"analytics\"]`",
            ),
            MessageError::TagNotString => text("each tag must be a string literal"),
            MessageError::EmptyTag => text("a tag must not be empty"),
            MessageError::TagNotLowercase(l) => {
                let mut r = text("tags must be lowercase; use `");
                r.append(l.as_str());
                r.append("`");
                r
            },
            MessageError::UnknownLevel(l) => {
                let mut r = text("unknown level `");
                r.append(l.as_str());
                r.append("` (expected trace/debug/info/warn/error)");
                r
            },
            MessageError::NotStruct => text("#[message] can only be applied to structs"),
            MessageError::UnnamedFields => text("#[message] requires named fields"),
            MessageError::FieldNamedMessage => text(
                "a message field must not be named `message`; tracing reserves it for the event text",
            ),
            MessageError::FieldNotList(name_value) => if *name_value {
                text("expected parentheses: #[field(...)]")
            } else {
                text("expected attribute arguments in parentheses: #[field(...)]")
            },
        }
    }
}


// ---------------------------------------------------------------------------
// Paths, docs and deprecation notes
// ---------------------------------------------------------------------------

pub open spec fn opt_view(o: Option<String>) -> Option<Seq<char>> {
    match o {
        Some(s) => Some(s@),
        None => None,
    }
}

/// The path is the single identifier `name`.
pub open spec fn path_is(p: AttrPath, name: Seq<char>) -> bool {
    p.ident matches Some(s) && s@ == name
}

fn path_is_exec(p: &AttrPath, name: &str) -> (r: bool)
    ensures
        r == path_is(*p, name@),
{
    match &p.ident {
        Some(s) => same_text(s.as_str(), name),
        None => false,
    }
}

/// The `note = "..."` of a `#[deprecated(...)]` list, scanning left to right
/// and stopping at the first entry that is not `key = "string"`; with whether
/// the scan stopped.
pub open spec fn note_scan(entries: Seq<NestedMeta>) -> (Seq<char>, bool)
    decreases entries.len(),
{
    if entries.len() == 0 {
        (Seq::empty(), false)
    } else {
        let (note, stopped) = note_scan(entries.drop_last());
        if stopped {
            (note, true)
        } else {
            match entries.last() {
                NestedMeta::Pair(p, Expression::Lit(Literal::Str(s))) => (
                    if path_is(p, "note"@) {
                        s@
                    } else {
                        note
                    },
                    false,
                ),
                _ => (note, true),
            }
        }
    }
}

/// The reason a `#[deprecated]` attribute gives, empty when it gives none.
pub open spec fn attr_reason(a: Attribute) -> Seq<char> {
    match a.body {
        AttrBody::Word => Seq::empty(),
        AttrBody::NameValue(Expression::Lit(Literal::Str(s))) => s@,
        AttrBody::NameValue(_) => Seq::empty(),
        AttrBody::List(entries) => note_scan(entries@).0,
    }
}

/// The index of the first `#[deprecated]` attribute, if any.
pub open spec fn first_deprecated(attrs: Seq<Attribute>) -> Option<int>
    decreases attrs.len(),
{
    if attrs.len() == 0 {
        None
    } else {
        match first_deprecated(attrs.drop_last()) {
            Some(i) => Some(i),
            None => if path_is(attrs.last().path, "deprecated"@) {
                Some(attrs.len() - 1)
            } else {
                None
            },
        }
    }
}

/// The deprecation recorded for a struct or field: `None` without a
/// `#[deprecated]`; else the reason of the first one, or `"true"` when it gives none.
pub open spec fn deprecation(attrs: Seq<Attribute>) -> Option<Seq<char>> {
    match first_deprecated(attrs) {
        None => None,
        Some(i) => {
            let reason = attr_reason(attrs[i]);
            Some(
                if reason.len() == 0 {
                    "true"@
                } else {
                    reason
                },
            )
        },
    }
}

/// The trimmed text of a `#[doc = "..."]` attribute.
pub open spec fn doc_line(a: Attribute) -> Option<Seq<char>> {
    if path_is(a.path, "doc"@) {
        match a.body {
            AttrBody::NameValue(Expression::Lit(Literal::Str(s))) => Some(trimmed(s@)),
            _ => None,
        }
    } else {
        None
    }
}

pub open spec fn doc_lines(attrs: Seq<Attribute>) -> Seq<Seq<char>>
    decreases attrs.len(),
{
    if attrs.len() == 0 {
        Seq::empty()
    } else {
        let prev = doc_lines(attrs.drop_last());
        match doc_line(attrs.last()) {
            Some(l) => prev.push(l),
            None => prev,
        }
    }
}

/// The lines joined by `\n`.
pub open spec fn join_lines(lines: Seq<Seq<char>>) -> Seq<char>
    decreases lines.len(),
{
    if lines.len() == 0 {
        Seq::empty()
    } else if lines.len() == 1 {
        lines[0]
    } else {
        join_lines(lines.drop_last()) + seq!['\n'] + lines.last()
    }
}

/// The docs recorded for a struct or field: its `///` lines, each trimmed,
/// joined by `\n`; `None` when it has none.
pub open spec fn docs(attrs: Seq<Attribute>) -> Option<Seq<char>> {
    let lines = doc_lines(attrs);
    if lines.len() == 0 {
        None
    } else {
        Some(join_lines(lines))
    }
}

fn scan_note(entries: &Vec<NestedMeta>) -> (r: String)
    ensures
        r@ == note_scan(entries@).0,
{
    let n = entries.len();
    let mut note = String::new();
    let mut i: usize = 0;
    while i < n
        invariant
            n == entries@.len(),
            i <= n,
            note_scan(entries@.take(i as int)) == (note@, false),
        decreases n - i,
    {
        assert(entries@.take(i + 1).drop_last() =~= entries@.take(i as int));
        match &entries[i] {
            NestedMeta::Pair(p, Expression::Lit(Literal::Str(s))) => {
                if path_is_exec(p, "note") {
                    note = s.clone();
                }
            },
            _ => {
                proof {
                    lemma_note_scan_stopped(entries@, i as int + 1);
                }
                return note;
            },
        }
        i = i + 1;
    }
    assert(entries@.take(n as int) =~= entries@);
    note
}

proof fn lemma_note_scan_stopped(entries: Seq<NestedMeta>, k: int)
    requires
        0 <= k <= entries.len(),
        note_scan(entries.take(k)).1,
    ensures
        note_scan(entries) == note_scan(entries.take(k)),
    decreases entries.len() - k,
{
    if k < entries.len() {
        assert(entries.take(k + 1).drop_last() =~= entries.take(k));
        lemma_note_scan_stopped(entries, k + 1);
    } else {
        assert(entries.take(k) =~= entries);
    }
}

/// The deprecation recorded for a struct or field (see `deprecation`).
pub fn harvest_deprecation(attrs: &Vec<Attribute>) -> (r: Option<String>)
    ensures
        opt_view(r) == deprecation(attrs@),
{
    let n = attrs.len();
    let mut i: usize = 0;
    while i < n
        invariant
            n == attrs@.len(),
            i <= n,
            first_deprecated(attrs@.take(i as int)) is None,
        decreases n - i,
    {
        assert(attrs@.take(i + 1).drop_last() =~= attrs@.take(i as int));
        if path_is_exec(&attrs[i].path, "deprecated") {
            proof {
                lemma_first_deprecated_prefix(attrs@, i as int + 1);
            }
            let reason = match &attrs[i].body {
                AttrBody::Word => String::new(),
                AttrBody::NameValue(Expression::Lit(Literal::Str(s))) => s.clone(),
                AttrBody::NameValue(_) => String::new(),
                AttrBody::List(entries) => scan_note(entries),
            };
            if reason.unicode_len() == 0 {
                return Some(text("true"));
            } else {
                return Some(reason);
            }
        }
        i = i + 1;
    }
    assert(attrs@.take(n as int) =~= attrs@);
    None
}

proof fn lemma_first_deprecated_prefix(attrs: Seq<Attribute>, k: int)
    requires
        0 <= k <= attrs.len(),
        first_deprecated(attrs.take(k)) is Some,
    ensures
        first_deprecated(attrs) == first_deprecated(attrs.take(k)),
    decreases attrs.len() - k,
{
    if k < attrs.len() {
        assert(attrs.take(k + 1).drop_last() =~= attrs.take(k));
        lemma_first_deprecated_prefix(attrs, k + 1);
    } else {
        assert(attrs.take(k) =~= attrs);
    }
}

/// The docs recorded for a struct or field (see `docs`).
pub fn harvest_docs(attrs: &Vec<Attribute>) -> (r: Option<String>)
    ensures
        opt_view(r) == docs(attrs@),
{
    let n = attrs.len();
    let mut joined = String::new();
    let mut count: usize = 0;
    let mut i: usize = 0;
    while i < n
        invariant
            n == attrs@.len(),
            i <= n,
            count == doc_lines(attrs@.take(i as int)).len(),
            count <= i,
            count == 0 ==> joined@ == Seq::<char>::empty(),
            count > 0 ==> joined@ == join_lines(doc_lines(attrs@.take(i as int))),
        decreases n - i,
    {
        assert(attrs@.take(i + 1).drop_last() =~= attrs@.take(i as int));
        let a = &attrs[i];
        if path_is_exec(&a.path, "doc") {
            if let AttrBody::NameValue(Expression::Lit(Literal::Str(s))) = &a.body {
                let line = trim(s.as_str());
                let ghost prev = doc_lines(attrs@.take(i as int));
                assert(prev.push(line@).drop_last() =~= prev);
                if count > 0 {
                    push_char(&mut joined, '\n');
                }
                joined.append(line.as_str());
                count = count + 1;
            }
        }
        i = i + 1;
    }
    assert(attrs@.take(n as int) =~= attrs@);
    if count == 0 {
        None
    } else {
        Some(joined)
    }
}

// ---------------------------------------------------------------------------
// Metadata pairs and tags
// ---------------------------------------------------------------------------

/// The texts of metadata pairs.
pub open spec fn pair_texts(v: Seq<(String, String)>) -> Seq<(Seq<char>, Seq<char>)> {
    v.map_values(|p: (String, String)| (p.0@, p.1@))
}

pub open spec fn has_key(pairs: Seq<(Seq<char>, Seq<char>)>, k: Seq<char>) -> bool {
    exists|i: int| 0 <= i < pairs.len() && #[trigger] pairs[i].0 == k
}

/// A metadata value as the catalogue stores it: the text of a string, the
/// digits of a number, `true`/`false`; `None` for anything but those literals.
pub open spec fn meta_value(v: Expression) -> Option<Seq<char>> {
    match v {
        Expression::Lit(Literal::Str(s)) => Some(s@),
        Expression::Lit(Literal::Int(d)) => Some(d@),
        Expression::Lit(Literal::Float(d)) => Some(d@),
        Expression::Lit(Literal::Bool(b)) => Some(
            if b {
                "true"@
            } else {
                "false"@
            },
        ),
        _ => None,
    }
}

/// Adds `key = value` to the metadata: the key must be an identifier not yet
/// present, the value a literal.
pub open spec fn push_meta(
    pairs: Seq<(Seq<char>, Seq<char>)>,
    key: AttrPath,
    value: Expression,
) -> Result<Seq<(Seq<char>, Seq<char>)>, SpecMessageError> {
    match key.ident {
        None => Err(SpecMessageError::MetaKeyNotIdent),
        Some(k) => if has_key(pairs, k@) {
            Err(SpecMessageError::DuplicateMetaKey(k@))
        } else {
            match meta_value(value) {
                None => Err(SpecMessageError::MetaValueNotLiteral),
                Some(v) => Ok(pairs.push((k@, v))),
            }
        },
    }
}

fn push_meta_exec(pairs: &mut Vec<(String, String)>, key: &AttrPath, value: &Expression) -> (r:
    Result<(), MessageError>)
    ensures
        match push_meta(pair_texts(old(pairs)@), *key, *value) {
            Ok(p) => r is Ok && pair_texts(final(pairs)@) == p,
            Err(e) => r matches Err(x) && x@ == e,
        },
        r is Err ==> final(pairs)@ == old(pairs)@,
{
    let k = match &key.ident {
        None => {
            return Err(MessageError::MetaKeyNotIdent);
        },
        Some(k) => k,
    };
    let n = pairs.len();
    let mut i: usize = 0;
    while i < n
        invariant
            n == pairs@.len(),
            i <= n,
            pairs@ == old(pairs)@,
            key.ident == Some(*k),
            forall|j: int| 0 <= j < i ==> #[trigger] pair_texts(pairs@)[j].0 != k@,
        decreases n - i,
    {
        if same_text(pairs[i].0.as_str(), k.as_str()) {
            assert(pair_texts(pairs@)[i as int].0 == k@);
            assert(has_key(pair_texts(pairs@), k@));
            return Err(MessageError::DuplicateMetaKey(k.clone()));
        }
        i = i + 1;
    }
    let v = match value {
        Expression::Lit(Literal::Str(s)) => s.clone(),
        Expression::Lit(Literal::Int(d)) => d.clone(),
        Expression::Lit(Literal::Float(d)) => d.clone(),
        Expression::Lit(Literal::Bool(b)) => if *b {
            text("true")
        } else {
            text("false")
        },
        _ => {
            return Err(MessageError::MetaValueNotLiteral);
        },
    };
    let ghost before = pair_texts(pairs@);
    pairs.push((k.clone(), v));
    assert(pair_texts(pairs@) =~= before.push((k@, v@)));
    Ok(())
}

/// Why a tag is rejected, if it is.
pub open spec fn tag_error(e: ArrayElement) -> Option<SpecMessageError> {
    match e {
        ArrayElement::Lit(Literal::Str(s)) => if s@.len() == 0 {
            Some(SpecMessageError::EmptyTag)
        } else if lowercase(s@) != s@ {
            Some(SpecMessageError::TagNotLowercase(lowercase(s@)))
        } else {
            None
        },
        _ => Some(SpecMessageError::TagNotString),
    }
}

/// Why the first rejected tag is rejected, if one is.
pub open spec fn first_tag_error(elems: Seq<ArrayElement>) -> Option<SpecMessageError>
    decreases elems.len(),
{
    if elems.len() == 0 {
        None
    } else {
        match first_tag_error(elems.drop_last()) {
            Some(e) => Some(e),
            None => tag_error(elems.last()),
        }
    }
}

pub open spec fn tag_text(e: ArrayElement) -> Seq<char> {
    match e {
        ArrayElement::Lit(Literal::Str(s)) => s@,
        _ => Seq::empty(),
    }
}

/// `tags = [...]`: an array of non-empty lowercase string literals, recorded
/// sorted with each tag once.
pub open spec fn parse_tags(v: Expression) -> Result<Seq<Seq<char>>, SpecMessageError> {
    match v {
        Expression::Array(elems) => match first_tag_error(elems@) {
            Some(e) => Err(e),
            None => Ok(canonical(elems@.map_values(|e: ArrayElement| tag_text(e)))),
        },
        _ => Err(SpecMessageError::TagsNotArray),
    }
}

/// The case check of one tag, given `lowered`, the tag's lowercase form: a
/// tag that differs from it is rejected, and the error names the form to use.
pub fn check_tag_case(tag: &str, lowered: String) -> (r: Result<(), MessageError>)
    ensures
        r is Ok <==> lowered@ == tag@,
        r is Err ==> (r matches Err(x) && x@ == SpecMessageError::TagNotLowercase(lowered@)),
{
    if same_text(lowered.as_str(), tag) {
        Ok(())
    } else {
        Err(MessageError::TagNotLowercase(lowered))
    }
}

fn parse_tags_exec(v: &Expression) -> (r: Result<Vec<String>, MessageError>)
    ensures
        match parse_tags(*v) {
            Ok(t) => r matches Ok(x) && texts(x@) == t,
            Err(e) => r matches Err(x) && x@ == e,
        },
{
    let elems = match v {
        Expression::Array(elems) => elems,
        _ => {
            return Err(MessageError::TagsNotArray);
        },
    };
    let ghost raw = elems@.map_values(|e: ArrayElement| tag_text(e));
    let n = elems.len();
    let mut tags: Vec<String> = Vec::new();
    let mut i: usize = 0;
    while i < n
        invariant
            n == elems@.len(),
            *v == Expression::Array(*elems),
            i <= n,
            raw == elems@.map_values(|e: ArrayElement| tag_text(e)),
            first_tag_error(elems@.take(i as int)) is None,
            strictly_sorted(texts(tags@)),
            same_elements(texts(tags@), raw.take(i as int)),
        decreases n - i,
    {
        assert(elems@.take(i + 1).drop_last() =~= elems@.take(i as int));
        assert(elems@.take(i + 1).last() == elems@[i as int]);
        let s = match &elems[i] {
            ArrayElement::Lit(Literal::Str(s)) => s,
            _ => {
                proof {
                    lemma_first_tag_error_prefix(elems@, i as int + 1);
                }
                return Err(MessageError::TagNotString);
            },
        };
        if s.as_str().is_empty() {
            proof {
                lemma_first_tag_error_prefix(elems@, i as int + 1);
            }
            return Err(MessageError::EmptyTag);
        }
        let low = to_lowercase(s.as_str());
        if let Err(e) = check_tag_case(s.as_str(), low) {
            proof {
                lemma_first_tag_error_prefix(elems@, i as int + 1);
            }
            return Err(e);
        }
        let ghost before = texts(tags@);
        insert_sorted(&mut tags, s.clone());
        proof {
            let cur = raw.take(i + 1);
            let prev = raw.take(i as int);
            assert(cur =~= prev.push(s@));
            assert forall|y: Seq<char>| texts(tags@).contains(y) <==> cur.contains(y) by {
                if cur.contains(y) {
                    let k = choose|k: int| 0 <= k < cur.len() && cur[k] == y;
                    if k < i {
                        assert(prev[k] == y);
                    }
                }
                if prev.contains(y) {
                    let k = choose|k: int| 0 <= k < prev.len() && prev[k] == y;
                    assert(cur[k] == y);
                }
                if y == s@ {
                    assert(cur[i as int] == y);
                }
                assert(before.contains(y) <==> prev.contains(y));
            }
        }
        i = i + 1;
    }
    assert(elems@.take(n as int) =~= elems@);
    assert(raw.take(n as int) =~= raw);
    proof {
        lemma_canonical_is(texts(tags@), raw);
    }
    Ok(tags)
}

proof fn lemma_first_tag_error_prefix(elems: Seq<ArrayElement>, k: int)
    requires
        0 <= k <= elems.len(),
        first_tag_error(elems.take(k)) is Some,
    ensures
        first_tag_error(elems) == first_tag_error(elems.take(k)),
    decreases elems.len() - k,
{
    if k < elems.len() {
        assert(elems.take(k + 1).drop_last() =~= elems.take(k));
        lemma_first_tag_error_prefix(elems, k + 1);
    } else {
        assert(elems.take(k) =~= elems);
    }
}

// ---------------------------------------------------------------------------
// The arguments of `#[message(...)]`
// ---------------------------------------------------------------------------

/// What the arguments set so far.
pub struct ArgState {
    pub msg: Option<Seq<char>>,
    pub level: Option<Seq<char>>,
    pub tags: Seq<Seq<char>>,
    pub meta: Seq<(Seq<char>, Seq<char>)>,
}

/// `level = warn` or `level = "warn"`.
pub open spec fn level_arg(v: Expression) -> Result<Seq<char>, SpecMessageError> {
    match v {
        Expression::Path(p) => match p.ident {
            Some(n) => Ok(n@),
            None => Err(SpecMessageError::LevelNotName),
        },
        Expression::Lit(Literal::Str(s)) => Ok(s@),
        _ => Err(SpecMessageError::LevelNotName),
    }
}

/// One argument applied to the state: `msg`, `level` and `tags` are the
/// reserved keys; any other `key = value` is metadata.
pub open spec fn apply_arg(st: ArgState, arg: MetaArg) -> Result<ArgState, SpecMessageError> {
    match arg {
        MetaArg::Flag(_) => Err(SpecMessageError::BareFlag),
        MetaArg::List(_) => Err(SpecMessageError::MetaList),
        MetaArg::NameValue(p, v) => if path_is(p, "msg"@) {
            match v {
                Expression::Lit(Literal::Str(s)) => Ok(
                    ArgState { msg: Some(s@), level: st.level, tags: st.tags, meta: st.meta },
                ),
                _ => Err(SpecMessageError::MsgNotString),
            }
        } else if path_is(p, "level"@) {
            match level_arg(v) {
                Ok(l) => Ok(ArgState { msg: st.msg, level: Some(l), tags: st.tags, meta: st.meta }),
                Err(e) => Err(e),
            }
        } else if path_is(p, "tags"@) {
            match parse_tags(v) {
                Ok(t) => Ok(ArgState { msg: st.msg, level: st.level, tags: t, meta: st.meta }),
                Err(e) => Err(e),
            }
        } else {
            match push_meta(st.meta, p, v) {
                Ok(m) => Ok(ArgState { msg: st.msg, level: st.level, tags: st.tags, meta: m }),
                Err(e) => Err(e),
            }
        },
    }
}

/// The arguments applied left to right; the first error wins.
pub open spec fn apply_args(args: Seq<MetaArg>) -> Result<ArgState, SpecMessageError>
    decreases args.len(),
{
    if args.len() == 0 {
        Ok(ArgState { msg: None, level: None, tags: Seq::empty(), meta: Seq::empty() })
    } else {
        match apply_args(args.drop_last()) {
            Err(e) => Err(e),
            Ok(st) => apply_arg(st, args.last()),
        }
    }
}

/// The level a name selects.
pub open spec fn level_named(name: Seq<char>) -> Option<LevelName> {
    if name == "trace"@ {
        Some(LevelName::TRACE)
    } else if name == "debug"@ {
        Some(LevelName::DEBUG)
    } else if name == "info"@ {
        Some(LevelName::INFO)
    } else if name == "warn"@ {
        Some(LevelName::WARN)
    } else if name == "error"@ {
        Some(LevelName::ERROR)
    } else {
        None
    }
}

fn level_named_exec(name: &str) -> (r: Option<LevelName>)
    ensures
        r == level_named(name@),
{
    if same_text(name, "trace") {
        Some(LevelName::TRACE)
    } else if same_text(name, "debug") {
        Some(LevelName::DEBUG)
    } else if same_text(name, "info") {
        Some(LevelName::INFO)
    } else if same_text(name, "warn") {
        Some(LevelName::WARN)
    } else if same_text(name, "error") {
        Some(LevelName::ERROR)
    } else {
        None
    }
}

// ---------------------------------------------------------------------------
// Fields
// ---------------------------------------------------------------------------

/// The parser's message for the first entry that is not `key = value`.
pub open spec fn first_malformed(entries: Seq<NestedMeta>) -> Option<Seq<char>>
    decreases entries.len(),
{
    if entries.len() == 0 {
        None
    } else {
        match first_malformed(entries.drop_last()) {
            Some(m) => Some(m),
            None => match entries.last() {
                NestedMeta::Malformed(m) => Some(m@),
                NestedMeta::Pair(_, _) => None,
            },
        }
    }
}

/// Every `key = value` entry added to the metadata in order.
pub open spec fn push_entries(
    pairs: Seq<(Seq<char>, Seq<char>)>,
    entries: Seq<NestedMeta>,
) -> Result<Seq<(Seq<char>, Seq<char>)>, SpecMessageError>
    decreases entries.len(),
{
    if entries.len() == 0 {
        Ok(pairs)
    } else {
        match push_entries(pairs, entries.drop_last()) {
            Err(e) => Err(e),
            Ok(p) => match entries.last() {
                NestedMeta::Pair(k, v) => push_meta(p, k, v),
                NestedMeta::Malformed(_) => Ok(p),
            },
        }
    }
}

/// A `#[field(...)]` attribute applied to a field's metadata.
pub open spec fn apply_field_attr(pairs: Seq<(Seq<char>, Seq<char>)>, a: Attribute) -> Result<
    Seq<(Seq<char>, Seq<char>)>,
    SpecMessageError,
> {
    match a.body {
        AttrBody::Word => Err(SpecMessageError::FieldNotList(false)),
        AttrBody::NameValue(_) => Err(SpecMessageError::FieldNotList(true)),
        AttrBody::List(entries) => match first_malformed(entries@) {
            Some(m) => Err(SpecMessageError::Syntax(m)),
            None => push_entries(pairs, entries@),
        },
    }
}

/// A field's metadata from its `#[field(...)]` attributes, in order.
pub open spec fn field_meta(attrs: Seq<Attribute>) -> Result<
    Seq<(Seq<char>, Seq<char>)>,
    SpecMessageError,
>
    decreases attrs.len(),
{
    if attrs.len() == 0 {
        Ok(Seq::empty())
    } else {
        match field_meta(attrs.drop_last()) {
            Err(e) => Err(e),
            Ok(p) => if path_is(attrs.last().path, "field"@) {
                apply_field_attr(p, attrs.last())
            } else {
                Ok(p)
            },
        }
    }
}

/// The `T` of a field typed `Option<T>` (also `option::Option<T>` and the
/// like): the fields the ambient join may fill. Decided on the syntax alone.
pub open spec fn ambient_inner(ty: TypeShape) -> Option<Seq<char>> {
    match ty {
        TypeShape::Path { qualified, last } => if qualified {
            None
        } else {
            match last {
                None => None,
                Some(seg) => if seg.ident@ != "Option"@ {
                    None
                } else {
                    match seg.args {
                        PathArgs::AngleBracketed(args) => if args@.len() != 1 {
                            None
                        } else {
                            match args@[0] {
                                GenericArg::Type(t) => Some(t@),
                                GenericArg::Other => None,
                            }
                        },
                        _ => None,
                    }
                },
            }
        },
        TypeShape::Other => None,
    }
}

/// What `#[message]` records for one field.
pub struct SpecField {
    pub ident: Seq<char>,
    pub deprecated: Option<Seq<char>>,
    pub doc: Option<Seq<char>>,
    pub meta: Seq<(Seq<char>, Seq<char>)>,
    pub ambient: Option<Seq<char>>,
}

/// One field: it must not be named `message` (tracing reserves that name for
/// the event text), and its `#[field(...)]` metadata must be well formed.
pub open spec fn parse_field(f: FieldInput) -> Result<SpecField, SpecMessageError> {
    if f.ident@ == "message"@ {
        Err(SpecMessageError::FieldNamedMessage)
    } else {
        match field_meta(f.attrs@) {
            Err(e) => Err(e),
            Ok(m) => Ok(
                SpecField {
                    ident: f.ident@,
                    deprecated: deprecation(f.attrs@),
                    doc: docs(f.attrs@),
                    meta: m,
                    ambient: ambient_inner(f.ty),
                },
            ),
        }
    }
}

/// The fields in order; the first error wins.
pub open spec fn parse_fields(fs: Seq<FieldInput>) -> Result<Seq<SpecField>, SpecMessageError>
    decreases fs.len(),
{
    if fs.len() == 0 {
        Ok(Seq::empty())
    } else {
        match parse_fields(fs.drop_last()) {
            Err(e) => Err(e),
            Ok(prev) => match parse_field(fs.last()) {
                Err(e) => Err(e),
                Ok(f) => Ok(prev.push(f)),
            },
        }
    }
}

// ---------------------------------------------------------------------------
// The definition
// ---------------------------------------------------------------------------

/// What `#[message]` records for one field.
#[derive(Debug, PartialEq, Eq)]
pub struct FieldDefinition {
    pub ident: String,
    /// `Some` iff the field is `#[deprecated]`: the reason, or `"true"`.
    pub deprecated: Option<String>,
    /// The field's `///` lines, trimmed and joined by `\n`.
    pub doc: Option<String>,
    /// The `#[field(key = value)]` pairs, in order.
    pub meta: Vec<(String, String)>,
    /// For a field typed `Option<T>`, the text of `T`: the ambient join fills it.
    pub ambient: Option<String>,
}

impl View for FieldDefinition {
    type V = SpecField;

    open spec fn view(&self) -> SpecField {
        SpecField {
            ident: self.ident@,
            deprecated: opt_view(self.deprecated),
            doc: opt_view(self.doc),
            meta: pair_texts(self.meta@),
            ambient: opt_view(self.ambient),
        }
    }
}

/// What `#[message]` records for a message type.
pub struct SpecDefinition {
    pub name: Seq<char>,
    pub msg: Seq<char>,
    pub msg_record: Seq<char>,
    pub level: LevelName,
    pub tags: Seq<Seq<char>>,
    pub meta: Seq<(Seq<char>, Seq<char>)>,
    pub doc: Option<Seq<char>>,
    pub deprecated: Option<Seq<char>>,
    pub fields: Seq<SpecField>,
}

/// What `#[message]` records for a message type: everything the generated
/// impls, the catalogue descriptor and the tracing handoff are written from.
#[derive(Debug, PartialEq, Eq)]
pub struct MessageDefinition {
    /// The struct's name.
    pub name: String,
    /// The static message text (`MSG`): `msg = "..."`, or the struct's name.
    pub msg: String,
    /// The message text as a format string for the tracing macros: braces doubled.
    pub msg_record: String,
    /// `level = ...`, `INFO` by default.
    pub level: LevelName,
    /// The routing tags (`TAGS`): sorted, each once, lowercase.
    pub tags: Vec<String>,
    /// The other `key = value` arguments, in order.
    pub meta: Vec<(String, String)>,
    /// The struct's `///` lines, trimmed and joined by `\n`.
    pub doc: Option<String>,
    /// `Some` iff the struct is `#[deprecated]`: the reason, or `"true"`.
    pub deprecated: Option<String>,
    /// The named fields, in order.
    pub fields: Vec<FieldDefinition>,
}

impl View for MessageDefinition {
    type V = SpecDefinition;

    open spec fn view(&self) -> SpecDefinition {
        SpecDefinition {
            name: self.name@,
            msg: self.msg@,
            msg_record: self.msg_record@,
            level: self.level,
            tags: texts(self.tags@),
            meta: pair_texts(self.meta@),
            doc: opt_view(self.doc),
            deprecated: opt_view(self.deprecated),
            fields: self.fields@.map_values(|f: FieldDefinition| f@),
        }
    }
}

/// What `#[message(args)]` on `item` records, or why it is rejected. The
/// checks run in this order: generic parameters, the arguments (left to
/// right), the level name, the item's shape, the fields (in order).
pub open spec fn expand(args: Result<Vec<MetaArg>, String>, item: ItemInput) -> Result<
    SpecDefinition,
    SpecMessageError,
> {
    if item.has_generics {
        Err(SpecMessageError::GenericParams)
    } else {
        match args {
            Err(t) => Err(SpecMessageError::Syntax(t@)),
            Ok(a) => match apply_args(a@) {
                Err(e) => Err(e),
                Ok(st) => {
                    let msg = match st.msg {
                        Some(m) => m,
                        None => item.name@,
                    };
                    let lname = match st.level {
                        Some(l) => l,
                        None => "info"@,
                    };
                    match level_named(lname) {
                        None => Err(SpecMessageError::UnknownLevel(lname)),
                        Some(level) => match item.body {
                            ItemBody::NamedStruct(fs) => match parse_fields(fs@) {
                                Err(e) => Err(e),
                                Ok(fields) => Ok(
                                    SpecDefinition {
                                        name: item.name@,
                                        msg,
                                        msg_record: escape_braces(msg),
                                        level,
                                        tags: st.tags,
                                        meta: st.meta,
                                        doc: docs(item.attrs@),
                                        deprecated: deprecation(item.attrs@),
                                        fields,
                                    },
                                ),
                            },
                            ItemBody::UnnamedStruct => Err(SpecMessageError::UnnamedFields),
                            ItemBody::NotStruct => Err(SpecMessageError::NotStruct),
                        },
                    }
                },
            },
        }
    }
}

// ---------------------------------------------------------------------------
// The executable rules
// ---------------------------------------------------------------------------

/// The exec state of the arguments.
struct Args {
    msg: Option<String>,
    level: Option<String>,
    tags: Vec<String>,
    meta: Vec<(String, String)>,
}

impl Args {
    spec fn matches(&self, st: ArgState) -> bool {
        &&& opt_view(self.msg) == st.msg
        &&& opt_view(self.level) == st.level
        &&& texts(self.tags@) == st.tags
        &&& pair_texts(self.meta@) == st.meta
    }
}

fn level_arg_exec(v: &Expression) -> (r: Result<String, MessageError>)
    ensures
        match level_arg(*v) {
            Ok(l) => r matches Ok(x) && x@ == l,
            Err(e) => r matches Err(x) && x@ == e,
        },
{
    match v {
        Expression::Path(p) => match &p.ident {
            Some(n) => Ok(n.clone()),
            None => Err(MessageError::LevelNotName),
        },
        Expression::Lit(Literal::Str(s)) => Ok(s.clone()),
        _ => Err(MessageError::LevelNotName),
    }
}

fn apply_arg_exec(st: &mut Args, arg: &MetaArg) -> (r: Result<(), MessageError>)
    ensures
        match apply_arg(
            ArgState {
                msg: opt_view(old(st).msg),
                level: opt_view(old(st).level),
                tags: texts(old(st).tags@),
                meta: pair_texts(old(st).meta@),
            },
            *arg,
        ) {
            Ok(next) => r is Ok && final(st).matches(next),
            Err(e) => r matches Err(x) && x@ == e,
        },
{
    match arg {
        MetaArg::Flag(_) => Err(MessageError::BareFlag),
        MetaArg::List(_) => Err(MessageError::MetaList),
        MetaArg::NameValue(p, v) => {
            if path_is_exec(p, "msg") {
                match v {
                    Expression::Lit(Literal::Str(s)) => {
                        st.msg = Some(s.clone());
                        Ok(())
                    },
                    _ => Err(MessageError::MsgNotString),
                }
            } else if path_is_exec(p, "level") {
                let l = level_arg_exec(v)?;
                st.level = Some(l);
                Ok(())
            } else if path_is_exec(p, "tags") {
                let t = parse_tags_exec(v)?;
                st.tags = t;
                Ok(())
            } else {
                push_meta_exec(&mut st.meta, p, v)
            }
        },
    }
}

fn apply_args_exec(args: &Vec<MetaArg>) -> (r: Result<Args, MessageError>)
    ensures
        match apply_args(args@) {
            Ok(st) => r matches Ok(x) && x.matches(st),
            Err(e) => r matches Err(x) && x@ == e,
        },
{
    let mut st = Args { msg: None, level: None, tags: Vec::new(), meta: Vec::new() };
    let n = args.len();
    let mut i: usize = 0;
    assert(texts(st.tags@) =~= Seq::<Seq<char>>::empty());
    assert(pair_texts(st.meta@) =~= Seq::<(Seq<char>, Seq<char>)>::empty());
    assert(args@.take(0) =~= Seq::<MetaArg>::empty());
    while i < n
        invariant
            n == args@.len(),
            i <= n,
            apply_args(args@.take(i as int)) matches Ok(s) && st.matches(s),
        decreases n - i,
    {
        assert(args@.take(i + 1).drop_last() =~= args@.take(i as int));
        let res = apply_arg_exec(&mut st, &args[i]);
        match res {
            Ok(()) => {},
            Err(e) => {
                proof {
                    lemma_apply_args_failed(args@, i as int + 1);
                }
                return Err(e);
            },
        }
        i = i + 1;
    }
    assert(args@.take(n as int) =~= args@);
    Ok(st)
}

proof fn lemma_apply_args_failed(args: Seq<MetaArg>, k: int)
    requires
        0 <= k <= args.len(),
        apply_args(args.take(k)) is Err,
    ensures
        apply_args(args) == apply_args(args.take(k)),
    decreases args.len() - k,
{
    if k < args.len() {
        assert(args.take(k + 1).drop_last() =~= args.take(k));
        lemma_apply_args_failed(args, k + 1);
    } else {
        assert(args.take(k) =~= args);
    }
}

fn apply_field_attr_exec(pairs: &mut Vec<(String, String)>, a: &Attribute) -> (r: Result<
    (),
    MessageError,
>)
    ensures
        match apply_field_attr(pair_texts(old(pairs)@), *a) {
            Ok(p) => r is Ok && pair_texts(final(pairs)@) == p,
            Err(e) => r matches Err(x) && x@ == e,
        },
{
    let entries = match &a.body {
        AttrBody::Word => {
            return Err(MessageError::FieldNotList(false));
        },
        AttrBody::NameValue(_) => {
            return Err(MessageError::FieldNotList(true));
        },
        AttrBody::List(entries) => entries,
    };
    let n = entries.len();
    let mut i: usize = 0;
    while i < n
        invariant
            n == entries@.len(),
            a.body == AttrBody::List(*entries),
            pairs@ == old(pairs)@,
            i <= n,
            first_malformed(entries@.take(i as int)) is None,
        decreases n - i,
    {
        assert(entries@.take(i + 1).drop_last() =~= entries@.take(i as int));
        if let NestedMeta::Malformed(m) = &entries[i] {
            proof {
                lemma_first_malformed_prefix(entries@, i as int + 1);
            }
            return Err(MessageError::Syntax(m.clone()));
        }
        i = i + 1;
    }
    assert(entries@.take(n as int) =~= entries@);
    let ghost start = pair_texts(pairs@);
    let mut j: usize = 0;
    assert(entries@.take(0) =~= Seq::<NestedMeta>::empty());
    while j < n
        invariant
            n == entries@.len(),
            a.body == AttrBody::List(*entries),
            start == pair_texts(old(pairs)@),
            first_malformed(entries@) is None,
            j <= n,
            push_entries(start, entries@.take(j as int)) == Ok::<
                Seq<(Seq<char>, Seq<char>)>,
                SpecMessageError,
            >(pair_texts(pairs@)),
        decreases n - j,
    {
        assert(entries@.take(j + 1).drop_last() =~= entries@.take(j as int));
        if let NestedMeta::Pair(k, v) = &entries[j] {
            let res = push_meta_exec(pairs, k, v);
            match res {
                Ok(()) => {},
                Err(e) => {
                    proof {
                        lemma_push_entries_failed(start, entries@, j as int + 1);
                    }
                    return Err(e);
                },
            }
        }
        j = j + 1;
    }
    assert(entries@.take(n as int) =~= entries@);
    Ok(())
}

proof fn lemma_first_malformed_prefix(entries: Seq<NestedMeta>, k: int)
    requires
        0 <= k <= entries.len(),
        first_malformed(entries.take(k)) is Some,
    ensures
        first_malformed(entries) == first_malformed(entries.take(k)),
    decreases entries.len() - k,
{
    if k < entries.len() {
        assert(entries.take(k + 1).drop_last() =~= entries.take(k));
        lemma_first_malformed_prefix(entries, k + 1);
    } else {
        assert(entries.take(k) =~= entries);
    }
}

proof fn lemma_push_entries_failed(
    start: Seq<(Seq<char>, Seq<char>)>,
    entries: Seq<NestedMeta>,
    k: int,
)
    requires
        0 <= k <= entries.len(),
        push_entries(start, entries.take(k)) is Err,
    ensures
        push_entries(start, entries) == push_entries(start, entries.take(k)),
    decreases entries.len() - k,
{
    if k < entries.len() {
        assert(entries.take(k + 1).drop_last() =~= entries.take(k));
        lemma_push_entries_failed(start, entries, k + 1);
    } else {
        assert(entries.take(k) =~= entries);
    }
}

fn field_meta_exec(attrs: &Vec<Attribute>) -> (r: Result<Vec<(String, String)>, MessageError>)
    ensures
        match field_meta(attrs@) {
            Ok(p) => r matches Ok(x) && pair_texts(x@) == p,
            Err(e) => r matches Err(x) && x@ == e,
        },
{
    let mut pairs: Vec<(String, String)> = Vec::new();
    let n = attrs.len();
    let mut i: usize = 0;
    assert(pair_texts(pairs@) =~= Seq::<(Seq<char>, Seq<char>)>::empty());
    assert(attrs@.take(0) =~= Seq::<Attribute>::empty());
    while i < n
        invariant
            n == attrs@.len(),
            i <= n,
            field_meta(attrs@.take(i as int)) == Ok::<
                Seq<(Seq<char>, Seq<char>)>,
                SpecMessageError,
            >(pair_texts(pairs@)),
        decreases n - i,
    {
        assert(attrs@.take(i + 1).drop_last() =~= attrs@.take(i as int));
        if path_is_exec(&attrs[i].path, "field") {
            let res = apply_field_attr_exec(&mut pairs, &attrs[i]);
            match res {
                Ok(()) => {},
                Err(e) => {
                    proof {
                        lemma_field_meta_failed(attrs@, i as int + 1);
                    }
                    return Err(e);
                },
            }
        }
        i = i + 1;
    }
    assert(attrs@.take(n as int) =~= attrs@);
    Ok(pairs)
}

proof fn lemma_field_meta_failed(attrs: Seq<Attribute>, k: int)
    requires
        0 <= k <= attrs.len(),
        field_meta(attrs.take(k)) is Err,
    ensures
        field_meta(attrs) == field_meta(attrs.take(k)),
    decreases attrs.len() - k,
{
    if k < attrs.len() {
        assert(attrs.take(k + 1).drop_last() =~= attrs.take(k));
        lemma_field_meta_failed(attrs, k + 1);
    } else {
        assert(attrs.take(k) =~= attrs);
    }
}

/// The `T` of a field typed `Option<T>` (see `ambient_inner`).
pub fn ambient_inner_exec(ty: &TypeShape) -> (r: Option<String>)
    ensures
        opt_view(r) == ambient_inner(*ty),
{
    match ty {
        TypeShape::Path { qualified, last } => {
            if *qualified {
                return None;
            }
            match last {
                None => None,
                Some(seg) => {
                    if !same_text(seg.ident.as_str(), "Option") {
                        return None;
                    }
                    match &seg.args {
                        PathArgs::AngleBracketed(args) => {
                            if args.len() != 1 {
                                return None;
                            }
                            match &args[0] {
                                GenericArg::Type(t) => Some(t.clone()),
                                GenericArg::Other => None,
                            }
                        },
                        _ => None,
                    }
                },
            }
        },
        TypeShape::Other => None,
    }
}

fn parse_field_exec(f: &FieldInput) -> (r: Result<FieldDefinition, MessageError>)
    ensures
        match parse_field(*f) {
            Ok(d) => r matches Ok(x) && x@ == d,
            Err(e) => r matches Err(x) && x@ == e,
        },
{
    if same_text(f.ident.as_str(), "message") {
        return Err(MessageError::FieldNamedMessage);
    }
    let meta = field_meta_exec(&f.attrs)?;
    Ok(
        FieldDefinition {
            ident: f.ident.clone(),
            deprecated: harvest_deprecation(&f.attrs),
            doc: harvest_docs(&f.attrs),
            meta,
            ambient: ambient_inner_exec(&f.ty),
        },
    )
}

fn parse_fields_exec(fs: &Vec<FieldInput>) -> (r: Result<Vec<FieldDefinition>, MessageError>)
    ensures
        match parse_fields(fs@) {
            Ok(d) => r matches Ok(x) && x@.map_values(|f: FieldDefinition| f@) == d,
            Err(e) => r matches Err(x) && x@ == e,
        },
{
    let mut out: Vec<FieldDefinition> = Vec::new();
    let n = fs.len();
    let mut i: usize = 0;
    assert(fs@.take(0) =~= Seq::<FieldInput>::empty());
    assert(out@.map_values(|f: FieldDefinition| f@) =~= Seq::<SpecField>::empty());
    while i < n
        invariant
            n == fs@.len(),
            i <= n,
            parse_fields(fs@.take(i as int)) == Ok::<Seq<SpecField>, SpecMessageError>(
                out@.map_values(|f: FieldDefinition| f@),
            ),
        decreases n - i,
    {
        assert(fs@.take(i + 1).drop_last() =~= fs@.take(i as int));
        let res = parse_field_exec(&fs[i]);
        match res {
            Ok(d) => {
                let ghost before = out@.map_values(|f: FieldDefinition| f@);
                out.push(d);
                assert(out@.map_values(|f: FieldDefinition| f@) =~= before.push(d@));
            },
            Err(e) => {
                proof {
                    lemma_parse_fields_failed(fs@, i as int + 1);
                }
                return Err(e);
            },
        }
        i = i + 1;
    }
    assert(fs@.take(n as int) =~= fs@);
    Ok(out)
}

proof fn lemma_parse_fields_failed(fs: Seq<FieldInput>, k: int)
    requires
        0 <= k <= fs.len(),
        parse_fields(fs.take(k)) is Err,
    ensures
        parse_fields(fs) == parse_fields(fs.take(k)),
    decreases fs.len() - k,
{
    if k < fs.len() {
        assert(fs.take(k + 1).drop_last() =~= fs.take(k));
        lemma_parse_fields_failed(fs, k + 1);
    } else {
        assert(fs.take(k) =~= fs);
    }
}

/// `#[message(args)]` applied to `item`: what it records for the message
/// type, or why it rejects it (see `expand`). `args` is `Err` with the
/// parser's message when the arguments are not a comma-separated list of
/// attribute arguments.
pub fn expand_message(args: &Result<Vec<MetaArg>, String>, item: &ItemInput) -> (r: Result<
    MessageDefinition,
    MessageError,
>)
    ensures
        match expand(*args, *item) {
            Ok(d) => r matches Ok(x) && x@ == d,
            Err(e) => r matches Err(x) && x@ == e,
        },
{
    if item.has_generics {
        return Err(MessageError::GenericParams);
    }
    let args = match args {
        Err(t) => {
            return Err(MessageError::Syntax(t.clone()));
        },
        Ok(a) => a,
    };
    let st = apply_args_exec(args)?;
    let msg = match &st.msg {
        Some(m) => m.clone(),
        None => item.name.clone(),
    };
    let msg_record = escape_format_braces(msg.as_str());
    let doc = harvest_docs(&item.attrs);
    let deprecated = harvest_deprecation(&item.attrs);
    let lname = match &st.level {
        Some(l) => l.clone(),
        None => text("info"),
    };
    let level = match level_named_exec(lname.as_str()) {
        Some(level) => level,
        None => {
            return Err(MessageError::UnknownLevel(lname));
        },
    };
    let fields = match &item.body {
        ItemBody::NamedStruct(fs) => parse_fields_exec(fs)?,
        ItemBody::UnnamedStruct => {
            return Err(MessageError::UnnamedFields);
        },
        ItemBody::NotStruct => {
            return Err(MessageError::NotStruct);
        },
    };
    Ok(
        MessageDefinition {
            name: item.name.clone(),
            msg,
            msg_record,
            level,
            tags: st.tags,
            meta: st.meta,
            doc,
            deprecated,
            fields,
        },
    )
}

// ---------------------------------------------------------------------------
// Laws
// ---------------------------------------------------------------------------

/// A tag as `#[message]` records it: non-empty and already lowercase.
pub open spec fn valid_tag(t: Seq<char>) -> bool {
    t.len() > 0 && lowercase(t) == t
}

/// No metadata key occurs twice.
pub open spec fn keys_unique(pairs: Seq<(Seq<char>, Seq<char>)>) -> bool {
    forall|i: int, j: int| 0 <= i < j < pairs.len() ==> #[trigger] pairs[i].0 != #[trigger] pairs[j].0
}

/// The argument sets `key` (`key = ...`).
pub open spec fn sets_key(arg: MetaArg, key: Seq<char>) -> bool {
    arg matches MetaArg::NameValue(p, _) && path_is(p, key)
}

proof fn lemma_no_tag_error(elems: Seq<ArrayElement>, k: int)
    requires
        first_tag_error(elems) is None,
        0 <= k < elems.len(),
    ensures
        tag_error(elems[k]) is None,
    decreases elems.len(),
{
    if k < elems.len() - 1 {
        assert(elems.drop_last()[k] == elems[k]);
        lemma_no_tag_error(elems.drop_last(), k);
    }
}

proof fn lemma_parse_tags_valid(v: Expression)
    requires
        parse_tags(v) is Ok,
    ensures
        parse_tags(v) matches Ok(t) && strictly_sorted(t) && forall|i: int|
            0 <= i < t.len() ==> valid_tag(#[trigger] t[i]),
{
    if let Expression::Array(elems) = v {
        let raw = elems@.map_values(|e: ArrayElement| tag_text(e));
        lemma_canonical(raw);
        let t = canonical(raw);
        assert forall|i: int| 0 <= i < t.len() implies valid_tag(#[trigger] t[i]) by {
            assert(t.contains(t[i]));
            assert(raw.contains(t[i]));
            let k = choose|k: int| 0 <= k < raw.len() && raw[k] == t[i];
            lemma_no_tag_error(elems@, k);
        }
    }
}

proof fn lemma_push_meta_unique(
    pairs: Seq<(Seq<char>, Seq<char>)>,
    key: AttrPath,
    value: Expression,
)
    requires
        keys_unique(pairs),
    ensures
        push_meta(pairs, key, value) matches Ok(p) ==> keys_unique(p),
{
    if let Ok(p) = push_meta(pairs, key, value) {
        assert forall|i: int, j: int| 0 <= i < j < p.len() implies #[trigger] p[i].0
            != #[trigger] p[j].0 by {
            if j == pairs.len() {
                assert(p[i] == pairs[i]);
                if p[i].0 == p[j].0 {
                    assert(has_key(pairs, p[j].0));
                }
            } else {
                assert(p[i] == pairs[i] && p[j] == pairs[j]);
            }
        }
    }
}

proof fn lemma_apply_args_state(args: Seq<MetaArg>)
    ensures
        apply_args(args) matches Ok(st) ==> {
            &&& strictly_sorted(st.tags)
            &&& forall|i: int| 0 <= i < st.tags.len() ==> valid_tag(#[trigger] st.tags[i])
            &&& keys_unique(st.meta)
            &&& (forall|i: int| 0 <= i < args.len() ==> !sets_key(#[trigger] args[i], "msg"@))
                ==> st.msg is None
            &&& (forall|i: int| 0 <= i < args.len() ==> !sets_key(#[trigger] args[i], "level"@))
                ==> st.level is None
        },
    decreases args.len(),
{
    if args.len() > 0 {
        let init = args.drop_last();
        lemma_apply_args_state(init);
        assert forall|i: int| 0 <= i < init.len() implies #[trigger] init[i] == args[i] by {}
        if let Ok(st) = apply_args(init) {
            if let MetaArg::NameValue(p, v) = args.last() {
                if !path_is(p, "msg"@) && !path_is(p, "level"@) {
                    if path_is(p, "tags"@) {
                        if parse_tags(v) is Ok {
                            lemma_parse_tags_valid(v);
                        }
                    } else {
                        lemma_push_meta_unique(st.meta, p, v);
                    }
                }
            }
            assert(args[args.len() - 1] == args.last());
        }
    }
}

proof fn lemma_push_entries_unique(pairs: Seq<(Seq<char>, Seq<char>)>, entries: Seq<NestedMeta>)
    requires
        keys_unique(pairs),
    ensures
        push_entries(pairs, entries) matches Ok(p) ==> keys_unique(p),
    decreases entries.len(),
{
    if entries.len() > 0 {
        lemma_push_entries_unique(pairs, entries.drop_last());
        if let Ok(p) = push_entries(pairs, entries.drop_last()) {
            if let NestedMeta::Pair(k, v) = entries.last() {
                lemma_push_meta_unique(p, k, v);
            }
        }
    }
}

proof fn lemma_field_meta_unique(attrs: Seq<Attribute>)
    ensures
        field_meta(attrs) matches Ok(p) ==> keys_unique(p),
    decreases attrs.len(),
{
    if attrs.len() > 0 {
        lemma_field_meta_unique(attrs.drop_last());
        if let Ok(p) = field_meta(attrs.drop_last()) {
            if let AttrBody::List(entries) = attrs.last().body {
                lemma_push_entries_unique(p, entries@);
            }
        }
    }
}

proof fn lemma_parse_fields_shape(fs: Seq<FieldInput>)
    ensures
        parse_fields(fs) matches Ok(d) ==> {
            &&& d.len() == fs.len()
            &&& forall|i: int|
                0 <= i < d.len() ==> {
                    &&& (#[trigger] d[i]).ident == fs[i].ident@
                    &&& d[i].ident != "message"@
                    &&& keys_unique(d[i].meta)
                }
        },
    decreases fs.len(),
{
    if fs.len() > 0 {
        lemma_parse_fields_shape(fs.drop_last());
        lemma_field_meta_unique(fs.last().attrs@);
        if let Ok(d) = parse_fields(fs) {
            let prev = parse_fields(fs.drop_last())->Ok_0;
            assert forall|i: int| 0 <= i < d.len() - 1 implies d[i] == prev[i] && fs[i]
                == fs.drop_last()[i] by {}
        }
    }
}

/// The tags of every accepted message are canonical: sorted with no repeats,
/// each non-empty and lowercase.
pub proof fn law_tags_are_canonical(args: Result<Vec<MetaArg>, String>, item: ItemInput)
    requires
        expand(args, item) is Ok,
    ensures
        expand(args, item) matches Ok(d) && strictly_sorted(d.tags) && forall|i: int|
            0 <= i < d.tags.len() ==> valid_tag(#[trigger] d.tags[i]),
{
    if let Ok(a) = args {
        lemma_apply_args_state(a@);
    }
}

/// The format string handed to tracing renders the message text verbatim.
pub proof fn law_recorded_text_renders_msg(args: Result<Vec<MetaArg>, String>, item: ItemInput)
    requires
        expand(args, item) is Ok,
    ensures
        expand(args, item) matches Ok(d) && unescape_braces(d.msg_record) == d.msg,
{
    let d = expand(args, item)->Ok_0;
    lemma_unescape_escape(d.msg);
}

/// No metadata key occurs twice, on the message or on any of its fields.
pub proof fn law_metadata_keys_are_unique(args: Result<Vec<MetaArg>, String>, item: ItemInput)
    requires
        expand(args, item) is Ok,
    ensures
        expand(args, item) matches Ok(d) && keys_unique(d.meta) && forall|i: int|
            0 <= i < d.fields.len() ==> keys_unique(#[trigger] d.fields[i].meta),
{
    if let Ok(a) = args {
        lemma_apply_args_state(a@);
    }
    if let ItemBody::NamedStruct(fs) = item.body {
        lemma_parse_fields_shape(fs@);
    }
}

/// Without `msg = ...` the message text is the struct's name; without
/// `level = ...` the level is `INFO`.
pub proof fn law_defaults(args: Vec<MetaArg>, item: ItemInput)
    requires
        expand(Ok(args), item) is Ok,
    ensures
        expand(Ok(args), item) matches Ok(d) && ((forall|i: int|
            0 <= i < args@.len() ==> !sets_key(#[trigger] args@[i], "msg"@)) ==> d.msg
            == item.name@) && ((forall|i: int|
            0 <= i < args@.len() ==> !sets_key(#[trigger] args@[i], "level"@)) ==> d.level
            == LevelName::INFO),
{
    lemma_apply_args_state(args@);
    reveal_strlit("info");
    reveal_strlit("trace");
    reveal_strlit("debug");
    assert("info"@.len() == 4);
    assert("trace"@.len() == 5);
    assert("debug"@.len() == 5);
    assert(level_named("info"@) == Some(LevelName::INFO));
}

/// The recorded fields are the struct's named fields, in order, and none of
/// them is named `message`.
pub proof fn law_fields_follow_the_struct(
    args: Result<Vec<MetaArg>, String>,
    item: ItemInput,
    fs: Vec<FieldInput>,
)
    requires
        item.body == ItemBody::NamedStruct(fs),
        expand(args, item) is Ok,
    ensures
        expand(args, item) matches Ok(d) && d.fields.len() == fs@.len() && forall|i: int|
            0 <= i < d.fields.len() ==> (#[trigger] d.fields[i]).ident == fs@[i].ident@
                && d.fields[i].ident != "message"@,
{
    lemma_parse_fields_shape(fs@);
}


// ---------------------------------------------------------------------------
// What the struct's attributes and field types contribute
// ---------------------------------------------------------------------------

/// `first_deprecated` finds the first attribute whose path is `deprecated`.
proof fn lemma_first_deprecated(attrs: Seq<Attribute>)
    ensures
        first_deprecated(attrs) matches Some(i) ==> 0 <= i < attrs.len() && path_is(
            attrs[i].path,
            "deprecated"@,
        ) && forall|j: int| 0 <= j < i ==> !path_is(#[trigger] attrs[j].path, "deprecated"@),
        first_deprecated(attrs) is None ==> forall|j: int|
            0 <= j < attrs.len() ==> !path_is(#[trigger] attrs[j].path, "deprecated"@),
    decreases attrs.len(),
{
    if attrs.len() > 0 {
        let init = attrs.drop_last();
        lemma_first_deprecated(init);
        assert(attrs[attrs.len() - 1] == attrs.last());
        assert forall|j: int| 0 <= j < init.len() implies init[j] == attrs[j] by {}
    }
}

/// The note a `#[deprecated(...)]` list gives is empty or the text of one of
/// its `note = "..."` entries.
proof fn lemma_note_scan_is_a_note(entries: Seq<NestedMeta>)
    ensures
        note_scan(entries).0.len() == 0 || exists|k: int|
            0 <= k < entries.len() && (#[trigger] entries[k] matches NestedMeta::Pair(
                p,
                Expression::Lit(Literal::Str(s)),
            ) && path_is(p, "note"@) && s@ == note_scan(entries).0),
    decreases entries.len(),
{
    if entries.len() > 0 {
        let init = entries.drop_last();
        lemma_note_scan_is_a_note(init);
        let (note, stopped) = note_scan(init);
        if note.len() != 0 {
            let k = choose|k: int|
                0 <= k < init.len() && (#[trigger] init[k] matches NestedMeta::Pair(
                    p,
                    Expression::Lit(Literal::Str(s)),
                ) && path_is(p, "note"@) && s@ == note);
            assert(entries[k] == init[k]);
        }
        assert(entries[entries.len() - 1] == entries.last());
    }
}

/// The text of an attribute of the form `#[name = "text"]`.
pub open spec fn name_value_text(b: AttrBody) -> Option<Seq<char>> {
    match b {
        AttrBody::NameValue(Expression::Lit(Literal::Str(s))) => Some(s@),
        _ => None,
    }
}

/// The deprecation recorded for a struct or field comes from its first
/// `#[deprecated]` attribute: none without one; `"true"` for the bare form;
/// the text of `= "reason"`; and for the list form `(since = ..., note =
/// ...)` the text of a `note` entry, or `"true"` without one (`since` and any
/// other key are never recorded).
pub proof fn law_deprecation_reason(attrs: Seq<Attribute>)
    ensures
        deprecation(attrs) is None <==> forall|j: int|
            0 <= j < attrs.len() ==> !path_is(#[trigger] attrs[j].path, "deprecated"@),
        forall|i: int|
            0 <= i < attrs.len() && path_is(#[trigger] attrs[i].path, "deprecated"@) && (forall|
                j: int,
            | 0 <= j < i ==> !path_is(#[trigger] attrs[j].path, "deprecated"@)) ==> {
                &&& deprecation(attrs) matches Some(r)
                &&& r.len() > 0
                &&& attrs[i].body is Word ==> r == "true"@
                &&& (name_value_text(attrs[i].body) is Some && name_value_text(attrs[i].body)->Some_0.len() > 0) ==> r == name_value_text(attrs[i].body)->Some_0
                &&& attrs[i].body matches AttrBody::List(entries) ==> (r == "true"@ || exists|
                    k: int,
                |
                    0 <= k < entries@.len() && (#[trigger] entries@[k] matches NestedMeta::Pair(
                        p,
                        Expression::Lit(Literal::Str(s)),
                    ) && path_is(p, "note"@) && s@ == r))
            },
{
    lemma_first_deprecated(attrs);
    reveal_strlit("true");
    assert("true"@.len() == 4);
    assert forall|i: int|
        0 <= i < attrs.len() && path_is(#[trigger] attrs[i].path, "deprecated"@) && (forall|
            j: int,
        | 0 <= j < i ==> !path_is(#[trigger] attrs[j].path, "deprecated"@)) implies {
        &&& deprecation(attrs) matches Some(r)
        &&& r.len() > 0
        &&& attrs[i].body is Word ==> r == "true"@
        &&& (name_value_text(attrs[i].body) is Some && name_value_text(attrs[i].body)->Some_0.len() > 0) ==> r == name_value_text(attrs[i].body)->Some_0
        &&& attrs[i].body matches AttrBody::List(entries) ==> (r == "true"@ || exists|k: int|
            0 <= k < entries@.len() && (#[trigger] entries@[k] matches NestedMeta::Pair(
                p,
                Expression::Lit(Literal::Str(s)),
            ) && path_is(p, "note"@) && s@ == r))
    } by {
        let f = first_deprecated(attrs)->Some_0;
        if f < i {
        } else if f > i {
            assert(!path_is(attrs[i].path, "deprecated"@));
        }
        assert(f == i);
        if let AttrBody::List(entries) = attrs[i].body {
            lemma_note_scan_is_a_note(entries@);
        }
    }
}

proof fn lemma_doc_lines_push(attrs: Seq<Attribute>, a: Attribute)
    ensures
        doc_lines(attrs.push(a)) == match doc_line(a) {
            Some(l) => doc_lines(attrs).push(l),
            None => doc_lines(attrs),
        },
{
    assert(attrs.push(a).drop_last() =~= attrs);
}

proof fn lemma_join_lines_push(lines: Seq<Seq<char>>, l: Seq<char>)
    requires
        lines.len() > 0,
    ensures
        join_lines(lines.push(l)) == join_lines(lines) + seq!['\n'] + l,
{
    assert(lines.push(l).drop_last() =~= lines);
}

/// Docs build up one `#[doc = "..."]` line at a time: a struct with no doc
/// line records none; each further doc line is appended, trimmed, after a
/// `\n` (a blank line included, so paragraph breaks survive); any other
/// attribute changes nothing.
pub proof fn law_docs_append_each_line(attrs: Seq<Attribute>, a: Attribute)
    ensures
        docs(Seq::<Attribute>::empty()) is None,
        (path_is(a.path, "doc"@) && name_value_text(a.body) is Some) ==> docs(attrs.push(a))
            == Some(
            match docs(attrs) {
                None => trimmed(name_value_text(a.body)->Some_0),
                Some(d) => d + seq!['\n'] + trimmed(name_value_text(a.body)->Some_0),
            },
        ),
        (path_is(a.path, "doc"@) && name_value_text(a.body) is None) ==> docs(attrs.push(a))
            == docs(attrs),
        !path_is(a.path, "doc"@) ==> docs(attrs.push(a)) == docs(attrs),
{
    lemma_doc_lines_push(attrs, a);
    let lines = doc_lines(attrs);
    if let Some(l) = doc_line(a) {
        if lines.len() > 0 {
            lemma_join_lines_push(lines, l);
        } else {
            assert(lines.push(l) =~= seq![l]);
        }
    }
}

/// The `(key, value)` text pair a `key = literal` entry holds.
pub open spec fn entry_pair(e: NestedMeta) -> Option<(Seq<char>, Seq<char>)> {
    match e {
        NestedMeta::Pair(k, v) => match k.ident {
            Some(kid) => match meta_value(v) {
                Some(val) => Some((kid@, val)),
                None => None,
            },
            None => None,
        },
        NestedMeta::Malformed(_) => None,
    }
}

/// Adding `key = value` entries in order keeps the pairs already there, in
/// front, and adds every entry's pair.
proof fn lemma_push_entries_extends(pairs: Seq<(Seq<char>, Seq<char>)>, entries: Seq<NestedMeta>)
    ensures
        push_entries(pairs, entries) is Ok ==> {
            let q = push_entries(pairs, entries)->Ok_0;
            &&& pairs.len() <= q.len()
            &&& q.subrange(0, pairs.len() as int) == pairs
            &&& forall|j: int|
                0 <= j < entries.len() && (#[trigger] entry_pair(entries[j])) is Some ==> q.contains(
                    entry_pair(entries[j])->Some_0,
                )
        },
    decreases entries.len(),
{
    if entries.len() > 0 {
        let init = entries.drop_last();
        lemma_push_entries_extends(pairs, init);
        if let Ok(q) = push_entries(pairs, entries) {
            let p = push_entries(pairs, init)->Ok_0;
            assert(entries[entries.len() - 1] == entries.last());
            match entries.last() {
                NestedMeta::Pair(k, v) => {
                    assert(q == p.push((k.ident->Some_0@, meta_value(v)->Some_0)));
                    assert(q.subrange(0, pairs.len() as int) =~= p.subrange(0, pairs.len() as int));
                    assert forall|j: int|
                        0 <= j < entries.len() && (#[trigger] entry_pair(entries[j])) is Some implies q.contains(
                        entry_pair(entries[j])->Some_0,
                    ) by {
                        if j < entries.len() - 1 {
                            assert(entries[j] == init[j]);
                            let m = choose|m: int|
                                0 <= m < p.len() && p[m] == entry_pair(init[j])->Some_0;
                            assert(q[m] == p[m]);
                        } else {
                            assert(q[p.len() as int] == entry_pair(entries[j])->Some_0);
                        }
                    }
                },
                NestedMeta::Malformed(_) => {
                    assert forall|j: int|
                        0 <= j < entries.len() && (#[trigger] entry_pair(entries[j])) is Some implies q.contains(
                        entry_pair(entries[j])->Some_0,
                    ) by {
                        assert(entries[j] == init[j]);
                    }
                },
            }
        }
    }
}

/// A field's `#[field(...)]` attributes accumulate: the metadata of a later
/// one is added after that of the earlier ones, which stays as it was, and
/// every `key = literal` pair it holds is recorded; an attribute that is not
/// `#[field(...)]` changes nothing.
pub proof fn law_field_metadata_accumulates(attrs: Seq<Attribute>, a: Attribute)
    ensures
        !path_is(a.path, "field"@) ==> field_meta(attrs.push(a)) == field_meta(attrs),
        (field_meta(attrs) is Ok && field_meta(attrs.push(a)) is Ok) ==> {
            let p = field_meta(attrs)->Ok_0;
            let q = field_meta(attrs.push(a))->Ok_0;
            &&& p.len() <= q.len()
            &&& q.subrange(0, p.len() as int) == p
            &&& path_is(a.path, "field"@) ==> a.body is List && forall|j: int|
                0 <= j < (a.body->List_0)@.len() && (#[trigger] entry_pair((a.body->List_0)@[j]))
                    is Some ==> q.contains(entry_pair((a.body->List_0)@[j])->Some_0)
        },
{
    assert(attrs.push(a).drop_last() =~= attrs);
    if let Ok(p) = field_meta(attrs) {
        if let AttrBody::List(entries) = a.body {
            lemma_push_entries_extends(p, entries@);
        }
    }
}

/// Every `key = literal` pair of every `#[field(...)]` attribute of a field
/// is in the metadata recorded for it.
pub proof fn law_field_metadata_keeps_every_pair(attrs: Seq<Attribute>)
    ensures
        field_meta(attrs) is Ok ==> forall|i: int, j: int|
            0 <= i < attrs.len() && path_is(attrs[i].path, "field"@) && attrs[i].body is List && 0
                <= j < (attrs[i].body->List_0)@.len() && (#[trigger] entry_pair(
                (attrs[i].body->List_0)@[j],
            )) is Some ==> field_meta(attrs)->Ok_0.contains(
                entry_pair((attrs[i].body->List_0)@[j])->Some_0,
            ),
    decreases attrs.len(),
{
    if attrs.len() > 0 {
        let init = attrs.drop_last();
        let a = attrs.last();
        assert(init.push(a) =~= attrs);
        law_field_metadata_keeps_every_pair(init);
        law_field_metadata_accumulates(init, a);
        if field_meta(attrs) is Ok {
            assert(field_meta(init) is Ok);
            let p = field_meta(init)->Ok_0;
            let q = field_meta(attrs)->Ok_0;
            assert forall|i: int, j: int|
                0 <= i < attrs.len() && path_is(attrs[i].path, "field"@) && attrs[i].body is List
                    && 0 <= j < (attrs[i].body->List_0)@.len() && (#[trigger] entry_pair(
                    (attrs[i].body->List_0)@[j],
                )) is Some implies q.contains(entry_pair((attrs[i].body->List_0)@[j])->Some_0) by {
                if i < init.len() {
                    assert(attrs[i] == init[i]);
                    let x = entry_pair((init[i].body->List_0)@[j])->Some_0;
                    assert(p.contains(x));
                    let m = choose|m: int| 0 <= m < p.len() && p[m] == x;
                    assert(q.subrange(0, p.len() as int)[m] == q[m]);
                } else {
                    assert(attrs[i] == a);
                }
            }
        }
    }
}

/// Only a field typed `Option<T>` (by its last path segment, as in
/// `option::Option<T>`) is filled by the ambient join, and what is recorded
/// for it is that `T`; every such field is.
pub proof fn law_only_option_fields_join(ty: TypeShape)
    ensures
        ambient_inner(ty) is Some ==> {
            &&& ty is Path && !ty->qualified && ty->last is Some
            &&& (ty->last)->Some_0.ident@ == "Option"@
            &&& (ty->last)->Some_0.args is AngleBracketed
            &&& ((ty->last)->Some_0.args->AngleBracketed_0)@.len() == 1
            &&& ((ty->last)->Some_0.args->AngleBracketed_0)@[0] is Type
            &&& ambient_inner(ty)->Some_0 == (((ty->last)->Some_0.args->AngleBracketed_0)@[0]->Type_0)@
        },
        ({
            &&& ty is Path && !ty->qualified && ty->last is Some
            &&& (ty->last)->Some_0.ident@ == "Option"@
            &&& (ty->last)->Some_0.args is AngleBracketed
            &&& ((ty->last)->Some_0.args->AngleBracketed_0)@.len() == 1
            &&& ((ty->last)->Some_0.args->AngleBracketed_0)@[0] is Type
        }) ==> ambient_inner(ty) is Some,
{
}


proof fn lemma_parse_fields_each(fs: Seq<FieldInput>)
    ensures
        parse_fields(fs) is Ok ==> parse_fields(fs)->Ok_0.len() == fs.len() && forall|i: int|
            0 <= i < fs.len() ==> parse_field(#[trigger] fs[i]) == Ok::<SpecField, SpecMessageError>(
                parse_fields(fs)->Ok_0[i],
            ),
    decreases fs.len(),
{
    if fs.len() > 0 {
        let init = fs.drop_last();
        lemma_parse_fields_each(init);
        if parse_fields(fs) is Ok {
            let d = parse_fields(fs)->Ok_0;
            let prev = parse_fields(init)->Ok_0;
            assert forall|i: int| 0 <= i < fs.len() implies parse_field(#[trigger] fs[i]) == Ok::<
                SpecField,
                SpecMessageError,
            >(d[i]) by {
                if i < fs.len() - 1 {
                    assert(fs[i] == init[i]);
                    assert(d[i] == prev[i]);
                } else {
                    assert(fs[i] == fs.last());
                }
            }
        }
    }
}

/// An accepted message records, for itself and for each of its fields, the
/// docs and deprecation of its attributes, and for each field the metadata of
/// its `#[field(...)]` attributes and whether its type makes it an ambient
/// join candidate.
pub proof fn law_definition_records_the_attributes(
    args: Result<Vec<MetaArg>, String>,
    item: ItemInput,
    fs: Vec<FieldInput>,
)
    requires
        item.body == ItemBody::NamedStruct(fs),
        expand(args, item) is Ok,
    ensures
        expand(args, item) matches Ok(d) && d.doc == docs(item.attrs@) && d.deprecated
            == deprecation(item.attrs@) && d.fields.len() == fs@.len() && forall|i: int|
            0 <= i < d.fields.len() ==> {
                &&& (#[trigger] d.fields[i]).doc == docs(fs@[i].attrs@)
                &&& d.fields[i].deprecated == deprecation(fs@[i].attrs@)
                &&& field_meta(fs@[i].attrs@) == Ok::<
                    Seq<(Seq<char>, Seq<char>)>,
                    SpecMessageError,
                >(d.fields[i].meta)
                &&& d.fields[i].ambient == ambient_inner(fs@[i].ty)
            },
{
    lemma_parse_fields_each(fs@);
}
} // verus!
