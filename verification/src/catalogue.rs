//! The catalogue: one descriptor per message type, and the check that every
//! `msg` (the catalogue's join key) is registered only once.

use vstd::prelude::*;

use crate::text::{insert_sorted, same_text, strictly_sorted, texts};
use crate::Origin;

verus! {

/// A message's severity, with the five levels of `tracing::Level`.
#[derive(Debug, Clone, Copy, PartialEq, Eq, Structural)]
#[allow(non_camel_case_types)]
pub enum LevelName {
    TRACE,
    DEBUG,
    INFO,
    WARN,
    ERROR,
}

impl LevelName {
    /// The canonical name of a level, e.g. `"WARN"`.
    pub open spec fn spec_name(self) -> Seq<char> {
        match self {
            LevelName::TRACE => "TRACE"@,
            LevelName::DEBUG => "DEBUG"@,
            LevelName::INFO => "INFO"@,
            LevelName::WARN => "WARN"@,
            LevelName::ERROR => "ERROR"@,
        }
    }

    /// The canonical level name, e.g. `"WARN"`.
    pub fn as_str(&self) -> (r: &'static str)
        ensures
            r@ == self.spec_name(),
    {
        match self {
            LevelName::TRACE => "TRACE",
            LevelName::DEBUG => "DEBUG",
            LevelName::INFO => "INFO",
            LevelName::WARN => "WARN",
            LevelName::ERROR => "ERROR",
        }
    }
}


/// `core::any::TypeId`: the runtime identity of a message type.
#[verifier::external_type_specification]
#[verifier::external_body]
pub struct ExTypeId(core::any::TypeId);

/// One field's catalogue metadata.
#[derive(Debug, Clone, Copy)]
pub struct FieldDescriptor {
    /// `Some` iff the field is `#[deprecated]`: the reason, or `"true"` when
    /// none is given.
    pub deprecated: Option<&'static str>,
    /// The field's `///` doc comments.
    pub doc: Option<&'static str>,
    /// The `#[field(key = ...)]` pairs.
    pub meta: &'static [(&'static str, &'static str)],
    pub name: &'static str,
    /// The field's type as written, e.g. `"Option < usize >"`.
    pub field_type: &'static str,
}

/// A message type's catalogue entry.
#[derive(Debug, Clone, Copy)]
pub struct MessageDescriptor {
    /// `Some` iff the message type is `#[deprecated]`: the reason, or
    /// `"true"` when none is given.
    pub deprecated: Option<&'static str>,
    /// The struct's `///` doc comments.
    pub doc: Option<&'static str>,
    pub fields: &'static [FieldDescriptor],
    /// The severity.
    pub level: LevelName,
    /// The `#[message(key = ...)]` pairs other than `msg`, `level` and `tags`.
    pub meta: &'static [(&'static str, &'static str)],
    /// The message text: the catalogue's unique join key.
    pub msg: &'static str,
    /// Where the message type is defined.
    pub origin: Origin,
    /// The routing tags: sorted, each once, lowercase.
    pub tags: &'static [&'static str],
    /// The runtime identity of the message type.
    pub type_id: core::any::TypeId,
}

/// The `msg` texts of descriptors.
pub open spec fn msgs(d: Seq<MessageDescriptor>) -> Seq<Seq<char>> {
    d.map_values(|m: MessageDescriptor| m.msg@)
}

/// How often `x` occurs in `s`.
pub open spec fn count_of(s: Seq<Seq<char>>, x: Seq<char>) -> nat
    decreases s.len(),
{
    if s.len() == 0 {
        0
    } else {
        count_of(s.drop_last(), x) + if s.last() == x {
            1nat
        } else {
            0nat
        }
    }
}

proof fn lemma_count_positive(s: Seq<Seq<char>>, x: Seq<char>)
    requires
        count_of(s, x) > 0,
    ensures
        s.contains(x),
    decreases s.len(),
{
    if s.last() == x {
        assert(s[s.len() - 1] == x);
    } else {
        lemma_count_positive(s.drop_last(), x);
        let k = choose|k: int| 0 <= k < s.len() - 1 && s.drop_last()[k] == x;
        assert(s[k] == x);
    }
}

fn count_msg(descriptors: &[MessageDescriptor], x: &str) -> (r: usize)
    ensures
        r == count_of(msgs(descriptors@), x@),
{
    let n = descriptors.len();
    let mut count: usize = 0;
    let mut i: usize = 0;
    while i < n
        invariant
            n == descriptors@.len(),
            i <= n,
            count == count_of(msgs(descriptors@).take(i as int), x@),
            count <= i,
        decreases n - i,
    {
        assert(msgs(descriptors@).take(i + 1).drop_last() =~= msgs(descriptors@).take(i as int));
        if same_text(descriptors[i].msg, x) {
            count = count + 1;
        }
        i = i + 1;
    }
    assert(msgs(descriptors@).take(n as int) =~= msgs(descriptors@));
    count
}

/// The `msg` texts registered by more than one message type, sorted, each
/// once. `msg` is the catalogue's unique join key, so an empty result is the
/// invariant every catalogue should keep.
pub fn duplicates(descriptors: &[MessageDescriptor]) -> (r: Vec<&'static str>)
    ensures
        strictly_sorted(texts(r@)),
        forall|y: Seq<char>| texts(r@).contains(y) <==> count_of(msgs(descriptors@), y) > 1,
{
    let ghost all = msgs(descriptors@);
    let n = descriptors.len();
    let mut out: Vec<&'static str> = Vec::new();
    let mut i: usize = 0;
    assert(texts(out@) =~= Seq::<Seq<char>>::empty());
    while i < n
        invariant
            n == descriptors@.len(),
            all == msgs(descriptors@),
            i <= n,
            strictly_sorted(texts(out@)),
            forall|y: Seq<char>|
                texts(out@).contains(y) <==> (all.take(i as int).contains(y) && count_of(all, y)
                    > 1),
        decreases n - i,
    {
        let m = descriptors[i].msg;
        let c = count_msg(descriptors, m);
        let ghost before = texts(out@);
        if c > 1 {
            insert_sorted(&mut out, m);
        }
        proof {
            let cur = all.take(i + 1);
            let prev = all.take(i as int);
            assert(cur =~= prev.push(m@));
            assert forall|y: Seq<char>|
                texts(out@).contains(y) <==> (cur.contains(y) && count_of(all, y) > 1) by {
                if cur.contains(y) {
                    let k = choose|k: int| 0 <= k < cur.len() && cur[k] == y;
                    if k < i {
                        assert(prev[k] == y);
                    }
                }
                if prev.contains(y) {
                    let k = choose|k: int| 0 <= k < prev.len() && prev[k] == y;
                    assert(cur[k] == y);
                }
                if y == m@ {
                    assert(cur[i as int] == y);
                }
            }
        }
        i = i + 1;
    }
    proof {
        assert(all.take(n as int) =~= all);
        assert forall|y: Seq<char>| count_of(all, y) > 1 implies all.contains(y) by {
            lemma_count_positive(all, y);
        }
    }
    out
}
} // verus!
