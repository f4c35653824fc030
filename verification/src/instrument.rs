//! Ambient capture: a message's still-`None` `Option` fields fill at emit
//! time from same-named fields of the surrounding spans.
//!
//! Capture keeps, per span, the values its fields were recorded with
//! (`CapturedFields`); the join reads the span scope innermost first and
//! converts a found value with `FromCaptured`. The rules:
//!
//! - only `Option` fields join, and a field that is already `Some` is never
//!   overwritten;
//! - the innermost span that recorded the name wins;
//! - a value converts only when nothing is lost (an out-of-range integer is a
//!   miss, not a wrap); a miss leaves the field `None`.

use vstd::prelude::*;

use crate::text::same_text;

verus! {

/// A span field value as capture retained it. The variants mirror the
/// value kinds a span field is recorded as; a float is kept as its IEEE-754
/// bits (`f64::to_bits`).
#[derive(Debug, PartialEq, Eq)]
pub enum CapturedValue {
    Bool(bool),
    /// Rendered via `fmt::Debug`.
    Debug(String),
    /// The bits of an `f64`.
    F64(u64),
    I64(i64),
    I128(i128),
    Str(String),
    U64(u64),
    U128(u128),
}

impl Clone for CapturedValue {
    fn clone(&self) -> (r: Self)
        ensures
            r == *self,
    {
        match self {
            CapturedValue::Bool(b) => CapturedValue::Bool(*b),
            CapturedValue::Debug(s) => CapturedValue::Debug(s.clone()),
            CapturedValue::F64(bits) => CapturedValue::F64(*bits),
            CapturedValue::I64(n) => CapturedValue::I64(*n),
            CapturedValue::I128(n) => CapturedValue::I128(*n),
            CapturedValue::Str(s) => CapturedValue::Str(s.clone()),
            CapturedValue::U64(n) => CapturedValue::U64(*n),
            CapturedValue::U128(n) => CapturedValue::U128(*n),
        }
    }
}

/// The per-span store of captured fields: one entry per field name.
pub struct CapturedFields(pub Vec<(&'static str, CapturedValue)>);

/// Installs ambient capture (the `fmt::layer()`-style value that the
/// subscriber stack is built with).
pub struct CaptureLayer {
    _private: (),
}

/// Constructs a `CaptureLayer`.
pub fn layer() -> CaptureLayer {
    CaptureLayer { _private: () }
}

/// The value first recorded under `name` in one span's entries.
pub open spec fn field_value(fields: Seq<(&'static str, CapturedValue)>, name: Seq<char>) -> Option<
    CapturedValue,
>
    decreases fields.len(),
{
    if fields.len() == 0 {
        None
    } else {
        match field_value(fields.drop_last(), name) {
            Some(v) => Some(v),
            None => if fields.last().0@ == name {
                Some(fields.last().1)
            } else {
                None
            },
        }
    }
}

/// The index of the first entry recorded under `name`.
pub open spec fn entry_index(fields: Seq<(&'static str, CapturedValue)>, name: Seq<char>) -> Option<
    int,
>
    decreases fields.len(),
{
    if fields.len() == 0 {
        None
    } else {
        match entry_index(fields.drop_last(), name) {
            Some(i) => Some(i),
            None => if fields.last().0@ == name {
                Some(fields.len() - 1)
            } else {
                None
            },
        }
    }
}

/// A span's entries after recording `value` under `name`: the entry for the
/// name is replaced, or a new entry is added at the end.
pub open spec fn upserted(
    fields: Seq<(&'static str, CapturedValue)>,
    name: &'static str,
    value: CapturedValue,
) -> Seq<(&'static str, CapturedValue)> {
    match entry_index(fields, name@) {
        Some(i) => fields.update(i, (fields[i].0, value)),
        None => fields.push((name, value)),
    }
}

/// The names of a span's entries are distinct.
pub open spec fn names_unique(fields: Seq<(&'static str, CapturedValue)>) -> bool {
    forall|i: int, j: int|
        0 <= i < j < fields.len() ==> (#[trigger] fields[i]).0@ != (#[trigger] fields[j]).0@
}

proof fn lemma_entry_index(fields: Seq<(&'static str, CapturedValue)>, name: Seq<char>)
    ensures
        entry_index(fields, name) matches Some(i) ==> 0 <= i < fields.len() && fields[i].0@ == name
            && field_value(fields, name) == Some(fields[i].1) && forall|j: int|
            0 <= j < i ==> (#[trigger] fields[j]).0@ != name,
        entry_index(fields, name) is None ==> field_value(fields, name) is None && forall|j: int|
            0 <= j < fields.len() ==> (#[trigger] fields[j]).0@ != name,
    decreases fields.len(),
{
    if fields.len() > 0 {
        let init = fields.drop_last();
        lemma_entry_index(init, name);
        assert(fields[fields.len() - 1] == fields.last());
        match entry_index(init, name) {
            Some(i) => {
                assert(init[i] == fields[i]);
                assert forall|j: int| 0 <= j < i implies (#[trigger] fields[j]).0@ != name by {
                    assert(init[j] == fields[j]);
                }
            },
            None => {
                assert forall|j: int| 0 <= j < fields.len() - 1 implies (#[trigger] fields[j]).0@
                    != name by {
                    assert(init[j] == fields[j]);
                }
            },
        }
    }
}

proof fn lemma_field_value_of_unique(
    fields: Seq<(&'static str, CapturedValue)>,
    k: int,
)
    requires
        names_unique(fields),
        0 <= k < fields.len(),
    ensures
        field_value(fields, fields[k].0@) == Some(fields[k].1),
{
    lemma_entry_index(fields, fields[k].0@);
}

impl CapturedFields {
    /// Records `value` under `name`: the entry for the name is replaced, or a
    /// new entry is added.
    pub fn upsert(&mut self, name: &'static str, value: CapturedValue)
        ensures
            final(self).0@ == upserted(old(self).0@, name, value),
    {
        let n = self.0.len();
        let mut i: usize = 0;
        while i < n
            invariant
                n == self.0@.len(),
                self.0@ == old(self).0@,
                i <= n,
                entry_index(self.0@.take(i as int), name@) is None,
            decreases n - i,
        {
            assert(self.0@.take(i + 1).drop_last() =~= self.0@.take(i as int));
            if same_text(self.0[i].0, name) {
                proof {
                    lemma_entry_index_prefix(self.0@, name@, i as int + 1);
                }
                let key = self.0[i].0;
                self.0.set(i, (key, value));
                return;
            }
            i = i + 1;
        }
        assert(self.0@.take(n as int) =~= self.0@);
        self.0.push((name, value));
    }

    /// The value recorded under `name` in this span.
    pub fn value_of(&self, name: &str) -> (r: Option<CapturedValue>)
        ensures
            r == field_value(self.0@, name@),
    {
        let n = self.0.len();
        let mut i: usize = 0;
        while i < n
            invariant
                n == self.0@.len(),
                i <= n,
                field_value(self.0@.take(i as int), name@) is None,
            decreases n - i,
        {
            assert(self.0@.take(i + 1).drop_last() =~= self.0@.take(i as int));
            if same_text(self.0[i].0, name) {
                proof {
                    lemma_field_value_prefix(self.0@, name@, i as int + 1);
                }
                return Some(self.0[i].1.clone());
            }
            i = i + 1;
        }
        assert(self.0@.take(n as int) =~= self.0@);
        None
    }
}

proof fn lemma_entry_index_prefix(
    fields: Seq<(&'static str, CapturedValue)>,
    name: Seq<char>,
    k: int,
)
    requires
        0 <= k <= fields.len(),
        entry_index(fields.take(k), name) is Some,
    ensures
        entry_index(fields, name) == entry_index(fields.take(k), name),
    decreases fields.len() - k,
{
    if k < fields.len() {
        assert(fields.take(k + 1).drop_last() =~= fields.take(k));
        lemma_entry_index_prefix(fields, name, k + 1);
    } else {
        assert(fields.take(k) =~= fields);
    }
}

proof fn lemma_field_value_prefix(
    fields: Seq<(&'static str, CapturedValue)>,
    name: Seq<char>,
    k: int,
)
    requires
        0 <= k <= fields.len(),
        field_value(fields.take(k), name) is Some,
    ensures
        field_value(fields, name) == field_value(fields.take(k), name),
    decreases fields.len() - k,
{
    if k < fields.len() {
        assert(fields.take(k + 1).drop_last() =~= fields.take(k));
        lemma_field_value_prefix(fields, name, k + 1);
    } else {
        assert(fields.take(k) =~= fields);
    }
}

/// The value the span scope holds for `name`: `scope` lists the spans
/// innermost first, and the first span that recorded the name wins.
pub open spec fn scope_value(scope: Seq<CapturedFields>, name: Seq<char>) -> Option<CapturedValue>
    decreases scope.len(),
{
    if scope.len() == 0 {
        None
    } else {
        match scope_value(scope.drop_last(), name) {
            Some(v) => Some(v),
            None => field_value(scope.last().0@, name),
        }
    }
}

/// Recording a field keeps one entry per name; afterwards the span reads the
/// recorded value back under that name and every other name reads as before.
pub proof fn law_upsert_then_read(
    fields: Seq<(&'static str, CapturedValue)>,
    name: &'static str,
    value: CapturedValue,
    other: Seq<char>,
)
    requires
        names_unique(fields),
    ensures
        names_unique(upserted(fields, name, value)),
        field_value(upserted(fields, name, value), name@) == Some(value),
        other != name@ ==> field_value(upserted(fields, name, value), other) == field_value(
            fields,
            other,
        ),
{
    let upd = upserted(fields, name, value);
    lemma_entry_index(fields, name@);
    let k = match entry_index(fields, name@) {
        Some(i) => i,
        None => fields.len() as int,
    };
    assert(upd.len() == fields.len() || upd.len() == fields.len() + 1);
    assert forall|j: int| 0 <= j < fields.len() implies (#[trigger] upd[j]).0 == fields[j].0 && (j
        != k ==> upd[j] == fields[j]) by {}
    assert(upd[k] == (upd[k].0, value) && upd[k].0@ == name@);
    assert forall|a: int, b: int| 0 <= a < b < upd.len() implies (#[trigger] upd[a]).0@
        != (#[trigger] upd[b]).0@ by {
        if b == fields.len() {
            assert(upd[a].0 == fields[a].0);
        } else {
            assert(upd[a].0 == fields[a].0 && upd[b].0 == fields[b].0);
        }
    }
    lemma_field_value_of_unique(upd, k);
    if other != name@ {
        lemma_entry_index(fields, other);
        lemma_entry_index(upd, other);
        match entry_index(fields, other) {
            Some(m) => {
                assert(m != k);
                assert(upd[m] == fields[m]);
                lemma_field_value_of_unique(upd, m);
            },
            None => {
                if let Some(m) = entry_index(upd, other) {
                    if m < fields.len() {
                        assert(upd[m].0 == fields[m].0);
                    }
                }
            },
        }
    }
}

/// A span's entries after recording each of `records` in turn.
pub open spec fn upserted_all(
    fields: Seq<(&'static str, CapturedValue)>,
    records: Seq<(&'static str, CapturedValue)>,
) -> Seq<(&'static str, CapturedValue)>
    decreases records.len(),
{
    if records.len() == 0 {
        fields
    } else {
        upserted(upserted_all(fields, records.drop_last()), records.last().0, records.last().1)
    }
}

/// The value recorded last under `name` in `records`, if any.
pub open spec fn last_recorded(records: Seq<(&'static str, CapturedValue)>, name: Seq<char>) -> Option<
    CapturedValue,
>
    decreases records.len(),
{
    if records.len() == 0 {
        None
    } else if records.last().0@ == name {
        Some(records.last().1)
    } else {
        last_recorded(records.drop_last(), name)
    }
}

/// Recording fields one after another keeps one entry per name; afterwards
/// each recorded name reads the value recorded last for it, and every name
/// not recorded reads as before.
pub proof fn law_last_recording_wins(
    fields: Seq<(&'static str, CapturedValue)>,
    records: Seq<(&'static str, CapturedValue)>,
    name: Seq<char>,
)
    requires
        names_unique(fields),
    ensures
        names_unique(upserted_all(fields, records)),
        field_value(upserted_all(fields, records), name) == match last_recorded(records, name) {
            Some(v) => Some(v),
            None => field_value(fields, name),
        },
    decreases records.len(),
{
    if records.len() > 0 {
        let init = records.drop_last();
        law_last_recording_wins(fields, init, name);
        law_upsert_then_read(upserted_all(fields, init), records.last().0, records.last().1, name);
    }
}

/// The innermost span that recorded a name decides its value; spans further
/// out are not consulted.
pub proof fn law_innermost_span_wins(scope: Seq<CapturedFields>, name: Seq<char>, k: int)
    requires
        0 <= k < scope.len(),
        field_value(scope[k].0@, name) is Some,
        forall|j: int| 0 <= j < k ==> field_value((#[trigger] scope[j]).0@, name) is None,
    ensures
        scope_value(scope, name) == field_value(scope[k].0@, name),
    decreases scope.len(),
{
    if k < scope.len() - 1 {
        let init = scope.drop_last();
        assert forall|j: int| 0 <= j < k implies field_value((#[trigger] init[j]).0@, name) is None by {
            assert(init[j] == scope[j]);
        }
        assert(init[k] == scope[k]);
        law_innermost_span_wins(init, name, k);
    } else {
        law_unrecorded_name_misses(scope.drop_last(), name);
        assert forall|j: int| 0 <= j < scope.drop_last().len() implies field_value(
            (#[trigger] scope.drop_last()[j]).0@,
            name,
        ) is None by {
            assert(scope.drop_last()[j] == scope[j]);
        }
    }
}

/// A name that no span recorded reads as a miss.
pub proof fn law_unrecorded_name_misses(scope: Seq<CapturedFields>, name: Seq<char>)
    ensures
        (forall|j: int| 0 <= j < scope.len() ==> field_value((#[trigger] scope[j]).0@, name) is None)
            ==> scope_value(scope, name) is None,
    decreases scope.len(),
{
    if scope.len() > 0 {
        let init = scope.drop_last();
        law_unrecorded_name_misses(init, name);
        if forall|j: int| 0 <= j < scope.len() ==> field_value((#[trigger] scope[j]).0@, name) is None {
            assert forall|j: int| 0 <= j < init.len() implies field_value(
                (#[trigger] init[j]).0@,
                name,
            ) is None by {
                assert(init[j] == scope[j]);
            }
            assert(scope[scope.len() - 1] == scope.last());
        }
    }
}

/// The integer a captured value holds, if it is an integer.
pub open spec fn captured_int(value: CapturedValue) -> Option<int> {
    match value {
        CapturedValue::U64(n) => Some(n as int),
        CapturedValue::I64(n) => Some(n as int),
        CapturedValue::U128(n) => Some(n as int),
        CapturedValue::I128(n) => Some(n as int),
        _ => None,
    }
}

fn captured_nonnegative(value: &CapturedValue) -> (r: Option<u128>)
    ensures
        match captured_int(*value) {
            Some(n) => if n >= 0 {
                r == Some(n as u128)
            } else {
                r is None
            },
            None => r is None,
        },
{
    match value {
        CapturedValue::U64(n) => Some(*n as u128),
        CapturedValue::I64(n) => if *n >= 0 {
            Some(*n as u128)
        } else {
            None
        },
        CapturedValue::U128(n) => Some(*n),
        CapturedValue::I128(n) => if *n >= 0 {
            Some(*n as u128)
        } else {
            None
        },
        _ => None,
    }
}

fn captured_signed(value: &CapturedValue) -> (r: Option<i128>)
    ensures
        match captured_int(*value) {
            Some(n) => if n <= i128::MAX {
                r == Some(n as i128)
            } else {
                r is None
            },
            None => r is None,
        },
{
    match value {
        CapturedValue::U64(n) => Some(*n as i128),
        CapturedValue::I64(n) => Some(*n as i128),
        CapturedValue::U128(n) => if *n <= i128::MAX as u128 {
            Some(*n as i128)
        } else {
            None
        },
        CapturedValue::I128(n) => Some(*n),
        _ => None,
    }
}

/// Conversion from a captured value into a field's inner type. Integer
/// conversions are lossless: an out-of-range value is a miss, not a wrap.
pub trait FromCaptured: Sized {
    /// What `from_captured` yields for a value.
    spec fn captured_as(value: CapturedValue) -> Option<Self>;

    fn from_captured(value: &CapturedValue) -> (r: Option<Self>)
        ensures
            r == Self::captured_as(*value),
    ;
}

impl FromCaptured for u8 {
    open spec fn captured_as(value: CapturedValue) -> Option<u8> {
        match captured_int(value) {
            Some(n) => if 0 <= n <= u8::MAX {
                Some(n as u8)
            } else {
                None
            },
            None => None,
        }
    }

    fn from_captured(value: &CapturedValue) -> (r: Option<u8>) {
        match captured_nonnegative(value) {
            Some(n) => if n <= u8::MAX as u128 {
                Some(n as u8)
            } else {
                None
            },
            None => None,
        }
    }
}

impl FromCaptured for u16 {
    open spec fn captured_as(value: CapturedValue) -> Option<u16> {
        match captured_int(value) {
            Some(n) => if 0 <= n <= u16::MAX {
                Some(n as u16)
            } else {
                None
            },
            None => None,
        }
    }

    fn from_captured(value: &CapturedValue) -> (r: Option<u16>) {
        match captured_nonnegative(value) {
            Some(n) => if n <= u16::MAX as u128 {
                Some(n as u16)
            } else {
                None
            },
            None => None,
        }
    }
}

impl FromCaptured for u32 {
    open spec fn captured_as(value: CapturedValue) -> Option<u32> {
        match captured_int(value) {
            Some(n) => if 0 <= n <= u32::MAX {
                Some(n as u32)
            } else {
                None
            },
            None => None,
        }
    }

    fn from_captured(value: &CapturedValue) -> (r: Option<u32>) {
        match captured_nonnegative(value) {
            Some(n) => if n <= u32::MAX as u128 {
                Some(n as u32)
            } else {
                None
            },
            None => None,
        }
    }
}

impl FromCaptured for u64 {
    open spec fn captured_as(value: CapturedValue) -> Option<u64> {
        match captured_int(value) {
            Some(n) => if 0 <= n <= u64::MAX {
                Some(n as u64)
            } else {
                None
            },
            None => None,
        }
    }

    fn from_captured(value: &CapturedValue) -> (r: Option<u64>) {
        match captured_nonnegative(value) {
            Some(n) => if n <= u64::MAX as u128 {
                Some(n as u64)
            } else {
                None
            },
            None => None,
        }
    }
}

impl FromCaptured for u128 {
    open spec fn captured_as(value: CapturedValue) -> Option<u128> {
        match captured_int(value) {
            Some(n) => if 0 <= n <= u128::MAX {
                Some(n as u128)
            } else {
                None
            },
            None => None,
        }
    }

    fn from_captured(value: &CapturedValue) -> (r: Option<u128>) {
        match captured_nonnegative(value) {
            Some(n) => if n <= u128::MAX as u128 {
                Some(n as u128)
            } else {
                None
            },
            None => None,
        }
    }
}

impl FromCaptured for usize {
    open spec fn captured_as(value: CapturedValue) -> Option<usize> {
        match captured_int(value) {
            Some(n) => if 0 <= n <= usize::MAX {
                Some(n as usize)
            } else {
                None
            },
            None => None,
        }
    }

    fn from_captured(value: &CapturedValue) -> (r: Option<usize>) {
        match captured_nonnegative(value) {
            Some(n) => if n <= usize::MAX as u128 {
                Some(n as usize)
            } else {
                None
            },
            None => None,
        }
    }
}

impl FromCaptured for i8 {
    open spec fn captured_as(value: CapturedValue) -> Option<i8> {
        match captured_int(value) {
            Some(n) => if i8::MIN <= n <= i8::MAX {
                Some(n as i8)
            } else {
                None
            },
            None => None,
        }
    }

    fn from_captured(value: &CapturedValue) -> (r: Option<i8>) {
        match captured_signed(value) {
            Some(n) => if i8::MIN as i128 <= n && n <= i8::MAX as i128 {
                Some(n as i8)
            } else {
                None
            },
            None => None,
        }
    }
}

impl FromCaptured for i16 {
    open spec fn captured_as(value: CapturedValue) -> Option<i16> {
        match captured_int(value) {
            Some(n) => if i16::MIN <= n <= i16::MAX {
                Some(n as i16)
            } else {
                None
            },
            None => None,
        }
    }

    fn from_captured(value: &CapturedValue) -> (r: Option<i16>) {
        match captured_signed(value) {
            Some(n) => if i16::MIN as i128 <= n && n <= i16::MAX as i128 {
                Some(n as i16)
            } else {
                None
            },
            None => None,
        }
    }
}

impl FromCaptured for i32 {
    open spec fn captured_as(value: CapturedValue) -> Option<i32> {
        match captured_int(value) {
            Some(n) => if i32::MIN <= n <= i32::MAX {
                Some(n as i32)
            } else {
                None
            },
            None => None,
        }
    }

    fn from_captured(value: &CapturedValue) -> (r: Option<i32>) {
        match captured_signed(value) {
            Some(n) => if i32::MIN as i128 <= n && n <= i32::MAX as i128 {
                Some(n as i32)
            } else {
                None
            },
            None => None,
        }
    }
}

impl FromCaptured for i64 {
    open spec fn captured_as(value: CapturedValue) -> Option<i64> {
        match captured_int(value) {
            Some(n) => if i64::MIN <= n <= i64::MAX {
                Some(n as i64)
            } else {
                None
            },
            None => None,
        }
    }

    fn from_captured(value: &CapturedValue) -> (r: Option<i64>) {
        match captured_signed(value) {
            Some(n) => if i64::MIN as i128 <= n && n <= i64::MAX as i128 {
                Some(n as i64)
            } else {
                None
            },
            None => None,
        }
    }
}

impl FromCaptured for i128 {
    open spec fn captured_as(value: CapturedValue) -> Option<i128> {
        match captured_int(value) {
            Some(n) => if i128::MIN <= n <= i128::MAX {
                Some(n as i128)
            } else {
                None
            },
            None => None,
        }
    }

    fn from_captured(value: &CapturedValue) -> (r: Option<i128>) {
        match captured_signed(value) {
            Some(n) => if i128::MIN as i128 <= n && n <= i128::MAX as i128 {
                Some(n as i128)
            } else {
                None
            },
            None => None,
        }
    }
}

impl FromCaptured for isize {
    open spec fn captured_as(value: CapturedValue) -> Option<isize> {
        match captured_int(value) {
            Some(n) => if isize::MIN <= n <= isize::MAX {
                Some(n as isize)
            } else {
                None
            },
            None => None,
        }
    }

    fn from_captured(value: &CapturedValue) -> (r: Option<isize>) {
        match captured_signed(value) {
            Some(n) => if isize::MIN as i128 <= n && n <= isize::MAX as i128 {
                Some(n as isize)
            } else {
                None
            },
            None => None,
        }
    }
}

impl FromCaptured for bool {
    open spec fn captured_as(value: CapturedValue) -> Option<bool> {
        match value {
            CapturedValue::Bool(b) => Some(b),
            _ => None,
        }
    }

    fn from_captured(value: &CapturedValue) -> (r: Option<bool>) {
        match value {
            CapturedValue::Bool(b) => Some(*b),
            _ => None,
        }
    }
}

impl FromCaptured for String {
    open spec fn captured_as(value: CapturedValue) -> Option<String> {
        match value {
            CapturedValue::Str(s) => Some(s),
            CapturedValue::Debug(s) => Some(s),
            _ => None,
        }
    }

    fn from_captured(value: &CapturedValue) -> (r: Option<String>) {
        match value {
            CapturedValue::Str(s) => Some(s.clone()),
            CapturedValue::Debug(s) => Some(s.clone()),
            _ => None,
        }
    }
}


/// The integer a captured value holds: what the span recorded as an integer.
pub open spec fn held_integer(v: CapturedValue) -> Option<int> {
    match v {
        CapturedValue::U64(n) => Some(n as int),
        CapturedValue::I64(n) => Some(n as int),
        CapturedValue::U128(n) => Some(n as int),
        CapturedValue::I128(n) => Some(n as int),
        _ => None,
    }
}

/// Integer conversions are lossless: a field of any integer type fills only
/// from a captured integer, with exactly that integer, and fills whenever the
/// integer is in the type's range (a value out of range is a miss, never a
/// wrap).
pub proof fn law_integer_conversions_are_lossless(v: CapturedValue)
    ensures
        <u8 as FromCaptured>::captured_as(v) is Some ==> held_integer(v) == Some(<u8 as FromCaptured>::captured_as(v)->Some_0 as int),
        (held_integer(v) is Some && 0 <= held_integer(v)->Some_0 <= u8::MAX) ==> <u8 as FromCaptured>::captured_as(v) is Some,
        <u16 as FromCaptured>::captured_as(v) is Some ==> held_integer(v) == Some(<u16 as FromCaptured>::captured_as(v)->Some_0 as int),
        (held_integer(v) is Some && 0 <= held_integer(v)->Some_0 <= u16::MAX) ==> <u16 as FromCaptured>::captured_as(v) is Some,
        <u32 as FromCaptured>::captured_as(v) is Some ==> held_integer(v) == Some(<u32 as FromCaptured>::captured_as(v)->Some_0 as int),
        (held_integer(v) is Some && 0 <= held_integer(v)->Some_0 <= u32::MAX) ==> <u32 as FromCaptured>::captured_as(v) is Some,
        <u64 as FromCaptured>::captured_as(v) is Some ==> held_integer(v) == Some(<u64 as FromCaptured>::captured_as(v)->Some_0 as int),
        (held_integer(v) is Some && 0 <= held_integer(v)->Some_0 <= u64::MAX) ==> <u64 as FromCaptured>::captured_as(v) is Some,
        <u128 as FromCaptured>::captured_as(v) is Some ==> held_integer(v) == Some(<u128 as FromCaptured>::captured_as(v)->Some_0 as int),
        (held_integer(v) is Some && 0 <= held_integer(v)->Some_0 <= u128::MAX) ==> <u128 as FromCaptured>::captured_as(v) is Some,
        <usize as FromCaptured>::captured_as(v) is Some ==> held_integer(v) == Some(<usize as FromCaptured>::captured_as(v)->Some_0 as int),
        (held_integer(v) is Some && 0 <= held_integer(v)->Some_0 <= usize::MAX) ==> <usize as FromCaptured>::captured_as(v) is Some,
        <i8 as FromCaptured>::captured_as(v) is Some ==> held_integer(v) == Some(<i8 as FromCaptured>::captured_as(v)->Some_0 as int),
        (held_integer(v) is Some && i8::MIN <= held_integer(v)->Some_0 <= i8::MAX) ==> <i8 as FromCaptured>::captured_as(v) is Some,
        <i16 as FromCaptured>::captured_as(v) is Some ==> held_integer(v) == Some(<i16 as FromCaptured>::captured_as(v)->Some_0 as int),
        (held_integer(v) is Some && i16::MIN <= held_integer(v)->Some_0 <= i16::MAX) ==> <i16 as FromCaptured>::captured_as(v) is Some,
        <i32 as FromCaptured>::captured_as(v) is Some ==> held_integer(v) == Some(<i32 as FromCaptured>::captured_as(v)->Some_0 as int),
        (held_integer(v) is Some && i32::MIN <= held_integer(v)->Some_0 <= i32::MAX) ==> <i32 as FromCaptured>::captured_as(v) is Some,
        <i64 as FromCaptured>::captured_as(v) is Some ==> held_integer(v) == Some(<i64 as FromCaptured>::captured_as(v)->Some_0 as int),
        (held_integer(v) is Some && i64::MIN <= held_integer(v)->Some_0 <= i64::MAX) ==> <i64 as FromCaptured>::captured_as(v) is Some,
        <i128 as FromCaptured>::captured_as(v) is Some ==> held_integer(v) == Some(<i128 as FromCaptured>::captured_as(v)->Some_0 as int),
        (held_integer(v) is Some && i128::MIN <= held_integer(v)->Some_0 <= i128::MAX) ==> <i128 as FromCaptured>::captured_as(v) is Some,
        <isize as FromCaptured>::captured_as(v) is Some ==> held_integer(v) == Some(<isize as FromCaptured>::captured_as(v)->Some_0 as int),
        (held_integer(v) is Some && isize::MIN <= held_integer(v)->Some_0 <= isize::MAX) ==> <isize as FromCaptured>::captured_as(v) is Some,
{
}
} // verus!
