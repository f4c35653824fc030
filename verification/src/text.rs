//! Text utilities shared by the catalogue and the `#[message]` rules: the
//! lexicographic order on strings (by Unicode scalar value, which is also the
//! byte order of their UTF-8 encodings), string comparison, brace escaping,
//! decimal rendering, and the few `std` string operations the rules rely on.

use vstd::prelude::*;
use vstd::string::*;

verus! {

/// `a[i..] < b[i..]` lexicographically, given `a[..i] == b[..i]`.
pub open spec fn text_lt_from(a: Seq<char>, b: Seq<char>, i: int) -> bool
    decreases a.len() - i,
{
    if i >= a.len() {
        i < b.len()
    } else if i >= b.len() {
        false
    } else if a[i] != b[i] {
        (a[i] as int) < (b[i] as int)
    } else {
        text_lt_from(a, b, i + 1)
    }
}

/// The strict lexicographic order on texts, the order `str`'s `Ord` uses.
pub open spec fn text_lt(a: Seq<char>, b: Seq<char>) -> bool {
    text_lt_from(a, b, 0)
}

/// Every element precedes every later one: sorted with no repeats.
pub open spec fn strictly_sorted(s: Seq<Seq<char>>) -> bool {
    forall|i: int, j: int| 0 <= i < j < s.len() ==> text_lt(#[trigger] s[i], #[trigger] s[j])
}

/// No text precedes itself.
pub proof fn lemma_text_lt_irreflexive(a: Seq<char>, i: int)
    requires
        0 <= i,
    ensures
        !text_lt_from(a, a, i),
    decreases a.len() - i,
{
    if i < a.len() {
        lemma_text_lt_irreflexive(a, i + 1);
    }
}

/// The order on texts is transitive.
pub proof fn lemma_text_lt_transitive(a: Seq<char>, b: Seq<char>, c: Seq<char>, i: int)
    requires
        0 <= i,
        text_lt_from(a, b, i),
        text_lt_from(b, c, i),
    ensures
        text_lt_from(a, c, i),
    decreases a.len() - i,
{
    if i < a.len() && i < b.len() && i < c.len() && a[i] == b[i] && b[i] == c[i] {
        lemma_text_lt_transitive(a, b, c, i + 1);
    }
}

/// Of two texts that agree before `i`, one precedes the other or they are equal.
pub proof fn lemma_text_lt_total(a: Seq<char>, b: Seq<char>, i: int)
    requires
        0 <= i <= a.len(),
        i <= b.len(),
        forall|j: int| 0 <= j < i ==> a[j] == b[j],
    ensures
        text_lt_from(a, b, i) || text_lt_from(b, a, i) || a == b,
    decreases a.len() + b.len() - 2 * i,
{
    if i < a.len() && i < b.len() && a[i] == b[i] {
        lemma_text_lt_total(a, b, i + 1);
    } else if i == a.len() && i == b.len() {
        assert(a =~= b);
    } else if i < a.len() && i < b.len() {
        assert((a[i] as int) != (b[i] as int));
    }
}

/// Two texts never precede each other.
pub proof fn lemma_text_lt_asymmetric(a: Seq<char>, b: Seq<char>)
    ensures
        text_lt(a, b) ==> !text_lt(b, a),
{
    if text_lt(a, b) && text_lt(b, a) {
        lemma_text_lt_transitive(a, b, a, 0);
        lemma_text_lt_irreflexive(a, 0);
    }
}

/// The two sequences hold the same texts (each as often as it likes).
pub open spec fn same_elements(a: Seq<Seq<char>>, b: Seq<Seq<char>>) -> bool {
    forall|x: Seq<char>| a.contains(x) <==> b.contains(x)
}

/// The texts of `raw`, sorted, each once.
pub open spec fn canonical(raw: Seq<Seq<char>>) -> Seq<Seq<char>> {
    choose|r: Seq<Seq<char>>| strictly_sorted(r) && same_elements(r, raw)
}

/// A strictly sorted sequence is determined by its elements.
pub proof fn lemma_sorted_unique(a: Seq<Seq<char>>, b: Seq<Seq<char>>)
    requires
        strictly_sorted(a),
        strictly_sorted(b),
        same_elements(a, b),
    ensures
        a == b,
    decreases a.len(),
{
    if a.len() == 0 {
        if b.len() > 0 {
            assert(b.contains(b[0]));
        }
        assert(a =~= b);
    } else {
        assert(a.contains(a[0]));
        assert(b.contains(a[0]));
        assert(b.len() > 0);
        assert(b.contains(b[0]));
        assert(a.contains(b[0]));
        let j = choose|j: int| 0 <= j < b.len() && b[j] == a[0];
        let k = choose|k: int| 0 <= k < a.len() && a[k] == b[0];
        if j > 0 {
            assert(text_lt(b[0], b[j]));
            if k == 0 {
                lemma_text_lt_irreflexive(a[0], 0);
            } else {
                assert(text_lt(a[0], a[k]));
                lemma_text_lt_asymmetric(a[0], a[k]);
            }
        }
        assert(b[0] == a[0]);
        let a1 = a.drop_first();
        let b1 = b.drop_first();
        assert forall|x: Seq<char>| a1.contains(x) implies b1.contains(x) by {
            let i = choose|i: int| 0 <= i < a1.len() && a1[i] == x;
            assert(a.contains(x) && a[i + 1] == x);
            assert(text_lt(a[0], a[i + 1]));
            lemma_text_lt_irreflexive(a[0], 0);
            let m = choose|m: int| 0 <= m < b.len() && b[m] == x;
            assert(m != 0);
            assert(b1[m - 1] == x);
        }
        assert forall|x: Seq<char>| b1.contains(x) implies a1.contains(x) by {
            let i = choose|i: int| 0 <= i < b1.len() && b1[i] == x;
            assert(b.contains(x) && b[i + 1] == x);
            assert(text_lt(b[0], b[i + 1]));
            lemma_text_lt_irreflexive(b[0], 0);
            let m = choose|m: int| 0 <= m < a.len() && a[m] == x;
            assert(m != 0);
            assert(a1[m - 1] == x);
        }
        assert forall|i: int, j: int| 0 <= i < j < a1.len() implies text_lt(a1[i], a1[j]) by {
            assert(a1[i] == a[i + 1] && a1[j] == a[j + 1]);
        }
        assert forall|i: int, j: int| 0 <= i < j < b1.len() implies text_lt(b1[i], b1[j]) by {
            assert(b1[i] == b[i + 1] && b1[j] == b[j + 1]);
        }
        lemma_sorted_unique(a1, b1);
        assert(a.len() == b.len());
        assert forall|i: int| 0 <= i < a.len() implies a[i] == b[i] by {
            if i > 0 {
                assert(a[i] == a1[i - 1] && b[i] == b1[i - 1]);
            }
        }
        assert(a =~= b);
    }
}

/// A strictly sorted sequence with the elements of `raw` is its canonical form.
pub proof fn lemma_canonical_is(r: Seq<Seq<char>>, raw: Seq<Seq<char>>)
    requires
        strictly_sorted(r),
        same_elements(r, raw),
    ensures
        canonical(raw) == r,
{
    let c = canonical(raw);
    assert(strictly_sorted(c) && same_elements(c, raw));
    lemma_sorted_unique(c, r);
}

/// `x` added at its place in the strictly sorted `r`, unless it is there.
proof fn sorted_insert(r: Seq<Seq<char>>, x: Seq<char>) -> (out: Seq<Seq<char>>)
    requires
        strictly_sorted(r),
    ensures
        strictly_sorted(out),
        forall|y: Seq<char>| out.contains(y) <==> (r.contains(y) || y == x),
    decreases r.len(),
{
    if r.contains(x) {
        r
    } else if r.len() == 0 {
        let out = seq![x];
        assert forall|y: Seq<char>| out.contains(y) <==> (r.contains(y) || y == x) by {
            if y == x {
                assert(out[0] == y);
            }
        }
        out
    } else if text_lt(r.last(), x) {
        let out = r.push(x);
        assert forall|a: int, b: int| 0 <= a < b < out.len() implies text_lt(
            #[trigger] out[a],
            #[trigger] out[b],
        ) by {
            if b == r.len() {
                if a < r.len() - 1 {
                    assert(text_lt(r[a], r[r.len() - 1]));
                    lemma_text_lt_transitive(r[a], r.last(), x, 0);
                }
            } else {
                assert(out[a] == r[a] && out[b] == r[b]);
            }
        }
        assert forall|y: Seq<char>| out.contains(y) <==> (r.contains(y) || y == x) by {
            if out.contains(y) {
                let k = choose|k: int| 0 <= k < out.len() && out[k] == y;
                if k < r.len() {
                    assert(r[k] == y);
                }
            }
            if r.contains(y) {
                let k = choose|k: int| 0 <= k < r.len() && r[k] == y;
                assert(out[k] == y);
            }
            if y == x {
                assert(out[r.len() as int] == y);
            }
        }
        out
    } else {
        let last = r.last();
        let init = r.drop_last();
        assert(last != x) by {
            assert(r[r.len() - 1] == last);
        }
        lemma_text_lt_total(last, x, 0);
        assert(text_lt(x, last));
        assert forall|a: int, b: int| 0 <= a < b < init.len() implies text_lt(
            #[trigger] init[a],
            #[trigger] init[b],
        ) by {
            assert(init[a] == r[a] && init[b] == r[b]);
        }
        assert(!init.contains(x)) by {
            if init.contains(x) {
                let k = choose|k: int| 0 <= k < init.len() && init[k] == x;
                assert(r[k] == x);
            }
        }
        let mid = sorted_insert(init, x);
        let out = mid.push(last);
        assert forall|y: Seq<char>| mid.contains(y) implies text_lt(y, last) by {
            if y != x {
                assert(init.contains(y));
                let k = choose|k: int| 0 <= k < init.len() && init[k] == y;
                assert(text_lt(r[k], r[r.len() - 1]));
            }
        }
        assert forall|a: int, b: int| 0 <= a < b < out.len() implies text_lt(
            #[trigger] out[a],
            #[trigger] out[b],
        ) by {
            if b == mid.len() {
                assert(mid.contains(mid[a]));
            } else {
                assert(out[a] == mid[a] && out[b] == mid[b]);
            }
        }
        assert forall|y: Seq<char>| out.contains(y) <==> (r.contains(y) || y == x) by {
            if out.contains(y) {
                let k = choose|k: int| 0 <= k < out.len() && out[k] == y;
                if k < mid.len() {
                    assert(mid[k] == y);
                    assert(mid.contains(y));
                    if y != x {
                        let m = choose|m: int| 0 <= m < init.len() && init[m] == y;
                        assert(r[m] == y);
                    }
                } else {
                    assert(r[r.len() - 1] == y);
                }
            }
            if r.contains(y) {
                let k = choose|k: int| 0 <= k < r.len() && r[k] == y;
                if k < r.len() - 1 {
                    assert(init[k] == y);
                    assert(init.contains(y));
                    assert(mid.contains(y));
                    let m = choose|m: int| 0 <= m < mid.len() && mid[m] == y;
                    assert(out[m] == y);
                } else {
                    assert(out[mid.len() as int] == y);
                }
            }
            if y == x {
                assert(mid.contains(y));
                let m = choose|m: int| 0 <= m < mid.len() && mid[m] == y;
                assert(out[m] == y);
            }
        }
        out
    }
}

/// Every sequence of texts has a canonical form: sorted, each text once.
pub proof fn lemma_canonical(raw: Seq<Seq<char>>)
    ensures
        strictly_sorted(canonical(raw)),
        same_elements(canonical(raw), raw),
    decreases raw.len(),
{
    if raw.len() == 0 {
        let e = Seq::<Seq<char>>::empty();
        assert(strictly_sorted(e) && same_elements(e, raw));
    } else {
        lemma_canonical(raw.drop_last());
        let r = sorted_insert(canonical(raw.drop_last()), raw.last());
        assert forall|y: Seq<char>| r.contains(y) <==> raw.contains(y) by {
            if raw.contains(y) {
                let k = choose|k: int| 0 <= k < raw.len() && raw[k] == y;
                if k < raw.len() - 1 {
                    assert(raw.drop_last()[k] == y);
                }
            }
            if raw.drop_last().contains(y) {
                let k = choose|k: int| 0 <= k < raw.len() - 1 && raw.drop_last()[k] == y;
                assert(raw[k] == y);
            }
        }
        assert(strictly_sorted(r) && same_elements(r, raw));
    }
}

/// A value that holds a text: an owned `String` or a string slice.
pub trait TextValue {
    spec fn text(&self) -> Seq<char>;

    fn as_text(&self) -> (r: &str)
        ensures
            r@ == self.text(),
    ;
}

impl TextValue for String {
    open spec fn text(&self) -> Seq<char> {
        self@
    }

    fn as_text(&self) -> (r: &str) {
        self.as_str()
    }
}

impl<'a> TextValue for &'a str {
    open spec fn text(&self) -> Seq<char> {
        (*self)@
    }

    fn as_text(&self) -> (r: &str) {
        *self
    }
}

/// The texts of a sequence of strings.
pub open spec fn texts<T: TextValue>(v: Seq<T>) -> Seq<Seq<char>> {
    v.map_values(|s: T| s.text())
}

/// Inserts `x` at its place in the strictly sorted `v`, unless it is there.
pub fn insert_sorted<T: TextValue>(v: &mut Vec<T>, x: T)
    requires
        strictly_sorted(texts(old(v)@)),
    ensures
        strictly_sorted(texts(final(v)@)),
        forall|y: Seq<char>| texts(final(v)@).contains(y) <==> (texts(old(v)@).contains(y) || y == x.text()),
{
    let n = v.len();
    let mut i: usize = 0;
    while i < n && precedes(v[i].as_text(), x.as_text())
        invariant
            n == v@.len(),
            i <= n,
            forall|j: int| 0 <= j < i ==> text_lt(#[trigger] texts(v@)[j], x.text()),
        decreases n - i,
    {
        i = i + 1;
    }
    let ghost old_t = texts(v@);
    if i < n && same_text(v[i].as_text(), x.as_text()) {
        assert(old_t[i as int] == x.text());
        assert forall|y: Seq<char>| old_t.contains(y) <==> (old_t.contains(y) || y == x.text()) by {
            if y == x.text() {
                assert(old_t.contains(old_t[i as int]));
            }
        }
        return;
    }
    proof {
        if i < n {
            lemma_text_lt_total(old_t[i as int], x.text(), 0);
        }
    }
    v.insert(i, x);
    let ghost new_t = texts(v@);
    assert(new_t =~= old_t.insert(i as int, x.text()));
    assert forall|a: int, b: int| 0 <= a < b < new_t.len() implies text_lt(
        #[trigger] new_t[a],
        #[trigger] new_t[b],
    ) by {
        if b < i {
            assert(new_t[a] == old_t[a] && new_t[b] == old_t[b]);
        } else if b == i {
            assert(new_t[a] == old_t[a]);
        } else if a == i {
            assert(new_t[b] == old_t[b - 1]);
            if b - 1 > i {
                assert(text_lt(old_t[i as int], old_t[b - 1]));
                lemma_text_lt_transitive(x.text(), old_t[i as int], old_t[b - 1], 0);
            }
        } else if a < i {
            assert(new_t[a] == old_t[a] && new_t[b] == old_t[b - 1]);
            if b - 1 >= i {
                if b - 1 > i {
                    assert(text_lt(old_t[i as int], old_t[b - 1]));
                    lemma_text_lt_transitive(x.text(), old_t[i as int], old_t[b - 1], 0);
                }
                lemma_text_lt_transitive(old_t[a], x.text(), old_t[b - 1], 0);
            }
        } else {
            assert(new_t[a] == old_t[a - 1] && new_t[b] == old_t[b - 1]);
        }
    }
    assert forall|y: Seq<char>| new_t.contains(y) <==> (old_t.contains(y) || y == x.text()) by {
        if new_t.contains(y) {
            let k = choose|k: int| 0 <= k < new_t.len() && new_t[k] == y;
            if k < i {
                assert(old_t[k] == y);
            } else if k > i {
                assert(old_t[k - 1] == y);
            }
        }
        if old_t.contains(y) {
            let k = choose|k: int| 0 <= k < old_t.len() && old_t[k] == y;
            if k < i {
                assert(new_t[k] == y);
            } else {
                assert(new_t[k + 1] == y);
            }
        }
        if y == x.text() {
            assert(new_t[i as int] == y);
        }
    }
}

/// Whether `a` and `b` hold the same text.
pub fn same_text(a: &str, b: &str) -> (r: bool)
    ensures
        r == (a@ == b@),
{
    let la = a.unicode_len();
    let lb = b.unicode_len();
    if la != lb {
        return false;
    }
    let mut i: usize = 0;
    while i < la
        invariant
            la == a@.len(),
            lb == b@.len(),
            la == lb,
            i <= la,
            forall|j: int| 0 <= j < i ==> a@[j] == b@[j],
        decreases la - i,
    {
        let ca = a.get_char(i);
        let cb = b.get_char(i);
        if ca != cb {
            return false;
        }
        i = i + 1;
    }
    assert(a@ =~= b@);
    true
}

/// Whether `a` strictly precedes `b` in the lexicographic order.
pub fn precedes(a: &str, b: &str) -> (r: bool)
    ensures
        r == text_lt(a@, b@),
{
    let la = a.unicode_len();
    let lb = b.unicode_len();
    let mut i: usize = 0;
    while i < la && i < lb
        invariant
            la == a@.len(),
            lb == b@.len(),
            i <= la,
            i <= lb,
            text_lt(a@, b@) == text_lt_from(a@, b@, i as int),
        decreases la - i,
    {
        let ca = a.get_char(i);
        let cb = b.get_char(i);
        if ca != cb {
            return (ca as u32) < (cb as u32);
        }
        i = i + 1;
    }
    i < lb
}

/// A copy of `s` as an owned `String`.
pub fn owned(s: &str) -> (r: String)
    ensures
        r@ == s@,
{
    s.to_owned()
}

/// Appends one character (`String::push`).
#[verifier::external_body]
pub(crate) fn push_char(s: &mut String, c: char)
    ensures
        final(s)@ == old(s)@.push(c),
{
    s.push(c);
}

/// What `str::to_lowercase` returns for a text: its Unicode lowercase mapping.
pub uninterp spec fn lowercase(s: Seq<char>) -> Seq<char>;

/// `str::to_lowercase`, which maps every character to its Unicode lowercase
/// form; the mapping is named by `lowercase`, not spelled out here.
#[verifier::external_body]
pub(crate) fn to_lowercase(s: &str) -> (r: String)
    ensures
        r@ == lowercase(s@),
{
    s.to_lowercase()
}

/// Whether `c` has the Unicode `White_Space` property, the white space that
/// `str::trim` removes.
pub open spec fn white_space(c: char) -> bool {
    let n = c as u32;
    (0x9 <= n <= 0xD) || n == 0x20 || n == 0x85 || n == 0xA0 || n == 0x1680 || (0x2000 <= n
        <= 0x200A) || n == 0x2028 || n == 0x2029 || n == 0x202F || n == 0x205F || n == 0x3000
}

/// The text without its leading white space.
pub open spec fn trimmed_start(s: Seq<char>) -> Seq<char>
    decreases s.len(),
{
    if s.len() > 0 && white_space(s[0]) {
        trimmed_start(s.drop_first())
    } else {
        s
    }
}

/// The text without its trailing white space.
pub open spec fn trimmed_end(s: Seq<char>) -> Seq<char>
    decreases s.len(),
{
    if s.len() > 0 && white_space(s.last()) {
        trimmed_end(s.drop_last())
    } else {
        s
    }
}

/// What `str::trim` returns: the text without leading and trailing white
/// space.
pub open spec fn trimmed(s: Seq<char>) -> Seq<char> {
    trimmed_end(trimmed_start(s))
}

fn is_white_space(c: char) -> (r: bool)
    ensures
        r == white_space(c),
{
    let n = c as u32;
    (0x9 <= n && n <= 0xD) || n == 0x20 || n == 0x85 || n == 0xA0 || n == 0x1680 || (0x2000 <= n
        && n <= 0x200A) || n == 0x2028 || n == 0x2029 || n == 0x202F || n == 0x205F || n == 0x3000
}

/// The text with leading and trailing white space removed (`str::trim`).
pub fn trim(s: &str) -> (r: String)
    ensures
        r@ == trimmed(s@),
{
    let n = s.unicode_len();
    let mut i: usize = 0;
    assert(s@.subrange(0, n as int) =~= s@);
    while i < n && is_white_space(s.get_char(i))
        invariant
            n == s@.len(),
            i <= n,
            trimmed_start(s@) == trimmed_start(s@.subrange(i as int, n as int)),
        decreases n - i,
    {
        assert(s@.subrange(i as int, n as int).drop_first() =~= s@.subrange(i + 1, n as int));
        i = i + 1;
    }
    assert(trimmed_start(s@) == s@.subrange(i as int, n as int)) by {
        if i < n {
            assert(s@.subrange(i as int, n as int)[0] == s@[i as int]);
        }
    }
    let mut j: usize = n;
    while j > i && is_white_space(s.get_char(j - 1))
        invariant
            n == s@.len(),
            i <= j <= n,
            trimmed_end(s@.subrange(i as int, n as int)) == trimmed_end(
                s@.subrange(i as int, j as int),
            ),
        decreases j - i,
    {
        assert(s@.subrange(i as int, j as int).drop_last() =~= s@.subrange(i as int, j - 1));
        j = j - 1;
    }
    let ghost kept = s@.subrange(i as int, j as int);
    assert(trimmed_end(kept) == kept) by {
        if j > i {
            assert(kept.last() == s@[j - 1]);
        }
    }
    let mut out = String::new();
    let mut k: usize = i;
    while k < j
        invariant
            n == s@.len(),
            i <= k <= j <= n,
            out@ == s@.subrange(i as int, k as int),
        decreases j - k,
    {
        push_char(&mut out, s.get_char(k));
        assert(s@.subrange(i as int, k + 1) =~= s@.subrange(i as int, k as int).push(s@[k as int]));
        k = k + 1;
    }
    out
}

/// The text with every `{` doubled and every `}` doubled, so that a format
/// string made of it prints the text itself verbatim.
pub open spec fn escape_braces(s: Seq<char>) -> Seq<char>
    decreases s.len(),
{
    if s.len() == 0 {
        Seq::empty()
    } else {
        let rest = escape_braces(s.drop_last());
        let c = s.last();
        if c == '{' || c == '}' {
            rest.push(c).push(c)
        } else {
            rest.push(c)
        }
    }
}

/// The inverse of `escape_braces`: a doubled `{{` or `}}` collapses to a
/// single brace, as a format string renders it.
pub open spec fn unescape_braces(s: Seq<char>) -> Seq<char>
    decreases s.len(),
{
    if s.len() == 0 {
        Seq::empty()
    } else if s.len() >= 2 && (s.last() == '{' || s.last() == '}') && s[s.len() - 2] == s.last() {
        unescape_braces(s.subrange(0, s.len() - 2)).push(s.last())
    } else {
        unescape_braces(s.drop_last()).push(s.last())
    }
}

/// Escaping loses nothing: unescaping an escaped text gives the text back.
pub proof fn lemma_unescape_escape(s: Seq<char>)
    ensures
        unescape_braces(escape_braces(s)) == s,
    decreases s.len(),
{
    if s.len() > 0 {
        let rest = escape_braces(s.drop_last());
        let c = s.last();
        lemma_unescape_escape(s.drop_last());
        if c == '{' || c == '}' {
            let e = rest.push(c).push(c);
            assert(e.subrange(0, e.len() - 2) =~= rest);
        } else {
            let e = rest.push(c);
            assert(e.drop_last() =~= rest);
        }
        assert(s.drop_last().push(c) =~= s);
    }
}

/// `s.replace('{', "{{").replace('}', "}}")`.
pub fn escape_format_braces(s: &str) -> (r: String)
    ensures
        r@ == escape_braces(s@),
{
    let n = s.unicode_len();
    let mut out = String::new();
    let mut i: usize = 0;
    while i < n
        invariant
            n == s@.len(),
            i <= n,
            out@ == escape_braces(s@.take(i as int)),
        decreases n - i,
    {
        let c = s.get_char(i);
        assert(s@.take(i + 1).drop_last() =~= s@.take(i as int));
        if c == '{' || c == '}' {
            push_char(&mut out, c);
            push_char(&mut out, c);
        } else {
            push_char(&mut out, c);
        }
        i = i + 1;
    }
    assert(s@.take(n as int) =~= s@);
    out
}

/// The decimal digit for `d < 10`.
pub open spec fn digit(d: nat) -> char {
    if d == 0 {
        '0'
    } else if d == 1 {
        '1'
    } else if d == 2 {
        '2'
    } else if d == 3 {
        '3'
    } else if d == 4 {
        '4'
    } else if d == 5 {
        '5'
    } else if d == 6 {
        '6'
    } else if d == 7 {
        '7'
    } else if d == 8 {
        '8'
    } else {
        '9'
    }
}

/// The decimal rendering of `n`, without sign or leading zeros.
pub open spec fn decimal(n: nat) -> Seq<char>
    decreases n,
{
    if n < 10 {
        seq![digit(n)]
    } else {
        decimal(n / 10).push(digit(n % 10))
    }
}

fn digit_char(d: u32) -> (c: char)
    requires
        d < 10,
    ensures
        c == digit(d as nat),
{
    if d == 0 {
        '0'
    } else if d == 1 {
        '1'
    } else if d == 2 {
        '2'
    } else if d == 3 {
        '3'
    } else if d == 4 {
        '4'
    } else if d == 5 {
        '5'
    } else if d == 6 {
        '6'
    } else if d == 7 {
        '7'
    } else if d == 8 {
        '8'
    } else {
        '9'
    }
}

/// Appends the decimal rendering of `n` (what `{}` prints for a `u32`).
pub fn push_decimal(out: &mut String, n: u32)
    ensures
        final(out)@ == old(out)@ + decimal(n as nat),
    decreases n,
{
    if n < 10 {
        push_char(out, digit_char(n));
        assert(decimal(n as nat) =~= seq![digit(n as nat)]);
    } else {
        push_decimal(out, n / 10);
        push_char(out, digit_char(n % 10));
    }
}

} // verus!
