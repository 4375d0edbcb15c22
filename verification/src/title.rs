//! Normalized Wikipedia article titles.

use vstd::prelude::*;

use crate::text::{chars_of, replace_char, replace_chars, string_of, trim, trim_chars, trim_end, trim_start, is_ws};

verus! {

/// The canonical form of a raw title: underscores become spaces, and
/// surrounding whitespace is removed.
pub open spec fn canonical_title(raw: Seq<char>) -> Seq<char> {
    trim(replace_char(raw, '_', ' '))
}

/// A normalized article title. Spaces and underscores are equivalent on
/// Wikipedia; titles are kept with spaces.
#[derive(Debug, Clone, PartialEq, Eq, Hash)]
pub struct Title(String);

impl View for Title {
    type V = Seq<char>;

    closed spec fn view(&self) -> Seq<char> {
        self.0@
    }
}

impl Title {
    /// The title `raw` stands for.
    pub fn new(raw: &str) -> (r: Self)
        ensures
            r@ == canonical_title(raw@),
    {
        let cs = chars_of(raw);
        let spaced = replace_chars(cs.as_slice(), '_', ' ');
        let trimmed = trim_chars(spaced.as_slice());
        Title(string_of(trimmed.as_slice()))
    }

    /// The title text.
    pub fn as_str(&self) -> (r: &str)
        ensures
            r@ == self@,
    {
        self.0.as_str()
    }

    /// The title text, by value.
    pub fn into_string(self) -> (r: String)
        ensures
            r@ == self@,
    {
        self.0
    }
}

proof fn lemma_trim_start_suffix(s: Seq<char>)
    ensures
        exists|k: int| 0 <= k <= s.len() && trim_start(s) == s.skip(k),
        trim_start(s).len() > 0 ==> !is_ws(trim_start(s)[0]),
    decreases s.len(),
{
    if s.len() > 0 && is_ws(s[0]) {
        lemma_trim_start_suffix(s.drop_first());
        let k = choose|k: int| 0 <= k <= s.drop_first().len() && trim_start(s.drop_first()) == s.drop_first().skip(k);
        assert(s.drop_first().skip(k) == s.skip(k + 1));
    } else {
        assert(s.skip(0) == s);
    }
}

proof fn lemma_trim_end_prefix(s: Seq<char>)
    ensures
        exists|k: int| 0 <= k <= s.len() && trim_end(s) == s.take(k),
        trim_end(s).len() > 0 ==> !is_ws(trim_end(s).last()),
        trim_end(trim_end(s)) == trim_end(s),
    decreases s.len(),
{
    if s.len() > 0 && is_ws(s.last()) {
        lemma_trim_end_prefix(s.drop_last());
        let k = choose|k: int| 0 <= k <= s.drop_last().len() && trim_end(s.drop_last()) == s.drop_last().take(k);
        assert(s.drop_last().take(k) == s.take(k));
    } else {
        assert(s.take(s.len() as int) == s);
    }
}

proof fn lemma_trim_idempotent(s: Seq<char>)
    ensures
        trim(trim(s)) == trim(s),
{
    let a = trim_start(s);
    let t = trim_end(a);
    lemma_trim_start_suffix(s);
    lemma_trim_end_prefix(a);
    if t.len() > 0 {
        let k = choose|k: int| 0 <= k <= a.len() && t == a.take(k);
        assert(t[0] == a[0]);
        assert(trim_start(t) == t);
    } else {
        assert(trim_start(t) == t);
    }
}

proof fn lemma_replace_trim_commute(s: Seq<char>)
    requires
        forall|i: int| 0 <= i < s.len() ==> s[i] != '_',
    ensures
        replace_char(s, '_', ' ') == s,
{
    assert(replace_char(s, '_', ' ') =~= s);
}

proof fn lemma_trim_keeps_absence(s: Seq<char>, c: char)
    requires
        forall|i: int| 0 <= i < s.len() ==> s[i] != c,
    ensures
        forall|i: int| 0 <= i < trim(s).len() ==> trim(s)[i] != c,
{
    let a = trim_start(s);
    lemma_trim_start_suffix(s);
    lemma_trim_end_prefix(a);
    let k1 = choose|k: int| 0 <= k <= s.len() && a == s.skip(k);
    let k2 = choose|k: int| 0 <= k <= a.len() && trim_end(a) == a.take(k);
    assert forall|i: int| 0 <= i < trim(s).len() implies trim(s)[i] != c by {
        assert(trim(s)[i] == s[i + k1]);
    }
}

/// Titles are canonical: normalizing a title again changes nothing, and a
/// raw title with underscores names the same title as the one with spaces.
pub proof fn law_title_canonical(raw: Seq<char>)
    ensures
        canonical_title(canonical_title(raw)) == canonical_title(raw),
        canonical_title(replace_char(raw, '_', ' ')) == canonical_title(raw),
{
    let r = replace_char(raw, '_', ' ');
    assert(replace_char(r, '_', ' ') =~= r);
    lemma_trim_keeps_absence(r, '_');
    lemma_replace_trim_commute(trim(r));
    lemma_trim_idempotent(r);
}

/// A title with no underscore and no whitespace at either end is already
/// canonical: normalizing keeps every one of its characters, hyphens and
/// all.
pub proof fn law_clean_title_unchanged(raw: Seq<char>)
    requires
        forall|i: int| 0 <= i < raw.len() ==> raw[i] != '_',
        raw.len() > 0 ==> !is_ws(raw[0]) && !is_ws(raw.last()),
    ensures
        canonical_title(raw) == raw,
{
    let r = replace_char(raw, '_', ' ');
    assert(r =~= raw);
    assert(trim_start(raw) == raw);
    assert(trim_end(raw) == raw);
}

/// Whether `c` is the stretch of `raw` that starts at `k`, character for
/// character, with each underscore read as a space.
pub open spec fn stretch_at(c: Seq<char>, raw: Seq<char>, k: int) -> bool {
    &&& 0 <= k
    &&& k + c.len() <= raw.len()
    &&& forall|i: int|
        0 <= i < c.len() ==> #[trigger] c[i] == if raw[k + i] == '_' {
            ' '
        } else {
            raw[k + i]
        }
}

proof fn lemma_trim_start_cut(s: Seq<char>)
    ensures
        exists|k: int|
            0 <= k <= s.len() && trim_start(s) == s.skip(k) && forall|j: int| 0 <= j < k ==> is_ws(#[trigger] s[j]),
    decreases s.len(),
{
    if s.len() > 0 && is_ws(s[0]) {
        let t = s.drop_first();
        lemma_trim_start_cut(t);
        let k = choose|k: int|
            0 <= k <= t.len() && trim_start(t) == t.skip(k) && forall|j: int| 0 <= j < k ==> is_ws(#[trigger] t[j]);
        assert(t.skip(k) =~= s.skip(k + 1));
        assert forall|j: int| 0 <= j < k + 1 implies is_ws(#[trigger] s[j]) by {
            if j > 0 {
                assert(s[j] == t[j - 1]);
            }
        }
    } else {
        assert(s.skip(0) =~= s);
    }
}

proof fn lemma_trim_end_cut(s: Seq<char>)
    ensures
        exists|k: int|
            0 <= k <= s.len() && trim_end(s) == s.take(k) && forall|j: int| k <= j < s.len() ==> is_ws(#[trigger] s[j]),
    decreases s.len(),
{
    if s.len() > 0 && is_ws(s.last()) {
        let t = s.drop_last();
        lemma_trim_end_cut(t);
        let k = choose|k: int|
            0 <= k <= t.len() && trim_end(t) == t.take(k) && forall|j: int| k <= j < t.len() ==> is_ws(#[trigger] t[j]);
        assert(t.take(k) =~= s.take(k));
        assert forall|j: int| k <= j < s.len() implies is_ws(#[trigger] s[j]) by {
            if j < s.len() - 1 {
                assert(s[j] == t[j]);
            }
        }
    } else {
        assert(s.take(s.len() as int) =~= s);
    }
}

/// The raw character at `j`, read with an underscore as a space.
pub open spec fn spaced_at(raw: Seq<char>, j: int) -> char {
    if raw[j] == '_' {
        ' '
    } else {
        raw[j]
    }
}

/// Normalizing cuts off nothing but whitespace (an underscore counting as a
/// space): before and after the stretch the canonical title is made of,
/// every raw character is an underscore or whitespace. The canonical title
/// itself holds no underscore and does not start or end with whitespace.
pub proof fn law_only_blanks_are_cut(raw: Seq<char>)
    ensures
        exists|k: int|
            #[trigger] stretch_at(canonical_title(raw), raw, k) && (forall|j: int|
                0 <= j < k ==> is_ws(#[trigger] spaced_at(raw, j))) && (forall|j: int|
                k + canonical_title(raw).len() <= j < raw.len() ==> is_ws(#[trigger] spaced_at(raw, j))),
        forall|i: int| 0 <= i < canonical_title(raw).len() ==> #[trigger] canonical_title(raw)[i] != '_',
        canonical_title(raw).len() > 0 ==> !is_ws(canonical_title(raw)[0]) && !is_ws(
            canonical_title(raw).last(),
        ),
{
    let r = replace_char(raw, '_', ' ');
    let a = trim_start(r);
    lemma_trim_start_cut(r);
    lemma_trim_end_cut(a);
    lemma_trim_start_suffix(r);
    lemma_trim_end_prefix(a);
    let k1 = choose|k: int|
        0 <= k <= r.len() && trim_start(r) == r.skip(k) && forall|j: int| 0 <= j < k ==> is_ws(#[trigger] r[j]);
    let k2 = choose|k: int|
        0 <= k <= a.len() && trim_end(a) == a.take(k) && forall|j: int| k <= j < a.len() ==> is_ws(#[trigger] a[j]);
    let c = canonical_title(raw);
    assert(c == a.take(k2));
    assert forall|i: int| 0 <= i < c.len() implies #[trigger] c[i] == if raw[k1 + i] == '_' {
        ' '
    } else {
        raw[k1 + i]
    } by {
        assert(c[i] == r[k1 + i]);
    }
    assert(stretch_at(c, raw, k1));
    assert forall|j: int| 0 <= j < k1 implies is_ws(#[trigger] spaced_at(raw, j)) by {
        assert(r[j] == spaced_at(raw, j));
    }
    assert forall|j: int| k1 + c.len() <= j < raw.len() implies is_ws(#[trigger] spaced_at(raw, j)) by {
        assert(r[j] == spaced_at(raw, j));
        assert(a[j - k1] == r[j]);
    }
    assert forall|i: int| 0 <= i < c.len() implies #[trigger] c[i] != '_' by {
        assert(c[i] == r[k1 + i]);
    }
    if c.len() > 0 {
        assert(c[0] == a[0]);
    }
}

} // verus!
