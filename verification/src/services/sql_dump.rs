//! The tuple-extraction core shared by the streaming parsers of Wikipedia's
//! MySQL table dumps (`redirect.sql.gz`, `categorylinks.sql.gz`,
//! `geo_tags.sql.gz`).
//!
//! A dump is a sequence of `INSERT INTO `table` VALUES (...),(...);`
//! statements. The scanner handles single-quoted strings with backslash
//! escapes. It works on whatever prefix of the decompressed dump is at hand:
//! a statement is only reported once its terminating `;` has been seen (or
//! the input has ended), and the caller keeps the unconsumed tail to re-scan
//! once more data arrives.

use vstd::prelude::*;

use crate::text::{chars_of, string_of, trim, trim_chars};

verus! {

pub const OPEN_PAREN: u8 = 40;

pub const CLOSE_PAREN: u8 = 41;

pub const COMMA: u8 = 44;

pub const QUOTE: u8 = 39;

pub const BACKSLASH: u8 = 92;

pub const SEMICOLON: u8 = 59;

/// The text `String::from_utf8_lossy` makes of `bytes`.
pub uninterp spec fn utf8_lossy(bytes: Seq<u8>) -> Seq<char>;

/// `String::from_utf8_lossy(bytes).into_owned()`: the bytes decoded as
/// UTF-8, with each invalid sequence replaced by U+FFFD. The contract names
/// the result; for valid UTF-8 it is the plain decoding, as the function's
/// documentation states.
#[verifier::external_body]
fn from_utf8_lossy(bytes: &[u8]) -> (r: String)
    ensures
        r@ == utf8_lossy(bytes@),
        vstd::utf8::valid_utf8(bytes@) ==> r@ == vstd::utf8::decode_utf8(bytes@),
{
    String::from_utf8_lossy(bytes).into_owned()
}

/// The text of a field whose raw bytes are `bytes`: decoded (invalid
/// sequences replaced as `from_utf8_lossy` does), then trimmed.
pub open spec fn field_text(bytes: Seq<u8>) -> Seq<char> {
    if vstd::utf8::valid_utf8(bytes) {
        trim(vstd::utf8::decode_utf8(bytes))
    } else {
        trim(utf8_lossy(bytes))
    }
}

/// Turns the bytes gathered for a field into its text, and empties the
/// buffer for the next field.
pub fn take_field(buf: &mut Vec<u8>) -> (r: String)
    ensures
        r@ == field_text(old(buf)@),
        final(buf)@ == Seq::<u8>::empty(),
{
    let s = from_utf8_lossy(buf.as_slice());
    let cs = chars_of(s.as_str());
    let t = trim_chars(cs.as_slice());
    buf.clear();
    string_of(t.as_slice())
}

/// Whether `needle` occurs in `h` at `i`.
pub open spec fn occurs_at(h: Seq<u8>, needle: Seq<u8>, i: int) -> bool {
    0 <= i && i + needle.len() <= h.len() && h.subrange(i, i + needle.len()) == needle
}

/// Whether `i` is the first position where `needle` occurs in `h`.
pub open spec fn first_occurrence(h: Seq<u8>, needle: Seq<u8>, i: int) -> bool {
    occurs_at(h, needle, i) && forall|j: int| 0 <= j < i ==> !occurs_at(h, needle, j)
}

/// The first position of `needle` in `h`, if it occurs.
pub open spec fn find_spec(h: Seq<u8>, needle: Seq<u8>) -> Option<int> {
    if exists|i: int| first_occurrence(h, needle, i) {
        Some(choose|i: int| first_occurrence(h, needle, i))
    } else {
        None
    }
}

proof fn lemma_first_occurrence_unique(h: Seq<u8>, needle: Seq<u8>, i: int, j: int)
    requires
        first_occurrence(h, needle, i),
        first_occurrence(h, needle, j),
    ensures
        i == j,
{
}

fn matches_at(h: &[u8], needle: &[u8], i: usize) -> (r: bool)
    requires
        i + needle@.len() <= h@.len(),
    ensures
        r == occurs_at(h@, needle@, i as int),
{
    let mut k: usize = 0;
    assert(h@.len() == h.len());
    while k < needle.len()
        invariant
            h@.len() == h.len(),
            i + needle@.len() <= h@.len(),
            k <= needle@.len(),
            forall|j: int| 0 <= j < k ==> h@[i + j] == needle@[j],
        decreases needle@.len() - k,
    {
        if h[i + k] != needle[k] {
            assert(h@.subrange(i as int, i + needle@.len())[k as int] != needle@[k as int]);
            return false;
        }
        k = k + 1;
    }
    assert(h@.subrange(i as int, i + needle@.len()) =~= needle@);
    true
}

/// Position (in `haystack`) of the first occurrence of `needle` (which must
/// not be empty) at or after `from`.
pub fn find_subslice_from(haystack: &[u8], needle: &[u8], from: usize) -> (r: Option<usize>)
    requires
        needle@.len() > 0,
        from <= haystack@.len(),
    ensures
        match r {
            Some(i) => from <= i && find_spec(haystack@.skip(from as int), needle@) == Some(
                i - from,
            ),
            None => find_spec(haystack@.skip(from as int), needle@) is None,
        },
{
    let ghost h = haystack@.skip(from as int);
    if needle.len() > haystack.len() - from {
        assert(forall|i: int| !occurs_at(h, needle@, i));
        return None;
    }
    let mut i: usize = from;
    let last = haystack.len() - needle.len();
    while i <= last
        invariant
            needle@.len() <= haystack@.len() - from,
            needle@.len() > 0,
            haystack@.len() == haystack.len(),
            h == haystack@.skip(from as int),
            last == haystack@.len() - needle@.len(),
            from <= i <= last + 1,
            forall|j: int| 0 <= j < i - from ==> !occurs_at(h, needle@, j),
        decreases haystack@.len() - i,
    {
        if matches_at(haystack, needle, i) {
            proof {
                assert(haystack@.subrange(i as int, i + needle@.len()) =~= h.subrange(
                    i - from,
                    i - from + needle@.len(),
                ));
                assert(first_occurrence(h, needle@, i - from));
                let k = choose|k: int| first_occurrence(h, needle@, k);
                lemma_first_occurrence_unique(h, needle@, i - from, k);
            }
            return Some(i);
        }
        proof {
            assert(haystack@.subrange(i as int, i + needle@.len()) =~= h.subrange(
                i - from,
                i - from + needle@.len(),
            ));
        }
        i = i + 1;
    }
    assert(forall|j: int| !occurs_at(h, needle@, j));
    None
}

/// Position of the first occurrence of `needle` (which must not be empty)
/// in `haystack`.
pub fn find_subslice(haystack: &[u8], needle: &[u8]) -> (r: Option<usize>)
    requires
        needle@.len() > 0,
    ensures
        match r {
            Some(i) => find_spec(haystack@, needle@) == Some(i as int),
            None => find_spec(haystack@, needle@) is None,
        },
{
    assert(haystack@.skip(0) == haystack@);
    find_subslice_from(haystack, needle, 0)
}

/// The longest `k`, no larger than `k0`, such that the last `k` bytes of
/// `buf` are the first `k` bytes of `needle`; 0 if there is none.
pub open spec fn overlap_from(buf: Seq<u8>, needle: Seq<u8>, k0: int) -> int
    decreases k0,
{
    if k0 <= 0 {
        0
    } else if buf.subrange(buf.len() - k0, buf.len() as int) == needle.take(k0) {
        k0
    } else {
        overlap_from(buf, needle, k0 - 1)
    }
}

/// Length of the longest suffix of `buf` that is a proper prefix of
/// `needle`: a partial statement prefix that may complete once more data
/// is appended.
pub open spec fn overlap_spec(buf: Seq<u8>, needle: Seq<u8>) -> int {
    let cap = if needle.len() == 0 {
        0
    } else {
        needle.len() - 1
    };
    overlap_from(buf, needle, if cap < buf.len() {
        cap
    } else {
        buf.len() as int
    })
}

/// Length of the longest suffix of `buf` that is a proper prefix of
/// `needle`.
pub fn prefix_tail_overlap(buf: &[u8], needle: &[u8]) -> (r: usize)
    ensures
        r == overlap_spec(buf@, needle@),
        r <= buf@.len(),
{
    let cap = needle.len().saturating_sub(1);
    let mut k = if cap < buf.len() {
        cap
    } else {
        buf.len()
    };
    let ghost k0 = k as int;
    assert(buf@.len() == buf.len());
    assert(overlap_spec(buf@, needle@) == overlap_from(buf@, needle@, k0));
    while k > 0
        invariant
            buf@.len() == buf.len(),
            k <= buf@.len(),
            k <= needle@.len(),
            overlap_from(buf@, needle@, k0) == overlap_from(buf@, needle@, k as int),
            overlap_spec(buf@, needle@) == overlap_from(buf@, needle@, k0),
        decreases k,
    {
        let start = buf.len() - k;
        let mut j: usize = 0;
        let mut same = true;
        while j < k
            invariant
                buf@.len() == buf.len(),
                k <= buf@.len(),
                k <= needle@.len(),
                start + k == buf@.len(),
                j <= k,
                same == (forall|t: int| 0 <= t < j ==> buf@[start + t] == needle@[t]),
            decreases k - j,
        {
            if buf[start + j] != needle[j] {
                same = false;
            }
            j = j + 1;
        }
        proof {
            if same {
                assert(buf@.subrange(start as int, buf@.len() as int) =~= needle@.take(k as int));
                assert(overlap_from(buf@, needle@, k as int) == k as int);
            } else {
                let t = choose|t: int| 0 <= t < k && buf@[start + t] != needle@[t];
                assert(buf@.subrange(start as int, buf@.len() as int)[t] != needle@.take(k as int)[t]);
            }
        }
        if same {
            return k;
        }
        k = k - 1;
    }
    0
}

/// Reading a tuple body from position `i` of `input`, with the fields
/// completed so far, the bytes of the field being read, and whether the
/// reader is inside a quoted string or just after a backslash in one. The
/// result is the raw bytes of every field and the number of bytes consumed
/// through the closing `)`, or `None` when the input ends first.
pub open spec fn tuple_from(
    input: Seq<u8>,
    i: int,
    fields: Seq<Seq<u8>>,
    current: Seq<u8>,
    in_string: bool,
    escape: bool,
) -> Option<(Seq<Seq<u8>>, int)>
    decreases input.len() - i,
{
    if i < 0 || i >= input.len() {
        None
    } else {
        let b = input[i];
        if escape {
            tuple_from(input, i + 1, fields, current.push(b), in_string, false)
        } else if in_string {
            if b == BACKSLASH {
                tuple_from(input, i + 1, fields, current, in_string, true)
            } else if b == QUOTE {
                tuple_from(input, i + 1, fields, current, false, false)
            } else {
                tuple_from(input, i + 1, fields, current.push(b), in_string, false)
            }
        } else if b == QUOTE {
            tuple_from(input, i + 1, fields, current, true, false)
        } else if b == COMMA {
            tuple_from(input, i + 1, fields.push(current), Seq::empty(), false, false)
        } else if b == CLOSE_PAREN {
            Some((fields.push(current), i + 1))
        } else {
            tuple_from(input, i + 1, fields, current.push(b), false, false)
        }
    }
}

/// The fields of the tuple whose body (after its `(`) starts `input`, and
/// the bytes consumed through its `)`.
pub open spec fn tuple_spec(input: Seq<u8>) -> Option<(Seq<Seq<u8>>, int)> {
    tuple_from(input, 0, Seq::empty(), Seq::empty(), false, false)
}

/// Whether `f` can stand in a tuple unquoted: it holds no quote, comma or
/// closing parenthesis.
pub open spec fn plain_field(f: Seq<u8>) -> bool {
    forall|j: int| 0 <= j < f.len() ==> #[trigger] f[j] != QUOTE && f[j] != COMMA && f[j] != CLOSE_PAREN
}

/// How one byte is written inside a quoted string: a backslash or a quote
/// gets a backslash before it.
pub open spec fn escape_byte(b: u8) -> Seq<u8> {
    if b == BACKSLASH || b == QUOTE {
        seq![BACKSLASH, b]
    } else {
        seq![b]
    }
}

/// `f` written inside a quoted string.
pub open spec fn escape_field(f: Seq<u8>) -> Seq<u8>
    decreases f.len(),
{
    if f.len() == 0 {
        Seq::empty()
    } else {
        escape_byte(f[0]) + escape_field(f.drop_first())
    }
}

/// One field written out: quoted and escaped when `quoted`, else as it is.
pub open spec fn write_field(quoted: bool, f: Seq<u8>) -> Seq<u8> {
    if quoted {
        seq![QUOTE] + escape_field(f) + seq![QUOTE]
    } else {
        f
    }
}

/// A tuple body written out: its fields separated by commas, then `)`.
pub open spec fn write_tuple(fs: Seq<(bool, Seq<u8>)>) -> Seq<u8>
    decreases fs.len(),
{
    if fs.len() <= 1 {
        write_field(fs[0].0, fs[0].1) + seq![CLOSE_PAREN]
    } else {
        write_field(fs[0].0, fs[0].1) + seq![COMMA] + write_tuple(fs.drop_first())
    }
}

/// Whether every unquoted field of `fs` can stand unquoted.
pub open spec fn writable(fs: Seq<(bool, Seq<u8>)>) -> bool {
    forall|k: int| 0 <= k < fs.len() ==> !(#[trigger] fs[k]).0 ==> plain_field(fs[k].1)
}

/// The bytes of the fields of `fs`, in order.
pub open spec fn field_bytes(fs: Seq<(bool, Seq<u8>)>) -> Seq<Seq<u8>> {
    fs.map_values(|p: (bool, Seq<u8>)| p.1)
}

proof fn lemma_read_plain(
    input: Seq<u8>,
    i: int,
    fields: Seq<Seq<u8>>,
    current: Seq<u8>,
    f: Seq<u8>,
)
    requires
        0 <= i,
        i + f.len() <= input.len(),
        input.subrange(i, i + f.len()) == f,
        plain_field(f),
    ensures
        tuple_from(input, i, fields, current, false, false) == tuple_from(
            input,
            i + f.len(),
            fields,
            current + f,
            false,
            false,
        ),
    decreases f.len(),
{
    if f.len() == 0 {
        assert(current + f =~= current);
    } else {
        assert(input[i] == f[0]);
        let t = f.drop_first();
        assert(input.subrange(i + 1, i + 1 + t.len()) =~= t);
        assert(plain_field(t)) by {
            assert forall|j: int| 0 <= j < t.len() implies #[trigger] t[j] != QUOTE && t[j] != COMMA
                && t[j] != CLOSE_PAREN by {
                assert(t[j] == f[j + 1]);
            }
        }
        lemma_read_plain(input, i + 1, fields, current.push(f[0]), t);
        assert(current.push(f[0]) + t =~= current + f);
    }
}

proof fn lemma_read_escaped(
    input: Seq<u8>,
    i: int,
    fields: Seq<Seq<u8>>,
    current: Seq<u8>,
    f: Seq<u8>,
)
    requires
        0 <= i,
        i + escape_field(f).len() <= input.len(),
        input.subrange(i, i + escape_field(f).len()) == escape_field(f),
    ensures
        tuple_from(input, i, fields, current, true, false) == tuple_from(
            input,
            i + escape_field(f).len(),
            fields,
            current + f,
            true,
            false,
        ),
    decreases f.len(),
{
    let e = escape_field(f);
    if f.len() == 0 {
        assert(current + f =~= current);
    } else {
        let h = escape_byte(f[0]);
        let t = f.drop_first();
        let et = escape_field(t);
        assert(e == h + et);
        let i2 = i + h.len();
        assert(input.subrange(i2, i2 + et.len()) =~= e.subrange(h.len() as int, e.len() as int));
        assert(e.subrange(h.len() as int, e.len() as int) =~= et);
        assert(input[i] == input.subrange(i, i + e.len())[0]);
        assert(e[0] == h[0]);
        if f[0] == BACKSLASH || f[0] == QUOTE {
            assert(input[i + 1] == input.subrange(i, i + e.len())[1]);
            assert(e[1] == h[1]);
            assert(tuple_from(input, i, fields, current, true, false) == tuple_from(
                input,
                i + 1,
                fields,
                current,
                true,
                true,
            ));
            assert(tuple_from(input, i + 1, fields, current, true, true) == tuple_from(
                input,
                i + 2,
                fields,
                current.push(f[0]),
                true,
                false,
            ));
        } else {
            assert(tuple_from(input, i, fields, current, true, false) == tuple_from(
                input,
                i + 1,
                fields,
                current.push(f[0]),
                true,
                false,
            ));
        }
        lemma_read_escaped(input, i2, fields, current.push(f[0]), t);
        assert(current.push(f[0]) + t =~= current + f);
    }
}

/// A backslash inside a quoted string escapes the byte after it, whatever
/// that byte is: the escaped byte alone joins the field, and reading goes on
/// inside the string.
pub proof fn law_escape_keeps_the_byte(input: Seq<u8>, i: int, fields: Seq<Seq<u8>>, current: Seq<u8>)
    requires
        0 <= i < input.len(),
    ensures
        tuple_from(input, i, fields, current, true, true) == tuple_from(
            input,
            i + 1,
            fields,
            current.push(input[i]),
            true,
            false,
        ),
{
}

/// `f` written inside a quoted string with a backslash before each byte
/// whose mark is set, and before every backslash and quote.
pub open spec fn escape_marked(f: Seq<u8>, marks: Seq<bool>) -> Seq<u8>
    decreases f.len(),
{
    if f.len() == 0 {
        Seq::empty()
    } else {
        (if marks.len() > 0 && marks[0] || f[0] == BACKSLASH || f[0] == QUOTE {
            seq![BACKSLASH, f[0]]
        } else {
            seq![f[0]]
        }) + escape_marked(f.drop_first(), marks.drop_first())
    }
}

proof fn lemma_read_marked(
    input: Seq<u8>,
    i: int,
    fields: Seq<Seq<u8>>,
    current: Seq<u8>,
    f: Seq<u8>,
    marks: Seq<bool>,
)
    requires
        0 <= i,
        i + escape_marked(f, marks).len() <= input.len(),
        input.subrange(i, i + escape_marked(f, marks).len()) == escape_marked(f, marks),
    ensures
        tuple_from(input, i, fields, current, true, false) == tuple_from(
            input,
            i + escape_marked(f, marks).len(),
            fields,
            current + f,
            true,
            false,
        ),
    decreases f.len(),
{
    let e = escape_marked(f, marks);
    if f.len() == 0 {
        assert(current + f =~= current);
    } else {
        let escaped = marks.len() > 0 && marks[0] || f[0] == BACKSLASH || f[0] == QUOTE;
        let h = if escaped {
            seq![BACKSLASH, f[0]]
        } else {
            seq![f[0]]
        };
        let t = f.drop_first();
        let et = escape_marked(t, marks.drop_first());
        assert(e == h + et);
        let i2 = i + h.len();
        assert(input.subrange(i2, i2 + et.len()) =~= e.subrange(h.len() as int, e.len() as int));
        assert(e.subrange(h.len() as int, e.len() as int) =~= et);
        assert(input[i] == input.subrange(i, i + e.len())[0]);
        assert(e[0] == h[0]);
        if escaped {
            assert(input[i + 1] == input.subrange(i, i + e.len())[1]);
            assert(e[1] == h[1]);
            assert(tuple_from(input, i, fields, current, true, false) == tuple_from(
                input,
                i + 1,
                fields,
                current,
                true,
                true,
            ));
            law_escape_keeps_the_byte(input, i + 1, fields, current);
        } else {
            assert(tuple_from(input, i, fields, current, true, false) == tuple_from(
                input,
                i + 1,
                fields,
                current.push(f[0]),
                true,
                false,
            ));
        }
        lemma_read_marked(input, i2, fields, current.push(f[0]), t, marks.drop_first());
        assert(current.push(f[0]) + t =~= current + f);
    }
}

/// A quoted field reads back as its bytes however many of them the writer
/// chose to escape: each backslash stands for the byte after it alone,
/// whether that byte needed escaping (a backslash or a quote) or not.
pub proof fn law_escaped_field_reads_back(f: Seq<u8>, marks: Seq<bool>, rest: Seq<u8>)
    ensures
        tuple_spec(seq![QUOTE] + escape_marked(f, marks) + seq![QUOTE, CLOSE_PAREN] + rest) == Some(
            (seq![f], escape_marked(f, marks).len() as int + 3),
        ),
{
    let e = escape_marked(f, marks);
    let n = e.len() as int;
    let input = seq![QUOTE] + e + seq![QUOTE, CLOSE_PAREN] + rest;
    let empty = Seq::<Seq<u8>>::empty();
    assert(input[0] == QUOTE);
    assert(tuple_spec(input) == tuple_from(input, 1, empty, Seq::empty(), true, false));
    assert(input.subrange(1, 1 + n) =~= e);
    lemma_read_marked(input, 1, empty, Seq::empty(), f, marks);
    assert(Seq::<u8>::empty() + f =~= f);
    assert(input[1 + n] == QUOTE);
    assert(input[2 + n] == CLOSE_PAREN);
    assert(tuple_from(input, 1 + n, empty, f, true, false) == tuple_from(
        input,
        2 + n,
        empty,
        f,
        false,
        false,
    ));
    assert(empty.push(f) =~= seq![f]);
}

/// Reading the fields written by `write_tuple(fs)` at position `i`, with the
/// fields `fields` read before, gives those fields and then the fields of
/// `fs`, having consumed the whole written tuple.
proof fn lemma_read_written(input: Seq<u8>, i: int, fields: Seq<Seq<u8>>, fs: Seq<(bool, Seq<u8>)>)
    requires
        fs.len() >= 1,
        writable(fs),
        0 <= i,
        i + write_tuple(fs).len() <= input.len(),
        input.subrange(i, i + write_tuple(fs).len()) == write_tuple(fs),
    ensures
        tuple_from(input, i, fields, Seq::empty(), false, false) == Some(
            (fields + field_bytes(fs), i + write_tuple(fs).len()),
        ),
    decreases fs.len(),
{
    let w = write_tuple(fs);
    let (quoted, f) = fs[0];
    let wf = write_field(quoted, f);
    assert(!quoted ==> plain_field(f)) by {
        assert(!fs[0].0 ==> plain_field(fs[0].1));
    }
    assert(w.subrange(0, wf.len() as int) =~= wf);
    assert(input.subrange(i, i + wf.len()) =~= w.subrange(0, wf.len() as int));
    let j = i + wf.len();
    if quoted {
        let ef = escape_field(f);
        assert(wf =~= seq![QUOTE] + ef + seq![QUOTE]);
        assert(input[i] == input.subrange(i, i + wf.len())[0]);
        assert(input.subrange(i + 1, i + 1 + ef.len()) =~= input.subrange(i, i + wf.len()).subrange(
            1,
            1 + ef.len() as int,
        ));
        assert(wf.subrange(1, 1 + ef.len() as int) =~= ef);
        lemma_read_escaped(input, i + 1, fields, Seq::empty(), f);
        assert(input[i + 1 + ef.len()] == input.subrange(i, i + wf.len())[1 + ef.len() as int]);
        assert(Seq::<u8>::empty() + f =~= f);
    } else {
        lemma_read_plain(input, i, fields, Seq::empty(), f);
        assert(Seq::<u8>::empty() + f =~= f);
    }
    assert(tuple_from(input, i, fields, Seq::empty(), false, false) == tuple_from(
        input,
        j,
        fields,
        f,
        false,
        false,
    ));
    assert(input[j] == w[wf.len() as int]);
    if fs.len() <= 1 {
        assert(w[wf.len() as int] == CLOSE_PAREN);
        assert(field_bytes(fs) =~= seq![f]);
        assert(fields.push(f) =~= fields + seq![f]);
    } else {
        let rest = fs.drop_first();
        let wr = write_tuple(rest);
        assert(w == wf + seq![COMMA] + wr);
        assert(w[wf.len() as int] == COMMA);
        assert(writable(rest)) by {
            assert forall|k: int| 0 <= k < rest.len() implies !(#[trigger] rest[k]).0 ==> plain_field(
                rest[k].1,
            ) by {
                assert(rest[k] == fs[k + 1]);
            }
        }
        assert(input.subrange(j + 1, j + 1 + wr.len()) =~= w.subrange(wf.len() as int + 1, w.len() as int));
        assert(w.subrange(wf.len() as int + 1, w.len() as int) =~= wr);
        lemma_read_written(input, j + 1, fields.push(f), rest);
        assert(field_bytes(fs) =~= seq![f] + field_bytes(rest));
        assert(fields.push(f) + field_bytes(rest) =~= fields + field_bytes(fs));
    }
}

/// A tuple written in SQL syntax reads back as its fields: with each field
/// either quoted (a backslash before every backslash and quote inside it)
/// or, when it holds no quote, comma or `)`, left bare, the reader gives
/// exactly the fields' bytes, and consumes the written tuple through its
/// `)`, whatever follows it.
pub proof fn law_written_tuple_reads_back(fs: Seq<(bool, Seq<u8>)>, rest: Seq<u8>)
    requires
        fs.len() >= 1,
        writable(fs),
    ensures
        tuple_spec(write_tuple(fs) + rest) == Some((field_bytes(fs), write_tuple(fs).len() as int)),
{
    let input = write_tuple(fs) + rest;
    assert(input.subrange(0, write_tuple(fs).len() as int) =~= write_tuple(fs));
    lemma_read_written(input, 0, Seq::empty(), fs);
    assert(Seq::<Seq<u8>>::empty() + field_bytes(fs) =~= field_bytes(fs));
}

pub proof fn lemma_tuple_from_bounds(
    input: Seq<u8>,
    i: int,
    fields: Seq<Seq<u8>>,
    current: Seq<u8>,
    in_string: bool,
    escape: bool,
)
    requires
        0 <= i,
    ensures
        tuple_from(input, i, fields, current, in_string, escape) matches Some((_, n)) ==> i < n
            <= input.len(),
    decreases input.len() - i,
{
    if i < input.len() {
        let b = input[i];
        if escape {
            lemma_tuple_from_bounds(input, i + 1, fields, current.push(b), in_string, false);
        } else if in_string {
            if b == BACKSLASH {
                lemma_tuple_from_bounds(input, i + 1, fields, current, in_string, true);
            } else if b == QUOTE {
                lemma_tuple_from_bounds(input, i + 1, fields, current, false, false);
            } else {
                lemma_tuple_from_bounds(input, i + 1, fields, current.push(b), in_string, false);
            }
        } else if b == QUOTE {
            lemma_tuple_from_bounds(input, i + 1, fields, current, true, false);
        } else if b == COMMA {
            lemma_tuple_from_bounds(input, i + 1, fields.push(current), Seq::empty(), false, false);
        } else if b == CLOSE_PAREN {
        } else {
            lemma_tuple_from_bounds(input, i + 1, fields, current.push(b), false, false);
        }
    }
}

/// Whether the strings `texts` are the texts of the raw fields `raw`.
pub open spec fn texts_of(texts: Seq<String>, raw: Seq<Seq<u8>>) -> bool {
    &&& texts.len() == raw.len()
    &&& forall|k: int| 0 <= k < raw.len() ==> (#[trigger] texts[k])@ == field_text(raw[k])
}

/// Reads one `(...)` tuple whose body starts at `start` in `input` (just
/// after its `(`): its field texts and the bytes consumed through the
/// closing `)`, or `None` when `input` ends first.
pub fn parse_tuple_at(input: &[u8], start: usize) -> (r: Option<(Vec<String>, usize)>)
    requires
        start <= input@.len(),
    ensures
        match tuple_spec(input@.skip(start as int)) {
            None => r is None,
            Some((raw, n)) => r matches Some((fs, m)) && m == n && texts_of(fs@, raw),
        },
{
    let ghost s = input@.skip(start as int);
    let mut fields: Vec<String> = Vec::new();
    let mut current: Vec<u8> = Vec::new();
    let mut in_string = false;
    let mut escape = false;
    let mut i: usize = start;
    let ghost mut raw: Seq<Seq<u8>> = Seq::empty();
    while i < input.len()
        invariant
            start <= i <= input@.len(),
            s == input@.skip(start as int),
            texts_of(fields@, raw),
            tuple_spec(s) == tuple_from(s, i - start, raw, current@, in_string, escape),
        decreases input@.len() - i,
    {
        let b = input[i];
        assert(s[i - start] == b);
        i = i + 1;
        if escape {
            current.push(b);
            escape = false;
            continue ;
        }
        if in_string {
            if b == BACKSLASH {
                escape = true;
            } else if b == QUOTE {
                in_string = false;
            } else {
                current.push(b);
            }
            continue ;
        }
        if b == QUOTE {
            in_string = true;
        } else if b == COMMA {
            let ghost cur = current@;
            let f = take_field(&mut current);
            fields.push(f);
            proof {
                raw = raw.push(cur);
            }
        } else if b == CLOSE_PAREN {
            let ghost cur = current@;
            let f = take_field(&mut current);
            fields.push(f);
            proof {
                raw = raw.push(cur);
            }
            return Some((fields, i - start));
        } else {
            current.push(b);
        }
    }
    None
}

/// Reads one `(...)` tuple from the front of `input` (just after its `(`):
/// its field texts and the bytes consumed through the closing `)`, or
/// `None` when `input` ends first.
pub fn parse_tuple(input: &[u8]) -> (r: Option<(Vec<String>, usize)>)
    ensures
        match tuple_spec(input@) {
            None => r is None,
            Some((raw, n)) => r matches Some((fs, m)) && m == n && texts_of(fs@, raw),
        },
{
    assert(input@.skip(0) == input@);
    parse_tuple_at(input, 0)
}

/// How a statement ends when scanned from position `i`: `Some((end,
/// tuples))` with the position just past it and the raw fields of each of
/// its tuples, or `None` when more input is needed to see its end.
pub open spec fn stmt_from(buf: Seq<u8>, i: int, eof: bool) -> Option<(int, Seq<Seq<Seq<u8>>>)>
    decreases buf.len() - i,
{
    if i < 0 {
        None
    } else if i >= buf.len() {
        if eof {
            Some((buf.len() as int, Seq::empty()))
        } else {
            None
        }
    } else if buf[i] == SEMICOLON {
        Some((i + 1, Seq::empty()))
    } else if buf[i] != OPEN_PAREN {
        stmt_from(buf, i + 1, eof)
    } else {
        match tuple_spec(buf.skip(i + 1)) {
            None => if eof {
                Some((buf.len() as int, Seq::empty()))
            } else {
                None
            },
            Some((fields, n)) => {
                proof {
                    lemma_tuple_from_bounds(buf.skip(i + 1), 0, Seq::empty(), Seq::empty(), false, false);
                }
                match stmt_from(buf, i + 1 + n, eof) {
                    None => None,
                    Some((end, rest)) => Some((end, seq![fields] + rest)),
                }
            },
        }
    }
}

/// Scanning `buf` from `pos` for statements starting with `prefix`: the raw
/// fields of every tuple of every complete statement, in order, and how
/// many leading bytes of `buf` are fully processed.
pub open spec fn scan_from(buf: Seq<u8>, pos: int, eof: bool, prefix: Seq<u8>) -> (Seq<Seq<Seq<u8>>>, int)
    decreases buf.len() - pos,
{
    if pos < 0 || pos > buf.len() || prefix.len() == 0 {
        (Seq::empty(), buf.len() as int)
    } else {
        match find_spec(buf.skip(pos), prefix) {
            None => (Seq::empty(), buf.len() - if eof {
                0
            } else {
                overlap_spec(buf, prefix)
            }),
            Some(rel) => {
                let start = pos + rel;
                match stmt_from(buf, start + prefix.len(), eof) {
                    None => (Seq::empty(), start),
                    Some((end, tuples)) => {
                        proof {
                            lemma_stmt_end(buf, start + prefix.len(), eof);
                        }
                        let (more, consumed) = scan_from(buf, end, eof, prefix);
                        (tuples + more, consumed)
                    },
                }
            },
        }
    }
}

/// The values of a statement written out: each tuple in parentheses, the
/// tuples separated by commas, then `;`.
pub open spec fn write_values(ts: Seq<Seq<(bool, Seq<u8>)>>) -> Seq<u8>
    decreases ts.len(),
{
    if ts.len() == 0 {
        seq![SEMICOLON]
    } else if ts.len() == 1 {
        seq![OPEN_PAREN] + write_tuple(ts[0]) + seq![SEMICOLON]
    } else {
        seq![OPEN_PAREN] + write_tuple(ts[0]) + seq![COMMA] + write_values(ts.drop_first())
    }
}

/// Whether every tuple of `ts` has a field and can be written.
pub open spec fn all_writable(ts: Seq<Seq<(bool, Seq<u8>)>>) -> bool {
    forall|k: int| 0 <= k < ts.len() ==> (#[trigger] ts[k]).len() >= 1 && writable(ts[k])
}

/// The field bytes of each tuple of `ts`, in order.
pub open spec fn tuple_bytes(ts: Seq<Seq<(bool, Seq<u8>)>>) -> Seq<Seq<Seq<u8>>> {
    ts.map_values(|t: Seq<(bool, Seq<u8>)>| field_bytes(t))
}

proof fn lemma_stmt_written(buf: Seq<u8>, i: int, eof: bool, ts: Seq<Seq<(bool, Seq<u8>)>>)
    requires
        all_writable(ts),
        0 <= i,
        i + write_values(ts).len() <= buf.len(),
        buf.subrange(i, i + write_values(ts).len()) == write_values(ts),
    ensures
        stmt_from(buf, i, eof) == Some((i + write_values(ts).len(), tuple_bytes(ts))),
    decreases ts.len(),
{
    let w = write_values(ts);
    assert(buf[i] == buf.subrange(i, i + w.len())[0]);
    if ts.len() == 0 {
        assert(tuple_bytes(ts) =~= Seq::<Seq<Seq<u8>>>::empty());
    } else {
        let t0 = ts[0];
        assert(t0.len() >= 1 && writable(t0));
        let wt = write_tuple(t0);
        let j = i + 1 + wt.len();
        assert(buf.subrange(i + 1, j) =~= buf.subrange(i, i + w.len()).subrange(1, 1 + wt.len() as int));
        assert(w.subrange(1, 1 + wt.len() as int) =~= wt);
        assert(buf.skip(i + 1) =~= wt + buf.skip(j));
        law_written_tuple_reads_back(t0, buf.skip(j));
        assert(tuple_spec(buf.skip(i + 1)) == Some((field_bytes(t0), wt.len() as int)));
        assert(buf[j] == buf.subrange(i, i + w.len())[1 + wt.len() as int]);
        if ts.len() == 1 {
            assert(w[1 + wt.len() as int] == SEMICOLON);
            assert(stmt_from(buf, j, eof) == Some((j + 1, Seq::<Seq<Seq<u8>>>::empty())));
            assert(tuple_bytes(ts) =~= seq![field_bytes(t0)] + Seq::<Seq<Seq<u8>>>::empty());
        } else {
            let rest = ts.drop_first();
            let wr = write_values(rest);
            assert(w == seq![OPEN_PAREN] + wt + seq![COMMA] + wr);
            assert(w[1 + wt.len() as int] == COMMA);
            assert(all_writable(rest)) by {
                assert forall|k: int| 0 <= k < rest.len() implies (#[trigger] rest[k]).len() >= 1
                    && writable(rest[k]) by {
                    assert(rest[k] == ts[k + 1]);
                }
            }
            assert(buf.subrange(j + 1, j + 1 + wr.len()) =~= buf.subrange(i, i + w.len()).subrange(
                2 + wt.len() as int,
                w.len() as int,
            ));
            assert(w.subrange(2 + wt.len() as int, w.len() as int) =~= wr);
            lemma_stmt_written(buf, j + 1, eof, rest);
            assert(stmt_from(buf, j, eof) == stmt_from(buf, j + 1, eof));
            assert(tuple_bytes(ts) =~= seq![field_bytes(t0)] + tuple_bytes(rest));
        }
    }
}

/// A statement written in SQL syntax scans back as its tuples: the prefix,
/// then tuples written as `write_values` lays them out, gives the fields of
/// every tuple, in order, whether or not more input may follow.
pub proof fn law_written_statement_scans(prefix: Seq<u8>, ts: Seq<Seq<(bool, Seq<u8>)>>, eof: bool)
    requires
        prefix.len() > 0,
        all_writable(ts),
    ensures
        scan_spec(prefix + write_values(ts), eof, prefix).0 == tuple_bytes(ts),
{
    let buf = prefix + write_values(ts);
    assert(buf.skip(0) =~= buf);
    assert(buf.subrange(0, prefix.len() as int) =~= prefix);
    assert(first_occurrence(buf, prefix, 0));
    assert(find_spec(buf.skip(0), prefix) == Some(0int)) by {
        let c = choose|i: int| first_occurrence(buf, prefix, i);
        lemma_first_occurrence_unique(buf, prefix, c, 0);
    }
    assert(buf.subrange(prefix.len() as int, buf.len() as int) =~= write_values(ts));
    lemma_stmt_written(buf, prefix.len() as int, eof, ts);
    let end = buf.len() as int;
    assert(find_spec(buf.skip(end), prefix) is None) by {
        if exists|i: int| first_occurrence(buf.skip(end), prefix, i) {
            let c = choose|i: int| first_occurrence(buf.skip(end), prefix, i);
            assert(buf.skip(end).len() == 0);
        }
    }
    let tail = scan_from(buf, end, eof, prefix);
    assert(tail.0 =~= Seq::<Seq<Seq<u8>>>::empty());
    assert(stmt_from(buf, 0int + prefix.len(), eof) == Some((end, tuple_bytes(ts))));
    assert(scan_from(buf, 0, eof, prefix) == (tuple_bytes(ts) + tail.0, tail.1));
    assert(tuple_bytes(ts) + Seq::<Seq<Seq<u8>>>::empty() =~= tuple_bytes(ts));
}

pub proof fn lemma_stmt_end(buf: Seq<u8>, i: int, eof: bool)
    requires
        0 <= i <= buf.len(),
    ensures
        stmt_from(buf, i, eof) matches Some((end, _)) ==> i <= end <= buf.len() && (i < buf.len()
            ==> i < end),
    decreases buf.len() - i,
{
    if i < buf.len() && buf[i] != SEMICOLON {
        if buf[i] != OPEN_PAREN {
            lemma_stmt_end(buf, i + 1, eof);
        } else {
            lemma_tuple_from_bounds(buf.skip(i + 1), 0, Seq::empty(), Seq::empty(), false, false);
            if let Some((fields, n)) = tuple_spec(buf.skip(i + 1)) {
                lemma_stmt_end(buf, i + 1 + n, eof);
            }
        }
    }
}

/// The outcome of scanning a whole buffer.
pub open spec fn scan_spec(buf: Seq<u8>, eof: bool, prefix: Seq<u8>) -> (Seq<Seq<Seq<u8>>>, int) {
    scan_from(buf, 0, eof, prefix)
}

/// Whether `out` holds, in order, the field texts of the tuples `raw`.
pub open spec fn tuples_of(out: Seq<Vec<String>>, raw: Seq<Seq<Seq<u8>>>) -> bool {
    &&& out.len() == raw.len()
    &&& forall|k: int| 0 <= k < raw.len() ==> texts_of((#[trigger] out[k])@, raw[k])
}

/// `r` with the tuples `acc` put in front of its tuples.
pub open spec fn with_tuples_before(
    acc: Seq<Seq<Seq<u8>>>,
    r: Option<(int, Seq<Seq<Seq<u8>>>)>,
) -> Option<(int, Seq<Seq<Seq<u8>>>)> {
    match r {
        None => None,
        Some((end, rest)) => Some((end, acc + rest)),
    }
}

/// Scans the statement body that starts at `i`: the position just past the
/// statement and the fields of its tuples, or `None` when more input is
/// needed to see its end.
pub fn scan_statement(buf: &[u8], i: usize, eof: bool) -> (r: Option<(usize, Vec<Vec<String>>)>)
    requires
        i <= buf@.len(),
    ensures
        match stmt_from(buf@, i as int, eof) {
            None => r is None,
            Some((end, raw)) => r matches Some((e, ts)) && e == end && tuples_of(ts@, raw),
        },
{
    let mut tuples: Vec<Vec<String>> = Vec::new();
    let ghost mut acc: Seq<Seq<Seq<u8>>> = Seq::empty();
    let mut j: usize = i;
    assert(acc + Seq::<Seq<Seq<u8>>>::empty() =~= acc);
    loop
        invariant
            i <= j <= buf@.len(),
            tuples_of(tuples@, acc),
            stmt_from(buf@, i as int, eof) == with_tuples_before(acc, stmt_from(buf@, j as int, eof)),
        decreases buf@.len() - j,
    {
        if j >= buf.len() {
            if eof {
                assert(acc + Seq::<Seq<Seq<u8>>>::empty() =~= acc);
                return Some((buf.len(), tuples));
            }
            return None;
        }
        if buf[j] == SEMICOLON {
            assert(acc + Seq::<Seq<Seq<u8>>>::empty() =~= acc);
            return Some((j + 1, tuples));
        }
        if buf[j] != OPEN_PAREN {
            j = j + 1;
        } else {
            match parse_tuple_at(buf, j + 1) {
                None => {
                    if eof {
                        assert(acc + Seq::<Seq<Seq<u8>>>::empty() =~= acc);
                        return Some((buf.len(), tuples));
                    }
                    return None;
                },
                Some((fields, n)) => {
                    let ghost raw = (tuple_spec(buf@.skip(j + 1))->0).0;
                    proof {
                        lemma_tuple_from_bounds(buf@.skip(j + 1), 0, Seq::empty(), Seq::empty(), false, false);
                        let r = stmt_from(buf@, j + 1 + n, eof);
                        match r {
                            None => {},
                            Some((end, rest)) => {
                                assert(acc + (seq![raw] + rest) =~= acc.push(raw) + rest);
                            },
                        }
                        acc = acc.push(raw);
                    }
                    tuples.push(fields);
                    j = j + 1 + n;
                },
            }
        }
    }
}

/// Scans `buf` for complete statements that start with `prefix` (which must
/// not be empty): the field texts of every tuple of every complete
/// statement, in order, and how many leading bytes are fully processed. The
/// bytes from that count on are an incomplete trailing statement or a
/// partial prefix, to be scanned again once more data is appended; with
/// `eof` set everything is consumed.
pub fn scan_insert_statements(buf: &[u8], eof: bool, prefix: &[u8]) -> (r: (Vec<Vec<String>>, usize))
    requires
        prefix@.len() > 0,
    ensures
        tuples_of(r.0@, scan_spec(buf@, eof, prefix@).0),
        r.1 == scan_spec(buf@, eof, prefix@).1,
        r.1 <= buf@.len(),
{
    let mut out: Vec<Vec<String>> = Vec::new();
    let ghost mut done: Seq<Seq<Seq<u8>>> = Seq::empty();
    let mut pos: usize = 0;
    loop
        invariant
            prefix@.len() > 0,
            pos <= buf@.len(),
            tuples_of(out@, done),
            scan_spec(buf@, eof, prefix@).0 == done + scan_from(buf@, pos as int, eof, prefix@).0,
            scan_spec(buf@, eof, prefix@).1 == scan_from(buf@, pos as int, eof, prefix@).1,
        decreases buf@.len() - pos,
    {
        match find_subslice_from(buf, prefix, pos) {
            None => {
                let keep = if eof {
                    0
                } else {
                    prefix_tail_overlap(buf, prefix)
                };
                assert(done + Seq::<Seq<Seq<u8>>>::empty() =~= done);
                return (out, buf.len() - keep);
            },
            Some(start) => {
                proof {
                    let rel = start - pos;
                    assert(occurs_at(buf@.skip(pos as int), prefix@, rel));
                    assert(start + prefix@.len() <= buf@.len());
                    assert(buf@.len() == buf.len());
                }
                match scan_statement(buf, start + prefix.len(), eof) {
                    None => {
                        assert(done + Seq::<Seq<Seq<u8>>>::empty() =~= done);
                        return (out, start);
                    },
                    Some((end, tuples)) => {
                        let ghost raw = (stmt_from(buf@, start + prefix@.len(), eof)->0).1;
                        proof {
                            lemma_stmt_end(buf@, start + prefix@.len(), eof);
                            let more = scan_from(buf@, end as int, eof, prefix@).0;
                            assert(done + (raw + more) =~= (done + raw) + more);
                        }
                        let mut ts = tuples;
                        let ghost before = out@;
                        out.append(&mut ts);
                        proof {
                            assert forall|k: int| 0 <= k < done.len() + raw.len() implies texts_of(
                                (#[trigger] out@[k])@,
                                (done + raw)[k],
                            ) by {
                                if k < done.len() {
                                    assert(out@[k] == before[k]);
                                } else {
                                    assert(out@[k] == tuples@[k - done.len()]);
                                }
                            }
                            done = done + raw;
                        }
                        pos = end;
                    },
                }
            },
        }
    }
}

} // verus!
