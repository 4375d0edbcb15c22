//! Rows of Wikipedia's `redirect.sql.gz` dump.
//!
//! Columns, in order: `rd_from, rd_namespace, rd_title, rd_interwiki,
//! rd_fragment`. Only main-namespace (`rd_namespace == 0`) local
//! (`rd_interwiki` empty) redirects are kept; underscores in titles become
//! spaces.

use vstd::prelude::*;
use vstd::string::StringSliceAdditionalSpecFns;

use crate::error::TomeError;
use crate::services::sql_dump::{scan_insert_statements, scan_spec, texts_of, tuples_of, field_text, SEMICOLON};
use crate::services::sql_resume::{join_chunks, law_scan_resumes};
use crate::text::{chars_of, parse_u64_chars, parse_u64_spec, replace_char, replace_chars, string_of, trim, trim_chars};

verus! {

/// The statement prefix of the redirect table.
pub const INSERT_PREFIX: &'static str = "INSERT INTO `redirect` VALUES ";

/// One local main-namespace redirect.
#[derive(Debug, PartialEq, Eq)]
pub struct Redirect {
    pub from_page_id: u64,
    pub target_title: String,
}

/// Whether `s` reads as the integer zero for `i64::from_str`: an optional
/// sign followed by one or more `'0'`s.
pub open spec fn reads_as_zero(s: Seq<char>) -> bool {
    sign_stripped(s).len() > 0 && all_zero(sign_stripped(s))
}

/// `s` without an optional leading sign.
pub open spec fn sign_stripped(s: Seq<char>) -> Seq<char> {
    if s.len() > 0 && (s[0] == '+' || s[0] == '-') {
        s.drop_first()
    } else {
        s
    }
}

/// Whether every character of `s` is `'0'`.
pub open spec fn all_zero(s: Seq<char>) -> bool {
    forall|i: int| 0 <= i < s.len() ==> #[trigger] s[i] == '0'
}

/// Whether `s` reads as the integer zero for `i64::from_str`.
pub fn is_zero_integer(s: &str) -> (r: bool)
    ensures
        r == reads_as_zero(s@),
{
    let cs = chars_of(s);
    let mut start: usize = 0;
    if cs.len() > 0 && (cs[0] == '+' || cs[0] == '-') {
        start = 1;
    }
    let ghost body = cs@.skip(start as int);
    assert(body == (if s@.len() > 0 && (s@[0] == '+' || s@[0] == '-') {
        s@.drop_first()
    } else {
        s@
    }));
    if start >= cs.len() {
        return false;
    }
    let mut i = start;
    while i < cs.len()
        invariant
            start <= i <= cs@.len(),
            body == cs@.skip(start as int),
            body == (if s@.len() > 0 && (s@[0] == '+' || s@[0] == '-') {
                s@.drop_first()
            } else {
                s@
            }),
            forall|j: int| 0 <= j < i - start ==> body[j] == '0',
        decreases cs@.len() - i,
    {
        if cs[i] != '0' {
            assert(body[i - start] != '0');
            assert(!all_zero(body));
            return false;
        }
        i = i + 1;
    }
    true
}

/// The redirect a row with field texts `f` stands for, as its source page
/// id and target title, or `None` when the row is skipped.
pub open spec fn redirect_of(f: Seq<Seq<char>>) -> Option<(u64, Seq<char>)> {
    if f.len() < 4 {
        None
    } else {
        match parse_u64_spec(f[0]) {
            None => None,
            Some(from) => if !reads_as_zero(f[1]) || f[3].len() != 0 {
                None
            } else {
                let target = trim(replace_char(f[2], '_', ' '));
                if target.len() == 0 {
                    None
                } else {
                    Some((from, target))
                }
            },
        }
    }
}

/// The texts of a row of strings.
pub open spec fn row_texts(fields: Seq<String>) -> Seq<Seq<char>> {
    fields.map_values(|s: String| s@)
}

/// The redirect a row stands for, if it is kept.
pub fn fields_to_redirect(fields: &[String]) -> (r: Option<Redirect>)
    ensures
        match redirect_of(row_texts(fields@)) {
            None => r is None,
            Some((from, target)) => r matches Some(x) && x.from_page_id == from && x.target_title@
                == target,
        },
{
    if fields.len() < 4 {
        return None;
    }
    let f0 = chars_of(fields[0].as_str());
    let from_page_id = match parse_u64_chars(f0.as_slice()) {
        Some(v) => v,
        None => return None,
    };
    if !is_zero_integer(fields[1].as_str()) {
        return None;
    }
    if fields[3].as_str().is_empty() == false {
        return None;
    }
    let f2 = chars_of(fields[2].as_str());
    let spaced = replace_chars(f2.as_slice(), '_', ' ');
    let target = trim_chars(spaced.as_slice());
    if target.len() == 0 {
        return None;
    }
    Some(Redirect { from_page_id, target_title: string_of(target.as_slice()) })
}

/// The redirects, in order, of the tuples `raw`.
pub open spec fn redirects_of(raw: Seq<Seq<Seq<u8>>>) -> Seq<(u64, Seq<char>)>
    decreases raw.len(),
{
    if raw.len() == 0 {
        Seq::empty()
    } else {
        let init = redirects_of(raw.drop_last());
        match redirect_of(raw.last().map_values(|b: Seq<u8>| field_text(b))) {
            None => init,
            Some(x) => init.push(x),
        }
    }
}

/// The views of a list of redirects.
pub open spec fn redirect_views(rs: Seq<Redirect>) -> Seq<(u64, Seq<char>)> {
    rs.map_values(|r: Redirect| (r.from_page_id, r.target_title@))
}

proof fn lemma_prefix_nonempty()
    ensures
        vstd::utf8::encode_utf8(INSERT_PREFIX@).len() > 0,
{
    reveal_strlit("INSERT INTO `redirect` VALUES ");
    assert(vstd::string::is_ascii(INSERT_PREFIX));
}

/// The redirects of every complete statement in `buf`, in order, and how
/// many leading bytes are fully processed (see the scanner).
pub fn parse_buf(buf: &[u8], eof: bool) -> (r: (Vec<Redirect>, usize))
    ensures
        redirect_views(r.0@) == redirects_of(scan_spec(buf@, eof, vstd::utf8::encode_utf8(INSERT_PREFIX@)).0),
        r.1 == scan_spec(buf@, eof, vstd::utf8::encode_utf8(INSERT_PREFIX@)).1,
        r.1 <= buf@.len(),
{
    proof {
        lemma_prefix_nonempty();
    }
    let prefix = INSERT_PREFIX.as_bytes();
    let (tuples, consumed) = scan_insert_statements(buf, eof, prefix);
    let ghost raw = scan_spec(buf@, eof, prefix@).0;
    let mut out: Vec<Redirect> = Vec::new();
    let mut i: usize = 0;
    while i < tuples.len()
        invariant
            i <= tuples@.len(),
            tuples_of(tuples@, raw),
            redirect_views(out@) == redirects_of(raw.take(i as int)),
        decreases tuples@.len() - i,
    {
        let row = &tuples[i];
        proof {
            assert(texts_of(row@, raw[i as int]));
            assert(row_texts(row@) =~= raw[i as int].map_values(|b: Seq<u8>| field_text(b)));
            assert(raw.take(i + 1).drop_last() == raw.take(i as int));
            assert(raw.take(i + 1).last() == raw[i as int]);
        }
        match fields_to_redirect(row.as_slice()) {
            Some(x) => {
                out.push(x);
                proof {
                    assert(redirect_views(out@) =~= redirect_views(out@.drop_last()).push(
                        (out@.last().from_page_id, out@.last().target_title@),
                    ));
                }
            },
            None => {},
        }
        i = i + 1;
    }
    assert(raw.take(tuples@.len() as int) == raw);
    (out, consumed)
}

/// Whether `f` was called with a redirect whose view is `v` and returned:
/// the closure's own postcondition holds of that call.
pub open spec fn handed_redirect<F: FnMut(Redirect)>(f: F, v: (u64, Seq<char>)) -> bool {
    exists|x: Redirect| (x.from_page_id, x.target_title@) == v && #[trigger] call_ensures(f, (x,), ())
}

/// Parses a complete in-memory dump text, handing each redirect to
/// `on_redirect` in order; returns how many there were.
pub fn parse_str<F: FnMut(Redirect)>(content: &str, mut on_redirect: F) -> (r: Result<u64, TomeError>)
    requires
        forall|x: Redirect| call_requires(on_redirect, (x,)),
    ensures
        ({
            let found = redirects_of(
                scan_spec(vstd::utf8::encode_utf8(content@), true, vstd::utf8::encode_utf8(INSERT_PREFIX@)).0,
            );
            &&& r matches Ok(n) && n == found.len()
            &&& forall|i: int| 0 <= i < found.len() ==> handed_redirect(on_redirect, #[trigger] found[i])
        }),
{
    let (rows, _) = parse_buf(content.as_bytes(), true);
    let ghost found = redirect_views(rows@);
    let ghost f0 = on_redirect;
    let mut rest = rows;
    let mut count: usize = 0;
    let ghost n = rest@.len();
    assert(n == rest.len());
    assert(redirect_views(rest@) =~= found.skip(0));
    while rest.len() > 0
        invariant
            forall|x: Redirect| call_requires(f0, (x,)),
            count + rest@.len() == n,
            n == found.len(),
            n <= usize::MAX,
            on_redirect == f0,
            redirect_views(rest@) == found.skip(count as int),
            forall|i: int| 0 <= i < count ==> handed_redirect(f0, #[trigger] found[i]),
        decreases rest@.len(),
    {
        let ghost before = rest@;
        let x = rest.remove(0);
        proof {
            assert(found[count as int] == redirect_views(before)[0]);
        }
        on_redirect(x);
        proof {
            assert(call_ensures(f0, (x,), ()));
            assert(handed_redirect(f0, found[count as int]));
            assert(rest@ =~= before.skip(1));
            assert forall|j: int| 0 <= j < rest@.len() implies redirect_views(rest@)[j] == found.skip(
                count + 1,
            )[j] by {
                assert(rest@[j] == before[j + 1]);
                assert(redirect_views(before)[j + 1] == found.skip(count as int)[j + 1]);
            }
            assert(redirect_views(rest@) =~= found.skip(count + 1));
        }
        count = count + 1;
    }
    Ok(count as u64)
}

proof fn lemma_prefix_has_no_semicolon()
    ensures
        !vstd::utf8::encode_utf8(INSERT_PREFIX@).contains(SEMICOLON),
{
    broadcast use vstd::string::group_string_axioms;

    reveal_strlit("INSERT INTO `redirect` VALUES ");
    assert(vstd::string::is_ascii(INSERT_PREFIX));
    let bytes = vstd::utf8::encode_utf8(INSERT_PREFIX@);
    assert(INSERT_PREFIX.spec_bytes() == bytes);
    assert(INSERT_PREFIX@ == "INSERT INTO `redirect` VALUES "@);
    assert forall|i: int| 0 <= i < INSERT_PREFIX@.len() implies "INSERT INTO `redirect` VALUES "@[i]
        != ';' by {}
    assert forall|i: int| 0 <= i < bytes.len() implies bytes[i] != SEMICOLON by {
        let c = INSERT_PREFIX@[i];
        assert(c != ';');
        assert(bytes[i] == c as u8);
        assert((c as u32) < 128);
    }
}

/// The redirects that reading the dump in `chunks`, one after another, keeps,
/// starting with the retained bytes `pending`: each time a chunk is
/// appended, the buffer is parsed without `eof`, its redirects are taken
/// and its processed bytes dropped; at the end the rest is parsed with
/// `eof`. This is how the file ingest drives [`parse_buf`].
pub open spec fn stream_redirects(pending: Seq<u8>, chunks: Seq<Seq<u8>>) -> Seq<(u64, Seq<char>)>
    decreases chunks.len(),
{
    let pre = vstd::utf8::encode_utf8(INSERT_PREFIX@);
    if chunks.len() == 0 {
        redirects_of(scan_spec(pending, true, pre).0)
    } else {
        let buf = pending + chunks[0];
        let r = scan_spec(buf, false, pre);
        redirects_of(r.0) + stream_redirects(buf.skip(r.1), chunks.drop_first())
    }
}

proof fn lemma_redirects_concat(a: Seq<Seq<Seq<u8>>>, b: Seq<Seq<Seq<u8>>>)
    ensures
        redirects_of(a + b) == redirects_of(a) + redirects_of(b),
    decreases b.len(),
{
    if b.len() == 0 {
        assert(a + b =~= a);
        assert(redirects_of(a) + Seq::<(u64, Seq<char>)>::empty() =~= redirects_of(a));
    } else {
        assert((a + b).drop_last() =~= a + b.drop_last());
        assert((a + b).last() == b.last());
        lemma_redirects_concat(a, b.drop_last());
        let init = redirects_of(a) + redirects_of(b.drop_last());
        match redirect_of(b.last().map_values(|x: Seq<u8>| field_text(x))) {
            None => {},
            Some(x) => {
                assert(init.push(x) =~= redirects_of(a) + redirects_of(b.drop_last()).push(x));
            },
        }
    }
}

proof fn lemma_stream_redirects(pending: Seq<u8>, chunks: Seq<Seq<u8>>)
    ensures
        stream_redirects(pending, chunks) == redirects_of(
            scan_spec(pending + join_chunks(chunks), true, vstd::utf8::encode_utf8(INSERT_PREFIX@)).0,
        ),
    decreases chunks.len(),
{
    let pre = vstd::utf8::encode_utf8(INSERT_PREFIX@);
    lemma_prefix_nonempty();
    lemma_prefix_has_no_semicolon();
    if chunks.len() == 0 {
        assert(pending + join_chunks(chunks) =~= pending);
    } else {
        let buf = pending + chunks[0];
        let whole = pending + join_chunks(chunks);
        let rest = join_chunks(chunks.drop_first());
        assert(whole =~= buf + rest);
        assert(whole.take(buf.len() as int) =~= buf);
        law_scan_resumes(whole, buf.len() as int, true, pre);
        let r = scan_spec(buf, false, pre);
        assert(whole.skip(r.1) =~= buf.skip(r.1) + rest);
        lemma_stream_redirects(buf.skip(r.1), chunks.drop_first());
        lemma_redirects_concat(r.0, scan_spec(whole.skip(r.1), true, pre).0);
    }
}

/// Reading the redirect dump in chunks, as the file ingest does, keeps the
/// same redirects, in the same order, as parsing the whole dump at once
/// (what [`parse_buf`] with `eof` and [`parse_str`] give), however the dump
/// is cut into chunks: none is lost and none is kept twice.
pub proof fn law_chunked_read_matches_whole(chunks: Seq<Seq<u8>>)
    ensures
        stream_redirects(Seq::empty(), chunks) == redirects_of(
            scan_spec(join_chunks(chunks), true, vstd::utf8::encode_utf8(INSERT_PREFIX@)).0,
        ),
{
    lemma_stream_redirects(Seq::empty(), chunks);
    assert(Seq::<u8>::empty() + join_chunks(chunks) =~= join_chunks(chunks));
}

} // verus!
