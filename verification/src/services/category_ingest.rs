//! Rows of Wikipedia's `categorylinks.sql.gz` dump.
//!
//! Columns, in order: `cl_from, cl_to, cl_sortkey, cl_timestamp,
//! cl_sortkey_prefix, cl_collation, cl_type`. Kept: `cl_from`, `cl_to` and
//! `cl_type`.

use vstd::prelude::*;
use vstd::string::StringSliceAdditionalSpecFns;

use crate::error::TomeError;
use crate::services::redirect_ingest::row_texts;
use crate::services::sql_dump::{field_text, scan_insert_statements, scan_spec, texts_of, tuples_of, SEMICOLON};
use crate::services::sql_resume::{join_chunks, law_scan_resumes};
use crate::text::{chars_of, parse_u64_chars, parse_u64_spec, str_eq};

verus! {

/// The statement prefix of the categorylinks table.
pub const INSERT_PREFIX: &'static str = "INSERT INTO `categorylinks` VALUES ";

/// What kind of page belongs to a category.
#[derive(Debug, Clone, Copy, PartialEq, Eq, Structural)]
pub enum CategoryMemberKind {
    Page,
    Subcat,
    File,
}

/// The member kind named `s` in the `cl_type` column.
pub open spec fn member_kind_spec(s: Seq<char>) -> Option<CategoryMemberKind> {
    if s == "page"@ {
        Some(CategoryMemberKind::Page)
    } else if s == "subcat"@ {
        Some(CategoryMemberKind::Subcat)
    } else if s == "file"@ {
        Some(CategoryMemberKind::File)
    } else {
        None
    }
}

impl CategoryMemberKind {
    /// The member kind named `s`, if it is one.
    pub fn parse(s: &str) -> (r: Option<Self>)
        ensures
            r == member_kind_spec(s@),
    {
        if str_eq(s, "page") {
            Some(CategoryMemberKind::Page)
        } else if str_eq(s, "subcat") {
            Some(CategoryMemberKind::Subcat)
        } else if str_eq(s, "file") {
            Some(CategoryMemberKind::File)
        } else {
            None
        }
    }
}

/// One membership of a page in a category.
#[derive(Debug, PartialEq, Eq)]
pub struct CategoryLink {
    pub from_page_id: u64,
    pub category: String,
    pub kind: CategoryMemberKind,
}

/// The link a row with field texts `f` stands for, or `None` when the row
/// is skipped.
pub open spec fn link_of(f: Seq<Seq<char>>) -> Option<(u64, Seq<char>, CategoryMemberKind)> {
    if f.len() < 7 {
        None
    } else {
        match parse_u64_spec(f[0]) {
            None => None,
            Some(from) => if f[1].len() == 0 || f[1] == "NULL"@ {
                None
            } else {
                match member_kind_spec(f[6]) {
                    None => None,
                    Some(kind) => Some((from, f[1], kind)),
                }
            },
        }
    }
}

/// The link a row stands for, if it is kept.
pub fn fields_to_link(fields: &[String]) -> (r: Option<CategoryLink>)
    ensures
        match link_of(row_texts(fields@)) {
            None => r is None,
            Some((from, cat, kind)) => r matches Some(x) && x.from_page_id == from && x.category@
                == cat && x.kind == kind,
        },
{
    if fields.len() < 7 {
        return None;
    }
    let f0 = chars_of(fields[0].as_str());
    let from_page_id = match parse_u64_chars(f0.as_slice()) {
        Some(v) => v,
        None => return None,
    };
    let category = fields[1].clone();
    if category.as_str().is_empty() || str_eq(category.as_str(), "NULL") {
        return None;
    }
    let kind = match CategoryMemberKind::parse(fields[6].as_str()) {
        Some(k) => k,
        None => return None,
    };
    Some(CategoryLink { from_page_id, category, kind })
}

/// The links, in order, of the tuples `raw`.
pub open spec fn links_of(raw: Seq<Seq<Seq<u8>>>) -> Seq<(u64, Seq<char>, CategoryMemberKind)>
    decreases raw.len(),
{
    if raw.len() == 0 {
        Seq::empty()
    } else {
        let init = links_of(raw.drop_last());
        match link_of(raw.last().map_values(|b: Seq<u8>| field_text(b))) {
            None => init,
            Some(x) => init.push(x),
        }
    }
}

/// The views of a list of links.
pub open spec fn link_views(ls: Seq<CategoryLink>) -> Seq<(u64, Seq<char>, CategoryMemberKind)> {
    ls.map_values(|l: CategoryLink| (l.from_page_id, l.category@, l.kind))
}

proof fn lemma_prefix_nonempty()
    ensures
        vstd::utf8::encode_utf8(INSERT_PREFIX@).len() > 0,
{
    reveal_strlit("INSERT INTO `categorylinks` VALUES ");
    assert(vstd::string::is_ascii(INSERT_PREFIX));
}

/// The links of every complete statement in `buf`, in order, and how many
/// leading bytes are fully processed (see the scanner).
pub fn parse_buf(buf: &[u8], eof: bool) -> (r: (Vec<CategoryLink>, usize))
    ensures
        link_views(r.0@) == links_of(scan_spec(buf@, eof, vstd::utf8::encode_utf8(INSERT_PREFIX@)).0),
        r.1 == scan_spec(buf@, eof, vstd::utf8::encode_utf8(INSERT_PREFIX@)).1,
        r.1 <= buf@.len(),
{
    proof {
        lemma_prefix_nonempty();
    }
    let prefix = INSERT_PREFIX.as_bytes();
    let (tuples, consumed) = scan_insert_statements(buf, eof, prefix);
    let ghost raw = scan_spec(buf@, eof, prefix@).0;
    let mut out: Vec<CategoryLink> = Vec::new();
    let mut i: usize = 0;
    while i < tuples.len()
        invariant
            i <= tuples@.len(),
            tuples_of(tuples@, raw),
            link_views(out@) == links_of(raw.take(i as int)),
        decreases tuples@.len() - i,
    {
        let row = &tuples[i];
        proof {
            assert(texts_of(row@, raw[i as int]));
            assert(row_texts(row@) =~= raw[i as int].map_values(|b: Seq<u8>| field_text(b)));
            assert(raw.take(i + 1).drop_last() == raw.take(i as int));
            assert(raw.take(i + 1).last() == raw[i as int]);
        }
        match fields_to_link(row.as_slice()) {
            Some(x) => {
                out.push(x);
                proof {
                    assert(link_views(out@) =~= link_views(out@.drop_last()).push(
                        (out@.last().from_page_id, out@.last().category@, out@.last().kind),
                    ));
                }
            },
            None => {},
        }
        i = i + 1;
    }
    assert(raw.take(tuples@.len() as int) == raw);
    (out, consumed)
}

/// Whether `f` was called with a link whose view is `v` and returned: the
/// closure's own postcondition holds of that call.
pub open spec fn handed_link<F: FnMut(CategoryLink)>(
    f: F,
    v: (u64, Seq<char>, CategoryMemberKind),
) -> bool {
    exists|x: CategoryLink|
        (x.from_page_id, x.category@, x.kind) == v && #[trigger] call_ensures(f, (x,), ())
}

/// Parses a complete in-memory dump text, handing each link to `on_link` in
/// order; returns how many there were.
pub fn parse_str<F: FnMut(CategoryLink)>(content: &str, mut on_link: F) -> (r: Result<u64, TomeError>)
    requires
        forall|x: CategoryLink| call_requires(on_link, (x,)),
    ensures
        ({
            let found = links_of(
                scan_spec(vstd::utf8::encode_utf8(content@), true, vstd::utf8::encode_utf8(INSERT_PREFIX@)).0,
            );
            &&& r matches Ok(n) && n == found.len()
            &&& forall|i: int| 0 <= i < found.len() ==> handed_link(on_link, #[trigger] found[i])
        }),
{
    let (rows, _) = parse_buf(content.as_bytes(), true);
    let ghost found = link_views(rows@);
    let ghost f0 = on_link;
    let mut rest = rows;
    let mut count: usize = 0;
    let ghost n = rest@.len();
    assert(n == rest.len());
    assert(link_views(rest@) =~= found.skip(0));
    while rest.len() > 0
        invariant
            forall|x: CategoryLink| call_requires(f0, (x,)),
            count + rest@.len() == n,
            n == found.len(),
            n <= usize::MAX,
            on_link == f0,
            link_views(rest@) == found.skip(count as int),
            forall|i: int| 0 <= i < count ==> handed_link(f0, #[trigger] found[i]),
        decreases rest@.len(),
    {
        let ghost before = rest@;
        let x = rest.remove(0);
        proof {
            assert(found[count as int] == link_views(before)[0]);
        }
        on_link(x);
        proof {
            assert(call_ensures(f0, (x,), ()));
            assert(handed_link(f0, found[count as int]));
            assert(rest@ =~= before.skip(1));
            assert forall|j: int| 0 <= j < rest@.len() implies link_views(rest@)[j] == found.skip(
                count + 1,
            )[j] by {
                assert(rest@[j] == before[j + 1]);
                assert(link_views(before)[j + 1] == found.skip(count as int)[j + 1]);
            }
            assert(link_views(rest@) =~= found.skip(count + 1));
        }
        count = count + 1;
    }
    Ok(count as u64)
}

proof fn lemma_prefix_has_no_semicolon()
    ensures
        !vstd::utf8::encode_utf8(INSERT_PREFIX@).contains(SEMICOLON),
{
    broadcast use vstd::string::group_string_axioms;

    reveal_strlit("INSERT INTO `categorylinks` VALUES ");
    assert(vstd::string::is_ascii(INSERT_PREFIX));
    let bytes = vstd::utf8::encode_utf8(INSERT_PREFIX@);
    assert(INSERT_PREFIX.spec_bytes() == bytes);
    assert(INSERT_PREFIX@ == "INSERT INTO `categorylinks` VALUES "@);
    assert forall|i: int| 0 <= i < INSERT_PREFIX@.len() implies "INSERT INTO `categorylinks` VALUES "@[i]
        != ';' by {}
    assert forall|i: int| 0 <= i < bytes.len() implies bytes[i] != SEMICOLON by {
        let c = INSERT_PREFIX@[i];
        assert(c != ';');
        assert(bytes[i] == c as u8);
        assert((c as u32) < 128);
    }
}

/// The links that reading the dump in `chunks`, one after another, keeps,
/// starting with the retained bytes `pending`: each time a chunk is
/// appended, the buffer is parsed without `eof`, its links are taken
/// and its processed bytes dropped; at the end the rest is parsed with
/// `eof`. This is how the file ingest drives [`parse_buf`].
pub open spec fn stream_links(pending: Seq<u8>, chunks: Seq<Seq<u8>>) -> Seq<(u64, Seq<char>, CategoryMemberKind)>
    decreases chunks.len(),
{
    let pre = vstd::utf8::encode_utf8(INSERT_PREFIX@);
    if chunks.len() == 0 {
        links_of(scan_spec(pending, true, pre).0)
    } else {
        let buf = pending + chunks[0];
        let r = scan_spec(buf, false, pre);
        links_of(r.0) + stream_links(buf.skip(r.1), chunks.drop_first())
    }
}

proof fn lemma_links_concat(a: Seq<Seq<Seq<u8>>>, b: Seq<Seq<Seq<u8>>>)
    ensures
        links_of(a + b) == links_of(a) + links_of(b),
    decreases b.len(),
{
    if b.len() == 0 {
        assert(a + b =~= a);
        assert(links_of(a) + Seq::<(u64, Seq<char>, CategoryMemberKind)>::empty() =~= links_of(a));
    } else {
        assert((a + b).drop_last() =~= a + b.drop_last());
        assert((a + b).last() == b.last());
        lemma_links_concat(a, b.drop_last());
        let init = links_of(a) + links_of(b.drop_last());
        match link_of(b.last().map_values(|x: Seq<u8>| field_text(x))) {
            None => {},
            Some(x) => {
                assert(init.push(x) =~= links_of(a) + links_of(b.drop_last()).push(x));
            },
        }
    }
}

proof fn lemma_stream_links(pending: Seq<u8>, chunks: Seq<Seq<u8>>)
    ensures
        stream_links(pending, chunks) == links_of(
            scan_spec(pending + join_chunks(chunks), true, vstd::utf8::encode_utf8(INSERT_PREFIX@)).0,
        ),
    decreases chunks.len(),
{
    let pre = vstd::utf8::encode_utf8(INSERT_PREFIX@);
    lemma_prefix_nonempty();
    lemma_prefix_has_no_semicolon();
    if chunks.len() == 0 {
        assert(pending + join_chunks(chunks) =~= pending);
    } else {
        let buf = pending + chunks[0];
        let whole = pending + join_chunks(chunks);
        let rest = join_chunks(chunks.drop_first());
        assert(whole =~= buf + rest);
        assert(whole.take(buf.len() as int) =~= buf);
        law_scan_resumes(whole, buf.len() as int, true, pre);
        let r = scan_spec(buf, false, pre);
        assert(whole.skip(r.1) =~= buf.skip(r.1) + rest);
        lemma_stream_links(buf.skip(r.1), chunks.drop_first());
        lemma_links_concat(r.0, scan_spec(whole.skip(r.1), true, pre).0);
    }
}

/// Reading the categorylinks dump in chunks, as the file ingest does, keeps the
/// same links, in the same order, as parsing the whole dump at once
/// (what [`parse_buf`] with `eof` and [`parse_str`] give), however the dump
/// is cut into chunks: none is lost and none is kept twice.
pub proof fn law_chunked_read_matches_whole(chunks: Seq<Seq<u8>>)
    ensures
        stream_links(Seq::empty(), chunks) == links_of(
            scan_spec(join_chunks(chunks), true, vstd::utf8::encode_utf8(INSERT_PREFIX@)).0,
        ),
{
    lemma_stream_links(Seq::empty(), chunks);
    assert(Seq::<u8>::empty() + join_chunks(chunks) =~= join_chunks(chunks));
}

} // verus!
