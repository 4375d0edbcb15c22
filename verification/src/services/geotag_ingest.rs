//! Rows of Wikipedia's `geo_tags.sql.gz` dump.
//!
//! Columns, in order: `gt_id, gt_page_id, gt_globe, gt_primary, gt_lat,
//! gt_lon, gt_dim, gt_type, gt_name, gt_country, gt_region`. Kept: the page
//! id, whether the tag is primary, the latitude and longitude texts and the
//! type. Reading the coordinates as floating-point numbers, and dropping rows
//! whose coordinates are not finite or out of range, is left to the caller.

use vstd::prelude::*;
use vstd::string::StringSliceAdditionalSpecFns;

use crate::services::redirect_ingest::row_texts;
use crate::services::sql_dump::{field_text, scan_insert_statements, scan_spec, texts_of, tuples_of, SEMICOLON};
use crate::services::sql_resume::{join_chunks, law_scan_resumes};
use crate::text::{chars_of, parse_u64_chars, parse_u64_spec, str_eq};

verus! {

/// The statement prefix of the geo_tags table.
pub const INSERT_PREFIX: &'static str = "INSERT INTO `geo_tags` VALUES ";

/// The kept columns of one geotag row, coordinates still as text.
#[derive(Debug, Clone)]
pub struct GeotagFields {
    pub page_id: u64,
    pub primary: bool,
    pub lat: String,
    pub lon: String,
    pub kind: Option<String>,
}

/// The view of a row's kept columns.
pub type GeotagView = (u64, bool, Seq<char>, Seq<char>, Option<Seq<char>>);

/// The kept columns of a row with field texts `f`, or `None` when the row
/// is too short or its page id is not a number. The type is kept when the
/// column exists and is neither empty nor `NULL`.
pub open spec fn geotag_of(f: Seq<Seq<char>>) -> Option<GeotagView> {
    if f.len() < 6 {
        None
    } else {
        match parse_u64_spec(f[1]) {
            None => None,
            Some(page_id) => Some(
                (
                    page_id,
                    f[3] == "1"@,
                    f[4],
                    f[5],
                    if f.len() > 7 && f[7] != "NULL"@ && f[7].len() > 0 {
                        Some(f[7])
                    } else {
                        None
                    },
                ),
            ),
        }
    }
}

/// The view of a row's kept columns.
pub open spec fn geotag_view(g: GeotagFields) -> GeotagView {
    (
        g.page_id,
        g.primary,
        g.lat@,
        g.lon@,
        match g.kind {
            Some(k) => Some(k@),
            None => None,
        },
    )
}

/// The kept columns of a row, if it is kept.
pub fn fields_to_geotag(fields: &[String]) -> (r: Option<GeotagFields>)
    ensures
        match geotag_of(row_texts(fields@)) {
            None => r is None,
            Some(g) => r matches Some(x) && geotag_view(x) == g,
        },
{
    if fields.len() < 6 {
        return None;
    }
    let f1 = chars_of(fields[1].as_str());
    let page_id = match parse_u64_chars(f1.as_slice()) {
        Some(v) => v,
        None => return None,
    };
    let primary = str_eq(fields[3].as_str(), "1");
    let kind = if fields.len() > 7 && !str_eq(fields[7].as_str(), "NULL") && !fields[7].as_str().is_empty() {
        Some(fields[7].clone())
    } else {
        None
    };
    Some(
        GeotagFields {
            page_id,
            primary,
            lat: fields[4].clone(),
            lon: fields[5].clone(),
            kind,
        },
    )
}

/// The kept rows, in order, of the tuples `raw`.
pub open spec fn geotags_of(raw: Seq<Seq<Seq<u8>>>) -> Seq<GeotagView>
    decreases raw.len(),
{
    if raw.len() == 0 {
        Seq::empty()
    } else {
        let init = geotags_of(raw.drop_last());
        match geotag_of(raw.last().map_values(|b: Seq<u8>| field_text(b))) {
            None => init,
            Some(x) => init.push(x),
        }
    }
}

/// The views of a list of rows.
pub open spec fn geotag_views(gs: Seq<GeotagFields>) -> Seq<GeotagView> {
    gs.map_values(|g: GeotagFields| geotag_view(g))
}

proof fn lemma_prefix_nonempty()
    ensures
        vstd::utf8::encode_utf8(INSERT_PREFIX@).len() > 0,
{
    reveal_strlit("INSERT INTO `geo_tags` VALUES ");
    assert(vstd::string::is_ascii(INSERT_PREFIX));
}

/// The kept rows of every complete statement in `buf`, in order, and how
/// many leading bytes are fully processed (see the scanner).
pub fn parse_buf(buf: &[u8], eof: bool) -> (r: (Vec<GeotagFields>, usize))
    ensures
        geotag_views(r.0@) == geotags_of(scan_spec(buf@, eof, vstd::utf8::encode_utf8(INSERT_PREFIX@)).0),
        r.1 == scan_spec(buf@, eof, vstd::utf8::encode_utf8(INSERT_PREFIX@)).1,
        r.1 <= buf@.len(),
{
    proof {
        lemma_prefix_nonempty();
    }
    let prefix = INSERT_PREFIX.as_bytes();
    let (tuples, consumed) = scan_insert_statements(buf, eof, prefix);
    let ghost raw = scan_spec(buf@, eof, prefix@).0;
    let mut out: Vec<GeotagFields> = Vec::new();
    let mut i: usize = 0;
    while i < tuples.len()
        invariant
            i <= tuples@.len(),
            tuples_of(tuples@, raw),
            geotag_views(out@) == geotags_of(raw.take(i as int)),
        decreases tuples@.len() - i,
    {
        let row = &tuples[i];
        proof {
            assert(texts_of(row@, raw[i as int]));
            assert(row_texts(row@) =~= raw[i as int].map_values(|b: Seq<u8>| field_text(b)));
            assert(raw.take(i + 1).drop_last() == raw.take(i as int));
            assert(raw.take(i + 1).last() == raw[i as int]);
        }
        match fields_to_geotag(row.as_slice()) {
            Some(x) => {
                out.push(x);
                proof {
                    assert(geotag_views(out@) =~= geotag_views(out@.drop_last()).push(
                        geotag_view(out@.last()),
                    ));
                }
            },
            None => {},
        }
        i = i + 1;
    }
    assert(raw.take(tuples@.len() as int) == raw);
    (out, consumed)
}

proof fn lemma_prefix_has_no_semicolon()
    ensures
        !vstd::utf8::encode_utf8(INSERT_PREFIX@).contains(SEMICOLON),
{
    broadcast use vstd::string::group_string_axioms;

    reveal_strlit("INSERT INTO `geo_tags` VALUES ");
    assert(vstd::string::is_ascii(INSERT_PREFIX));
    let bytes = vstd::utf8::encode_utf8(INSERT_PREFIX@);
    assert(INSERT_PREFIX.spec_bytes() == bytes);
    assert(INSERT_PREFIX@ == "INSERT INTO `geo_tags` VALUES "@);
    assert forall|i: int| 0 <= i < INSERT_PREFIX@.len() implies "INSERT INTO `geo_tags` VALUES "@[i]
        != ';' by {}
    assert forall|i: int| 0 <= i < bytes.len() implies bytes[i] != SEMICOLON by {
        let c = INSERT_PREFIX@[i];
        assert(c != ';');
        assert(bytes[i] == c as u8);
        assert((c as u32) < 128);
    }
}

/// The rows that reading the dump in `chunks`, one after another, keeps,
/// starting with the retained bytes `pending`: each time a chunk is
/// appended, the buffer is parsed without `eof`, its rows are taken
/// and its processed bytes dropped; at the end the rest is parsed with
/// `eof`. This is how the file ingest drives [`parse_buf`].
pub open spec fn stream_geotags(pending: Seq<u8>, chunks: Seq<Seq<u8>>) -> Seq<GeotagView>
    decreases chunks.len(),
{
    let pre = vstd::utf8::encode_utf8(INSERT_PREFIX@);
    if chunks.len() == 0 {
        geotags_of(scan_spec(pending, true, pre).0)
    } else {
        let buf = pending + chunks[0];
        let r = scan_spec(buf, false, pre);
        geotags_of(r.0) + stream_geotags(buf.skip(r.1), chunks.drop_first())
    }
}

proof fn lemma_geotags_concat(a: Seq<Seq<Seq<u8>>>, b: Seq<Seq<Seq<u8>>>)
    ensures
        geotags_of(a + b) == geotags_of(a) + geotags_of(b),
    decreases b.len(),
{
    if b.len() == 0 {
        assert(a + b =~= a);
        assert(geotags_of(a) + Seq::<GeotagView>::empty() =~= geotags_of(a));
    } else {
        assert((a + b).drop_last() =~= a + b.drop_last());
        assert((a + b).last() == b.last());
        lemma_geotags_concat(a, b.drop_last());
        let init = geotags_of(a) + geotags_of(b.drop_last());
        match geotag_of(b.last().map_values(|x: Seq<u8>| field_text(x))) {
            None => {},
            Some(x) => {
                assert(init.push(x) =~= geotags_of(a) + geotags_of(b.drop_last()).push(x));
            },
        }
    }
}

proof fn lemma_stream_geotags(pending: Seq<u8>, chunks: Seq<Seq<u8>>)
    ensures
        stream_geotags(pending, chunks) == geotags_of(
            scan_spec(pending + join_chunks(chunks), true, vstd::utf8::encode_utf8(INSERT_PREFIX@)).0,
        ),
    decreases chunks.len(),
{
    let pre = vstd::utf8::encode_utf8(INSERT_PREFIX@);
    lemma_prefix_nonempty();
    lemma_prefix_has_no_semicolon();
    if chunks.len() == 0 {
        assert(pending + join_chunks(chunks) =~= pending);
    } else {
        let buf = pending + chunks[0];
        let whole = pending + join_chunks(chunks);
        let rest = join_chunks(chunks.drop_first());
        assert(whole =~= buf + rest);
        assert(whole.take(buf.len() as int) =~= buf);
        law_scan_resumes(whole, buf.len() as int, true, pre);
        let r = scan_spec(buf, false, pre);
        assert(whole.skip(r.1) =~= buf.skip(r.1) + rest);
        lemma_stream_geotags(buf.skip(r.1), chunks.drop_first());
        lemma_geotags_concat(r.0, scan_spec(whole.skip(r.1), true, pre).0);
    }
}

/// Reading the geo_tags dump in chunks, as the file ingest does, keeps the
/// same rows, in the same order, as parsing the whole dump at once
/// (what [`parse_buf`] with `eof` gives), however the dump
/// is cut into chunks: none is lost and none is kept twice.
pub proof fn law_chunked_read_matches_whole(chunks: Seq<Seq<u8>>)
    ensures
        stream_geotags(Seq::empty(), chunks) == geotags_of(
            scan_spec(join_chunks(chunks), true, vstd::utf8::encode_utf8(INSERT_PREFIX@)).0,
        ),
{
    lemma_stream_geotags(Seq::empty(), chunks);
    assert(Seq::<u8>::empty() + join_chunks(chunks) =~= join_chunks(chunks));
}

} // verus!
