//! Building a small multistream dump and its index in memory.
//!
//! Pages are grouped into streams of a given size; each stream is the XML of
//! its pages, compressed with bzip2 on its own, and the streams are laid end
//! to end. The index has one `offset:page_id:title` line per page, where the
//! offset is that of the page's stream, and is itself one bzip2 stream.

use std::io::Write;

use bzip2::write::BzEncoder;
use bzip2::Compression;
use vstd::prelude::*;

use crate::dump::stream::decompresses_to;
use crate::error::TomeError;
use crate::text::{copy_str, decimal, push_decimal, push_str_chars, string_of};

verus! {

/// One synthetic page.
#[derive(Debug, Clone)]
pub struct PageData {
    pub title: String,
    pub page_id: u64,
    pub revision_id: u64,
    pub wikitext: String,
}

impl PageData {
    /// An identical copy of this page.
    pub fn duplicate(&self) -> (r: PageData)
        ensures
            r == *self,
    {
        PageData {
            title: self.title.clone(),
            page_id: self.page_id,
            revision_id: self.revision_id,
            wikitext: self.wikitext.clone(),
        }
    }
}

/// Where one stream lies in the dump, and the pages it holds.
#[derive(Debug, Clone)]
pub struct StreamInfo {
    pub stream_offset: u64,
    pub stream_length: u64,
    pub pages: Vec<PageData>,
}

/// A dump, its compressed index, and the layout of its streams.
#[derive(Debug, Clone)]
pub struct Fixture {
    pub dump_bytes: Vec<u8>,
    pub index_bytes: Vec<u8>,
    pub streams: Vec<StreamInfo>,
}

/// The bytes that `bzip2`'s `BzEncoder` at the default level writes for
/// `data`, a complete stream.
pub uninterp spec fn bz2_compressed(data: Seq<u8>) -> Seq<u8>;

/// `BzEncoder::new(.., Compression::default())`, `write_all` and `finish`
/// into a fresh vector. The encoder reports an error only when its inner
/// writer does, and writing into a vector never fails, so this is always the
/// compressed stream. bzip2 is lossless: the single-stream decoder gives
/// `data` back from it.
#[verifier::external_body]
fn bz2_compress(data: &[u8]) -> (r: Result<Vec<u8>, String>)
    ensures
        r is Ok,
        r matches Ok(v) ==> v@ == bz2_compressed(data@),
        r matches Ok(v) ==> decompresses_to(v@, data@),
{
    let mut out = Vec::new();
    let mut encoder = BzEncoder::new(&mut out, Compression::default());
    encoder.write_all(data).map_err(|e| e.to_string())?;
    encoder.finish().map_err(|e| e.to_string())?;
    Ok(out)
}

/// The escape of one character in XML text.
pub open spec fn escape_char(c: char) -> Seq<char> {
    if c == '&' {
        "&amp;"@
    } else if c == '<' {
        "&lt;"@
    } else if c == '>' {
        "&gt;"@
    } else {
        seq![c]
    }
}

/// `s` with `&`, `<` and `>` escaped.
pub open spec fn xml_escape_spec(s: Seq<char>) -> Seq<char>
    decreases s.len(),
{
    if s.len() == 0 {
        Seq::empty()
    } else {
        xml_escape_spec(s.drop_last()) + escape_char(s.last())
    }
}

/// The `<page>` element of one page.
pub open spec fn page_xml(p: PageData) -> Seq<char> {
    "<page>\n<title>"@ + xml_escape_spec(p.title@) + "</title>\n<id>"@ + decimal(p.page_id as nat)
        + "</id>\n<revision>\n<id>"@ + decimal(p.revision_id as nat)
        + "</id>\n<text xml:space=\"preserve\">"@ + xml_escape_spec(p.wikitext@)
        + "</text>\n</revision>\n</page>\n"@
}

/// The XML of a group of pages, one element after another.
pub open spec fn chunk_xml(c: Seq<PageData>) -> Seq<char>
    decreases c.len(),
{
    if c.len() == 0 {
        Seq::empty()
    } else {
        chunk_xml(c.drop_last()) + page_xml(c.last())
    }
}

/// The index lines of a group of pages whose stream starts at `offset`.
pub open spec fn index_lines(c: Seq<PageData>, offset: u64) -> Seq<char>
    decreases c.len(),
{
    if c.len() == 0 {
        Seq::empty()
    } else {
        index_lines(c.drop_last(), offset) + decimal(offset as nat) + ":"@ + decimal(
            c.last().page_id as nat,
        ) + ":"@ + c.last().title@ + "\n"@
    }
}

/// `s` cut into groups of `k`, in order; the last may be shorter.
pub open spec fn chunks(s: Seq<PageData>, k: nat) -> Seq<Seq<PageData>>
    decreases s.len(),
{
    if s.len() == 0 || k == 0 {
        Seq::empty()
    } else if s.len() <= k {
        seq![s]
    } else {
        seq![s.take(k as int)] + chunks(s.skip(k as int), k)
    }
}

/// The compressed stream of a group of pages.
pub open spec fn stream_blob(c: Seq<PageData>) -> Seq<u8> {
    bz2_compressed(vstd::utf8::encode_utf8(chunk_xml(c)))
}

/// The streams of the groups `cs`, end to end.
pub open spec fn dump_of(cs: Seq<Seq<PageData>>) -> Seq<u8>
    decreases cs.len(),
{
    if cs.len() == 0 {
        Seq::empty()
    } else {
        dump_of(cs.drop_last()) + stream_blob(cs.last())
    }
}

/// The index text of the groups `cs`.
pub open spec fn index_of(cs: Seq<Seq<PageData>>) -> Seq<char>
    decreases cs.len(),
{
    if cs.len() == 0 {
        Seq::empty()
    } else {
        index_of(cs.drop_last()) + index_lines(cs.last(), dump_of(cs.drop_last()).len() as u64)
    }
}

/// Whether `fx` is the fixture of the groups `cs`: the dump is their streams
/// end to end, the index is their index text compressed, and stream `j`
/// starts where the streams before it end and holds group `j`.
pub open spec fn fixture_of(fx: Fixture, cs: Seq<Seq<PageData>>) -> bool {
    &&& fx.dump_bytes@ == dump_of(cs)
    &&& fx.index_bytes@ == bz2_compressed(vstd::utf8::encode_utf8(index_of(cs)))
    &&& fx.streams@.len() == cs.len()
    &&& forall|j: int|
        0 <= j < cs.len() ==> {
            &&& (#[trigger] fx.streams@[j]).pages@ == cs[j]
            &&& fx.streams@[j].stream_offset == dump_of(cs.take(j)).len()
            &&& fx.streams@[j].stream_length == stream_blob(cs[j]).len()
        }
}

fn push_escaped(out: &mut Vec<char>, s: &str)
    ensures
        final(out)@ == old(out)@ + xml_escape_spec(s@),
{
    let cs = crate::text::chars_of(s);
    let mut i: usize = 0;
    while i < cs.len()
        invariant
            i <= cs@.len(),
            cs@ == s@,
            out@ == old(out)@ + xml_escape_spec(s@.take(i as int)),
        decreases cs@.len() - i,
    {
        let c = cs[i];
        proof {
            assert(s@.take(i + 1).drop_last() =~= s@.take(i as int));
        }
        if c == '&' {
            push_str_chars(out, "&amp;");
        } else if c == '<' {
            push_str_chars(out, "&lt;");
        } else if c == '>' {
            push_str_chars(out, "&gt;");
        } else {
            out.push(c);
        }
        i = i + 1;
    }
    assert(s@.take(cs@.len() as int) =~= s@);
}

fn push_page_xml(out: &mut Vec<char>, p: &PageData)
    ensures
        final(out)@ == old(out)@ + page_xml(*p),
{
    push_str_chars(out, "<page>\n<title>");
    push_escaped(out, p.title.as_str());
    push_str_chars(out, "</title>\n<id>");
    push_decimal(out, p.page_id);
    push_str_chars(out, "</id>\n<revision>\n<id>");
    push_decimal(out, p.revision_id);
    push_str_chars(out, "</id>\n<text xml:space=\"preserve\">");
    push_escaped(out, p.wikitext.as_str());
    push_str_chars(out, "</text>\n</revision>\n</page>\n");
    assert(out@ =~= old(out)@ + page_xml(*p));
}

fn push_index_line(out: &mut Vec<char>, offset: u64, p: &PageData)
    ensures
        final(out)@ == old(out)@ + decimal(offset as nat) + ":"@ + decimal(p.page_id as nat) + ":"@
            + p.title@ + "\n"@,
{
    push_decimal(out, offset);
    push_str_chars(out, ":");
    push_decimal(out, p.page_id);
    push_str_chars(out, ":");
    push_str_chars(out, p.title.as_str());
    push_str_chars(out, "\n");
    assert(out@ =~= old(out)@ + decimal(offset as nat) + ":"@ + decimal(p.page_id as nat) + ":"@
        + p.title@ + "\n"@);
}

proof fn lemma_take_push<A>(s: Seq<A>, x: A, j: int)
    requires
        0 <= j <= s.len(),
    ensures
        s.push(x).take(j) == s.take(j),
{
    assert(s.push(x).take(j) =~= s.take(j));
}

/// The bytes of stream `j` of `fx`, cut out of the dump at its offset and
/// length.
pub open spec fn stream_bytes_of(fx: Fixture, j: int) -> Seq<u8> {
    fx.dump_bytes@.subrange(
        fx.streams@[j].stream_offset as int,
        fx.streams@[j].stream_offset + fx.streams@[j].stream_length,
    )
}

/// The streams of the first groups start the streams of all groups.
proof fn lemma_dump_prefix(cs: Seq<Seq<PageData>>, k: int)
    requires
        0 <= k <= cs.len(),
    ensures
        dump_of(cs.take(k)).len() <= dump_of(cs).len(),
        dump_of(cs).subrange(0, dump_of(cs.take(k)).len() as int) == dump_of(cs.take(k)),
    decreases cs.len(),
{
    if k == cs.len() {
        assert(cs.take(k) =~= cs);
    } else {
        let init = cs.drop_last();
        lemma_dump_prefix(init, k);
        assert(init.take(k) =~= cs.take(k));
        assert(dump_of(cs) == dump_of(init) + stream_blob(cs.last()));
        assert(dump_of(cs).subrange(0, dump_of(cs.take(k)).len() as int) =~= dump_of(init).subrange(
            0,
            dump_of(cs.take(k)).len() as int,
        ));
    }
}

/// Stream `j` of a fixture lies in the dump at its offset: the bytes there
/// are its compressed stream.
pub proof fn law_stream_bytes_are_its_blob(fx: Fixture, cs: Seq<Seq<PageData>>, j: int)
    requires
        fixture_of(fx, cs),
        0 <= j < cs.len(),
    ensures
        stream_bytes_of(fx, j) == stream_blob(cs[j]),
{
    lemma_dump_prefix(cs, j + 1);
    let t = cs.take(j + 1);
    assert(t.drop_last() =~= cs.take(j));
    assert(t.last() == cs[j]);
    assert(dump_of(t) == dump_of(cs.take(j)) + stream_blob(cs[j]));
    let off = dump_of(cs.take(j)).len() as int;
    assert(fx.streams@[j].stream_offset == off);
    assert(stream_bytes_of(fx, j) =~= dump_of(cs).subrange(0, dump_of(t).len() as int).subrange(
        off,
        dump_of(t).len() as int,
    ));
}

/// Builds a dump of `pages` in groups of `pages_per_stream`, with its index.
///
/// A group size of zero is refused with an `Other` error; any other size
/// succeeds. The bytes of each stream, cut out of the dump at its offset and
/// length, decompress to the XML of its pages, and the index decompresses to
/// its lines.
pub fn build_fixture(pages: Vec<PageData>, pages_per_stream: usize) -> (r: Result<Fixture, TomeError>)
    ensures
        pages_per_stream == 0 ==> (r matches Err(TomeError::Other(m)) && m@
            == "pages_per_stream must be > 0"@),
        pages_per_stream > 0 ==> (r matches Ok(fx) && fixture_of(
            fx,
            chunks(pages@, pages_per_stream as nat),
        )),
        r matches Ok(fx) ==> (forall|j: int|
            0 <= j < fx.streams@.len() ==> decompresses_to(
                #[trigger] stream_bytes_of(fx, j),
                vstd::utf8::encode_utf8(chunk_xml(fx.streams@[j].pages@)),
            )),
        r matches Ok(fx) ==> decompresses_to(
            fx.index_bytes@,
            vstd::utf8::encode_utf8(index_of(chunks(pages@, pages_per_stream as nat))),
        ),
{
    if pages_per_stream == 0 {
        return Err(TomeError::Other(copy_str("pages_per_stream must be > 0")));
    }
    let k = pages_per_stream;
    let n = pages.len();
    let mut dump_bytes: Vec<u8> = Vec::new();
    let mut streams: Vec<StreamInfo> = Vec::new();
    let mut index_chars: Vec<char> = Vec::new();
    let mut start: usize = 0;
    let ghost mut done: Seq<Seq<PageData>> = Seq::empty();
    assert(pages@.skip(0) =~= pages@);
    while start < n
        invariant
            start <= n,
            n == pages@.len(),
            k > 0,
            k == pages_per_stream,
            chunks(pages@, k as nat) == done + chunks(pages@.skip(start as int), k as nat),
            dump_bytes@ == dump_of(done),
            index_chars@ == index_of(done),
            streams@.len() == done.len(),
            forall|j: int|
                0 <= j < done.len() ==> {
                    &&& (#[trigger] streams@[j]).pages@ == done[j]
                    &&& streams@[j].stream_offset == dump_of(done.take(j)).len()
                    &&& streams@[j].stream_length == stream_blob(done[j]).len()
                    &&& decompresses_to(stream_blob(done[j]), vstd::utf8::encode_utf8(chunk_xml(done[j])))
                },
        decreases n - start,
    {
        let end: usize = if n - start <= k {
            n
        } else {
            start + k
        };
        let ghost rest = pages@.skip(start as int);
        let ghost group = pages@.subrange(start as int, end as int);
        proof {
            if n - start <= k {
                assert(rest =~= group);
            } else {
                assert(rest.take(k as int) =~= group);
                assert(rest.skip(k as int) =~= pages@.skip(end as int));
            }
            assert(chunks(rest, k as nat) == seq![group] + chunks(pages@.skip(end as int), k as nat)) by {
                if n - start <= k {
                    assert(pages@.skip(end as int) =~= Seq::<PageData>::empty());
                    assert(seq![group] + Seq::<Seq<PageData>>::empty() =~= seq![group]);
                }
            }
        }
        let stream_offset = dump_bytes.len() as u64;
        let stream_start = dump_bytes.len();
        let mut xml: Vec<char> = Vec::new();
        let mut lines: Vec<char> = Vec::new();
        let mut chunk: Vec<PageData> = Vec::new();
        let mut i = start;
        while i < end
            invariant
                start <= i <= end,
                end <= n,
                n == pages@.len(),
                xml@ == chunk_xml(pages@.subrange(start as int, i as int)),
                lines@ == index_lines(pages@.subrange(start as int, i as int), stream_offset),
                chunk@ == pages@.subrange(start as int, i as int),
            decreases end - i,
        {
            proof {
                assert(pages@.subrange(start as int, i + 1).drop_last() =~= pages@.subrange(
                    start as int,
                    i as int,
                ));
            }
            push_page_xml(&mut xml, &pages[i]);
            push_index_line(&mut lines, stream_offset, &pages[i]);
            chunk.push(pages[i].duplicate());
            i = i + 1;
            proof {
                assert(chunk@ =~= pages@.subrange(start as int, i as int));
            }
        }
        let text = string_of(xml.as_slice());
        let mut blob = match bz2_compress(text.as_str().as_bytes()) {
            Ok(b) => b,
            Err(e) => return Err(TomeError::Io(e)),
        };
        dump_bytes.append(&mut blob);
        let stream_length = (dump_bytes.len() - stream_start) as u64;
        index_chars.append(&mut lines);
        streams.push(StreamInfo { stream_offset, stream_length, pages: chunk });
        proof {
            let old_done = done;
            done = done.push(group);
            assert(done.drop_last() =~= old_done);
            assert(done.take(old_done.len() as int) =~= old_done);
            assert forall|j: int| 0 <= j < old_done.len() implies done.take(j) == old_done.take(j) by {
                lemma_take_push(old_done, group, j);
            }
            assert(chunks(pages@, k as nat) =~= done + chunks(pages@.skip(end as int), k as nat));
        }
        start = end;
    }
    let index_text = string_of(index_chars.as_slice());
    let index_bytes = match bz2_compress(index_text.as_str().as_bytes()) {
        Ok(b) => b,
        Err(e) => return Err(TomeError::Io(e)),
    };
    proof {
        assert(pages@.skip(n as int) =~= Seq::<PageData>::empty());
        assert(done + Seq::<Seq<PageData>>::empty() =~= done);
    }
    let fx = Fixture { dump_bytes, index_bytes, streams };
    proof {
        assert(fixture_of(fx, done));
        assert forall|j: int| 0 <= j < fx.streams@.len() implies decompresses_to(
            #[trigger] stream_bytes_of(fx, j),
            vstd::utf8::encode_utf8(chunk_xml(fx.streams@[j].pages@)),
        ) by {
            law_stream_bytes_are_its_blob(fx, done, j);
        }
    }
    Ok(fx)
}

/// The groups `cs` joined back together.
pub open spec fn flatten(cs: Seq<Seq<PageData>>) -> Seq<PageData>
    decreases cs.len(),
{
    if cs.len() == 0 {
        Seq::empty()
    } else {
        cs[0] + flatten(cs.drop_first())
    }
}

/// Grouping pages by `k` keeps every page, in order: the groups joined back
/// together are the pages; no group is empty or longer than `k`, and every
/// group but the last has exactly `k` pages.
pub proof fn law_chunks_partition(s: Seq<PageData>, k: nat)
    requires
        k > 0,
    ensures
        flatten(chunks(s, k)) == s,
        forall|j: int|
            0 <= j < chunks(s, k).len() ==> 0 < (#[trigger] chunks(s, k)[j]).len() <= k,
        forall|j: int| 0 <= j < chunks(s, k).len() - 1 ==> (#[trigger] chunks(s, k)[j]).len() == k,
    decreases s.len(),
{
    if s.len() == 0 {
    } else if s.len() <= k {
        assert(seq![s].drop_first() =~= Seq::<Seq<PageData>>::empty());
        assert(flatten(Seq::<Seq<PageData>>::empty()) == Seq::<PageData>::empty());
        assert(s + Seq::<PageData>::empty() =~= s);
        assert(flatten(seq![s]) == s);
    } else {
        let rest = chunks(s.skip(k as int), k);
        law_chunks_partition(s.skip(k as int), k);
        let cs = chunks(s, k);
        assert(cs == seq![s.take(k as int)] + rest);
        assert(cs.drop_first() =~= rest);
        assert(cs[0] == s.take(k as int));
        assert(s.take(k as int) + s.skip(k as int) =~= s);
        assert(flatten(cs) == cs[0] + flatten(cs.drop_first()));
        assert forall|j: int| 0 <= j < cs.len() implies 0 < (#[trigger] cs[j]).len() <= k by {
            if j > 0 {
                assert(cs[j] == rest[j - 1]);
            }
        }
        assert forall|j: int| 0 <= j < cs.len() - 1 implies (#[trigger] cs[j]).len() == k by {
            if j > 0 {
                assert(cs[j] == rest[j - 1]);
            }
        }
    }
}

/// The streams of a fixture lie end to end: the first starts at offset 0,
/// each next one starts where the one before it ends, and the dump ends where
/// the last one ends.
pub proof fn law_fixture_streams_contiguous(fx: Fixture, cs: Seq<Seq<PageData>>)
    requires
        fixture_of(fx, cs),
        cs.len() > 0,
    ensures
        fx.streams@[0].stream_offset == 0,
        forall|j: int|
            0 <= j < cs.len() - 1 ==> (#[trigger] fx.streams@[j + 1]).stream_offset
                == fx.streams@[j].stream_offset + fx.streams@[j].stream_length,
        fx.dump_bytes@.len() == fx.streams@[cs.len() - 1].stream_offset + fx.streams@[cs.len()
            - 1].stream_length,
{
    assert(fx.streams@[0].stream_offset == dump_of(cs.take(0)).len());
    assert(cs.take(0) =~= Seq::<Seq<PageData>>::empty());
    assert forall|j: int| 0 <= j < cs.len() - 1 implies (#[trigger] fx.streams@[j + 1]).stream_offset
        == fx.streams@[j].stream_offset + fx.streams@[j].stream_length by {
        let t = cs.take(j + 1);
        assert(t.drop_last() =~= cs.take(j));
        assert(t.last() == cs[j]);
        assert(fx.streams@[j + 1].stream_offset == dump_of(cs.take(j + 1)).len());
        assert(fx.streams@[j].stream_offset == dump_of(cs.take(j)).len());
    }
    let n = cs.len() - 1;
    assert(cs.drop_last() =~= cs.take(n));
    assert(fx.streams@[n].stream_offset == dump_of(cs.take(n)).len());
}

/// The index entries of a group whose stream starts at `offset`: for each
/// page, in order, the offset, its id and its title.
pub open spec fn group_entries(c: Seq<PageData>, offset: u64) -> Seq<(u64, u64, Seq<char>)> {
    c.map_values(|p: PageData| (offset, p.page_id, p.title@))
}

/// The index entries of the groups `cs`, group after group, each group's
/// pages with the offset of its stream.
pub open spec fn index_entries(cs: Seq<Seq<PageData>>) -> Seq<(u64, u64, Seq<char>)>
    decreases cs.len(),
{
    if cs.len() == 0 {
        Seq::empty()
    } else {
        index_entries(cs.drop_last()) + group_entries(cs.last(), dump_of(cs.drop_last()).len() as u64)
    }
}

/// Index entries written one per line as `offset:page_id:title`.
pub open spec fn entries_text(es: Seq<(u64, u64, Seq<char>)>) -> Seq<char>
    decreases es.len(),
{
    if es.len() == 0 {
        Seq::empty()
    } else {
        entries_text(es.drop_last()) + decimal(es.last().0 as nat) + ":"@ + decimal(es.last().1 as nat)
            + ":"@ + es.last().2 + "\n"@
    }
}

proof fn lemma_entries_text_concat(a: Seq<(u64, u64, Seq<char>)>, b: Seq<(u64, u64, Seq<char>)>)
    ensures
        entries_text(a + b) == entries_text(a) + entries_text(b),
    decreases b.len(),
{
    if b.len() == 0 {
        assert(a + b =~= a);
        assert(entries_text(a) + entries_text(b) =~= entries_text(a));
    } else {
        lemma_entries_text_concat(a, b.drop_last());
        assert((a + b).drop_last() =~= a + b.drop_last());
        assert((a + b).last() == b.last());
        let e = b.last();
        let line = decimal(e.0 as nat) + ":"@ + decimal(e.1 as nat) + ":"@ + e.2 + "\n"@;
        assert(entries_text(a + b) == entries_text(a + b.drop_last()) + decimal(e.0 as nat) + ":"@
            + decimal(e.1 as nat) + ":"@ + e.2 + "\n"@);
        assert(entries_text(a + b) =~= entries_text(a) + entries_text(b.drop_last()) + line);
        assert(entries_text(b) =~= entries_text(b.drop_last()) + line);
    }
}

proof fn lemma_index_lines_entries(c: Seq<PageData>, offset: u64)
    ensures
        index_lines(c, offset) == entries_text(group_entries(c, offset)),
    decreases c.len(),
{
    if c.len() > 0 {
        lemma_index_lines_entries(c.drop_last(), offset);
        assert(group_entries(c, offset).drop_last() =~= group_entries(c.drop_last(), offset));
        assert(group_entries(c, offset).last() == (offset, c.last().page_id, c.last().title@));
    } else {
        assert(group_entries(c, offset) =~= Seq::<(u64, u64, Seq<char>)>::empty());
    }
}

/// The index of a fixture, decompressed, is one `offset:page_id:title` line
/// per page, group after group and page after page, each with the offset of
/// its group's stream (see `law_index_line_reads_back` for reading a line).
pub proof fn law_index_text_lists_every_page(cs: Seq<Seq<PageData>>)
    ensures
        index_of(cs) == entries_text(index_entries(cs)),
    decreases cs.len(),
{
    if cs.len() > 0 {
        law_index_text_lists_every_page(cs.drop_last());
        let off = dump_of(cs.drop_last()).len() as u64;
        lemma_index_lines_entries(cs.last(), off);
        lemma_entries_text_concat(index_entries(cs.drop_last()), group_entries(cs.last(), off));
    }
}

} // verus!
