//! Page records inside one decompressed stream of a multistream dump.
//!
//! A stream holds a sequence of `<page>` elements without a wrapping root,
//! so they are wrapped in `<root>` before reading. Each page contributes its
//! title, page id, revision id and wikitext.

use std::io::Read;

use bzip2::read::BzDecoder;
use vstd::prelude::*;

use crate::dump::xml::{ends_reading, event_view, stops_within_length, xml_cursor, xml_event_at, xml_next, XmlEvent, XmlEventView};
use crate::error::TomeError;
use crate::text::{append_str, chars_of, copy_str, int_error_text, parse_u64_detailed, parse_u64_kind, push_int_error_text, push_str_chars, str_eq, string_of, trim, trim_chars, utf8_decode, utf8_error_text};

verus! {

/// A multistream dump file, by path. Reading the bytes of a stream out of
/// it is I/O and is done by the application around this library, which then
/// hands them to `decompress_stream`.
#[derive(Debug)]
pub struct DumpReader {
    path: String,
}

impl DumpReader {
    /// The path of the dump file.
    pub closed spec fn path_view(&self) -> Seq<char> {
        self.path@
    }

    /// A reader of the dump at `path`.
    pub fn open(path: &str) -> (r: Self)
        ensures
            r.path_view() == path@,
    {
        DumpReader { path: copy_str(path) }
    }

    /// The path of the dump file.
    pub fn path(&self) -> (r: &str)
        ensures
            r@ == self.path_view(),
    {
        self.path.as_str()
    }
}

/// What `bzip2`'s single-stream `BzDecoder`, read to its end, gives for the
/// bytes `data`: the decompressed first stream, or the text of the error.
pub uninterp spec fn bz2_decompressed(data: Seq<u8>) -> Result<Seq<u8>, Seq<char>>;

/// Whether the bytes `blob` decompress to `data`.
pub open spec fn decompresses_to(blob: Seq<u8>, data: Seq<u8>) -> bool {
    bz2_decompressed(blob) == Ok::<Seq<u8>, Seq<char>>(data)
}

/// `BzDecoder::new(data).read_to_end(..)` into a fresh vector: the first
/// bzip2 stream of `data`, decompressed, or the text of the error (bytes
/// that are not bzip2, or that end before the stream does). Bytes after the
/// end of the first stream are not read.
#[verifier::external_body]
fn bz2_decompress(data: &[u8]) -> (r: Result<Vec<u8>, String>)
    ensures
        match bz2_decompressed(data@) {
            Ok(v) => r matches Ok(x) && x@ == v,
            Err(e) => r matches Err(m) && m@ == e,
        },
{
    let mut out = Vec::new();
    match BzDecoder::new(data).read_to_end(&mut out) {
        Ok(_) => Ok(out),
        Err(e) => Err(e.to_string()),
    }
}

/// Decompresses one stream of a multistream dump, given its compressed
/// bytes (from its offset to its end, or to the end of the file). Bytes that
/// do not make a complete bzip2 stream are an `Io` error.
pub fn decompress_stream(compressed: &[u8]) -> (r: Result<Vec<u8>, TomeError>)
    ensures
        match bz2_decompressed(compressed@) {
            Ok(v) => r matches Ok(x) && x@ == v,
            Err(e) => r matches Err(TomeError::Io(m)) && m@ == e,
        },
{
    match bz2_decompress(compressed) {
        Ok(v) => Ok(v),
        Err(e) => Err(TomeError::Io(e)),
    }
}

/// One page of a dump stream.
#[derive(Debug, PartialEq, Eq)]
pub struct RawPage {
    pub page_id: u64,
    pub title: String,
    pub revision_id: u64,
    pub wikitext: String,
}

/// Where the reader is inside the page structure.
#[derive(Debug, Clone, Copy, PartialEq, Eq, Structural)]
pub enum ParseState {
    Outside,
    InPage,
    InTitle,
    InPageId,
    InRevision,
    InRevisionId,
    InText,
}

/// The texts gathered for the page being read.
#[derive(Debug)]
pub struct PageBuilder {
    pub title: String,
    pub page_id: String,
    pub revision_id: String,
    pub wikitext: String,
}

/// The texts of a builder.
pub struct BuilderView {
    pub title: Seq<char>,
    pub page_id: Seq<char>,
    pub revision_id: Seq<char>,
    pub wikitext: Seq<char>,
}

/// A page, with its texts as sequences.
pub struct PageView {
    pub page_id: u64,
    pub title: Seq<char>,
    pub revision_id: u64,
    pub wikitext: Seq<char>,
}

/// The view of a builder.
pub open spec fn builder_view(b: PageBuilder) -> BuilderView {
    BuilderView { title: b.title@, page_id: b.page_id@, revision_id: b.revision_id@, wikitext: b.wikitext@ }
}

/// The view of a page.
pub open spec fn page_view(p: RawPage) -> PageView {
    PageView { page_id: p.page_id, title: p.title@, revision_id: p.revision_id, wikitext: p.wikitext@ }
}

/// The page a builder makes, or the text of the error when an id is not a
/// number.
pub open spec fn build_spec(b: BuilderView) -> Result<PageView, Seq<char>> {
    match parse_u64_kind(b.page_id) {
        Err(k) => Err("bad page id '"@ + b.page_id + "': "@ + int_error_text(k)),
        Ok(page_id) => match parse_u64_kind(b.revision_id) {
            Err(k) => Err("bad revision id '"@ + b.revision_id + "': "@ + int_error_text(k)),
            Ok(revision_id) => Ok(
                PageView { page_id, title: b.title, revision_id, wikitext: b.wikitext },
            ),
        },
    }
}

fn id_error(label: &str, text: &String, k: crate::text::IntErrorKind) -> (r: TomeError)
    ensures
        r matches TomeError::Dump(m) && m@ == label@ + text@ + "': "@ + int_error_text(k),
{
    let mut out: Vec<char> = Vec::new();
    push_str_chars(&mut out, label);
    push_str_chars(&mut out, text.as_str());
    push_str_chars(&mut out, "': ");
    push_int_error_text(&mut out, k);
    TomeError::Dump(string_of(out.as_slice()))
}

impl PageBuilder {
    /// A builder with nothing gathered yet.
    pub fn new() -> (r: Self)
        ensures
            builder_view(r) == (BuilderView {
                title: Seq::empty(),
                page_id: Seq::empty(),
                revision_id: Seq::empty(),
                wikitext: Seq::empty(),
            }),
    {
        PageBuilder {
            title: String::new(),
            page_id: String::new(),
            revision_id: String::new(),
            wikitext: String::new(),
        }
    }

    /// The page gathered so far; both ids must be numbers.
    pub fn build(self) -> (r: Result<RawPage, TomeError>)
        ensures
            match build_spec(builder_view(self)) {
                Ok(p) => r matches Ok(x) && page_view(x) == p,
                Err(m) => r matches Err(TomeError::Dump(x)) && x@ == m,
            },
    {
        let pid = chars_of(self.page_id.as_str());
        let page_id = match parse_u64_detailed(pid.as_slice()) {
            Ok(v) => v,
            Err(k) => return Err(id_error("bad page id '", &self.page_id, k)),
        };
        let rid = chars_of(self.revision_id.as_str());
        let revision_id = match parse_u64_detailed(rid.as_slice()) {
            Ok(v) => v,
            Err(k) => return Err(id_error("bad revision id '", &self.revision_id, k)),
        };
        Ok(RawPage { page_id, title: self.title, revision_id, wikitext: self.wikitext })
    }
}

/// The state after an opening tag, and whether it starts a new page.
pub open spec fn after_start(st: ParseState, tag: Seq<char>) -> (ParseState, bool) {
    if st == ParseState::Outside && tag == "page"@ {
        (ParseState::InPage, true)
    } else if st == ParseState::InPage && tag == "title"@ {
        (ParseState::InTitle, false)
    } else if st == ParseState::InPage && tag == "id"@ {
        (ParseState::InPageId, false)
    } else if st == ParseState::InPage && tag == "revision"@ {
        (ParseState::InRevision, false)
    } else if st == ParseState::InRevision && tag == "id"@ {
        (ParseState::InRevisionId, false)
    } else if st == ParseState::InRevision && tag == "text"@ {
        (ParseState::InText, false)
    } else {
        (st, false)
    }
}

/// The state after a closing tag, and whether it ends the page.
pub open spec fn after_end(st: ParseState, tag: Seq<char>) -> (ParseState, bool) {
    if st == ParseState::InPage && tag == "page"@ {
        (ParseState::Outside, true)
    } else if st == ParseState::InTitle && tag == "title"@ {
        (ParseState::InPage, false)
    } else if st == ParseState::InPageId && tag == "id"@ {
        (ParseState::InPage, false)
    } else if st == ParseState::InRevision && tag == "revision"@ {
        (ParseState::InPage, false)
    } else if st == ParseState::InRevisionId && tag == "id"@ {
        (ParseState::InRevision, false)
    } else if st == ParseState::InText && tag == "text"@ {
        (ParseState::InRevision, false)
    } else {
        (st, false)
    }
}

/// The reading machine: where it is, the page being gathered, and the
/// pages finished so far.
pub struct Machine {
    pub st: ParseState,
    pub cur: Option<BuilderView>,
    pub pages: Seq<PageView>,
}

/// What one event does to the machine.
pub enum Step {
    Continue(Machine),
    Done(Result<Seq<PageView>, Seq<char>>),
}

/// The builder `b` with text `t` added to the field the state `st` reads.
pub open spec fn add_text(b: BuilderView, st: ParseState, t: Seq<char>) -> BuilderView {
    match st {
        ParseState::InTitle => BuilderView { title: b.title + t, ..b },
        ParseState::InPageId => BuilderView { page_id: b.page_id + trim(t), ..b },
        ParseState::InRevisionId => BuilderView { revision_id: b.revision_id + trim(t), ..b },
        ParseState::InText => BuilderView { wikitext: b.wikitext + t, ..b },
        _ => b,
    }
}

/// The effect of one event on the machine.
pub open spec fn step(m: Machine, ev: XmlEventView) -> Step {
    match ev {
        XmlEventView::Start(tag) => {
            let (st, fresh) = after_start(m.st, tag);
            Step::Continue(
                Machine {
                    st,
                    cur: if fresh {
                        Some(
                            BuilderView {
                                title: Seq::empty(),
                                page_id: Seq::empty(),
                                revision_id: Seq::empty(),
                                wikitext: Seq::empty(),
                            },
                        )
                    } else {
                        m.cur
                    },
                    pages: m.pages,
                },
            )
        },
        XmlEventView::End(tag) => {
            let (st, fin) = after_end(m.st, tag);
            if fin {
                match m.cur {
                    Some(b) => match build_spec(b) {
                        Err(msg) => Step::Done(Err(msg)),
                        Ok(p) => Step::Continue(Machine { st, cur: None, pages: m.pages.push(p) }),
                    },
                    None => Step::Continue(Machine { st, cur: None, pages: m.pages }),
                }
            } else {
                Step::Continue(Machine { st, ..m })
            }
        },
        XmlEventView::Text(Err(e)) => Step::Done(Err("xml unescape: "@ + e)),
        XmlEventView::Text(Ok(t)) => match m.cur {
            Some(b) => Step::Continue(Machine { cur: Some(add_text(b, m.st, t)), ..m }),
            None => Step::Continue(m),
        },
        XmlEventView::CData(bytes) => if !vstd::utf8::valid_utf8(bytes) {
            Step::Done(Err("cdata utf-8: "@ + utf8_error_text(bytes)))
        } else {
            match m.cur {
                Some(b) => if m.st == ParseState::InText {
                    Step::Continue(
                        Machine {
                            cur: Some(
                                BuilderView {
                                    wikitext: b.wikitext + vstd::utf8::decode_utf8(bytes),
                                    ..b
                                },
                            ),
                            ..m
                        },
                    )
                } else {
                    Step::Continue(m)
                },
                None => Step::Continue(m),
            }
        },
        XmlEventView::Eof => Step::Done(Ok(m.pages)),
        XmlEventView::Other => Step::Continue(m),
        XmlEventView::Error(e) => Step::Done(Err("xml parse: "@ + e)),
    }
}

/// Running the machine over the events of `text` from the `k`-th, for at
/// most `fuel` events.
pub open spec fn run(text: Seq<char>, k: nat, fuel: nat, m: Machine) -> Result<Seq<PageView>, Seq<char>>
    decreases fuel,
{
    if fuel == 0 {
        Err("xml parse: event limit reached"@)
    } else {
        match step(m, xml_event_at(text, k)) {
            Step::Done(r) => r,
            Step::Continue(m2) => run(text, k + 1, (fuel - 1) as nat, m2),
        }
    }
}

/// The initial machine.
pub open spec fn machine0() -> Machine {
    Machine { st: ParseState::Outside, cur: None, pages: Seq::empty() }
}

/// The text a stream is read as: its characters wrapped in `<root>`.
pub open spec fn wrapped_text(bytes: Seq<u8>) -> Seq<char> {
    "<root>"@ + vstd::utf8::decode_utf8(bytes) + "</root>"@
}

/// What reading the pages of a stream gives: the pages in order, or the text
/// of the `Dump` error. The events are read until one ends the run; the
/// budget of one event per byte of the wrapped text, plus one, never decides
/// the outcome, since the reader stops within it (see `xml_cursor` and
/// `law_budget_never_decides`).
pub open spec fn parse_pages_spec(bytes: Seq<u8>) -> Result<Seq<PageView>, Seq<char>> {
    if !vstd::utf8::valid_utf8(bytes) {
        Err("stream is not valid utf-8: "@ + utf8_error_text(bytes))
    } else {
        run(wrapped_text(bytes), 0, (bytes.len() + 14) as nat, machine0())
    }
}

/// A step on an event that ends reading ends the run.
proof fn lemma_step_ends(m: Machine, e: XmlEventView)
    requires
        ends_reading(e),
    ensures
        step(m, e) is Done,
{
}

/// Once an event that ends reading lies within the budget, more budget
/// changes nothing: the run ends at that event or before.
pub proof fn law_budget_never_decides(text: Seq<char>, k: nat, fuel: nat, extra: nat, stop: nat, m: Machine)
    requires
        k <= stop < k + fuel,
        ends_reading(xml_event_at(text, stop)),
    ensures
        run(text, k, fuel, m) == run(text, k, fuel + extra, m),
    decreases fuel,
{
    if k == stop {
        lemma_step_ends(m, xml_event_at(text, k));
    } else {
        match step(m, xml_event_at(text, k)) {
            Step::Done(_) => {},
            Step::Continue(m2) => {
                law_budget_never_decides(text, k + 1, (fuel - 1) as nat, extra, stop, m2);
                assert((fuel + extra - 1) as nat == ((fuel - 1) as nat + extra) as nat);
            },
        }
    }
}

/// UTF-8 encoding of joined texts is the joined encodings.
proof fn lemma_encode_concat(a: Seq<char>, b: Seq<char>)
    ensures
        vstd::utf8::encode_utf8(a + b) == vstd::utf8::encode_utf8(a) + vstd::utf8::encode_utf8(b),
    decreases a.len(),
{
    if a.len() == 0 {
        assert(a + b =~= b);
        assert(vstd::utf8::encode_utf8(a) =~= Seq::<u8>::empty());
        assert(Seq::<u8>::empty() + vstd::utf8::encode_utf8(b) =~= vstd::utf8::encode_utf8(b));
    } else {
        lemma_encode_concat(a.drop_first(), b);
        assert((a + b)[0] == a[0]);
        assert((a + b).drop_first() =~= a.drop_first() + b);
        assert(vstd::utf8::encode_utf8(a + b) =~= vstd::utf8::encode_scalar(a[0] as u32)
            + vstd::utf8::encode_utf8(a.drop_first()) + vstd::utf8::encode_utf8(b));
    }
}

/// The wrapped text of a valid stream is 13 bytes longer than the stream.
proof fn lemma_wrapped_len(bytes: Seq<u8>)
    requires
        vstd::utf8::valid_utf8(bytes),
    ensures
        vstd::utf8::encode_utf8(wrapped_text(bytes)).len() == bytes.len() + 13,
{
    broadcast use vstd::utf8::decode_utf8_encode_utf8, vstd::utf8::is_ascii_chars_encode_utf8;

    reveal_strlit("<root>");
    reveal_strlit("</root>");
    let d = vstd::utf8::decode_utf8(bytes);
    assert(vstd::utf8::is_ascii_chars("<root>"@));
    assert(vstd::utf8::is_ascii_chars("</root>"@));
    lemma_encode_concat("<root>"@, d);
    lemma_encode_concat("<root>"@ + d, "</root>"@);
}

/// The machine that the reader's own values stand for.
pub open spec fn machine_of(st: ParseState, cur: Option<PageBuilder>, pages: Seq<RawPage>) -> Machine {
    Machine {
        st,
        cur: match cur {
            Some(b) => Some(builder_view(b)),
            None => None,
        },
        pages: pages.map_values(|p: RawPage| page_view(p)),
    }
}

fn after_start_exec(st: ParseState, tag: &str) -> (r: (ParseState, bool))
    ensures
        r == after_start(st, tag@),
{
    let is_outside = match st { ParseState::Outside => true, _ => false };
    let is_page = match st { ParseState::InPage => true, _ => false };
    let is_rev = match st { ParseState::InRevision => true, _ => false };
    if is_outside && str_eq(tag, "page") {
        (ParseState::InPage, true)
    } else if is_page && str_eq(tag, "title") {
        (ParseState::InTitle, false)
    } else if is_page && str_eq(tag, "id") {
        (ParseState::InPageId, false)
    } else if is_page && str_eq(tag, "revision") {
        (ParseState::InRevision, false)
    } else if is_rev && str_eq(tag, "id") {
        (ParseState::InRevisionId, false)
    } else if is_rev && str_eq(tag, "text") {
        (ParseState::InText, false)
    } else {
        (st, false)
    }
}

fn after_end_exec(st: ParseState, tag: &str) -> (r: (ParseState, bool))
    ensures
        r == after_end(st, tag@),
{
    match st {
        ParseState::InPage => if str_eq(tag, "page") {
            (ParseState::Outside, true)
        } else {
            (st, false)
        },
        ParseState::InTitle => if str_eq(tag, "title") {
            (ParseState::InPage, false)
        } else {
            (st, false)
        },
        ParseState::InPageId => if str_eq(tag, "id") {
            (ParseState::InPage, false)
        } else {
            (st, false)
        },
        ParseState::InRevision => if str_eq(tag, "revision") {
            (ParseState::InPage, false)
        } else {
            (st, false)
        },
        ParseState::InRevisionId => if str_eq(tag, "id") {
            (ParseState::InRevision, false)
        } else {
            (st, false)
        },
        ParseState::InText => if str_eq(tag, "text") {
            (ParseState::InRevision, false)
        } else {
            (st, false)
        },
        ParseState::Outside => (st, false),
    }
}

fn add_text_exec(b: &mut PageBuilder, st: ParseState, t: &str)
    ensures
        builder_view(*final(b)) == add_text(builder_view(*old(b)), st, t@),
{
    match st {
        ParseState::InTitle => append_str(&mut b.title, t),
        ParseState::InPageId => {
            let tc = chars_of(t);
            let tr = string_of(trim_chars(tc.as_slice()).as_slice());
            append_str(&mut b.page_id, tr.as_str());
        },
        ParseState::InRevisionId => {
            let tc = chars_of(t);
            let tr = string_of(trim_chars(tc.as_slice()).as_slice());
            append_str(&mut b.revision_id, tr.as_str());
        },
        ParseState::InText => append_str(&mut b.wikitext, t),
        _ => {},
    }
}

fn dump_error(prefix: &str, detail: &String) -> (r: TomeError)
    ensures
        r matches TomeError::Dump(m) && m@ == prefix@ + detail@,
{
    TomeError::Dump(crate::error::prefixed(prefix, detail))
}

/// A reader of page records, event by event: where it is, the page being
/// gathered, and the pages finished so far.
#[derive(Debug)]
pub struct PageReader {
    pub state: ParseState,
    pub current: Option<PageBuilder>,
    pub pages: Vec<RawPage>,
}

/// The machine a reader stands for.
pub open spec fn reader_machine(r: PageReader) -> Machine {
    machine_of(r.state, r.current, r.pages@)
}

impl PageReader {
    /// A reader outside any page, with no pages yet.
    pub fn new() -> (r: Self)
        ensures
            reader_machine(r) == machine0(),
    {
        let r = PageReader { state: ParseState::Outside, current: None, pages: Vec::new() };
        assert(r.pages@.map_values(|p: RawPage| page_view(p)) =~= Seq::<PageView>::empty());
        r
    }

    /// Applies one event. `None` means reading goes on; `Some(Ok(()))` means
    /// the document ended and `pages` holds every page; `Some(Err(..))` is
    /// the `Dump` error that ends the read.
    pub fn apply(&mut self, ev: XmlEvent) -> (r: Option<Result<(), TomeError>>)
        ensures
            match step(reader_machine(*old(self)), event_view(ev)) {
                Step::Continue(m2) => r is None && reader_machine(*final(self)) == m2,
                Step::Done(Ok(ps)) => r matches Some(Ok(())) && reader_machine(*final(self)).pages == ps,
                Step::Done(Err(m)) => r matches Some(Err(TomeError::Dump(x))) && x@ == m,
            },
    {
        let ghost old_pages = self.pages@;
        match ev {
            XmlEvent::Start(tag) => {
                let (st2, fresh) = after_start_exec(self.state, tag.as_str());
                self.state = st2;
                if fresh {
                    self.current = Some(PageBuilder::new());
                }
                None
            },
            XmlEvent::End(tag) => {
                let (st2, fin) = after_end_exec(self.state, tag.as_str());
                self.state = st2;
                if fin {
                    let mut taken: Option<PageBuilder> = None;
                    std::mem::swap(&mut taken, &mut self.current);
                    match taken {
                        Some(b) => match b.build() {
                            Ok(p) => {
                                self.pages.push(p);
                                assert(self.pages@.map_values(|p: RawPage| page_view(p)) =~= old_pages.map_values(
                                    |p: RawPage| page_view(p),
                                ).push(page_view(p)));
                            },
                            Err(e) => return Some(Err(e)),
                        },
                        None => {},
                    }
                }
                None
            },
            XmlEvent::Text(Err(e)) => Some(Err(dump_error("xml unescape: ", &e))),
            XmlEvent::Text(Ok(t)) => {
                let mut taken: Option<PageBuilder> = None;
                std::mem::swap(&mut taken, &mut self.current);
                if let Some(mut b) = taken {
                    add_text_exec(&mut b, self.state, t.as_str());
                    self.current = Some(b);
                }
                None
            },
            XmlEvent::CData(bytes) => match utf8_decode(bytes.as_slice()) {
                Err(e) => Some(Err(dump_error("cdata utf-8: ", &e))),
                Ok(t) => {
                    let in_text = match self.state {
                        ParseState::InText => true,
                        _ => false,
                    };
                    let mut taken: Option<PageBuilder> = None;
                    std::mem::swap(&mut taken, &mut self.current);
                    if let Some(mut b) = taken {
                        if in_text {
                            append_str(&mut b.wikitext, t.as_str());
                        }
                        self.current = Some(b);
                    }
                    None
                },
            },
            XmlEvent::Eof => Some(Ok(())),
            XmlEvent::Other => None,
            XmlEvent::Error(e) => Some(Err(dump_error("xml parse: ", &e))),
        }
    }
}

/// Reads the `<page>` records of one decompressed stream, in order.
///
/// The stream must be UTF-8; the records are read from the stream wrapped in
/// `<root>` and `</root>`. A page whose id or revision id is not a number, an
/// XML syntax error, a bad entity or a CDATA section that is not UTF-8 ends
/// the read with a `Dump` error.
pub fn parse_pages(stream_bytes: &[u8]) -> (r: Result<Vec<RawPage>, TomeError>)
    requires
        stream_bytes@.len() + 16 <= usize::MAX,
    ensures
        match parse_pages_spec(stream_bytes@) {
            Ok(ps) => r matches Ok(v) && v@.map_values(|p: RawPage| page_view(p)) == ps,
            Err(m) => r matches Err(TomeError::Dump(x)) && x@ == m,
        },
{
    let xml = match utf8_decode(stream_bytes) {
        Ok(s) => s,
        Err(e) => return Err(dump_error("stream is not valid utf-8: ", &e)),
    };
    let mut wrapped = copy_str("<root>");
    append_str(&mut wrapped, xml.as_str());
    append_str(&mut wrapped, "</root>");
    let ghost text = wrapped@;
    let ghost budget: nat = (stream_bytes@.len() + 14) as nat;
    let mut cursor = xml_cursor(wrapped.as_str());
    let mut reader = PageReader::new();
    assert(text == wrapped_text(stream_bytes@));
    proof {
        lemma_wrapped_len(stream_bytes@);
    }
    let ghost stop: nat = choose|k: nat|
        k <= vstd::utf8::encode_utf8(text).len() && ends_reading(#[trigger] xml_event_at(text, k));
    loop
        invariant
            cursor.text() == text,
            stop < budget,
            budget + 2 <= usize::MAX,
            ends_reading(xml_event_at(text, stop)),
            cursor.count() <= stop,
            parse_pages_spec(stream_bytes@) == run(text, 0, budget, machine0()),
            run(text, 0, budget, machine0()) == run(
                text,
                cursor.count(),
                (budget - cursor.count()) as nat,
                reader_machine(reader),
            ),
        decreases stop - cursor.count(),
    {
        let ghost k = cursor.count();
        let ev = xml_next(&mut cursor);
        match reader.apply(ev) {
            None => {
                proof {
                    if k == stop {
                        lemma_step_ends(reader_machine(reader), xml_event_at(text, k));
                    }
                }
            },
            Some(Ok(())) => return Ok(reader.pages),
            Some(Err(e)) => return Err(e),
        }
    }
}

} // verus!
