//! The decisions of the article reading and index ingest flows.
//!
//! Reading an article goes by the tier of its stored content: Hot and Warm
//! content is rendered locally, Cold content comes from the API's cached
//! HTML or, failing that, from its dump stream, and Evicted content is
//! refused until the user confirms a fetch. Ingesting the dump index
//! gathers entries into batches for the store and reports progress at a
//! fixed spacing.

use vstd::prelude::*;

use crate::dump::index::IndexEntry;
use crate::dump::stream::{page_view, parse_pages, parse_pages_spec, PageView, RawPage};
use crate::error::TomeError;
use crate::text::{copy_str, decimal, push_decimal, push_str_chars, string_of};

verus! {

/// Where the HTML of an article came from.
#[derive(Debug, Clone, Copy, PartialEq, Eq, Structural)]
pub enum ArticleSource {
    /// Hot tier: plain wikitext rendered locally.
    HotLocal,
    /// Warm tier: decompressed wikitext rendered locally.
    WarmLocal,
    /// The dump: a decoded stream rendered locally.
    DumpLocal,
    /// Cached Parsoid HTML from the API.
    ApiCachedHtml,
}

/// An article ready to show.
#[derive(Debug)]
pub struct ArticleResponse {
    pub title: String,
    pub html: String,
    pub source: ArticleSource,
    pub revision_id: Option<u64>,
}

/// The outcome of an index ingest.
#[derive(Debug, Clone, Copy)]
pub struct IngestSummary {
    pub entries_processed: u64,
    pub elapsed_ms: u64,
}

/// How many articles each tier holds.
#[derive(Debug, Clone, Copy)]
pub struct TierCounts {
    pub hot: u64,
    pub warm: u64,
    pub cold: u64,
    pub evicted: u64,
}

/// The stored content of an article, by tier.
#[derive(Debug)]
pub enum ArticleContent {
    Hot(String),
    Warm(String),
    Cold { stream_offset: u64, stream_length: Option<u64> },
    Evicted,
}

/// What reading an article needs next.
#[derive(Debug)]
pub enum ReadPlan {
    /// Render this wikitext locally and report the given source.
    Render { wikitext: String, source: ArticleSource },
    /// Fetch the article's cached HTML or its dump stream.
    Cold { stream_offset: u64, stream_length: Option<u64> },
}

/// The text of the error for an evicted article.
pub open spec fn evicted_text(title: Seq<char>) -> Seq<char> {
    "article '"@ + title + "' is evicted; user confirmation required to fetch"@
}

/// What reading an article with content `content` needs next: Hot and Warm
/// content is rendered locally, Cold content is fetched, and Evicted
/// content is refused with an `Other` error.
pub fn plan_read(title: &str, content: ArticleContent) -> (r: Result<ReadPlan, TomeError>)
    ensures
        match content {
            ArticleContent::Hot(w) => r matches Ok(ReadPlan::Render { wikitext, source })
                && wikitext@ == w@ && source == ArticleSource::HotLocal,
            ArticleContent::Warm(w) => r matches Ok(ReadPlan::Render { wikitext, source })
                && wikitext@ == w@ && source == ArticleSource::WarmLocal,
            ArticleContent::Cold { stream_offset, stream_length } => r matches Ok(
                ReadPlan::Cold { stream_offset: o, stream_length: l },
            ) && o == stream_offset && l == stream_length,
            ArticleContent::Evicted => r matches Err(TomeError::Other(m)) && m@ == evicted_text(
                title@,
            ),
        },
{
    match content {
        ArticleContent::Hot(w) => Ok(ReadPlan::Render { wikitext: w, source: ArticleSource::HotLocal }),
        ArticleContent::Warm(w) => Ok(
            ReadPlan::Render { wikitext: w, source: ArticleSource::WarmLocal },
        ),
        ArticleContent::Cold { stream_offset, stream_length } => Ok(
            ReadPlan::Cold { stream_offset, stream_length },
        ),
        ArticleContent::Evicted => {
            let mut out: Vec<char> = Vec::new();
            push_str_chars(&mut out, "article '");
            push_str_chars(&mut out, title);
            push_str_chars(&mut out, "' is evicted; user confirmation required to fetch");
            Err(TomeError::Other(string_of(out.as_slice())))
        },
    }
}

/// The response for a Cold article served from the API's cached HTML.
pub fn api_response(title: &str, html: String, revision_id: Option<u64>) -> (r: ArticleResponse)
    ensures
        r.title@ == title@,
        r.html == html,
        r.source == ArticleSource::ApiCachedHtml,
        r.revision_id == revision_id,
{
    ArticleResponse {
        title: crate::text::copy_str(title),
        html,
        source: ArticleSource::ApiCachedHtml,
        revision_id,
    }
}

/// The text of the error when a stream lacks the wanted page.
pub open spec fn missing_page_text(page_id: u64, stream_offset: u64) -> Seq<char> {
    "page_id "@ + decimal(page_id as nat) + " not found in stream at "@ + decimal(
        stream_offset as nat,
    )
}

/// The position in `pages`, the pages of the stream at `stream_offset`, of
/// the first one with id `page_id`, or a `Dump` error when there is none.
pub fn find_page(pages: &[RawPage], page_id: u64, stream_offset: u64) -> (r: Result<usize, TomeError>)
    ensures
        match r {
            Ok(i) => i < pages@.len() && pages@[i as int].page_id == page_id && forall|j: int|
                0 <= j < i ==> (#[trigger] pages@[j]).page_id != page_id,
            Err(e) => (forall|j: int| 0 <= j < pages@.len() ==> (#[trigger] pages@[j]).page_id != page_id)
                && (e matches TomeError::Dump(m) && m@ == missing_page_text(page_id, stream_offset)),
        },
{
    let mut i: usize = 0;
    while i < pages.len()
        invariant
            i <= pages@.len(),
            forall|j: int| 0 <= j < i ==> (#[trigger] pages@[j]).page_id != page_id,
        decreases pages@.len() - i,
    {
        if pages[i].page_id == page_id {
            return Ok(i);
        }
        i = i + 1;
    }
    let mut out: Vec<char> = Vec::new();
    push_str_chars(&mut out, "page_id ");
    push_decimal(&mut out, page_id);
    push_str_chars(&mut out, " not found in stream at ");
    push_decimal(&mut out, stream_offset);
    assert(out@ =~= missing_page_text(page_id, stream_offset));
    Err(TomeError::Dump(string_of(out.as_slice())))
}

/// The response for a Cold article rendered from its dump page.
pub fn dump_response(title: &str, html: String, page: &RawPage) -> (r: ArticleResponse)
    ensures
        r.title@ == title@,
        r.html == html,
        r.source == ArticleSource::DumpLocal,
        r.revision_id == Some(page.revision_id),
{
    ArticleResponse {
        title: crate::text::copy_str(title),
        html,
        source: ArticleSource::DumpLocal,
        revision_id: Some(page.revision_id),
    }
}

/// What the store knows of an article: its page id, its stored title and
/// its revision, if known.
#[derive(Debug)]
pub struct ArticleRecord {
    pub page_id: u64,
    pub title: String,
    pub revision_id: Option<u64>,
}

/// What reading an article asks of the application next.
#[derive(Debug)]
pub enum ReadStep {
    /// Get the stored content of this page, then call `on_content`.
    GetContent(u64),
    /// Fetch the article's cached HTML from the API, then call `on_api`.
    FetchApiHtml { title: String, revision_id: Option<u64> },
    /// Read and decompress this dump stream, then call `on_stream`.
    ReadStream { stream_offset: u64, stream_length: Option<u64> },
    /// Render this wikitext to HTML, then call `on_rendered`.
    Render(String),
    /// Mark this page as read in the store, then call `on_touched`.
    Touch(u64),
    /// Reading is over, with this outcome.
    Finish(Result<ArticleResponse, TomeError>),
}

/// Where a read of an article stands.
#[derive(Debug, Clone, Copy, PartialEq, Eq, Structural)]
pub enum ReadPhase {
    AwaitRecord,
    AwaitContent,
    AwaitApi,
    AwaitStream,
    AwaitRender,
    AwaitTouch,
    Done,
}

/// One read of an article, from looking its title up to marking it read.
///
/// The application looks the title up in the store and hands the record to
/// `on_record`; each method then names the next step, whose outcome goes to
/// the method the step names, until a step is `Finish`.
#[derive(Debug)]
pub struct ArticleRead {
    pub phase: ReadPhase,
    /// The title as the reader asked for it.
    pub requested: String,
    /// Whether Cold articles are fetched from the API before the dump.
    pub prefer_api: bool,
    pub record: Option<ArticleRecord>,
    pub stream_offset: u64,
    pub stream_length: Option<u64>,
    pub source: ArticleSource,
    pub revision_id: Option<u64>,
    pub response: Option<ArticleResponse>,
}

/// The position of the first page with id `page_id` in `ps`, if any.
pub open spec fn first_page(ps: Seq<PageView>, page_id: u64) -> Option<int> {
    if exists|i: int| 0 <= i < ps.len() && ps[i].page_id == page_id {
        Some(
            choose|i: int|
                0 <= i < ps.len() && ps[i].page_id == page_id && forall|j: int|
                    0 <= j < i ==> (#[trigger] ps[j]).page_id != page_id,
        )
    } else {
        None
    }
}

proof fn lemma_first_page(ps: Seq<PageView>, page_id: u64, i: int)
    requires
        0 <= i < ps.len(),
        ps[i].page_id == page_id,
        forall|j: int| 0 <= j < i ==> (#[trigger] ps[j]).page_id != page_id,
    ensures
        first_page(ps, page_id) == Some(i),
{
    let c = choose|k: int|
        0 <= k < ps.len() && ps[k].page_id == page_id && forall|j: int|
            0 <= j < k ==> (#[trigger] ps[j]).page_id != page_id;
    assert(0 <= c < ps.len() && ps[c].page_id == page_id && forall|j: int|
        0 <= j < c ==> (#[trigger] ps[j]).page_id != page_id);
    if c < i {
        assert(ps[c].page_id != page_id);
    }
    if i < c {
        assert(ps[i].page_id != page_id);
    }
}

/// Whether `r` has the given title, HTML, source and revision.
pub open spec fn response_is(
    r: ArticleResponse,
    title: Seq<char>,
    html: Seq<char>,
    source: ArticleSource,
    revision_id: Option<u64>,
) -> bool {
    r.title@ == title && r.html@ == html && r.source == source && r.revision_id == revision_id
}

impl ArticleRead {
    /// A read of the article the reader asked for as `requested`, waiting
    /// for the store's record of it.
    pub fn new(requested: &str, prefer_api: bool) -> (r: Self)
        ensures
            r.phase == ReadPhase::AwaitRecord,
            r.requested@ == requested@,
            r.prefer_api == prefer_api,
            r.record is None,
            r.response is None,
    {
        ArticleRead {
            phase: ReadPhase::AwaitRecord,
            requested: copy_str(requested),
            prefer_api,
            record: None,
            stream_offset: 0,
            stream_length: None,
            source: ArticleSource::HotLocal,
            revision_id: None,
            response: None,
        }
    }

    /// The store's record of the title: none is a `NotFound` error naming
    /// the title asked for; otherwise its content is asked for.
    pub fn on_record(&mut self, record: Option<ArticleRecord>) -> (r: ReadStep)
        requires
            old(self).phase == ReadPhase::AwaitRecord,
        ensures
            final(self).requested == old(self).requested,
            final(self).prefer_api == old(self).prefer_api,
            match record {
                None => r matches ReadStep::Finish(Err(TomeError::NotFound(m))) && m@
                    == old(self).requested@ && final(self).phase == ReadPhase::Done,
                Some(rec) => r == ReadStep::GetContent(rec.page_id) && final(self).phase
                    == ReadPhase::AwaitContent && final(self).record == Some(rec),
            },
    {
        match record {
            None => {
                self.phase = ReadPhase::Done;
                ReadStep::Finish(Err(TomeError::NotFound(copy_str(self.requested.as_str()))))
            },
            Some(rec) => {
                let id = rec.page_id;
                self.record = Some(rec);
                self.phase = ReadPhase::AwaitContent;
                ReadStep::GetContent(id)
            },
        }
    }

    /// The stored content of the article. None is a `NotFound` error naming
    /// the title asked for. Hot and Warm wikitext is rendered. A Cold
    /// article is fetched from the API when that is preferred, else read
    /// from its dump stream. An Evicted article is refused with an `Other`
    /// error naming its stored title.
    pub fn on_content(&mut self, content: Option<ArticleContent>) -> (r: ReadStep)
        requires
            old(self).phase == ReadPhase::AwaitContent,
            old(self).record is Some,
        ensures
            final(self).requested == old(self).requested,
            final(self).prefer_api == old(self).prefer_api,
            final(self).record == old(self).record,
            ({
                let rec = old(self).record->0;
                match content {
                    None => r matches ReadStep::Finish(Err(TomeError::NotFound(m))) && m@
                        == old(self).requested@ && final(self).phase == ReadPhase::Done,
                    Some(ArticleContent::Hot(w)) => r matches ReadStep::Render(x) && x@ == w@
                        && final(self).phase == ReadPhase::AwaitRender && final(self).source
                        == ArticleSource::HotLocal && final(self).revision_id == rec.revision_id,
                    Some(ArticleContent::Warm(w)) => r matches ReadStep::Render(x) && x@ == w@
                        && final(self).phase == ReadPhase::AwaitRender && final(self).source
                        == ArticleSource::WarmLocal && final(self).revision_id == rec.revision_id,
                    Some(ArticleContent::Cold { stream_offset, stream_length }) => {
                        &&& final(self).stream_offset == stream_offset
                        &&& final(self).stream_length == stream_length
                        &&& if old(self).prefer_api {
                            r matches ReadStep::FetchApiHtml { title, revision_id } && title@
                                == rec.title@ && revision_id == rec.revision_id && final(self).phase
                                == ReadPhase::AwaitApi
                        } else {
                            r == (ReadStep::ReadStream { stream_offset, stream_length })
                                && final(self).phase == ReadPhase::AwaitStream
                        }
                    },
                    Some(ArticleContent::Evicted) => r matches ReadStep::Finish(
                        Err(TomeError::Other(m)),
                    ) && m@ == evicted_text(rec.title@) && final(self).phase == ReadPhase::Done,
                }
            }),
    {
        let content = match content {
            None => {
                self.phase = ReadPhase::Done;
                return ReadStep::Finish(Err(TomeError::NotFound(copy_str(self.requested.as_str()))));
            },
            Some(c) => c,
        };
        let (title, revision_id) = match &self.record {
            Some(rec) => (copy_str(rec.title.as_str()), rec.revision_id),
            None => (String::new(), None),
        };
        match plan_read(title.as_str(), content) {
            Err(e) => {
                self.phase = ReadPhase::Done;
                ReadStep::Finish(Err(e))
            },
            Ok(ReadPlan::Render { wikitext, source }) => {
                self.source = source;
                self.revision_id = revision_id;
                self.phase = ReadPhase::AwaitRender;
                ReadStep::Render(wikitext)
            },
            Ok(ReadPlan::Cold { stream_offset, stream_length }) => {
                self.stream_offset = stream_offset;
                self.stream_length = stream_length;
                if self.prefer_api {
                    self.phase = ReadPhase::AwaitApi;
                    ReadStep::FetchApiHtml { title, revision_id }
                } else {
                    self.phase = ReadPhase::AwaitStream;
                    ReadStep::ReadStream { stream_offset, stream_length }
                }
            },
        }
    }

    /// The API's answer for a Cold article: its HTML makes the response,
    /// and the page is then marked read; any failure (offline, kill switch,
    /// open breaker, ...) falls back to the dump stream.
    pub fn on_api(&mut self, result: Result<String, TomeError>) -> (r: ReadStep)
        requires
            old(self).phase == ReadPhase::AwaitApi,
            old(self).record is Some,
        ensures
            final(self).requested == old(self).requested,
            final(self).record == old(self).record,
            final(self).stream_offset == old(self).stream_offset,
            ({
                let rec = old(self).record->0;
                match result {
                    Ok(html) => {
                        &&& r == ReadStep::Touch(rec.page_id)
                        &&& final(self).phase == ReadPhase::AwaitTouch
                        &&& final(self).response matches Some(resp) && response_is(
                            resp,
                            rec.title@,
                            html@,
                            ArticleSource::ApiCachedHtml,
                            rec.revision_id,
                        )
                    },
                    Err(_) => r == (ReadStep::ReadStream {
                        stream_offset: old(self).stream_offset,
                        stream_length: old(self).stream_length,
                    }) && final(self).phase == ReadPhase::AwaitStream,
                }
            }),
    {
        let (title, page_id, revision_id) = match &self.record {
            Some(rec) => (copy_str(rec.title.as_str()), rec.page_id, rec.revision_id),
            None => (String::new(), 0, None),
        };
        match result {
            Ok(html) => {
                self.response = Some(api_response(title.as_str(), html, revision_id));
                self.phase = ReadPhase::AwaitTouch;
                ReadStep::Touch(page_id)
            },
            Err(_) => {
                self.phase = ReadPhase::AwaitStream;
                ReadStep::ReadStream { stream_offset: self.stream_offset, stream_length: self.stream_length }
            },
        }
    }

    /// The decompressed dump stream of a Cold article: a read error ends the
    /// read with it; otherwise the stream's pages are read, and the first
    /// one with the article's page id is rendered. Pages that do not read
    /// end with their `Dump` error, and a stream without the page with a
    /// `Dump` error naming the page and the stream.
    pub fn on_stream(&mut self, bytes: Result<Vec<u8>, TomeError>) -> (r: ReadStep)
        requires
            old(self).phase == ReadPhase::AwaitStream,
            old(self).record is Some,
            bytes matches Ok(b) ==> b@.len() + 16 <= usize::MAX,
        ensures
            final(self).requested == old(self).requested,
            final(self).record == old(self).record,
            ({
                let rec = old(self).record->0;
                match bytes {
                    Err(e) => r == ReadStep::Finish(Err(e)) && final(self).phase == ReadPhase::Done,
                    Ok(b) => match parse_pages_spec(b@) {
                        Err(m) => r matches ReadStep::Finish(Err(TomeError::Dump(x))) && x@ == m
                            && final(self).phase == ReadPhase::Done,
                        Ok(ps) => match first_page(ps, rec.page_id) {
                            None => r matches ReadStep::Finish(Err(TomeError::Dump(x))) && x@
                                == missing_page_text(rec.page_id, old(self).stream_offset)
                                && final(self).phase == ReadPhase::Done,
                            Some(i) => r matches ReadStep::Render(w) && w@ == ps[i].wikitext
                                && final(self).phase == ReadPhase::AwaitRender && final(self).source
                                == ArticleSource::DumpLocal && final(self).revision_id == Some(
                                ps[i].revision_id,
                            ),
                        },
                    },
                }
            }),
    {
        let page_id = match &self.record {
            Some(rec) => rec.page_id,
            None => 0,
        };
        let b = match bytes {
            Err(e) => {
                self.phase = ReadPhase::Done;
                return ReadStep::Finish(Err(e));
            },
            Ok(b) => b,
        };
        let pages = match parse_pages(b.as_slice()) {
            Err(e) => {
                self.phase = ReadPhase::Done;
                return ReadStep::Finish(Err(e));
            },
            Ok(p) => p,
        };
        let ghost ps = pages@.map_values(|p: RawPage| page_view(p));
        match find_page(pages.as_slice(), page_id, self.stream_offset) {
            Err(e) => {
                proof {
                    assert forall|j: int| 0 <= j < ps.len() implies ps[j].page_id != page_id by {
                        assert(ps[j] == page_view(pages@[j]));
                    }
                }
                self.phase = ReadPhase::Done;
                ReadStep::Finish(Err(e))
            },
            Ok(i) => {
                proof {
                    assert forall|j: int| 0 <= j < i implies (#[trigger] ps[j]).page_id != page_id by {
                        assert(ps[j] == page_view(pages@[j]));
                    }
                    assert(ps[i as int] == page_view(pages@[i as int]));
                    lemma_first_page(ps, page_id, i as int);
                }
                let w = copy_str(pages[i].wikitext.as_str());
                self.source = ArticleSource::DumpLocal;
                self.revision_id = Some(pages[i].revision_id);
                self.phase = ReadPhase::AwaitRender;
                ReadStep::Render(w)
            },
        }
    }

    /// The rendered HTML: it makes the response, with the stored title, and
    /// the page is then marked read.
    pub fn on_rendered(&mut self, html: String) -> (r: ReadStep)
        requires
            old(self).phase == ReadPhase::AwaitRender,
            old(self).record is Some,
        ensures
            final(self).requested == old(self).requested,
            final(self).record == old(self).record,
            r == ReadStep::Touch(old(self).record->0.page_id),
            final(self).phase == ReadPhase::AwaitTouch,
            final(self).response matches Some(resp) && response_is(
                resp,
                old(self).record->0.title@,
                html@,
                old(self).source,
                old(self).revision_id,
            ),
    {
        let (title, page_id) = match &self.record {
            Some(rec) => (copy_str(rec.title.as_str()), rec.page_id),
            None => (String::new(), 0),
        };
        self.response = Some(
            ArticleResponse { title, html, source: self.source, revision_id: self.revision_id },
        );
        self.phase = ReadPhase::AwaitTouch;
        ReadStep::Touch(page_id)
    }

    /// The store's answer to marking the page read: an error ends the read
    /// with it; otherwise the response is returned.
    pub fn on_touched(&mut self, result: Result<(), TomeError>) -> (r: ReadStep)
        requires
            old(self).phase == ReadPhase::AwaitTouch,
            old(self).response is Some,
        ensures
            final(self).phase == ReadPhase::Done,
            match result {
                Err(e) => r == ReadStep::Finish(Err(e)),
                Ok(()) => r matches ReadStep::Finish(Ok(resp)) && resp == old(self).response->0,
            },
    {
        self.phase = ReadPhase::Done;
        let mut taken: Option<ArticleResponse> = None;
        std::mem::swap(&mut taken, &mut self.response);
        match result {
            Err(e) => ReadStep::Finish(Err(e)),
            Ok(()) => match taken {
                Some(resp) => ReadStep::Finish(Ok(resp)),
                None => ReadStep::Finish(Err(TomeError::Cancelled)),
            },
        }
    }
}

/// Index entries are written to the store in batches of this many.
pub const INGEST_BATCH_SIZE: usize = 5000;

/// Progress is reported each time the running total passes another step of
/// this many entries.
pub const INGEST_PROGRESS_INTERVAL: u64 = 10000;

/// One row for the store: page id, title and stream offset.
pub type ColdRow = (u64, String, u64);

/// Gathers index entries into batches and keeps the running total.
pub struct IngestBatcher {
    batch: Vec<ColdRow>,
    total: u64,
    next_progress: u64,
}

/// The running total and the total at which progress is next reported.
pub struct ProgressView {
    pub total: u64,
    pub next_progress: u64,
}

/// The total and the next report after `n` more entries were stored: a
/// report of the new total when it reaches the next report point, which then
/// moves one interval past it.
pub open spec fn flushed_spec(p: ProgressView, n: u64) -> (ProgressView, Option<u64>) {
    let total = (p.total + n) as u64;
    if total >= p.next_progress {
        (ProgressView { total, next_progress: (total + INGEST_PROGRESS_INTERVAL) as u64 }, Some(total))
    } else {
        (ProgressView { total, next_progress: p.next_progress }, None)
    }
}

/// Whether the totals of `n` more stored entries fit, together with the
/// next report point it may move.
pub open spec fn flush_fits(p: ProgressView, n: u64) -> bool {
    p.total + n + INGEST_PROGRESS_INTERVAL <= u64::MAX
}

impl IngestBatcher {
    /// A batch is handed out as soon as it is full, so what is pending is
    /// always short of a full batch.
    #[verifier::type_invariant]
    spec fn pending_short(&self) -> bool {
        self.batch@.len() < INGEST_BATCH_SIZE
    }

    /// The entries gathered and not yet handed out.
    pub closed spec fn pending(&self) -> Seq<ColdRow> {
        self.batch@
    }

    /// The running total and the next report point.
    pub closed spec fn progress(&self) -> ProgressView {
        ProgressView { total: self.total, next_progress: self.next_progress }
    }

    /// A batcher with nothing gathered, a total of zero, and the first report
    /// due at one interval.
    pub fn new() -> (r: Self)
        ensures
            r.pending().len() == 0,
            r.progress() == (ProgressView { total: 0, next_progress: INGEST_PROGRESS_INTERVAL }),
    {
        IngestBatcher { batch: Vec::new(), total: 0, next_progress: INGEST_PROGRESS_INTERVAL }
    }

    /// Gathers `entry`; when the batch is full, hands it out to be stored.
    pub fn push(&mut self, entry: IndexEntry) -> (r: Option<Vec<ColdRow>>)
        ensures
            final(self).progress() == old(self).progress(),
            ({
                let all = old(self).pending().push((entry.page_id, entry.title, entry.stream_offset));
                if all.len() >= INGEST_BATCH_SIZE {
                    r matches Some(b) && b@ == all && final(self).pending().len() == 0
                } else {
                    r is None && final(self).pending() == all
                }
            }),
    {
        proof {
            use_type_invariant(&*self);
        }
        let mut batch: Vec<ColdRow> = Vec::new();
        std::mem::swap(&mut batch, &mut self.batch);
        batch.push((entry.page_id, entry.title, entry.stream_offset));
        if batch.len() >= INGEST_BATCH_SIZE {
            Some(batch)
        } else {
            self.batch = batch;
            None
        }
    }

    /// Adds `n` stored entries to the total; returns the total when a
    /// progress report is due.
    pub fn flushed(&mut self, n: u64) -> (r: Option<u64>)
        requires
            flush_fits(old(self).progress(), n),
        ensures
            (final(self).progress(), r) == flushed_spec(old(self).progress(), n),
            final(self).pending() == old(self).pending(),
    {
        proof {
            use_type_invariant(&*self);
        }
        self.total = self.total + n;
        if self.total >= self.next_progress {
            self.next_progress = self.total + INGEST_PROGRESS_INTERVAL;
            Some(self.total)
        } else {
            None
        }
    }

    /// The entries left over at the end, if there are any.
    pub fn remainder(&mut self) -> (r: Option<Vec<ColdRow>>)
        ensures
            final(self).progress() == old(self).progress(),
            final(self).pending().len() == 0,
            old(self).pending().len() == 0 ==> r is None,
            old(self).pending().len() > 0 ==> (r matches Some(b) && b@ == old(self).pending()),
    {
        if self.batch.len() == 0 {
            None
        } else {
            let mut rest: Vec<ColdRow> = Vec::new();
            std::mem::swap(&mut rest, &mut self.batch);
            Some(rest)
        }
    }

    /// The entries stored so far.
    pub fn total(&self) -> (r: u64)
        ensures
            r == self.progress().total,
    {
        self.total
    }
}

/// Progress reports are spaced: once a total is reported, the next report
/// comes no sooner than one interval later, however the stored counts fall.
pub proof fn law_progress_reports_spaced(p: ProgressView, n1: u64, n2: u64)
    requires
        flush_fits(p, n1),
        flush_fits(flushed_spec(p, n1).0, n2),
        flushed_spec(p, n1).1 is Some,
        flushed_spec(flushed_spec(p, n1).0, n2).1 is Some,
    ensures
        flushed_spec(flushed_spec(p, n1).0, n2).1.unwrap() >= flushed_spec(p, n1).1.unwrap()
            + INGEST_PROGRESS_INTERVAL,
{
}

} // verus!
