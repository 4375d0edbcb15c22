//! The governance decisions behind every outbound MediaWiki request.
//!
//! A [`Governor`] composes the kill switch, circuit breaker, response cache,
//! request log and backoff schedule into a state machine. The caller performs
//! the actions it asks for (send a request, wait some seconds) and reports
//! what happened; the governor decides what comes next, until it hands back
//! the final answer.

use url::Url;
use vstd::prelude::*;

use crate::api::backoff::{after_failure, delay_spec, schedule_secs, BackoffState, MAX_RETRY_AFTER_SECS};
use crate::api::breaker::{open_at, poll_spec, record_spec, BreakerView, CircuitBreaker};
use crate::api::cache::Cache;
use crate::api::log_buffer::{push_spec, RequestEntry, RequestLog, DEFAULT_CAPACITY};
use crate::api::transport::{retry_after_spec, http_error_message, HttpError, HttpRequest, HttpResponse};
use crate::config::{DEFAULT_USER_AGENT, MAX_REQUESTS_PER_SECOND, WIKIPEDIA_REST_HTML_BASE};
use crate::error::TomeError;
use crate::text::{chars_of, copy_str, decimal, push_decimal, push_str_chars, string_of, utf8_decode, utf8_error_text};

verus! {

/// Requests per second can never be configured above this.
pub const MAX_REQUESTS_PER_SECOND_CEILING: u32 = 10;

/// Default number of attempts: one initial try plus six retries on the
/// 1, 2, 4, 8, 16, 32 second schedule.
pub const DEFAULT_MAX_ATTEMPTS: u32 = 7;

/// Settings of the MediaWiki client.
#[derive(Debug)]
pub struct ClientConfig {
    pub base_url: String,
    pub user_agent: String,
    pub requests_per_second: u32,
    pub max_attempts: u32,
}

impl Default for ClientConfig {
    fn default() -> (r: Self)
        ensures
            r.base_url@ == WIKIPEDIA_REST_HTML_BASE@,
            r.user_agent@ == DEFAULT_USER_AGENT@,
            r.requests_per_second == MAX_REQUESTS_PER_SECOND,
            r.max_attempts == DEFAULT_MAX_ATTEMPTS,
    {
        ClientConfig {
            base_url: copy_str(WIKIPEDIA_REST_HTML_BASE),
            user_agent: copy_str(DEFAULT_USER_AGENT),
            requests_per_second: MAX_REQUESTS_PER_SECOND,
            max_attempts: DEFAULT_MAX_ATTEMPTS,
        }
    }
}

/// The rate a client actually uses for a configured rate: zero or anything
/// above the ceiling becomes the ceiling.
pub open spec fn effective_rps_spec(rps: u32) -> u32 {
    if rps == 0 || rps > MAX_REQUESTS_PER_SECOND_CEILING {
        MAX_REQUESTS_PER_SECOND_CEILING
    } else {
        rps
    }
}

/// The rate a client actually uses for a configured rate.
pub fn effective_requests_per_second(rps: u32) -> (r: u32)
    ensures
        r == effective_rps_spec(rps),
        1 <= r <= MAX_REQUESTS_PER_SECOND_CEILING,
{
    if rps == 0 || rps > MAX_REQUESTS_PER_SECOND_CEILING {
        MAX_REQUESTS_PER_SECOND_CEILING
    } else {
        rps
    }
}

/// The cache key of a request: its method, a colon, and its URL.
pub open spec fn cache_key(method: Seq<char>, url: Seq<char>) -> Seq<char> {
    method.push(':') + url
}

fn make_cache_key(request: &HttpRequest) -> (r: String)
    ensures
        r@ == cache_key(request.method@, request.url@),
{
    let mut out = chars_of(request.method.as_str());
    out.push(':');
    push_str_chars(&mut out, request.url.as_str());
    string_of(out.as_slice())
}

/// The log text of a response with an unsuccessful status.
pub open spec fn status_text(status: u16) -> Seq<char> {
    "status "@ + decimal(status as nat)
}

/// The log and error text when every attempt got an unsuccessful status.
pub open spec fn exhausted_status_text(status: u16) -> Seq<char> {
    "max retries exceeded: status "@ + decimal(status as nat)
}

/// The error text when the last attempt got no response.
pub open spec fn exhausted_transport_text(e: HttpError) -> Seq<char> {
    "transport: "@ + http_error_message(e)
}

fn text_with_number(prefix: &str, n: u16) -> (r: String)
    ensures
        r@ == prefix@ + decimal(n as nat),
{
    let mut out: Vec<char> = Vec::new();
    push_str_chars(&mut out, prefix);
    push_decimal(&mut out, n as u64);
    string_of(out.as_slice())
}

fn text_with_text(prefix: &str, s: &String) -> (r: String)
    ensures
        r@ == prefix@ + s@,
{
    let mut out: Vec<char> = Vec::new();
    push_str_chars(&mut out, prefix);
    push_str_chars(&mut out, s.as_str());
    string_of(out.as_slice())
}

/// What the caller must do next.
#[derive(Debug)]
pub enum Action {
    /// Send this request (after taking a rate-limit token).
    Send(HttpRequest),
    /// Sleep this many seconds, then call [`Governor::on_wake`].
    Wait(u64),
    /// The request is settled with this outcome.
    Finish(Result<HttpResponse, TomeError>),
}

/// The abstract content of a response: status, headers and body.
pub open spec fn response_view(r: HttpResponse) -> (u16, Seq<(String, String)>, Seq<u8>) {
    (r.status, r.headers@, r.body@)
}

/// An action with its request and response taken by their views.
pub enum ActionView {
    Send((Seq<char>, Seq<char>, Seq<(String, String)>)),
    Wait(u64),
    Finish(Result<(u16, Seq<(String, String)>, Seq<u8>), TomeError>),
}

/// The view of an action.
pub open spec fn action_view(a: Action) -> ActionView {
    match a {
        Action::Send(r) => ActionView::Send(r@),
        Action::Wait(s) => ActionView::Wait(s),
        Action::Finish(Ok(r)) => ActionView::Finish(Ok(response_view(r))),
        Action::Finish(Err(e)) => ActionView::Finish(Err(e)),
    }
}

/// The abstract state of a governor.
pub struct GovernorView {
    pub max_attempts: u32,
    pub breaker: BreakerView,
    pub log: Seq<RequestEntry>,
    pub log_cap: nat,
    pub cache: Map<Seq<char>, Seq<u8>>,
    /// The request in flight, if any.
    pub pending: Option<(Seq<char>, Seq<char>, Seq<(String, String)>)>,
    /// Which attempt of the request in flight is under way (from 1).
    pub attempt: u32,
    /// Failures of the request in flight so far.
    pub backoff: u32,
}

/// The state after `begin` is asked to admit `req` at `now`.
pub open spec fn begin_state(
    v: GovernorView,
    req: (Seq<char>, Seq<char>, Seq<(String, String)>),
    kill: bool,
    now: u64,
) -> GovernorView {
    if kill {
        v
    } else if open_at(v.breaker, now) {
        GovernorView { breaker: poll_spec(v.breaker, now), ..v }
    } else if v.cache.contains_key(cache_key(req.0, req.1)) || v.max_attempts == 0 {
        GovernorView { breaker: poll_spec(v.breaker, now), ..v }
    } else {
        GovernorView {
            breaker: poll_spec(v.breaker, now),
            pending: Some(req),
            attempt: 1,
            backoff: 0,
            ..v
        }
    }
}

/// Whether `a` is what `begin` asks the caller to do for `req` at `now`.
pub open spec fn begin_action(
    v: GovernorView,
    req: (Seq<char>, Seq<char>, Seq<(String, String)>),
    kill: bool,
    now: u64,
    a: ActionView,
) -> bool {
    if kill {
        a == ActionView::Finish(Err(TomeError::KillSwitch))
    } else if open_at(v.breaker, now) {
        a == ActionView::Finish(Err(TomeError::CircuitBreakerOpen))
    } else if v.cache.contains_key(cache_key(req.0, req.1)) {
        a == ActionView::Finish(Ok((200u16, Seq::<(String, String)>::empty(), v.cache[cache_key(req.0, req.1)])))
    } else if v.max_attempts == 0 {
        a matches ActionView::Finish(Err(TomeError::Api(t))) && t@ == "retry loop exhausted"@
    } else {
        a == ActionView::Send(req)
    }
}

/// The log entry for an attempt that ended with `result` at `now`.
pub open spec fn entry_matches(
    e: RequestEntry,
    req: (Seq<char>, Seq<char>, Seq<(String, String)>),
    result: Result<HttpResponse, HttpError>,
    now: u64,
) -> bool {
    &&& e.at == now
    &&& e.method@ == req.0
    &&& e.url@ == req.1
    &&& match result {
        Ok(r) => {
            &&& e.status == Some(r.status)
            &&& if 200 <= r.status < 300 {
                e.error is None
            } else {
                e.error matches Some(t) && t@ == status_text(r.status)
            }
        },
        Err(err) => {
            &&& e.status is None
            &&& e.error matches Some(t) && t@ == http_error_message(err)
        },
    }
}

/// Whether `w` is the state and `a` the action after the attempt in flight
/// ended with `result` at `now`, from state `v`.
pub open spec fn on_response_spec(
    v: GovernorView,
    result: Result<HttpResponse, HttpError>,
    now: u64,
    w: GovernorView,
    a: ActionView,
) -> bool {
    let req = v.pending->0;
    let key = cache_key(req.0, req.1);
    &&& w.max_attempts == v.max_attempts
    &&& w.log_cap == v.log_cap
    &&& w.log.len() == push_spec(v.log, v.log_cap, w.log.last()).len()
    &&& w.log == push_spec(v.log, v.log_cap, w.log.last())
    &&& entry_matches(w.log.last(), req, result, now)
    &&& match result {
        Ok(r) => if 200 <= r.status < 300 {
            &&& w.cache == v.cache.insert(key, r.body@)
            &&& w.breaker == v.breaker
            &&& w.pending is None
            &&& a == ActionView::Finish(Ok(response_view(r)))
        } else {
            let b = record_spec(v.breaker, now);
            &&& w.cache == v.cache
            &&& if open_at(b, now) {
                &&& w.breaker == poll_spec(b, now)
                &&& w.pending is None
                &&& a == ActionView::Finish(Err(TomeError::CircuitBreakerOpen))
            } else if v.attempt >= v.max_attempts {
                &&& w.breaker == poll_spec(b, now)
                &&& w.pending is None
                &&& a matches ActionView::Finish(Err(TomeError::Api(t))) && t@
                    == exhausted_status_text(r.status)
            } else {
                &&& w.breaker == poll_spec(b, now)
                &&& w.pending == v.pending
                &&& w.attempt == v.attempt
                &&& w.backoff == after_failure(v.backoff)
                &&& a == ActionView::Wait(delay_spec(after_failure(v.backoff), retry_after_spec(r.headers@)))
            }
        },
        Err(err) => {
            let b = record_spec(v.breaker, now);
            &&& w.cache == v.cache
            &&& if open_at(b, now) {
                &&& w.breaker == poll_spec(b, now)
                &&& w.pending is None
                &&& a == ActionView::Finish(Err(TomeError::CircuitBreakerOpen))
            } else if v.attempt >= v.max_attempts {
                &&& w.breaker == poll_spec(b, now)
                &&& w.pending is None
                &&& a matches ActionView::Finish(Err(TomeError::Api(t))) && t@
                    == exhausted_transport_text(err)
            } else {
                &&& w.breaker == poll_spec(b, now)
                &&& w.pending == v.pending
                &&& w.attempt == v.attempt
                &&& w.backoff == after_failure(v.backoff)
                &&& a == ActionView::Wait(delay_spec(after_failure(v.backoff), None))
            }
        },
    }
}

/// The state after waking from a backoff wait at `now`.
pub open spec fn on_wake_state(v: GovernorView, now: u64) -> GovernorView {
    if open_at(v.breaker, now) {
        GovernorView { breaker: poll_spec(v.breaker, now), pending: None, ..v }
    } else {
        GovernorView { breaker: poll_spec(v.breaker, now), attempt: (v.attempt + 1) as u32, ..v }
    }
}

/// What the caller must do after waking from a backoff wait at `now`.
pub open spec fn on_wake_action(v: GovernorView, now: u64) -> ActionView {
    if open_at(v.breaker, now) {
        ActionView::Finish(Err(TomeError::CircuitBreakerOpen))
    } else {
        ActionView::Send(v.pending->0)
    }
}

/// Governance state for one client: breaker, cache, request log, and the
/// retry bookkeeping of the request in flight.
pub struct Governor {
    max_attempts: u32,
    breaker: CircuitBreaker,
    log: RequestLog,
    cache: Cache,
    pending: Option<HttpRequest>,
    attempt: u32,
    backoff: BackoffState,
}

impl View for Governor {
    type V = GovernorView;

    closed spec fn view(&self) -> GovernorView {
        GovernorView {
            max_attempts: self.max_attempts,
            breaker: self.breaker@,
            log: self.log@,
            log_cap: self.log.cap() as nat,
            cache: self.cache@,
            pending: match self.pending {
                Some(r) => Some(r@),
                None => None,
            },
            attempt: self.attempt,
            backoff: self.backoff@,
        }
    }
}

impl Governor {
    /// A governor that tries each request at most `max_attempts` times, with
    /// a closed breaker, an empty cache and an empty log of the default
    /// capacity.
    pub fn new(max_attempts: u32) -> (r: Self)
        ensures
            r@.max_attempts == max_attempts,
            r@.breaker == (BreakerView { errors: Seq::empty(), opened_at: None }),
            r@.log == Seq::<RequestEntry>::empty(),
            r@.log_cap == DEFAULT_CAPACITY,
            r@.cache == Map::<Seq<char>, Seq<u8>>::empty(),
            r@.pending is None,
    {
        Governor {
            max_attempts,
            breaker: CircuitBreaker::new(),
            log: RequestLog::default(),
            cache: Cache::new(),
            pending: None,
            attempt: 0,
            backoff: BackoffState::new(),
        }
    }

    /// Whether the breaker rejects traffic at `now` (clearing it when its
    /// cooldown has elapsed).
    pub fn breaker_is_open(&mut self, now: u64) -> (r: bool)
        ensures
            r == open_at(old(self)@.breaker, now),
            final(self)@ == (GovernorView { breaker: poll_spec(old(self)@.breaker, now), ..old(self)@ }),
    {
        self.breaker.is_open(now)
    }

    /// Copies of the logged requests, oldest first.
    pub fn recent_requests(&self) -> (r: Vec<RequestEntry>)
        ensures
            r@ == self@.log,
    {
        self.log.snapshot()
    }

    /// Number of cached responses.
    pub fn cache_size(&self) -> (r: usize)
        ensures
            r == self@.cache.len(),
    {
        self.cache.len()
    }

    /// Whether a request is in flight.
    pub open spec fn in_flight(&self) -> bool {
        self@.pending is Some
    }

    /// Starts governing `request` at `now`: refuses it when the kill switch
    /// is engaged or the breaker is open, answers it from the cache when it
    /// was fetched before, and otherwise asks for its first attempt.
    pub fn begin(&mut self, request: HttpRequest, kill_engaged: bool, now: u64) -> (r: Action)
        requires
            !old(self).in_flight(),
        ensures
            final(self)@ == begin_state(old(self)@, request@, kill_engaged, now),
            begin_action(old(self)@, request@, kill_engaged, now, action_view(r)),
    {
        if kill_engaged {
            return Action::Finish(Err(TomeError::KillSwitch));
        }
        if self.breaker.is_open(now) {
            return Action::Finish(Err(TomeError::CircuitBreakerOpen));
        }
        let key = make_cache_key(&request);
        match self.cache.get(key.as_str()) {
            Some(body) => {
                return Action::Finish(Ok(HttpResponse { status: 200, headers: Vec::new(), body }));
            },
            None => {},
        }
        if self.max_attempts == 0 {
            return Action::Finish(Err(TomeError::Api(copy_str("retry loop exhausted"))));
        }
        let out = request.duplicate();
        self.pending = Some(request);
        self.attempt = 1;
        self.backoff = BackoffState::new();
        Action::Send(out)
    }

    /// Settles the attempt in flight, which ended with `result` at `now`: a
    /// success is logged, cached and handed back; a failure is logged and
    /// counted by the breaker, and is then either final (breaker open, or no
    /// attempts left) or followed by a backoff wait.
    pub fn on_response(&mut self, result: Result<HttpResponse, HttpError>, now: u64) -> (r: Action)
        requires
            old(self).in_flight(),
        ensures
            on_response_spec(old(self)@, result, now, final(self)@, action_view(r)),
    {
        let (method, url, key) = match &self.pending {
            Some(req) => (req.method.clone(), req.url.clone(), make_cache_key(req)),
            None => {
                proof {
                    assert(false);
                }
                return Action::Wait(0);
            },
        };
        match result {
            Ok(response) => {
                if response.is_success() {
                    self.log.push(
                        RequestEntry {
                            at: now,
                            method,
                            url,
                            status: Some(response.status),
                            error: None,
                        },
                    );
                    let body = response.body.clone();
                    assert(body@ =~= response.body@);
                    self.cache.put(key.as_str(), body);
                    self.pending = None;
                    return Action::Finish(Ok(response));
                }
                let status = response.status;
                self.log.push(
                    RequestEntry {
                        at: now,
                        method,
                        url,
                        status: Some(status),
                        error: Some(text_with_number("status ", status)),
                    },
                );
                self.breaker.record_error(now);
                if self.breaker.is_open(now) {
                    self.pending = None;
                    return Action::Finish(Err(TomeError::CircuitBreakerOpen));
                }
                if self.attempt >= self.max_attempts {
                    self.pending = None;
                    return Action::Finish(
                        Err(TomeError::Api(text_with_number("max retries exceeded: status ", status))),
                    );
                }
                self.backoff.record_failure();
                let delay = self.backoff.next_delay(response.retry_after());
                Action::Wait(delay)
            },
            Err(e) => {
                let message = e.message();
                self.log.push(
                    RequestEntry {
                        at: now,
                        method,
                        url,
                        status: None,
                        error: Some(message.clone()),
                    },
                );
                self.breaker.record_error(now);
                if self.breaker.is_open(now) {
                    self.pending = None;
                    return Action::Finish(Err(TomeError::CircuitBreakerOpen));
                }
                if self.attempt >= self.max_attempts {
                    self.pending = None;
                    return Action::Finish(Err(TomeError::Api(text_with_text("transport: ", &message))));
                }
                self.backoff.record_failure();
                let delay = self.backoff.next_delay(None);
                Action::Wait(delay)
            },
        }
    }

    /// Continues after a backoff wait, at `now`: refuses when the breaker
    /// has opened meanwhile, and otherwise asks for the next attempt.
    pub fn on_wake(&mut self, now: u64) -> (r: Action)
        requires
            old(self).in_flight(),
            old(self)@.attempt < old(self)@.max_attempts,
        ensures
            final(self)@ == on_wake_state(old(self)@, now),
            action_view(r) == on_wake_action(old(self)@, now),
    {
        if self.breaker.is_open(now) {
            self.pending = None;
            return Action::Finish(Err(TomeError::CircuitBreakerOpen));
        }
        self.attempt = self.attempt + 1;
        match &self.pending {
            Some(req) => Action::Send(req.duplicate()),
            None => {
                proof {
                    assert(false);
                }
                Action::Wait(0)
            },
        }
    }
}

/// With the kill switch engaged every request is refused with
/// `KillSwitch`, nothing is sent, and no state changes.
pub proof fn law_kill_switch_blocks_all_traffic(
    v: GovernorView,
    req: (Seq<char>, Seq<char>, Seq<(String, String)>),
    now: u64,
    a: ActionView,
)
    requires
        begin_action(v, req, true, now, a),
    ensures
        a == ActionView::Finish(Err(TomeError::KillSwitch)),
        begin_state(v, req, true, now) == v,
{
}

/// While the breaker is open no request reaches the transport: it is
/// refused with `CircuitBreakerOpen`.
pub proof fn law_open_breaker_refuses(
    v: GovernorView,
    req: (Seq<char>, Seq<char>, Seq<(String, String)>),
    now: u64,
    a: ActionView,
)
    requires
        v.pending is None,
        open_at(v.breaker, now),
        begin_action(v, req, false, now, a),
    ensures
        a == ActionView::Finish(Err(TomeError::CircuitBreakerOpen)),
        begin_state(v, req, false, now).pending is None,
{
}

/// A successful response is cached: asking again for the same request
/// (kill switch off, breaker closed) is answered from the cache with the
/// same body, without sending anything.
pub proof fn law_success_is_served_from_cache(
    v: GovernorView,
    r: HttpResponse,
    now: u64,
    w: GovernorView,
    a: ActionView,
    now2: u64,
    a2: ActionView,
)
    requires
        v.pending is Some,
        200 <= r.status < 300,
        on_response_spec(v, Ok(r), now, w, a),
        !open_at(w.breaker, now2),
        begin_action(w, v.pending->0, false, now2, a2),
    ensures
        a == ActionView::Finish(Ok(response_view(r))),
        a2 == ActionView::Finish(Ok((200u16, Seq::<(String, String)>::empty(), r.body@))),
{
}

/// A request is sent at most `max_attempts` times: the first attempt is
/// number 1, a wait is asked for only while attempts remain, and waking
/// moves to the next attempt without passing the limit.
pub proof fn law_attempts_bounded(
    v: GovernorView,
    req: (Seq<char>, Seq<char>, Seq<(String, String)>),
    result: Result<HttpResponse, HttpError>,
    now: u64,
    w: GovernorView,
    a: ActionView,
)
    ensures
        begin_action(v, req, false, now, a) && a is Send ==> begin_state(v, req, false, now).attempt
            == 1 && 1 <= v.max_attempts,
        v.pending is Some && on_response_spec(v, result, now, w, a) && a is Wait ==> w.attempt
            < w.max_attempts && w.pending == v.pending,
        v.pending is Some && v.attempt < v.max_attempts && !open_at(v.breaker, now) ==> on_wake_state(
            v,
            now,
        ).attempt <= v.max_attempts,
{
}

/// A failed attempt that is retried waits exactly as long as the server's
/// `Retry-After` asks, up to the five-minute cap, and otherwise follows the
/// backoff schedule for the failures of the request so far.
pub proof fn law_retry_wait_follows_server_then_schedule(
    v: GovernorView,
    r: HttpResponse,
    now: u64,
    w: GovernorView,
    a: ActionView,
)
    requires
        v.pending is Some,
        on_response_spec(v, Ok(r), now, w, a),
        a is Wait,
    ensures
        forall|d: u64| retry_after_spec(r.headers@) == Some(d) && d <= MAX_RETRY_AFTER_SECS ==> a == ActionView::Wait(d),
        retry_after_spec(r.headers@) is None ==> a == ActionView::Wait(schedule_secs(after_failure(v.backoff))),
        !(200 <= r.status < 300),
{
}

/// What `Url::parse` makes of `s`, the URL serialized back with
/// `String::from`: the serialization, or the text of the `ParseError`.
pub uninterp spec fn url_parsed(s: Seq<char>) -> Result<Seq<char>, Seq<char>>;

/// `Url::parse(s)`, serialized.
#[verifier::external_body]
fn url_parse(s: &str) -> (r: Result<String, String>)
    ensures
        match url_parsed(s@) {
            Ok(u) => r matches Ok(x) && x@ == u,
            Err(e) => r matches Err(x) && x@ == e,
        },
{
    Url::parse(s).map(String::from).map_err(|e| e.to_string())
}

/// The URL `url`, read back with `Url::parse`, with `segment` pushed through
/// `path_segments_mut().push` (which percent-encodes it) and serialized;
/// `None` where `path_segments_mut` refuses, a URL that cannot be a base.
pub uninterp spec fn url_segment_pushed(url: Seq<char>, segment: Seq<char>) -> Option<Seq<char>>;

/// `Url::path_segments_mut` and `PathSegmentsMut::push` on the URL `url`,
/// which is converted to a `Url` by `Url::parse` and back by `String::from`.
#[verifier::external_body]
fn url_push_segment(url: &str, segment: &str) -> (r: Option<String>)
    ensures
        match url_segment_pushed(url@, segment@) {
            Some(u) => r matches Some(x) && x@ == u,
            None => r is None,
        },
{
    let mut u = Url::parse(url).ok()?;
    u.path_segments_mut().ok()?.push(segment);
    Some(u.into())
}

/// The URL of the rendered HTML of `title` under `base`, at `revision` if one
/// is given: the segments `title`, `html` and the revision number are pushed
/// onto the base URL's path. Or the text of the `Api` error.
pub open spec fn html_url_spec(base: Seq<char>, title: Seq<char>, revision: Option<u64>) -> Result<Seq<char>, Seq<char>> {
    match url_parsed(base) {
        Err(e) => Err("invalid base url '"@ + base + "': "@ + e),
        Ok(u0) => match url_segment_pushed(u0, title) {
            None => Err("base url cannot be a base"@),
            Some(u1) => match url_segment_pushed(u1, "html"@) {
                None => Err("base url cannot be a base"@),
                Some(u2) => match revision {
                    None => Ok(u2),
                    Some(rev) => match url_segment_pushed(u2, decimal(rev as nat)) {
                        None => Err("base url cannot be a base"@),
                        Some(u3) => Ok(u3),
                    },
                },
            },
        },
    }
}

fn push_or_fail(url: &String, segment: &str) -> (r: Result<String, TomeError>)
    ensures
        match url_segment_pushed(url@, segment@) {
            Some(u) => r matches Ok(x) && x@ == u,
            None => r matches Err(TomeError::Api(m)) && m@ == "base url cannot be a base"@,
        },
{
    match url_push_segment(url.as_str(), segment) {
        Some(u) => Ok(u),
        None => Err(TomeError::Api(copy_str("base url cannot be a base"))),
    }
}

/// The URL of the rendered HTML of `title` under `base_url`, at `revision`
/// if one is given.
pub fn build_html_url(base_url: &str, title: &str, revision: Option<u64>) -> (r: Result<String, TomeError>)
    ensures
        match html_url_spec(base_url@, title@, revision) {
            Ok(u) => r matches Ok(x) && x@ == u,
            Err(m) => r matches Err(TomeError::Api(x)) && x@ == m,
        },
{
    let u0 = match url_parse(base_url) {
        Ok(u) => u,
        Err(e) => {
            let mut out: Vec<char> = Vec::new();
            push_str_chars(&mut out, "invalid base url '");
            push_str_chars(&mut out, base_url);
            push_str_chars(&mut out, "': ");
            push_str_chars(&mut out, e.as_str());
            return Err(TomeError::Api(string_of(out.as_slice())));
        },
    };
    let u1 = push_or_fail(&u0, title)?;
    let u2 = push_or_fail(&u1, "html")?;
    match revision {
        None => Ok(u2),
        Some(rev) => {
            let mut digits: Vec<char> = Vec::new();
            push_decimal(&mut digits, rev);
            let rev_text = string_of(digits.as_slice());
            push_or_fail(&u2, rev_text.as_str())
        },
    }
}

/// The request for the rendered HTML of `title`: a `GET` of its URL under
/// the configured base, with the configured `User-Agent` and
/// `Accept: text/html`.
pub fn html_request(config: &ClientConfig, title: &str, revision: Option<u64>) -> (r: Result<HttpRequest, TomeError>)
    ensures
        match html_url_spec(config.base_url@, title@, revision) {
            Ok(u) => r matches Ok(req) && req.method@ == "GET"@ && req.url@ == u
                && req.headers@.len() == 2 && req.headers@[0].0@ == "User-Agent"@
                && req.headers@[0].1@ == config.user_agent@ && req.headers@[1].0@ == "Accept"@
                && req.headers@[1].1@ == "text/html"@,
            Err(m) => r matches Err(TomeError::Api(x)) && x@ == m,
        },
{
    let url = build_html_url(config.base_url.as_str(), title, revision)?;
    let request = HttpRequest::get(url.as_str()).header("User-Agent", config.user_agent.as_str());
    let request = request.header("Accept", "text/html");
    Ok(request)
}

/// The body of an HTML response as text, or an `Api` error when it is not
/// UTF-8.
pub fn decode_html_body(body: &[u8]) -> (r: Result<String, TomeError>)
    ensures
        vstd::utf8::valid_utf8(body@) ==> (r matches Ok(s) && s@ == vstd::utf8::decode_utf8(body@)),
        !vstd::utf8::valid_utf8(body@) ==> (r matches Err(TomeError::Api(m)) && m@
            == "response body is not utf-8: "@ + utf8_error_text(body@)),
{
    match utf8_decode(body) {
        Ok(s) => Ok(s),
        Err(e) => Err(TomeError::Api(crate::error::prefixed("response body is not utf-8: ", &e))),
    }
}

} // verus!
