//! HTTP request and response values, and the transport abstraction.
//!
//! Decoupling the wire from the gatekeeper lets the whole pipeline be driven
//! against an in-process double without a network.

use vstd::prelude::*;

use crate::text::{chars_eq_ignore_ascii_case, chars_of, copy_str, eq_ignore_ascii_case, parse_u64_chars, parse_u64_spec, push_str_chars, string_of, trim, trim_chars};

verus! {

/// Copies a list of header pairs.
pub fn copy_headers(h: &Vec<(String, String)>) -> (r: Vec<(String, String)>)
    ensures
        r@ == h@,
{
    let mut out: Vec<(String, String)> = Vec::new();
    let mut i: usize = 0;
    while i < h.len()
        invariant
            i <= h@.len(),
            out@ == h@.take(i as int),
        decreases h@.len() - i,
    {
        let pair = (h[i].0.clone(), h[i].1.clone());
        out.push(pair);
        proof {
            assert(h@.take(i + 1) == h@.take(i as int).push(h@[i as int]));
        }
        i = i + 1;
    }
    assert(h@.take(h@.len() as int) == h@);
    out
}

/// An outbound request.
#[derive(Debug)]
pub struct HttpRequest {
    pub method: String,
    pub url: String,
    pub headers: Vec<(String, String)>,
}

impl View for HttpRequest {
    type V = (Seq<char>, Seq<char>, Seq<(String, String)>);

    /// Method, URL and headers.
    open spec fn view(&self) -> (Seq<char>, Seq<char>, Seq<(String, String)>) {
        (self.method@, self.url@, self.headers@)
    }
}

impl HttpRequest {
    /// A `GET` request for `url` with no headers.
    pub fn get(url: &str) -> (r: Self)
        ensures
            r.method@ == "GET"@,
            r.url@ == url@,
            r.headers@.len() == 0,
    {
        HttpRequest { method: copy_str("GET"), url: copy_str(url), headers: Vec::new() }
    }

    /// This request with one more header.
    pub fn header(self, name: &str, value: &str) -> (r: Self)
        ensures
            r.method == self.method,
            r.url == self.url,
            r.headers@.len() == self.headers@.len() + 1,
            r.headers@.drop_last() == self.headers@,
            r.headers@.last().0@ == name@,
            r.headers@.last().1@ == value@,
    {
        let mut s = self;
        s.headers.push((copy_str(name), copy_str(value)));
        s
    }

    /// An identical copy of this request.
    pub fn duplicate(&self) -> (r: Self)
        ensures
            r@ == self@,
    {
        let r = HttpRequest {
            method: self.method.clone(),
            url: self.url.clone(),
            headers: copy_headers(&self.headers),
        };
        r
    }
}

/// What the server answered.
#[derive(Debug)]
pub struct HttpResponse {
    pub status: u16,
    pub headers: Vec<(String, String)>,
    pub body: Vec<u8>,
}

/// The `Retry-After` delay, in seconds, of the first header named
/// `retry-after` (any ASCII case); its value must be whole seconds.
pub open spec fn retry_after_spec(h: Seq<(String, String)>) -> Option<u64>
    decreases h.len(),
{
    if h.len() == 0 {
        None
    } else if eq_ignore_ascii_case(h[0].0@, "retry-after"@) {
        parse_u64_spec(trim(h[0].1@))
    } else {
        retry_after_spec(h.drop_first())
    }
}

impl HttpResponse {
    /// The `Retry-After` delay in seconds. Only the integer-seconds form is
    /// honored; the HTTP-date form is treated as absent.
    pub fn retry_after(&self) -> (r: Option<u64>)
        ensures
            r == retry_after_spec(self.headers@),
    {
        let key = chars_of("retry-after");
        let mut i: usize = 0;
        assert(self.headers@.skip(0) == self.headers@);
        while i < self.headers.len()
            invariant
                i <= self.headers@.len(),
                key@ == "retry-after"@,
                retry_after_spec(self.headers@) == retry_after_spec(self.headers@.skip(i as int)),
            decreases self.headers@.len() - i,
        {
            let ghost rest = self.headers@.skip(i as int);
            assert(rest[0] == self.headers@[i as int]);
            let name = chars_of(self.headers[i].0.as_str());
            if chars_eq_ignore_ascii_case(name.as_slice(), key.as_slice()) {
                let value = chars_of(self.headers[i].1.as_str());
                let trimmed = trim_chars(value.as_slice());
                return parse_u64_chars(trimmed.as_slice());
            }
            assert(rest.drop_first() == self.headers@.skip(i + 1));
            i = i + 1;
        }
        None
    }

    /// Whether the status is a 2xx success.
    pub fn is_success(&self) -> (r: bool)
        ensures
            r == (200 <= self.status && self.status < 300),
    {
        200 <= self.status && self.status < 300
    }

    /// Whether the status calls for a retry (any 4xx or 5xx).
    pub fn is_retryable(&self) -> (r: bool)
        ensures
            r == (self.status >= 400),
    {
        self.status >= 400
    }
}

/// Why a request got no response.
#[derive(Debug)]
pub enum HttpError {
    Network(String),
    Timeout,
    InvalidUrl(String),
}

/// The text shown for a transport error.
pub open spec fn http_error_message(e: HttpError) -> Seq<char> {
    match e {
        HttpError::Network(s) => "network error: "@ + s@,
        HttpError::Timeout => "timeout"@,
        HttpError::InvalidUrl(s) => "invalid url: "@ + s@,
    }
}

impl HttpError {
    /// The text shown for this error.
    pub fn message(&self) -> (r: String)
        ensures
            r@ == http_error_message(*self),
    {
        let mut out: Vec<char> = Vec::new();
        match self {
            HttpError::Network(s) => {
                push_str_chars(&mut out, "network error: ");
                push_str_chars(&mut out, s.as_str());
            },
            HttpError::Timeout => {
                push_str_chars(&mut out, "timeout");
            },
            HttpError::InvalidUrl(s) => {
                push_str_chars(&mut out, "invalid url: ");
                push_str_chars(&mut out, s.as_str());
            },
        }
        assert(out@ =~= http_error_message(*self));
        string_of(out.as_slice())
    }
}

/// Something that can carry a request to a server and bring back its answer.
pub trait HttpTransport {
    fn send(&mut self, request: HttpRequest) -> Result<HttpResponse, HttpError>;
}

/// Whether the header name `name` is `Retry-After`, in any ASCII case.
pub open spec fn names_retry_after(name: Seq<char>) -> bool {
    eq_ignore_ascii_case(name, "retry-after"@)
}

/// The `Retry-After` header is looked for through the whole list: a header
/// of another name put in front changes nothing, and a `Retry-After` header
/// put in front is the one whose value (trimmed, as whole seconds) counts.
pub proof fn law_retry_after_skips_other_headers(x: (String, String), h: Seq<(String, String)>)
    ensures
        !names_retry_after(x.0@) ==> retry_after_spec(seq![x] + h) == retry_after_spec(h),
        names_retry_after(x.0@) ==> retry_after_spec(seq![x] + h) == parse_u64_spec(trim(x.1@)),
{
    let l = seq![x] + h;
    assert(l[0] == x);
    assert(l.drop_first() =~= h);
}

/// The delay is read from the first header named `Retry-After` (in any
/// ASCII case), wherever it stands in the list; with no such header there
/// is none.
pub proof fn law_retry_after_first_match(h: Seq<(String, String)>)
    ensures
        (forall|k: int| 0 <= k < h.len() ==> !names_retry_after(#[trigger] h[k].0@)) ==> retry_after_spec(h)
            is None,
        forall|k: int|
            0 <= k < h.len() && names_retry_after(#[trigger] h[k].0@) && (forall|j: int|
                0 <= j < k ==> !names_retry_after(h[j].0@)) ==> retry_after_spec(h) == parse_u64_spec(
                trim(h[k].1@),
            ),
    decreases h.len(),
{
    if h.len() > 0 {
        let t = h.drop_first();
        law_retry_after_first_match(t);
        assert forall|k: int|
            0 <= k < h.len() && names_retry_after(#[trigger] h[k].0@) && (forall|j: int|
                0 <= j < k ==> !names_retry_after(h[j].0@)) implies retry_after_spec(h) == parse_u64_spec(
            trim(h[k].1@),
        ) by {
            if k > 0 {
                assert(!names_retry_after(h[0].0@));
                assert(t[k - 1] == h[k]);
                assert forall|j: int| 0 <= j < k - 1 implies !names_retry_after(t[j].0@) by {
                    assert(t[j] == h[j + 1]);
                }
            }
        }
        if forall|k: int| 0 <= k < h.len() ==> !names_retry_after(#[trigger] h[k].0@) {
            assert(!names_retry_after(h[0].0@));
            assert forall|k: int| 0 <= k < t.len() implies !names_retry_after(#[trigger] t[k].0@) by {
                assert(t[k] == h[k + 1]);
            }
        }
    }
}

/// The header name is matched without regard to ASCII case: any spelling of
/// `retry-after` whose letters may each be upper-case names the header.
pub proof fn law_retry_after_name_any_case(n: Seq<char>)
    requires
        n.len() == "retry-after"@.len(),
        forall|i: int|
            0 <= i < n.len() ==> #[trigger] n[i] == "retry-after"@[i] || ('A' <= n[i] && n[i] <= 'Z' && n[i]
                as u32 + 32 == "retry-after"@[i] as u32),
    ensures
        names_retry_after(n),
{
    reveal_strlit("retry-after");
    let r = "retry-after"@;
    assert forall|i: int| 0 <= i < n.len() implies crate::text::ascii_lower(#[trigger] n[i])
        == crate::text::ascii_lower(r[i]) by {
        assert(!('A' <= r[i] && r[i] <= 'Z'));
    }
}

} // verus!
