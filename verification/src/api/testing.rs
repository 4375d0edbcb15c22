//! Test double for the transport: scripted responses and a log of the
//! requests made, so the governance logic can be exercised without a
//! network.

use vstd::prelude::*;

use crate::api::transport::{copy_headers, HttpError, HttpRequest, HttpResponse, HttpTransport};
use crate::text::copy_str;

verus! {

/// One scripted answer.
#[derive(Debug)]
pub enum MockResponse {
    Reply { status: u16, headers: Vec<(String, String)>, body: Vec<u8> },
    NetworkError(String),
}

impl MockResponse {
    /// A response with `status`, no headers and `body`.
    pub fn ok(status: u16, body: Vec<u8>) -> (r: Self)
        ensures
            r matches MockResponse::Reply { status: s, headers: h, body: b } && s == status && h@.len() == 0 && b == body,
    {
        MockResponse::Reply { status, headers: Vec::new(), body }
    }

    /// A response with `status`, `headers` and `body`.
    pub fn ok_with_headers(status: u16, headers: Vec<(String, String)>, body: Vec<u8>) -> (r: Self)
        ensures
            r == (MockResponse::Reply { status, headers, body }),
    {
        MockResponse::Reply { status, headers, body }
    }

    /// A transport failure carrying `msg`.
    pub fn network_error(msg: &str) -> (r: Self)
        ensures
            r matches MockResponse::NetworkError(m) && m@ == msg@,
    {
        MockResponse::NetworkError(copy_str(msg))
    }
}

/// What a scripted answer turns into.
pub open spec fn mock_result(m: MockResponse) -> Result<HttpResponse, HttpError> {
    match m {
        MockResponse::Reply { status, headers, body } => Ok(HttpResponse { status, headers, body }),
        MockResponse::NetworkError(msg) => Err(HttpError::Network(msg)),
    }
}

/// Whether `r` is the answer given once the script is used up.
pub open spec fn exhausted_answer(r: Result<HttpResponse, HttpError>) -> bool {
    r matches Err(HttpError::Network(m)) && m@ == "MockTransport: no more scripted responses"@
}

/// One send: from the script `script` and the log `received`, `request` is
/// answered with `r`, leaving the script `script2` and the log `received2`.
/// The request is logged; the first scripted answer is given and dropped, or,
/// with the script used up, the exhausted answer is given.
pub open spec fn sent(
    script: Seq<MockResponse>,
    received: Seq<HttpRequest>,
    request: HttpRequest,
    r: Result<HttpResponse, HttpError>,
    script2: Seq<MockResponse>,
    received2: Seq<HttpRequest>,
) -> bool {
    &&& received2 == received.push(request)
    &&& if script.len() == 0 {
        script2 == script && exhausted_answer(r)
    } else {
        script2 == script.drop_first() && r == mock_result(script[0])
    }
}

/// A transport that answers from a script, in order, and records every
/// request it was given.
pub struct MockTransport {
    scripted: Vec<MockResponse>,
    log: Vec<HttpRequest>,
}

impl MockTransport {
    /// Answers still in the script.
    pub closed spec fn script(&self) -> Seq<MockResponse> {
        self.scripted@
    }

    /// Requests received so far, oldest first.
    pub closed spec fn received(&self) -> Seq<HttpRequest> {
        self.log@
    }

    /// A transport that will give the `scripted` answers in order.
    pub fn new(scripted: Vec<MockResponse>) -> (r: Self)
        ensures
            r.script() == scripted@,
            r.received() == Seq::<HttpRequest>::empty(),
    {
        MockTransport { scripted, log: Vec::new() }
    }

    /// Copies of the requests received so far.
    pub fn requests(&self) -> (r: Vec<HttpRequest>)
        ensures
            r@.len() == self.received().len(),
            forall|i: int| 0 <= i < r@.len() ==> (#[trigger] r@[i])@ == self.received()[i]@,
    {
        let mut out: Vec<HttpRequest> = Vec::new();
        let mut i: usize = 0;
        while i < self.log.len()
            invariant
                i <= self.log@.len(),
                out@.len() == i,
                forall|j: int| 0 <= j < i ==> (#[trigger] out@[j])@ == self.log@[j]@,
            decreases self.log@.len() - i,
        {
            out.push(self.log[i].duplicate());
            i = i + 1;
        }
        out
    }

    /// How many requests were received.
    pub fn requests_made(&self) -> (r: usize)
        ensures
            r == self.received().len(),
    {
        self.log.len()
    }

    /// How many scripted answers are left.
    pub fn remaining_scripted(&self) -> (r: usize)
        ensures
            r == self.script().len(),
    {
        self.scripted.len()
    }

    /// Records `request` and gives the next scripted answer; once the script
    /// is used up every request fails with a network error.
    pub fn send_scripted(&mut self, request: HttpRequest) -> (r: Result<HttpResponse, HttpError>)
        ensures
            sent(
                old(self).script(),
                old(self).received(),
                request,
                r,
                final(self).script(),
                final(self).received(),
            ),
    {
        self.log.push(request);
        if self.scripted.len() == 0 {
            return Err(HttpError::Network(copy_str("MockTransport: no more scripted responses")));
        }
        let next = self.scripted.remove(0);
        assert(self.scripted@ =~= old(self).scripted@.drop_first());
        match next {
            MockResponse::Reply { status, headers, body } => Ok(HttpResponse { status, headers, body }),
            MockResponse::NetworkError(msg) => Err(HttpError::Network(msg)),
        }
    }
}

impl HttpTransport for MockTransport {
    /// Records `request` and gives the next scripted answer, as
    /// [`MockTransport::send_scripted`] does.
    fn send(&mut self, request: HttpRequest) -> (r: Result<HttpResponse, HttpError>)
        ensures
            sent(
                old(self).script(),
                old(self).received(),
                request,
                r,
                final(self).script(),
                final(self).received(),
            ),
    {
        self.send_scripted(request)
    }
}

/// The state after the first `j` sends of a run that started from the script
/// `scripted` and an empty log.
proof fn lemma_run_prefix(
    scripted: Seq<MockResponse>,
    requests: Seq<HttpRequest>,
    results: Seq<Result<HttpResponse, HttpError>>,
    scripts: Seq<Seq<MockResponse>>,
    logs: Seq<Seq<HttpRequest>>,
    j: int,
)
    requires
        scripts.len() == requests.len() + 1,
        logs.len() == requests.len() + 1,
        results.len() == requests.len(),
        scripts[0] == scripted,
        logs[0] == Seq::<HttpRequest>::empty(),
        forall|i: int|
            0 <= i < requests.len() ==> #[trigger] sent(
                scripts[i],
                logs[i],
                requests[i],
                results[i],
                scripts[i + 1],
                logs[i + 1],
            ),
        0 <= j <= requests.len(),
    ensures
        logs[j] == requests.take(j),
        scripts[j] == scripted.skip(if j < scripted.len() { j } else { scripted.len() as int }),
    decreases j,
{
    if j == 0 {
        assert(requests.take(0) =~= Seq::<HttpRequest>::empty());
        assert(scripted.skip(0) =~= scripted);
    } else {
        lemma_run_prefix(scripted, requests, results, scripts, logs, j - 1);
        let k = j - 1;
        assert(sent(scripts[k], logs[k], requests[k], results[k], scripts[k + 1], logs[k + 1]));
        assert(requests.take(j - 1).push(requests[j - 1]) =~= requests.take(j));
        if j - 1 < scripted.len() {
            assert(scripted.skip(j - 1).drop_first() =~= scripted.skip(j));
        } else {
            assert(scripted.skip(scripted.len() as int).len() == 0);
        }
    }
}

/// Sends answered by a transport made from `scripted` get the scripted
/// answers in order, one per request, and once the script is used up every
/// further request gets the exhausted answer; the log ends as the requests
/// sent, in order, and the script keeps what was not given out.
pub proof fn law_script_answers_in_order(
    scripted: Seq<MockResponse>,
    requests: Seq<HttpRequest>,
    results: Seq<Result<HttpResponse, HttpError>>,
    scripts: Seq<Seq<MockResponse>>,
    logs: Seq<Seq<HttpRequest>>,
)
    requires
        scripts.len() == requests.len() + 1,
        logs.len() == requests.len() + 1,
        results.len() == requests.len(),
        scripts[0] == scripted,
        logs[0] == Seq::<HttpRequest>::empty(),
        forall|i: int|
            0 <= i < requests.len() ==> #[trigger] sent(
                scripts[i],
                logs[i],
                requests[i],
                results[i],
                scripts[i + 1],
                logs[i + 1],
            ),
    ensures
        logs.last() == requests,
        scripts.last().len() == if requests.len() < scripted.len() {
            scripted.len() - requests.len()
        } else {
            0
        },
        scripts.last() == scripted.skip(
            if requests.len() < scripted.len() { requests.len() as int } else { scripted.len() as int },
        ),
        forall|i: int|
            0 <= i < requests.len() ==> if i < scripted.len() {
                #[trigger] results[i] == mock_result(scripted[i])
            } else {
                exhausted_answer(results[i])
            },
{
    let m = requests.len() as int;
    lemma_run_prefix(scripted, requests, results, scripts, logs, m);
    assert(requests.take(m) =~= requests);
    assert forall|i: int| 0 <= i < requests.len() implies if i < scripted.len() {
        #[trigger] results[i] == mock_result(scripted[i])
    } else {
        exhausted_answer(results[i])
    } by {
        lemma_run_prefix(scripted, requests, results, scripts, logs, i);
        assert(sent(scripts[i], logs[i], requests[i], results[i], scripts[i + 1], logs[i + 1]));
        if i < scripted.len() {
            assert(scripts[i][0] == scripted[i]);
        }
    }
}

} // verus!
