use tome::api::backoff::{BackoffState, MAX_RETRY_AFTER_SECS};
use tome::api::breaker::CircuitBreaker;
use tome::api::cache::Cache;
use tome::api::client::{
    build_html_url, decode_html_body, effective_requests_per_second, html_request, Action,
    ClientConfig, Governor, DEFAULT_MAX_ATTEMPTS, MAX_REQUESTS_PER_SECOND_CEILING,
};
use tome::api::kill_switch::KillSwitch;
use tome::api::log_buffer::{RequestEntry, RequestLog};
use tome::api::testing::{MockResponse, MockTransport};
use tome::api::transport::{HttpError, HttpRequest, HttpResponse};
use tome::error::TomeError;

// ---- backoff ----

#[test]
fn exponential_sequence_caps_at_60() {
    let mut b = BackoffState::new();
    let expected = [1, 2, 4, 8, 16, 32, 60, 60, 60];
    for &want in &expected {
        b.record_failure();
        let got = b.next_delay(None);
        assert_eq!(got, want, "attempts={}", b.attempts());
    }
}

#[test]
fn retry_after_overrides_exponential() {
    let mut b = BackoffState::new();
    b.record_failure();
    b.record_failure();
    b.record_failure();
    assert_eq!(b.next_delay(Some(17)), 17);
}

#[test]
fn retry_after_under_cap_is_honored_exactly() {
    let mut b = BackoffState::new();
    b.record_failure();
    assert_eq!(b.next_delay(Some(17)), 17);
}

#[test]
fn retry_after_over_cap_is_clamped() {
    let mut b = BackoffState::new();
    b.record_failure();
    assert_eq!(b.next_delay(Some(3600)), MAX_RETRY_AFTER_SECS);
}

#[test]
fn success_resets_attempts() {
    let mut b = BackoffState::new();
    for _ in 0..5 {
        b.record_failure();
    }
    b.record_success();
    b.record_failure();
    assert_eq!(b.next_delay(None), 1);
}

#[test]
fn backoff_retry_after_cap_is_five_minutes() {
    assert_eq!(MAX_RETRY_AFTER_SECS, 300);
    let mut b = BackoffState::new();
    b.record_failure();
    assert_eq!(b.next_delay(Some(300)), 300);
    assert_eq!(b.next_delay(Some(301)), 300);
    assert_eq!(b.attempts(), 1);
}

// ---- breaker (times in milliseconds) ----

#[test]
fn closed_when_under_threshold() {
    let mut cb = CircuitBreaker::new();
    for _ in 0..9 {
        cb.record_error(0);
    }
    assert!(!cb.is_open(0));
}

#[test]
fn opens_at_threshold() {
    let mut cb = CircuitBreaker::new();
    for _ in 0..10 {
        cb.record_error(0);
    }
    assert!(cb.is_open(0));
}

#[test]
fn closes_after_cooldown() {
    let mut cb = CircuitBreaker::new();
    for _ in 0..10 {
        cb.record_error(0);
    }
    assert!(cb.is_open(0));
    assert!(cb.is_open(299_000), "still inside cooldown");
    assert!(!cb.is_open(301_000), "cooldown elapsed; should be closed");
}

#[test]
fn errors_outside_window_do_not_count() {
    let mut cb = CircuitBreaker::new();
    for _ in 0..9 {
        cb.record_error(0);
    }
    for _ in 0..9 {
        cb.record_error(61_000);
    }
    assert_eq!(cb.errors_in_window(), 9);
    assert!(!cb.is_open(61_000));
}

#[test]
fn breaker_ignores_errors_while_open() {
    let mut cb = CircuitBreaker::new();
    for _ in 0..10 {
        cb.record_error(0);
    }
    cb.record_error(1_000);
    assert_eq!(cb.errors_in_window(), 10);
    assert!(cb.is_open(1_000));
}

#[test]
fn breaker_error_exactly_at_window_edge_still_counts() {
    let mut cb = CircuitBreaker::new();
    for _ in 0..9 {
        cb.record_error(0);
    }
    cb.record_error(60_000);
    assert!(cb.is_open(60_000));
}

// ---- cache ----

#[test]
fn miss_then_hit() {
    let mut c = Cache::new();
    assert!(c.get("k").is_none());
    c.put("k", b"v".to_vec());
    assert_eq!(c.get("k"), Some(b"v".to_vec()));
}

#[test]
fn put_overwrites() {
    let mut c = Cache::new();
    c.put("k", b"v1".to_vec());
    c.put("k", b"v2".to_vec());
    assert_eq!(c.get("k"), Some(b"v2".to_vec()));
    assert_eq!(c.len(), 1);
}

#[test]
fn clear_empties() {
    let mut c = Cache::new();
    c.put("a", b"1".to_vec());
    c.put("b", b"2".to_vec());
    c.clear();
    assert!(c.is_empty());
}

#[test]
fn cache_read_after_write_leaves_other_keys() {
    let mut c = Cache::new();
    c.put("a", b"1".to_vec());
    c.put("b", b"2".to_vec());
    assert_eq!(c.get("a"), Some(b"1".to_vec()));
    assert_eq!(c.get("b"), Some(b"2".to_vec()));
    assert_eq!(c.len(), 2);
}

// ---- kill switch ----

#[test]
fn default_state_is_disengaged() {
    let ks = KillSwitch::new();
    assert!(!ks.is_engaged());
}

#[test]
fn engage_disengage_round_trip() {
    let mut ks = KillSwitch::new();
    ks.engage();
    assert!(ks.is_engaged());
    ks.disengage();
    assert!(!ks.is_engaged());
}

#[test]
fn kill_switch_default_is_disengaged() {
    let ks = KillSwitch::default();
    assert!(!ks.is_engaged());
}

// ---- request log ----

fn entry(url: &str) -> RequestEntry {
    RequestEntry { at: 0, method: "GET".into(), url: url.into(), status: Some(200), error: None }
}

#[test]
fn pushes_grow_until_capacity() {
    let mut log = RequestLog::new(3);
    log.push(entry("/a"));
    log.push(entry("/b"));
    assert_eq!(log.len(), 2);
    log.push(entry("/c"));
    assert_eq!(log.len(), 3);
}

#[test]
fn beyond_capacity_evicts_oldest() {
    let mut log = RequestLog::new(3);
    for url in ["/a", "/b", "/c", "/d", "/e"] {
        log.push(entry(url));
    }
    let snap = log.snapshot();
    assert_eq!(snap.len(), 3);
    assert_eq!(snap[0].url, "/c");
    assert_eq!(snap[1].url, "/d");
    assert_eq!(snap[2].url, "/e");
}

#[test]
fn snapshot_is_a_copy() {
    let mut log = RequestLog::new(2);
    log.push(entry("/a"));
    let snap1 = log.snapshot();
    log.push(entry("/b"));
    let snap2 = log.snapshot();
    assert_eq!(snap1.len(), 1);
    assert_eq!(snap2.len(), 2);
}

#[test]
fn log_capacity_zero_keeps_one_entry() {
    let mut log = RequestLog::new(0);
    assert!(log.is_empty());
    log.push(entry("/a"));
    log.push(entry("/b"));
    let snap = log.snapshot();
    assert_eq!(snap.len(), 1);
    assert_eq!(snap[0].url, "/b");
}

// ---- transport ----

fn resp_with_retry_after(value: &str) -> HttpResponse {
    HttpResponse { status: 429, headers: vec![("Retry-After".into(), value.into())], body: Vec::new() }
}

#[test]
fn retry_after_seconds_parsed() {
    let r = resp_with_retry_after("17");
    assert_eq!(r.retry_after(), Some(17));
}

#[test]
fn retry_after_with_whitespace_parsed() {
    let r = resp_with_retry_after("  42  ");
    assert_eq!(r.retry_after(), Some(42));
}

#[test]
fn retry_after_header_name_case_insensitive() {
    let r = HttpResponse { status: 503, headers: vec![("retry-after".into(), "5".into())], body: vec![] };
    assert_eq!(r.retry_after(), Some(5));
}

#[test]
fn retry_after_http_date_form_treated_as_absent() {
    let r = resp_with_retry_after("Wed, 21 Oct 2026 07:28:00 GMT");
    assert_eq!(r.retry_after(), None);
}

#[test]
fn no_retry_after_header() {
    let r = HttpResponse { status: 503, headers: vec![], body: vec![] };
    assert_eq!(r.retry_after(), None);
}

#[test]
fn status_classification() {
    let success = HttpResponse { status: 200, headers: vec![], body: vec![] };
    assert!(success.is_success());
    assert!(!success.is_retryable());

    let server_err = HttpResponse { status: 503, headers: vec![], body: vec![] };
    assert!(!server_err.is_success());
    assert!(server_err.is_retryable());

    let client_err = HttpResponse { status: 429, headers: vec![], body: vec![] };
    assert!(!client_err.is_success());
    assert!(client_err.is_retryable());
}

#[test]
fn redirect_status_is_neither_success_nor_retryable() {
    let r = HttpResponse { status: 302, headers: vec![], body: vec![] };
    assert!(!r.is_success());
    assert!(!r.is_retryable());
    let nf = HttpResponse { status: 404, headers: vec![], body: vec![] };
    assert!(nf.is_retryable());
}

#[test]
fn request_builder_keeps_headers_in_order() {
    let req = HttpRequest::get("https://x/y").header("A", "1").header("B", "2");
    assert_eq!(req.method, "GET");
    assert_eq!(req.url, "https://x/y");
    assert_eq!(req.headers, vec![("A".to_string(), "1".to_string()), ("B".to_string(), "2".to_string())]);
}

#[test]
fn http_error_messages() {
    assert_eq!(HttpError::Network("boom".into()).message(), "network error: boom");
    assert_eq!(HttpError::Timeout.message(), "timeout");
    assert_eq!(HttpError::InvalidUrl("x".into()).message(), "invalid url: x");
}

// ---- client ----

#[test]
fn html_url_without_revision() {
    let url = build_html_url("https://en.wikipedia.org/w/rest.php/v1/page", "Photon", None).unwrap();
    assert_eq!(url, "https://en.wikipedia.org/w/rest.php/v1/page/Photon/html");
}

#[test]
fn html_url_with_revision() {
    let url = build_html_url("https://en.wikipedia.org/w/rest.php/v1/page", "Photon", Some(123_456_789)).unwrap();
    assert_eq!(url, "https://en.wikipedia.org/w/rest.php/v1/page/Photon/html/123456789");
}

#[test]
fn html_url_percent_encodes_title() {
    let url = build_html_url("https://en.wikipedia.org/w/rest.php/v1/page", "Higgs boson", None).unwrap();
    assert_eq!(url, "https://en.wikipedia.org/w/rest.php/v1/page/Higgs%20boson/html");
}

#[test]
fn html_url_rejects_invalid_base() {
    let err = build_html_url("not a url", "Photon", None).unwrap_err();
    match err {
        TomeError::Api(m) => assert!(m.starts_with("invalid base url 'not a url': "), "{m}"),
        other => panic!("unexpected {other:?}"),
    }
}

#[test]
fn html_url_rejects_cannot_be_a_base() {
    let err = build_html_url("mailto:someone@example.org", "Photon", None).unwrap_err();
    match err {
        TomeError::Api(m) => assert_eq!(m, "base url cannot be a base"),
        other => panic!("unexpected {other:?}"),
    }
}

#[test]
fn config_caps_rps_at_ten() {
    assert_eq!(MAX_REQUESTS_PER_SECOND_CEILING, 10);
    assert_eq!(ClientConfig::default().requests_per_second, 10);
}

#[test]
fn effective_rate_is_clamped() {
    assert_eq!(effective_requests_per_second(0), 10);
    assert_eq!(effective_requests_per_second(3), 3);
    assert_eq!(effective_requests_per_second(10), 10);
    assert_eq!(effective_requests_per_second(50), 10);
    assert_eq!(DEFAULT_MAX_ATTEMPTS, 7);
}

#[test]
fn html_request_carries_agent_and_accept() {
    let cfg = ClientConfig::default();
    let req = html_request(&cfg, "Photon", Some(5)).unwrap();
    assert_eq!(req.method, "GET");
    assert_eq!(req.url, "https://en.wikipedia.org/w/rest.php/v1/page/Photon/html/5");
    assert_eq!(req.headers[0].0, "User-Agent");
    assert_eq!(req.headers[0].1, cfg.user_agent);
    assert_eq!(req.headers[1], ("Accept".to_string(), "text/html".to_string()));
}

#[test]
fn html_body_must_be_utf8() {
    assert_eq!(decode_html_body(b"<p>ok</p>").unwrap(), "<p>ok</p>");
    match decode_html_body(&[0xff, 0xfe]).unwrap_err() {
        TomeError::Api(m) => assert!(m.starts_with("response body is not utf-8: "), "{m}"),
        other => panic!("unexpected {other:?}"),
    }
}

// ---- governor, driven the way the asynchronous client drives it ----

fn drive(
    g: &mut Governor,
    t: &mut MockTransport,
    req: HttpRequest,
    kill: bool,
    clock_ms: &mut u64,
) -> (Result<HttpResponse, TomeError>, Vec<u64>) {
    let mut waits = Vec::new();
    let mut action = g.begin(req, kill, *clock_ms);
    loop {
        match action {
            Action::Send(r) => {
                let res = t.send_scripted(r);
                action = g.on_response(res, *clock_ms);
            }
            Action::Wait(secs) => {
                waits.push(secs);
                *clock_ms += secs * 1000;
                action = g.on_wake(*clock_ms);
            }
            Action::Finish(res) => return (res, waits),
        }
    }
}

#[test]
fn governor_caches_so_second_call_skips_transport() {
    let mut g = Governor::new(7);
    let mut t = MockTransport::new(vec![MockResponse::ok(200, b"<html>Photon</html>".to_vec())]);
    let mut clock = 0;
    let (r1, _) = drive(&mut g, &mut t, HttpRequest::get("https://x/Photon"), false, &mut clock);
    assert_eq!(r1.unwrap().body, b"<html>Photon</html>".to_vec());
    let (r2, _) = drive(&mut g, &mut t, HttpRequest::get("https://x/Photon"), false, &mut clock);
    assert_eq!(r2.unwrap().body, b"<html>Photon</html>".to_vec());
    assert_eq!(t.requests_made(), 1, "second call should hit cache");
    assert_eq!(g.cache_size(), 1);
    assert_eq!(g.recent_requests().len(), 1);
}

#[test]
fn governor_kill_switch_blocks_all_traffic() {
    let mut g = Governor::new(7);
    let mut t = MockTransport::new(vec![MockResponse::ok(200, b"never reached".to_vec())]);
    let mut clock = 0;
    let (r, _) = drive(&mut g, &mut t, HttpRequest::get("https://x/a"), true, &mut clock);
    assert!(matches!(r, Err(TomeError::KillSwitch)));
    assert_eq!(t.requests_made(), 0);
    assert_eq!(t.remaining_scripted(), 1);
}

#[test]
fn governor_retry_after_overrides_backoff_schedule() {
    let mut g = Governor::new(7);
    let mut t = MockTransport::new(vec![
        MockResponse::ok_with_headers(429, vec![("Retry-After".into(), "17".into())], vec![]),
        MockResponse::ok(200, b"<html>ok</html>".to_vec()),
    ]);
    let mut clock = 0;
    let (r, waits) = drive(&mut g, &mut t, HttpRequest::get("https://x/a"), false, &mut clock);
    assert_eq!(r.unwrap().body, b"<html>ok</html>".to_vec());
    assert_eq!(waits, vec![17]);
}

#[test]
fn governor_exponential_backoff_without_retry_after() {
    let mut g = Governor::new(7);
    let mut t = MockTransport::new(vec![
        MockResponse::ok(503, vec![]),
        MockResponse::ok(503, vec![]),
        MockResponse::ok(503, vec![]),
        MockResponse::ok(200, b"done".to_vec()),
    ]);
    let mut clock = 0;
    let (r, waits) = drive(&mut g, &mut t, HttpRequest::get("https://x/a"), false, &mut clock);
    assert!(r.is_ok());
    assert_eq!(waits, vec![1, 2, 4]);
    let log = g.recent_requests();
    assert_eq!(log.len(), 4);
    assert_eq!(log[0].error.as_deref(), Some("status 503"));
    assert_eq!(log[3].status, Some(200));
}

#[test]
fn governor_ten_errors_open_the_breaker() {
    let mut g = Governor::new(1);
    let mut script = Vec::new();
    for _ in 0..11 {
        script.push(MockResponse::ok(500, vec![]));
    }
    let mut t = MockTransport::new(script);
    let mut clock = 0;
    for i in 0..10 {
        let (r, _) = drive(&mut g, &mut t, HttpRequest::get(&format!("https://x/Page{i}")), false, &mut clock);
        assert!(r.is_err());
    }
    assert!(g.breaker_is_open(clock));
    let (r, _) = drive(&mut g, &mut t, HttpRequest::get("https://x/Page10"), false, &mut clock);
    assert!(matches!(r, Err(TomeError::CircuitBreakerOpen)));
    assert_eq!(t.requests_made(), 10, "open breaker must not call transport");
}

#[test]
fn governor_gives_up_after_max_attempts() {
    let mut g = Governor::new(2);
    let mut t = MockTransport::new(vec![MockResponse::network_error("down"), MockResponse::network_error("down")]);
    let mut clock = 0;
    let (r, waits) = drive(&mut g, &mut t, HttpRequest::get("https://x/a"), false, &mut clock);
    match r {
        Err(TomeError::Api(m)) => assert_eq!(m, "transport: network error: down"),
        other => panic!("unexpected {other:?}"),
    }
    assert_eq!(waits, vec![1]);
    assert_eq!(t.requests_made(), 2);
}

#[test]
fn governor_status_failures_report_last_status() {
    let mut g = Governor::new(1);
    let mut t = MockTransport::new(vec![MockResponse::ok(503, vec![])]);
    let mut clock = 0;
    let (r, _) = drive(&mut g, &mut t, HttpRequest::get("https://x/a"), false, &mut clock);
    match r {
        Err(TomeError::Api(m)) => assert_eq!(m, "max retries exceeded: status 503"),
        other => panic!("unexpected {other:?}"),
    }
}

#[test]
fn governor_revision_specific_url_caches_independently() {
    let mut g = Governor::new(7);
    let mut t = MockTransport::new(vec![
        MockResponse::ok(200, b"latest".to_vec()),
        MockResponse::ok(200, b"specific revision".to_vec()),
    ]);
    let mut clock = 0;
    let cfg = ClientConfig::default();
    let latest = html_request(&cfg, "Photon", None).unwrap();
    let rev = html_request(&cfg, "Photon", Some(123)).unwrap();
    let (a, _) = drive(&mut g, &mut t, latest, false, &mut clock);
    let (b, _) = drive(&mut g, &mut t, rev, false, &mut clock);
    assert_eq!(a.unwrap().body, b"latest".to_vec());
    assert_eq!(b.unwrap().body, b"specific revision".to_vec());
    let latest2 = html_request(&cfg, "Photon", None).unwrap();
    let (c, _) = drive(&mut g, &mut t, latest2, false, &mut clock);
    assert_eq!(c.unwrap().body, b"latest".to_vec());
    assert_eq!(t.requests_made(), 2);
    assert_eq!(g.cache_size(), 2);
}

#[test]
fn mock_transport_records_requests() {
    let mut t = MockTransport::new(vec![MockResponse::ok(200, vec![1])]);
    let r = t.send_scripted(HttpRequest::get("https://x/1"));
    assert_eq!(r.unwrap().body, vec![1]);
    assert_eq!(t.requests().len(), 1);
    assert_eq!(t.requests()[0].url, "https://x/1");
    assert_eq!(t.remaining_scripted(), 0);
}

#[test]
fn mock_transport_answers_in_order_then_runs_dry() {
    let mut t = MockTransport::new(vec![
        MockResponse::ok(200, vec![1]),
        MockResponse::network_error("boom"),
    ]);
    let urls = ["https://x/1", "https://x/2", "https://x/3", "https://x/4"];
    let mut answers = Vec::new();
    for u in urls.iter() {
        answers.push(t.send_scripted(HttpRequest::get(u)));
    }
    assert_eq!(answers[0].as_ref().unwrap().body, vec![1]);
    assert!(matches!(&answers[1], Err(HttpError::Network(m)) if m == "boom"));
    for a in &answers[2..] {
        assert!(
            matches!(a, Err(HttpError::Network(m)) if m == "MockTransport: no more scripted responses")
        );
    }
    assert_eq!(t.requests_made(), 4);
    assert_eq!(t.remaining_scripted(), 0);
    let got: Vec<String> = t.requests().iter().map(|r| r.url.clone()).collect();
    assert_eq!(got, urls.iter().map(|u| u.to_string()).collect::<Vec<_>>());
}

#[test]
fn mock_transport_keeps_unused_script() {
    let mut t = MockTransport::new(vec![
        MockResponse::ok(200, vec![1]),
        MockResponse::ok(201, vec![2]),
        MockResponse::ok(202, vec![3]),
    ]);
    assert_eq!(t.requests_made(), 0);
    assert_eq!(t.remaining_scripted(), 3);
    assert_eq!(t.send_scripted(HttpRequest::get("https://x/a")).unwrap().status, 200);
    assert_eq!(t.remaining_scripted(), 2);
    assert_eq!(t.send_scripted(HttpRequest::get("https://x/b")).unwrap().status, 201);
    assert_eq!(t.remaining_scripted(), 1);
}

#[test]
fn breaker_counts_history_within_window_of_latest() {
    let mut cb = CircuitBreaker::new();
    for _ in 0..5 {
        cb.record_error(0);
    }
    for _ in 0..4 {
        cb.record_error(30_000);
    }
    assert!(!cb.is_open(30_000));
    cb.record_error(60_000);
    assert!(cb.is_open(60_000));
}

#[test]
fn breaker_window_slides_with_latest_error() {
    let mut cb = CircuitBreaker::new();
    for _ in 0..5 {
        cb.record_error(0);
    }
    for _ in 0..4 {
        cb.record_error(30_000);
    }
    cb.record_error(60_001);
    assert_eq!(cb.errors_in_window(), 5);
    assert!(!cb.is_open(60_001));
}

#[test]
fn breaker_cooldown_over_several_polls() {
    let mut cb = CircuitBreaker::new();
    for _ in 0..10 {
        cb.record_error(1_000);
    }
    assert!(cb.is_open(1_000));
    assert!(cb.is_open(100_000));
    assert!(cb.is_open(300_999));
    assert_eq!(cb.errors_in_window(), 10);
    assert!(!cb.is_open(301_000));
    assert_eq!(cb.errors_in_window(), 0);
    assert!(!cb.is_open(302_000));
    for _ in 0..9 {
        cb.record_error(303_000);
    }
    assert!(!cb.is_open(303_000));
    cb.record_error(303_000);
    assert!(cb.is_open(303_000));
}

#[test]
fn cache_grows_only_for_new_keys() {
    let mut c = Cache::new();
    assert_eq!(c.len(), 0);
    c.put("a", b"1".to_vec());
    assert_eq!(c.len(), 1);
    c.put("b", b"2".to_vec());
    assert_eq!(c.len(), 2);
    c.put("a", b"3".to_vec());
    assert_eq!(c.len(), 2);
    assert_eq!(c.get("a"), Some(b"3".to_vec()));
}
