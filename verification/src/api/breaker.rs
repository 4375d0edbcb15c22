//! Circuit breaker.
//!
//! After 10 errors in a 60-second window, the breaker opens and rejects all
//! requests for 5 minutes. Once the cooldown elapses, the next call to
//! `is_open` clears the state and traffic resumes.
//!
//! Time is a monotonic clock reading in milliseconds, supplied by the caller.

use vstd::prelude::*;

verus! {

/// Errors within the window that open the breaker.
pub const DEFAULT_ERROR_THRESHOLD: usize = 10;

/// Length of the rolling error window, in milliseconds.
pub const DEFAULT_ERROR_WINDOW_MS: u64 = 60_000;

/// How long the breaker stays open, in milliseconds.
pub const DEFAULT_OPEN_DURATION_MS: u64 = 300_000;

/// `a - b`, or 0 when `b` is later than `a`.
pub open spec fn since(now: u64, then: u64) -> int {
    if now >= then {
        now - then
    } else {
        0
    }
}

/// The abstract state of a breaker.
pub struct BreakerView {
    /// Times of the errors counted in the current window, oldest first.
    pub errors: Seq<u64>,
    /// When the breaker opened, if it is open.
    pub opened_at: Option<u64>,
}

/// `errors` without the leading errors older than the window.
pub open spec fn prune(errors: Seq<u64>, now: u64) -> Seq<u64>
    decreases errors.len(),
{
    if errors.len() > 0 && since(now, errors[0]) > DEFAULT_ERROR_WINDOW_MS {
        prune(errors.drop_first(), now)
    } else {
        errors
    }
}

/// Whether `is_open` at `now` reports the breaker open.
pub open spec fn open_at(v: BreakerView, now: u64) -> bool {
    match v.opened_at {
        Some(o) => since(now, o) < DEFAULT_OPEN_DURATION_MS,
        None => false,
    }
}

/// The state after `is_open` is asked at `now`: an expired cooldown clears
/// the breaker.
pub open spec fn poll_spec(v: BreakerView, now: u64) -> BreakerView {
    match v.opened_at {
        Some(o) => if since(now, o) >= DEFAULT_OPEN_DURATION_MS {
            BreakerView { errors: Seq::empty(), opened_at: None }
        } else {
            v
        },
        None => v,
    }
}

/// The state after an error is recorded at `now`.
pub open spec fn record_spec(v: BreakerView, now: u64) -> BreakerView {
    if v.opened_at is Some {
        v
    } else {
        let errors = prune(v.errors, now).push(now);
        BreakerView {
            errors,
            opened_at: if errors.len() >= DEFAULT_ERROR_THRESHOLD {
                Some(now)
            } else {
                None
            },
        }
    }
}

/// A breaker state that the operations can reach: a closed breaker counts
/// fewer errors than the threshold.
pub open spec fn breaker_wf(v: BreakerView) -> bool {
    v.opened_at is None ==> v.errors.len() < DEFAULT_ERROR_THRESHOLD
}

/// Rolling-window error counter that opens to reject traffic.
#[derive(Debug)]
pub struct CircuitBreaker {
    errors: std::collections::VecDeque<u64>,
    opened_at: Option<u64>,
}

impl View for CircuitBreaker {
    type V = BreakerView;

    closed spec fn view(&self) -> BreakerView {
        BreakerView { errors: self.errors@, opened_at: self.opened_at }
    }
}

impl CircuitBreaker {
    /// A closed breaker with no errors recorded.
    pub fn new() -> (r: Self)
        ensures
            r@.errors == Seq::<u64>::empty(),
            r@.opened_at is None,
    {
        CircuitBreaker { errors: std::collections::VecDeque::new(), opened_at: None }
    }

    /// Whether the breaker currently rejects requests. If the cooldown has
    /// elapsed, the state is cleared and false is returned.
    pub fn is_open(&mut self, now: u64) -> (r: bool)
        ensures
            r == open_at(old(self)@, now),
            final(self)@ == poll_spec(old(self)@, now),
    {
        if let Some(opened) = self.opened_at {
            let elapsed = now.saturating_sub(opened);
            if elapsed >= DEFAULT_OPEN_DURATION_MS {
                self.errors.clear();
                self.opened_at = None;
                return false;
            }
            return true;
        }
        false
    }

    /// Records one error at `now`.
    pub fn record_error(&mut self, now: u64)
        ensures
            final(self)@ == record_spec(old(self)@, now),
    {
        if self.opened_at.is_some() {
            return;
        }
        let ghost start = self@.errors;
        loop
            invariant
                self.opened_at is None,
                prune(self.errors@, now) == prune(start, now),
            ensures
                self.opened_at is None,
                self.errors@ == prune(start, now),
            decreases self.errors@.len(),
        {
            let stale = self.errors.len() > 0 && now.saturating_sub(self.errors[0])
                > DEFAULT_ERROR_WINDOW_MS;
            if stale {
                let _ = self.errors.pop_front();
            } else {
                break ;
            }
        }
        self.errors.push_back(now);
        if self.errors.len() >= DEFAULT_ERROR_THRESHOLD {
            self.opened_at = Some(now);
        }
    }

    /// Number of errors currently counted in the window.
    pub fn errors_in_window(&self) -> (r: usize)
        ensures
            r == self@.errors.len(),
    {
        self.errors.len()
    }
}

impl Default for CircuitBreaker {
    fn default() -> (r: Self)
        ensures
            r@.errors == Seq::<u64>::empty(),
            r@.opened_at is None,
    {
        CircuitBreaker::new()
    }
}

/// The state after errors are recorded at each of `times`, in order.
pub open spec fn record_all(v: BreakerView, times: Seq<u64>) -> BreakerView
    decreases times.len(),
{
    if times.len() == 0 {
        v
    } else {
        record_spec(record_all(v, times.drop_last()), times.last())
    }
}

/// Whether `times` never goes backwards.
pub open spec fn nondecreasing(times: Seq<u64>) -> bool {
    forall|i: int, j: int| 0 <= i <= j < times.len() ==> times[i] <= times[j]
}

proof fn lemma_prune_keeps_recent(errors: Seq<u64>, now: u64)
    requires
        errors.len() > 0 ==> since(now, errors[0]) <= DEFAULT_ERROR_WINDOW_MS,
    ensures
        prune(errors, now) == errors,
{
}

proof fn lemma_record_all_in_window(times: Seq<u64>)
    requires
        nondecreasing(times),
        times.len() < DEFAULT_ERROR_THRESHOLD,
        times.len() > 0 ==> times.last() - times[0] <= DEFAULT_ERROR_WINDOW_MS,
    ensures
        record_all(BreakerView { errors: Seq::empty(), opened_at: None }, times) == (BreakerView {
            errors: times,
            opened_at: None,
        }),
    decreases times.len(),
{
    if times.len() > 0 {
        let init = times.drop_last();
        assert(nondecreasing(init)) by {
            assert forall|i: int, j: int| 0 <= i <= j < init.len() implies init[i] <= init[j] by {
                assert(init[i] == times[i] && init[j] == times[j]);
            }
        }
        if init.len() > 0 {
            assert(init[0] == times[0]);
            assert(init.last() == times[init.len() - 1]);
            assert(times[init.len() - 1] <= times.last());
            assert(times[0] <= times.last());
        }
        lemma_record_all_in_window(init);
        if init.len() > 0 {
            lemma_prune_keeps_recent(init, times.last());
        }
        assert(prune(init, times.last()) == init);
        assert(init.push(times.last()) =~= times);
        let r = record_spec(BreakerView { errors: init, opened_at: None }, times.last());
        assert(r.errors =~= times);
        assert(r.opened_at is None);
    } else {
        assert(times =~= Seq::<u64>::empty());
    }
}

/// Errors recorded at `DEFAULT_ERROR_THRESHOLD` times that all fall within
/// one window open a fresh breaker at the last of them; any fewer leave it
/// closed.
pub proof fn law_threshold_errors_in_window_open(times: Seq<u64>)
    requires
        nondecreasing(times),
        times.len() == DEFAULT_ERROR_THRESHOLD,
        times.last() - times[0] <= DEFAULT_ERROR_WINDOW_MS,
    ensures
        record_all(BreakerView { errors: Seq::empty(), opened_at: None }, times).opened_at
            == Some(times.last()),
        forall|k: int|
            0 <= k < times.len() ==> (#[trigger] record_all(
                BreakerView { errors: Seq::empty(), opened_at: None },
                times.take(k),
            )).opened_at is None,
{
    let init = times.drop_last();
    assert forall|k: int| 0 <= k < times.len() implies (#[trigger] record_all(
        BreakerView { errors: Seq::empty(), opened_at: None },
        times.take(k),
    )).opened_at is None by {
        let t = times.take(k);
        if t.len() > 0 {
            assert(t[0] == times[0]);
            assert(t.last() == times[k - 1]);
        }
        lemma_record_all_in_window(t);
    }
    assert(init.last() == times[times.len() - 2]);
    lemma_record_all_in_window(init);
    lemma_prune_keeps_recent(init, times.last());
}

/// Errors that have aged out of the window are forgotten: an error recorded
/// after all earlier ones are stale is the only one counted.
pub proof fn law_stale_errors_do_not_count(v: BreakerView, now: u64)
    requires
        v.opened_at is None,
        forall|i: int| 0 <= i < v.errors.len() ==> since(now, #[trigger] v.errors[i]) > DEFAULT_ERROR_WINDOW_MS,
    ensures
        record_spec(v, now).errors == seq![now],
        record_spec(v, now).opened_at is None,
    decreases v.errors.len(),
{
    if v.errors.len() > 0 {
        law_stale_errors_do_not_count(
            BreakerView { errors: v.errors.drop_first(), opened_at: None },
            now,
        );
    }
}

/// Every reachable state stays reachable: polling and recording keep a
/// closed breaker under the threshold.
pub proof fn law_breaker_wf_preserved(v: BreakerView, now: u64)
    requires
        breaker_wf(v),
    ensures
        breaker_wf(poll_spec(v, now)),
        breaker_wf(record_spec(v, now)),
{
}

/// An open breaker ignores further errors.
pub proof fn law_open_ignores_errors(v: BreakerView, now: u64)
    requires
        v.opened_at is Some,
    ensures
        record_spec(v, now) == v,
{
}

/// An open breaker rejects traffic for the whole cooldown and, once the
/// cooldown has elapsed, reports closed and forgets every past error.
pub proof fn law_cooldown(v: BreakerView, opened: u64, now: u64)
    requires
        v.opened_at == Some(opened),
    ensures
        now >= opened ==> (open_at(v, now) <==> now - opened < DEFAULT_OPEN_DURATION_MS),
        !open_at(v, now) ==> poll_spec(v, now) == (BreakerView {
            errors: Seq::empty(),
            opened_at: None,
        }),
        open_at(v, now) ==> poll_spec(v, now) == v,
{
}

/// Pruning by a time and then by a later one is pruning by the later one:
/// an error stale at some moment stays stale.
proof fn lemma_prune_twice(h: Seq<u64>, a: u64, b: u64)
    requires
        a <= b,
    ensures
        prune(prune(h, a), b) == prune(h, b),
    decreases h.len(),
{
    if h.len() > 0 && since(a, h[0]) > DEFAULT_ERROR_WINDOW_MS {
        lemma_prune_twice(h.drop_first(), a, b);
    }
}

/// An error that is not stale, added last, survives pruning.
proof fn lemma_prune_push(h: Seq<u64>, x: u64, now: u64)
    requires
        since(now, x) <= DEFAULT_ERROR_WINDOW_MS,
    ensures
        prune(h.push(x), now) == prune(h, now).push(x),
    decreases h.len(),
{
    if h.len() == 0 {
        assert(h.push(x) =~= seq![x]);
        assert(seq![x].drop_first() =~= Seq::<u64>::empty());
    } else {
        assert(h.push(x)[0] == h[0]);
        assert(h.push(x).drop_first() =~= h.drop_first().push(x));
        if since(now, h[0]) > DEFAULT_ERROR_WINDOW_MS {
            lemma_prune_push(h.drop_first(), x, now);
        }
    }
}

/// Pruning errors kept in time order drops exactly those older than the
/// window: what is left is the tail of errors no older than the window.
pub proof fn law_prune_keeps_the_window(h: Seq<u64>, now: u64)
    requires
        nondecreasing(h),
    ensures
        prune(h, now).len() <= h.len(),
        prune(h, now) == h.skip(h.len() - prune(h, now).len()),
        forall|i: int|
            0 <= i < h.len() ==> (since(now, #[trigger] h[i]) <= DEFAULT_ERROR_WINDOW_MS <==> i >= h.len()
                - prune(h, now).len()),
    decreases h.len(),
{
    if h.len() > 0 && since(now, h[0]) > DEFAULT_ERROR_WINDOW_MS {
        let t = h.drop_first();
        assert(nondecreasing(t)) by {
            assert forall|i: int, j: int| 0 <= i <= j < t.len() implies t[i] <= t[j] by {
                assert(t[i] == h[i + 1] && t[j] == h[j + 1]);
            }
        }
        law_prune_keeps_the_window(t, now);
        assert(t.skip(t.len() - prune(t, now).len()) =~= h.skip(h.len() - prune(h, now).len()));
        assert forall|i: int| 0 <= i < h.len() implies (since(now, #[trigger] h[i])
            <= DEFAULT_ERROR_WINDOW_MS <==> i >= h.len() - prune(h, now).len()) by {
            if i > 0 {
                assert(h[i] == t[i - 1]);
            }
        }
    } else {
        assert(h.skip(0) =~= h);
        assert forall|i: int| 0 <= i < h.len() implies (since(now, #[trigger] h[i])
            <= DEFAULT_ERROR_WINDOW_MS <==> i >= h.len() - prune(h, now).len()) by {
            assert(h[0] <= h[i]);
        }
    }
}

/// Opening over any run of errors: starting from any closed breaker, errors
/// recorded at nondecreasing times, as long as the breaker has stayed closed,
/// count what the history (the errors it held, then the new ones) holds
/// within the window of the latest; the breaker opens at the error with
/// which that count reaches the threshold, and not before.
pub proof fn law_errors_in_window_open(v: BreakerView, times: Seq<u64>, k: int)
    requires
        v.opened_at is None,
        nondecreasing(times),
        0 <= k < times.len(),
        forall|j: int| 0 <= j <= k ==> (#[trigger] record_all(v, times.take(j))).opened_at is None,
    ensures
        record_all(v, times.take(k + 1)).errors == prune(v.errors + times.take(k + 1), times[k]),
        record_all(v, times.take(k + 1)).opened_at == if prune(
            v.errors + times.take(k + 1),
            times[k],
        ).len() >= DEFAULT_ERROR_THRESHOLD {
            Some(times[k])
        } else {
            None
        },
    decreases k,
{
    let prev = record_all(v, times.take(k));
    assert(times.take(k + 1).drop_last() =~= times.take(k));
    assert(times.take(k + 1).last() == times[k]);
    assert(prev.opened_at is None);
    assert((v.errors + times.take(k)).push(times[k]) =~= v.errors + times.take(k + 1));
    lemma_prune_push(v.errors + times.take(k), times[k], times[k]);
    if k == 0 {
        assert(times.take(0) =~= Seq::<u64>::empty());
        assert(v.errors + times.take(0) =~= v.errors);
    } else {
        law_errors_in_window_open(v, times, k - 1);
        assert(times[k - 1] <= times[k]);
        lemma_prune_twice(v.errors + times.take(k), times[k - 1], times[k]);
    }
}

/// The state after `is_open` is asked at each of `nows`, in order.
pub open spec fn poll_all(v: BreakerView, nows: Seq<u64>) -> BreakerView
    decreases nows.len(),
{
    if nows.len() == 0 {
        v
    } else {
        poll_spec(poll_all(v, nows.drop_last()), nows.last())
    }
}

/// The cooldown over any run of polls: a breaker opened at `opened`, asked
/// at nondecreasing times from then on, reports open exactly while less
/// than the open duration has passed; the first poll after that reports
/// closed and clears every recorded error, and the breaker stays so.
pub proof fn law_cooldown_over_polls(v: BreakerView, opened: u64, nows: Seq<u64>)
    requires
        v.opened_at == Some(opened),
        nondecreasing(nows),
        nows.len() > 0 ==> nows[0] >= opened,
    ensures
        forall|k: int|
            0 <= k < nows.len() ==> open_at(#[trigger] poll_all(v, nows.take(k)), nows[k]) == (nows[k]
                - opened < DEFAULT_OPEN_DURATION_MS),
        forall|k: int|
            0 <= k <= nows.len() ==> #[trigger] poll_all(v, nows.take(k)) == if k > 0 && nows[k - 1]
                - opened >= DEFAULT_OPEN_DURATION_MS {
                BreakerView { errors: Seq::empty(), opened_at: None }
            } else {
                v
            },
{
    assert forall|k: int| 0 <= k <= nows.len() implies #[trigger] poll_all(v, nows.take(k)) == if k
        > 0 && nows[k - 1] - opened >= DEFAULT_OPEN_DURATION_MS {
        BreakerView { errors: Seq::empty(), opened_at: None }
    } else {
        v
    } by {
        lemma_poll_prefix(v, opened, nows, k);
    }
    assert forall|k: int| 0 <= k < nows.len() implies open_at(
        #[trigger] poll_all(v, nows.take(k)),
        nows[k],
    ) == (nows[k] - opened < DEFAULT_OPEN_DURATION_MS) by {
        lemma_poll_prefix(v, opened, nows, k);
        assert(nows[0] <= nows[k]);
        if k > 0 {
            assert(nows[k - 1] <= nows[k]);
        }
    }
}

proof fn lemma_poll_prefix(v: BreakerView, opened: u64, nows: Seq<u64>, k: int)
    requires
        v.opened_at == Some(opened),
        nondecreasing(nows),
        nows.len() > 0 ==> nows[0] >= opened,
        0 <= k <= nows.len(),
    ensures
        poll_all(v, nows.take(k)) == if k > 0 && nows[k - 1] - opened >= DEFAULT_OPEN_DURATION_MS {
            BreakerView { errors: Seq::empty(), opened_at: None }
        } else {
            v
        },
    decreases k,
{
    if k == 0 {
        assert(nows.take(0) =~= Seq::<u64>::empty());
    } else {
        lemma_poll_prefix(v, opened, nows, k - 1);
        assert(nows.take(k).drop_last() =~= nows.take(k - 1));
        assert(nows.take(k).last() == nows[k - 1]);
        assert(nows[0] <= nows[k - 1]);
        if k > 1 {
            assert(nows[k - 2] <= nows[k - 1]);
        }
    }
}

} // verus!
