//! Bounded ring buffer of recent outbound requests.
//!
//! Capped at 1000 entries by default (configurable). Powers the developer
//! debug view: the user can inspect what URL was hit, when, with what
//! status. User-entered text is never logged here.

use vstd::prelude::*;

verus! {

/// Default number of entries kept.
pub const DEFAULT_CAPACITY: usize = 1000;

/// One logged request.
#[derive(Debug)]
pub struct RequestEntry {
    /// Monotonic clock reading (milliseconds) when the request finished.
    pub at: u64,
    pub method: String,
    pub url: String,
    pub status: Option<u16>,
    pub error: Option<String>,
}

fn copy_opt_string(s: &Option<String>) -> (r: Option<String>)
    ensures
        r == *s,
{
    match s {
        Some(v) => Some(v.clone()),
        None => None,
    }
}

impl RequestEntry {
    /// An identical copy of this entry.
    pub fn duplicate(&self) -> (r: RequestEntry)
        ensures
            r == *self,
    {
        RequestEntry {
            at: self.at,
            method: self.method.clone(),
            url: self.url.clone(),
            status: self.status,
            error: copy_opt_string(&self.error),
        }
    }
}

/// The log after `e` is pushed onto `s` with room for `cap` entries.
pub open spec fn push_spec(s: Seq<RequestEntry>, cap: nat, e: RequestEntry) -> Seq<RequestEntry> {
    if s.len() >= cap {
        s.drop_first().push(e)
    } else {
        s.push(e)
    }
}

/// The log after each of `es` is pushed, in order, onto an empty log.
pub open spec fn push_all(cap: nat, es: Seq<RequestEntry>) -> Seq<RequestEntry>
    decreases es.len(),
{
    if es.len() == 0 {
        Seq::empty()
    } else {
        push_spec(push_all(cap, es.drop_last()), cap, es.last())
    }
}

/// The capacity a log asked for `capacity` entries gets (at least one).
pub open spec fn effective_capacity(capacity: usize) -> usize {
    if capacity == 0 {
        1
    } else {
        capacity
    }
}

/// Bounded log of recent requests; the oldest entry is evicted first.
pub struct RequestLog {
    capacity: usize,
    state: std::collections::VecDeque<RequestEntry>,
}

impl View for RequestLog {
    type V = Seq<RequestEntry>;

    /// The logged entries, oldest first.
    closed spec fn view(&self) -> Seq<RequestEntry> {
        self.state@
    }
}

impl RequestLog {
    #[verifier::type_invariant]
    spec fn inv(self) -> bool {
        &&& self.capacity >= 1
        &&& self.state@.len() <= self.capacity
    }

    /// The number of entries the log keeps.
    pub closed spec fn cap(&self) -> usize {
        self.capacity
    }

    /// An empty log keeping at most `capacity` entries (at least one).
    pub fn new(capacity: usize) -> (r: Self)
        ensures
            r@ == Seq::<RequestEntry>::empty(),
            r.cap() == effective_capacity(capacity),
    {
        let cap = if capacity == 0 {
            1
        } else {
            capacity
        };
        RequestLog { capacity: cap, state: std::collections::VecDeque::new() }
    }

    /// Appends `entry`, evicting the oldest entry when the log is full.
    pub fn push(&mut self, entry: RequestEntry)
        ensures
            final(self)@ == push_spec(old(self)@, old(self).cap() as nat, entry),
            final(self).cap() == old(self).cap(),
            final(self)@.len() <= final(self).cap(),
    {
        proof {
            use_type_invariant(&*self);
        }
        let mut state = std::collections::VecDeque::new();
        std::mem::swap(&mut state, &mut self.state);
        if state.len() >= self.capacity {
            let _ = state.pop_front();
        }
        state.push_back(entry);
        self.state = state;
    }

    /// A copy of the logged entries, oldest first.
    pub fn snapshot(&self) -> (r: Vec<RequestEntry>)
        ensures
            r@ == self@,
    {
        let mut out: Vec<RequestEntry> = Vec::new();
        let mut i: usize = 0;
        while i < self.state.len()
            invariant
                i <= self.state@.len(),
                out@ == self.state@.take(i as int),
            decreases self.state@.len() - i,
        {
            out.push(self.state[i].duplicate());
            proof {
                assert(self.state@.take(i + 1) == self.state@.take(i as int).push(
                    self.state@[i as int],
                ));
            }
            i = i + 1;
        }
        assert(self.state@.take(self.state@.len() as int) == self.state@);
        out
    }

    /// Number of logged entries.
    pub fn len(&self) -> (r: usize)
        ensures
            r == self@.len(),
            r <= self.cap(),
    {
        proof {
            use_type_invariant(self);
        }
        self.state.len()
    }

    /// Whether nothing is logged.
    pub fn is_empty(&self) -> (r: bool)
        ensures
            r == (self@.len() == 0),
    {
        self.state.len() == 0
    }
}

impl Default for RequestLog {
    fn default() -> (r: Self)
        ensures
            r@ == Seq::<RequestEntry>::empty(),
            r.cap() == DEFAULT_CAPACITY,
    {
        RequestLog::new(DEFAULT_CAPACITY)
    }
}

/// After any sequence of pushes the log holds exactly the most recent
/// `min(n, cap)` entries, oldest first, so it never exceeds its capacity.
pub proof fn law_log_keeps_most_recent(cap: nat, es: Seq<RequestEntry>)
    requires
        cap >= 1,
    ensures
        push_all(cap, es) == es.skip(if es.len() > cap {
            es.len() - cap
        } else {
            0
        }),
        push_all(cap, es).len() <= cap,
    decreases es.len(),
{
    if es.len() > 0 {
        let init = es.drop_last();
        law_log_keeps_most_recent(cap, init);
        let k = if init.len() > cap {
            init.len() - cap
        } else {
            0
        };
        let k2 = if es.len() > cap {
            es.len() - cap
        } else {
            0
        };
        let prev = init.skip(k);
        if prev.len() >= cap {
            assert(prev.drop_first().push(es.last()) =~= es.skip(k2));
        } else {
            assert(prev.push(es.last()) =~= es.skip(k2));
        }
    } else {
        assert(es.skip(0) =~= Seq::<RequestEntry>::empty());
    }
}

} // verus!
