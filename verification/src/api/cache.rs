//! In-memory response cache.
//!
//! Wikipedia revisions are immutable, so a (title, revision) pair never needs
//! to be refetched once retrieved. Entries are keyed by the request, so
//! caching works for any GET regardless of the endpoint.

use vstd::prelude::*;

use crate::text::{copy_str, str_eq};

verus! {

/// The map that an association list of distinct keys stands for.
pub open spec fn map_of(s: Seq<(String, Vec<u8>)>) -> Map<Seq<char>, Seq<u8>>
    decreases s.len(),
{
    if s.len() == 0 {
        Map::empty()
    } else {
        map_of(s.drop_last()).insert(s.last().0@, s.last().1@)
    }
}

/// No key occurs twice.
pub open spec fn distinct_keys(s: Seq<(String, Vec<u8>)>) -> bool {
    forall|i: int, j: int| 0 <= i < j < s.len() ==> (#[trigger] s[i]).0@ != (#[trigger] s[j]).0@
}

proof fn lemma_map_of_dom(s: Seq<(String, Vec<u8>)>, k: Seq<char>)
    ensures
        map_of(s).dom().contains(k) <==> exists|i: int| 0 <= i < s.len() && (#[trigger] s[i]).0@ == k,
        map_of(s).dom().finite(),
    decreases s.len(),
{
    if s.len() > 0 {
        let init = s.drop_last();
        lemma_map_of_dom(init, k);
        if map_of(s).dom().contains(k) {
            if k != s.last().0@ {
                let i = choose|i: int| 0 <= i < init.len() && (#[trigger] init[i]).0@ == k;
                assert(s[i] == init[i]);
            } else {
                assert(s[s.len() - 1].0@ == k);
            }
        }
        if exists|i: int| 0 <= i < s.len() && (#[trigger] s[i]).0@ == k {
            let i = choose|i: int| 0 <= i < s.len() && (#[trigger] s[i]).0@ == k;
            if i < s.len() - 1 {
                assert(init[i] == s[i]);
            }
        }
    }
}

proof fn lemma_map_of_value(s: Seq<(String, Vec<u8>)>, i: int)
    requires
        distinct_keys(s),
        0 <= i < s.len(),
    ensures
        map_of(s).dom().contains(s[i].0@),
        map_of(s)[s[i].0@] == s[i].1@,
    decreases s.len(),
{
    lemma_map_of_dom(s, s[i].0@);
    if i < s.len() - 1 {
        let init = s.drop_last();
        assert(init[i] == s[i]);
        assert(distinct_keys(init));
        lemma_map_of_value(init, i);
        assert(s[i].0@ != s[s.len() - 1].0@);
    }
}

proof fn lemma_map_of_len(s: Seq<(String, Vec<u8>)>)
    requires
        distinct_keys(s),
    ensures
        map_of(s).dom().len() == s.len(),
    decreases s.len(),
{
    if s.len() > 0 {
        let init = s.drop_last();
        assert(distinct_keys(init));
        lemma_map_of_len(init);
        lemma_map_of_dom(init, s.last().0@);
        if map_of(init).dom().contains(s.last().0@) {
            let i = choose|i: int| 0 <= i < init.len() && (#[trigger] init[i]).0@ == s.last().0@;
            assert(s[i] == init[i]);
        }
    }
}

proof fn lemma_map_of_update(s: Seq<(String, Vec<u8>)>, i: int, e: (String, Vec<u8>))
    requires
        0 <= i < s.len(),
        e.0@ == s[i].0@,
        distinct_keys(s),
    ensures
        map_of(s.update(i, e)) == map_of(s).insert(e.0@, e.1@),
        distinct_keys(s.update(i, e)),
    decreases s.len(),
{
    let t = s.update(i, e);
    if i == s.len() - 1 {
        assert(t.drop_last() == s.drop_last());
        assert(map_of(t) =~= map_of(s).insert(e.0@, e.1@));
    } else {
        let init = s.drop_last();
        assert(distinct_keys(init));
        lemma_map_of_update(init, i, e);
        assert(t.drop_last() == init.update(i, e));
        assert(e.0@ != s.last().0@);
        assert(map_of(t) =~= map_of(s).insert(e.0@, e.1@));
    }
}

/// In-memory map from request keys to response bodies.
pub struct Cache {
    entries: Vec<(String, Vec<u8>)>,
}

impl View for Cache {
    type V = Map<Seq<char>, Seq<u8>>;

    closed spec fn view(&self) -> Map<Seq<char>, Seq<u8>> {
        map_of(self.entries@)
    }
}

impl Cache {
    #[verifier::type_invariant]
    spec fn inv(self) -> bool {
        distinct_keys(self.entries@)
    }

    /// An empty cache.
    pub fn new() -> (r: Self)
        ensures
            r@ == Map::<Seq<char>, Seq<u8>>::empty(),
            r@.dom().finite(),
    {
        Cache { entries: Vec::new() }
    }

    fn position(&self, key: &str) -> (r: Option<usize>)
        ensures
            match r {
                Some(i) => i < self.entries@.len() && self.entries@[i as int].0@ == key@,
                None => forall|i: int|
                    0 <= i < self.entries@.len() ==> (#[trigger] self.entries@[i]).0@ != key@,
            },
    {
        let mut i: usize = 0;
        while i < self.entries.len()
            invariant
                i <= self.entries@.len(),
                forall|j: int| 0 <= j < i ==> (#[trigger] self.entries@[j]).0@ != key@,
            decreases self.entries@.len() - i,
        {
            if str_eq(self.entries[i].0.as_str(), key) {
                return Some(i);
            }
            i = i + 1;
        }
        None
    }

    /// The body cached under `key`, if any.
    pub fn get(&self, key: &str) -> (r: Option<Vec<u8>>)
        ensures
            match r {
                Some(body) => self@.contains_key(key@) && body@ == self@[key@],
                None => !self@.contains_key(key@),
            },
    {
        proof {
            use_type_invariant(self);
            lemma_map_of_dom(self.entries@, key@);
        }
        match self.position(key) {
            Some(i) => {
                let body = self.entries[i].1.clone();
                proof {
                    lemma_map_of_value(self.entries@, i as int);
                    assert(body@ =~= self.entries@[i as int].1@);
                }
                Some(body)
            },
            None => None,
        }
    }

    /// Stores `body` under `key`, replacing any earlier body. The cache grows
    /// by one entry exactly when the key was not cached yet.
    pub fn put(&mut self, key: &str, body: Vec<u8>)
        ensures
            final(self)@ == old(self)@.insert(key@, body@),
            final(self)@.dom().finite(),
            final(self)@.len() == old(self)@.len() + (if old(self)@.contains_key(key@) {
                0int
            } else {
                1int
            }),
    {
        proof {
            use_type_invariant(&*self);
            lemma_map_of_dom(self.entries@, key@);
        }
        let mut entries: Vec<(String, Vec<u8>)> = Vec::new();
        std::mem::swap(&mut entries, &mut self.entries);
        let ghost before = entries@;
        assert(map_of(before) == old(self)@);
        let pos = {
            let tmp = Cache { entries };
            let p = tmp.position(key);
            entries = tmp.entries;
            p
        };
        match pos {
            Some(i) => {
                let e = (copy_str(key), body);
                proof {
                    lemma_map_of_update(before, i as int, e);
                }
                entries.set(i, e);
            },
            None => {
                let e = (copy_str(key), body);
                entries.push(e);
                proof {
                    assert(entries@.drop_last() == before);
                    assert forall|a: int, b: int|
                        0 <= a < b < entries@.len() implies (#[trigger] entries@[a]).0@ != (
                    #[trigger] entries@[b]).0@ by {
                        if b == entries@.len() - 1 {
                            assert(entries@[a] == before[a]);
                        } else {
                            assert(entries@[a] == before[a] && entries@[b] == before[b]);
                        }
                    }
                }
            },
        }
        self.entries = entries;
    }

    /// Forgets every entry.
    pub fn clear(&mut self)
        ensures
            final(self)@ == Map::<Seq<char>, Seq<u8>>::empty(),
            final(self)@.dom().finite(),
    {
        self.entries = Vec::new();
    }

    /// Number of cached entries.
    pub fn len(&self) -> (r: usize)
        ensures
            r == self@.len(),
            self@.dom().finite(),
    {
        proof {
            use_type_invariant(self);
            lemma_map_of_len(self.entries@);
            lemma_map_of_dom(self.entries@, Seq::empty());
        }
        self.entries.len()
    }

    /// Whether nothing is cached.
    pub fn is_empty(&self) -> (r: bool)
        ensures
            r == (self@.len() == 0),
    {
        self.len() == 0
    }
}

impl Default for Cache {
    fn default() -> (r: Self)
        ensures
            r@ == Map::<Seq<char>, Seq<u8>>::empty(),
    {
        Cache::new()
    }
}

/// A read after a write under the same key returns what was written; other
/// keys are untouched; a second write to the same key replaces the first
/// without growing the cache.
pub proof fn law_read_after_write(
    m: Map<Seq<char>, Seq<u8>>,
    k: Seq<char>,
    other: Seq<char>,
    v1: Seq<u8>,
    v2: Seq<u8>,
)
    requires
        other != k,
        m.dom().finite(),
    ensures
        m.insert(k, v1).contains_key(k) && m.insert(k, v1)[k] == v1,
        m.insert(k, v1).contains_key(other) == m.contains_key(other),
        m.contains_key(other) ==> m.insert(k, v1)[other] == m[other],
        m.insert(k, v1).insert(k, v2) == m.insert(k, v2),
        m.insert(k, v1).insert(k, v2).len() == m.insert(k, v1).len(),
{
    assert(m.insert(k, v1).insert(k, v2) =~= m.insert(k, v2));
    assert(m.insert(k, v1).dom().contains(k));
    assert(m.insert(k, v1).insert(k, v2).dom() =~= m.insert(k, v1).dom());
}

} // verus!
