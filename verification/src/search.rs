//! The decisions of full-text search that do not depend on scores: when a
//! query is tried again with tolerance for one typo, and how the exact hits
//! and the tolerant hits are merged. The index itself, and its scores, live
//! in the application.

use vstd::prelude::*;

use crate::text::{chars_of, is_whitespace, is_ws, string_of, trim, trim_chars};

verus! {

/// The shortest word that is tried again with typo tolerance.
pub const MIN_FUZZY_CHARS: usize = 4;

/// The word a query is tried again with, when its exact search found fewer
/// hits than asked for: the trimmed query, when it is a single word (no
/// whitespace) of at least `MIN_FUZZY_CHARS` characters. Multi-word queries
/// keep their operator and phrase meaning and are never tried again.
pub open spec fn fuzzy_word_spec(query: Seq<char>, exact_hits: nat, limit: nat) -> Option<Seq<char>> {
    let t = trim(query);
    if exact_hits < limit && t.len() >= MIN_FUZZY_CHARS && (forall|i: int|
        0 <= i < t.len() ==> !is_ws(#[trigger] t[i])) {
        Some(t)
    } else {
        None
    }
}

/// The word to try `query` again with after `exact_hits` exact hits out of
/// `limit`, if any (see `fuzzy_word_spec`).
pub fn fuzzy_word(query: &str, exact_hits: usize, limit: usize) -> (r: Option<String>)
    ensures
        match fuzzy_word_spec(query@, exact_hits as nat, limit as nat) {
            Some(w) => r matches Some(s) && s@ == w,
            None => r is None,
        },
{
    if exact_hits >= limit {
        return None;
    }
    let t = trim_chars(chars_of(query).as_slice());
    if t.len() < MIN_FUZZY_CHARS {
        return None;
    }
    let mut i: usize = 0;
    while i < t.len()
        invariant
            i <= t@.len(),
            t@ == trim(query@),
            exact_hits < limit,
            t@.len() >= MIN_FUZZY_CHARS,
            forall|j: int| 0 <= j < i ==> !is_ws(#[trigger] t@[j]),
        decreases t@.len() - i,
    {
        if is_whitespace(t[i]) {
            assert(is_ws(t@[i as int]));
            assert(!(forall|j: int| 0 <= j < t@.len() ==> !is_ws(#[trigger] t@[j])));
            return None;
        }
        i = i + 1;
    }
    Some(string_of(t.as_slice()))
}

/// The positions in `ids`, from the `i`-th on, of the ids not yet in
/// `taken`, each id once and at most `room` of them, in order.
pub open spec fn pick_new(taken: Seq<u64>, ids: Seq<u64>, i: int, room: nat) -> Seq<int>
    decreases ids.len() - i,
{
    if i < 0 || i >= ids.len() || room == 0 {
        Seq::empty()
    } else if taken.contains(ids[i]) {
        pick_new(taken, ids, i + 1, room)
    } else {
        seq![i] + pick_new(taken.push(ids[i]), ids, i + 1, (room - 1) as nat)
    }
}

/// How many exact hits a merge keeps.
pub open spec fn kept_exact(exact: Seq<u64>, limit: nat) -> nat {
    if exact.len() < limit {
        exact.len()
    } else {
        limit
    }
}

/// The tolerant hits a merge keeps, by position: those whose page is not
/// already among the kept exact hits or the tolerant hits before them, up to
/// the limit.
pub open spec fn kept_fuzzy(exact: Seq<u64>, fuzzy: Seq<u64>, limit: nat) -> Seq<int> {
    let k = kept_exact(exact, limit);
    pick_new(exact.take(k as int), fuzzy, 0, (limit - k) as nat)
}

fn contains_id(v: &Vec<u64>, x: u64) -> (r: bool)
    ensures
        r == v@.contains(x),
{
    let mut i: usize = 0;
    while i < v.len()
        invariant
            i <= v@.len(),
            forall|j: int| 0 <= j < i ==> v@[j] != x,
        decreases v@.len() - i,
    {
        if v[i] == x {
            return true;
        }
        i = i + 1;
    }
    false
}

/// Merges the page ids of the exact hits and of the tolerant hits, each in
/// rank order, into at most `limit` hits: the exact hits first, then the
/// tolerant hits whose page is not already there. Each result names its
/// hit: `(false, j)` the `j`-th exact hit, `(true, j)` the `j`-th tolerant
/// one.
pub fn merge_hits(exact: &[u64], fuzzy: &[u64], limit: usize) -> (r: Vec<(bool, usize)>)
    ensures
        r@.len() == kept_exact(exact@, limit as nat) + kept_fuzzy(exact@, fuzzy@, limit as nat).len(),
        forall|j: int| 0 <= j < kept_exact(exact@, limit as nat) ==> #[trigger] r@[j] == (false, j as usize),
        forall|j: int|
            0 <= j < kept_fuzzy(exact@, fuzzy@, limit as nat).len() ==> #[trigger] r@[kept_exact(
                exact@,
                limit as nat,
            ) + j] == (true, kept_fuzzy(exact@, fuzzy@, limit as nat)[j] as usize),
{
    let k: usize = if exact.len() < limit {
        exact.len()
    } else {
        limit
    };
    let mut out: Vec<(bool, usize)> = Vec::new();
    let mut taken: Vec<u64> = Vec::new();
    let mut j: usize = 0;
    while j < k
        invariant
            j <= k,
            k <= exact@.len(),
            out@.len() == j,
            taken@ == exact@.take(j as int),
            forall|m: int| 0 <= m < j ==> #[trigger] out@[m] == (false, m as usize),
        decreases k - j,
    {
        out.push((false, j));
        taken.push(exact[j]);
        j = j + 1;
        proof {
            assert(taken@ =~= exact@.take(j as int));
        }
    }
    let ghost picks = kept_fuzzy(exact@, fuzzy@, limit as nat);
    let ghost done: Seq<int> = Seq::empty();
    let mut room: usize = limit - k;
    let mut i: usize = 0;
    assert(picks == done + pick_new(taken@, fuzzy@, 0, room as nat));
    while i < fuzzy.len() && room > 0
        invariant
            i <= fuzzy@.len(),
            k == kept_exact(exact@, limit as nat),
            out@.len() == k + done.len(),
            forall|m: int| 0 <= m < k ==> #[trigger] out@[m] == (false, m as usize),
            forall|m: int| 0 <= m < done.len() ==> #[trigger] out@[k + m] == (true, done[m] as usize),
            forall|m: int| 0 <= m < done.len() ==> 0 <= #[trigger] done[m] < i,
            picks == done + pick_new(taken@, fuzzy@, i as int, room as nat),
        decreases fuzzy@.len() - i,
    {
        let id = fuzzy[i];
        if !contains_id(&taken, id) {
            proof {
                assert(pick_new(taken@, fuzzy@, i as int, room as nat) == seq![i as int] + pick_new(
                    taken@.push(id),
                    fuzzy@,
                    i + 1,
                    (room - 1) as nat,
                ));
                assert(done + (seq![i as int] + pick_new(taken@.push(id), fuzzy@, i + 1, (room - 1) as nat))
                    =~= done.push(i as int) + pick_new(taken@.push(id), fuzzy@, i + 1, (room - 1) as nat));
                done = done.push(i as int);
            }
            out.push((true, i));
            taken.push(id);
            room = room - 1;
        }
        i = i + 1;
    }
    proof {
        assert(pick_new(taken@, fuzzy@, i as int, room as nat) =~= Seq::<int>::empty());
        assert(picks =~= done);
    }
    out
}

proof fn lemma_pick_new(taken: Seq<u64>, ids: Seq<u64>, i: int, room: nat)
    ensures
        pick_new(taken, ids, i, room).len() <= room,
        forall|a: int|
            0 <= a < pick_new(taken, ids, i, room).len() ==> {
                let p = #[trigger] pick_new(taken, ids, i, room)[a];
                &&& i <= p < ids.len()
                &&& !taken.contains(ids[p])
            },
        forall|a: int, b: int|
            0 <= a < b < pick_new(taken, ids, i, room).len() ==> pick_new(taken, ids, i, room)[a]
                < pick_new(taken, ids, i, room)[b] && ids[#[trigger] pick_new(taken, ids, i, room)[a]]
                != ids[#[trigger] pick_new(taken, ids, i, room)[b]],
    decreases ids.len() - i,
{
    if i < 0 || i >= ids.len() || room == 0 {
    } else if taken.contains(ids[i]) {
        lemma_pick_new(taken, ids, i + 1, room);
    } else {
        let t2 = taken.push(ids[i]);
        let rest = pick_new(t2, ids, i + 1, (room - 1) as nat);
        lemma_pick_new(t2, ids, i + 1, (room - 1) as nat);
        let all = pick_new(taken, ids, i, room);
        assert(all == seq![i] + rest);
        assert forall|a: int| 0 <= a < rest.len() implies !taken.contains(ids[#[trigger] rest[a]]) && ids[rest[a]]
            != ids[i] by {
            assert(!t2.contains(ids[rest[a]]));
            if taken.contains(ids[rest[a]]) {
                let w = choose|w: int| 0 <= w < taken.len() && taken[w] == ids[rest[a]];
                assert(t2[w] == taken[w]);
            }
            assert(t2[taken.len() as int] == ids[i]);
        }
        assert forall|a: int, b: int| 0 <= a < b < all.len() implies all[a] < all[b] && ids[#[trigger] all[a]]
            != ids[#[trigger] all[b]] by {
            if a == 0 {
                assert(all[b] == rest[b - 1]);
            } else {
                assert(all[a] == rest[a - 1] && all[b] == rest[b - 1]);
            }
        }
        assert forall|a: int| 0 <= a < all.len() implies {
            let p = #[trigger] all[a];
            &&& i <= p < ids.len()
            &&& !taken.contains(ids[p])
        } by {
            if a > 0 {
                assert(all[a] == rest[a - 1]);
            }
        }
    }
}

/// A merge shows at most `limit` hits; the tolerant hits it keeps come in
/// rank order, and none of them shows a page that an exact hit kept, or an
/// earlier tolerant hit, already shows.
pub proof fn law_merge_bounded_and_distinct(exact: Seq<u64>, fuzzy: Seq<u64>, limit: nat)
    ensures
        kept_exact(exact, limit) + kept_fuzzy(exact, fuzzy, limit).len() <= limit,
        forall|a: int|
            0 <= a < kept_fuzzy(exact, fuzzy, limit).len() ==> {
                let p = #[trigger] kept_fuzzy(exact, fuzzy, limit)[a];
                &&& 0 <= p < fuzzy.len()
                &&& forall|j: int| 0 <= j < kept_exact(exact, limit) ==> exact[j] != fuzzy[p]
            },
        forall|a: int, b: int|
            0 <= a < b < kept_fuzzy(exact, fuzzy, limit).len() ==> kept_fuzzy(exact, fuzzy, limit)[a]
                < kept_fuzzy(exact, fuzzy, limit)[b] && fuzzy[#[trigger] kept_fuzzy(exact, fuzzy, limit)[a]]
                != fuzzy[#[trigger] kept_fuzzy(exact, fuzzy, limit)[b]],
{
    let k = kept_exact(exact, limit);
    let taken = exact.take(k as int);
    lemma_pick_new(taken, fuzzy, 0, (limit - k) as nat);
    let picks = kept_fuzzy(exact, fuzzy, limit);
    assert forall|a: int| 0 <= a < picks.len() implies {
        let p = #[trigger] picks[a];
        &&& 0 <= p < fuzzy.len()
        &&& forall|j: int| 0 <= j < k ==> exact[j] != fuzzy[p]
    } by {
        let p = picks[a];
        assert forall|j: int| 0 <= j < k implies exact[j] != fuzzy[p] by {
            assert(taken[j] == exact[j]);
        }
    }
}

/// A tolerant hit whose page is already taken is skipped without using up
/// any room.
pub proof fn law_seen_page_takes_no_room(taken: Seq<u64>, ids: Seq<u64>, i: int, room: nat)
    requires
        0 <= i < ids.len(),
        taken.contains(ids[i]),
    ensures
        pick_new(taken, ids, i, room) == pick_new(taken, ids, i + 1, room),
{
}

proof fn lemma_pick_new_maximal(taken: Seq<u64>, ids: Seq<u64>, i: int, room: nat)
    requires
        0 <= i,
    ensures
        pick_new(taken, ids, i, room).len() < room ==> forall|k: int|
            i <= k < ids.len() ==> taken.contains(#[trigger] ids[k]) || exists|a: int|
                0 <= a < pick_new(taken, ids, i, room).len() && ids[pick_new(taken, ids, i, room)[a]]
                    == ids[k],
    decreases ids.len() - i,
{
    if i >= ids.len() || room == 0 {
    } else if taken.contains(ids[i]) {
        lemma_pick_new_maximal(taken, ids, i + 1, room);
    } else {
        let t2 = taken.push(ids[i]);
        let rest = pick_new(t2, ids, i + 1, (room - 1) as nat);
        let all = pick_new(taken, ids, i, room);
        lemma_pick_new_maximal(t2, ids, i + 1, (room - 1) as nat);
        assert(all == seq![i] + rest);
        if all.len() < room {
            assert forall|k: int| i <= k < ids.len() implies taken.contains(#[trigger] ids[k]) || exists|a: int|
                0 <= a < all.len() && ids[all[a]] == ids[k] by {
                if ids[k] == ids[i] {
                    assert(all[0] == i);
                } else if k > i {
                    if t2.contains(ids[k]) {
                        let w = choose|w: int| 0 <= w < t2.len() && t2[w] == ids[k];
                        if w < taken.len() {
                            assert(taken[w] == ids[k]);
                        } else {
                            assert(t2[w] == ids[i]);
                        }
                    } else {
                        let a = choose|a: int| 0 <= a < rest.len() && ids[rest[a]] == ids[k];
                        assert(all[a + 1] == rest[a]);
                    }
                } else {
                    assert(k == i);
                }
            }
        }
    }
}

/// A merge is as full as it can be: when it shows fewer hits than the
/// limit, every tolerant hit's page is shown, by a kept exact hit or a kept
/// tolerant hit, and every exact hit is kept.
pub proof fn law_merge_is_maximal(exact: Seq<u64>, fuzzy: Seq<u64>, limit: nat)
    ensures
        kept_exact(exact, limit) + kept_fuzzy(exact, fuzzy, limit).len() < limit ==> {
            &&& kept_exact(exact, limit) == exact.len()
            &&& forall|k: int|
                0 <= k < fuzzy.len() ==> (exists|j: int| 0 <= j < exact.len() && exact[j] == #[trigger] fuzzy[k])
                    || (exists|a: int|
                    0 <= a < kept_fuzzy(exact, fuzzy, limit).len() && fuzzy[kept_fuzzy(exact, fuzzy, limit)[a]]
                        == fuzzy[k])
        },
{
    let k0 = kept_exact(exact, limit);
    let taken = exact.take(k0 as int);
    lemma_pick_new_maximal(taken, fuzzy, 0, (limit - k0) as nat);
    if k0 + kept_fuzzy(exact, fuzzy, limit).len() < limit {
        assert(k0 == exact.len());
        assert forall|k: int| 0 <= k < fuzzy.len() implies (exists|j: int|
            0 <= j < exact.len() && exact[j] == #[trigger] fuzzy[k]) || (exists|a: int|
            0 <= a < kept_fuzzy(exact, fuzzy, limit).len() && fuzzy[kept_fuzzy(exact, fuzzy, limit)[a]]
                == fuzzy[k]) by {
            if taken.contains(fuzzy[k]) {
                let w = choose|w: int| 0 <= w < taken.len() && taken[w] == fuzzy[k];
                assert(exact[w] == fuzzy[k]);
            }
        }
    }
}

} // verus!
