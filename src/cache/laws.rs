use vstd::prelude::*;

use crate::cache::entry::{CacheEntry, Outcome};
use crate::cache::table::{
    keys_unique, lemma_resident_absent, lemma_resident_index, resident_index, without_pending, without_resident, Lookup, TableView,
};

verus! {

proof fn lemma_index_bounds(res: Seq<(Seq<char>, CacheEntry)>, k: Seq<char>)
    ensures
        resident_index(res, k) == -1 || (0 <= resident_index(res, k) < res.len() && res[resident_index(res, k)].0 == k),
        resident_index(res, k) == -1 ==> forall|j: int| 0 <= j < res.len() ==> res[j].0 != k,
{
}

/// Dropping key `k` keeps the keys unique, leaves no entry for `k`, and
/// keeps every other key's entry.
proof fn lemma_without(res: Seq<(Seq<char>, CacheEntry)>, k: Seq<char>)
    requires
        keys_unique(res),
    ensures
        keys_unique(without_resident(res, k)),
        forall|j: int| 0 <= j < without_resident(res, k).len() ==> (#[trigger] without_resident(res, k)[j]).0 != k,
        forall|j: int| 0 <= j < res.len() && res[j].0 != k ==> (#[trigger] without_resident(res, k).contains(res[j])),
        without_resident(res, k).len() == res.len() - (if resident_index(res, k) >= 0 { 1int } else { 0 }),
{
    lemma_index_bounds(res, k);
    let i = resident_index(res, k);
    let w = without_resident(res, k);
    if i >= 0 {
        assert forall|a: int, b: int| 0 <= a < w.len() && 0 <= b < w.len() && a != b implies w[a].0 != w[b].0 by {
            let ia = if a < i { a } else { a + 1 };
            let ib = if b < i { b } else { b + 1 };
            assert(w[a] == res[ia]);
            assert(w[b] == res[ib]);
        }
        assert forall|j: int| 0 <= j < w.len() implies (#[trigger] w[j]).0 != k by {
            let ij = if j < i { j } else { j + 1 };
            assert(w[j] == res[ij]);
        }
        assert forall|j: int| 0 <= j < res.len() && res[j].0 != k implies (#[trigger] w.contains(res[j])) by {
            let jw = if j < i { j } else { j - 1 };
            assert(w[jw] == res[j]);
        }
    }
}

/// After a computation of `k` completes, `k` is no longer in flight.
proof fn lemma_complete_not_pending(v: TableView, k: Seq<char>, e: CacheEntry)
    requires
        v.wf(),
    ensures
        !v.complete_step(k, e).pending.contains(k),
        v.complete_step(k, e).pending.no_duplicates(),
{
    let p = v.pending;
    let w = without_pending(p, k);
    if exists|i: int| 0 <= i < p.len() && p[i] == k {
        let i = choose|i: int| 0 <= i < p.len() && p[i] == k;
        assert(w == p.remove(i));
        assert forall|j: int| 0 <= j < w.len() implies w[j] != k by {
            let ij = if j < i { j } else { j + 1 };
            assert(w[j] == p[ij]);
        }
        assert forall|a: int, b: int| 0 <= a < w.len() && 0 <= b < w.len() && a != b implies w[a] != w[b] by {
            let ia = if a < i { a } else { a + 1 };
            let ib = if b < i { b } else { b + 1 };
            assert(w[a] == p[ia]);
            assert(w[b] == p[ib]);
        }
    }
}

/// After a computation of `k` completes with `e` in a table that can hold
/// anything, `e` is the entry of `k`.
proof fn lemma_complete_holds(v: TableView, k: Seq<char>, e: CacheEntry)
    requires
        v.wf(),
        v.capacity > 0,
    ensures
        v.complete_step(k, e).holds(k),
        v.complete_step(k, e).entry_of(k) == e,
        keys_unique(v.complete_step(k, e).resident),
{
    lemma_without(v.resident, k);
    let rest = without_resident(v.resident, k);
    let kept = if rest.len() >= v.capacity { rest.subrange(1, rest.len() as int) } else { rest };
    let s = v.complete_step(k, e);
    assert(s.resident == kept.push((k, e)));
    assert forall|a: int, b: int|
        0 <= a < s.resident.len() && 0 <= b < s.resident.len() && a != b implies s.resident[a].0 != s.resident[b].0 by {
        if rest.len() >= v.capacity {
            if a < kept.len() {
                assert(s.resident[a] == rest[a + 1]);
            }
            if b < kept.len() {
                assert(s.resident[b] == rest[b + 1]);
            }
        } else {
            if a < kept.len() {
                assert(s.resident[a] == rest[a]);
            }
            if b < kept.len() {
                assert(s.resident[b] == rest[b]);
            }
        }
    }
    lemma_resident_index(s.resident, k, kept.len() as int);
}

/// Coalescing: for a key with no fresh entry and no computation in flight,
/// the first request is told to compute, and a later request for the same
/// key, at any instant before that computation completes, is told to wait
/// and changes nothing; so one computation serves the whole episode.
pub proof fn lemma_single_flight(v: TableView, k: Seq<char>, t0: int, t1: int)
    requires
        v.wf(),
        !v.is_live(k, t0),
        !v.pending.contains(k),
    ensures
        v.begin_step(k, t0).1 == Lookup::Compute,
        v.begin_step(k, t0).0.wf(),
        v.begin_step(k, t0).0.begin_step(k, t1) == (v.begin_step(k, t0).0, Lookup::Wait),
{
    let s = v.begin_step(k, t0).0;
    lemma_without(v.resident, k);
    lemma_resident_absent(s.resident, k);
    assert(s.pending.last() == k);
    assert(s.pending.contains(k));
    assert forall|a: int, b: int| 0 <= a < s.pending.len() && 0 <= b < s.pending.len() && a != b implies s.pending[a]
        != s.pending[b] by {
        if a < v.pending.len() && b < v.pending.len() {
        } else if a < v.pending.len() {
            assert(v.pending.contains(v.pending[a]));
        } else if b < v.pending.len() {
            assert(v.pending.contains(v.pending[b]));
        }
    }
}

/// What a run of requests for key `k`, at the instants `times` in order,
/// is told, with no computation completing in between.
pub open spec fn answers(v: TableView, k: Seq<char>, times: Seq<int>) -> Seq<Lookup>
    decreases times.len(),
{
    if times.len() == 0 {
        Seq::empty()
    } else {
        let (s, r) = v.begin_step(k, times[0]);
        seq![r] + answers(s, k, times.drop_first())
    }
}

proof fn lemma_all_wait(s: TableView, k: Seq<char>, times: Seq<int>)
    requires
        forall|t: int| #[trigger] s.begin_step(k, t) == (s, Lookup::Wait),
    ensures
        answers(s, k, times).len() == times.len(),
        forall|i: int| 0 <= i < times.len() ==> #[trigger] answers(s, k, times)[i] == Lookup::Wait,
    decreases times.len(),
{
    if times.len() > 0 {
        assert(s.begin_step(k, times[0]) == (s, Lookup::Wait));
        lemma_all_wait(s, k, times.drop_first());
        let rest = answers(s, k, times.drop_first());
        assert forall|i: int| 0 <= i < times.len() implies #[trigger] answers(s, k, times)[i] == Lookup::Wait by {
            if i > 0 {
                assert(answers(s, k, times)[i] == rest[i - 1]);
            }
        }
    }
}

/// Coalescing for any number of requests: of `n` requests for a key with
/// no fresh entry and nothing in flight, made before any computation
/// completes, exactly the first is told to compute and all others to wait.
pub proof fn lemma_one_compute_among_many(v: TableView, k: Seq<char>, times: Seq<int>)
    requires
        v.wf(),
        times.len() > 0,
        !v.is_live(k, times[0]),
        !v.pending.contains(k),
    ensures
        answers(v, k, times).len() == times.len(),
        answers(v, k, times)[0] == Lookup::Compute,
        forall|i: int| 1 <= i < times.len() ==> #[trigger] answers(v, k, times)[i] == Lookup::Wait,
{
    let s = v.begin_step(k, times[0]).0;
    assert forall|t: int| #[trigger] s.begin_step(k, t) == (s, Lookup::Wait) by {
        lemma_single_flight(v, k, times[0], t);
    }
    lemma_single_flight(v, k, times[0], times[0]);
    lemma_all_wait(s, k, times.drop_first());
    let rest = answers(s, k, times.drop_first());
    assert forall|i: int| 1 <= i < times.len() implies #[trigger] answers(v, k, times)[i] == Lookup::Wait by {
        assert(answers(v, k, times)[i] == rest[i - 1]);
    }
}

/// Every caller that joined a computation of `k` gets the same answer:
/// once it completes with `e`, a request for `k` at any instant before `e`
/// expires is served `e` itself (in a table that can hold anything).
pub proof fn lemma_complete_serves(v: TableView, k: Seq<char>, e: CacheEntry, t: int)
    requires
        v.wf(),
        v.capacity > 0,
        t < e.expires,
    ensures
        v.complete_step(k, e).wf(),
        v.complete_step(k, e).begin_step(k, t).1 == Lookup::Hit(e),
{
    lemma_complete_holds(v, k, e);
    lemma_complete_not_pending(v, k, e);
}

/// Time to live: an entry made at `t0`, expiring at `t0 + ttl`, is served
/// without a new computation at every instant before `t0 + ttl`, and at
/// every later instant a new computation is asked for.
pub proof fn lemma_ttl(v: TableView, k: Seq<char>, e: CacheEntry, t0: int, t: int)
    requires
        v.wf(),
        v.capacity > 0,
        e.expires == t0 + v.ttl,
    ensures
        t < t0 + v.ttl ==> v.complete_step(k, e).begin_step(k, t).1 == Lookup::Hit(e),
        t >= t0 + v.ttl ==> v.complete_step(k, e).begin_step(k, t).1 == Lookup::Compute,
{
    lemma_complete_holds(v, k, e);
    lemma_complete_not_pending(v, k, e);
}

/// A hit keeps the entry served: the key stays resident with the same
/// entry, so each later request before it expires is a hit too.
pub proof fn lemma_hit_keeps_entry(v: TableView, k: Seq<char>, t: int)
    requires
        v.wf(),
        v.is_live(k, t),
    ensures
        v.begin_step(k, t).1 == Lookup::Hit(v.entry_of(k)),
        v.begin_step(k, t).0.wf(),
        v.begin_step(k, t).0.holds(k),
        v.begin_step(k, t).0.entry_of(k) == v.entry_of(k),
        v.begin_step(k, t).0.pending == v.pending,
{
    let i = resident_index(v.resident, k);
    lemma_index_bounds(v.resident, k);
    let s = v.begin_step(k, t).0;
    let res = s.resident;
    assert forall|a: int, b: int| 0 <= a < res.len() && 0 <= b < res.len() && a != b implies res[a].0 != res[b].0 by {
        let ia = if a == res.len() - 1 { i } else if a < i { a } else { a + 1 };
        let ib = if b == res.len() - 1 { i } else if b < i { b } else { b + 1 };
        assert(res[a] == v.resident[ia]);
        assert(res[b] == v.resident[ib]);
    }
    lemma_resident_index(res, k, res.len() - 1);
}

/// Capacity: completing a key that is not resident in a full table evicts
/// exactly the least recently touched entry; every other resident key
/// keeps its entry, and the table stays at its capacity.
pub proof fn lemma_capacity_eviction(v: TableView, k: Seq<char>, e: CacheEntry)
    requires
        v.wf(),
        v.capacity > 0,
        v.resident.len() == v.capacity,
        !v.holds(k),
    ensures
        v.complete_step(k, e).resident.len() == v.capacity,
        !v.complete_step(k, e).holds(v.resident[0].0),
        v.complete_step(k, e).holds(k),
        v.complete_step(k, e).entry_of(k) == e,
        forall|j: int|
            1 <= j < v.resident.len() ==> v.complete_step(k, e).holds(#[trigger] v.resident[j].0)
                && v.complete_step(k, e).entry_of(v.resident[j].0) == v.resident[j].1,
{
    lemma_index_bounds(v.resident, k);
    lemma_complete_holds(v, k, e);
    let s = v.complete_step(k, e);
    assert(without_resident(v.resident, k) == v.resident);
    assert(s.resident == v.resident.subrange(1, v.resident.len() as int).push((k, e)));
    assert forall|j: int| 0 <= j < s.resident.len() implies s.resident[j].0 != v.resident[0].0 by {
        if j < s.resident.len() - 1 {
            assert(s.resident[j] == v.resident[j + 1]);
        }
    }
    lemma_resident_absent(s.resident, v.resident[0].0);
    assert forall|j: int| 1 <= j < v.resident.len() implies s.holds(#[trigger] v.resident[j].0) && s.entry_of(
        v.resident[j].0,
    ) == v.resident[j].1 by {
        assert(s.resident[j - 1] == v.resident[j]);
        lemma_resident_index(s.resident, v.resident[j].0, j - 1);
    }
}

/// A failed lookup is cached like a success: once its computation
/// completes, it is served as it is, still a failure, until it expires.
pub proof fn lemma_failure_cached(v: TableView, k: Seq<char>, e: CacheEntry, t: int)
    requires
        v.wf(),
        v.capacity > 0,
        e.status == Outcome::Failure,
        t < e.expires,
    ensures
        v.complete_step(k, e).begin_step(k, t).1 == Lookup::Hit(e),
        v.complete_step(k, e).begin_step(k, t).1->Hit_0.status == Outcome::Failure,
{
    lemma_complete_serves(v, k, e, t);
}

/// Keys are independent: while `k1` is being computed, a request for
/// another key `k2` with a fresh entry is served at once and leaves `k1`
/// in flight; and a request for `k1` leaves the entry of `k2` as it is.
pub proof fn lemma_keys_independent(v: TableView, k1: Seq<char>, k2: Seq<char>, t: int)
    requires
        v.wf(),
        k1 != k2,
        v.pending.contains(k1),
        v.is_live(k2, t),
    ensures
        v.begin_step(k2, t).1 == Lookup::Hit(v.entry_of(k2)),
        v.begin_step(k2, t).0.pending == v.pending,
        v.begin_step(k1, t).0.is_live(k2, t),
        v.begin_step(k1, t).0.entry_of(k2) == v.entry_of(k2),
{
    lemma_hit_keeps_entry(v, k2, t);
    lemma_index_bounds(v.resident, k2);
    let s = v.begin_step(k1, t).0;
    if v.is_live(k1, t) {
        let i = resident_index(v.resident, k1);
        lemma_index_bounds(v.resident, k1);
        let j = resident_index(v.resident, k2);
        let js = if j < i { j } else { j - 1 };
        assert(s.resident[js] == v.resident[j]);
        lemma_hit_keeps_entry(v, k1, t);
        lemma_resident_index(s.resident, k2, js);
    }
}

} // verus!
