use vstd::prelude::*;

use crate::cache::entry::CacheEntry;

verus! {

/// What a caller of `begin` is to do next.
#[derive(Debug)]
pub enum Lookup {
    /// A fresh entry is resident: serve it.
    Hit(CacheEntry),
    /// Nothing fresh is resident and nobody computes it: compute it, then `complete`.
    Compute,
    /// Another caller computes this key: wait for its result.
    Wait,
}

/// The abstract state of a table: resident entries from the least to the
/// most recently touched, and the keys whose computation is in flight.
pub struct TableView {
    pub capacity: nat,
    pub ttl: nat,
    pub resident: Seq<(Seq<char>, CacheEntry)>,
    pub pending: Seq<Seq<char>>,
}

/// Where key `k` sits among the resident entries, or -1.
pub open spec fn resident_index(res: Seq<(Seq<char>, CacheEntry)>, k: Seq<char>) -> int {
    if exists|i: int| 0 <= i < res.len() && (#[trigger] res[i]).0 == k {
        choose|i: int| 0 <= i < res.len() && (#[trigger] res[i]).0 == k
    } else {
        -1
    }
}

/// Where key `k` sits among the pending keys, or -1.
pub open spec fn pending_index(pen: Seq<Seq<char>>, k: Seq<char>) -> int {
    if exists|i: int| 0 <= i < pen.len() && pen[i] == k {
        choose|i: int| 0 <= i < pen.len() && pen[i] == k
    } else {
        -1
    }
}

/// The resident entries without the one of key `k`.
pub open spec fn without_resident(res: Seq<(Seq<char>, CacheEntry)>, k: Seq<char>) -> Seq<(Seq<char>, CacheEntry)> {
    let i = resident_index(res, k);
    if i >= 0 {
        res.remove(i)
    } else {
        res
    }
}

/// The pending keys without `k`.
pub open spec fn without_pending(pen: Seq<Seq<char>>, k: Seq<char>) -> Seq<Seq<char>> {
    let i = pending_index(pen, k);
    if i >= 0 {
        pen.remove(i)
    } else {
        pen
    }
}

pub open spec fn keys_unique(res: Seq<(Seq<char>, CacheEntry)>) -> bool {
    forall|i: int, j: int| 0 <= i < res.len() && 0 <= j < res.len() && i != j ==> res[i].0 != res[j].0
}

impl TableView {
    /// Keys are resident at most once and in flight at most once, and the
    /// resident entries never outnumber the capacity.
    pub open spec fn wf(self) -> bool {
        &&& keys_unique(self.resident)
        &&& self.pending.no_duplicates()
        &&& self.resident.len() <= self.capacity
    }

    /// Whether key `k` has an entry that may be served at instant `now`.
    pub open spec fn is_live(self, k: Seq<char>, now: int) -> bool {
        let i = resident_index(self.resident, k);
        i >= 0 && now < self.resident[i].1.expires
    }

    /// The entry resident under key `k` (meaningful where one is).
    pub open spec fn entry_of(self, k: Seq<char>) -> CacheEntry {
        self.resident[resident_index(self.resident, k)].1
    }

    pub open spec fn holds(self, k: Seq<char>) -> bool {
        resident_index(self.resident, k) >= 0
    }

    /// A request for key `k` at instant `now`: a fresh entry is served and
    /// becomes the most recently touched; else a caller already computing
    /// `k` is joined; else a stale entry is dropped and `k` goes in flight.
    pub open spec fn begin_step(self, k: Seq<char>, now: int) -> (TableView, Lookup) {
        let i = resident_index(self.resident, k);
        if self.is_live(k, now) {
            (
                TableView { resident: self.resident.remove(i).push(self.resident[i]), ..self },
                Lookup::Hit(self.resident[i].1),
            )
        } else if self.pending.contains(k) {
            (self, Lookup::Wait)
        } else {
            (
                TableView {
                    resident: without_resident(self.resident, k),
                    pending: self.pending.push(k),
                    ..self
                },
                Lookup::Compute,
            )
        }
    }

    /// The computation of key `k` ended with `e`: `k` leaves the flight and
    /// `e` becomes its most recently touched entry, replacing any earlier
    /// one; where the table is full, the least recently touched entry is
    /// evicted first. A table of capacity zero keeps nothing.
    pub open spec fn complete_step(self, k: Seq<char>, e: CacheEntry) -> TableView {
        let rest = without_resident(self.resident, k);
        let resident = if self.capacity == 0 {
            rest
        } else if rest.len() >= self.capacity {
            rest.subrange(1, rest.len() as int).push((k, e))
        } else {
            rest.push((k, e))
        };
        TableView { resident, pending: without_pending(self.pending, k), ..self }
    }
}

/// With unique keys, the index of a key is where it is found.
pub proof fn lemma_resident_index(res: Seq<(Seq<char>, CacheEntry)>, k: Seq<char>, i: int)
    requires
        keys_unique(res),
        0 <= i < res.len(),
        res[i].0 == k,
    ensures
        resident_index(res, k) == i,
{
}

/// A key found nowhere has no index.
pub proof fn lemma_resident_absent(res: Seq<(Seq<char>, CacheEntry)>, k: Seq<char>)
    requires
        forall|j: int| 0 <= j < res.len() ==> res[j].0 != k,
    ensures
        resident_index(res, k) == -1,
{
}

proof fn lemma_pending_index(pen: Seq<Seq<char>>, k: Seq<char>, i: int)
    requires
        pen.no_duplicates(),
        0 <= i < pen.len(),
        pen[i] == k,
    ensures
        pending_index(pen, k) == i,
{
}

/// A coalescing cache table with a fixed capacity and time to live.
pub struct CacheTable {
    capacity: usize,
    ttl: u32,
    resident: Vec<(String, CacheEntry)>,
    pending: Vec<String>,
}

impl View for CacheTable {
    type V = TableView;

    closed spec fn view(&self) -> TableView {
        TableView {
            capacity: self.capacity as nat,
            ttl: self.ttl as nat,
            resident: self.resident@.map_values(|p: (String, CacheEntry)| (p.0@, p.1)),
            pending: self.pending@.map_values(|s: String| s@),
        }
    }
}

impl CacheTable {
    pub open spec fn wf(&self) -> bool {
        self@.wf()
    }

    /// An empty table holding at most `capacity` entries, each fresh for `ttl` seconds.
    pub fn new(capacity: usize, ttl: u32) -> (r: CacheTable)
        ensures
            r.wf(),
            r@.capacity == capacity,
            r@.ttl == ttl,
            r@.resident.len() == 0,
            r@.pending.len() == 0,
    {
        let r = CacheTable { capacity, ttl, resident: Vec::new(), pending: Vec::new() };
        proof {
            assert(r@.resident =~= Seq::empty());
            assert(r@.pending =~= Seq::empty());
        }
        r
    }

    pub fn capacity(&self) -> (r: usize)
        ensures
            r == self@.capacity,
    {
        self.capacity
    }

    pub fn ttl(&self) -> (r: u32)
        ensures
            r == self@.ttl,
    {
        self.ttl
    }

    /// The number of resident entries, stale ones included.
    pub fn len(&self) -> (r: usize)
        ensures
            r == self@.resident.len(),
    {
        self.resident.len()
    }

    /// The instant at which an entry made at `now` stops being fresh.
    pub fn expiry(&self, now: u64) -> (r: u64)
        requires
            now + self@.ttl <= u64::MAX,
        ensures
            r == now + self@.ttl,
    {
        now + self.ttl as u64
    }

    /// A request for `key` at instant `now`; see `TableView::begin_step`.
    pub fn begin(&mut self, key: &String, now: u64) -> (r: Lookup)
        requires
            old(self).wf(),
        ensures
            final(self).wf(),
            (final(self)@, r) == old(self)@.begin_step(key@, now as int),
    {
        let ghost v = self@;
        let found = self.find_resident(key);
        proof {
            match found {
                Some(i) => lemma_resident_index(v.resident, key@, i as int),
                None => lemma_resident_absent(v.resident, key@),
            }
        }
        if let Some(i) = found {
            if now < self.resident[i].1.expires {
                let p = self.resident.remove(i);
                let e = p.1.duplicate();
                self.resident.push(p);
                proof {
                    assert(self@.resident =~= v.resident.remove(i as int).push(v.resident[i as int]));
                    assert(keys_unique(self@.resident)) by {
                        let res = self@.resident;
                        assert forall|a: int, b: int|
                            0 <= a < res.len() && 0 <= b < res.len() && a != b implies res[a].0 != res[b].0 by {
                            let ia = if a == res.len() - 1 { i as int } else if a < i { a } else { a + 1 };
                            let ib = if b == res.len() - 1 { i as int } else if b < i { b } else { b + 1 };
                            assert(res[a] == v.resident[ia]);
                            assert(res[b] == v.resident[ib]);
                        }
                    }
                }
                return Lookup::Hit(e);
            }
        }
        if self.find_pending(key).is_some() {
            return Lookup::Wait;
        }
        if let Some(i) = found {
            self.resident.remove(i);
            proof {
                assert(self@.resident =~= v.resident.remove(i as int));
            }
        } else {
            proof {
                assert(self@.resident =~= v.resident);
            }
        }
        self.pending.push(key.clone());
        proof {
            assert(self@.pending =~= v.pending.push(key@));
            let pen = self@.pending;
            assert forall|a: int, b: int| 0 <= a < pen.len() && 0 <= b < pen.len() && a != b implies pen[a] != pen[b] by {
                if a < v.pending.len() && b < v.pending.len() {
                    assert(v.pending[a] != v.pending[b]);
                } else if a < v.pending.len() {
                    assert(v.pending.contains(v.pending[a]));
                } else if b < v.pending.len() {
                    assert(v.pending.contains(v.pending[b]));
                }
            }
            assert(keys_unique(self@.resident));
        }
        Lookup::Compute
    }

    /// The computation of `key` ended with `e`; see `TableView::complete_step`.
    pub fn complete(&mut self, key: String, e: CacheEntry)
        requires
            old(self).wf(),
        ensures
            final(self).wf(),
            final(self)@ == old(self)@.complete_step(key@, e),
    {
        let ghost v = self@;
        let in_flight = self.find_pending(&key);
        if let Some(j) = in_flight {
            proof {
                lemma_pending_index(v.pending, key@, j as int);
            }
            self.pending.remove(j);
            proof {
                assert(self@.pending =~= v.pending.remove(j as int));
            }
        } else {
            proof {
                assert(self@.pending =~= v.pending);
            }
        }
        assert(self@.resident == v.resident);
        let found = self.find_resident(&key);
        if let Some(i) = found {
            proof {
                lemma_resident_index(v.resident, key@, i as int);
            }
            self.resident.remove(i);
            proof {
                assert(self@.resident =~= v.resident.remove(i as int));
            }
        } else {
            proof {
                lemma_resident_absent(v.resident, key@);
                assert(self@.resident =~= v.resident);
            }
        }
        let ghost rest = self@.resident;
        assert(rest == without_resident(v.resident, key@));
        assert(keys_unique(rest));
        if self.capacity > 0 {
            if self.resident.len() >= self.capacity {
                self.resident.remove(0);
                proof {
                    assert(self@.resident =~= rest.subrange(1, rest.len() as int));
                }
            }
            let ghost kept = self@.resident;
            self.resident.push((key, e));
            proof {
                assert(self@.resident =~= kept.push((key@, e)));
                assert forall|j: int| 0 <= j < kept.len() implies kept[j].0 != key@ by {
                    if rest.len() >= v.capacity {
                        assert(kept[j] == rest[j + 1]);
                    } else {
                        assert(kept[j] == rest[j]);
                    }
                }
                assert(keys_unique(kept));
            }
        }
    }

    fn find_resident(&self, key: &String) -> (r: Option<usize>)
        ensures
            match r {
                Some(i) => i < self@.resident.len() && self@.resident[i as int].0 == key@,
                None => forall|j: int| 0 <= j < self@.resident.len() ==> self@.resident[j].0 != key@,
            },
    {
        let mut i: usize = 0;
        while i < self.resident.len()
            invariant
                i <= self.resident@.len(),
                self@.resident.len() == self.resident@.len(),
                forall|j: int| 0 <= j < i ==> self@.resident[j].0 != key@,
            decreases self.resident@.len() - i,
        {
            if self.resident[i].0 == *key {
                return Some(i);
            }
            i = i + 1;
        }
        None
    }

    fn find_pending(&self, key: &String) -> (r: Option<usize>)
        ensures
            match r {
                Some(i) => i < self@.pending.len() && self@.pending[i as int] == key@,
                None => !self@.pending.contains(key@),
            },
    {
        let mut i: usize = 0;
        while i < self.pending.len()
            invariant
                i <= self.pending@.len(),
                self@.pending.len() == self.pending@.len(),
                forall|j: int| 0 <= j < i ==> self@.pending[j] != key@,
            decreases self.pending@.len() - i,
        {
            if self.pending[i] == *key {
                return Some(i);
            }
            i = i + 1;
        }
        None
    }
}

} // verus!
