//! The time-travel index of the versioned store: for every key, the history of
//! its writes as `(timestamp, offset)` pairs in write order, where `offset`
//! is the position of the written record in the data file. A read at a time
//! finds the last version written at or before that time.
use vstd::prelude::*;
use vstd::hash_map::StringHashMap;

verus! {

/// The history's timestamps never decrease.
pub open spec fn time_sorted(h: Seq<(u64, u64)>) -> bool {
    forall|i: int, j: int| 0 <= i <= j < h.len() ==> h[i].0 <= h[j].0
}

/// The offset of the last version, in write order, whose timestamp is at or
/// before `q`; `None` if every version is later.
pub open spec fn latest_at(h: Seq<(u64, u64)>, q: u64) -> Option<u64>
    decreases h.len(),
{
    if h.len() == 0 {
        None
    } else if h.last().0 <= q {
        Some(h.last().1)
    } else {
        latest_at(h.drop_last(), q)
    }
}

/// The index after `key` was written at time `now`, its record at `offset`.
pub open spec fn set_effect(
    h: Map<Seq<char>, Seq<(u64, u64)>>,
    key: Seq<char>,
    now: u64,
    offset: u64,
) -> Map<Seq<char>, Seq<(u64, u64)>> {
    h.insert(key, (if h.contains_key(key) { h[key] } else { Seq::empty() }).push((now, offset)))
}

/// The index of the versioned store.
pub struct ChronosDB {
    slots: StringHashMap<usize>,
    histories: Vec<Vec<(u64, u64)>>,
}

impl ChronosDB {
    /// Each key has a history of its own.
    pub closed spec fn wf(&self) -> bool {
        &&& forall|k: Seq<char>| #[trigger] self.slots@.contains_key(k) ==> self.slots@[k] < self.histories@.len()
        &&& forall|k1: Seq<char>, k2: Seq<char>|
            #[trigger] self.slots@.contains_key(k1) && #[trigger] self.slots@.contains_key(k2) && k1 != k2
                ==> self.slots@[k1] != self.slots@[k2]
    }

    /// Every key written so far, with the history of its writes.
    pub closed spec fn history(&self) -> Map<Seq<char>, Seq<(u64, u64)>> {
        Map::new(
            |k: Seq<char>| self.slots@.contains_key(k),
            |k: Seq<char>| self.histories@[self.slots@[k] as int]@,
        )
    }

    /// An index with no key.
    pub fn new() -> (db: ChronosDB)
        ensures
            db.wf(),
            db.history() == Map::<Seq<char>, Seq<(u64, u64)>>::empty(),
    {
        let db = ChronosDB { slots: StringHashMap::new(), histories: Vec::new() };
        assert(db.history() =~= Map::<Seq<char>, Seq<(u64, u64)>>::empty());
        db
    }

    /// Records that `key` was written at time `now`, its record stored at
    /// `offset`: the pair is appended to the key's history.
    pub fn set(&mut self, key: String, now: u64, offset: u64)
        requires
            old(self).wf(),
        ensures
            final(self).wf(),
            final(self).history() == set_effect(old(self).history(), key@, now, offset),
            final(self).history() == old(self).history().insert(
                key@,
                (if old(self).history().contains_key(key@) {
                    old(self).history()[key@]
                } else {
                    Seq::empty()
                }).push((now, offset)),
            ),
    {
        let ghost before = self.history();
        let found = match self.slots.get(key.as_str()) {
            Some(s) => Some(*s),
            None => None,
        };
        match found {
            Some(s) => {
                let ghost others = self.histories@;
                self.histories[s].push((now, offset));
                proof {
                    assert forall|k: Seq<char>| #[trigger] self.slots@.contains_key(k) && k != key@ implies
                        self.histories@[self.slots@[k] as int] == others[self.slots@[k] as int] by {}
                    assert(self.history() =~= before.insert(key@, before[key@].push((now, offset))));
                }
            },
            None => {
                let s = self.histories.len();
                let mut h: Vec<(u64, u64)> = Vec::new();
                h.push((now, offset));
                self.histories.push(h);
                self.slots.insert(key, s);
                proof {
                    assert(self.history() =~= before.insert(key@, Seq::<(u64, u64)>::empty().push((now, offset))));
                }
            },
        }
    }

    /// The offset of the version of `key` that was current at `query_time`:
    /// the last one written at or before it. `None` when the key has no
    /// history or every version is later.
    ///
    /// The history is searched by bisection, as `slice::partition_point`
    /// searches it; on a history whose timestamps never decrease, which is
    /// the case whenever the clock did not go back between writes, the answer
    /// is exactly `latest_at`.
    pub fn get_at_time(&self, key: &str, query_time: u64) -> (r: Option<u64>)
        requires
            self.wf(),
        ensures
            !self.history().contains_key(key@) ==> r is None,
            self.history().contains_key(key@) ==> {
                let h = self.history()[key@];
                &&& time_sorted(h) ==> r == latest_at(h, query_time)
                &&& r is None ==> h.len() == 0 || h[0].0 > query_time
                &&& r matches Some(off) ==> exists|j: int|
                    0 <= j < h.len() && h[j].1 == off && h[j].0 <= query_time && (j + 1 == h.len() || h[j
                        + 1].0 > query_time)
            },
    {
        let s = match self.slots.get(key) {
            Some(s) => *s,
            None => {
                return None;
            },
        };
        let history = &self.histories[s];
        let ghost h = history@;
        let mut lo: usize = 0;
        let mut hi: usize = history.len();
        while lo < hi
            invariant
                h == history@,
                lo <= hi <= h.len(),
                lo == 0 || h[lo - 1].0 <= query_time,
                hi == h.len() || h[hi as int].0 > query_time,
            decreases hi - lo,
        {
            let mid = lo + (hi - lo) / 2;
            if history[mid].0 <= query_time {
                lo = mid + 1;
            } else {
                hi = mid;
            }
        }
        proof {
            if time_sorted(h) {
                lemma_latest_at_bisection(h, query_time, lo as int);
            }
        }
        if lo == 0 {
            return None;
        }
        let (_t, offset) = history[lo - 1];
        Some(offset)
    }
}

/// On a sorted history, the split point between versions at or before `q`
/// and later ones picks out `latest_at`.
proof fn lemma_latest_at_bisection(h: Seq<(u64, u64)>, q: u64, p: int)
    requires
        time_sorted(h),
        0 <= p <= h.len(),
        p == 0 || h[p - 1].0 <= q,
        p == h.len() || h[p].0 > q,
    ensures
        p == 0 ==> latest_at(h, q) is None,
        p > 0 ==> latest_at(h, q) == Some(h[p - 1].1),
    decreases h.len(),
{
    if h.len() > 0 && p < h.len() {
        assert(h.last().0 >= h[p].0);
        lemma_latest_at_bisection(h.drop_last(), q, p);
    }
}

/// A read at any time gives back the version that the last write at or
/// before that time stored: appending a write at time `t` answers reads at
/// `t` or later with the new offset and leaves earlier reads as they were.
pub proof fn lemma_read_after_write(h: Seq<(u64, u64)>, t: u64, off: u64, q: u64)
    ensures
        latest_at(h.push((t, off)), q) == (if t <= q {
            Some(off)
        } else {
            latest_at(h, q)
        }),
{
    assert(h.push((t, off)).drop_last() =~= h);
}

/// Writes whose timestamps do not go back keep a history sorted.
pub proof fn lemma_sorted_append(h: Seq<(u64, u64)>, t: u64, off: u64)
    requires
        time_sorted(h),
        h.len() == 0 || h.last().0 <= t,
    ensures
        time_sorted(h.push((t, off))),
{
}

/// The index after a run of writes `(key, time, offset)`, in order, onto `h`.
pub open spec fn set_run(
    h: Map<Seq<char>, Seq<(u64, u64)>>,
    writes: Seq<(Seq<char>, u64, u64)>,
) -> Map<Seq<char>, Seq<(u64, u64)>>
    decreases writes.len(),
{
    if writes.len() == 0 {
        h
    } else {
        let w = writes.last();
        set_effect(set_run(h, writes.drop_last()), w.0, w.1, w.2)
    }
}

/// The `(time, offset)` pairs of the writes of `key` in a run, in order.
pub open spec fn history_of(writes: Seq<(Seq<char>, u64, u64)>, key: Seq<char>) -> Seq<(u64, u64)>
    decreases writes.len(),
{
    if writes.len() == 0 {
        Seq::empty()
    } else {
        let w = writes.last();
        let h = history_of(writes.drop_last(), key);
        if w.0 == key {
            h.push((w.1, w.2))
        } else {
            h
        }
    }
}

/// The offset of the last write of `key` in a run whose time is at or before
/// `q`; `None` if there is none.
pub open spec fn last_write_at(writes: Seq<(Seq<char>, u64, u64)>, key: Seq<char>, q: u64) -> Option<u64>
    decreases writes.len(),
{
    if writes.len() == 0 {
        None
    } else {
        let w = writes.last();
        if w.0 == key && w.1 <= q {
            Some(w.2)
        } else {
            last_write_at(writes.drop_last(), key, q)
        }
    }
}

/// The times of a run of writes never decrease (the clock was not set back).
pub open spec fn times_nondecreasing(writes: Seq<(Seq<char>, u64, u64)>) -> bool {
    forall|i: int, j: int| 0 <= i <= j < writes.len() ==> writes[i].1 <= writes[j].1
}

proof fn lemma_set_run_history(writes: Seq<(Seq<char>, u64, u64)>, key: Seq<char>)
    ensures
        set_run(Map::empty(), writes).contains_key(key) <==> history_of(writes, key).len() > 0,
        set_run(Map::empty(), writes).contains_key(key) ==> set_run(Map::empty(), writes)[key]
            == history_of(writes, key),
    decreases writes.len(),
{
    if writes.len() > 0 {
        lemma_set_run_history(writes.drop_last(), key);
    }
}

proof fn lemma_history_latest(writes: Seq<(Seq<char>, u64, u64)>, key: Seq<char>, q: u64)
    ensures
        latest_at(history_of(writes, key), q) == last_write_at(writes, key, q),
    decreases writes.len(),
{
    if writes.len() > 0 {
        lemma_history_latest(writes.drop_last(), key, q);
        let h = history_of(writes.drop_last(), key);
        let w = writes.last();
        assert(h.push((w.1, w.2)).drop_last() =~= h);
    }
}

proof fn lemma_history_bounded(writes: Seq<(Seq<char>, u64, u64)>, key: Seq<char>, t: u64)
    requires
        forall|i: int| 0 <= i < writes.len() ==> #[trigger] writes[i].1 <= t,
    ensures
        forall|j: int| 0 <= j < history_of(writes, key).len() ==> #[trigger] history_of(writes, key)[j].0 <= t,
    decreases writes.len(),
{
    if writes.len() > 0 {
        let front = writes.drop_last();
        assert forall|i: int| 0 <= i < front.len() implies #[trigger] front[i].1 <= t by {
            assert(front[i] == writes[i]);
        }
        lemma_history_bounded(front, key, t);
        assert(writes[writes.len() - 1].1 <= t);
        let h = history_of(front, key);
        let hw = history_of(writes, key);
        assert forall|j: int| 0 <= j < hw.len() implies #[trigger] hw[j].0 <= t by {
            if j < h.len() {
                assert(hw[j] == h[j]);
            }
        }
    }
}

proof fn lemma_history_sorted(writes: Seq<(Seq<char>, u64, u64)>, key: Seq<char>)
    requires
        times_nondecreasing(writes),
    ensures
        time_sorted(history_of(writes, key)),
    decreases writes.len(),
{
    if writes.len() > 0 {
        let front = writes.drop_last();
        let w = writes.last();
        assert forall|i: int, j: int| 0 <= i <= j < front.len() implies front[i].1 <= front[j].1 by {
            assert(front[i] == writes[i] && front[j] == writes[j]);
        }
        lemma_history_sorted(front, key);
        assert forall|i: int| 0 <= i < front.len() implies #[trigger] front[i].1 <= w.1 by {
            assert(front[i] == writes[i]);
        }
        lemma_history_bounded(front, key, w.1);
    }
}

/// Time travel over a run of writes: after writes `(key, time, offset)`
/// whose times never go back, made onto an empty index, the history of a key
/// is sorted by time, so `get_at_time` answers exactly `latest_at` of it,
/// which is the offset of the last write of that key at or before the query
/// time; a key never written has no history, and its answer is `None`.
pub proof fn lemma_time_travel(writes: Seq<(Seq<char>, u64, u64)>, key: Seq<char>, q: u64)
    requires
        times_nondecreasing(writes),
    ensures
        set_run(Map::empty(), writes).contains_key(key) ==> time_sorted(set_run(Map::empty(), writes)[key])
            && latest_at(set_run(Map::empty(), writes)[key], q) == last_write_at(writes, key, q),
        !set_run(Map::empty(), writes).contains_key(key) ==> last_write_at(writes, key, q) is None,
{
    lemma_set_run_history(writes, key);
    lemma_history_latest(writes, key, q);
    lemma_history_sorted(writes, key);
    if !set_run(Map::empty(), writes).contains_key(key) {
        assert(history_of(writes, key) =~= Seq::<(u64, u64)>::empty());
    }
}

} // verus!
