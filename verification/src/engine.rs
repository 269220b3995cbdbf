//! The in-memory table of the key-value store and the records of its
//! write-ahead log.
//!
//! Every write appends one record (a line, see `record`) to the log; on
//! start-up the log is replayed record by record. A deletion is a write of
//! the tombstone value. Compaction drops the tombstoned keys and rewrites the
//! log as one record per live key.
use vstd::prelude::*;
use vstd::hash_map::StringHashMap;
use crate::record::{log_line, log_record, lemma_record_roundtrip, read_record, record_line, split_record};
use crate::text::{chars_of, spells};

verus! {

/// The value that marks a deleted key.
pub const TOMBSTONE: &'static str = "__TOMBSTONE__";

/// The characters of the tombstone value.
pub open spec fn tombstone() -> Seq<char> {
    seq!['_', '_', 'T', 'O', 'M', 'B', 'S', 'T', 'O', 'N', 'E', '_', '_']
}

/// The table after replaying `record` onto `m`.
pub open spec fn replay_one(m: Map<Seq<char>, Seq<char>>, record: Seq<char>) -> Map<Seq<char>, Seq<char>> {
    match split_record(record) {
        Some((k, v)) => m.insert(k, v),
        None => m,
    }
}

/// The table after replaying `records`, in order, onto `m`.
pub open spec fn replay_all(m: Map<Seq<char>, Seq<char>>, records: Seq<Seq<char>>) -> Map<Seq<char>, Seq<char>>
    decreases records.len(),
{
    if records.len() == 0 {
        m
    } else {
        replay_one(replay_all(m, records.drop_last()), records.last())
    }
}

/// The table `m` without its tombstoned keys.
pub open spec fn live(m: Map<Seq<char>, Seq<char>>) -> Map<Seq<char>, Seq<char>> {
    m.restrict(m.dom().filter(|k: Seq<char>| is_live(m, k)))
}

/// Whether `k` holds a value other than the tombstone in `t`.
pub open spec fn is_live(t: Map<Seq<char>, Seq<char>>, k: Seq<char>) -> bool {
    t[k] != tombstone()
}

/// The keys of `order` that are live in `t`, in order.
pub open spec fn live_order(order: Seq<Seq<char>>, t: Map<Seq<char>, Seq<char>>) -> Seq<Seq<char>> {
    order.filter(|k: Seq<char>| is_live(t, k))
}

/// The records that rewrite the table `m`, one per key of `order`.
pub open spec fn records_of(order: Seq<Seq<char>>, m: Map<Seq<char>, Seq<char>>) -> Seq<Seq<char>> {
    order.map_values(|k: Seq<char>| log_record(k, m[k]))
}

/// `order` lists each key of `t` exactly once.
pub open spec fn lists_keys(order: Seq<Seq<char>>, t: Map<Seq<char>, Seq<char>>) -> bool {
    &&& order.no_duplicates()
    &&& forall|k: Seq<char>| #![trigger t.contains_key(k)] #![trigger order.contains(k)] t.contains_key(k)
        <==> order.contains(k)
}

/// The in-memory table of the store. Beside the map it keeps its keys in the
/// order they were first written, which is the order compaction writes them in.
pub struct Engine {
    map: StringHashMap<String>,
    keys: Vec<String>,
}

impl Engine {
    /// Each key is listed once, and the listed keys are those of the map.
    pub closed spec fn wf(&self) -> bool {
        &&& self.order().no_duplicates()
        &&& forall|k: Seq<char>|
            #![trigger self.map@.contains_key(k)]
            #![trigger self.order().contains(k)]
            self.map@.contains_key(k) <==> self.order().contains(k)
    }

    /// The keys, in the order they were first written.
    pub closed spec fn order(&self) -> Seq<Seq<char>> {
        self.keys@.map_values(|k: String| k@)
    }

    /// The table: each key with its value.
    pub closed spec fn table(&self) -> Map<Seq<char>, Seq<char>> {
        Map::new(|k: Seq<char>| self.map@.contains_key(k), |k: Seq<char>| self.map@[k]@)
    }

    /// A well-formed engine lists each key of its table exactly once, in the
    /// order the keys were first written.
    pub proof fn lemma_wf_lists_keys(&self)
        requires
            self.wf(),
        ensures
            lists_keys(self.order(), self.table()),
    {
    }

    /// An empty table.
    pub fn new() -> (e: Engine)
        ensures
            e.wf(),
            e.table() == Map::<Seq<char>, Seq<char>>::empty(),
            e.order() == Seq::<Seq<char>>::empty(),
    {
        let e = Engine { map: StringHashMap::new(), keys: Vec::new() };
        proof {
            assert(e.table() =~= Map::<Seq<char>, Seq<char>>::empty());
            assert(e.order() =~= Seq::<Seq<char>>::empty());
        }
        e
    }

    /// Puts `value` under `key`, listing `key` at the end of the order if it is new.
    fn insert(&mut self, key: String, value: String)
        requires
            old(self).wf(),
        ensures
            final(self).wf(),
            final(self).table() == old(self).table().insert(key@, value@),
            old(self).table().contains_key(key@) ==> final(self).order() == old(self).order(),
            !old(self).table().contains_key(key@) ==> final(self).order() == old(self).order().push(key@),
    {
        let ghost before = *self;
        if !self.map.contains_key(key.as_str()) {
            let k2 = key.clone();
            self.keys.push(k2);
            proof {
                assert(self.order() =~= before.order().push(key@));
            }
        }
        self.map.insert(key, value);
        proof {
            broadcast use vstd::seq_lib::group_seq_properties;
            assert(self.table() =~= before.table().insert(key@, value@));
            if !before.map@.contains_key(key@) {
                assert forall|i: int, j: int| 0 <= i < j < self.order().len() implies self.order()[i]
                    != self.order()[j] by {
                    if j == before.order().len() {
                        assert(before.order().contains(before.order()[i]));
                    }
                }
            }
        }
    }

    /// Replays one log record: a record read back as a key and a value puts
    /// the value under the key; a record without a separating comma changes nothing.
    pub fn replay_record(&mut self, record: &str)
        requires
            old(self).wf(),
        ensures
            final(self).wf(),
            final(self).table() == replay_one(old(self).table(), record@),
            match split_record(record@) {
                Some((k, _)) => final(self).order() == (if old(self).table().contains_key(k) {
                    old(self).order()
                } else {
                    old(self).order().push(k)
                }),
                None => final(self).order() == old(self).order(),
            },
    {
        match read_record(record) {
            Some((k, v)) => self.insert(k, v),
            None => {},
        }
    }

    /// Replays the records of a log, in order.
    pub fn replay(&mut self, records: &Vec<String>)
        requires
            old(self).wf(),
        ensures
            final(self).wf(),
            final(self).table() == replay_all(old(self).table(), records@.map_values(|r: String| r@)),
    {
        let ghost t0 = self.table();
        let ghost rs = records@.map_values(|r: String| r@);
        let mut i: usize = 0;
        while i < records.len()
            invariant
                self.wf(),
                i <= records.len(),
                rs == records@.map_values(|r: String| r@),
                self.table() == replay_all(t0, rs.take(i as int)),
            decreases records.len() - i,
        {
            proof {
                assert(rs.take(i + 1).drop_last() =~= rs.take(i as int));
                assert(rs.take(i + 1).last() == records@[i as int]@);
            }
            self.replay_record(records[i].as_str());
            i = i + 1;
        }
        proof {
            assert(rs.take(i as int) =~= rs);
        }
    }

    /// Writes `value` under `key` and returns the log line that records it.
    pub fn set(&mut self, key: &str, value: &str) -> (line: String)
        requires
            old(self).wf(),
        ensures
            final(self).wf(),
            final(self).table() == old(self).table().insert(key@, value@),
            final(self).order() == (if old(self).table().contains_key(key@) {
                old(self).order()
            } else {
                old(self).order().push(key@)
            }),
            line@ == log_line(key@, value@),
    {
        let line = record_line(key, value);
        self.insert(key.to_owned(), value.to_owned());
        line
    }

    /// The value under `key`, if any.
    pub fn get(&self, key: &str) -> (r: Option<&String>)
        ensures
            match r {
                Some(v) => self.table().contains_key(key@) && v@ == self.table()[key@],
                None => !self.table().contains_key(key@),
            },
    {
        self.map.get(key)
    }

    /// The log lines that rewrite the log with the live keys, in their order,
    /// leaving the table as it is.
    pub fn compaction_lines(&self) -> (lines: Vec<String>)
        requires
            self.wf(),
        ensures
            live_order(self.order(), self.table()).no_duplicates(),
            forall|i: int| 0 <= i < live_order(self.order(), self.table()).len() ==> is_live(
                self.table(),
                #[trigger] live_order(self.order(), self.table())[i],
            ),
            lines@.len() == live_order(self.order(), self.table()).len(),
            forall|i: int| 0 <= i < lines@.len() ==> #[trigger] lines@[i]@ == log_line(
                live_order(self.order(), self.table())[i],
                self.table()[live_order(self.order(), self.table())[i]],
            ),
    {
        let ghost t0 = self.table();
        let ghost ord = self.order();
        let mut lines: Vec<String> = Vec::new();
        let mut i: usize = 0;
        while i < self.keys.len()
            invariant
                self.wf(),
                t0 == self.table(),
                ord == self.order(),
                i <= self.keys.len(),
                lines@.len() == live_order(ord.take(i as int), t0).len(),
                forall|j: int| 0 <= j < lines@.len() ==> #[trigger] lines@[j]@ == log_line(
                    live_order(ord.take(i as int), t0)[j],
                    t0[live_order(ord.take(i as int), t0)[j]],
                ),
            decreases self.keys.len() - i,
        {
            let key = &self.keys[i];
            let ghost kv = key@;
            proof {
                broadcast use vstd::seq_lib::group_seq_properties;
                assert(ord[i as int] == kv);
                assert(ord.contains(kv));
                assert(ord.take(i + 1) =~= ord.take(i as int).push(kv));
            }
            match self.map.get(key.as_str()) {
                Some(v) => {
                    let vs = chars_of(v.as_str());
                    if spells(&vs, &['_', '_', 'T', 'O', 'M', 'B', 'S', 'T', 'O', 'N', 'E', '_', '_']) {
                        proof {
                            broadcast use vstd::seq::Seq::lemma_filter_push;
                            assert(!is_live(t0, kv));
                            assert(live_order(ord.take(i + 1), t0) == live_order(ord.take(i as int), t0));
                        }
                    } else {
                        let ghost before = lines@;
                        lines.push(record_line(key.as_str(), v.as_str()));
                        proof {
                            broadcast use vstd::seq::Seq::lemma_filter_push;
                            assert(is_live(t0, kv));
                            assert(live_order(ord.take(i + 1), t0) == live_order(ord.take(i as int), t0).push(kv));
                        }
                    }
                },
                None => {
                    proof {
                        assert(false);
                    }
                },
            }
            i = i + 1;
        }
        proof {
            broadcast use vstd::seq_lib::group_filter_ensures;
            assert(ord.take(i as int) =~= ord);
            lemma_filter_no_duplicates(ord, |k: Seq<char>| is_live(t0, k));
        }
        lines
    }

    /// Drops every tombstoned key and returns the log lines that rewrite the
    /// log with the keys that are left, in their order.
    pub fn compact(&mut self) -> (lines: Vec<String>)
        requires
            old(self).wf(),
        ensures
            final(self).wf(),
            final(self).table() == live(old(self).table()),
            final(self).order() == live_order(old(self).order(), old(self).table()),
            lists_keys(final(self).order(), final(self).table()),
            forall|i: int| 0 <= i < final(self).order().len() ==> is_live(final(self).table(), #[trigger] final(self).order()[i]),
            lines@.len() == final(self).order().len(),
            forall|i: int| 0 <= i < lines@.len() ==> #[trigger] lines@[i]@ == log_line(
                final(self).order()[i],
                final(self).table()[final(self).order()[i]],
            ),
    {
        let ghost before = *self;
        let ghost t0 = self.table();
        let ghost ord = self.order();
        let mut kept: Vec<String> = Vec::new();
        let mut lines: Vec<String> = Vec::new();
        let mut i: usize = 0;
        while i < self.keys.len()
            invariant
                before.wf(),
                t0 == before.table(),
                ord == before.order(),
                self.keys == before.keys,
                i <= self.keys.len(),
                kept@.map_values(|k: String| k@) == live_order(ord.take(i as int), t0),
                lines@.len() == kept@.len(),
                forall|j: int| 0 <= j < lines@.len() ==> #[trigger] lines@[j]@ == log_line(
                    kept@[j]@,
                    t0[kept@[j]@],
                ),
                forall|k: Seq<char>| #[trigger] self.map@.contains_key(k) <==> (before.map@.contains_key(k)
                    && !(ord.take(i as int).contains(k) && !is_live(t0, k))),
                forall|k: Seq<char>| #[trigger] self.map@.contains_key(k) ==> self.map@[k] == before.map@[k],
            decreases self.keys.len() - i,
        {
            let key = self.keys[i].clone();
            let ghost kv = key@;
            proof {
                broadcast use vstd::seq_lib::group_seq_properties;
                broadcast use vstd::seq::Seq::lemma_filter_push;
                assert(ord[i as int] == kv);
                assert(ord.contains(kv));
                assert(ord.take(i + 1) =~= ord.take(i as int).push(kv));
                assert(!ord.take(i as int).contains(kv)) by {
                    if ord.take(i as int).contains(kv) {
                        let j = choose|j: int| 0 <= j < i && ord.take(i as int)[j] == kv;
                        assert(ord[j] == ord[i as int]);
                    }
                }
                assert(self.map@.contains_key(kv));
            }
            let value = self.map.get(key.as_str());
            match value {
                Some(v) => {
                    let vs = chars_of(v.as_str());
                    if spells(&vs, &['_', '_', 'T', 'O', 'M', 'B', 'S', 'T', 'O', 'N', 'E', '_', '_']) {
                        self.map.remove(key.as_str());
                        proof {
                            broadcast use vstd::seq_lib::group_seq_properties;
                            broadcast use vstd::seq::Seq::lemma_filter_push;
                            assert(!is_live(t0, kv));
                            assert(live_order(ord.take(i + 1), t0) == live_order(ord.take(i as int), t0));
                        }
                    } else {
                        lines.push(record_line(key.as_str(), v.as_str()));
                        let ghost kept_before = kept@;
                        kept.push(key);
                        proof {
                            broadcast use vstd::seq_lib::group_seq_properties;
                            broadcast use vstd::seq::Seq::lemma_filter_push;
                            assert(is_live(t0, kv));
                            assert(kept@.map_values(|k: String| k@) =~= kept_before.map_values(|k: String| k@).push(kv));
                            assert(live_order(ord.take(i + 1), t0) == live_order(ord.take(i as int), t0).push(kv));
                        }
                    }
                },
                None => {
                    proof {
                        assert(false);
                    }
                },
            }
            i = i + 1;
            proof {
                broadcast use vstd::seq_lib::group_seq_properties;
            }
        }
        proof {
            assert(ord.take(i as int) =~= ord);
        }
        self.keys = kept;
        proof {
            broadcast use vstd::seq_lib::group_seq_properties;
            broadcast use vstd::seq_lib::group_filter_ensures;
            broadcast use vstd::seq::Seq::lemma_filter_contains_rev;
            let t1 = self.table();
            assert(t1 =~= live(t0));
            assert(self.order() == live_order(ord, t0));
            lemma_filter_no_duplicates(ord, |k: Seq<char>| is_live(t0, k));
            assert forall|k: Seq<char>| self.map@.contains_key(k) <==> self.order().contains(k) by {
                if self.map@.contains_key(k) {
                    let j = choose|j: int| 0 <= j < ord.len() && ord[j] == k;
                    assert(ord.filter(|k: Seq<char>| is_live(t0, k)).contains(k));
                }
            }
        }
        lines
    }
}

/// Filtering a sequence without duplicates leaves one without duplicates.
proof fn lemma_filter_no_duplicates(s: Seq<Seq<char>>, p: spec_fn(Seq<char>) -> bool)
    requires
        s.no_duplicates(),
    ensures
        s.filter(p).no_duplicates(),
    decreases s.len(),
{
    broadcast use vstd::seq_lib::group_seq_properties;
    broadcast use vstd::seq::Seq::lemma_filter_push;
    broadcast use vstd::seq::Seq::lemma_filter_contains_rev;
    if s.len() > 0 {
        let t = s.drop_last();
        assert(t.push(s.last()) =~= s);
        assert(t.no_duplicates());
        lemma_filter_no_duplicates(t, p);
        if p(s.last()) {
            if t.filter(p).contains(s.last()) {
                assert(t.contains(s.last()));
                let j = choose|j: int| 0 <= j < t.len() && t[j] == s.last();
                assert(s[j] == s[s.len() - 1]);
            }
        }
    }
}

/// Replaying, onto an empty table, the records of the keys `order` with their
/// values in `m` gives `m` on exactly those keys.
pub proof fn lemma_replay_records(order: Seq<Seq<char>>, m: Map<Seq<char>, Seq<char>>)
    ensures
        replay_all(Map::empty(), records_of(order, m)) == Map::new(
            |k: Seq<char>| order.contains(k),
            |k: Seq<char>| m[k],
        ),
    decreases order.len(),
{
    broadcast use vstd::seq_lib::group_seq_properties;
    let recs = records_of(order, m);
    if order.len() == 0 {
        assert(Map::new(|k: Seq<char>| order.contains(k), |k: Seq<char>| m[k]) =~= Map::empty());
    } else {
        let front = order.drop_last();
        let k = order.last();
        lemma_replay_records(front, m);
        assert(recs.drop_last() =~= records_of(front, m));
        assert(recs.last() == log_record(k, m[k]));
        lemma_record_roundtrip(k, m[k]);
        assert(front.push(k) =~= order);
        assert(replay_all(Map::empty(), recs) =~= Map::new(
            |x: Seq<char>| order.contains(x),
            |x: Seq<char>| m[x],
        ));
    }
}

/// The log rewritten by compaction replays to the table it was written from:
/// replaying its records onto an empty table restores every key and value.
pub proof fn lemma_compaction_replays(e: &Engine)
    requires
        e.wf(),
    ensures
        replay_all(Map::empty(), records_of(e.order(), e.table())) == e.table(),
{
    lemma_replay_records(e.order(), e.table());
    assert(Map::new(|k: Seq<char>| e.order().contains(k), |k: Seq<char>| e.table()[k]) =~= e.table());
}

/// The table after applying the writes `writes`, in order, onto `m`.
pub open spec fn apply_writes(m: Map<Seq<char>, Seq<char>>, writes: Seq<(Seq<char>, Seq<char>)>) -> Map<
    Seq<char>,
    Seq<char>,
>
    decreases writes.len(),
{
    if writes.len() == 0 {
        m
    } else {
        apply_writes(m, writes.drop_last()).insert(writes.last().0, writes.last().1)
    }
}

/// The log records of a sequence of writes, in order.
pub open spec fn records_of_writes(writes: Seq<(Seq<char>, Seq<char>)>) -> Seq<Seq<char>> {
    writes.map_values(|w: (Seq<char>, Seq<char>)| log_record(w.0, w.1))
}

/// Replaying the log restores every committed write: replaying the records
/// that a sequence of writes appended gives the table that the writes made,
/// whatever the keys and values hold.
pub proof fn lemma_replay_restores_writes(m: Map<Seq<char>, Seq<char>>, writes: Seq<(Seq<char>, Seq<char>)>)
    ensures
        replay_all(m, records_of_writes(writes)) == apply_writes(m, writes),
    decreases writes.len(),
{
    if writes.len() > 0 {
        let front = writes.drop_last();
        lemma_replay_restores_writes(m, front);
        assert(records_of_writes(writes).drop_last() =~= records_of_writes(front));
        lemma_record_roundtrip(writes.last().0, writes.last().1);
    }
}

} // verus!
