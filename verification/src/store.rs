//! The counter store: named counters and their badge metadata, kept
//! consistent by every mutating operation.
//!
//! Counters and badges live in two association sequences with distinct
//! names, read in contracts as two maps (`StoreView`). Each mutating
//! operation updates a counter and its badge as one unit; writing the state
//! to disk is the caller's business, through the snapshot text functions.

use vstd::prelude::*;

use crate::assoc::{
    assoc_map, distinct_keys, lemma_assoc_dom, lemma_assoc_index, lemma_assoc_push,
    lemma_assoc_remove, lemma_assoc_update,
};
use crate::strtext::str_eq;

verus! {

/// One named counter.
pub struct CounterEntry {
    pub name: String,
    pub count: u64,
}

/// Badge metadata for a counter. Timestamps are milliseconds since the
/// Unix epoch; `count` mirrors the counter of the same name.
#[derive(Debug, Clone)]
pub struct Badge {
    pub name: String,
    pub count: u64,
    pub created_at: u64,
    pub last_accessed: u64,
}

/// A badge as handed out to callers.
#[derive(Debug, Clone)]
pub struct BadgeResponse {
    pub name: String,
    pub count: u64,
    pub created_at: u64,
    pub last_accessed: u64,
}

/// Mathematical image of a badge.
pub ghost struct BadgeRec {
    pub name: Seq<char>,
    pub count: u64,
    pub created_at: u64,
    pub last_accessed: u64,
}

impl View for Badge {
    type V = BadgeRec;

    open spec fn view(&self) -> BadgeRec {
        BadgeRec {
            name: self.name@,
            count: self.count,
            created_at: self.created_at,
            last_accessed: self.last_accessed,
        }
    }
}

impl View for BadgeResponse {
    type V = BadgeRec;

    open spec fn view(&self) -> BadgeRec {
        BadgeRec {
            name: self.name@,
            count: self.count,
            created_at: self.created_at,
            last_accessed: self.last_accessed,
        }
    }
}

/// Mathematical image of the whole store: the counter map and the badge map.
pub ghost struct StoreView {
    pub counters: Map<Seq<char>, u64>,
    pub badges: Map<Seq<char>, BadgeRec>,
}

impl StoreView {
    /// The count a read of `name` yields: the stored value, or zero.
    pub open spec fn count_of(self, name: Seq<char>) -> u64 {
        if self.counters.contains_key(name) {
            self.counters[name]
        } else {
            0
        }
    }

    /// The store after an `increment` or `set` wrote `count` for `name` at
    /// time `now`: the badge mirrors the counter, keeps its creation time if
    /// it existed, and records the access.
    pub open spec fn touched(self, name: Seq<char>, count: u64, now: u64) -> StoreView {
        StoreView {
            counters: self.counters.insert(name, count),
            badges: self.badges.insert(
                name,
                BadgeRec {
                    name: name,
                    count: count,
                    created_at: if self.badges.contains_key(name) {
                        self.badges[name].created_at
                    } else {
                        now
                    },
                    last_accessed: now,
                },
            ),
        }
    }

    /// The store after `create_badge` wrote `count` for `name` at time
    /// `now`: both entries are written outright, timestamps start fresh.
    pub open spec fn created(self, name: Seq<char>, count: u64, now: u64) -> StoreView {
        StoreView {
            counters: self.counters.insert(name, count),
            badges: self.badges.insert(
                name,
                BadgeRec { name: name, count: count, created_at: now, last_accessed: now },
            ),
        }
    }

    /// The store after `delete_badge` removed `name` from both maps.
    pub open spec fn removed(self, name: Seq<char>) -> StoreView {
        StoreView { counters: self.counters.remove(name), badges: self.badges.remove(name) }
    }
}

/// Counter entries as key-value pairs.
pub open spec fn counter_kvs(s: Seq<CounterEntry>) -> Seq<(Seq<char>, u64)> {
    s.map_values(|e: CounterEntry| (e.name@, e.count))
}

/// Badges as key-value pairs.
pub open spec fn badge_kvs(s: Seq<Badge>) -> Seq<(Seq<char>, BadgeRec)> {
    s.map_values(|b: Badge| (b.name@, b@))
}

/// Durable storage for counters and badges. Mutating operations keep the
/// two maps consistent for the touched name; persistence goes through the
/// snapshot text functions. Mutation takes an exclusive reference, so
/// callers that share a store between threads put it behind one lock,
/// which also keeps each counter-and-badge update atomic for readers.
pub struct PersistentCounterMap {
    counters: Vec<CounterEntry>,
    badges: Vec<Badge>,
}

impl View for PersistentCounterMap {
    type V = StoreView;

    closed spec fn view(&self) -> StoreView {
        StoreView {
            counters: assoc_map(counter_kvs(self.counters@)),
            badges: assoc_map(badge_kvs(self.badges@)),
        }
    }
}

impl PersistentCounterMap {
    /// Names are distinct within each of the two sequences.
    pub closed spec fn wf(&self) -> bool {
        distinct_keys(counter_kvs(self.counters@)) && distinct_keys(badge_kvs(self.badges@))
    }

    /// The badges in storage order, as `get_all_badges` hands them out.
    pub closed spec fn badge_seq(&self) -> Seq<BadgeRec> {
        self.badges@.map_values(|b: Badge| b@)
    }

    /// An empty store: no counters, no badges.
    pub fn empty() -> (r: PersistentCounterMap)
        ensures
            r.wf(),
            r@.counters == Map::<Seq<char>, u64>::empty(),
            r@.badges == Map::<Seq<char>, BadgeRec>::empty(),
            r.badge_seq() == Seq::<BadgeRec>::empty(),
    {
        let r = PersistentCounterMap { counters: Vec::new(), badges: Vec::new() };
        proof {
            assert(counter_kvs(r.counters@) =~= Seq::<(Seq<char>, u64)>::empty());
            assert(badge_kvs(r.badges@) =~= Seq::<(Seq<char>, BadgeRec)>::empty());
            assert(r.badge_seq() =~= Seq::<BadgeRec>::empty());
        }
        r
    }

    /// Index of the counter entry for `key`, if there is one.
    fn find_counter(&self, key: &str) -> (r: Option<usize>)
        requires
            self.wf(),
        ensures
            match r {
                Some(i) => {
                    &&& i < self.counters@.len()
                    &&& self.counters@[i as int].name@ == key@
                    &&& self@.counters.contains_key(key@)
                    &&& self@.counters[key@] == self.counters@[i as int].count
                },
                None => !self@.counters.contains_key(key@),
            },
    {
        let n = self.counters.len();
        let mut i: usize = 0;
        while i < n
            invariant
                n == self.counters@.len(),
                i <= n,
                self.wf(),
                forall|j: int| 0 <= j < i ==> self.counters@[j].name@ != key@,
            decreases n - i,
        {
            if str_eq(self.counters[i].name.as_str(), key) {
                proof {
                    lemma_assoc_index(counter_kvs(self.counters@), i as int);
                }
                return Some(i);
            }
            i += 1;
        }
        proof {
            lemma_assoc_dom(counter_kvs(self.counters@), key@);
        }
        None
    }

    /// Index of the badge for `key`, if there is one.
    fn find_badge(&self, key: &str) -> (r: Option<usize>)
        requires
            self.wf(),
        ensures
            match r {
                Some(i) => {
                    &&& i < self.badges@.len()
                    &&& self.badges@[i as int].name@ == key@
                    &&& self@.badges.contains_key(key@)
                    &&& self@.badges[key@] == self.badges@[i as int]@
                },
                None => !self@.badges.contains_key(key@),
            },
    {
        let n = self.badges.len();
        let mut i: usize = 0;
        while i < n
            invariant
                n == self.badges@.len(),
                i <= n,
                self.wf(),
                forall|j: int| 0 <= j < i ==> self.badges@[j].name@ != key@,
            decreases n - i,
        {
            if str_eq(self.badges[i].name.as_str(), key) {
                proof {
                    lemma_assoc_index(badge_kvs(self.badges@), i as int);
                }
                return Some(i);
            }
            i += 1;
        }
        proof {
            lemma_assoc_dom(badge_kvs(self.badges@), key@);
        }
        None
    }

    /// Writes `value` for `key` in the counter sequence.
    fn upsert_counter(&mut self, key: &str, value: u64)
        requires
            old(self).wf(),
        ensures
            final(self).wf(),
            final(self)@.counters == old(self)@.counters.insert(key@, value),
            final(self)@.badges == old(self)@.badges,
            final(self).badge_seq() == old(self).badge_seq(),
    {
        match self.find_counter(key) {
            Some(i) => {
                let entry = CounterEntry { name: self.counters[i].name.clone(), count: value };
                proof {
                    lemma_assoc_update(
                        counter_kvs(self.counters@),
                        i as int,
                        (key@, value),
                    );
                }
                self.counters[i] = entry;
                proof {
                    assert(counter_kvs(self.counters@)
                        =~= counter_kvs(old(self).counters@).update(i as int, (key@, value)));
                }
            },
            None => {
                proof {
                    lemma_assoc_dom(counter_kvs(self.counters@), key@);
                    assert(forall|j: int|
                        0 <= j < counter_kvs(self.counters@).len()
                            ==> #[trigger] counter_kvs(self.counters@)[j].0 != key@);
                    lemma_assoc_push(counter_kvs(self.counters@), (key@, value));
                }
                self.counters.push(CounterEntry { name: key.to_owned(), count: value });
                proof {
                    assert(counter_kvs(self.counters@)
                        =~= counter_kvs(old(self).counters@).push((key@, value)));
                }
            },
        }
    }

    /// Writes the badge for `key` after a count change at time `now`,
    /// creating it if absent and keeping `created_at` if not.
    fn touch_badge(&mut self, key: &str, count: u64, now: u64)
        requires
            old(self).wf(),
        ensures
            final(self).wf(),
            final(self)@.counters == old(self)@.counters,
            final(self)@.badges == old(self)@.badges.insert(
                key@,
                BadgeRec {
                    name: key@,
                    count: count,
                    created_at: if old(self)@.badges.contains_key(key@) {
                        old(self)@.badges[key@].created_at
                    } else {
                        now
                    },
                    last_accessed: now,
                },
            ),
    {
        match self.find_badge(key) {
            Some(i) => {
                let b = Badge {
                    name: self.badges[i].name.clone(),
                    count: count,
                    created_at: self.badges[i].created_at,
                    last_accessed: now,
                };
                proof {
                    lemma_assoc_update(badge_kvs(self.badges@), i as int, (key@, b@));
                }
                self.badges[i] = b;
                proof {
                    assert(badge_kvs(self.badges@)
                        =~= badge_kvs(old(self).badges@).update(
                            i as int,
                            (key@, final(self).badges@[i as int]@),
                        ));
                }
            },
            None => {
                let b = Badge {
                    name: key.to_owned(),
                    count: count,
                    created_at: now,
                    last_accessed: now,
                };
                proof {
                    lemma_assoc_dom(badge_kvs(self.badges@), key@);
                    assert(forall|j: int|
                        0 <= j < badge_kvs(self.badges@).len()
                            ==> #[trigger] badge_kvs(self.badges@)[j].0 != key@);
                    lemma_assoc_push(badge_kvs(self.badges@), (key@, b@));
                }
                self.badges.push(b);
                proof {
                    assert(badge_kvs(self.badges@)
                        =~= badge_kvs(old(self).badges@).push(
                            (key@, final(self).badges@[final(self).badges@.len() - 1]@),
                        ));
                }
            },
        }
    }

    /// Writes a fresh badge for `key` outright, both timestamps at `now`.
    fn put_badge(&mut self, key: &str, count: u64, now: u64)
        requires
            old(self).wf(),
        ensures
            final(self).wf(),
            final(self)@.counters == old(self)@.counters,
            final(self)@.badges == old(self)@.badges.insert(
                key@,
                BadgeRec { name: key@, count: count, created_at: now, last_accessed: now },
            ),
    {
        let b = Badge { name: key.to_owned(), count: count, created_at: now, last_accessed: now };
        match self.find_badge(key) {
            Some(i) => {
                proof {
                    lemma_assoc_update(badge_kvs(self.badges@), i as int, (key@, b@));
                }
                self.badges[i] = b;
                proof {
                    assert(badge_kvs(self.badges@)
                        =~= badge_kvs(old(self).badges@).update(
                            i as int,
                            (key@, final(self).badges@[i as int]@),
                        ));
                }
            },
            None => {
                proof {
                    lemma_assoc_dom(badge_kvs(self.badges@), key@);
                    assert(forall|j: int|
                        0 <= j < badge_kvs(self.badges@).len()
                            ==> #[trigger] badge_kvs(self.badges@)[j].0 != key@);
                    lemma_assoc_push(badge_kvs(self.badges@), (key@, b@));
                }
                self.badges.push(b);
                proof {
                    assert(badge_kvs(self.badges@)
                        =~= badge_kvs(old(self).badges@).push(
                            (key@, final(self).badges@[final(self).badges@.len() - 1]@),
                        ));
                }
            },
        }
    }


    /// Writes a badge record as read from a snapshot, keeping its
    /// timestamps.
    fn insert_badge_record(&mut self, b: Badge)
        requires
            old(self).wf(),
        ensures
            final(self).wf(),
            final(self)@.counters == old(self)@.counters,
            final(self)@.badges == old(self)@.badges.insert(b.name@, b@),
    {
        let ghost brec = b@;
        match self.find_badge(b.name.as_str()) {
            Some(i) => {
                proof {
                    lemma_assoc_update(badge_kvs(self.badges@), i as int, (b.name@, brec));
                }
                self.badges[i] = b;
                proof {
                    assert(badge_kvs(self.badges@)
                        =~= badge_kvs(old(self).badges@).update(
                            i as int,
                            (final(self).badges@[i as int].name@, final(self).badges@[i as int]@),
                        ));
                }
            },
            None => {
                proof {
                    lemma_assoc_dom(badge_kvs(self.badges@), b.name@);
                    assert(forall|j: int|
                        0 <= j < badge_kvs(self.badges@).len()
                            ==> #[trigger] badge_kvs(self.badges@)[j].0 != b.name@);
                    lemma_assoc_push(badge_kvs(self.badges@), (b.name@, brec));
                }
                self.badges.push(b);
                proof {
                    assert(badge_kvs(self.badges@)
                        =~= badge_kvs(old(self).badges@).push(
                            (final(self).badges@[final(self).badges@.len() - 1].name@,
                            final(self).badges@[final(self).badges@.len() - 1]@),
                        ));
                }
            },
        }
    }

    /// A store loaded from the two snapshot texts, each optional. A text
    /// that is missing or not canonical loads as an empty map.
    pub fn new(counter_text: Option<&str>, badge_text: Option<&str>) -> (r: Self)
        ensures
            r.wf(),
            r@.counters == crate::snapshot::loaded_counters(crate::snapshot::text_view(
                counter_text,
            )),
            r@.badges == crate::snapshot::loaded_badges(crate::snapshot::text_view(badge_text)),
    {
        let mut store = Self::empty();
        if let Some(t) = counter_text {
            if let Some(entries) = crate::snapshot::parse_counters_text(t) {
                let ghost kvs = counter_kvs(entries@);
                let n = entries.len();
                let mut i: usize = 0;
                proof {
                    assert(kvs.take(0) =~= Seq::<(Seq<char>, u64)>::empty());
                    assert(store@.counters =~= assoc_map(kvs.take(0)));
                }
                while i < n
                    invariant
                        n == entries@.len(),
                        n == kvs.len(),
                        i <= n,
                        kvs == counter_kvs(entries@),
                        store.wf(),
                        store@.counters == assoc_map(kvs.take(i as int)),
                        store@.badges == Map::<Seq<char>, BadgeRec>::empty(),
                    decreases n - i,
                {
                    store.upsert_counter(entries[i].name.as_str(), entries[i].count);
                    proof {
                        assert(kvs.take(i + 1 as int).drop_last() =~= kvs.take(i as int));
                        assert(kvs.take(i + 1 as int).last() == kvs[i as int]);
                        assert(assoc_map(kvs.take(i + 1 as int)) == assoc_map(
                            kvs.take(i as int),
                        ).insert(kvs[i as int].0, kvs[i as int].1));
                    }
                    i += 1;
                }
                proof {
                    assert(kvs.take(n as int) =~= kvs);
                }
            }
        }
        if let Some(t) = badge_text {
            if let Some(entries) = crate::snapshot::parse_badges_text(t) {
                let ghost kvs = badge_kvs(entries@);
                let ghost counters0 = store@.counters;
                let mut entries = entries;
                let n = entries.len();
                let mut i: usize = 0;
                proof {
                    assert(kvs.take(0) =~= Seq::<(Seq<char>, BadgeRec)>::empty());
                    assert(store@.badges =~= assoc_map(kvs.take(0)));
                }
                while i < n
                    invariant
                        n == entries@.len(),
                        n == kvs.len(),
                        i <= n,
                        kvs == badge_kvs(entries@),
                        store.wf(),
                        store@.counters == counters0,
                        store@.badges == assoc_map(kvs.take(i as int)),
                    decreases n - i,
                {
                    let b = Badge {
                        name: entries[i].name.clone(),
                        count: entries[i].count,
                        created_at: entries[i].created_at,
                        last_accessed: entries[i].last_accessed,
                    };
                    proof {
                        assert(b@ == entries@[i as int]@);
                    }
                    store.insert_badge_record(b);
                    proof {
                        assert(kvs.take(i + 1 as int).drop_last() =~= kvs.take(i as int));
                        assert(kvs.take(i + 1 as int).last() == kvs[i as int]);
                        assert(assoc_map(kvs.take(i + 1 as int)) == assoc_map(
                            kvs.take(i as int),
                        ).insert(kvs[i as int].0, kvs[i as int].1));
                    }
                    i += 1;
                }
                proof {
                    assert(kvs.take(n as int) =~= kvs);
                }
            }
        }
        store
    }

    /// The counter document of this store, as written to disk.
    pub closed spec fn counters_text(&self) -> Seq<char> {
        crate::snapshot::counters_doc(counter_kvs(self.counters@))
    }

    /// The badge document of this store, as written to disk.
    pub closed spec fn badges_text(&self) -> Seq<char> {
        crate::snapshot::badges_doc(badge_kvs(self.badges@))
    }

    /// The counter snapshot text, for the caller to write to disk.
    pub fn counters_snapshot(&self) -> (r: String)
        ensures
            r@ == self.counters_text(),
    {
        crate::snapshot::counters_snapshot_text(&self.counters)
    }

    /// The badge snapshot text, for the caller to write to disk.
    pub fn badges_snapshot(&self) -> (r: String)
        ensures
            r@ == self.badges_text(),
    {
        crate::snapshot::badges_snapshot_text(&self.badges)
    }

    /// Round trip: loading a store from its own snapshot texts reproduces
    /// both maps exactly.
    pub proof fn lemma_snapshot_round_trip(&self)
        requires
            self.wf(),
        ensures
            crate::snapshot::loaded_counters(Some(self.counters_text())) == self@.counters,
            crate::snapshot::loaded_badges(Some(self.badges_text())) == self@.badges,
    {
        crate::snapshot::lemma_counters_round_trip(counter_kvs(self.counters@));
        assert(forall|k: int|
            0 <= k < badge_kvs(self.badges@).len()
                ==> (#[trigger] badge_kvs(self.badges@)[k].1).name == badge_kvs(
                self.badges@,
            )[k].0);
        crate::snapshot::lemma_badges_round_trip(badge_kvs(self.badges@));
    }

    /// The counter value for `key`, or zero if the name was never touched.
    pub fn get(&self, key: &str) -> (r: u64)
        requires
            self.wf(),
        ensures
            r == self@.count_of(key@),
    {
        match self.find_counter(key) {
            Some(i) => self.counters[i].count,
            None => 0,
        }
    }

    /// Adds one to the counter for `key` and updates its badge, both as of
    /// time `now`, and returns the new count.
    pub fn increment_at(&mut self, key: &str, now: u64) -> (r: u64)
        requires
            old(self).wf(),
            old(self)@.count_of(key@) < u64::MAX,
        ensures
            final(self).wf(),
            r == old(self)@.count_of(key@) + 1,
            final(self)@ == old(self)@.touched(key@, (old(self)@.count_of(key@) + 1) as u64, now),
    {
        let cur = self.get(key);
        let new_count = cur + 1;
        self.upsert_counter(key, new_count);
        self.touch_badge(key, new_count, now);
        new_count
    }

    /// Adds one to the counter for `key` at the current wall-clock time and
    /// returns the new count.
    pub fn increment(&mut self, key: &str) -> (r: u64)
        requires
            old(self).wf(),
            old(self)@.count_of(key@) < u64::MAX,
        ensures
            final(self).wf(),
            r == old(self)@.count_of(key@) + 1,
            exists|now: u64|
                final(self)@ == #[trigger] old(self)@.touched(
                    key@,
                    (old(self)@.count_of(key@) + 1) as u64,
                    now,
                ),
    {
        let now = clock_now();
        let r = self.increment_at(key, now);
        proof {
            assert(final(self)@ == old(self)@.touched(
                key@,
                (old(self)@.count_of(key@) + 1) as u64,
                now,
            ));
        }
        r
    }

    /// Overwrites the counter for `key` with `value` and updates its badge,
    /// both as of time `now`. The value may be below the old one.
    pub fn set_at(&mut self, key: &str, value: u64, now: u64)
        requires
            old(self).wf(),
        ensures
            final(self).wf(),
            final(self)@ == old(self)@.touched(key@, value, now),
    {
        self.upsert_counter(key, value);
        self.touch_badge(key, value, now);
    }

    /// Overwrites the counter for `key` with `value` at the current
    /// wall-clock time.
    pub fn set(&mut self, key: &str, value: u64)
        requires
            old(self).wf(),
        ensures
            final(self).wf(),
            exists|now: u64| final(self)@ == #[trigger] old(self)@.touched(key@, value, now),
    {
        let now = clock_now();
        self.set_at(key, value, now);
        proof {
            assert(final(self)@ == old(self)@.touched(key@, value, now));
        }
    }

    /// Writes counter and badge for `name` outright, counting from
    /// `initial_count` or zero, with both timestamps at `now`, and returns
    /// the new badge. An existing badge of that name is overwritten; the
    /// caller is expected to have checked.
    pub fn create_badge_at(&mut self, name: &str, initial_count: Option<u64>, now: u64) -> (r:
        BadgeResponse)
        requires
            old(self).wf(),
        ensures
            final(self).wf(),
            final(self)@ == old(self)@.created(
                name@,
                if initial_count is Some {
                    initial_count->0
                } else {
                    0
                },
                now,
            ),
            r@ == final(self)@.badges[name@],
    {
        let count = match initial_count {
            Some(c) => c,
            None => 0,
        };
        self.upsert_counter(name, count);
        self.put_badge(name, count, now);
        BadgeResponse { name: name.to_owned(), count, created_at: now, last_accessed: now }
    }

    /// Writes counter and badge for `name` at the current wall-clock time
    /// and returns the new badge.
    pub fn create_badge(&mut self, name: &str, initial_count: Option<u64>) -> (r: BadgeResponse)
        requires
            old(self).wf(),
        ensures
            final(self).wf(),
            r@.name == name@,
            r@.count == (if initial_count is Some {
                initial_count->0
            } else {
                0
            }),
            exists|now: u64|
                final(self)@ == #[trigger] old(self)@.created(name@, r@.count, now)
                    && r@ == final(self)@.badges[name@],
    {
        let now = clock_now();
        let r = self.create_badge_at(name, initial_count, now);
        proof {
            assert(r@.count == (if initial_count is Some {
                initial_count->0
            } else {
                0
            }));
            assert(final(self)@ == old(self)@.created(name@, r@.count, now)
                && r@ == final(self)@.badges[name@]);
        }
        r
    }

    /// The badge for `name`, if the name has one.
    pub fn get_badge(&self, name: &str) -> (r: Option<BadgeResponse>)
        requires
            self.wf(),
        ensures
            match r {
                Some(b) => self@.badges.contains_key(name@) && b@ == self@.badges[name@],
                None => !self@.badges.contains_key(name@),
            },
    {
        match self.find_badge(name) {
            Some(i) => Some(
                BadgeResponse {
                    name: self.badges[i].name.clone(),
                    count: self.badges[i].count,
                    created_at: self.badges[i].created_at,
                    last_accessed: self.badges[i].last_accessed,
                },
            ),
            None => None,
        }
    }

    /// Every badge, in storage order.
    pub fn get_all_badges(&self) -> (r: Vec<BadgeResponse>)
        requires
            self.wf(),
        ensures
            r@.len() == self.badge_seq().len(),
            forall|i: int| 0 <= i < r@.len() ==> r@[i]@ == self.badge_seq()[i],
    {
        let n = self.badges.len();
        let mut r: Vec<BadgeResponse> = Vec::new();
        let mut i: usize = 0;
        while i < n
            invariant
                n == self.badges@.len(),
                i <= n,
                r@.len() == i,
                forall|j: int| 0 <= j < i ==> r@[j]@ == self.badge_seq()[j],
            decreases n - i,
        {
            r.push(
                BadgeResponse {
                    name: self.badges[i].name.clone(),
                    count: self.badges[i].count,
                    created_at: self.badges[i].created_at,
                    last_accessed: self.badges[i].last_accessed,
                },
            );
            i += 1;
        }
        r
    }

    /// What the storage order lists is exactly the badge map: every listed
    /// badge is in the map under its own name, every name in the map is
    /// listed, and no name is listed twice.
    pub proof fn lemma_badge_seq_matches_map(&self)
        requires
            self.wf(),
        ensures
            forall|i: int|
                0 <= i < self.badge_seq().len() ==> self@.badges.contains_key(
                    (#[trigger] self.badge_seq()[i]).name,
                ) && self@.badges[self.badge_seq()[i].name] == self.badge_seq()[i],
            forall|k: Seq<char>|
                #[trigger] self@.badges.contains_key(k) ==> exists|i: int|
                    0 <= i < self.badge_seq().len() && (#[trigger] self.badge_seq()[i]).name == k,
            forall|i: int, j: int|
                0 <= i < j < self.badge_seq().len() ==> self.badge_seq()[i].name
                    != self.badge_seq()[j].name,
    {
        let kvs = badge_kvs(self.badges@);
        assert forall|i: int|
            0 <= i < self.badge_seq().len() implies self@.badges.contains_key(
            (#[trigger] self.badge_seq()[i]).name,
        ) && self@.badges[self.badge_seq()[i].name] == self.badge_seq()[i] by {
            lemma_assoc_index(kvs, i);
            assert(kvs[i].0 == self.badge_seq()[i].name);
            assert(kvs[i].1 == self.badge_seq()[i]);
        }
        assert forall|k: Seq<char>| #[trigger] self@.badges.contains_key(k) implies exists|i: int|
            0 <= i < self.badge_seq().len() && (#[trigger] self.badge_seq()[i]).name == k by {
            lemma_assoc_dom(kvs, k);
            let i = choose|i: int| 0 <= i < kvs.len() && kvs[i].0 == k;
            assert(self.badge_seq()[i].name == k);
        }
        assert forall|i: int, j: int|
            0 <= i < j < self.badge_seq().len() implies self.badge_seq()[i].name
            != self.badge_seq()[j].name by {
            assert(kvs[i].0 == self.badge_seq()[i].name);
            assert(kvs[j].0 == self.badge_seq()[j].name);
        }
    }

    /// Removes counter and badge for `name` together, and reports whether
    /// either existed.
    pub fn delete_badge(&mut self, name: &str) -> (r: bool)
        requires
            old(self).wf(),
        ensures
            final(self).wf(),
            final(self)@ == old(self)@.removed(name@),
            r == (old(self)@.counters.contains_key(name@) || old(self)@.badges.contains_key(
                name@,
            )),
    {
        let removed_data = match self.find_counter(name) {
            Some(i) => {
                proof {
                    lemma_assoc_remove(counter_kvs(self.counters@), i as int);
                }
                self.counters.remove(i);
                proof {
                    assert(counter_kvs(self.counters@)
                        =~= counter_kvs(old(self).counters@).remove(i as int));
                }
                true
            },
            None => {
                proof {
                    assert(old(self)@.counters.remove(name@) =~= old(self)@.counters);
                }
                false
            },
        };
        let removed_badge = match self.find_badge(name) {
            Some(i) => {
                proof {
                    lemma_assoc_remove(badge_kvs(self.badges@), i as int);
                }
                self.badges.remove(i);
                proof {
                    assert(badge_kvs(self.badges@)
                        =~= badge_kvs(old(self).badges@).remove(i as int));
                }
                true
            },
            None => {
                proof {
                    assert(self@.badges.remove(name@) =~= self@.badges);
                }
                false
            },
        };
        removed_data || removed_badge
    }
}

/// Relies on chrono's `Utc::now`: the current wall-clock time in
/// milliseconds since the Unix epoch. Nothing is promised of the value.
#[verifier::external_body]
fn now_unix_millis() -> i64 {
    chrono::Utc::now().timestamp_millis()
}

/// The wall-clock time as an unsigned millisecond count; a clock reading
/// from before the epoch comes out as zero.
fn clock_now() -> u64 {
    let t = now_unix_millis();
    if t < 0 {
        0
    } else {
        t as u64
    }
}

} // verus!
