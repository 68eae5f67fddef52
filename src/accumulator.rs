use vstd::prelude::*;

verus! {

/// A gap between two sightings of a process at or above this many
/// nanoseconds is an interruption in tracking, not active time.
pub const GAP_THRESHOLD_NANOS: u64 = 5_000_000_000;

pub const NANOS_PER_SECOND: u64 = 1_000_000_000;

/// Live duration of one process name. Instants are monotonic nanoseconds.
pub struct AccumulatorEntry {
    pub name: String,
    pub last_seen: u64,
    pub total_seconds: u64,
}

/// The `(last_seen, total_seconds)` pair that an entry holds for its name.
pub open spec fn entry_value(e: AccumulatorEntry) -> (u64, u64) {
    (e.last_seen, e.total_seconds)
}

pub open spec fn names_unique(s: Seq<AccumulatorEntry>) -> bool {
    forall|i: int, j: int|
        0 <= i < s.len() && 0 <= j < s.len() && i != j ==> #[trigger] s[i].name@ != #[trigger] s[j].name@
}

pub open spec fn has_name(s: Seq<AccumulatorEntry>, n: Seq<char>) -> bool {
    exists|i: int| 0 <= i < s.len() && #[trigger] s[i].name@ == n
}

/// Entries as a map from process name to `(last_seen, total_seconds)`.
pub open spec fn map_of(s: Seq<AccumulatorEntry>) -> Map<Seq<char>, (u64, u64)> {
    Map::new(
        |n: Seq<char>| has_name(s, n),
        |n: Seq<char>| entry_value(s[choose|i: int| 0 <= i < s.len() && #[trigger] s[i].name@ == n]),
    )
}

/// Elapsed time between two monotonic instants; an instant before `since`
/// counts as no time at all.
pub open spec fn elapsed_nanos(since: u64, now: u64) -> int {
    if now >= since {
        now - since
    } else {
        0
    }
}

/// The total that a sighting of `name` at `now` leaves for it: zero for a new
/// name; the whole seconds elapsed added when the gap is under the
/// threshold; the total unchanged otherwise.
pub open spec fn advanced_total(m: Map<Seq<char>, (u64, u64)>, name: Seq<char>, now: u64) -> int {
    if !m.contains_key(name) {
        0
    } else {
        let e = elapsed_nanos(m[name].0, now);
        if e < GAP_THRESHOLD_NANOS {
            m[name].1 + e / (NANOS_PER_SECOND as int)
        } else {
            m[name].1 as int
        }
    }
}

/// An entry's name is the least recently seen among those of `m`.
pub open spec fn least_recent(m: Map<Seq<char>, (u64, u64)>, victim: Seq<char>) -> bool {
    &&& m.contains_key(victim)
    &&& forall|k: Seq<char>| #[trigger] m.contains_key(k) ==> m[victim].0 <= m[k].0
}

proof fn lemma_map_at(s: Seq<AccumulatorEntry>, i: int)
    requires
        names_unique(s),
        0 <= i < s.len(),
    ensures
        map_of(s).contains_key(s[i].name@),
        map_of(s)[s[i].name@] == entry_value(s[i]),
{
    let n = s[i].name@;
    assert(has_name(s, n));
    let k = choose|k: int| 0 <= k < s.len() && #[trigger] s[k].name@ == n;
    assert(k == i);
}

proof fn lemma_map_update(s: Seq<AccumulatorEntry>, i: int, e: AccumulatorEntry)
    requires
        names_unique(s),
        0 <= i < s.len(),
        forall|j: int| 0 <= j < s.len() && j != i ==> #[trigger] s[j].name@ != e.name@,
    ensures
        names_unique(s.update(i, e)),
        map_of(s.update(i, e)) =~= map_of(s).remove(s[i].name@).insert(e.name@, entry_value(e)),
{
    let t = s.update(i, e);
    let m = map_of(s).remove(s[i].name@).insert(e.name@, entry_value(e));
    assert forall|n: Seq<char>| #[trigger] map_of(t).contains_key(n) == m.contains_key(n) by {
        if has_name(t, n) {
            let k = choose|k: int| 0 <= k < t.len() && #[trigger] t[k].name@ == n;
            if k != i {
                assert(s[k].name@ == n);
                assert(has_name(s, n));
            }
        }
        if n != e.name@ && n != s[i].name@ && has_name(s, n) {
            let k = choose|k: int| 0 <= k < s.len() && #[trigger] s[k].name@ == n;
            assert(t[k].name@ == n);
        }
        if n == e.name@ {
            assert(t[i].name@ == n);
        }
    }
    assert forall|n: Seq<char>| #[trigger] m.contains_key(n) implies map_of(t)[n] == m[n] by {
        assert(map_of(t).contains_key(n));
        let k = choose|k: int| 0 <= k < t.len() && #[trigger] t[k].name@ == n;
        lemma_map_at(t, k);
        if k != i {
            lemma_map_at(s, k);
        }
    }
}

proof fn lemma_map_push(s: Seq<AccumulatorEntry>, e: AccumulatorEntry)
    requires
        names_unique(s),
        !has_name(s, e.name@),
    ensures
        names_unique(s.push(e)),
        map_of(s.push(e)) =~= map_of(s).insert(e.name@, entry_value(e)),
{
    let t = s.push(e);
    let m = map_of(s).insert(e.name@, entry_value(e));
    assert forall|n: Seq<char>| #[trigger] map_of(t).contains_key(n) == m.contains_key(n) by {
        if has_name(t, n) {
            let k = choose|k: int| 0 <= k < t.len() && #[trigger] t[k].name@ == n;
            if k < s.len() {
                assert(s[k].name@ == n);
            }
        }
        if has_name(s, n) {
            let k = choose|k: int| 0 <= k < s.len() && #[trigger] s[k].name@ == n;
            assert(t[k].name@ == n);
        }
        if n == e.name@ {
            assert(t[s.len() as int].name@ == n);
        }
    }
    assert forall|n: Seq<char>| #[trigger] m.contains_key(n) implies map_of(t)[n] == m[n] by {
        assert(map_of(t).contains_key(n));
        let k = choose|k: int| 0 <= k < t.len() && #[trigger] t[k].name@ == n;
        lemma_map_at(t, k);
        if k < s.len() {
            lemma_map_at(s, k);
        }
    }
}

/// Per-name live durations, holding at most `capacity` names; when a new
/// name arrives at capacity the least recently seen name is evicted.
pub struct DurationAccumulator {
    entries: Vec<AccumulatorEntry>,
    capacity: usize,
    latest: u64,
}

impl View for DurationAccumulator {
    type V = Map<Seq<char>, (u64, u64)>;

    closed spec fn view(&self) -> Map<Seq<char>, (u64, u64)> {
        map_of(self.entries@)
    }
}

impl DurationAccumulator {
    pub closed spec fn wf(&self) -> bool {
        &&& 1 <= self.capacity
        &&& self.entries@.len() <= self.capacity
        &&& names_unique(self.entries@)
        &&& forall|i: int|
            0 <= i < self.entries@.len() ==> {
                let e = #[trigger] self.entries@[i];
                &&& e.last_seen <= self.latest
                &&& e.total_seconds * NANOS_PER_SECOND <= e.last_seen
            }
    }

    /// The most names held at once.
    pub closed spec fn spec_capacity(&self) -> nat {
        self.capacity as nat
    }

    /// How many names are held.
    pub closed spec fn spec_len(&self) -> nat {
        self.entries@.len()
    }

    /// The latest instant recorded; later sightings may not be earlier.
    pub closed spec fn spec_latest(&self) -> u64 {
        self.latest
    }

    /// How a sighting of `name` at `now`, reporting `total`, takes `before` to
    /// `after`: the name's entry becomes `(now, total)`, with `total` as the
    /// gap policy gives it; a new name at capacity evicts a least recently
    /// seen name; every other name keeps its entry.
    pub open spec fn sighting(before: Self, after: Self, name: Seq<char>, now: u64, total: u64) -> bool {
        &&& after.wf()
        &&& after.spec_latest() == now
        &&& after.spec_capacity() == before.spec_capacity()
        &&& total == advanced_total(before@, name, now)
        &&& before@.contains_key(name) || before.spec_len() < before.spec_capacity()
            ==> after@ == before@.insert(name, (now, total))
        &&& before@.contains_key(name) ==> after.spec_len() == before.spec_len()
        &&& !before@.contains_key(name) && before.spec_len() < before.spec_capacity()
            ==> after.spec_len() == before.spec_len() + 1
        &&& !before@.contains_key(name) && before.spec_len() >= before.spec_capacity() ==> {
            &&& after.spec_len() == before.spec_len()
            &&& exists|victim: Seq<char>|
                least_recent(before@, victim) && after@ == before@.remove(victim).insert(
                    name,
                    (now, total),
                )
        }
    }

    /// An empty accumulator that holds at most `capacity` names (at least one).
    pub fn new(capacity: usize) -> (r: Self)
        ensures
            r.wf(),
            r@ == Map::<Seq<char>, (u64, u64)>::empty(),
            r.spec_len() == 0,
            r.spec_capacity() == if capacity == 0 { 1 } else { capacity },
            r.spec_latest() == 0,
    {
        let cap = if capacity == 0 { 1 } else { capacity };
        let r = DurationAccumulator { entries: Vec::new(), capacity: cap, latest: 0 };
        assert(r@ =~= Map::<Seq<char>, (u64, u64)>::empty());
        r
    }

    pub fn capacity(&self) -> (r: usize)
        ensures
            r == self.spec_capacity(),
    {
        self.capacity
    }

    pub fn len(&self) -> (r: usize)
        ensures
            r == self.spec_len(),
    {
        self.entries.len()
    }

    pub fn latest(&self) -> (r: u64)
        ensures
            r == self.spec_latest(),
    {
        self.latest
    }

    /// The `(last_seen, total_seconds)` held for `name`, if any.
    pub fn get(&self, name: &String) -> (r: Option<(u64, u64)>)
        requires
            self.wf(),
        ensures
            r == (if self@.contains_key(name@) { Some(self@[name@]) } else { None::<(u64, u64)> }),
    {
        match self.index_of(name) {
            Some(i) => {
                proof {
                    lemma_map_at(self.entries@, i as int);
                }
                Some((self.entries[i].last_seen, self.entries[i].total_seconds))
            },
            None => None,
        }
    }

    fn index_of(&self, name: &String) -> (r: Option<usize>)
        requires
            self.wf(),
        ensures
            match r {
                Some(i) => i < self.entries@.len() && self.entries@[i as int].name@ == name@,
                None => !has_name(self.entries@, name@),
            },
    {
        let mut i: usize = 0;
        while i < self.entries.len()
            invariant
                i <= self.entries@.len(),
                forall|j: int| 0 <= j < i ==> #[trigger] self.entries@[j].name@ != name@,
            decreases self.entries@.len() - i,
        {
            if self.entries[i].name == *name {
                return Some(i);
            }
            i = i + 1;
        }
        None
    }

    /// Index of an entry whose `last_seen` is the least of all.
    fn least_recent_index(&self) -> (r: usize)
        requires
            self.entries@.len() > 0,
        ensures
            r < self.entries@.len(),
            forall|j: int|
                0 <= j < self.entries@.len() ==> self.entries@[r as int].last_seen
                    <= #[trigger] self.entries@[j].last_seen,
    {
        let mut v: usize = 0;
        let mut i: usize = 1;
        while i < self.entries.len()
            invariant
                1 <= i <= self.entries@.len(),
                v < i,
                forall|j: int|
                    0 <= j < i ==> self.entries@[v as int].last_seen
                        <= #[trigger] self.entries@[j].last_seen,
            decreases self.entries@.len() - i,
        {
            if self.entries[i].last_seen < self.entries[v].last_seen {
                v = i;
            }
            i = i + 1;
        }
        v
    }

    /// Records a sighting of `name` at the monotonic instant `now` and returns
    /// its live duration in whole seconds.
    pub fn record(&mut self, name: &String, now: u64) -> (total: u64)
        requires
            old(self).wf(),
            old(self).spec_latest() <= now,
        ensures
            Self::sighting(*old(self), *final(self), name@, now, total),
    {
        let ghost before = self.entries@;
        match self.index_of(name) {
            Some(i) => {
                proof {
                    lemma_map_at(before, i as int);
                }
                let last = self.entries[i].last_seen;
                let prev = self.entries[i].total_seconds;
                let elapsed = now - last;
                let total = if elapsed < GAP_THRESHOLD_NANOS {
                    let secs = elapsed / NANOS_PER_SECOND;
                    proof {
                        vstd::arithmetic::div_mod::lemma_fundamental_div_mod(
                            elapsed as int,
                            NANOS_PER_SECOND as int,
                        );
                        assert(secs <= 4);
                        assert(prev * NANOS_PER_SECOND <= last);
                        assert(prev <= 18_446_744_073) by (nonlinear_arith)
                            requires
                                prev * 1_000_000_000 <= last,
                                last <= 18_446_744_073_709_551_615,
                        ;
                        assert((prev + secs) * NANOS_PER_SECOND <= now) by (nonlinear_arith)
                            requires
                                prev * 1_000_000_000 <= last,
                                elapsed == 1_000_000_000 * secs + elapsed % 1_000_000_000,
                                elapsed % 1_000_000_000 >= 0,
                                now == last + elapsed,
                                NANOS_PER_SECOND == 1_000_000_000,
                        ;
                    }
                    prev + secs
                } else {
                    prev
                };
                let e = AccumulatorEntry { name: name.clone(), last_seen: now, total_seconds: total };
                self.entries.set(i, e);
                self.latest = now;
                proof {
                    lemma_map_update(before, i as int, e);
                    assert(before[i as int].name@ == name@);
                    assert(self@ =~= map_of(before).insert(name@, (now, total)));
                }
                total
            },
            None => {
                let e = AccumulatorEntry { name: name.clone(), last_seen: now, total_seconds: 0 };
                if self.entries.len() < self.capacity {
                    self.entries.push(e);
                    proof {
                        lemma_map_push(before, e);
                    }
                } else {
                    let v = self.least_recent_index();
                    self.entries.set(v, e);
                    proof {
                        lemma_map_update(before, v as int, e);
                        let victim = before[v as int].name@;
                        lemma_map_at(before, v as int);
                        assert forall|k: Seq<char>| #[trigger] map_of(before).contains_key(k) implies map_of(before)[victim].0 <= map_of(before)[k].0 by {
                            let j = choose|j: int| 0 <= j < before.len() && #[trigger] before[j].name@ == k;
                            lemma_map_at(before, j);
                        }
                        assert(least_recent(map_of(before), victim));
                    }
                }
                self.latest = now;
                0
            },
        }
    }
}

/// Gap policy: a sighting less than the threshold after the previous one adds
/// the whole seconds elapsed; a later one leaves the total as it was, and only
/// the last-seen instant moves. Either way the total never decreases.
pub proof fn lemma_gap_policy(m: Map<Seq<char>, (u64, u64)>, name: Seq<char>, now: u64)
    requires
        m.contains_key(name),
        m[name].0 <= now,
    ensures
        now - m[name].0 < GAP_THRESHOLD_NANOS ==> advanced_total(m, name, now) == m[name].1 + (now
            - m[name].0) / (NANOS_PER_SECOND as int),
        now - m[name].0 >= GAP_THRESHOLD_NANOS ==> advanced_total(m, name, now) == m[name].1,
        advanced_total(m, name, now) >= m[name].1,
{
}

} // verus!
