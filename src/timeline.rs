use vstd::prelude::*;

use crate::segment::{current_view, entries_view, entry_view, Segment, TimelineEntry};

verus! {

/// The stored timeline followed, while a segment is open, by a trailing entry
/// for it that ends at `now`, left out when it would repeat the last stored
/// entry's application and end time.
pub open spec fn live_snapshot(
    stored: Seq<(Seq<char>, u64, u64)>,
    current: Option<(Seq<char>, u64)>,
    now: u64,
) -> Seq<(Seq<char>, u64, u64)> {
    match current {
        None => stored,
        Some((name, start)) => {
            if stored.len() > 0 && stored.last().0 == name && stored.last().2 == now {
                stored
            } else {
                stored.push((name, start, now))
            }
        },
    }
}

/// A copy of `e`.
pub fn copy_entry(e: &TimelineEntry) -> (r: TimelineEntry)
    ensures
        entry_view(r) == entry_view(*e),
{
    TimelineEntry { app_name: e.app_name.clone(), start_time: e.start_time, end_time: e.end_time }
}

/// The finalized intervals, in the order they were appended.
pub struct Timeline {
    entries: Vec<TimelineEntry>,
}

impl View for Timeline {
    type V = Seq<(Seq<char>, u64, u64)>;

    closed spec fn view(&self) -> Seq<(Seq<char>, u64, u64)> {
        entries_view(self.entries@)
    }
}

impl Timeline {
    pub fn new() -> (r: Self)
        ensures
            r@ == Seq::<(Seq<char>, u64, u64)>::empty(),
    {
        let r = Timeline { entries: Vec::new() };
        assert(r@ =~= Seq::<(Seq<char>, u64, u64)>::empty());
        r
    }

    /// The timeline to start from, given what was read back from storage:
    /// the entries read, or an empty timeline when nothing could be read.
    pub fn from_loaded(loaded: Option<Vec<TimelineEntry>>) -> (r: Self)
        ensures
            r@ == (match loaded {
                Some(v) => entries_view(v@),
                None => Seq::<(Seq<char>, u64, u64)>::empty(),
            }),
    {
        match loaded {
            Some(v) => Timeline { entries: v },
            None => Timeline::new(),
        }
    }

    /// The stored entries, to be written out.
    pub fn entries(&self) -> (r: &Vec<TimelineEntry>)
        ensures
            entries_view(r@) == self@,
    {
        &self.entries
    }

    pub fn len(&self) -> (r: usize)
        ensures
            r == self@.len(),
    {
        self.entries.len()
    }

    /// Appends a finalized entry.
    pub fn push(&mut self, e: TimelineEntry)
        ensures
            final(self)@ == old(self)@.push(entry_view(e)),
    {
        self.entries.push(e);
        assert(final(self)@ =~= old(self)@.push(entry_view(e)));
    }

    /// The stored entries plus the open segment, if any, as it stands at `now`.
    pub fn snapshot_with_live_segment(&self, current: &Option<Segment>, now: u64) -> (r: Vec<
        TimelineEntry,
    >)
        ensures
            entries_view(r@) == live_snapshot(self@, current_view(*current), now),
    {
        let mut out: Vec<TimelineEntry> = Vec::new();
        let mut i: usize = 0;
        while i < self.entries.len()
            invariant
                i <= self.entries@.len(),
                out@.len() == i,
                forall|j: int| 0 <= j < i ==> entry_view(#[trigger] out@[j]) == entry_view(self.entries@[j]),
            decreases self.entries@.len() - i,
        {
            out.push(copy_entry(&self.entries[i]));
            i = i + 1;
        }
        assert(entries_view(out@) =~= self@);
        match current {
            Some(seg) => {
                let n = self.entries.len();
                let repeats = n > 0 && self.entries[n - 1].app_name == seg.app_name
                    && self.entries[n - 1].end_time == now;
                if !repeats {
                    out.push(
                        TimelineEntry {
                            app_name: seg.app_name.clone(),
                            start_time: seg.start_time,
                            end_time: now,
                        },
                    );
                }
                assert(entries_view(out@) =~= live_snapshot(self@, current_view(*current), now));
            },
            None => {},
        }
        out
    }
}

/// Reading the timeline never changes it: the snapshot is the stored sequence
/// followed by at most one trailing entry for the open segment, and that
/// entry never repeats the last stored entry's application and end time. Two
/// reads at the same second with no switch between them therefore agree, and
/// neither ends in two copies of the open segment.
pub proof fn lemma_live_snapshot_single_trailing(
    stored: Seq<(Seq<char>, u64, u64)>,
    current: Option<(Seq<char>, u64)>,
    now: u64,
)
    ensures
        live_snapshot(stored, current, now).subrange(0, stored.len() as int) == stored,
        live_snapshot(stored, current, now).len() <= stored.len() + 1,
        live_snapshot(stored, current, now).len() == stored.len() + 1 ==> {
            let t = live_snapshot(stored, current, now).last();
            &&& match current {
                Some((name, start)) => t == (name, start, now),
                None => false,
            }
            &&& stored.len() > 0 ==> (stored.last().0, stored.last().2) != (t.0, t.2)
        },
{
    assert(live_snapshot(stored, current, now).subrange(0, stored.len() as int) =~= stored);
}

} // verus!
