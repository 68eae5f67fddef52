use vstd::prelude::*;

use crate::accumulator::DurationAccumulator;
use crate::matcher::{find_match, is_first_match, names_of};
use crate::segment::{advance_segment, current_view, segment_step, Segment};
use crate::timeline::Timeline;

verus! {

/// What a tick reports when the foreground application matched a process.
pub struct TickOutcome {
    /// Position of the matched process in the census.
    pub index: usize,
    /// The matched process's live duration, in whole seconds.
    pub active_seconds: u64,
    /// Whether an entry was appended, so that the timeline must be saved.
    pub timeline_changed: bool,
}

/// The timeline after a match of `name` at wall-clock second `now`: the entry
/// that the segmenter finalizes, if any, appended to `stored`.
pub open spec fn timeline_after(
    stored: Seq<(Seq<char>, u64, u64)>,
    current: Option<(Seq<char>, u64)>,
    name: Seq<char>,
    now: u64,
) -> Seq<(Seq<char>, u64, u64)> {
    match segment_step(current, name, now).1 {
        Some(e) => stored.push(e),
        None => stored,
    }
}

/// One sampling tick. The foreground application (bundle id and window name,
/// or `None` when there is none) is matched against the census; on a match
/// the accumulator records the process at the monotonic instant `now_mono`,
/// and the segmenter advances at the wall-clock second `now_wall`, appending
/// the finalized entry, if any, to the timeline. Without a match nothing
/// changes.
pub fn tick(
    accumulator: &mut DurationAccumulator,
    current: &mut Option<Segment>,
    timeline: &mut Timeline,
    foreground: &Option<(String, String)>,
    census: &Vec<String>,
    now_mono: u64,
    now_wall: u64,
) -> (r: Option<TickOutcome>)
    requires
        old(accumulator).wf(),
        old(accumulator).spec_latest() <= now_mono,
    ensures
        final(accumulator).wf(),
        match r {
            None => {
                &&& match foreground {
                    Some((bundle, window)) => is_first_match(
                        bundle@,
                        window@,
                        names_of(census@),
                        None,
                    ),
                    None => true,
                }
                &&& *final(accumulator) == *old(accumulator)
                &&& *final(current) == *old(current)
                &&& final(timeline)@ == old(timeline)@
            },
            Some(o) => {
                let name = census@[o.index as int]@;
                &&& match foreground {
                    Some((bundle, window)) => is_first_match(
                        bundle@,
                        window@,
                        names_of(census@),
                        Some(o.index),
                    ),
                    None => false,
                }
                &&& DurationAccumulator::sighting(
                    *old(accumulator),
                    *final(accumulator),
                    name,
                    now_mono,
                    o.active_seconds,
                )
                &&& current_view(*final(current)) == Some(
                    segment_step(current_view(*old(current)), name, now_wall).0,
                )
                &&& final(timeline)@ == timeline_after(
                    old(timeline)@,
                    current_view(*old(current)),
                    name,
                    now_wall,
                )
                &&& o.timeline_changed == (segment_step(
                    current_view(*old(current)),
                    name,
                    now_wall,
                ).1 is Some)
            },
        },
{
    match foreground {
        None => None,
        Some((bundle, window)) => {
            match find_match(bundle.as_str(), window.as_str(), census) {
                None => None,
                Some(i) => {
                    let name = &census[i];
                    assert(names_of(census@)[i as int] == census@[i as int]@);
                    let total = accumulator.record(name, now_mono);
                    let prev = current.take();
                    let (next, closed) = advance_segment(prev, name, now_wall);
                    *current = Some(next);
                    let changed = match closed {
                        Some(e) => {
                            timeline.push(e);
                            true
                        },
                        None => false,
                    };
                    Some(TickOutcome { index: i, active_seconds: total, timeline_changed: changed })
                },
            }
        },
    }
}

/// The timeline's ordering: each entry ends no earlier than it starts, starts
/// never decrease along the timeline, and the open segment, if any, starts no
/// earlier than the last stored entry ends.
pub open spec fn ordered(stored: Seq<(Seq<char>, u64, u64)>, current: Option<(Seq<char>, u64)>) -> bool {
    &&& forall|i: int| 0 <= i < stored.len() ==> (#[trigger] stored[i]).1 <= stored[i].2
    &&& forall|i: int, j: int| 0 <= i < j < stored.len() ==> (#[trigger] stored[i]).1 <= (#[trigger] stored[j]).1
    &&& match current {
        Some((_, start)) => stored.len() > 0 ==> stored.last().2 <= start,
        None => true,
    }
}

/// A match at a wall-clock second no earlier than the open segment's start
/// and the last stored end keeps the timeline ordered.
pub proof fn lemma_tick_keeps_order(
    stored: Seq<(Seq<char>, u64, u64)>,
    current: Option<(Seq<char>, u64)>,
    name: Seq<char>,
    now: u64,
)
    requires
        ordered(stored, current),
        match current {
            Some((_, start)) => start <= now,
            None => true,
        },
        stored.len() > 0 ==> stored.last().2 <= now,
    ensures
        ordered(
            timeline_after(stored, current, name, now),
            Some(segment_step(current, name, now).0),
        ),
{
    let after = timeline_after(stored, current, name, now);
    if after.len() > stored.len() {
        assert forall|i: int, j: int| 0 <= i < j < after.len() implies (#[trigger] after[i]).1
            <= (#[trigger] after[j]).1 by {
            if j == stored.len() {
                let last = stored.len() - 1;
                assert(stored[i].1 <= stored[last].1);
                assert(stored[last].1 <= stored[last].2);
            } else {
                assert(after[i] == stored[i] && after[j] == stored[j]);
            }
        }
        assert forall|i: int| 0 <= i < after.len() implies (#[trigger] after[i]).1 <= after[i].2 by {
            if i < stored.len() {
                assert(after[i] == stored[i]);
            }
        }
    }
}

} // verus!
