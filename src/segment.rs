use vstd::prelude::*;

verus! {

/// The application currently in front and the wall-clock second its segment began.
pub struct Segment {
    pub app_name: String,
    pub start_time: u64,
}

/// A finished interval of the timeline, in Unix seconds.
pub struct TimelineEntry {
    pub app_name: String,
    pub start_time: u64,
    pub end_time: u64,
}

pub open spec fn segment_view(s: Segment) -> (Seq<char>, u64) {
    (s.app_name@, s.start_time)
}

pub open spec fn entry_view(e: TimelineEntry) -> (Seq<char>, u64, u64) {
    (e.app_name@, e.start_time, e.end_time)
}

pub open spec fn current_view(c: Option<Segment>) -> Option<(Seq<char>, u64)> {
    match c {
        Some(s) => Some(segment_view(s)),
        None => None,
    }
}

pub open spec fn closed_view(c: Option<TimelineEntry>) -> Option<(Seq<char>, u64, u64)> {
    match c {
        Some(e) => Some(entry_view(e)),
        None => None,
    }
}

pub open spec fn entries_view(v: Seq<TimelineEntry>) -> Seq<(Seq<char>, u64, u64)> {
    v.map_values(|e: TimelineEntry| entry_view(e))
}

/// One transition of the segmenter on a match of `name` at wall-clock second
/// `now`: the segment that is open afterwards, and the entry it finalizes.
/// Idle opens a segment; the same name keeps its start; another name closes
/// the previous segment, emitting it only when time has passed since it began.
pub open spec fn segment_step(current: Option<(Seq<char>, u64)>, name: Seq<char>, now: u64) -> (
    (Seq<char>, u64),
    Option<(Seq<char>, u64, u64)>,
) {
    match current {
        None => ((name, now), None),
        Some((prev, start)) => {
            if prev == name {
                ((prev, start), None)
            } else if now > start {
                ((name, now), Some((prev, start, now)))
            } else {
                ((name, now), None)
            }
        },
    }
}

/// Applies one segmenter transition for a match of `name` at `now`.
pub fn advance_segment(current: Option<Segment>, name: &String, now: u64) -> (r: (
    Segment,
    Option<TimelineEntry>,
))
    ensures
        (segment_view(r.0), closed_view(r.1)) == segment_step(current_view(current), name@, now),
        match r.1 {
            Some(e) => e.start_time < e.end_time,
            None => true,
        },
{
    match current {
        None => (Segment { app_name: name.clone(), start_time: now }, None),
        Some(prev) => {
            if prev.app_name == *name {
                (prev, None)
            } else if now > prev.start_time {
                let closed = TimelineEntry {
                    app_name: prev.app_name,
                    start_time: prev.start_time,
                    end_time: now,
                };
                (Segment { app_name: name.clone(), start_time: now }, Some(closed))
            } else {
                (Segment { app_name: name.clone(), start_time: now }, None)
            }
        },
    }
}

} // verus!
