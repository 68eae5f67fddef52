use sagemode::accumulator::{DurationAccumulator, GAP_THRESHOLD_NANOS, NANOS_PER_SECOND};
use sagemode::engine::tick;
use sagemode::matcher::{find_match, matches_folded};
use sagemode::segment::{advance_segment, Segment, TimelineEntry};
use sagemode::text::{chars_of, contains_chars};
use sagemode::timeline::Timeline;

fn names(v: &[&str]) -> Vec<String> {
    v.iter().map(|s| s.to_string()).collect()
}

fn fg(bundle: &str, window: &str) -> Option<(String, String)> {
    Some((bundle.to_string(), window.to_string()))
}

fn entry(name: &str, start: u64, end: u64) -> TimelineEntry {
    TimelineEntry { app_name: name.to_string(), start_time: start, end_time: end }
}

fn triple(e: &TimelineEntry) -> (String, u64, u64) {
    (e.app_name.clone(), e.start_time, e.end_time)
}

const S: u64 = NANOS_PER_SECOND;

#[test]
fn substring_search_finds_runs() {
    let hay = chars_of("visual studio code");
    assert!(contains_chars(&hay, &chars_of("code")));
    assert!(contains_chars(&hay, &chars_of("")));
    assert!(contains_chars(&hay, &chars_of("visual studio code")));
    assert!(!contains_chars(&hay, &chars_of("codex")));
    assert!(!contains_chars(&chars_of(""), &chars_of("a")));
}

#[test]
fn process_name_inside_window_name_matches() {
    let census = names(&["Finder", "Code"]);
    assert_eq!(find_match("com.microsoft.VSCode", "Visual Studio Code", &census), Some(1));
}

#[test]
fn window_name_inside_process_name_matches() {
    let census = names(&["Finder", "Visual Studio Code"]);
    assert_eq!(find_match("com.example.editor", "Code", &census), Some(1));
}

#[test]
fn matching_ignores_case() {
    let census = names(&["SAFARI"]);
    assert_eq!(find_match("com.apple.Safari", "safari", &census), Some(0));
    assert_eq!(find_match("x", "Safari", &names(&["safari"])), Some(0));
}

#[test]
fn process_name_inside_bundle_id_matches() {
    let census = names(&["zsh", "terminal"]);
    assert_eq!(find_match("com.apple.Terminal", "Shell", &census), Some(1));
}

#[test]
fn no_match_gives_none() {
    let census = names(&["Finder", "Mail"]);
    assert_eq!(find_match("com.example.editor", "Notes", &census), None);
    assert_eq!(find_match("com.example.editor", "Notes", &Vec::new()), None);
}

#[test]
fn first_match_wins_and_repeats() {
    let census = names(&["Code Helper", "Code"]);
    let first = find_match("com.microsoft.VSCode", "Code", &census);
    assert_eq!(first, Some(0));
    assert_eq!(find_match("com.microsoft.VSCode", "Code", &census), first);
}

#[test]
fn folded_rule_on_lowered_names() {
    assert!(matches_folded("com.microsoft.vscode", "visual studio code", "code"));
    assert!(matches_folded("com.example", "code", "visual studio code"));
    assert!(matches_folded("com.apple.terminal", "shell", "terminal"));
    assert!(!matches_folded("com.example", "notes", "mail"));
    // already lowered names are compared as given
    assert!(!matches_folded("com.example", "notes", "NOTES"));
}

#[test]
fn gap_under_threshold_adds_seconds() {
    let mut acc = DurationAccumulator::new(8);
    let app = "Code".to_string();
    assert_eq!(acc.record(&app, 10 * S), 0);
    assert_eq!(acc.record(&app, 14 * S), 4);
    assert_eq!(acc.get(&app), Some((14 * S, 4)));
}

#[test]
fn gap_at_or_over_threshold_keeps_total() {
    let mut acc = DurationAccumulator::new(8);
    let app = "Code".to_string();
    acc.record(&app, 0);
    assert_eq!(acc.record(&app, 4 * S), 4);
    assert_eq!(acc.record(&app, 10 * S), 4);
    assert_eq!(acc.get(&app), Some((10 * S, 4)));
    assert_eq!(acc.record(&app, 10 * S + GAP_THRESHOLD_NANOS), 4);
    assert_eq!(acc.record(&app, 10 * S + GAP_THRESHOLD_NANOS + 4 * S + S / 2), 8);
}

#[test]
fn full_accumulator_evicts_least_recent() {
    let mut acc = DurationAccumulator::new(2);
    let a = "A".to_string();
    let b = "B".to_string();
    let c = "C".to_string();
    acc.record(&a, S);
    acc.record(&b, 2 * S);
    acc.record(&a, 3 * S);
    acc.record(&c, 4 * S);
    assert_eq!(acc.len(), 2);
    assert_eq!(acc.get(&b), None);
    assert_eq!(acc.get(&a), Some((3 * S, 2)));
    assert_eq!(acc.get(&c), Some((4 * S, 0)));
}

#[test]
fn zero_capacity_holds_one_name() {
    let acc = DurationAccumulator::new(0);
    assert_eq!(acc.capacity(), 1);
    assert_eq!(acc.len(), 0);
}

#[test]
fn segmenter_opens_keeps_and_closes() {
    let a = "A".to_string();
    let b = "B".to_string();
    let (seg, closed) = advance_segment(None, &a, 0);
    assert!(closed.is_none());
    assert_eq!((seg.app_name.as_str(), seg.start_time), ("A", 0));
    let (seg, closed) = advance_segment(Some(seg), &a, 3);
    assert!(closed.is_none());
    assert_eq!(seg.start_time, 0);
    let (seg, closed) = advance_segment(Some(seg), &b, 10);
    assert_eq!(triple(&closed.unwrap()), ("A".to_string(), 0, 10));
    assert_eq!((seg.app_name.as_str(), seg.start_time), ("B", 10));
}

#[test]
fn zero_length_switch_is_dropped() {
    let open = Segment { app_name: "A".to_string(), start_time: 5 };
    let (seg, closed) = advance_segment(Some(open), &"B".to_string(), 5);
    assert!(closed.is_none());
    assert_eq!((seg.app_name.as_str(), seg.start_time), ("B", 5));
}

#[test]
fn ticks_close_segment_on_switch() {
    let mut acc = DurationAccumulator::new(8);
    let mut current: Option<Segment> = None;
    let mut timeline = Timeline::new();
    let census = names(&["Alpha", "Beta"]);
    let a = fg("com.example.one", "Alpha");
    let b = fg("com.example.two", "Beta");

    let o = tick(&mut acc, &mut current, &mut timeline, &a, &census, 0, 0).unwrap();
    assert_eq!((o.index, o.active_seconds, o.timeline_changed), (0, 0, false));
    let o = tick(&mut acc, &mut current, &mut timeline, &a, &census, 3 * S, 3).unwrap();
    assert_eq!((o.index, o.active_seconds, o.timeline_changed), (0, 3, false));
    let o = tick(&mut acc, &mut current, &mut timeline, &b, &census, 10 * S, 10).unwrap();
    assert_eq!((o.index, o.active_seconds, o.timeline_changed), (1, 0, true));

    let stored: Vec<_> = timeline.entries().iter().map(triple).collect();
    assert_eq!(stored, vec![("Alpha".to_string(), 0, 10)]);
    let seg = current.unwrap();
    assert_eq!((seg.app_name.as_str(), seg.start_time), ("Beta", 10));
}

#[test]
fn ticks_at_same_second_emit_nothing() {
    let mut acc = DurationAccumulator::new(8);
    let mut current: Option<Segment> = None;
    let mut timeline = Timeline::new();
    let census = names(&["Alpha", "Beta"]);
    tick(&mut acc, &mut current, &mut timeline, &fg("x.one", "Alpha"), &census, 5 * S, 5);
    let o = tick(&mut acc, &mut current, &mut timeline, &fg("x.two", "Beta"), &census, 5 * S, 5)
        .unwrap();
    assert!(!o.timeline_changed);
    assert_eq!(timeline.len(), 0);
}

#[test]
fn tick_without_match_changes_nothing() {
    let mut acc = DurationAccumulator::new(8);
    let mut current = Some(Segment { app_name: "Alpha".to_string(), start_time: 1 });
    let mut timeline = Timeline::new();
    let census = names(&["Alpha"]);
    assert!(tick(&mut acc, &mut current, &mut timeline, &None, &census, S, 9).is_none());
    assert!(tick(&mut acc, &mut current, &mut timeline, &fg("x.y", "Mail"), &census, S, 9)
        .is_none());
    assert_eq!(acc.len(), 0);
    assert_eq!(current.unwrap().start_time, 1);
    assert_eq!(timeline.len(), 0);
}

#[test]
fn loaded_timeline_is_kept_and_failed_load_is_empty() {
    let t = Timeline::from_loaded(Some(vec![entry("A", 0, 10), entry("B", 10, 12)]));
    let got: Vec<_> = t.entries().iter().map(triple).collect();
    assert_eq!(got, vec![("A".to_string(), 0, 10), ("B".to_string(), 10, 12)]);
    assert_eq!(Timeline::from_loaded(None).len(), 0);
}

#[test]
fn snapshot_appends_live_segment() {
    let mut t = Timeline::new();
    t.push(entry("A", 0, 10));
    let current = Some(Segment { app_name: "B".to_string(), start_time: 10 });
    let snap: Vec<_> = t.snapshot_with_live_segment(&current, 15).iter().map(triple).collect();
    assert_eq!(snap, vec![("A".to_string(), 0, 10), ("B".to_string(), 10, 15)]);
    assert_eq!(t.snapshot_with_live_segment(&None, 15).len(), 1);
    assert_eq!(t.len(), 1);
}

#[test]
fn snapshot_read_twice_in_one_second_agrees() {
    let mut t = Timeline::new();
    t.push(entry("A", 0, 10));
    let current = Some(Segment { app_name: "B".to_string(), start_time: 10 });
    let first: Vec<_> = t.snapshot_with_live_segment(&current, 12).iter().map(triple).collect();
    let second: Vec<_> = t.snapshot_with_live_segment(&current, 12).iter().map(triple).collect();
    assert_eq!(first, second);
    assert_eq!(second.len(), 2);
}

#[test]
fn snapshot_skips_repeat_of_last_entry() {
    let mut t = Timeline::new();
    t.push(entry("A", 0, 10));
    let current = Some(Segment { app_name: "A".to_string(), start_time: 3 });
    assert_eq!(t.snapshot_with_live_segment(&current, 10).len(), 1);
    assert_eq!(t.snapshot_with_live_segment(&current, 11).len(), 2);
}
