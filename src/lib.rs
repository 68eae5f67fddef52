//! Foreground-application activity tracking: matching the frontmost
//! application against the process census, accumulating live durations,
//! segmenting the timeline on application switches, and holding the timeline.

pub mod accumulator;
pub mod engine;
pub mod matcher;
pub mod segment;
pub mod text;
pub mod timeline;
