//! Moving a donor dub onto the master timeline.
pub mod applier;
pub mod gap_fill;
pub mod render;
