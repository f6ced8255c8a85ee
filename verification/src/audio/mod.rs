//! Audio: WAV containers, levels, onsets and time-stretching.
pub mod peaks;
pub mod stretch;
pub mod vad;
pub mod wav;
