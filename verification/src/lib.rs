//! Audio-dub synchronisation: the decisions behind aligning a donor release's
//! dubbed audio and subtitles to a master release.
//!
//! Times are integer nanoseconds, lengths are sample frames, and 32-bit float
//! samples travel as their bit patterns.
pub mod args;
pub mod audio;
pub mod binpath;
pub mod bytes;
pub mod cli;
pub mod correlation;
pub mod error;
pub mod ffmpeg;
pub mod ffprobe;
pub mod fixed;
pub mod gui;
pub mod interactive;
pub mod number;
pub mod pipeline;
pub mod progress;
pub mod rate;
pub mod report;
pub mod rows;
pub mod subtitle;
pub mod sync;
pub mod text;
pub mod time;
pub mod wide;
pub mod wizard;
