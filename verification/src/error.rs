//! The library's error type.
use vstd::prelude::*;
use crate::audio::wav::WavError;
use crate::text;

verus! {

#[derive(Debug)]
pub enum DubsyncError {
    FileNotFound(String),
    FfprobeFailed { path: String, stderr: String },
    FfmpegFailed { stderr: String },
    RubberbandFailed { stderr: String },
    NoAudioStreams(String),
    InvalidStreamIndex { index: u32, available: Vec<u32> },
    InteractiveCancelled,
    Io(String),
    Json(String),
    Wav(WavError),
    SubtitleParse(String),
}

/// `1, 2, 3`
pub open spec fn comma_list(v: Seq<u32>) -> Seq<char>
    decreases v.len(),
{
    if v.len() == 0 {
        Seq::empty()
    } else if v.len() == 1 {
        text::decimal(v[0] as nat)
    } else {
        comma_list(v.drop_last()) + ", "@ + text::decimal(v.last() as nat)
    }
}

/// What a WAV problem reads like.
pub open spec fn wav_text(e: WavError) -> Seq<char> {
    match e {
        WavError::UnexpectedEof => "io: failed to fill whole buffer"@,
        WavError::Format(f) => "wav: Ill-formed WAVE file: "@ + f.text(),
        WavError::Unsupported => "wav: The wave format of the file is not supported."@,
    }
}

impl DubsyncError {
    pub open spec fn text(&self) -> Seq<char> {
        match self {
            DubsyncError::FileNotFound(p) => "file not found: "@ + p@,
            DubsyncError::FfprobeFailed { path, stderr } => "ffprobe failed for "@ + path@ + ": "@
                + stderr@,
            DubsyncError::FfmpegFailed { stderr } => "ffmpeg failed: "@ + stderr@,
            DubsyncError::RubberbandFailed { stderr } => "rubberband failed: "@ + stderr@,
            DubsyncError::NoAudioStreams(p) => "ffprobe output had no audio streams in "@ + p@,
            DubsyncError::InvalidStreamIndex { index, available } => "invalid stream index "@
                + text::decimal(*index as nat) + " (file has streams: ["@ + comma_list(available@)
                + "])"@,
            DubsyncError::InteractiveCancelled => "interactive prompt cancelled"@,
            DubsyncError::Io(e) => "io: "@ + e@,
            DubsyncError::Json(e) => "json: "@ + e@,
            DubsyncError::Wav(e) => wav_text(*e),
            DubsyncError::SubtitleParse(e) => "subtitle parse error: "@ + e@,
        }
    }

    /// The error as a line of text.
    pub fn message(&self) -> (r: String)
        ensures
            r@ == self.text(),
    {
        let mut out = String::new();
        match self {
            DubsyncError::FileNotFound(p) => {
                out.append("file not found: ");
                out.append(p.as_str());
            },
            DubsyncError::FfprobeFailed { path, stderr } => {
                out.append("ffprobe failed for ");
                out.append(path.as_str());
                out.append(": ");
                out.append(stderr.as_str());
            },
            DubsyncError::FfmpegFailed { stderr } => {
                out.append("ffmpeg failed: ");
                out.append(stderr.as_str());
            },
            DubsyncError::RubberbandFailed { stderr } => {
                out.append("rubberband failed: ");
                out.append(stderr.as_str());
            },
            DubsyncError::NoAudioStreams(p) => {
                out.append("ffprobe output had no audio streams in ");
                out.append(p.as_str());
            },
            DubsyncError::InvalidStreamIndex { index, available } => {
                out.append("invalid stream index ");
                text::push_decimal(&mut out, *index as u64);
                out.append(" (file has streams: [");
                push_comma_list(&mut out, available);
                out.append("])");
            },
            DubsyncError::InteractiveCancelled => {
                out.append("interactive prompt cancelled");
            },
            DubsyncError::Io(e) => {
                out.append("io: ");
                out.append(e.as_str());
            },
            DubsyncError::Json(e) => {
                out.append("json: ");
                out.append(e.as_str());
            },
            DubsyncError::Wav(e) => match e {
                WavError::UnexpectedEof => {
                    out.append("io: failed to fill whole buffer");
                },
                WavError::Format(f) => {
                    out.append("wav: Ill-formed WAVE file: ");
                    out.append(f.message());
                },
                WavError::Unsupported => {
                    out.append("wav: The wave format of the file is not supported.");
                },
            },
            DubsyncError::SubtitleParse(e) => {
                out.append("subtitle parse error: ");
                out.append(e.as_str());
            },
        }
        out
    }
}

pub fn push_comma_list(out: &mut String, v: &Vec<u32>)
    ensures
        final(out)@ == old(out)@ + comma_list(v@),
{
    let ghost start = out@;
    let mut i: usize = 0;
    while i < v.len()
        invariant
            i <= v@.len(),
            out@ == start + comma_list(v@.take(i as int)),
        decreases v@.len() - i,
    {
        if i > 0 {
            out.append(", ");
        }
        text::push_decimal(out, v[i] as u64);
        i += 1;
        proof {
            assert(v@.take(i as int).drop_last() =~= v@.take(i - 1));
        }
    }
    proof {
        assert(v@.take(i as int) =~= v@);
    }
}

} // verus!
