//! The panel of advanced options: the ranges of its fields, and its texts.
use vstd::prelude::*;
use crate::args;
use crate::args::number_text;
use crate::cli::DubCodec;
use crate::gui::form;
use crate::interactive;
use crate::interactive::fps_mode_label;
use crate::text;

verus! {

/// The fields that hold numbers.
#[derive(Clone, Copy, Debug, PartialEq, Eq, Structural)]
pub enum NumberField {
    SnapRadius,
    Crossfade,
    GapFillMargin,
    SpeechLevel,
    SilenceLevel,
    SilenceMin,
    ManualRatio,
    AnchorRate,
    CorrelationWindow,
    MaxDrift,
    MaxSegmentJump,
}

impl NumberField {
    /// The range of a field: nanoseconds, millionths of a decibel, billionths
    /// for the ratio, and milliseconds or hertz as they are.
    pub open spec fn limits(self) -> (int, int) {
        match self {
            NumberField::SnapRadius => (2_000_000_000, 120_000_000_000),
            NumberField::Crossfade => (1, 50),
            NumberField::GapFillMargin => (100_000_000, 5_000_000_000),
            NumberField::SpeechLevel => (-60_000_000, -10_000_000),
            NumberField::SilenceLevel => (-90_000_000, -20_000_000),
            NumberField::SilenceMin => (50, 2000),
            NumberField::ManualRatio => (500_000_000, 2_000_000_000),
            NumberField::AnchorRate => (8000, 48_000),
            NumberField::CorrelationWindow => (5_000_000_000, 120_000_000_000),
            NumberField::MaxDrift => (5_000_000_000, 300_000_000_000),
            NumberField::MaxSegmentJump => (500_000_000, 600_000_000_000),
        }
    }

    pub fn range(self) -> (r: (i64, i64))
        ensures
            r.0 == self.limits().0,
            r.1 == self.limits().1,
    {
        match self {
            NumberField::SnapRadius => (2_000_000_000, 120_000_000_000),
            NumberField::Crossfade => (1, 50),
            NumberField::GapFillMargin => (100_000_000, 5_000_000_000),
            NumberField::SpeechLevel => (-60_000_000, -10_000_000),
            NumberField::SilenceLevel => (-90_000_000, -20_000_000),
            NumberField::SilenceMin => (50, 2000),
            NumberField::ManualRatio => (500_000_000, 2_000_000_000),
            NumberField::AnchorRate => (8000, 48_000),
            NumberField::CorrelationWindow => (5_000_000_000, 120_000_000_000),
            NumberField::MaxDrift => (5_000_000_000, 300_000_000_000),
            NumberField::MaxSegmentJump => (500_000_000, 600_000_000_000),
        }
    }
}

pub open spec fn or_zero(n: Option<u32>) -> nat {
    match n {
        Some(k) => k as nat,
        None => 0,
    }
}

/// What an empty field for the bitrate shows: `auto (256 stereo / 640 5.1)`.
pub fn bitrate_hint(codec: DubCodec) -> (r: String)
    ensures
        r@ == "auto ("@ + text::decimal(or_zero(codec.usual_bitrate(2))) + " stereo / "@
            + text::decimal(or_zero(codec.usual_bitrate(6))) + " 5.1)"@,
{
    let stereo: u32 = match codec.default_bitrate_kbps(2) {
        Some(k) => k,
        None => 0,
    };
    let surround: u32 = match codec.default_bitrate_kbps(6) {
        Some(k) => k,
        None => 0,
    };
    let mut r = number_text("auto (", stereo as u64, " stereo / ");
    text::push_decimal(&mut r, surround as u64);
    r.append(" 5.1)");
    r
}

/// The label of the frame-rate policy behind a token.
pub fn fps_token_label(token: &str) -> (r: &'static str)
    ensures
        r@ == interactive::mode_label(crate::gui::persistence::mode_typed(token@, 0)),
{
    fps_mode_label(form::fps_mode_of_token(token, 0))
}

/// Where the report goes, in words.
pub fn report_hint(format: &str) -> (r: String)
    ensures
        r@ == "saved as <output stem>.report."@ + format@,
{
    args::joined("saved as <output stem>.report.", format)
}

} // verus!
