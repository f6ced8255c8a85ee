//! The questions about advanced options: their order, and what answers change.
use vstd::prelude::*;
use crate::args;
use crate::cli::{copy_list, DubCodec, FpsMode, RunConfig};
use crate::fixed;
use crate::interactive;
use crate::interactive::{
    parse_bitrate, parse_decimal_or, parse_number_or, parse_report_path,
};
use crate::number;
use crate::text;

verus! {

#[derive(Clone, Copy, Debug, PartialEq, Eq, Structural)]
pub enum Question {
    Advanced,
    KeepMasterSubs,
    ForcedSubs,
    PickSubs,
    Codec,
    Bitrate,
    FpsMode,
    FpsRatio,
    PalPitch,
    AnchorOnly,
    SoloDub,
    IncludeAnchor,
    KeepTemp,
    Report,
    Tune,
    SnapRadius,
    Crossfade,
    SmoothGaps,
    GapFillMargin,
    SpeechLevel,
    SilenceLevel,
    SilenceMin,
    CorrelationWindow,
    MaxDrift,
    MaxSegmentJump,
    AnchorRate,
    /// Nothing more is asked.
    End,
}

/// How a question is answered.
#[derive(Clone, Copy, Debug, PartialEq, Eq, Structural)]
pub enum Kind {
    YesNo,
    Line,
    /// One of a list.
    One,
    /// Any of a list.
    Many,
    Nothing,
}

#[derive(Debug)]
pub enum Answer {
    YesNo(bool),
    Line(String),
    /// The place in the list.
    One(usize),
    /// The stream indices that were picked.
    Many(Vec<u32>),
}

impl Question {
    pub open spec fn text(self) -> Seq<char> {
        match self {
            Question::Advanced => "Configure advanced options?"@,
            Question::KeepMasterSubs => "Pass through master subtitles?"@,
            Question::ForcedSubs =>
                "Auto-include donor forced subs (localised signs/on-screen text)?"@,
            Question::PickSubs => "Donor subtitle tracks (space toggle, enter to accept):"@,
            Question::Codec => "Codec:"@,
            Question::Bitrate => "Bitrate (kbps, blank=auto):"@,
            Question::FpsMode => "FPS mode:"@,
            Question::FpsRatio => "Manual donor/master ratio:"@,
            Question::PalPitch => "Apply PAL pitch correction when stretching donor audio?"@,
            Question::AnchorOnly =>
                "Anchor-only validation mode (sync only the donor anchor, skip dubs)?"@,
            Question::SoloDub => "Solo-dub output (single audio track, drop master anchor)?"@,
            Question::IncludeAnchor =>
                "Diagnostic: replace master anchor with synced donor anchor?"@,
            Question::KeepTemp => "Keep temp workspace + diagnostic JSONs?"@,
            Question::Report => "Report file path (blank=skip; .html/.csv/.json by extension):"@,
            Question::Tune => "Tune correlation / splice parameters?"@,
            Question::SnapRadius => "Splice snap radius (s):"@,
            Question::Crossfade => "Crossfade (ms):"@,
            Question::SmoothGaps => "Smooth silence gaps with stretched ambient?"@,
            Question::GapFillMargin => "Gap-fill margin (s):"@,
            Question::SpeechLevel => "Gap-fill speech threshold (dBFS):"@,
            Question::SilenceLevel => "Silence threshold (dBFS):"@,
            Question::SilenceMin => "Silence min duration (ms):"@,
            Question::CorrelationWindow => "Correlation window (s):"@,
            Question::MaxDrift => "Max drift (s):"@,
            Question::MaxSegmentJump => "Max segment jump (s):"@,
            Question::AnchorRate => "Anchor sample rate (Hz):"@,
            Question::End => ""@,
        }
    }

    /// The question in words.
    pub fn prompt(self) -> (r: &'static str)
        ensures
            r@ == self.text(),
    {
        match self {
            Question::Advanced => "Configure advanced options?",
            Question::KeepMasterSubs => "Pass through master subtitles?",
            Question::ForcedSubs =>
                "Auto-include donor forced subs (localised signs/on-screen text)?",
            Question::PickSubs => "Donor subtitle tracks (space toggle, enter to accept):",
            Question::Codec => "Codec:",
            Question::Bitrate => "Bitrate (kbps, blank=auto):",
            Question::FpsMode => "FPS mode:",
            Question::FpsRatio => "Manual donor/master ratio:",
            Question::PalPitch => "Apply PAL pitch correction when stretching donor audio?",
            Question::AnchorOnly =>
                "Anchor-only validation mode (sync only the donor anchor, skip dubs)?",
            Question::SoloDub => "Solo-dub output (single audio track, drop master anchor)?",
            Question::IncludeAnchor =>
                "Diagnostic: replace master anchor with synced donor anchor?",
            Question::KeepTemp => "Keep temp workspace + diagnostic JSONs?",
            Question::Report => "Report file path (blank=skip; .html/.csv/.json by extension):",
            Question::Tune => "Tune correlation / splice parameters?",
            Question::SnapRadius => "Splice snap radius (s):",
            Question::Crossfade => "Crossfade (ms):",
            Question::SmoothGaps => "Smooth silence gaps with stretched ambient?",
            Question::GapFillMargin => "Gap-fill margin (s):",
            Question::SpeechLevel => "Gap-fill speech threshold (dBFS):",
            Question::SilenceLevel => "Silence threshold (dBFS):",
            Question::SilenceMin => "Silence min duration (ms):",
            Question::CorrelationWindow => "Correlation window (s):",
            Question::MaxDrift => "Max drift (s):",
            Question::MaxSegmentJump => "Max segment jump (s):",
            Question::AnchorRate => "Anchor sample rate (Hz):",
            Question::End => "",
        }
    }

    /// The heading that is shown before the question, if it opens a group.
    pub fn heading(self) -> (r: Option<&'static str>)
        ensures
            args::opt_str_view(r) == (match self {
                Question::KeepMasterSubs => Some("\n── Subtitles ──"@),
                Question::Codec => Some("\n── Output codec ──"@),
                Question::FpsMode => Some("\n── FPS handling ──"@),
                Question::AnchorOnly => Some("\n── Workflow modes ──"@),
                Question::Report => Some("\n── Report ──"@),
                Question::SnapRadius => Some("\n── Tuning (correlation / splice / VAD) ──"@),
                _ => None,
            }),
    {
        match self {
            Question::KeepMasterSubs => Some("\n── Subtitles ──"),
            Question::Codec => Some("\n── Output codec ──"),
            Question::FpsMode => Some("\n── FPS handling ──"),
            Question::AnchorOnly => Some("\n── Workflow modes ──"),
            Question::Report => Some("\n── Report ──"),
            Question::SnapRadius => Some("\n── Tuning (correlation / splice / VAD) ──"),
            _ => None,
        }
    }

    pub open spec fn kind(self) -> Kind {
        match self {
            Question::Advanced | Question::KeepMasterSubs | Question::ForcedSubs
            | Question::PalPitch | Question::AnchorOnly | Question::SoloDub
            | Question::IncludeAnchor | Question::KeepTemp | Question::Tune
            | Question::SmoothGaps => Kind::YesNo,
            Question::Codec | Question::FpsMode => Kind::One,
            Question::PickSubs => Kind::Many,
            Question::End => Kind::Nothing,
            _ => Kind::Line,
        }
    }

    /// How the question is answered.
    pub fn answer_kind(self) -> (r: Kind)
        ensures
            r == self.kind(),
    {
        match self {
            Question::Advanced | Question::KeepMasterSubs | Question::ForcedSubs
            | Question::PalPitch | Question::AnchorOnly | Question::SoloDub
            | Question::IncludeAnchor | Question::KeepTemp | Question::Tune
            | Question::SmoothGaps => Kind::YesNo,
            Question::Codec | Question::FpsMode => Kind::One,
            Question::PickSubs => Kind::Many,
            Question::End => Kind::Nothing,
            _ => Kind::Line,
        }
    }

    /// An answer that fits the question.
    pub open spec fn fits(self, a: Answer) -> bool {
        match a {
            Answer::YesNo(_) => self.kind() == Kind::YesNo,
            Answer::Line(_) => self.kind() == Kind::Line,
            Answer::One(i) => self.kind() == Kind::One && i < if self == Question::Codec {
                4usize
            } else {
                3usize
            },
            Answer::Many(_) => self.kind() == Kind::Many,
        }
    }

    pub open spec fn yes(self, cfg: RunConfig) -> bool {
        match self {
            Question::KeepMasterSubs => cfg.keep_master_subs,
            Question::ForcedSubs => cfg.include_donor_forced_subs,
            Question::PalPitch => cfg.pal_pitch_correction,
            Question::AnchorOnly => cfg.anchor_only_validation,
            Question::SoloDub => cfg.solo_dub,
            Question::IncludeAnchor => cfg.include_donor_anchor,
            Question::KeepTemp => cfg.keep_temp,
            Question::SmoothGaps => cfg.smooth_gaps,
            _ => false,
        }
    }

    /// The answer to a yes-or-no question that is offered.
    pub fn default_yes(self, cfg: &RunConfig) -> (r: bool)
        ensures
            r == self.yes(*cfg),
    {
        match self {
            Question::KeepMasterSubs => cfg.keep_master_subs,
            Question::ForcedSubs => cfg.include_donor_forced_subs,
            Question::PalPitch => cfg.pal_pitch_correction,
            Question::AnchorOnly => cfg.anchor_only_validation,
            Question::SoloDub => cfg.solo_dub,
            Question::IncludeAnchor => cfg.include_donor_anchor,
            Question::KeepTemp => cfg.keep_temp,
            Question::SmoothGaps => cfg.smooth_gaps,
            _ => false,
        }
    }

    pub open spec fn line(self, cfg: RunConfig) -> Seq<char> {
        match self {
            Question::Bitrate => match cfg.dub_bitrate_kbps {
                Some(k) => text::decimal(k as nat),
                None => Seq::empty(),
            },
            Question::FpsRatio => fixed::plain(ratio_or_one(cfg.fps_mode) as int, 1_000_000_000, 9),
            Question::Report => match cfg.report_path {
                Some(p) => p@,
                None => Seq::empty(),
            },
            Question::SnapRadius => fixed::seconds(cfg.snap_radius_ns as int),
            Question::Crossfade => text::decimal(cfg.crossfade_ms as nat),
            Question::GapFillMargin => fixed::seconds(cfg.gap_fill_margin_ns as int),
            Question::SpeechLevel => interactive::level(cfg.speech_udb),
            Question::SilenceLevel => interactive::level(cfg.silence_udb),
            Question::SilenceMin => text::decimal(cfg.silence_min_ms as nat),
            Question::CorrelationWindow => fixed::seconds(cfg.correlation_window_ns as int),
            Question::MaxDrift => fixed::seconds(cfg.max_drift_ns as int),
            Question::MaxSegmentJump => fixed::seconds(cfg.max_segment_jump_ns as int),
            Question::AnchorRate => text::decimal(cfg.anchor_rate as nat),
            _ => Seq::empty(),
        }
    }

    /// The line that is offered.
    pub fn default_line(self, cfg: &RunConfig) -> (r: String)
        ensures
            r@ == self.line(*cfg),
    {
        let mut r = String::new();
        match self {
            Question::Bitrate => {
                if let Some(k) = cfg.dub_bitrate_kbps {
                    text::push_decimal(&mut r, k as u64);
                }
            },
            Question::FpsRatio => {
                fixed::push_plain(&mut r, ratio_of(cfg.fps_mode), 1_000_000_000, 9);
            },
            Question::Report => {
                if let Some(p) = &cfg.report_path {
                    r.append(p.as_str());
                }
            },
            Question::SnapRadius => {
                fixed::push_seconds(&mut r, cfg.snap_radius_ns);
            },
            Question::Crossfade => {
                text::push_decimal(&mut r, cfg.crossfade_ms as u64);
            },
            Question::GapFillMargin => {
                fixed::push_seconds(&mut r, cfg.gap_fill_margin_ns);
            },
            Question::SpeechLevel => {
                fixed::push_plain(&mut r, cfg.speech_udb, 1_000_000, 6);
            },
            Question::SilenceLevel => {
                fixed::push_plain(&mut r, cfg.silence_udb, 1_000_000, 6);
            },
            Question::SilenceMin => {
                text::push_decimal(&mut r, cfg.silence_min_ms as u64);
            },
            Question::CorrelationWindow => {
                fixed::push_seconds(&mut r, cfg.correlation_window_ns);
            },
            Question::MaxDrift => {
                fixed::push_seconds(&mut r, cfg.max_drift_ns);
            },
            Question::MaxSegmentJump => {
                fixed::push_seconds(&mut r, cfg.max_segment_jump_ns);
            },
            Question::AnchorRate => {
                text::push_decimal(&mut r, cfg.anchor_rate as u64);
            },
            _ => {},
        }
        assert(r@ =~= self.line(*cfg));
        r
    }
}

/// The ratio of a policy, or one.
pub open spec fn ratio_or_one(mode: FpsMode) -> i64 {
    match mode {
        FpsMode::Forced(r) => r,
        _ => 1_000_000_000,
    }
}

fn ratio_of(mode: FpsMode) -> (r: i64)
    ensures
        r == ratio_or_one(mode),
{
    match mode {
        FpsMode::Forced(r) => r,
        _ => 1_000_000_000,
    }
}

/// The policy at a place of the list: auto, disabled, manual. The manual one
/// keeps the ratio there is.
pub open spec fn mode_at(i: usize, mode: FpsMode) -> FpsMode {
    if i == 1 {
        FpsMode::Disabled
    } else if i == 2 {
        FpsMode::Forced(ratio_or_one(mode))
    } else {
        FpsMode::Auto
    }
}

/// Where a policy stands in the list.
pub fn mode_cursor(mode: FpsMode) -> (r: usize)
    ensures
        r < 3,
        mode_at(r, mode) == mode,
{
    match mode {
        FpsMode::Auto => 0,
        FpsMode::Disabled => 1,
        FpsMode::Forced(_) => 2,
    }
}

/// What an answer changes: the option that was asked about, and nothing else.
/// A line that is no number changes nothing.
pub open spec fn changed(before: RunConfig, after: RunConfig, q: Question, a: Answer) -> bool {
    match (q, a) {
        (Question::KeepMasterSubs, Answer::YesNo(b)) => after == (RunConfig {
            keep_master_subs: b,
            ..before
        }),
        (Question::ForcedSubs, Answer::YesNo(b)) => after == (RunConfig {
            include_donor_forced_subs: b,
            ..before
        }),
        (Question::PickSubs, Answer::Many(v)) => after.donor_subs_explicit@ == v@ && after == (
        RunConfig { donor_subs_explicit: after.donor_subs_explicit, ..before }),
        (Question::Codec, Answer::One(i)) => after == (RunConfig {
            dub_codec: interactive::offered()[i as int],
            ..before
        }),
        (Question::Bitrate, Answer::Line(s)) => after == (RunConfig {
            dub_bitrate_kbps: match number::u32_of(text::trim(s@)) {
                Ok(n) => Some(n),
                Err(_) => None,
            },
            ..before
        }),
        (Question::FpsMode, Answer::One(i)) => after == (RunConfig {
            fps_mode: mode_at(i, before.fps_mode),
            ..before
        }),
        (Question::FpsRatio, Answer::Line(s)) => after == (RunConfig {
            fps_mode: FpsMode::Forced(
                interactive::decimal_or(s@, 9, ratio_or_one(before.fps_mode)),
            ),
            ..before
        }),
        (Question::PalPitch, Answer::YesNo(b)) => after == (RunConfig {
            pal_pitch_correction: b,
            ..before
        }),
        (Question::AnchorOnly, Answer::YesNo(b)) => after == (RunConfig {
            anchor_only_validation: b,
            ..before
        }),
        (Question::SoloDub, Answer::YesNo(b)) => after == (RunConfig { solo_dub: b, ..before }),
        (Question::IncludeAnchor, Answer::YesNo(b)) => after == (RunConfig {
            include_donor_anchor: b,
            ..before
        }),
        (Question::KeepTemp, Answer::YesNo(b)) => after == (RunConfig { keep_temp: b, ..before }),
        (Question::Report, Answer::Line(s)) => {
            &&& args::opt_view(after.report_path) == if text::trim(s@).len() == 0 {
                None
            } else {
                Some(text::trim(s@))
            }
            &&& after == (RunConfig { report_path: after.report_path, ..before })
        },
        (Question::SmoothGaps, Answer::YesNo(b)) => after == (RunConfig {
            smooth_gaps: b,
            ..before
        }),
        (Question::SnapRadius, Answer::Line(s)) => after == (RunConfig {
            snap_radius_ns: interactive::decimal_or(s@, 9, before.snap_radius_ns),
            ..before
        }),
        (Question::Crossfade, Answer::Line(s)) => after == (RunConfig {
            crossfade_ms: interactive::number_or(s@, before.crossfade_ms),
            ..before
        }),
        (Question::GapFillMargin, Answer::Line(s)) => after == (RunConfig {
            gap_fill_margin_ns: interactive::decimal_or(s@, 9, before.gap_fill_margin_ns),
            ..before
        }),
        (Question::SpeechLevel, Answer::Line(s)) => after == (RunConfig {
            speech_udb: interactive::decimal_or(s@, 6, before.speech_udb),
            ..before
        }),
        (Question::SilenceLevel, Answer::Line(s)) => after == (RunConfig {
            silence_udb: interactive::decimal_or(s@, 6, before.silence_udb),
            ..before
        }),
        (Question::SilenceMin, Answer::Line(s)) => after == (RunConfig {
            silence_min_ms: interactive::number_or(s@, before.silence_min_ms),
            ..before
        }),
        (Question::CorrelationWindow, Answer::Line(s)) => after == (RunConfig {
            correlation_window_ns: interactive::decimal_or(s@, 9, before.correlation_window_ns),
            ..before
        }),
        (Question::MaxDrift, Answer::Line(s)) => after == (RunConfig {
            max_drift_ns: interactive::decimal_or(s@, 9, before.max_drift_ns),
            ..before
        }),
        (Question::MaxSegmentJump, Answer::Line(s)) => after == (RunConfig {
            max_segment_jump_ns: interactive::decimal_or(s@, 9, before.max_segment_jump_ns),
            ..before
        }),
        (Question::AnchorRate, Answer::Line(s)) => after == (RunConfig {
            anchor_rate: interactive::number_or(s@, before.anchor_rate),
            ..before
        }),
        _ => after == before,
    }
}

/// Takes an answer.
#[verifier::rlimit(40)]
pub fn take_answer(cfg: &mut RunConfig, q: Question, a: &Answer)
    requires
        q.fits(*a),
    ensures
        changed(*old(cfg), *final(cfg), q, *a),
{
    match a {
        Answer::YesNo(b) => match q {
            Question::KeepMasterSubs => {
                cfg.keep_master_subs = *b;
            },
            Question::ForcedSubs => {
                cfg.include_donor_forced_subs = *b;
            },
            Question::PalPitch => {
                cfg.pal_pitch_correction = *b;
            },
            Question::AnchorOnly => {
                cfg.anchor_only_validation = *b;
            },
            Question::SoloDub => {
                cfg.solo_dub = *b;
            },
            Question::IncludeAnchor => {
                cfg.include_donor_anchor = *b;
            },
            Question::KeepTemp => {
                cfg.keep_temp = *b;
            },
            Question::SmoothGaps => {
                cfg.smooth_gaps = *b;
            },
            _ => {},
        },
        Answer::Many(v) => {
            cfg.donor_subs_explicit = copy_list(v);
        },
        Answer::One(i) => {
            if let Question::Codec = q {
                cfg.dub_codec = if *i == 0 {
                    DubCodec::Flac
                } else if *i == 1 {
                    DubCodec::Ac3
                } else if *i == 2 {
                    DubCodec::Eac3
                } else {
                    DubCodec::Aac
                };
            } else {
                cfg.fps_mode = if *i == 1 {
                    FpsMode::Disabled
                } else if *i == 2 {
                    FpsMode::Forced(ratio_of(cfg.fps_mode))
                } else {
                    FpsMode::Auto
                };
            }
        },
        Answer::Line(s) => {
            take_line(cfg, q, s.as_str());
        },
    }
}

#[verifier::rlimit(40)]
fn take_line(cfg: &mut RunConfig, q: Question, s: &str)
    requires
        q.kind() == Kind::Line,
    ensures
        forall|line: String|
            line@ == s@ ==> #[trigger] changed(*old(cfg), *final(cfg), q, Answer::Line(line)),
{
    match q {
        Question::Bitrate => {
            cfg.dub_bitrate_kbps = parse_bitrate(s);
        },
        Question::FpsRatio => {
            cfg.fps_mode = FpsMode::Forced(parse_decimal_or(s, 9, ratio_of(cfg.fps_mode)));
        },
        Question::Report => {
            cfg.report_path = parse_report_path(s);
        },
        Question::SnapRadius => {
            cfg.snap_radius_ns = parse_decimal_or(s, 9, cfg.snap_radius_ns);
        },
        Question::Crossfade => {
            cfg.crossfade_ms = parse_number_or(s, cfg.crossfade_ms);
        },
        Question::GapFillMargin => {
            cfg.gap_fill_margin_ns = parse_decimal_or(s, 9, cfg.gap_fill_margin_ns);
        },
        Question::SpeechLevel => {
            cfg.speech_udb = parse_decimal_or(s, 6, cfg.speech_udb);
        },
        Question::SilenceLevel => {
            cfg.silence_udb = parse_decimal_or(s, 6, cfg.silence_udb);
        },
        Question::SilenceMin => {
            cfg.silence_min_ms = parse_number_or(s, cfg.silence_min_ms);
        },
        Question::CorrelationWindow => {
            cfg.correlation_window_ns = parse_decimal_or(s, 9, cfg.correlation_window_ns);
        },
        Question::MaxDrift => {
            cfg.max_drift_ns = parse_decimal_or(s, 9, cfg.max_drift_ns);
        },
        Question::MaxSegmentJump => {
            cfg.max_segment_jump_ns = parse_decimal_or(s, 9, cfg.max_segment_jump_ns);
        },
        Question::AnchorRate => {
            cfg.anchor_rate = parse_number_or(s, cfg.anchor_rate);
        },
        _ => {},
    }
}

/// The question that comes next. `yes` is the answer to the two questions that
/// lead into a group, and `cfg` the configuration with the answer in it.
/// Nothing is asked about subtitles that the donor does not have, about the
/// bitrate of a lossless codec, or about gaps that are not filled.
pub open spec fn following(
    q: Question,
    yes: bool,
    cfg: RunConfig,
    donor_subs: nat,
    pickable_subs: nat,
) -> Question {
    match q {
        Question::Advanced => if yes {
            Question::KeepMasterSubs
        } else {
            Question::End
        },
        Question::KeepMasterSubs => if donor_subs > 0 {
            Question::ForcedSubs
        } else {
            Question::Codec
        },
        Question::ForcedSubs => if pickable_subs > 0 {
            Question::PickSubs
        } else {
            Question::Codec
        },
        Question::PickSubs => Question::Codec,
        Question::Codec => if cfg.dub_codec == DubCodec::Flac {
            Question::FpsMode
        } else {
            Question::Bitrate
        },
        Question::Bitrate => Question::FpsMode,
        Question::FpsMode => if cfg.fps_mode is Forced {
            Question::FpsRatio
        } else {
            Question::PalPitch
        },
        Question::FpsRatio => Question::PalPitch,
        Question::PalPitch => Question::AnchorOnly,
        Question::AnchorOnly => Question::SoloDub,
        Question::SoloDub => Question::IncludeAnchor,
        Question::IncludeAnchor => Question::KeepTemp,
        Question::KeepTemp => Question::Report,
        Question::Report => Question::Tune,
        Question::Tune => if yes {
            Question::SnapRadius
        } else {
            Question::End
        },
        Question::SnapRadius => Question::Crossfade,
        Question::Crossfade => Question::SmoothGaps,
        Question::SmoothGaps => if cfg.smooth_gaps {
            Question::GapFillMargin
        } else {
            Question::SilenceLevel
        },
        Question::GapFillMargin => Question::SpeechLevel,
        Question::SpeechLevel => Question::SilenceLevel,
        Question::SilenceLevel => Question::SilenceMin,
        Question::SilenceMin => Question::CorrelationWindow,
        Question::CorrelationWindow => Question::MaxDrift,
        Question::MaxDrift => Question::MaxSegmentJump,
        Question::MaxSegmentJump => Question::AnchorRate,
        Question::AnchorRate => Question::End,
        Question::End => Question::End,
    }
}

/// Finds the next question.
pub fn next_question(
    q: Question,
    yes: bool,
    cfg: &RunConfig,
    donor_subs: usize,
    pickable_subs: usize,
) -> (r: Question)
    ensures
        r == following(q, yes, *cfg, donor_subs as nat, pickable_subs as nat),
{
    match q {
        Question::Advanced => if yes {
            Question::KeepMasterSubs
        } else {
            Question::End
        },
        Question::KeepMasterSubs => if donor_subs > 0 {
            Question::ForcedSubs
        } else {
            Question::Codec
        },
        Question::ForcedSubs => if pickable_subs > 0 {
            Question::PickSubs
        } else {
            Question::Codec
        },
        Question::PickSubs => Question::Codec,
        Question::Codec => if cfg.dub_codec.is_lossless() {
            Question::FpsMode
        } else {
            Question::Bitrate
        },
        Question::Bitrate => Question::FpsMode,
        Question::FpsMode => match cfg.fps_mode {
            FpsMode::Forced(_) => Question::FpsRatio,
            _ => Question::PalPitch,
        },
        Question::FpsRatio => Question::PalPitch,
        Question::PalPitch => Question::AnchorOnly,
        Question::AnchorOnly => Question::SoloDub,
        Question::SoloDub => Question::IncludeAnchor,
        Question::IncludeAnchor => Question::KeepTemp,
        Question::KeepTemp => Question::Report,
        Question::Report => Question::Tune,
        Question::Tune => if yes {
            Question::SnapRadius
        } else {
            Question::End
        },
        Question::SnapRadius => Question::Crossfade,
        Question::Crossfade => Question::SmoothGaps,
        Question::SmoothGaps => if cfg.smooth_gaps {
            Question::GapFillMargin
        } else {
            Question::SilenceLevel
        },
        Question::GapFillMargin => Question::SpeechLevel,
        Question::SpeechLevel => Question::SilenceLevel,
        Question::SilenceLevel => Question::SilenceMin,
        Question::SilenceMin => Question::CorrelationWindow,
        Question::CorrelationWindow => Question::MaxDrift,
        Question::MaxDrift => Question::MaxSegmentJump,
        Question::MaxSegmentJump => Question::AnchorRate,
        Question::AnchorRate => Question::End,
        Question::End => Question::End,
    }
}

impl Question {
    /// How far a question is from the end at most.
    pub open spec fn distance(self) -> nat {
        match self {
            Question::Advanced => 26,
            Question::KeepMasterSubs => 25,
            Question::ForcedSubs => 24,
            Question::PickSubs => 23,
            Question::Codec => 22,
            Question::Bitrate => 21,
            Question::FpsMode => 20,
            Question::FpsRatio => 19,
            Question::PalPitch => 18,
            Question::AnchorOnly => 17,
            Question::SoloDub => 16,
            Question::IncludeAnchor => 15,
            Question::KeepTemp => 14,
            Question::Report => 13,
            Question::Tune => 12,
            Question::SnapRadius => 11,
            Question::Crossfade => 10,
            Question::SmoothGaps => 9,
            Question::GapFillMargin => 8,
            Question::SpeechLevel => 7,
            Question::SilenceLevel => 6,
            Question::SilenceMin => 5,
            Question::CorrelationWindow => 4,
            Question::MaxDrift => 3,
            Question::MaxSegmentJump => 2,
            Question::AnchorRate => 1,
            Question::End => 0,
        }
    }
}

/// The questions come to an end, and none is asked twice.
pub proof fn law_questions_end(
    q: Question,
    yes: bool,
    cfg: RunConfig,
    donor_subs: nat,
    pickable_subs: nat,
)
    requires
        q != Question::End,
    ensures
        following(q, yes, cfg, donor_subs, pickable_subs).distance() < q.distance(),
{
}

/// Accepting the default answer to a yes-or-no question changes nothing.
pub proof fn law_default_changes_nothing(cfg: RunConfig, after: RunConfig, q: Question)
    requires
        q.kind() == Kind::YesNo,
        changed(cfg, after, q, Answer::YesNo(q.yes(cfg))),
    ensures
        after == cfg,
{
}

/// A yes or no is taken as it is given.
pub proof fn law_answer_is_taken(cfg: RunConfig, after: RunConfig, q: Question, b: bool)
    requires
        q.kind() == Kind::YesNo,
        q != Question::Advanced,
        q != Question::Tune,
        changed(cfg, after, q, Answer::YesNo(b)),
    ensures
        q.yes(after) == b,
{
}

/// An answer changes what it is about and nothing else: the other questions have
/// the defaults that they had. (Leaving a manual ratio forgets it.)
pub proof fn law_answer_changes_one_thing(
    cfg: RunConfig,
    after: RunConfig,
    q: Question,
    a: Answer,
    other: Question,
)
    requires
        q.fits(a),
        changed(cfg, after, q, a),
        other != q,
        !(q == Question::FpsMode && other == Question::FpsRatio),
    ensures
        other.yes(after) == other.yes(cfg),
        other != Question::Report ==> other.line(after) == other.line(cfg),
        q != Question::Report ==> after.report_path == cfg.report_path,
        q != Question::Codec ==> after.dub_codec == cfg.dub_codec,
        q != Question::FpsMode && q != Question::FpsRatio ==> after.fps_mode == cfg.fps_mode,
        q != Question::PickSubs ==> after.donor_subs_explicit == cfg.donor_subs_explicit,
        after.master_file == cfg.master_file,
        after.donor_file == cfg.donor_file,
        after.output_file == cfg.output_file,
        after.master_anchor_track == cfg.master_anchor_track,
        after.donor_anchor_track == cfg.donor_anchor_track,
        after.donor_dub_tracks == cfg.donor_dub_tracks,
{
}

/// The codecs and the ways to treat the frame rate are offered in this order.
pub proof fn law_choices(cfg: RunConfig, after: RunConfig, i: usize)
    ensures
        changed(cfg, after, Question::Codec, Answer::One(i)) ==> {
            &&& i == 0 ==> after.dub_codec == DubCodec::Flac
            &&& i == 1 ==> after.dub_codec == DubCodec::Ac3
            &&& i == 2 ==> after.dub_codec == DubCodec::Eac3
            &&& i == 3 ==> after.dub_codec == DubCodec::Aac
        },
        changed(cfg, after, Question::FpsMode, Answer::One(i)) ==> {
            &&& i == 0 ==> after.fps_mode == FpsMode::Auto
            &&& i == 1 ==> after.fps_mode == FpsMode::Disabled
            &&& i == 2 ==> after.fps_mode is Forced && (cfg.fps_mode is Forced ==> after.fps_mode
                == cfg.fps_mode) && (!(cfg.fps_mode is Forced) ==> after.fps_mode
                == FpsMode::Forced(1_000_000_000))
        },
{
}

/// Typing the value that a line starts with changes nothing.
pub proof fn law_typed_default_changes_nothing(
    cfg: RunConfig,
    after: RunConfig,
    q: Question,
    s: String,
)
    requires
        q.kind() == Kind::Line,
        s@ == q.line(cfg),
        changed(cfg, after, q, Answer::Line(s)),
        cfg.snap_radius_ns > i64::MIN,
        cfg.gap_fill_margin_ns > i64::MIN,
        cfg.speech_udb > i64::MIN,
        cfg.silence_udb > i64::MIN,
        cfg.correlation_window_ns > i64::MIN,
        cfg.max_drift_ns > i64::MIN,
        cfg.max_segment_jump_ns > i64::MIN,
        ratio_or_one(cfg.fps_mode) > i64::MIN,
        q == Question::FpsRatio ==> cfg.fps_mode is Forced,
    ensures
        q != Question::Report ==> after == cfg,
{
    reveal_with_fuel(vstd::arithmetic::power::pow, 10);
    let t = s@;
    match q {
        Question::Bitrate => {
            if let Some(k) = cfg.dub_bitrate_kbps {
                interactive::law_typed_number(k, t, 0);
                lemma_typed_is_read(k);
            } else {
                assert(text::trim(t) =~= Seq::empty());
            }
        },
        Question::FpsRatio => {
            let r = ratio_or_one(cfg.fps_mode);
            interactive::law_typed_decimal(r, 1_000_000_000, 9, t, r);
        },
        Question::SnapRadius => {
            let n = cfg.snap_radius_ns;
            interactive::law_typed_decimal(n, 1_000_000_000, 9, t, n);
        },
        Question::Crossfade => interactive::law_typed_number(cfg.crossfade_ms, t, cfg.crossfade_ms),
        Question::GapFillMargin => {
            let n = cfg.gap_fill_margin_ns;
            interactive::law_typed_decimal(n, 1_000_000_000, 9, t, n);
        },
        Question::SpeechLevel => {
            interactive::law_typed_decimal(cfg.speech_udb, 1_000_000, 6, t, cfg.speech_udb);
        },
        Question::SilenceLevel => {
            interactive::law_typed_decimal(cfg.silence_udb, 1_000_000, 6, t, cfg.silence_udb);
        },
        Question::SilenceMin => {
            interactive::law_typed_number(cfg.silence_min_ms, t, cfg.silence_min_ms);
        },
        Question::CorrelationWindow => {
            let n = cfg.correlation_window_ns;
            interactive::law_typed_decimal(n, 1_000_000_000, 9, t, n);
        },
        Question::MaxDrift => {
            let n = cfg.max_drift_ns;
            interactive::law_typed_decimal(n, 1_000_000_000, 9, t, n);
        },
        Question::MaxSegmentJump => {
            let n = cfg.max_segment_jump_ns;
            interactive::law_typed_decimal(n, 1_000_000_000, 9, t, n);
        },
        Question::AnchorRate => interactive::law_typed_number(cfg.anchor_rate, t, cfg.anchor_rate),
        _ => {},
    }
}

proof fn lemma_typed_is_read(k: u32)
    ensures
        number::u32_of(text::trim(text::decimal(k as nat))) == Ok::<_, number::IntError>(k),
{
    let other: u32 = if k == 0 {
        1
    } else {
        0
    };
    interactive::law_typed_number(k, Seq::empty(), other);
}

/// A typed value is taken: the line then starts with it.
pub proof fn law_typed_value_is_taken(cfg: RunConfig, after: RunConfig, s: String, n: i64, k: u32)
    requires
        n > i64::MIN,
    ensures
        s@ == fixed::seconds(n as int) ==> {
            &&& changed(cfg, after, Question::SnapRadius, Answer::Line(s)) ==> after.snap_radius_ns
                == n
            &&& changed(cfg, after, Question::GapFillMargin, Answer::Line(s))
                ==> after.gap_fill_margin_ns == n
            &&& changed(cfg, after, Question::CorrelationWindow, Answer::Line(s))
                ==> after.correlation_window_ns == n
            &&& changed(cfg, after, Question::MaxDrift, Answer::Line(s)) ==> after.max_drift_ns == n
            &&& changed(cfg, after, Question::MaxSegmentJump, Answer::Line(s))
                ==> after.max_segment_jump_ns == n
            &&& changed(cfg, after, Question::FpsRatio, Answer::Line(s)) ==> after.fps_mode
                == FpsMode::Forced(n)
        },
        s@ == interactive::level(n) ==> {
            &&& changed(cfg, after, Question::SpeechLevel, Answer::Line(s)) ==> after.speech_udb
                == n
            &&& changed(cfg, after, Question::SilenceLevel, Answer::Line(s)) ==> after.silence_udb
                == n
        },
        s@ == text::decimal(k as nat) ==> {
            &&& changed(cfg, after, Question::Crossfade, Answer::Line(s)) ==> after.crossfade_ms
                == k
            &&& changed(cfg, after, Question::SilenceMin, Answer::Line(s)) ==> after.silence_min_ms
                == k
            &&& changed(cfg, after, Question::AnchorRate, Answer::Line(s)) ==> after.anchor_rate
                == k
            &&& changed(cfg, after, Question::Bitrate, Answer::Line(s)) ==> after.dub_bitrate_kbps
                == Some(k)
        },
{
    reveal_with_fuel(vstd::arithmetic::power::pow, 10);
    let t = s@;
    interactive::law_typed_decimal(n, 1_000_000_000, 9, t, cfg.snap_radius_ns);
    interactive::law_typed_decimal(n, 1_000_000_000, 9, t, cfg.gap_fill_margin_ns);
    interactive::law_typed_decimal(n, 1_000_000_000, 9, t, cfg.correlation_window_ns);
    interactive::law_typed_decimal(n, 1_000_000_000, 9, t, cfg.max_drift_ns);
    interactive::law_typed_decimal(n, 1_000_000_000, 9, t, cfg.max_segment_jump_ns);
    interactive::law_typed_decimal(n, 1_000_000_000, 9, t, ratio_or_one(cfg.fps_mode));
    interactive::law_typed_decimal(n, 1_000_000, 6, t, cfg.speech_udb);
    interactive::law_typed_decimal(n, 1_000_000, 6, t, cfg.silence_udb);
    interactive::law_typed_number(k, t, cfg.crossfade_ms);
    interactive::law_typed_number(k, t, cfg.silence_min_ms);
    interactive::law_typed_number(k, t, cfg.anchor_rate);
    lemma_typed_is_read(k);
}

/// What is asked only in some runs: a bitrate for a codec that has one, a ratio
/// where it is given by hand, the filling of gaps where they are filled, and
/// subtitles where there are some.
pub proof fn law_what_is_asked(
    q: Question,
    yes: bool,
    cfg: RunConfig,
    donor_subs: nat,
    pickable_subs: nat,
)
    ensures
        ({
            let next = following(q, yes, cfg, donor_subs, pickable_subs);
            &&& next == Question::Bitrate <==> q == Question::Codec && cfg.dub_codec
                != DubCodec::Flac
            &&& next == Question::FpsRatio <==> q == Question::FpsMode && cfg.fps_mode is Forced
            &&& next == Question::GapFillMargin <==> q == Question::SmoothGaps && cfg.smooth_gaps
            &&& next == Question::SpeechLevel <==> q == Question::GapFillMargin
            &&& next == Question::ForcedSubs <==> q == Question::KeepMasterSubs && donor_subs > 0
            &&& next == Question::PickSubs <==> q == Question::ForcedSubs && pickable_subs > 0
            &&& next == Question::KeepMasterSubs <==> q == Question::Advanced && yes
            &&& next == Question::SnapRadius <==> q == Question::Tune && yes
            &&& q == Question::Advanced && !yes ==> next == Question::End
            &&& q == Question::Tune && !yes ==> next == Question::End
        }),
{
}

} // verus!
