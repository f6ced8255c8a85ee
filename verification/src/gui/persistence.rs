//! What the interface remembers between sessions.
use vstd::prelude::*;
use crate::args;
use crate::args::joined;
use crate::cli;
use crate::cli::{Cli, DubCodec};

verus! {

/// A file of this name next to the program keeps the state there.
pub const PORTABLE_MARKER: &'static str = "dubsync.portable";

pub const STATE_FILE_NAME: &'static str = "state.json";

/// The folder that the state is kept in: that of the program if it is marked as
/// portable, else the one for settings.
pub fn state_dir(exe_dir: Option<String>, portable: bool, config_dir: Option<String>) -> (r: Option<
    String,
>)
    ensures
        r == (if portable && exe_dir is Some {
            exe_dir
        } else {
            config_dir
        }),
{
    if portable && exe_dir.is_some() {
        exe_dir
    } else {
        config_dir
    }
}

/// The options of the form. Times are nanoseconds, levels and the stretch limit
/// millionths, the ratio billionths; texts are as typed.
#[derive(Clone, Debug)]
pub struct PersistedOptions {
    pub keep_temp: bool,
    pub include_donor_anchor: bool,
    pub solo_dub: bool,
    pub silence_udb: i64,
    pub silence_min_ms: u32,
    pub anchor_rate: u32,
    pub correlation_window_ns: i64,
    pub max_drift_ns: i64,
    pub max_segment_jump_ns: i64,
    pub snap_radius_ns: i64,
    pub crossfade_ms: u32,
    pub smooth_gaps: bool,
    pub gap_fill_margin_ns: i64,
    pub speech_udb: i64,
    pub gap_fill_max_ratio_ppm: i64,
    pub gap_fill_silence_fade_ms: u32,
    pub pal_pitch_correction: bool,
    pub anchor_only_validation: bool,
    pub save_report: bool,
    /// `html`, `csv` or `json`.
    pub report_format: String,
    /// The token of a codec.
    pub dub_codec: String,
    /// A number of kbit/s, or empty.
    pub dub_bitrate: String,
    /// `auto`, `disabled` or `manual`.
    pub fps_mode: String,
    pub fps_manual_ratio_nano: i64,
    pub keep_master_subs: bool,
    pub include_donor_forced_subs: bool,
}

pub fn default_report_format() -> (r: String)
    ensures
        r@ == "html"@,
{
    String::from_str("html")
}

pub fn default_dub_codec() -> (r: String)
    ensures
        r@ == "eac3"@,
{
    String::from_str("eac3")
}

pub fn default_fps_mode() -> (r: String)
    ensures
        r@ == "auto"@,
{
    String::from_str("auto")
}

pub fn default_fps_manual_ratio() -> (r: i64)
    ensures
        r == 1_000_000_000,
{
    1_000_000_000
}

pub fn default_keep_master_subs() -> (r: bool)
    ensures
        r,
{
    true
}

pub fn default_crossfade_ms() -> (r: u32)
    ensures
        r == 10,
{
    10
}

pub fn default_smooth_gaps() -> (r: bool)
    ensures
        !r,
{
    false
}

pub fn default_gap_fill_margin_ns() -> (r: i64)
    ensures
        r == 500_000_000,
{
    500_000_000
}

pub fn default_speech_udb() -> (r: i64)
    ensures
        r == -25_000_000,
{
    -25_000_000
}

pub fn default_gap_fill_max_ratio_ppm() -> (r: i64)
    ensures
        r == cli::GAP_FILL_MAX_RATIO_PPM,
{
    cli::GAP_FILL_MAX_RATIO_PPM
}

pub fn default_gap_fill_silence_fade_ms() -> (r: u32)
    ensures
        r == cli::GAP_FILL_SILENCE_FADE_MS,
{
    cli::GAP_FILL_SILENCE_FADE_MS
}

pub fn default_max_segment_jump_ns() -> (r: i64)
    ensures
        r == 10_000_000_000,
{
    10_000_000_000
}

impl PersistedOptions {
    /// The same as the options of the command line.
    pub open spec fn mirrors(&self, c: Cli) -> bool {
        &&& self.keep_temp == c.keep_temp
        &&& self.include_donor_anchor == c.include_donor_anchor
        &&& self.solo_dub == c.solo_dub
        &&& self.silence_udb == c.silence_udb
        &&& self.silence_min_ms == c.silence_min_ms
        &&& self.anchor_rate == c.anchor_rate
        &&& self.correlation_window_ns == c.correlation_window_ns
        &&& self.max_drift_ns == c.max_drift_ns
        &&& self.max_segment_jump_ns == c.max_segment_jump_ns
        &&& self.snap_radius_ns == c.snap_radius_ns
        &&& self.crossfade_ms == c.crossfade_ms
        &&& self.smooth_gaps == c.smooth_gaps
        &&& self.gap_fill_margin_ns == c.gap_fill_margin_ns
        &&& self.speech_udb == c.speech_udb
        &&& self.gap_fill_max_ratio_ppm == cli::GAP_FILL_MAX_RATIO_PPM
        &&& self.gap_fill_silence_fade_ms == cli::GAP_FILL_SILENCE_FADE_MS
        &&& self.pal_pitch_correction == c.pal_pitch_correction
        &&& self.anchor_only_validation == c.anchor_only_validation
        &&& self.save_report == c.report is Some
        &&& DubCodec::of_token(self.dub_codec@) == c.dub_codec
        &&& bitrate_typed(self.dub_bitrate@) == c.dub_bitrate
        &&& mode_typed(self.fps_mode@, self.fps_manual_ratio_nano) == cli::fps_mode_of(
            c.disable_fps_normalize,
            c.force_fps_ratio,
        )
        &&& self.keep_master_subs == !c.no_master_subs
        &&& self.include_donor_forced_subs == c.include_donor_forced_subs
    }
}

/// The bitrate that was typed; none if it is empty or no number.
pub open spec fn bitrate_typed(s: Seq<char>) -> Option<u32> {
    match crate::number::u32_of(crate::text::trim(s)) {
        Ok(n) => Some(n),
        Err(_) => None,
    }
}

/// The frame-rate policy behind its token.
pub open spec fn mode_typed(token: Seq<char>, ratio: i64) -> cli::FpsMode {
    if token == "disabled"@ {
        cli::FpsMode::Disabled
    } else if token == "manual"@ {
        cli::FpsMode::Forced(ratio)
    } else {
        cli::FpsMode::Auto
    }
}

impl Default for PersistedOptions {
    /// The defaults of the command line, so that both start alike.
    fn default() -> (r: Self)
        ensures
            forall|c: Cli| #[trigger] c.is_default() ==> r.mirrors(c),
            r.report_format@ == "html"@,
            r.dub_codec@ == "eac3"@,
            r.dub_bitrate@.len() == 0,
            r.fps_mode@ == "auto"@,
            r.fps_manual_ratio_nano == 1_000_000_000,
    {
        let r = PersistedOptions {
            keep_temp: false,
            include_donor_anchor: false,
            solo_dub: false,
            silence_udb: -45_000_000,
            silence_min_ms: 200,
            anchor_rate: 16_000,
            correlation_window_ns: 30_000_000_000,
            max_drift_ns: 60_000_000_000,
            max_segment_jump_ns: default_max_segment_jump_ns(),
            snap_radius_ns: 30_000_000_000,
            crossfade_ms: default_crossfade_ms(),
            smooth_gaps: default_smooth_gaps(),
            gap_fill_margin_ns: default_gap_fill_margin_ns(),
            speech_udb: default_speech_udb(),
            gap_fill_max_ratio_ppm: default_gap_fill_max_ratio_ppm(),
            gap_fill_silence_fade_ms: default_gap_fill_silence_fade_ms(),
            pal_pitch_correction: false,
            anchor_only_validation: false,
            save_report: false,
            report_format: default_report_format(),
            dub_codec: default_dub_codec(),
            dub_bitrate: String::new(),
            fps_mode: default_fps_mode(),
            fps_manual_ratio_nano: default_fps_manual_ratio(),
            keep_master_subs: default_keep_master_subs(),
            include_donor_forced_subs: false,
        };
        proof {
            cli::law_token_round_trip(DubCodec::Eac3);
            reveal_strlit("auto");
            reveal_strlit("disabled");
            reveal_strlit("manual");
            assert("auto"@.len() != "disabled"@.len());
            assert("auto"@.len() != "manual"@.len());
            assert(crate::text::trim(r.dub_bitrate@) =~= Seq::empty());
        }
        r
    }
}

/// Everything that is remembered. The size and place of the window are
/// thousandths of a point.
#[derive(Clone, Debug)]
pub struct PersistedState {
    pub master_file: Option<String>,
    pub donor_file: Option<String>,
    pub output_dir: Option<String>,
    pub output_filename: String,
    pub last_master_anchor: Option<u32>,
    pub last_donor_anchor: Option<u32>,
    pub last_donor_dubs: Vec<u32>,
    pub last_donor_subs: Vec<u32>,
    pub options: PersistedOptions,
    pub window_size: Option<(i64, i64)>,
    pub window_pos: Option<(i64, i64)>,
    pub window_maximized: Option<bool>,
}

impl Default for PersistedState {
    /// Nothing to remember.
    fn default() -> (r: Self)
        ensures
            r.master_file is None,
            r.donor_file is None,
            r.output_dir is None,
            r.output_filename@.len() == 0,
            r.last_master_anchor is None,
            r.last_donor_anchor is None,
            r.last_donor_dubs@.len() == 0,
            r.last_donor_subs@.len() == 0,
            forall|c: Cli| #[trigger] c.is_default() ==> r.options.mirrors(c),
            r.window_size is None,
            r.window_pos is None,
            r.window_maximized is None,
    {
        PersistedState {
            master_file: None,
            donor_file: None,
            output_dir: None,
            output_filename: String::new(),
            last_master_anchor: None,
            last_donor_anchor: None,
            last_donor_dubs: Vec::new(),
            last_donor_subs: Vec::new(),
            options: PersistedOptions::default(),
            window_size: None,
            window_pos: None,
            window_maximized: None,
        }
    }
}

/// The size of the first window, and the smallest that is shown.
pub const DEFAULT_WIDTH: i64 = 920_000;

pub const DEFAULT_HEIGHT: i64 = 760_000;

pub const MIN_WIDTH: i64 = 760_000;

pub const MIN_HEIGHT: i64 = 520_000;

/// The size that a window opens with: the remembered one, but never so small
/// that a zone is hidden.
pub fn initial_window_size(remembered: Option<(i64, i64)>) -> (r: (i64, i64))
    ensures
        r == (match remembered {
            Some((w, h)) => (
                crate::time::max2(w as int, MIN_WIDTH as int) as i64,
                crate::time::max2(h as int, MIN_HEIGHT as int) as i64,
            ),
            None => (DEFAULT_WIDTH, DEFAULT_HEIGHT),
        }),
{
    match remembered {
        Some((w, h)) => (
            crate::time::max_i64(w, MIN_WIDTH),
            crate::time::max_i64(h, MIN_HEIGHT),
        ),
        None => (DEFAULT_WIDTH, DEFAULT_HEIGHT),
    }
}

/// `{stem}.report.{format}`
pub open spec fn report_name(stem: Option<Seq<char>>, format: Seq<char>) -> Seq<char> {
    (match stem {
        Some(s) => s,
        None => "dubsync"@,
    }) + ".report."@ + format
}

/// The name of the report, next to the output: `stem` is the output's name
/// without its extension.
pub fn derive_report_path(stem: Option<&str>, format: &str) -> (r: String)
    ensures
        r@ == report_name(args::opt_str_view(stem), format@),
{
    let mut r = match stem {
        Some(s) => joined(s, ".report."),
        None => joined("dubsync", ".report."),
    };
    r.append(format);
    r
}

} // verus!
