//! Run options: output codecs, frame-rate policy, and the configuration of a run.
use vstd::prelude::*;
use crate::args;
use crate::ffprobe::{ensure_indices_exist, same_text, AudioStream};
use crate::error::DubsyncError;
use crate::ffprobe;
use crate::text;

verus! {

/// Output codec for synced dubs.
///
/// E-AC3 is the default: it matches the typical donor and plays back natively
/// on televisions and receivers. FLAC keeps more than six channels and adds no
/// lossy generation; AC3 suits older receivers.
#[derive(Clone, Copy, Debug, PartialEq, Eq, Structural)]
pub enum DubCodec {
    Eac3,
    Ac3,
    Flac,
    Aac,
}

impl Default for DubCodec {
    fn default() -> (r: Self)
        ensures
            r == DubCodec::Eac3,
    {
        DubCodec::Eac3
    }
}

/// `c` in lower case if it is an ASCII letter.
pub open spec fn lower(c: char) -> char {
    if 'A' <= c && c <= 'Z' {
        ((c as u32) + 32) as char
    } else {
        c
    }
}

/// A text with its ASCII letters in lower case.
pub open spec fn ascii_lower(s: Seq<char>) -> Seq<char> {
    s.map_values(|c: char| lower(c))
}

/// A text with its ASCII letters in lower case.
pub fn to_lower(s: &Vec<char>) -> (r: String)
    ensures
        r@ == ascii_lower(s@),
{
    let mut r = String::new();
    let mut i: usize = 0;
    while i < s.len()
        invariant
            i <= s@.len(),
            r@ == ascii_lower(s@.take(i as int)),
        decreases s@.len() - i,
    {
        let c = s[i];
        if 'A' <= c && c <= 'Z' {
            r.push(((c as u8) + 32u8) as char);
        } else {
            r.push(c);
        }
        i += 1;
        assert(s@.take(i as int) =~= s@.take(i - 1).push(c));
        assert(r@ =~= ascii_lower(s@.take(i as int)));
    }
    assert(s@.take(i as int) =~= s@);
    r
}

impl DubCodec {
    pub open spec fn name(self) -> Seq<char> {
        match self {
            DubCodec::Flac => "flac"@,
            DubCodec::Ac3 => "ac3"@,
            DubCodec::Eac3 => "eac3"@,
            DubCodec::Aac => "aac"@,
        }
    }

    /// The encoder's name, as ffmpeg's `-c:a` takes it.
    pub fn ffmpeg_name(self) -> (r: &'static str)
        ensures
            r@ == self.name(),
    {
        match self {
            DubCodec::Flac => "flac",
            DubCodec::Ac3 => "ac3",
            DubCodec::Eac3 => "eac3",
            DubCodec::Aac => "aac",
        }
    }

    pub open spec fn channel_limit(self) -> u32 {
        if self == DubCodec::Flac || self == DubCodec::Aac {
            8
        } else {
            6
        }
    }

    /// How many channels ffmpeg's encoder takes.
    pub fn max_channels(self) -> (r: u32)
        ensures
            r == self.channel_limit(),
    {
        match self {
            DubCodec::Flac | DubCodec::Aac => 8,
            DubCodec::Ac3 | DubCodec::Eac3 => 6,
        }
    }

    /// True for codecs that take no bitrate.
    pub fn is_lossless(self) -> (r: bool)
        ensures
            r == (self == DubCodec::Flac),
    {
        match self {
            DubCodec::Flac => true,
            _ => false,
        }
    }

    pub open spec fn label(self) -> Seq<char> {
        match self {
            DubCodec::Flac => "FLAC (lossless)"@,
            DubCodec::Ac3 => "AC3 (Dolby Digital)"@,
            DubCodec::Eac3 => "E-AC3 (Dolby Digital Plus)"@,
            DubCodec::Aac => "AAC"@,
        }
    }

    /// Label for selection lists.
    pub fn display_label(self) -> (r: &'static str)
        ensures
            r@ == self.label(),
    {
        match self {
            DubCodec::Flac => "FLAC (lossless)",
            DubCodec::Ac3 => "AC3 (Dolby Digital)",
            DubCodec::Eac3 => "E-AC3 (Dolby Digital Plus)",
            DubCodec::Aac => "AAC",
        }
    }

    pub open spec fn usual_bitrate(self, channels: u32) -> Option<u32> {
        let stereo = channels <= 2;
        match self {
            DubCodec::Flac => None,
            DubCodec::Ac3 => Some(if stereo { 448u32 } else { 640u32 }),
            DubCodec::Eac3 => Some(if stereo { 256u32 } else { 640u32 }),
            DubCodec::Aac => Some(if stereo { 192u32 } else { 384u32 }),
        }
    }

    /// The usual bitrate in kbit/s for a number of channels; none for lossless
    /// codecs.
    pub fn default_bitrate_kbps(self, channels: u32) -> (r: Option<u32>)
        ensures
            r == self.usual_bitrate(channels),
    {
        match self {
            DubCodec::Flac => None,
            DubCodec::Ac3 => Some(if channels <= 2 { 448 } else { 640 }),
            DubCodec::Eac3 => Some(if channels <= 2 { 256 } else { 640 }),
            DubCodec::Aac => Some(if channels <= 2 { 192 } else { 384 }),
        }
    }

    /// The token that stands for the codec on the command line and in saved
    /// options.
    pub fn as_token(self) -> (r: &'static str)
        ensures
            r@ == self.name(),
    {
        self.ffmpeg_name()
    }

    /// The codec that a token names: white space around it and the case of
    /// its letters do not matter; anything unknown is FLAC.
    pub open spec fn of_token(s: Seq<char>) -> DubCodec {
        let t = ascii_lower(text::trim(s));
        if t == "ac3"@ {
            DubCodec::Ac3
        } else if t == "eac3"@ {
            DubCodec::Eac3
        } else if t == "aac"@ {
            DubCodec::Aac
        } else {
            DubCodec::Flac
        }
    }

    /// Inverse of `as_token`. Unknown tokens give `Flac`.
    pub fn from_token(s: &str) -> (r: Self)
        ensures
            r == DubCodec::of_token(s@),
    {
        let t = to_lower(&text::trim_chars(&text::chars_of(s)));
        if same_text(t.as_str(), "ac3") {
            DubCodec::Ac3
        } else if same_text(t.as_str(), "eac3") {
            DubCodec::Eac3
        } else if same_text(t.as_str(), "aac") {
            DubCodec::Aac
        } else {
            DubCodec::Flac
        }
    }
}

/// Reading back a codec's token gives the codec.
pub proof fn law_token_round_trip(codec: DubCodec)
    ensures
        DubCodec::of_token(codec.name()) == codec,
{
    reveal_strlit("ac3");
    reveal_strlit("eac3");
    reveal_strlit("aac");
    reveal_strlit("flac");
    let s = codec.name();
    text::lemma_trim_id(s);
    assert(ascii_lower(s) =~= s);
    assert("flac"@[0] != "ac3"@[0]);
    assert("flac"@[0] != "aac"@[0]);
    assert("eac3"@[0] != "ac3"@[0]);
    assert("ac3"@[1] != "aac"@[1]);
}

/// What to do about the frame rates of master and donor. A forced ratio is in
/// billionths.
#[derive(Clone, Copy, Debug, PartialEq, Eq, Structural)]
pub enum FpsMode {
    /// Probe both files, and stretch the donor if their rates differ.
    Auto,
    /// Never stretch.
    Disabled,
    /// Take the donor's rate to be this many billionths of the master's.
    Forced(i64),
}

impl FpsMode {
    pub fn is_disabled(self) -> (r: bool)
        ensures
            r == (self == FpsMode::Disabled),
    {
        match self {
            FpsMode::Disabled => true,
            _ => false,
        }
    }

    pub open spec fn ratio(self) -> Option<i64> {
        match self {
            FpsMode::Forced(r) => Some(r),
            _ => None,
        }
    }

    /// The ratio in `Forced` mode.
    pub fn forced_ratio(self) -> (r: Option<i64>)
        ensures
            r == self.ratio(),
    {
        match self {
            FpsMode::Forced(r) => Some(r),
            _ => None,
        }
    }
}

pub open spec fn fps_mode_of(disable: bool, force_ratio: Option<i64>) -> FpsMode {
    if disable {
        FpsMode::Disabled
    } else {
        match force_ratio {
            Some(r) => FpsMode::Forced(r),
            None => FpsMode::Auto,
        }
    }
}

/// The policy that the two options ask for; disabling wins.
pub fn resolve_fps_mode(disable: bool, force_ratio: Option<i64>) -> (r: FpsMode)
    ensures
        r == fps_mode_of(disable, force_ratio),
{
    if disable {
        FpsMode::Disabled
    } else if let Some(r) = force_ratio {
        FpsMode::Forced(r)
    } else {
        FpsMode::Auto
    }
}

/// The command line's options. Times are nanoseconds, levels millionths of a
/// decibel.
#[derive(Debug)]
pub struct Cli {
    pub master_file: Option<String>,
    pub donor_file: Option<String>,
    pub master_anchor_track: Option<u32>,
    pub donor_anchor_track: Option<u32>,
    pub donor_dub_tracks: Option<Vec<u32>>,
    pub output_file: Option<String>,
    pub keep_temp: bool,
    pub include_donor_anchor: bool,
    pub solo_dub: bool,
    pub temp_dir: Option<String>,
    pub threads: Option<usize>,
    pub verbose: bool,
    pub silence_udb: i64,
    pub silence_min_ms: u32,
    pub anchor_rate: u32,
    pub correlation_window_ns: i64,
    pub max_drift_ns: i64,
    pub max_segment_jump_ns: i64,
    pub snap_radius_ns: i64,
    pub crossfade_ms: u32,
    pub smooth_gaps: bool,
    pub gap_fill_margin_ns: i64,
    pub speech_udb: i64,
    pub pal_pitch_correction: bool,
    pub disable_fps_normalize: bool,
    /// In billionths.
    pub force_fps_ratio: Option<i64>,
    pub no_master_subs: bool,
    pub include_donor_forced_subs: bool,
    pub include_donor_subs: Option<Vec<u32>>,
    pub anchor_only_validation: bool,
    pub report: Option<String>,
    pub dub_codec: DubCodec,
    pub dub_bitrate: Option<u32>,
}

impl Default for Cli {
    /// The options when nothing is given.
    fn default() -> (r: Self)
        ensures
            r.is_default(),
    {
        Cli {
            master_file: None,
            donor_file: None,
            master_anchor_track: None,
            donor_anchor_track: None,
            donor_dub_tracks: None,
            output_file: None,
            keep_temp: false,
            include_donor_anchor: false,
            solo_dub: false,
            temp_dir: None,
            threads: None,
            verbose: false,
            silence_udb: -45_000_000,
            silence_min_ms: 200,
            anchor_rate: 16_000,
            correlation_window_ns: 30_000_000_000,
            max_drift_ns: 60_000_000_000,
            max_segment_jump_ns: 10_000_000_000,
            snap_radius_ns: 30_000_000_000,
            crossfade_ms: 10,
            smooth_gaps: false,
            gap_fill_margin_ns: 500_000_000,
            speech_udb: -25_000_000,
            pal_pitch_correction: false,
            disable_fps_normalize: false,
            force_fps_ratio: None,
            no_master_subs: false,
            include_donor_forced_subs: false,
            include_donor_subs: None,
            anchor_only_validation: false,
            report: None,
            dub_codec: DubCodec::Eac3,
            dub_bitrate: None,
        }
    }
}

impl Cli {
    /// Nothing but defaults.
    pub open spec fn is_default(&self) -> bool {
        &&& self.wants_prompt()
        &&& !self.keep_temp && !self.include_donor_anchor && !self.solo_dub && !self.verbose
        &&& self.temp_dir is None && self.threads is None && self.report is None
        &&& self.silence_udb == -45_000_000
        &&& self.silence_min_ms == 200
        &&& self.anchor_rate == 16_000
        &&& self.correlation_window_ns == 30_000_000_000
        &&& self.max_drift_ns == 60_000_000_000
        &&& self.max_segment_jump_ns == 10_000_000_000
        &&& self.snap_radius_ns == 30_000_000_000
        &&& self.crossfade_ms == 10
        &&& !self.smooth_gaps
        &&& self.gap_fill_margin_ns == 500_000_000
        &&& self.speech_udb == -25_000_000
        &&& !self.pal_pitch_correction && !self.disable_fps_normalize
        &&& self.force_fps_ratio is None
        &&& !self.no_master_subs && !self.include_donor_forced_subs
        &&& self.include_donor_subs is None
        &&& !self.anchor_only_validation
        &&& self.dub_codec == DubCodec::Eac3
        &&& self.dub_bitrate is None
    }

    pub open spec fn wants_prompt(&self) -> bool {
        &&& self.master_file is None
        &&& self.donor_file is None
        &&& self.master_anchor_track is None
        &&& self.donor_anchor_track is None
        &&& self.donor_dub_tracks is None
        &&& self.output_file is None
    }

    /// True if no file and no track was given: the user is then asked.
    pub fn needs_interactive(&self) -> (r: bool)
        ensures
            r == self.wants_prompt(),
    {
        self.master_file.is_none() && self.donor_file.is_none()
            && self.master_anchor_track.is_none() && self.donor_anchor_track.is_none()
            && self.donor_dub_tracks.is_none() && self.output_file.is_none()
    }
}

/// How much a gap may be stretched to fill it, in millionths.
pub const GAP_FILL_MAX_RATIO_PPM: i64 = 1_200_000;

/// The fades around a silence that is left in a gap.
pub const GAP_FILL_SILENCE_FADE_MS: u32 = 100;

/// The configuration of a run, from the command line, the prompts or the
/// graphical interface.
#[derive(Clone, Debug)]
pub struct RunConfig {
    pub master_file: String,
    pub donor_file: String,
    pub master_anchor_track: u32,
    pub donor_anchor_track: u32,
    pub donor_dub_tracks: Vec<u32>,
    pub output_file: String,
    pub keep_temp: bool,
    pub include_donor_anchor: bool,
    pub solo_dub: bool,
    pub temp_dir: Option<String>,
    pub threads: Option<usize>,
    pub silence_udb: i64,
    pub silence_min_ms: u32,
    pub anchor_rate: u32,
    pub correlation_window_ns: i64,
    pub max_drift_ns: i64,
    pub max_segment_jump_ns: i64,
    pub snap_radius_ns: i64,
    pub crossfade_ms: u32,
    pub smooth_gaps: bool,
    pub gap_fill_margin_ns: i64,
    pub gap_fill_max_ratio_ppm: i64,
    pub gap_fill_silence_fade_ms: u32,
    pub speech_udb: i64,
    pub pal_pitch_correction: bool,
    pub anchor_only_validation: bool,
    pub report_path: Option<String>,
    pub dub_codec: DubCodec,
    pub dub_bitrate_kbps: Option<u32>,
    pub fps_mode: FpsMode,
    pub keep_master_subs: bool,
    pub include_donor_forced_subs: bool,
    pub donor_subs_explicit: Vec<u32>,
}

/// The files and tracks of a run.
#[derive(Clone, Debug)]
pub struct Selection {
    pub master_file: String,
    pub donor_file: String,
    pub master_anchor_track: u32,
    pub donor_anchor_track: u32,
    pub donor_dub_tracks: Vec<u32>,
    pub output_file: String,
}

/// A list that may be missing, as a list.
pub open spec fn list_of(v: Option<Vec<u32>>) -> Seq<u32> {
    match v {
        Some(l) => l@,
        None => Seq::empty(),
    }
}

impl RunConfig {
    /// The files and tracks are those selected.
    pub open spec fn selects(&self, sel: Selection) -> bool {
        &&& self.master_file@ == sel.master_file@
        &&& self.donor_file@ == sel.donor_file@
        &&& self.master_anchor_track == sel.master_anchor_track
        &&& self.donor_anchor_track == sel.donor_anchor_track
        &&& self.donor_dub_tracks@ == sel.donor_dub_tracks@
        &&& self.output_file@ == sel.output_file@
    }

    /// Everything else is as the options say.
    pub open spec fn follows(&self, args: Cli) -> bool {
        &&& self.keep_temp == args.keep_temp
        &&& self.include_donor_anchor == args.include_donor_anchor
        &&& self.solo_dub == args.solo_dub
        &&& args::opt_view(self.temp_dir) == args::opt_view(args.temp_dir)
        &&& self.threads == args.threads
        &&& self.silence_udb == args.silence_udb
        &&& self.silence_min_ms == args.silence_min_ms
        &&& self.anchor_rate == args.anchor_rate
        &&& self.correlation_window_ns == args.correlation_window_ns
        &&& self.max_drift_ns == args.max_drift_ns
        &&& self.max_segment_jump_ns == args.max_segment_jump_ns
        &&& self.snap_radius_ns == args.snap_radius_ns
        &&& self.crossfade_ms == args.crossfade_ms
        &&& self.smooth_gaps == args.smooth_gaps
        &&& self.gap_fill_margin_ns == args.gap_fill_margin_ns
        &&& self.gap_fill_max_ratio_ppm == GAP_FILL_MAX_RATIO_PPM
        &&& self.gap_fill_silence_fade_ms == GAP_FILL_SILENCE_FADE_MS
        &&& self.speech_udb == args.speech_udb
        &&& self.pal_pitch_correction == args.pal_pitch_correction
        &&& self.anchor_only_validation == args.anchor_only_validation
        &&& args::opt_view(self.report_path) == args::opt_view(args.report)
        &&& self.dub_codec == args.dub_codec
        &&& self.dub_bitrate_kbps == args.dub_bitrate
        &&& self.fps_mode == fps_mode_of(args.disable_fps_normalize, args.force_fps_ratio)
        &&& self.keep_master_subs == !args.no_master_subs
        &&& self.include_donor_forced_subs == args.include_donor_forced_subs
        &&& self.donor_subs_explicit@ == list_of(args.include_donor_subs)
    }
}

/// A copy of a list.
pub fn copy_list(v: &Vec<u32>) -> (r: Vec<u32>)
    ensures
        r@ == v@,
{
    let mut r: Vec<u32> = Vec::new();
    let mut i: usize = 0;
    while i < v.len()
        invariant
            i <= v@.len(),
            r@ == v@.take(i as int),
        decreases v@.len() - i,
    {
        r.push(v[i]);
        i += 1;
    }
    assert(v@.take(i as int) =~= v@);
    r
}

/// A copy of a text that may be missing.
pub fn copy_opt(s: &Option<String>) -> (r: Option<String>)
    ensures
        args::opt_view(r) == args::opt_view(*s),
{
    match s {
        Some(t) => Some(String::from_str(t.as_str())),
        None => None,
    }
}

/// The configuration for what was selected, with the options of the command
/// line.
pub fn configure(sel: Selection, args: &Cli) -> (r: RunConfig)
    ensures
        r.selects(sel),
        r.follows(*args),
{
    let donor_subs_explicit = match &args.include_donor_subs {
        Some(l) => copy_list(l),
        None => Vec::new(),
    };
    RunConfig {
        master_file: sel.master_file,
        donor_file: sel.donor_file,
        master_anchor_track: sel.master_anchor_track,
        donor_anchor_track: sel.donor_anchor_track,
        donor_dub_tracks: sel.donor_dub_tracks,
        output_file: sel.output_file,
        keep_temp: args.keep_temp,
        include_donor_anchor: args.include_donor_anchor,
        solo_dub: args.solo_dub,
        temp_dir: copy_opt(&args.temp_dir),
        threads: args.threads,
        silence_udb: args.silence_udb,
        silence_min_ms: args.silence_min_ms,
        anchor_rate: args.anchor_rate,
        correlation_window_ns: args.correlation_window_ns,
        max_drift_ns: args.max_drift_ns,
        max_segment_jump_ns: args.max_segment_jump_ns,
        snap_radius_ns: args.snap_radius_ns,
        crossfade_ms: args.crossfade_ms,
        smooth_gaps: args.smooth_gaps,
        gap_fill_margin_ns: args.gap_fill_margin_ns,
        gap_fill_max_ratio_ppm: GAP_FILL_MAX_RATIO_PPM,
        gap_fill_silence_fade_ms: GAP_FILL_SILENCE_FADE_MS,
        speech_udb: args.speech_udb,
        pal_pitch_correction: args.pal_pitch_correction,
        anchor_only_validation: args.anchor_only_validation,
        report_path: copy_opt(&args.report),
        dub_codec: args.dub_codec,
        dub_bitrate_kbps: args.dub_bitrate,
        fps_mode: resolve_fps_mode(args.disable_fps_normalize, args.force_fps_ratio),
        keep_master_subs: !args.no_master_subs,
        include_donor_forced_subs: args.include_donor_forced_subs,
        donor_subs_explicit,
    }
}

/// What is wrong with the options.
#[derive(Clone, Copy, Debug, PartialEq, Eq, Structural)]
pub enum MissingOption {
    MasterFile,
    DonorFile,
    MasterAnchorTrack,
    DonorAnchorTrack,
    DonorDubTracks,
    /// The list of dub tracks is there, but empty.
    EmptyDubTracks,
    OutputFile,
}

impl MissingOption {
    pub open spec fn text(self) -> Seq<char> {
        match self {
            MissingOption::MasterFile => "--master-file is required"@,
            MissingOption::DonorFile => "--donor-file is required"@,
            MissingOption::MasterAnchorTrack => "--master-anchor-track is required"@,
            MissingOption::DonorAnchorTrack => "--donor-anchor-track is required"@,
            MissingOption::DonorDubTracks => "--donor-dub-tracks is required"@,
            MissingOption::EmptyDubTracks => "--donor-dub-tracks must list at least one index"@,
            MissingOption::OutputFile => "--output-file is required"@,
        }
    }

    pub fn message(&self) -> (r: &'static str)
        ensures
            r@ == self.text(),
    {
        match self {
            MissingOption::MasterFile => "--master-file is required",
            MissingOption::DonorFile => "--donor-file is required",
            MissingOption::MasterAnchorTrack => "--master-anchor-track is required",
            MissingOption::DonorAnchorTrack => "--donor-anchor-track is required",
            MissingOption::DonorDubTracks => "--donor-dub-tracks is required",
            MissingOption::EmptyDubTracks => "--donor-dub-tracks must list at least one index",
            MissingOption::OutputFile => "--output-file is required",
        }
    }
}

/// The first thing that the options lack. The dub tracks are not asked for
/// when only the donor anchor is synced.
pub open spec fn missing_of(args: Cli) -> Option<MissingOption> {
    if args.master_file is None {
        Some(MissingOption::MasterFile)
    } else if args.donor_file is None {
        Some(MissingOption::DonorFile)
    } else if args.master_anchor_track is None {
        Some(MissingOption::MasterAnchorTrack)
    } else if args.donor_anchor_track is None {
        Some(MissingOption::DonorAnchorTrack)
    } else if !args.anchor_only_validation && args.donor_dub_tracks is None {
        Some(MissingOption::DonorDubTracks)
    } else if !args.anchor_only_validation && list_of(args.donor_dub_tracks).len() == 0 {
        Some(MissingOption::EmptyDubTracks)
    } else if args.output_file is None {
        Some(MissingOption::OutputFile)
    } else {
        None
    }
}

/// What complete options select.
pub open spec fn is_selection(args: Cli, sel: Selection) -> bool {
    &&& Some(sel.master_file@) == args::opt_view(args.master_file)
    &&& Some(sel.donor_file@) == args::opt_view(args.donor_file)
    &&& Some(sel.master_anchor_track) == args.master_anchor_track
    &&& Some(sel.donor_anchor_track) == args.donor_anchor_track
    &&& sel.donor_dub_tracks@ == if args.anchor_only_validation {
        seq![sel.donor_anchor_track]
    } else {
        list_of(args.donor_dub_tracks)
    }
    &&& Some(sel.output_file@) == args::opt_view(args.output_file)
}

/// The files and tracks that the options name.
pub fn select_from_cli(args: &Cli) -> (r: Result<Selection, MissingOption>)
    ensures
        match r {
            Ok(sel) => missing_of(*args) is None && is_selection(*args, sel),
            Err(e) => missing_of(*args) == Some(e),
        },
{
    let master_file = match &args.master_file {
        Some(f) => String::from_str(f.as_str()),
        None => {
            return Err(MissingOption::MasterFile);
        },
    };
    let donor_file = match &args.donor_file {
        Some(f) => String::from_str(f.as_str()),
        None => {
            return Err(MissingOption::DonorFile);
        },
    };
    let master_anchor_track: u32 = match args.master_anchor_track {
        Some(t) => t,
        None => {
            return Err(MissingOption::MasterAnchorTrack);
        },
    };
    let donor_anchor_track: u32 = match args.donor_anchor_track {
        Some(t) => t,
        None => {
            return Err(MissingOption::DonorAnchorTrack);
        },
    };
    let donor_dub_tracks = if args.anchor_only_validation {
        let only = vec![donor_anchor_track];
        assert(only@ =~= seq![donor_anchor_track]);
        only
    } else {
        match &args.donor_dub_tracks {
            Some(t) => {
                if t.len() == 0 {
                    return Err(MissingOption::EmptyDubTracks);
                }
                copy_list(t)
            },
            None => {
                return Err(MissingOption::DonorDubTracks);
            },
        }
    };
    let output_file = match &args.output_file {
        Some(f) => String::from_str(f.as_str()),
        None => {
            return Err(MissingOption::OutputFile);
        },
    };
    Ok(
        Selection {
            master_file,
            donor_file,
            master_anchor_track,
            donor_anchor_track,
            donor_dub_tracks,
            output_file,
        },
    )
}

/// The first of the selected files that is missing, in words.
pub fn check_files(sel: &Selection, master_exists: bool, donor_exists: bool) -> (r: Result<
    (),
    String,
>)
    ensures
        match r {
            Ok(()) => master_exists && donor_exists,
            Err(e) => if !master_exists {
                e@ == "master file does not exist: "@ + sel.master_file@
            } else {
                !donor_exists && e@ == "donor file does not exist: "@ + sel.donor_file@
            },
        },
{
    if !master_exists {
        return Err(args::joined("master file does not exist: ", sel.master_file.as_str()));
    }
    if !donor_exists {
        return Err(args::joined("donor file does not exist: ", sel.donor_file.as_str()));
    }
    Ok(())
}

/// The first requested track that a file does not have.
pub open spec fn first_absent(
    master: Seq<u32>,
    donor: Seq<u32>,
    sel: Selection,
) -> Option<(u32, Seq<u32>)> {
    if !master.contains(sel.master_anchor_track) {
        Some((sel.master_anchor_track, master))
    } else if !donor.contains(sel.donor_anchor_track) {
        Some((sel.donor_anchor_track, donor))
    } else {
        match ffprobe::first_missing(donor, sel.donor_dub_tracks@) {
            Some(t) => Some((t, donor)),
            None => None,
        }
    }
}

/// Checks that both files have the selected tracks: the master's anchor first,
/// then the donor's, then the dubs in their order.
pub fn check_tracks(
    sel: &Selection,
    master: &Vec<AudioStream>,
    donor: &Vec<AudioStream>,
) -> (r: Result<(), DubsyncError>)
    ensures
        match r {
            Ok(()) => first_absent(ffprobe::indices(master@), ffprobe::indices(donor@), *sel)
                is None,
            Err(e) => match e {
                DubsyncError::InvalidStreamIndex { index, available } => first_absent(
                    ffprobe::indices(master@),
                    ffprobe::indices(donor@),
                    *sel,
                ) == Some((index, available@)),
                _ => false,
            },
        },
{
    let master_anchor = vec![sel.master_anchor_track];
    let donor_anchor = vec![sel.donor_anchor_track];
    proof {
        reveal_with_fuel(ffprobe::first_missing, 2);
    }
    ensure_indices_exist(master, &master_anchor)?;
    ensure_indices_exist(donor, &donor_anchor)?;
    ensure_indices_exist(donor, &sel.donor_dub_tracks)
}

/// Resolves the command line once its files have been looked at: which of them
/// exist, and what audio streams they have.
pub fn resolve_from_cli(
    args: &Cli,
    sel: Selection,
    master: &Vec<AudioStream>,
    donor: &Vec<AudioStream>,
) -> (r: Result<RunConfig, DubsyncError>)
    ensures
        match r {
            Ok(c) => {
                &&& first_absent(ffprobe::indices(master@), ffprobe::indices(donor@), sel) is None
                &&& c.selects(sel)
                &&& c.follows(*args)
            },
            Err(e) => match e {
                DubsyncError::InvalidStreamIndex { index, available } => first_absent(
                    ffprobe::indices(master@),
                    ffprobe::indices(donor@),
                    sel,
                ) == Some((index, available@)),
                _ => false,
            },
        },
{
    match check_tracks(&sel, master, donor) {
        Ok(()) => Ok(configure(sel, args)),
        Err(e) => Err(e),
    }
}

/// What the codecs can carry, and the bitrates that are usual for them: more
/// for more than two channels, and none for the lossless one.
pub proof fn law_codecs(channels: u32)
    ensures
        DubCodec::Flac.channel_limit() == 8 && DubCodec::Aac.channel_limit() == 8,
        DubCodec::Ac3.channel_limit() == 6 && DubCodec::Eac3.channel_limit() == 6,
        DubCodec::Flac.usual_bitrate(channels) is None,
        channels <= 2 ==> DubCodec::Ac3.usual_bitrate(channels) == Some(448u32)
            && DubCodec::Eac3.usual_bitrate(channels) == Some(256u32) && DubCodec::Aac.usual_bitrate(
            channels,
        ) == Some(192u32),
        channels > 2 ==> DubCodec::Ac3.usual_bitrate(channels) == Some(640u32)
            && DubCodec::Eac3.usual_bitrate(channels) == Some(640u32) && DubCodec::Aac.usual_bitrate(
            channels,
        ) == Some(384u32),
{
}

/// Disabling wins over a forced ratio; without either the rates decide.
pub proof fn law_fps_policy(disable: bool, force_ratio: Option<i64>)
    ensures
        disable ==> fps_mode_of(disable, force_ratio) == FpsMode::Disabled,
        !disable && force_ratio is Some ==> fps_mode_of(disable, force_ratio).ratio()
            == force_ratio,
        !disable && force_ratio is None ==> fps_mode_of(disable, force_ratio) == FpsMode::Auto,
        FpsMode::Auto.ratio() is None && FpsMode::Disabled.ratio() is None,
{
}

/// Nothing is missing if and only if both files, both anchors and the output
/// are given, and at least one dub unless only the anchor is validated.
pub proof fn law_what_is_required(args: Cli)
    ensures
        missing_of(args) is None <==> args.master_file is Some && args.donor_file is Some
            && args.master_anchor_track is Some && args.donor_anchor_track is Some
            && args.output_file is Some && (args.anchor_only_validation || (
        args.donor_dub_tracks is Some && args.donor_dub_tracks->0@.len() > 0)),
{
}

/// A selection is refused if and only if a track that it names does not exist,
/// and the one that is named is one of those.
pub proof fn law_absent_tracks(master: Seq<u32>, donor: Seq<u32>, sel: Selection)
    ensures
        first_absent(master, donor, sel) is None <==> master.contains(sel.master_anchor_track)
            && donor.contains(sel.donor_anchor_track) && forall|k: int|
            0 <= k < sel.donor_dub_tracks@.len() ==> donor.contains(
                #[trigger] sel.donor_dub_tracks@[k],
            ),
        first_absent(master, donor, sel) matches Some((t, streams)) ==> !streams.contains(t) && (
        streams == master || streams == donor),
{
    ffprobe::law_first_missing(donor, sel.donor_dub_tracks@);
    lemma_missing_is_missing(donor, sel.donor_dub_tracks@);
}

proof fn lemma_missing_is_missing(available: Seq<u32>, requested: Seq<u32>)
    ensures
        ffprobe::first_missing(available, requested) matches Some(t) ==> !available.contains(t)
            && requested.contains(t),
    decreases requested.len(),
{
    if requested.len() > 0 {
        lemma_missing_is_missing(available, requested.skip(1));
        if let Some(t) = ffprobe::first_missing(available, requested.skip(1)) {
            if available.contains(requested[0]) {
                let k = choose|k: int|
                    0 <= k < requested.skip(1).len() && requested.skip(1)[k] == t;
                assert(requested[k + 1] == t);
            }
        }
    }
}

/// What holds where nothing is given.
pub proof fn law_defaults(c: Cli)
    requires
        c.is_default(),
    ensures
        c.silence_udb == -45_000_000 && c.silence_min_ms == 200 && c.speech_udb == -25_000_000,
        c.anchor_rate == 16_000,
        c.correlation_window_ns == 30_000_000_000 && c.max_drift_ns == 60_000_000_000,
        c.max_segment_jump_ns == 10_000_000_000 && c.snap_radius_ns == 30_000_000_000,
        c.crossfade_ms == 10 && c.gap_fill_margin_ns == 500_000_000,
        !c.smooth_gaps && !c.pal_pitch_correction && !c.anchor_only_validation,
        !c.keep_temp && !c.include_donor_anchor && !c.solo_dub && !c.verbose,
        !c.no_master_subs && !c.include_donor_forced_subs && c.include_donor_subs is None,
        c.dub_codec == DubCodec::Eac3 && c.dub_bitrate is None,
        !c.disable_fps_normalize && c.force_fps_ratio is None,
        c.report is None && c.temp_dir is None && c.threads is None,
        c.master_file is None && c.donor_file is None && c.output_file is None,
        c.master_anchor_track is None && c.donor_anchor_track is None,
        c.donor_dub_tracks is None,
{
}

} // verus!
