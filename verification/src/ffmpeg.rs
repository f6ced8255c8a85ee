//! Invocations of `ffmpeg`: extraction of tracks and the final remux.
use vstd::prelude::*;
use crate::args;
use crate::args::{joined, number_text, push_arg, push_numbered, push_pair};
use crate::cli::DubCodec;
use crate::error::DubsyncError;
use crate::ffprobe::same_text;
use crate::number;
use crate::sync::applier::SyncedDub;
use crate::text;

verus! {

/// Where the extracted anchors are.
#[derive(Clone, Debug)]
pub struct ExtractedAnchors {
    pub master_anchor_wav: String,
    pub donor_anchor_wav: String,
}

/// An extracted dub.
#[derive(Clone, Debug)]
pub struct ExtractedDub {
    pub donor_index: u32,
    pub wav: String,
}

/// A donor subtitle stream as SubRip text, not yet shifted.
#[derive(Clone, Debug)]
pub struct ExtractedDonorSub {
    pub donor_index: u32,
    pub srt_path: String,
    pub language: Option<String>,
    pub title: Option<String>,
    pub forced: bool,
    pub default: bool,
}

/// A synced dub with the tags of its donor stream.
#[derive(Clone, Debug)]
pub struct DubForRemux<'a> {
    pub synced: &'a SyncedDub,
    pub language: Option<String>,
    pub title: Option<String>,
}

/// A donor subtitle stream, shifted to master time.
#[derive(Clone, Debug)]
pub struct DonorSyncedSub {
    pub srt_path: String,
    pub language: Option<String>,
    pub title: Option<String>,
    pub forced: bool,
    pub default: bool,
}

/// What every invocation starts with: no input from the terminal, errors only,
/// and existing files are overwritten.
pub open spec fn common() -> Seq<Seq<char>> {
    seq!["-nostdin"@, "-hide_banner"@, "-loglevel"@, "error"@, "-y"@]
}

fn common_args() -> (r: Vec<String>)
    ensures
        args::views(r@) == common(),
{
    let mut r: Vec<String> = Vec::new();
    push_pair(&mut r, "-nostdin", "-hide_banner");
    push_pair(&mut r, "-loglevel", "error");
    push_arg(&mut r, "-y");
    assert(args::views(r@) =~= common());
    r
}

/// Stream `index` of the first input.
pub open spec fn stream(index: u32) -> Seq<char> {
    "0:"@ + text::decimal(index as nat) + ""@
}

/// Takes one stream of a file, and no video.
pub open spec fn source(src: Seq<char>, index: u32) -> Seq<Seq<char>> {
    common() + seq!["-i"@, src] + seq!["-map"@, stream(index)] + seq!["-vn"@]
}

fn source_args(src: &str, stream_index: u32) -> (r: Vec<String>)
    ensures
        args::views(r@) == source(src@, stream_index),
{
    let mut r = common_args();
    push_pair(&mut r, "-i", src);
    let s = number_text("0:", stream_index as u64, "");
    push_pair(&mut r, "-map", s.as_str());
    push_arg(&mut r, "-vn");
    assert(args::views(r@) =~= source(src@, stream_index));
    r
}

/// Float samples in a WAV file.
pub open spec fn wav_target(out: Seq<char>) -> Seq<Seq<char>> {
    seq!["-c:a"@, "pcm_f32le"@, "-f"@, "wav"@, out]
}

fn push_wav_target(r: &mut Vec<String>, out: &str)
    ensures
        args::views(final(r)@) == args::views(old(r)@) + wav_target(out@),
{
    let ghost before = args::views(r@);
    push_pair(r, "-c:a", "pcm_f32le");
    push_pair(r, "-f", "wav");
    push_arg(r, out);
    assert(args::views(r@) =~= before + wav_target(out@));
}

/// The arguments that extract a stream as one mono float WAV at a rate.
pub open spec fn anchor_arguments(
    src: Seq<char>,
    index: u32,
    rate: u32,
    out: Seq<char>,
) -> Seq<Seq<char>> {
    source(src, index) + seq!["-sn"@, "-dn"@] + seq!["-ac"@, "1"@] + seq![
        "-ar"@,
        text::decimal(rate as nat),
    ] + wav_target(out)
}

/// The arguments that extract a stream as float WAV.
pub open spec fn dub_arguments(src: Seq<char>, index: u32, out: Seq<char>) -> Seq<Seq<char>> {
    source(src, index) + seq!["-sn"@, "-dn"@] + wav_target(out)
}

/// The arguments that extract a subtitle stream as SubRip text.
pub open spec fn subtitle_arguments(src: Seq<char>, index: u32, out: Seq<char>) -> Seq<Seq<char>> {
    source(src, index) + seq!["-an"@, "-dn"@] + seq!["-c:s"@, "srt"@] + seq![out]
}

/// The arguments that extract a stream as one mono float WAV at `anchor_rate`.
pub fn extract_anchor(src: &str, stream_index: u32, anchor_rate: u32, out: &str) -> (r: Vec<String>)
    ensures
        args::views(r@) == anchor_arguments(src@, stream_index, anchor_rate, out@),
{
    let mut r = source_args(src, stream_index);
    push_pair(&mut r, "-sn", "-dn");
    push_pair(&mut r, "-ac", "1");
    let mut rate = String::new();
    text::push_decimal(&mut rate, anchor_rate as u64);
    assert(rate@ =~= text::decimal(anchor_rate as nat));
    push_pair(&mut r, "-ar", rate.as_str());
    push_wav_target(&mut r, out);
    r
}

/// The arguments that extract a stream as float WAV with the rate and channels
/// that it has.
pub fn extract_dub(src: &str, stream_index: u32, out: &str) -> (r: Vec<String>)
    ensures
        args::views(r@) == dub_arguments(src@, stream_index, out@),
{
    let mut r = source_args(src, stream_index);
    push_pair(&mut r, "-sn", "-dn");
    push_wav_target(&mut r, out);
    r
}

/// The arguments that extract a subtitle stream as SubRip text.
pub fn extract_subtitle(src: &str, stream_index: u32, out_srt: &str) -> (r: Vec<String>)
    ensures
        args::views(r@) == subtitle_arguments(src@, stream_index, out_srt@),
{
    let mut r = source_args(src, stream_index);
    push_pair(&mut r, "-an", "-dn");
    push_pair(&mut r, "-c:s", "srt");
    let ghost before = args::views(r@);
    push_arg(&mut r, out_srt);
    assert(args::views(r@) =~= before + seq![out_srt@]);
    r
}

/// What an exit of ffmpeg means.
pub fn exit_outcome(success: bool, stderr: String) -> (r: Result<(), DubsyncError>)
    ensures
        match r {
            Ok(()) => success,
            Err(e) => !success && e == (DubsyncError::FfmpegFailed { stderr }),
        },
{
    if success {
        Ok(())
    } else {
        Err(DubsyncError::FfmpegFailed { stderr })
    }
}

/// Everything that goes into the final file.
pub struct RemuxJob<'a> {
    pub master_file: &'a str,
    /// The master's own audio to keep, if any.
    pub master_anchor_track: Option<u32>,
    pub master_anchor_lang: Option<&'a str>,
    pub synced: &'a Vec<DubForRemux<'a>>,
    pub output: &'a str,
    /// Ask for progress on standard output.
    pub progress: bool,
    pub dub_codec: DubCodec,
    /// One for each dub.
    pub bitrate_per_dub_kbps: &'a Vec<Option<u32>>,
    pub keep_master_subs: bool,
    /// How many subtitle streams the master has; not looked at when they are
    /// dropped.
    pub master_sub_streams: usize,
    pub donor_synced_subs: &'a Vec<DonorSyncedSub>,
}

impl<'a> RemuxJob<'a> {
    /// How many subtitle streams of the master are kept.
    pub open spec fn master_subs(&self) -> nat {
        if self.keep_master_subs {
            self.master_sub_streams as nat
        } else {
            0
        }
    }

    /// The first audio stream that is a dub.
    pub open spec fn first_dub(&self) -> nat {
        if self.master_anchor_track is Some {
            1
        } else {
            0
        }
    }

    pub open spec fn wf(&self) -> bool {
        &&& self.bitrate_per_dub_kbps@.len() == self.synced@.len()
        &&& self.master_sub_streams + self.donor_synced_subs@.len() + self.synced@.len()
            < 0xffff_ffff
    }

    /// One input for each dub.
    pub open spec fn dub_inputs(&self) -> spec_fn(int) -> Seq<Seq<char>> {
        |i: int| seq!["-i"@, self.synced@[i].synced.wav@]
    }

    /// One input for each donor subtitle stream.
    pub open spec fn sub_inputs(&self) -> spec_fn(int) -> Seq<Seq<char>> {
        |i: int| seq!["-i"@, self.donor_synced_subs@[i].srt_path@]
    }

    /// The audio of the input of each dub.
    pub open spec fn dub_maps(&self) -> spec_fn(int) -> Seq<Seq<char>> {
        |i: int| seq!["-map"@, ""@ + text::decimal((i + 1) as nat) + ":a"@]
    }

    /// The stream of the input of each donor subtitle.
    pub open spec fn sub_maps(&self) -> spec_fn(int) -> Seq<Seq<char>> {
        |i: int|
            seq!["-map"@, ""@ + text::decimal((1 + self.synced@.len() + i) as nat) + ":0"@]
    }

    /// Codec and bitrate of each dub.
    pub open spec fn dub_codecs(&self) -> spec_fn(int) -> Seq<Seq<char>> {
        |i: int|
            {
                let n = text::decimal((self.first_dub() + i) as nat);
                seq!["-c:a:"@ + n, self.dub_codec.name()]
                    + match self.bitrate_per_dub_kbps@[i] {
                    Some(k) => seq!["-b:a:"@ + n, ""@ + text::decimal(k as nat) + "k"@],
                    None => Seq::empty(),
                }
            }
    }

    /// Subtitles are copied.
    pub open spec fn sub_codecs() -> spec_fn(int) -> Seq<Seq<char>> {
        |i: int| seq!["-c:s:"@ + text::decimal(i as nat), "copy"@]
    }

    /// Language, title and disposition of each dub. Without a master anchor the
    /// first dub is the default.
    pub open spec fn dub_tags(&self) -> spec_fn(int) -> Seq<Seq<char>> {
        |i: int|
            {
                let n = text::decimal((self.first_dub() + i) as nat);
                let d = self.synced@[i];
                (match d.language {
                    Some(l) => seq!["-metadata:s:a:"@ + n, "language="@ + l@],
                    None => Seq::empty(),
                }) + seq!["-metadata:s:a:"@ + n, "title="@ + dub_title(d)] + seq![
                    "-disposition:a:"@ + n,
                    if self.master_anchor_track is None && i == 0 {
                        "default"@
                    } else {
                        "0"@
                    },
                ]
            }
    }

    /// Language, title and disposition of each donor subtitle stream.
    pub open spec fn sub_tags(&self) -> spec_fn(int) -> Seq<Seq<char>> {
        |i: int|
            {
                let n = text::decimal((self.master_subs() + i) as nat);
                let s = self.donor_synced_subs@[i];
                (match s.language {
                    Some(l) => seq!["-metadata:s:s:"@ + n, "language="@ + l@],
                    None => Seq::empty(),
                }) + (match s.title {
                    Some(t) => seq!["-metadata:s:s:"@ + n, "title="@ + t@],
                    None => Seq::empty(),
                }) + seq!["-disposition:s:"@ + n, sub_disposition(s.forced, s.default)]
            }
    }

    /// The inputs: the master, the dubs, the donor subtitles.
    pub open spec fn inputs(&self) -> Seq<Seq<char>> {
        common() + (if self.progress {
            seq!["-progress"@, "pipe:1"@]
        } else {
            Seq::empty()
        }) + seq!["-i"@, self.master_file@] + args::flat(
            self.dub_inputs(),
            self.synced@.len() as int,
        ) + args::flat(self.sub_inputs(), self.donor_synced_subs@.len() as int)
    }

    /// The output streams: the master's video, the master anchor if it is kept,
    /// the dubs, the master's subtitles if they are kept, the donor subtitles.
    pub open spec fn maps(&self) -> Seq<Seq<char>> {
        seq!["-map"@, "0:v"@] + (match self.master_anchor_track {
            Some(t) => seq!["-map"@, stream(t)],
            None => Seq::empty(),
        }) + args::flat(self.dub_maps(), self.synced@.len() as int) + (if self.master_subs() > 0 {
            seq!["-map"@, "0:s"@]
        } else {
            Seq::empty()
        }) + args::flat(self.sub_maps(), self.donor_synced_subs@.len() as int)
    }

    /// Everything is copied but the dubs.
    pub open spec fn codecs(&self) -> Seq<Seq<char>> {
        seq!["-c:v"@, "copy"@] + (if self.master_anchor_track is Some {
            seq!["-c:a:0"@, "copy"@]
        } else {
            Seq::empty()
        }) + args::flat(self.dub_codecs(), self.synced@.len() as int) + args::flat(
            RemuxJob::sub_codecs(),
            (self.master_subs() + self.donor_synced_subs@.len()) as int,
        )
    }

    /// Tags and dispositions.
    pub open spec fn tags(&self) -> Seq<Seq<char>> {
        (if self.master_anchor_track is Some {
            (match self.master_anchor_lang {
                Some(l) => seq!["-metadata:s:a:0"@, "language="@ + l@],
                None => Seq::empty(),
            }) + seq!["-disposition:a:0"@, "default"@]
        } else {
            Seq::empty()
        }) + args::flat(self.dub_tags(), self.synced@.len() as int) + args::flat(
            self.sub_tags(),
            self.donor_synced_subs@.len() as int,
        )
    }

    /// The whole invocation. The interleaving limit of the muxer is lifted, so
    /// that sparse subtitles do not hold back the audio.
    pub open spec fn arguments(&self) -> Seq<Seq<char>> {
        self.inputs() + self.maps() + self.codecs() + self.tags() + seq![
            "-max_interleave_delta"@,
            "0"@,
        ] + seq![self.output@]
    }
}

/// The title of a dub: that of its donor stream, else one with its number.
pub open spec fn dub_title(d: DubForRemux) -> Seq<char> {
    match d.title {
        Some(t) => t@,
        None => "dubsync (track #"@ + text::decimal(d.synced.donor_index as nat) + ")"@,
    }
}

/// The disposition that a subtitle stream keeps.
pub open spec fn sub_disposition(forced: bool, default: bool) -> Seq<char> {
    if forced && default {
        "forced+default"@
    } else if forced {
        "forced"@
    } else if default {
        "default"@
    } else {
        "0"@
    }
}

fn remux_inputs(job: &RemuxJob) -> (r: Vec<String>)
    requires
        job.wf(),
    ensures
        args::views(r@) == job.inputs(),
{
    let mut r = common_args();
    let ghost start = args::views(r@);
    if job.progress {
        push_pair(&mut r, "-progress", "pipe:1");
    } else {
        assert(args::views(r@) =~= start + Seq::empty());
    }
    push_pair(&mut r, "-i", job.master_file);
    let ghost before = args::views(r@);
    let mut i: usize = 0;
    assert(before =~= before + args::flat(job.dub_inputs(), 0));
    while i < job.synced.len()
        invariant
            i <= job.synced@.len(),
            args::views(r@) == before + args::flat(job.dub_inputs(), i as int),
        decreases job.synced@.len() - i,
    {
        push_pair(&mut r, "-i", job.synced[i].synced.wav.as_str());
        i += 1;
        assert(args::views(r@) =~= before + args::flat(job.dub_inputs(), i as int));
    }
    let ghost before = args::views(r@);
    let mut i: usize = 0;
    assert(before =~= before + args::flat(job.sub_inputs(), 0));
    while i < job.donor_synced_subs.len()
        invariant
            i <= job.donor_synced_subs@.len(),
            args::views(r@) == before + args::flat(job.sub_inputs(), i as int),
        decreases job.donor_synced_subs@.len() - i,
    {
        push_pair(&mut r, "-i", job.donor_synced_subs[i].srt_path.as_str());
        i += 1;
        assert(args::views(r@) =~= before + args::flat(job.sub_inputs(), i as int));
    }
    r
}

fn remux_maps(r: &mut Vec<String>, job: &RemuxJob)
    requires
        job.wf(),
    ensures
        args::views(final(r)@) == args::views(old(r)@) + job.maps(),
{
    let ghost start = args::views(r@);
    push_pair(r, "-map", "0:v");
    match job.master_anchor_track {
        Some(t) => {
            let s = number_text("0:", t as u64, "");
            push_pair(r, "-map", s.as_str());
        },
        None => {},
    }
    let ghost before = args::views(r@);
    let mut i: usize = 0;
    assert(before =~= before + args::flat(job.dub_maps(), 0));
    while i < job.synced.len()
        invariant
            i <= job.synced@.len(),
            job.wf(),
            args::views(r@) == before + args::flat(job.dub_maps(), i as int),
        decreases job.synced@.len() - i,
    {
        let s = number_text("", (i + 1) as u64, ":a");
        push_pair(r, "-map", s.as_str());
        i += 1;
        assert(args::views(r@) =~= before + args::flat(job.dub_maps(), i as int));
    }
    let ghost dubs = args::views(r@);
    if job.keep_master_subs && job.master_sub_streams > 0 {
        push_pair(r, "-map", "0:s");
    }
    let ghost before_subs = args::views(r@);
    let first: usize = 1 + job.synced.len();
    let mut i: usize = 0;
    assert(before_subs =~= before_subs + args::flat(job.sub_maps(), 0));
    while i < job.donor_synced_subs.len()
        invariant
            i <= job.donor_synced_subs@.len(),
            job.wf(),
            first == 1 + job.synced@.len(),
            args::views(r@) == before_subs + args::flat(job.sub_maps(), i as int),
        decreases job.donor_synced_subs@.len() - i,
    {
        let s = number_text("", (first + i) as u64, ":0");
        push_pair(r, "-map", s.as_str());
        i += 1;
        assert(args::views(r@) =~= before_subs + args::flat(job.sub_maps(), i as int));
    }
    assert(args::views(r@) =~= start + job.maps());
}

fn remux_codecs(r: &mut Vec<String>, job: &RemuxJob)
    requires
        job.wf(),
    ensures
        args::views(final(r)@) == args::views(old(r)@) + job.codecs(),
{
    let ghost start = args::views(r@);
    push_pair(r, "-c:v", "copy");
    let mut first: usize = 0;
    if job.master_anchor_track.is_some() {
        push_pair(r, "-c:a:0", "copy");
        first = 1;
    }
    let ghost before = args::views(r@);
    let mut i: usize = 0;
    assert(before =~= before + args::flat(job.dub_codecs(), 0));
    while i < job.bitrate_per_dub_kbps.len()
        invariant
            i <= job.bitrate_per_dub_kbps@.len(),
            job.wf(),
            first == job.first_dub(),
            args::views(r@) == before + args::flat(job.dub_codecs(), i as int),
        decreases job.bitrate_per_dub_kbps@.len() - i,
    {
        let n: u64 = (first + i) as u64;
        push_numbered(r, "-c:a:", n, job.dub_codec.ffmpeg_name());
        match job.bitrate_per_dub_kbps[i] {
            Some(kbps) => {
                let k = number_text("", kbps as u64, "k");
                push_numbered(r, "-b:a:", n, k.as_str());
            },
            None => {},
        }
        i += 1;
        assert(args::views(r@) =~= before + args::flat(job.dub_codecs(), i as int));
    }
    let ghost before_subs = args::views(r@);
    let kept: usize = if job.keep_master_subs {
        job.master_sub_streams
    } else {
        0
    };
    let total: usize = kept + job.donor_synced_subs.len();
    let mut i: usize = 0;
    assert(before_subs =~= before_subs + args::flat(RemuxJob::sub_codecs(), 0));
    while i < total
        invariant
            i <= total,
            args::views(r@) == before_subs + args::flat(RemuxJob::sub_codecs(), i as int),
        decreases total - i,
    {
        push_numbered(r, "-c:s:", i as u64, "copy");
        i += 1;
        assert(args::views(r@) =~= before_subs + args::flat(RemuxJob::sub_codecs(), i as int));
    }
    assert(args::views(r@) =~= start + job.codecs());
}

fn push_dub_tags(r: &mut Vec<String>, job: &RemuxJob, i: usize, first: usize)
    requires
        job.wf(),
        i < job.synced@.len(),
        first == job.first_dub(),
    ensures
        args::views(final(r)@) == args::views(old(r)@) + (job.dub_tags())(i as int),
{
    let ghost before = args::views(r@);
    let d = &job.synced[i];
    let n: u64 = (first + i) as u64;
    match &d.language {
        Some(l) => {
            let v = joined("language=", l.as_str());
            push_numbered(r, "-metadata:s:a:", n, v.as_str());
        },
        None => {},
    }
    let title = match &d.title {
        Some(t) => joined("title=", t.as_str()),
        None => {
            let t = number_text("dubsync (track #", d.synced.donor_index as u64, ")");
            joined("title=", t.as_str())
        },
    };
    push_numbered(r, "-metadata:s:a:", n, title.as_str());
    if job.master_anchor_track.is_none() && i == 0 {
        push_numbered(r, "-disposition:a:", n, "default");
    } else {
        push_numbered(r, "-disposition:a:", n, "0");
    }
    assert(args::views(r@) =~= before + (job.dub_tags())(i as int));
}

fn push_sub_tags(r: &mut Vec<String>, job: &RemuxJob, i: usize, kept: usize)
    requires
        job.wf(),
        i < job.donor_synced_subs@.len(),
        kept == job.master_subs(),
    ensures
        args::views(final(r)@) == args::views(old(r)@) + (job.sub_tags())(i as int),
{
    let ghost before = args::views(r@);
    let s = &job.donor_synced_subs[i];
    let n: u64 = (kept + i) as u64;
    match &s.language {
        Some(l) => {
            let v = joined("language=", l.as_str());
            push_numbered(r, "-metadata:s:s:", n, v.as_str());
        },
        None => {},
    }
    match &s.title {
        Some(t) => {
            let v = joined("title=", t.as_str());
            push_numbered(r, "-metadata:s:s:", n, v.as_str());
        },
        None => {},
    }
    let disposition = if s.forced && s.default {
        "forced+default"
    } else if s.forced {
        "forced"
    } else if s.default {
        "default"
    } else {
        "0"
    };
    push_numbered(r, "-disposition:s:", n, disposition);
    assert(args::views(r@) =~= before + (job.sub_tags())(i as int));
}

fn remux_tags(r: &mut Vec<String>, job: &RemuxJob)
    requires
        job.wf(),
    ensures
        args::views(final(r)@) == args::views(old(r)@) + job.tags(),
{
    let ghost start = args::views(r@);
    let mut first: usize = 0;
    if job.master_anchor_track.is_some() {
        match job.master_anchor_lang {
            Some(l) => {
                let v = joined("language=", l);
                push_pair(r, "-metadata:s:a:0", v.as_str());
            },
            None => {},
        }
        push_pair(r, "-disposition:a:0", "default");
        first = 1;
    }
    let ghost before = args::views(r@);
    let mut i: usize = 0;
    assert(before =~= before + args::flat(job.dub_tags(), 0));
    while i < job.synced.len()
        invariant
            i <= job.synced@.len(),
            job.wf(),
            first == job.first_dub(),
            args::views(r@) == before + args::flat(job.dub_tags(), i as int),
        decreases job.synced@.len() - i,
    {
        push_dub_tags(r, job, i, first);
        i += 1;
        assert(args::views(r@) =~= before + args::flat(job.dub_tags(), i as int));
    }
    let ghost before_subs = args::views(r@);
    let kept: usize = if job.keep_master_subs {
        job.master_sub_streams
    } else {
        0
    };
    let mut i: usize = 0;
    assert(before_subs =~= before_subs + args::flat(job.sub_tags(), 0));
    while i < job.donor_synced_subs.len()
        invariant
            i <= job.donor_synced_subs@.len(),
            job.wf(),
            kept == job.master_subs(),
            args::views(r@) == before_subs + args::flat(job.sub_tags(), i as int),
        decreases job.donor_synced_subs@.len() - i,
    {
        push_sub_tags(r, job, i, kept);
        i += 1;
        assert(args::views(r@) =~= before_subs + args::flat(job.sub_tags(), i as int));
    }
    assert(args::views(r@) =~= start + job.tags());
}

/// The arguments that build the final file: the master's video, its anchor if
/// it is kept, every synced dub in the chosen codec, and the subtitles.
pub fn remux(job: &RemuxJob) -> (r: Vec<String>)
    requires
        job.wf(),
    ensures
        args::views(r@) == job.arguments(),
{
    let mut r = remux_inputs(job);
    remux_maps(&mut r, job);
    remux_codecs(&mut r, job);
    remux_tags(&mut r, job);
    push_pair(&mut r, "-max_interleave_delta", "0");
    let ghost before = args::views(r@);
    push_arg(&mut r, job.output);
    assert(args::views(r@) =~= before + seq![job.output@]);
    r
}

/// How far `us` microseconds are into `total_ns`, in millionths.
pub open spec fn fraction_of(us: int, total_ns: int) -> int {
    if total_ns < 0 || us == 0 {
        0
    } else if total_ns == 0 || us * 1_000_000_000 / total_ns > 1_000_000 {
        1_000_000
    } else {
        us * 1_000_000_000 / total_ns
    }
}

/// What a line of ffmpeg's progress output says, in millionths: the time that
/// has been written, or that it is done.
pub open spec fn progress_of(line: Seq<char>, total_ns: int) -> Option<int> {
    let key = "out_time_us="@;
    if text::occurs_at(line, key, 0) {
        match number::u64_of(text::trim(line.skip(key.len() as int))) {
            Ok(us) => Some(fraction_of(us as int, total_ns)),
            Err(_) => None,
        }
    } else if text::trim(line) == "progress=end"@ {
        Some(1_000_000)
    } else {
        None
    }
}

/// Reads a line of ffmpeg's progress output.
pub fn parse_progress(line: &str, total_ns: i64) -> (r: Option<u32>)
    ensures
        match r {
            Some(p) => progress_of(line@, total_ns as int) == Some(p as int),
            None => progress_of(line@, total_ns as int) is None,
        },
{
    let s = text::chars_of(line);
    let key = text::chars_of("out_time_us=");
    if text::has_prefix(&s, &key) {
        let rest = text::copy_range(&s, key.len(), s.len());
        assert(rest@ =~= line@.skip(key@.len() as int));
        match number::parse_u64(&text::trim_chars(&rest)) {
            Ok(us) => Some(progress_fraction(us, total_ns)),
            Err(_) => None,
        }
    } else {
        let t = text::trim_chars(&s);
        let t = text::string_of(&t, 0, t.len());
        assert(t@ =~= text::trim(line@));
        if same_text(t.as_str(), "progress=end") {
            Some(1_000_000)
        } else {
            None
        }
    }
}

fn progress_fraction(us: u64, total_ns: i64) -> (r: u32)
    ensures
        r == fraction_of(us as int, total_ns as int),
{
    if total_ns < 0 || us == 0 {
        return 0;
    }
    if total_ns == 0 {
        return 1_000_000;
    }
    let q: u128 = us as u128 * 1_000_000_000 / total_ns as u128;
    if q > 1_000_000 {
        1_000_000
    } else {
        q as u32
    }
}

/// Progress is the share of the whole that is done, in millionths, rounded
/// down, and never more than all of it.
pub proof fn law_progress_is_the_share(us: int, total_ns: int)
    requires
        us >= 0,
        total_ns > 0,
    ensures
        ({
            let r = fraction_of(us, total_ns);
            &&& 0 <= r <= 1_000_000
            &&& r * total_ns <= us * 1_000 * 1_000_000
            &&& r < 1_000_000 ==> us * 1_000 * 1_000_000 < (r + 1) * total_ns
        }),
{
    let n = us * 1_000_000_000;
    let q = n / total_ns;
    vstd::arithmetic::div_mod::lemma_fundamental_div_mod(n, total_ns);
    vstd::arithmetic::div_mod::lemma_mod_bound(n, total_ns);
    vstd::arithmetic::div_mod::lemma_div_pos_is_pos(n, total_ns);
    assert(total_ns * q == q * total_ns && (q + 1) * total_ns == q * total_ns + total_ns)
        by (nonlinear_arith);
    assert(q > 1_000_000 ==> 1_000_000 * total_ns <= q * total_ns) by (nonlinear_arith)
        requires
            total_ns > 0,
    ;
    assert(0 * total_ns == 0) by (nonlinear_arith);
}

/// A line that tells the time done is read as that time; the line at the end
/// means all of it.
pub proof fn law_progress_lines(us: u64, total_ns: int)
    ensures
        progress_of("out_time_us="@ + text::decimal(us as nat), total_ns) == Some(
            fraction_of(us as int, total_ns),
        ),
        progress_of("progress=end"@, total_ns) == Some(1_000_000int),
{
    let key = "out_time_us="@;
    let d = text::decimal(us as nat);
    let line = key + d;
    assert(line.subrange(0, key.len() as int) =~= key);
    assert(line.skip(key.len() as int) =~= d);
    number::lemma_decimal(us as nat);
    assert(number::is_digit(d[0]) && number::is_digit(d[d.len() - 1]));
    text::lemma_trim_id(d);
    number::law_whole_numbers_are_read(d, u64::MAX as nat);
    reveal_strlit("out_time_us=");
    reveal_strlit("progress=end");
    let end = "progress=end"@;
    assert(end[0] == 'p' && end[end.len() - 1] == 'd');
    text::lemma_trim_id(end);
    assert(end.subrange(0, key.len() as int)[0] != key[0]);
}

proof fn lemma_flat_pairs(f: spec_fn(int) -> Seq<Seq<char>>, n: int, i: int)
    requires
        0 <= i < n,
        forall|k: int| (#[trigger] f(k)).len() == 2,
    ensures
        args::flat(f, n).len() == 2 * n,
        args::flat(f, n)[2 * i] == f(i)[0],
        args::flat(f, n)[2 * i + 1] == f(i)[1],
    decreases n,
{
    if i < n - 1 {
        lemma_flat_pairs(f, n - 1, i);
    } else {
        lemma_flat_len(f, n - 1);
    }
    assert(f(n - 1).len() == 2);
}

proof fn lemma_flat_len(f: spec_fn(int) -> Seq<Seq<char>>, n: int)
    requires
        0 <= n,
        forall|k: int| (#[trigger] f(k)).len() == 2,
    ensures
        args::flat(f, n).len() == 2 * n,
    decreases n,
{
    if n > 0 {
        lemma_flat_len(f, n - 1);
        assert(f(n - 1).len() == 2);
    }
}

/// Where the inputs begin: behind what every call starts with, and the request
/// for progress.
pub open spec fn inputs_from(job: RemuxJob) -> int {
    if job.progress {
        7
    } else {
        5
    }
}

/// The picture and the kept audio come from the master, which is the first
/// input.
pub proof fn law_master_is_the_first_input(job: RemuxJob)
    ensures
        ({
            let at = inputs_from(job);
            &&& job.inputs()[at] == "-i"@ && job.inputs()[at + 1] == job.master_file@
            &&& job.maps()[0] == "-map"@ && job.maps()[1] == "0:v"@
            &&& job.master_anchor_track matches Some(t) ==> job.maps()[2] == "-map"@
                && job.maps()[3] == "0:"@ + text::decimal(t as nat)
            &&& job.arguments().last() == job.output@
        }),
{
    reveal_strlit("");
    if let Some(t) = job.master_anchor_track {
        assert(stream(t) =~= "0:"@ + text::decimal(t as nat));
    }
}

/// Every dub is mapped from the input that its file is, and its codec and its
/// title are those of the audio stream that it becomes.
pub proof fn law_dubs_line_up(job: RemuxJob, i: int)
    requires
        0 <= i < job.synced@.len(),
    ensures
        exists|input: int, stream: int|
            #![trigger text::decimal(input as nat), text::decimal(stream as nat)]
            {
                let at = inputs_from(job) + 2 * input;
                let map = 2 * stream + 2;
                let n = text::decimal(stream as nat);
                &&& 0 < input && 0 <= stream
                &&& job.inputs()[at] == "-i"@ && job.inputs()[at + 1] == job.synced@[i].synced.wav@
                &&& job.maps()[map] == "-map"@ && job.maps()[map + 1] == text::decimal(input as nat)
                    + ":a"@
                &&& job.dub_codecs()(i)[0] == "-c:a:"@ + n && job.dub_codecs()(i)[1]
                    == job.dub_codec.name()
                &&& job.bitrate_per_dub_kbps@[i] matches Some(k) ==> job.dub_codecs()(i)[2] == "-b:a:"@
                    + n && job.dub_codecs()(i)[3] == text::decimal(k as nat) + "k"@
                &&& job.bitrate_per_dub_kbps@[i] is None ==> job.dub_codecs()(i).len() == 2
                &&& job.dub_tags()(i).last() == (if stream == 0 {
                    "default"@
                } else {
                    "0"@
                })
                &&& job.dub_tags()(i)[job.dub_tags()(i).len() - 2] == "-disposition:a:"@ + n
                &&& job.dub_tags()(i)[job.dub_tags()(i).len() - 3] == "title="@ + dub_title(
                    job.synced@[i],
                )
                &&& job.dub_tags()(i)[job.dub_tags()(i).len() - 4] == "-metadata:s:a:"@ + n
            },
{
    reveal_strlit("");
    let input = i + 1;
    let stream = if job.master_anchor_track is Some {
        i + 1
    } else {
        i
    };
    lemma_flat_pairs(job.dub_inputs(), job.synced@.len() as int, i);
    lemma_flat_pairs(job.dub_maps(), job.synced@.len() as int, i);
    assert(""@ + text::decimal(input as nat) + ":a"@ =~= text::decimal(input as nat) + ":a"@);
    let at = inputs_from(job) + 2 * input;
    let head = common() + (if job.progress {
        seq!["-progress"@, "pipe:1"@]
    } else {
        Seq::empty()
    }) + seq!["-i"@, job.master_file@];
    let dubs = args::flat(job.dub_inputs(), job.synced@.len() as int);
    assert(head.len() == inputs_from(job) + 2);
    assert(job.inputs()[at] == dubs[2 * i] && job.inputs()[at + 1] == dubs[2 * i + 1]);
    let video = seq!["-map"@, "0:v"@] + (match job.master_anchor_track {
        Some(t) => seq!["-map"@, self::stream(t)],
        None => Seq::empty(),
    });
    let maps = args::flat(job.dub_maps(), job.synced@.len() as int);
    let map = 2 * stream + 2;
    assert(video.len() + 2 * i == map);
    assert(job.maps()[map] == maps[2 * i] && job.maps()[map + 1] == maps[2 * i + 1]);
    if let Some(k) = job.bitrate_per_dub_kbps@[i] {
        assert(""@ + text::decimal(k as nat) + "k"@ =~= text::decimal(k as nat) + "k"@);
    }
    assert(text::decimal(input as nat) == text::decimal(input as nat));
    assert(text::decimal(stream as nat) == text::decimal(stream as nat));
}

/// Every donor subtitle is mapped from the input that its file is.
pub proof fn law_subtitles_line_up(job: RemuxJob, i: int)
    requires
        0 <= i < job.donor_synced_subs@.len(),
    ensures
        exists|input: int|
            #![trigger text::decimal(input as nat)]
            {
                let at = inputs_from(job) + 2 * input;
                let n = job.maps().len() - 2 * job.donor_synced_subs@.len() + 2 * i;
                &&& job.synced@.len() < input
                &&& job.inputs()[at] == "-i"@ && job.inputs()[at + 1]
                    == job.donor_synced_subs@[i].srt_path@
                &&& job.maps()[n] == "-map"@ && job.maps()[n + 1] == text::decimal(input as nat)
                    + ":0"@
            },
{
    reveal_strlit("");
    let count = job.synced@.len() as int;
    let input = 1 + count + i;
    lemma_flat_len(job.dub_inputs(), count);
    lemma_flat_pairs(job.sub_inputs(), job.donor_synced_subs@.len() as int, i);
    lemma_flat_pairs(job.sub_maps(), job.donor_synced_subs@.len() as int, i);
    assert(""@ + text::decimal(input as nat) + ":0"@ =~= text::decimal(input as nat) + ":0"@);
    let head = common() + (if job.progress {
        seq!["-progress"@, "pipe:1"@]
    } else {
        Seq::empty()
    }) + seq!["-i"@, job.master_file@] + args::flat(job.dub_inputs(), count);
    let subs = args::flat(job.sub_inputs(), job.donor_synced_subs@.len() as int);
    let at = inputs_from(job) + 2 * input;
    assert(head.len() == inputs_from(job) + 2 + 2 * count);
    assert(job.inputs()[at] == subs[2 * i] && job.inputs()[at + 1] == subs[2 * i + 1]);
    let maps = args::flat(job.sub_maps(), job.donor_synced_subs@.len() as int);
    let n = job.maps().len() - maps.len() + 2 * i;
    assert(job.maps()[n] == maps[2 * i] && job.maps()[n + 1] == maps[2 * i + 1]);
    assert(text::decimal(input as nat) == text::decimal(input as nat));
}

/// An argument that stands directly before another.
pub open spec fn names(v: Seq<Seq<char>>, option: Seq<char>, value: Seq<char>) -> bool {
    exists|k: int| 0 <= k < v.len() - 1 && #[trigger] v[k] == option && v[k + 1] == value
}

/// An extraction takes one stream of the one file, without video, and writes it
/// to the end of its arguments: the anchor as one channel at the rate that was
/// asked for, a dub with the channels and rate that it has, both as float WAV,
/// a subtitle as SubRip text.
pub proof fn law_extraction(src: Seq<char>, index: u32, rate: u32, out: Seq<char>)
    ensures
        ({
            let a = anchor_arguments(src, index, rate, out);
            let d = dub_arguments(src, index, out);
            let s = subtitle_arguments(src, index, out);
            let of = "0:"@ + text::decimal(index as nat);
            &&& names(a, "-i"@, src) && names(d, "-i"@, src) && names(s, "-i"@, src)
            &&& names(a, "-map"@, of) && names(d, "-map"@, of) && names(s, "-map"@, of)
            &&& a.contains("-vn"@) && d.contains("-vn"@) && s.contains("-vn"@)
            &&& a.last() == out && d.last() == out && s.last() == out
            &&& names(a, "-ac"@, "1"@) && names(a, "-ar"@, text::decimal(rate as nat))
            &&& names(a, "-c:a"@, "pcm_f32le"@) && names(d, "-c:a"@, "pcm_f32le"@)
            &&& names(a, "-f"@, "wav"@) && names(d, "-f"@, "wav"@)
            &&& names(s, "-c:s"@, "srt"@)
            &&& a.len() == 21 && d.len() == 17 && s.len() == 15
        }),
{
    reveal_strlit("");
    let a = anchor_arguments(src, index, rate, out);
    let d = dub_arguments(src, index, out);
    let s = subtitle_arguments(src, index, out);
    assert(stream(index) =~= "0:"@ + text::decimal(index as nat));
    assert(a[5] == "-i"@ && d[5] == "-i"@ && s[5] == "-i"@);
    assert(a[7] == "-map"@ && d[7] == "-map"@ && s[7] == "-map"@);
    assert(a[9] == "-vn"@ && d[9] == "-vn"@ && s[9] == "-vn"@);
    assert(a[12] == "-ac"@ && a[14] == "-ar"@ && a[16] == "-c:a"@ && a[18] == "-f"@);
    assert(d[12] == "-c:a"@ && d[14] == "-f"@ && s[12] == "-c:s"@);
}

} // verus!
