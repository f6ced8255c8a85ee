//! Which tracks a run works on, and what becomes of them in the output.
use vstd::prelude::*;
use crate::args;
use crate::cli::{copy_opt, DubCodec, RunConfig};
use crate::correlation::offset_map::{OffsetMap, Segment};
use crate::error;
use crate::error::DubsyncError;
use crate::ffmpeg::{DonorSyncedSub, DubForRemux, ExtractedDonorSub};
use crate::ffprobe;
use crate::ffprobe::{contains_u32, AudioStream, SubtitleStream};
use crate::subtitle;
use crate::subtitle::{apply_offset_map, round_trip, srt};
use crate::sync::applier;
use crate::sync::applier::SyncedDub;
use crate::text;
use crate::time;

verus! {

/// The dubs that are processed. Only the donor anchor is when it is validated,
/// and when it alone is to be shipped; otherwise it goes in front of the dubs
/// if it is wanted and not among them, and a solo run keeps the first.
pub open spec fn effective_dubs(cfg: RunConfig) -> Seq<u32> {
    let anchor = cfg.donor_anchor_track;
    let dubs = cfg.donor_dub_tracks@;
    if cfg.anchor_only_validation || (cfg.include_donor_anchor && cfg.solo_dub) {
        seq![anchor]
    } else if cfg.include_donor_anchor && !dubs.contains(anchor) {
        seq![anchor] + dubs
    } else if cfg.solo_dub && dubs.len() > 1 {
        dubs.take(1)
    } else {
        dubs
    }
}

/// Works out the dubs that are processed. Validating the anchor implies
/// shipping it alone.
pub fn apply_cfg_overrides(cfg: &mut RunConfig)
    ensures
        final(cfg).donor_dub_tracks@ == effective_dubs(*old(cfg)),
        *final(cfg) == (RunConfig {
            donor_dub_tracks: final(cfg).donor_dub_tracks,
            include_donor_anchor: old(cfg).include_donor_anchor
                || old(cfg).anchor_only_validation,
            solo_dub: old(cfg).solo_dub || old(cfg).anchor_only_validation,
            ..*old(cfg)
        }),
{
    let anchor: u32 = cfg.donor_anchor_track;
    if cfg.anchor_only_validation {
        cfg.include_donor_anchor = true;
        cfg.solo_dub = true;
    }
    if cfg.include_donor_anchor && cfg.solo_dub {
        cfg.donor_dub_tracks = vec![anchor];
        assert(cfg.donor_dub_tracks@ =~= seq![anchor]);
        return;
    }
    if cfg.include_donor_anchor && !contains_u32(&cfg.donor_dub_tracks, anchor) {
        cfg.donor_dub_tracks.insert(0, anchor);
        assert(cfg.donor_dub_tracks@ =~= seq![anchor] + old(cfg).donor_dub_tracks@);
    }
    if cfg.solo_dub && cfg.donor_dub_tracks.len() > 1 {
        cfg.donor_dub_tracks.truncate(1);
        assert(cfg.donor_dub_tracks@ =~= old(cfg).donor_dub_tracks@.take(1));
    }
}

/// Working out the dubs a second time changes nothing.
pub proof fn law_overrides_are_idempotent(a: RunConfig, b: RunConfig)
    requires
        b.donor_dub_tracks@ == effective_dubs(a),
        b == (RunConfig {
            donor_dub_tracks: b.donor_dub_tracks,
            include_donor_anchor: a.include_donor_anchor || a.anchor_only_validation,
            solo_dub: a.solo_dub || a.anchor_only_validation,
            ..a
        }),
    ensures
        effective_dubs(b) == b.donor_dub_tracks@,
{
    assert(seq![a.donor_anchor_track][0] == a.donor_anchor_track);
    if a.include_donor_anchor {
        let d = b.donor_dub_tracks@;
        if !a.donor_dub_tracks@.contains(a.donor_anchor_track) {
            assert(d[0] == a.donor_anchor_track);
        }
    }
}

/// A solo run processes at most one dub, and one that includes the donor anchor
/// processes it.
pub proof fn law_effective_dubs(cfg: RunConfig)
    ensures
        cfg.solo_dub || cfg.anchor_only_validation ==> effective_dubs(cfg).len() <= 1,
        cfg.include_donor_anchor || cfg.anchor_only_validation ==> effective_dubs(cfg).contains(
            cfg.donor_anchor_track,
        ),
{
    let anchor = cfg.donor_anchor_track;
    assert(seq![anchor][0] == anchor);
    assert((seq![anchor] + cfg.donor_dub_tracks@)[0] == anchor);
}

/// The first place at or after `i` where `x` stands.
pub open spec fn place(v: Seq<u32>, x: u32, i: int) -> Option<int>
    decreases v.len() - i,
{
    if i >= v.len() {
        None
    } else if v[i] == x {
        Some(i)
    } else {
        place(v, x, i + 1)
    }
}

/// The stream with an index.
pub open spec fn audio_at(streams: Seq<AudioStream>, index: u32) -> Option<AudioStream> {
    match place(ffprobe::indices(streams), index, 0) {
        Some(i) => Some(streams[i]),
        None => None,
    }
}

pub open spec fn sub_indices(streams: Seq<SubtitleStream>) -> Seq<u32> {
    Seq::new(streams.len(), |i: int| streams[i].index)
}

/// The subtitle stream with an index.
pub open spec fn sub_at(streams: Seq<SubtitleStream>, index: u32) -> Option<SubtitleStream> {
    match place(sub_indices(streams), index, 0) {
        Some(i) => Some(streams[i]),
        None => None,
    }
}

pub fn find_audio(streams: &Vec<AudioStream>, index: u32) -> (r: Option<&AudioStream>)
    ensures
        match r {
            Some(s) => audio_at(streams@, index) == Some(*s),
            None => audio_at(streams@, index) is None,
        },
{
    let mut i: usize = 0;
    while i < streams.len()
        invariant
            i <= streams@.len(),
            place(ffprobe::indices(streams@), index, 0) == place(
                ffprobe::indices(streams@),
                index,
                i as int,
            ),
        decreases streams@.len() - i,
    {
        if streams[i].index == index {
            return Some(&streams[i]);
        }
        i += 1;
    }
    None
}

pub fn find_sub(streams: &Vec<SubtitleStream>, index: u32) -> (r: Option<&SubtitleStream>)
    ensures
        match r {
            Some(s) => sub_at(streams@, index) == Some(*s),
            None => sub_at(streams@, index) is None,
        },
{
    let mut i: usize = 0;
    while i < streams.len()
        invariant
            i <= streams@.len(),
            place(sub_indices(streams@), index, 0) == place(
                sub_indices(streams@),
                index,
                i as int,
            ),
        decreases streams@.len() - i,
    {
        if streams[i].index == index {
            return Some(&streams[i]);
        }
        i += 1;
    }
    None
}

/// What is said of a track that has too many channels for a codec.
pub open spec fn channels_text(index: u32, channels: u32, codec: DubCodec) -> Seq<char> {
    "donor track #"@ + text::decimal(index as nat) + " has "@ + text::decimal(channels as nat)
        + " channels but codec `"@ + codec.name() + "` only supports up to "@ + text::decimal(
        codec.channel_limit() as nat,
    ) + " — use `--dub-codec flac` to keep the full layout"@
}

/// The first of the dubs that has too many channels. A track that the donor
/// does not have is passed over.
pub open spec fn channel_problem(
    tracks: Seq<u32>,
    streams: Seq<AudioStream>,
    codec: DubCodec,
) -> Option<Seq<char>>
    decreases tracks.len(),
{
    if tracks.len() == 0 {
        None
    } else {
        match audio_at(streams, tracks[0]) {
            Some(s) => if s.channels > codec.channel_limit() {
                Some(channels_text(tracks[0], s.channels, codec))
            } else {
                channel_problem(tracks.skip(1), streams, codec)
            },
            None => channel_problem(tracks.skip(1), streams, codec),
        }
    }
}

/// Checks before any work that the codec can carry every dub.
pub fn validate_codec_against_channels(cfg: &RunConfig, donor_streams: &Vec<AudioStream>) -> (r:
    Result<(), String>)
    ensures
        match r {
            Ok(()) => channel_problem(cfg.donor_dub_tracks@, donor_streams@, cfg.dub_codec) is None,
            Err(e) => channel_problem(cfg.donor_dub_tracks@, donor_streams@, cfg.dub_codec) == Some(
                e@,
            ),
        },
{
    let max: u32 = cfg.dub_codec.max_channels();
    let ghost tracks = cfg.donor_dub_tracks@;
    let mut i: usize = 0;
    assert(tracks.skip(0) =~= tracks);
    while i < cfg.donor_dub_tracks.len()
        invariant
            i <= tracks.len(),
            tracks == cfg.donor_dub_tracks@,
            max == cfg.dub_codec.channel_limit(),
            channel_problem(tracks, donor_streams@, cfg.dub_codec) == channel_problem(
                tracks.skip(i as int),
                donor_streams@,
                cfg.dub_codec,
            ),
        decreases tracks.len() - i,
    {
        let index: u32 = cfg.donor_dub_tracks[i];
        assert(tracks.skip(i as int)[0] == index);
        assert(tracks.skip(i as int).skip(1) =~= tracks.skip(i + 1));
        if let Some(s) = find_audio(donor_streams, index) {
            if s.channels > max {
                let mut m = String::from_str("donor track #");
                text::push_decimal(&mut m, index as u64);
                m.append(" has ");
                text::push_decimal(&mut m, s.channels as u64);
                m.append(" channels but codec `");
                m.append(cfg.dub_codec.ffmpeg_name());
                m.append("` only supports up to ");
                text::push_decimal(&mut m, max as u64);
                m.append(" — use `--dub-codec flac` to keep the full layout");
                return Err(m);
            }
        }
        i += 1;
    }
    Ok(())
}

/// No problem is reported exactly if every dub that the donor has fits the
/// codec.
pub proof fn law_channels_fit(tracks: Seq<u32>, streams: Seq<AudioStream>, codec: DubCodec)
    ensures
        channel_problem(tracks, streams, codec) is None <==> forall|k: int|
            0 <= k < tracks.len() ==> (audio_at(streams, #[trigger] tracks[k]) matches Some(s)
                ==> s.channels <= codec.channel_limit()),
    decreases tracks.len(),
{
    if tracks.len() > 0 {
        let rest = tracks.skip(1);
        law_channels_fit(rest, streams, codec);
        assert(forall|k: int| 0 <= k < rest.len() ==> #[trigger] rest[k] == tracks[k + 1]);
        assert(forall|k: int| 1 <= k < tracks.len() ==> #[trigger] tracks[k] == rest[k - 1]);
    }
}

/// What is said of a subtitle track that the donor does not have.
pub open spec fn absent_sub_text(index: u32, available: Seq<u32>) -> Seq<char> {
    "donor subtitle track #"@ + text::decimal(index as nat)
        + " does not exist — donor has subtitle indices ["@ + error::comma_list(available) + "]"@
}

/// What is said of a subtitle track that holds images.
pub open spec fn image_sub_text(index: u32, codec: Seq<char>) -> Seq<char> {
    "donor subtitle track #"@ + text::decimal(index as nat) + " is `"@ + codec
        + "` (image-based) — can't be time-shifted (would need OCR). Drop it from `--include-donor-subs` and re-run; use `--include-donor-forced-subs` to auto-detect text-based forced tracks instead."@
}

/// The first of the requested subtitle tracks that cannot be had.
pub open spec fn sub_problem(tracks: Seq<u32>, streams: Seq<SubtitleStream>) -> Option<Seq<char>>
    decreases tracks.len(),
{
    if tracks.len() == 0 {
        None
    } else {
        match sub_at(streams, tracks[0]) {
            None => Some(absent_sub_text(tracks[0], sub_indices(streams))),
            Some(s) => if ffprobe::image_codec(s.codec_name@) {
                Some(image_sub_text(tracks[0], s.codec_name@))
            } else {
                sub_problem(tracks.skip(1), streams)
            },
        }
    }
}

/// Checks before any work that every requested subtitle track exists and holds
/// text.
pub fn validate_donor_subs(requested: &Vec<u32>, streams: &Vec<SubtitleStream>) -> (r: Result<
    (),
    String,
>)
    ensures
        match r {
            Ok(()) => sub_problem(requested@, streams@) is None,
            Err(e) => sub_problem(requested@, streams@) == Some(e@),
        },
{
    let ghost tracks = requested@;
    let mut i: usize = 0;
    assert(tracks.skip(0) =~= tracks);
    while i < requested.len()
        invariant
            i <= tracks.len(),
            tracks == requested@,
            sub_problem(tracks, streams@) == sub_problem(tracks.skip(i as int), streams@),
        decreases tracks.len() - i,
    {
        let index: u32 = requested[i];
        assert(tracks.skip(i as int)[0] == index);
        assert(tracks.skip(i as int).skip(1) =~= tracks.skip(i + 1));
        match find_sub(streams, index) {
            None => {
                let mut available: Vec<u32> = Vec::new();
                let mut k: usize = 0;
                while k < streams.len()
                    invariant
                        k <= streams@.len(),
                        available@ == sub_indices(streams@).take(k as int),
                    decreases streams@.len() - k,
                {
                    available.push(streams[k].index);
                    k += 1;
                    assert(available@ =~= sub_indices(streams@).take(k as int));
                }
                assert(available@ =~= sub_indices(streams@));
                let mut m = String::from_str("donor subtitle track #");
                text::push_decimal(&mut m, index as u64);
                m.append(" does not exist — donor has subtitle indices [");
                error::push_comma_list(&mut m, &available);
                m.append("]");
                return Err(m);
            },
            Some(s) => {
                if s.is_image_based() {
                    let mut m = String::from_str("donor subtitle track #");
                    text::push_decimal(&mut m, index as u64);
                    m.append(" is `");
                    m.append(s.codec_name.as_str());
                    m.append(
                        "` (image-based) — can't be time-shifted (would need OCR). Drop it from `--include-donor-subs` and re-run; use `--include-donor-forced-subs` to auto-detect text-based forced tracks instead.",
                    );
                    return Err(m);
                }
            },
        }
        i += 1;
    }
    Ok(())
}

/// A subtitle track that is asked for, by name or because it is forced.
pub open spec fn wanted(s: SubtitleStream, forced: bool, explicit: Seq<u32>) -> bool {
    (forced && ffprobe::flag_of(s.disposition@, "forced"@)) || explicit.contains(s.index)
}

/// Stream `i` is the first wanted one with its index.
pub open spec fn first_wanted(
    streams: Seq<SubtitleStream>,
    i: int,
    forced: bool,
    explicit: Seq<u32>,
) -> bool {
    &&& wanted(streams[i], forced, explicit)
    &&& forall|j: int|
        0 <= j < i && wanted(#[trigger] streams[j], forced, explicit) ==> streams[j].index
            != streams[i].index
}

/// The streams to extract among the first `n`: the wanted ones, each index
/// once, without those that hold images.
pub open spec fn selected(
    streams: Seq<SubtitleStream>,
    n: int,
    forced: bool,
    explicit: Seq<u32>,
) -> Seq<int>
    decreases n,
{
    if n <= 0 {
        Seq::empty()
    } else if first_wanted(streams, n - 1, forced, explicit) && !ffprobe::image_codec(
        streams[n - 1].codec_name@,
    ) {
        selected(streams, n - 1, forced, explicit).push(n - 1)
    } else {
        selected(streams, n - 1, forced, explicit)
    }
}

/// `donor_sub_{index}.srt`
pub open spec fn donor_sub_name_of(index: u32) -> Seq<char> {
    "donor_sub_"@ + text::decimal(index as nat) + ".srt"@
}

pub open spec fn is_extracted(e: ExtractedDonorSub, s: SubtitleStream) -> bool {
    &&& e.donor_index == s.index
    &&& e.srt_path@ == donor_sub_name_of(s.index)
    &&& args::opt_view(e.language) == ffprobe::tag_of(s.tags@, "language"@)
    &&& args::opt_view(e.title) == ffprobe::tag_of(s.tags@, "title"@)
    &&& e.forced == ffprobe::flag_of(s.disposition@, "forced"@)
    &&& e.default == ffprobe::flag_of(s.disposition@, "default"@)
}

/// A copy of a borrowed text that may be missing.
fn own(s: Option<&str>) -> (r: Option<String>)
    ensures
        args::opt_view(r) == args::opt_str_view(s),
{
    match s {
        Some(t) => Some(String::from_str(t)),
        None => None,
    }
}

/// Whether any subtitle track of the donor is asked for; the donor is not
/// looked at otherwise.
pub fn wants_donor_subs(cfg: &RunConfig) -> (r: bool)
    ensures
        r == (cfg.include_donor_forced_subs || cfg.donor_subs_explicit@.len() > 0),
{
    cfg.include_donor_forced_subs || cfg.donor_subs_explicit.len() > 0
}

/// The donor's subtitle tracks to extract, each with the name of its file:
/// those that are forced, if they are wanted, and those asked for by index.
pub fn select_donor_subs(cfg: &RunConfig, streams: &Vec<SubtitleStream>) -> (r: Vec<
    ExtractedDonorSub,
>)
    ensures
        ({
            let sel = selected(
                streams@,
                streams@.len() as int,
                cfg.include_donor_forced_subs,
                cfg.donor_subs_explicit@,
            );
            &&& r@.len() == sel.len()
            &&& forall|k: int|
                0 <= k < r@.len() ==> is_extracted(#[trigger] r@[k], streams@[sel[k]])
        }),
{
    let ghost forced = cfg.include_donor_forced_subs;
    let ghost explicit = cfg.donor_subs_explicit@;
    let mut seen: Vec<u32> = Vec::new();
    let mut r: Vec<ExtractedDonorSub> = Vec::new();
    let mut i: usize = 0;
    while i < streams.len()
        invariant
            i <= streams@.len(),
            forced == cfg.include_donor_forced_subs,
            explicit == cfg.donor_subs_explicit@,
            forall|x: u32|
                seen@.contains(x) <==> exists|j: int|
                    0 <= j < i && wanted(#[trigger] streams@[j], forced, explicit)
                        && streams@[j].index == x,
            r@.len() == selected(streams@, i as int, forced, explicit).len(),
            forall|k: int|
                0 <= k < r@.len() ==> is_extracted(
                    #[trigger] r@[k],
                    streams@[selected(streams@, i as int, forced, explicit)[k]],
                ),
        decreases streams@.len() - i,
    {
        let s = &streams[i];
        let pick = (cfg.include_donor_forced_subs && s.is_forced()) || contains_u32(
            &cfg.donor_subs_explicit,
            s.index,
        );
        assert(pick == wanted(streams@[i as int], forced, explicit));
        let ghost before = seen@;
        if pick {
            let fresh = !contains_u32(&seen, s.index);
            assert(fresh == first_wanted(streams@, i as int, forced, explicit));
            if fresh {
                seen.push(s.index);
                if !s.is_image_based() {
                    r.push(
                        ExtractedDonorSub {
                            donor_index: s.index,
                            srt_path: args::number_text("donor_sub_", s.index as u64, ".srt"),
                            language: own(s.language()),
                            title: own(s.title()),
                            forced: s.is_forced(),
                            default: s.is_default(),
                        },
                    );
                }
            }
        }
        proof {
            assert forall|x: u32|
                seen@.contains(x) <==> exists|j: int|
                    0 <= j < i + 1 && wanted(#[trigger] streams@[j], forced, explicit)
                        && streams@[j].index == x by {
                if seen@.contains(x) {
                    if before.contains(x) {
                        let j = choose|j: int|
                            0 <= j < i && wanted(#[trigger] streams@[j], forced, explicit)
                                && streams@[j].index == x;
                        assert(0 <= j < i + 1 && wanted(streams@[j], forced, explicit));
                    } else {
                        assert(streams@[i as int].index == x);
                    }
                }
                if exists|j: int|
                    0 <= j < i + 1 && wanted(#[trigger] streams@[j], forced, explicit)
                        && streams@[j].index == x {
                    let j = choose|j: int|
                        0 <= j < i + 1 && wanted(#[trigger] streams@[j], forced, explicit)
                            && streams@[j].index == x;
                    if j < i {
                        assert(before.contains(x));
                        if seen@ != before {
                            let p = choose|p: int| 0 <= p < before.len() && before[p] == x;
                            assert(seen@[p] == x);
                        }
                    } else if seen@ != before {
                        assert(seen@[before.len() as int] == x);
                    }
                }
            }
        }
        i += 1;
    }
    r
}

/// Everything that is extracted was asked for and holds text, and no index
/// comes twice.
pub proof fn law_selected_subs(
    streams: Seq<SubtitleStream>,
    n: int,
    forced: bool,
    explicit: Seq<u32>,
)
    requires
        0 <= n <= streams.len(),
    ensures
        ({
            let sel = selected(streams, n, forced, explicit);
            &&& forall|k: int|
                0 <= k < sel.len() ==> 0 <= #[trigger] sel[k] < n && wanted(
                    streams[sel[k]],
                    forced,
                    explicit,
                ) && !ffprobe::image_codec(streams[sel[k]].codec_name@)
            &&& forall|j: int, k: int|
                0 <= j < k < sel.len() ==> streams[#[trigger] sel[j]].index
                    != streams[#[trigger] sel[k]].index
        }),
    decreases n,
{
    if n > 0 {
        law_selected_subs(streams, n - 1, forced, explicit);
        let before = selected(streams, n - 1, forced, explicit);
        let sel = selected(streams, n, forced, explicit);
        if first_wanted(streams, n - 1, forced, explicit) && !ffprobe::image_codec(
            streams[n - 1].codec_name@,
        ) {
            assert forall|j: int, k: int| 0 <= j < k < sel.len() implies streams[
                #[trigger] sel[j]].index != streams[#[trigger] sel[k]].index by {
                assert(sel[j] == before[j]);
                if k < before.len() {
                    assert(sel[k] == before[k]);
                } else {
                    assert(wanted(streams[before[j]], forced, explicit));
                }
            }
        }
    }
}

/// `master_anchor_{index}.wav`
pub fn master_anchor_name(index: u32) -> (r: String)
    ensures
        r@ == "master_anchor_"@ + text::decimal(index as nat) + ".wav"@,
{
    args::number_text("master_anchor_", index as u64, ".wav")
}

/// `donor_anchor_{index}.wav`
pub fn donor_anchor_name(index: u32) -> (r: String)
    ensures
        r@ == "donor_anchor_"@ + text::decimal(index as nat) + ".wav"@,
{
    args::number_text("donor_anchor_", index as u64, ".wav")
}

/// `donor_dub_{index}.wav`
pub fn donor_dub_name(index: u32) -> (r: String)
    ensures
        r@ == "donor_dub_"@ + text::decimal(index as nat) + ".wav"@,
{
    args::number_text("donor_dub_", index as u64, ".wav")
}

/// `donor_sub_{index}_synced.srt`
pub fn synced_sub_name(index: u32) -> (r: String)
    ensures
        r@ == "donor_sub_"@ + text::decimal(index as nat) + "_synced.srt"@,
{
    args::number_text("donor_sub_", index as u64, "_synced.srt")
}

/// A subtitle document moved from donor time to master time, or why it cannot be
/// read.
pub open spec fn shifted(raw: Seq<char>, segments: Seq<Segment>) -> Result<Seq<char>, Seq<char>> {
    match srt::parsed(raw) {
        Err(e) => Err(e),
        Ok(c) => Ok(srt::document(subtitle::in_master_time(c, segments))),
    }
}

/// Moves a subtitle document from donor time to master time.
pub fn shift_subtitle(raw: &str, map: &OffsetMap) -> (r: Result<String, DubsyncError>)
    requires
        applier::segments_in_range(map.segments@),
    ensures
        match shifted(raw@, map.segments@) {
            Err(e) => r matches Err(DubsyncError::SubtitleParse(m)) && m@ == e,
            Ok(d) => r matches Ok(t) && t@ == d,
        },
{
    match srt::parse(raw) {
        Err(e) => Err(e),
        Ok(events) => {
            let shifted = apply_offset_map(&events, map);
            Ok(srt::serialize(&shifted))
        },
    }
}

/// The bitrate of a dub: none for a lossless codec; else what the user says;
/// else what is usual for its channels, or the encoder's own choice where they
/// are not known.
pub open spec fn bitrate_of(codec: DubCodec, given: Option<u32>, channels: u32) -> Option<u32> {
    if codec == DubCodec::Flac {
        None
    } else if given is Some {
        given
    } else if channels == 0 {
        None
    } else {
        codec.usual_bitrate(channels)
    }
}

pub fn resolve_bitrate(codec: DubCodec, given: Option<u32>, channels: u32) -> (r: Option<u32>)
    ensures
        r == bitrate_of(codec, given, channels),
{
    if codec.is_lossless() {
        None
    } else if given.is_some() {
        given
    } else if channels == 0 {
        None
    } else {
        codec.default_bitrate_kbps(channels)
    }
}

/// What a run puts into the output besides the video.
pub struct RemuxPlan<'a> {
    /// The master's audio, unless the dubs replace it.
    pub master_anchor_track: Option<u32>,
    pub master_anchor_lang: Option<String>,
    pub dubs: Vec<DubForRemux<'a>>,
    pub bitrates: Vec<Option<u32>>,
}

/// A tag of the stream with an index.
pub open spec fn tag_at(streams: Seq<AudioStream>, index: u32, key: Seq<char>) -> Option<
    Seq<char>,
> {
    match audio_at(streams, index) {
        Some(s) => ffprobe::tag_of(s.tags@, key),
        None => None,
    }
}

pub open spec fn channels_at(streams: Seq<AudioStream>, index: u32) -> u32 {
    match audio_at(streams, index) {
        Some(s) => s.channels,
        None => 0,
    }
}

/// The master's audio that stays in the output: its anchor, unless the donor
/// anchor replaces it or a single dub is shipped.
pub open spec fn kept_master_audio(cfg: RunConfig) -> Option<u32> {
    if cfg.include_donor_anchor || cfg.solo_dub {
        None
    } else {
        Some(cfg.master_anchor_track)
    }
}

/// Plans the output: the master anchor is kept unless the donor anchor replaces
/// it or a single dub is shipped, and every dub has the tags of its stream.
pub fn plan_remux<'a>(
    cfg: &RunConfig,
    master_streams: &Vec<AudioStream>,
    donor_streams: &Vec<AudioStream>,
    synced: &'a Vec<SyncedDub>,
) -> (r: RemuxPlan<'a>)
    ensures
        r.master_anchor_track == kept_master_audio(*cfg),
        args::opt_view(r.master_anchor_lang) == (match kept_master_audio(*cfg) {
            Some(track) => tag_at(master_streams@, track, "language"@),
            None => None,
        }),
        r.dubs@.len() == synced@.len(),
        r.bitrates@.len() == synced@.len(),
        forall|i: int|
            0 <= i < synced@.len() ==> {
                let d = #[trigger] r.dubs@[i];
                let index = synced@[i].donor_index;
                &&& *d.synced == synced@[i]
                &&& args::opt_view(d.language) == tag_at(donor_streams@, index, "language"@)
                &&& args::opt_view(d.title) == tag_at(donor_streams@, index, "title"@)
            },
        forall|i: int|
            0 <= i < synced@.len() ==> #[trigger] r.bitrates@[i] == bitrate_of(
                cfg.dub_codec,
                cfg.dub_bitrate_kbps,
                channels_at(donor_streams@, synced@[i].donor_index),
            ),
{
    let (master_anchor_track, master_anchor_lang): (Option<u32>, Option<String>) =
        if cfg.include_donor_anchor || cfg.solo_dub {
        (None, None)
    } else {
        let lang = match find_audio(master_streams, cfg.master_anchor_track) {
            Some(s) => own(s.language()),
            None => None,
        };
        (Some(cfg.master_anchor_track), lang)
    };
    let mut dubs: Vec<DubForRemux<'a>> = Vec::new();
    let mut bitrates: Vec<Option<u32>> = Vec::new();
    let mut i: usize = 0;
    while i < synced.len()
        invariant
            i <= synced@.len(),
            dubs@.len() == i,
            bitrates@.len() == i,
            forall|k: int|
                0 <= k < i ==> {
                    let d = #[trigger] dubs@[k];
                    let index = synced@[k].donor_index;
                    &&& *d.synced == synced@[k]
                    &&& args::opt_view(d.language) == tag_at(donor_streams@, index, "language"@)
                    &&& args::opt_view(d.title) == tag_at(donor_streams@, index, "title"@)
                },
            forall|k: int|
                0 <= k < i ==> #[trigger] bitrates@[k] == bitrate_of(
                    cfg.dub_codec,
                    cfg.dub_bitrate_kbps,
                    channels_at(donor_streams@, synced@[k].donor_index),
                ),
        decreases synced@.len() - i,
    {
        let s = &synced[i];
        let (channels, language, title): (u32, Option<String>, Option<String>) = match find_audio(
            donor_streams,
            s.donor_index,
        ) {
            Some(d) => (d.channels, own(d.language()), own(d.title())),
            None => (0, None, None),
        };
        bitrates.push(resolve_bitrate(cfg.dub_codec, cfg.dub_bitrate_kbps, channels));
        dubs.push(DubForRemux { synced: s, language, title });
        i += 1;
    }
    RemuxPlan { master_anchor_track, master_anchor_lang, dubs, bitrates }
}

/// An extracted subtitle track once its shifted text is at `path`.
pub fn synced_sub(sub: &ExtractedDonorSub, path: String) -> (r: DonorSyncedSub)
    ensures
        r.srt_path == path,
        args::opt_view(r.language) == args::opt_view(sub.language),
        args::opt_view(r.title) == args::opt_view(sub.title),
        r.forced == sub.forced,
        r.default == sub.default,
{
    DonorSyncedSub {
        srt_path: path,
        language: copy_opt(&sub.language),
        title: copy_opt(&sub.title),
        forced: sub.forced,
        default: sub.default,
    }
}

/// Without options the dubs are those asked for. With the donor anchor it comes
/// first, unless it is among them, and none of them is left out. A solo run
/// keeps the first of those asked for, or the anchor if that is included.
pub proof fn law_dubs_that_are_processed(cfg: RunConfig, k: int)
    ensures
        ({
            let asked = cfg.donor_dub_tracks@;
            let dubs = effective_dubs(cfg);
            let anchor = cfg.donor_anchor_track;
            let solo = cfg.solo_dub || cfg.anchor_only_validation;
            let with_anchor = cfg.include_donor_anchor || cfg.anchor_only_validation;
            &&& !solo && !with_anchor ==> dubs == asked
            &&& solo && with_anchor ==> dubs.len() == 1 && dubs[0] == anchor
            &&& solo && !with_anchor && asked.len() > 0 ==> dubs.len() == 1 && dubs[0] == asked[0]
            &&& !solo && with_anchor && asked.contains(anchor) ==> dubs == asked
            &&& !solo && with_anchor && !asked.contains(anchor) ==> dubs.len() == asked.len() + 1
                && dubs[0] == anchor && (0 <= k < asked.len() ==> dubs[k + 1] == asked[k])
        }),
{
}

/// A stream that is looked up by its index has it and is the first that has;
/// none is found only if none has it.
pub proof fn law_streams_are_found_by_index(
    audio: Seq<AudioStream>,
    subs: Seq<SubtitleStream>,
    index: u32,
)
    ensures
        match audio_at(audio, index) {
            Some(s) => s.index == index && exists|i: int|
                0 <= i < audio.len() && #[trigger] audio[i] == s && forall|j: int|
                    0 <= j < i ==> (#[trigger] audio[j]).index != index,
            None => forall|j: int| 0 <= j < audio.len() ==> (#[trigger] audio[j]).index != index,
        },
        match sub_at(subs, index) {
            Some(s) => s.index == index && exists|i: int|
                0 <= i < subs.len() && #[trigger] subs[i] == s && forall|j: int|
                    0 <= j < i ==> (#[trigger] subs[j]).index != index,
            None => forall|j: int| 0 <= j < subs.len() ==> (#[trigger] subs[j]).index != index,
        },
{
    let a = ffprobe::indices(audio);
    let b = sub_indices(subs);
    lemma_place(a, index, 0);
    lemma_place(b, index, 0);
    assert forall|j: int| 0 <= j < audio.len() implies a[j] == (#[trigger] audio[j]).index by {}
    assert forall|j: int| 0 <= j < subs.len() implies b[j] == (#[trigger] subs[j]).index by {}
    if let Some(i) = place(a, index, 0) {
        assert(audio[i] == audio_at(audio, index)->0);
    }
    if let Some(i) = place(b, index, 0) {
        assert(subs[i] == sub_at(subs, index)->0);
    }
}

proof fn lemma_place(v: Seq<u32>, x: u32, i: int)
    requires
        0 <= i,
    ensures
        match place(v, x, i) {
            Some(k) => i <= k < v.len() && v[k] == x && forall|j: int|
                i <= j < k ==> #[trigger] v[j] != x,
            None => forall|j: int| i <= j < v.len() ==> #[trigger] v[j] != x,
        },
    decreases v.len() - i,
{
    if i < v.len() && v[i] != x {
        lemma_place(v, x, i + 1);
    }
}

/// Requested subtitle tracks are refused if and only if one of them does not
/// exist or holds images.
pub proof fn law_refused_subtitles(tracks: Seq<u32>, streams: Seq<SubtitleStream>)
    ensures
        sub_problem(tracks, streams) is None <==> forall|k: int|
            0 <= k < tracks.len() ==> (sub_at(streams, #[trigger] tracks[k]) matches Some(s)
                && !ffprobe::image_codec(s.codec_name@)),
    decreases tracks.len(),
{
    if tracks.len() > 0 {
        let rest = tracks.skip(1);
        law_refused_subtitles(rest, streams);
        assert(forall|k: int| 0 <= k < rest.len() ==> #[trigger] rest[k] == tracks[k + 1]);
        assert(forall|k: int| 1 <= k < tracks.len() ==> #[trigger] tracks[k] == rest[k - 1]);
    }
}

/// A subtitle stream is extracted if and only if it is asked for by its index,
/// or is forced where those are wanted, holds text, and no stream before it with
/// its index is asked for. They are extracted in their order.
pub proof fn law_subtitles_that_are_extracted(
    streams: Seq<SubtitleStream>,
    n: int,
    forced: bool,
    explicit: Seq<u32>,
    i: int,
)
    requires
        0 <= i < n <= streams.len(),
    ensures
        ({
            let asked = |k: int|
                explicit.contains(streams[k].index) || (forced && streams[k].disposition@.contains_key(
                    "forced"@,
                ) && streams[k].disposition@["forced"@] != 0);
            let sel = selected(streams, n, forced, explicit);
            &&& sel.contains(i) <==> asked(i) && !ffprobe::image_codec(streams[i].codec_name@)
                && forall|j: int|
                0 <= j < i && #[trigger] asked(j) ==> streams[j].index != streams[i].index
            &&& forall|x: int, y: int|
                0 <= x < y < sel.len() ==> #[trigger] sel[x] < #[trigger] sel[y]
            &&& forall|x: int| 0 <= x < sel.len() ==> 0 <= #[trigger] sel[x] < n
        }),
    decreases n,
{
    let asked = |k: int|
        explicit.contains(streams[k].index) || (forced && streams[k].disposition@.contains_key(
            "forced"@,
        ) && streams[k].disposition@["forced"@] != 0);
    assert forall|k: int| #[trigger] asked(k) == wanted(streams[k], forced, explicit) by {}
    let before = selected(streams, n - 1, forced, explicit);
    let sel = selected(streams, n, forced, explicit);
    if i < n - 1 {
        law_subtitles_that_are_extracted(streams, n - 1, forced, explicit, i);
        if before.contains(i) {
            let x = choose|x: int| 0 <= x < before.len() && before[x] == i;
            assert(sel[x] == i);
        }
        if sel.contains(i) {
            let x = choose|x: int| 0 <= x < sel.len() && sel[x] == i;
            assert(before[x] == i);
        }
    } else {
        law_selected_subs(streams, n - 1, forced, explicit);
        if n > 1 {
            law_subtitles_that_are_extracted(streams, n - 1, forced, explicit, 0);
        }
        let chosen = first_wanted(streams, i, forced, explicit) && !ffprobe::image_codec(
            streams[i].codec_name@,
        );
        if chosen {
            assert(sel[before.len() as int] == i);
        } else {
            assert(sel == before);
            assert forall|x: int| 0 <= x < sel.len() implies #[trigger] sel[x] != i by {}
        }
        let alone = forall|j: int|
            0 <= j < i && #[trigger] asked(j) ==> streams[j].index != streams[i].index;
        if first_wanted(streams, i, forced, explicit) {
            assert forall|j: int| 0 <= j < i && #[trigger] asked(j) implies streams[j].index
                != streams[i].index by {
                assert(wanted(streams[j], forced, explicit));
            }
        }
        if alone && asked(i) {
            assert forall|j: int|
                0 <= j < i && wanted(#[trigger] streams[j], forced, explicit) implies streams[j].index
                != streams[i].index by {
                assert(asked(j));
            }
        }
    }
}

/// A lossless codec has no bitrate. Otherwise the bitrate is the one given, or
/// the usual one if the channels are known.
pub proof fn law_bitrates(codec: DubCodec, given: Option<u32>, channels: u32)
    ensures
        bitrate_of(DubCodec::Flac, given, channels) is None,
        codec != DubCodec::Flac && given is Some ==> bitrate_of(codec, given, channels) == given,
        codec != DubCodec::Flac && given is None && channels > 0 ==> bitrate_of(
            codec,
            given,
            channels,
        ) == codec.usual_bitrate(channels) && codec.usual_bitrate(channels) is Some,
        given is None && channels == 0 ==> bitrate_of(codec, given, channels) is None,
{
}

/// The master's audio stays unless the donor anchor takes its place or a single
/// dub is shipped.
pub proof fn law_master_audio_stays(cfg: RunConfig)
    ensures
        kept_master_audio(cfg) is Some <==> !cfg.include_donor_anchor && !cfg.solo_dub,
        kept_master_audio(cfg) matches Some(track) ==> track == cfg.master_anchor_track,
{
}

/// A moved document reads as the subtitles of the given one in master time, in
/// order, to the millisecond; a document is refused only if it cannot be read.
pub proof fn law_shifted_document(raw: Seq<char>, segments: Seq<Segment>, cues: Seq<subtitle::Cue>)
    requires
        srt::parsed(raw) == Ok::<_, Seq<char>>(cues),
        subtitle::in_master_time(cues, segments).len() <= u32::MAX,
        forall|i: int|
            0 <= i < subtitle::in_master_time(cues, segments).len() ==> round_trip::cue_survives(
                #[trigger] subtitle::in_master_time(cues, segments)[i],
            ),
    ensures
        shifted(raw, segments) matches Ok(d) && srt::parsed(d) matches Ok(c) && {
            let m = subtitle::in_master_time(cues, segments);
            &&& c.len() == m.len()
            &&& forall|i: int|
                #![trigger c[i]]
                0 <= i < c.len() ==> {
                    &&& c[i].text == m[i].text
                    &&& c[i].index == i + 1
                    &&& 0 <= m[i].start_ns <= u64::MAX * 1_000_000 ==> -500_000 <= c[i].start_ns
                        - m[i].start_ns <= 500_000
                    &&& 0 <= m[i].end_ns <= u64::MAX * 1_000_000 ==> -500_000 <= c[i].end_ns
                        - m[i].end_ns <= 500_000
                }
        },
{
    let m = subtitle::in_master_time(cues, segments);
    round_trip::law_serialize_parse_round_trip(m);
    let c = round_trip::all_written(m, 1);
    assert forall|i: int|
        #![trigger c[i]]
        0 <= i < c.len() implies {
        &&& c[i].text == m[i].text
        &&& c[i].index == i + 1
        &&& 0 <= m[i].start_ns <= u64::MAX * 1_000_000 ==> -500_000 <= c[i].start_ns - m[i].start_ns
            <= 500_000
        &&& 0 <= m[i].end_ns <= u64::MAX * 1_000_000 ==> -500_000 <= c[i].end_ns - m[i].end_ns
            <= 500_000
    } by {
        round_trip::law_stamp_precision(m[i].start_ns as int);
        round_trip::law_stamp_precision(m[i].end_ns as int);
    }
}

/// A document that cannot be read is refused with the reason.
pub proof fn law_unreadable_document(raw: Seq<char>, segments: Seq<Segment>)
    ensures
        srt::parsed(raw) matches Err(e) ==> shifted(raw, segments) == Err::<Seq<char>, _>(e),
        srt::parsed(raw) is Ok ==> shifted(raw, segments) is Ok,
{
}

/// A tag and a number of channels are those of the track with that index.
pub proof fn law_tags_are_of_the_track(streams: Seq<AudioStream>, i: int, key: Seq<char>)
    requires
        0 <= i < streams.len(),
        forall|j: int| 0 <= j < i ==> (#[trigger] streams[j]).index != streams[i].index,
    ensures
        tag_at(streams, streams[i].index, key) == ffprobe::tag_of(streams[i].tags@, key),
        channels_at(streams, streams[i].index) == streams[i].channels,
{
    law_streams_are_found_by_index(streams, Seq::empty(), streams[i].index);
}

/// A codec is refused where one of the dubs has more channels than it carries,
/// and only there.
pub proof fn law_codec_carries_the_dubs(
    tracks: Seq<u32>,
    streams: Seq<AudioStream>,
    codec: DubCodec,
)
    ensures
        channel_problem(tracks, streams, codec) is Some <==> exists|k: int|
            0 <= k < tracks.len() && #[trigger] channels_at(streams, tracks[k])
                > codec.channel_limit(),
    decreases tracks.len(),
{
    if tracks.len() > 0 {
        let rest = tracks.skip(1);
        law_codec_carries_the_dubs(rest, streams, codec);
        if channels_at(streams, tracks[0]) > codec.channel_limit() {
            assert(channel_problem(tracks, streams, codec) is Some);
        } else if channel_problem(rest, streams, codec) is Some {
            let k = choose|k: int|
                0 <= k < rest.len() && #[trigger] channels_at(streams, rest[k])
                    > codec.channel_limit();
            assert(channels_at(streams, tracks[k + 1]) > codec.channel_limit());
        }
        assert forall|k: int|
            0 <= k < tracks.len() && #[trigger] channels_at(streams, tracks[k])
                > codec.channel_limit() implies channel_problem(tracks, streams, codec) is Some by {
            if k > 0 {
                assert(channels_at(streams, rest[k - 1]) > codec.channel_limit());
            }
        }
    }
}

/// A track that is not there has no tag and no channels.
pub proof fn law_absent_track_has_nothing(streams: Seq<AudioStream>, index: u32, key: Seq<char>)
    requires
        forall|j: int| 0 <= j < streams.len() ==> (#[trigger] streams[j]).index != index,
    ensures
        tag_at(streams, index, key) is None,
        channels_at(streams, index) == 0,
{
    law_streams_are_found_by_index(streams, Seq::empty(), index);
}

} // verus!
