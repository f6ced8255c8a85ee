//! What is said about a run: its summary, and its offset map in the log.
use vstd::prelude::*;
use crate::args;
use crate::args::push_arg;
use crate::audio::vad::SilenceInterval;
use crate::cli::RunConfig;
use crate::correlation::offset_map::{OffsetMap, Segment};
use crate::correlation::refine;
use crate::ffprobe;
use crate::ffprobe::push_left_padded;
use crate::fixed;
use crate::pipeline::fps::FpsInfo;
use crate::report;
use crate::report::RunSummary;
use crate::sync::applier;
use crate::text;
use crate::time;

verus! {

/// How many interior boundaries there are.
pub open spec fn boundaries(segments: Seq<Segment>) -> int {
    if segments.len() == 0 {
        0
    } else {
        segments.len() - 1
    }
}

/// The boundary with the largest change of offset among the first `n`; the
/// first of them if there are several.
pub open spec fn largest_jump(segments: Seq<Segment>, n: int) -> Option<int>
    decreases n,
{
    if n <= 0 {
        None
    } else {
        match largest_jump(segments, n - 1) {
            Some(i) => if time::abs(applier::delta_at(segments, n - 1)) > time::abs(
                applier::delta_at(segments, i),
            ) {
                Some(n - 1)
            } else {
                Some(i)
            },
            None => Some(n - 1),
        }
    }
}

/// Whether some master silence takes boundary `i`.
pub open spec fn has_silence(
    segments: Seq<Segment>,
    i: int,
    silences: Seq<SilenceInterval>,
    radius: int,
) -> bool {
    exists|k: int|
        0 <= k < silences.len() && applier::qualifies(
            #[trigger] silences[k],
            segments[i].master_end_ns as int,
            applier::delta_at(segments, i),
            radius,
        )
}

/// How many of the first `n` boundaries a master silence takes.
pub open spec fn snap_count(
    segments: Seq<Segment>,
    n: int,
    silences: Seq<SilenceInterval>,
    radius: int,
) -> int
    decreases n,
{
    if n <= 0 {
        0
    } else {
        snap_count(segments, n - 1, silences, radius) + if has_silence(
            segments,
            n - 1,
            silences,
            radius,
        ) {
            1int
        } else {
            0
        }
    }
}

/// How much silence is inserted at the first `n` boundaries.
pub open spec fn inserted(segments: Seq<Segment>, n: int) -> int
    decreases n,
{
    if n <= 0 {
        0
    } else {
        inserted(segments, n - 1) + applier::gap_for(applier::delta_at(segments, n - 1))
    }
}

/// The summary of a run.
pub open spec fn is_summary(
    r: RunSummary,
    cfg: RunConfig,
    fps: FpsInfo,
    map: OffsetMap,
    silences: Seq<SilenceInterval>,
    elapsed_ns: u64,
) -> bool {
    let s = map.segments@;
    let n = boundaries(s);
    let total = map.anchor_count + map.rejected_count;
    &&& r.master_duration_ns == map.master_duration_ns
    &&& r.master_fps == fps.master_fps
    &&& r.donor_fps == fps.donor_fps
    &&& r.fps_stretch_ratio == fps.stretch_ratio
    &&& r.pal_pitch_applied == fps.pal_pitch_applied
    &&& r.auto_fps_disabled == (cfg.fps_mode == crate::cli::FpsMode::Disabled)
    &&& r.forced_fps_ratio_nano == cfg.fps_mode.ratio()
    &&& r.anchor_only_validation == cfg.anchor_only_validation
    &&& r.total_anchors == total
    &&& r.kept_anchors == map.anchor_count
    &&& r.rejected_anchors == map.rejected_count
    &&& r.segments == s.len()
    &&& r.low_confidence_ppm == if total > 0 {
        fixed::round_even(map.rejected_count * 1_000_000, total)
    } else {
        0
    }
    &&& match largest_jump(s, n) {
        Some(i) => {
            &&& r.max_jump_ns is Some
            &&& r.max_jump_ns->0 == applier::delta_at(s, i)
            &&& r.max_jump_at_master_ns == Some(s[i].master_end_ns)
        },
        None => r.max_jump_ns is None && r.max_jump_at_master_ns is None,
    }
    &&& r.master_snap_count == snap_count(s, n, silences, cfg.snap_radius_ns as int)
    &&& r.fallback_required_count == n - r.master_snap_count
    &&& r.total_silence_inserted_ns == inserted(s, n)
    &&& r.output_file@ == cfg.output_file@
    &&& r.elapsed_ns == elapsed_ns
}

fn find_silence(
    segments: &Vec<Segment>,
    i: usize,
    silences: &Vec<SilenceInterval>,
    radius: i64,
) -> (r: bool)
    requires
        applier::segments_in_range(segments@),
        applier::silences_in_range(silences@),
        i + 1 < segments@.len(),
        time::in_range(radius),
    ensures
        r == has_silence(segments@, i as int, silences@, radius as int),
{
    assert(refine::segment_in_range(segments@[i as int]));
    assert(refine::segment_in_range(segments@[i + 1]));
    assert(segments.len() == segments@.len());
    let boundary: i64 = segments[i].master_end_ns;
    let delta: i64 = segments[i + 1].donor_offset_ns - segments[i].donor_offset_ns;
    let needed: i64 = time::abs_i64(delta);
    let mut k: usize = 0;
    while k < silences.len()
        invariant
            k <= silences@.len(),
            applier::silences_in_range(silences@),
            time::in_range(radius),
            time::in_range(boundary),
            boundary == segments@[i as int].master_end_ns,
            delta == applier::delta_at(segments@, i as int),
            needed == time::abs(delta as int),
            forall|j: int|
                0 <= j < k ==> !applier::qualifies(
                    #[trigger] silences@[j],
                    boundary as int,
                    delta as int,
                    radius as int,
                ),
        decreases silences@.len() - k,
    {
        let s: SilenceInterval = silences[k];
        assert(time::in_range(silences@[k as int].start_ns));
        let far: i64 = time::abs_i64(s.start_ns + s.end_ns - 2 * boundary);
        if s.end_ns - s.start_ns >= needed && far <= 2 * radius {
            return true;
        }
        k += 1;
    }
    false
}

/// Rolls up what the phases found into the summary of the run.
pub fn build_run_summary(
    cfg: &RunConfig,
    fps: &FpsInfo,
    map: &OffsetMap,
    master_silences: &Vec<SilenceInterval>,
    elapsed_ns: u64,
) -> (r: RunSummary)
    requires
        applier::segments_in_range(map.segments@),
        applier::silences_in_range(master_silences@),
        time::in_range(cfg.snap_radius_ns),
        map.anchor_count + map.rejected_count <= usize::MAX,
    ensures
        is_summary(r, *cfg, *fps, *map, master_silences@, elapsed_ns),
{
    let total: usize = map.anchor_count + map.rejected_count;
    let low_confidence_ppm: u64 = if total > 0 {
        proof {
            assert(map.rejected_count * 1_000_000 <= total * 1_000_000);
            vstd::arithmetic::div_mod::lemma_div_is_ordered(
                map.rejected_count * 1_000_000,
                total * 1_000_000,
                total as int,
            );
            vstd::arithmetic::div_mod::lemma_div_multiples_vanish(1_000_000, total as int);
            assert(total * 1_000_000 == 1_000_000 * total) by (nonlinear_arith);
        }
        fixed::round_even_of(map.rejected_count as u128 * 1_000_000, total as u128) as u64
    } else {
        0
    };
    let ghost s = map.segments@;
    let n: usize = if map.segments.len() == 0 {
        0
    } else {
        map.segments.len() - 1
    };
    let mut best: Option<usize> = None;
    let mut best_delta: i64 = 0;
    let mut snaps: usize = 0;
    let mut silence: u128 = 0;
    let mut i: usize = 0;
    while i < n
        invariant
            i <= n == boundaries(s),
            s == map.segments@,
            applier::segments_in_range(s),
            applier::silences_in_range(master_silences@),
            time::in_range(cfg.snap_radius_ns),
            match best {
                Some(b) => largest_jump(s, i as int) == Some(b as int) && b < i && best_delta
                    == applier::delta_at(s, b as int),
                None => largest_jump(s, i as int) is None,
            },
            -2 * time::TIME_LIMIT <= best_delta <= 2 * time::TIME_LIMIT,
            snaps == snap_count(s, i as int, master_silences@, cfg.snap_radius_ns as int),
            snaps <= i,
            silence == inserted(s, i as int),
            silence <= i * (2 * time::TIME_LIMIT),
        decreases n - i,
    {
        assert(refine::segment_in_range(s[i as int]));
        assert(refine::segment_in_range(s[i + 1]));
        let delta: i64 = map.segments[i + 1].donor_offset_ns - map.segments[i].donor_offset_ns;
        let larger = match best {
            Some(_) => time::abs_i64(delta) > time::abs_i64(best_delta),
            None => true,
        };
        if larger {
            best = Some(i);
            best_delta = delta;
        }
        proof {
            assert(i * (2 * time::TIME_LIMIT) <= 0xffff_ffff_ffff_ffff * (2 * time::TIME_LIMIT))
                by (nonlinear_arith)
                requires
                    i <= 0xffff_ffff_ffff_ffff,
                    time::TIME_LIMIT > 0,
            ;
            assert((i + 1) * (2 * time::TIME_LIMIT) == i * (2 * time::TIME_LIMIT) + 2
                * time::TIME_LIMIT) by (nonlinear_arith);
        }
        if delta < 0 {
            silence += (-delta) as u128;
        }
        if find_silence(&map.segments, i, master_silences, cfg.snap_radius_ns) {
            snaps += 1;
        }
        i += 1;
    }
    let (max_jump_ns, max_jump_at_master_ns): (Option<i64>, Option<i64>) = match best {
        Some(b) => (Some(best_delta), Some(map.segments[b].master_end_ns)),
        None => (None, None),
    };
    RunSummary {
        master_duration_ns: map.master_duration_ns,
        master_fps: fps.master_fps,
        donor_fps: fps.donor_fps,
        fps_stretch_ratio: fps.stretch_ratio,
        pal_pitch_applied: fps.pal_pitch_applied,
        auto_fps_disabled: cfg.fps_mode.is_disabled(),
        forced_fps_ratio_nano: cfg.fps_mode.forced_ratio(),
        anchor_only_validation: cfg.anchor_only_validation,
        total_anchors: total,
        kept_anchors: map.anchor_count,
        rejected_anchors: map.rejected_count,
        segments: map.segments.len(),
        low_confidence_ppm,
        max_jump_ns,
        max_jump_at_master_ns,
        master_snap_count: snaps,
        fallback_required_count: n - snaps,
        total_silence_inserted_ns: silence,
        output_file: String::from_str(cfg.output_file.as_str()),
        elapsed_ns,
    }
}

/// No boundary changes the offset by more than the one that the summary names.
pub proof fn law_largest_jump(segments: Seq<Segment>, n: int)
    requires
        0 <= n < segments.len(),
    ensures
        n > 0 ==> largest_jump(segments, n) is Some,
        largest_jump(segments, n) matches Some(b) ==> 0 <= b < n && forall|i: int|
            0 <= i < n ==> time::abs(#[trigger] applier::delta_at(segments, i)) <= time::abs(
                applier::delta_at(segments, b),
            ),
    decreases n,
{
    if n > 0 {
        law_largest_jump(segments, n - 1);
    }
}

/// The report shows a master silence at exactly the boundaries that the summary
/// counts as having one, and the splicer finds one there too.
pub proof fn law_report_agrees_with_summary(
    row: report::BoundaryRow,
    segments: Seq<Segment>,
    i: int,
    silences: Seq<SilenceInterval>,
    radius: int,
)
    requires
        report::is_boundary_row(row, segments, i, silences, radius),
    ensures
        row.master_silence_used <==> has_silence(segments, i, silences, radius),
        forall|m: Option<applier::MasterSnap>|
            applier::is_master_snap(m, segments, i, silences, radius) ==> m == report::row_snap(
                row,
            ),
{
    let b = segments[i].master_end_ns as int;
    let d = applier::delta_at(segments, i);
    if let Some(m) = report::row_snap(row) {
        let k = choose|k: int|
            applier::is_best(silences, silences.len() as int, k, b, d, radius) && m
                == applier::snap_into(#[trigger] silences[k], d);
        assert(applier::qualifies(silences[k], b, d, radius));
    }
    assert forall|m: Option<applier::MasterSnap>|
        applier::is_master_snap(m, segments, i, silences, radius) implies m == report::row_snap(
        row,
    ) by {
        applier::law_master_snap_is_unique(
            m,
            report::row_snap(row),
            segments,
            i,
            silences,
            radius,
        );
    }
}

/// A segment in the log.
pub open spec fn segment_line(segments: Seq<Segment>, i: int) -> Seq<char> {
    let s = segments[i];
    "  seg #"@ + text::decimal(i as nat) + ": master "@ + ffprobe::pad_left(
        fixed::seconds2(s.master_start_ns as int),
        8,
    ) + ".."@ + ffprobe::pad_left(fixed::seconds2(s.master_end_ns as int), 8) + "s ("@
        + ffprobe::pad_left(fixed::seconds2(s.master_end_ns - s.master_start_ns), 6)
        + "s)  offset "@ + fixed::plus_seconds3(s.donor_offset_ns as int) + "s"@ + (if i > 0 {
        "  jump "@ + fixed::plus_seconds3(applier::delta_at(segments, i - 1)) + "s"@
    } else {
        ""@
    })
}

/// The start of the output, if it is silenced for want of evidence.
pub open spec fn lead_lines(map: OffsetMap) -> Seq<Seq<char>> {
    if map.valid_master_start_ns > 500_000_000 {
        seq![
            "  lead-in [0.00.."@ + fixed::seconds2(map.valid_master_start_ns as int)
                + "s] has no correlation evidence — synced dubs will be SILENCED there"@,
        ]
    } else {
        Seq::empty()
    }
}

/// The end of the output, if it is silenced for want of evidence.
pub open spec fn tail_lines(map: OffsetMap) -> Seq<Seq<char>> {
    if map.master_duration_ns - map.valid_master_end_ns > 500_000_000 {
        seq![
            "  tail-out ["@ + fixed::seconds2(map.valid_master_end_ns as int) + ".."@
                + fixed::seconds2(map.master_duration_ns as int)
                + "s] has no correlation evidence — synced dubs will be SILENCED there"@,
        ]
    } else {
        Seq::empty()
    }
}

pub open spec fn map_lines(map: OffsetMap) -> Seq<Seq<char>> {
    lead_lines(map) + tail_lines(map) + Seq::new(
        map.segments@.len(),
        |i: int| segment_line(map.segments@, i),
    )
}

fn push_seconds2_padded(out: &mut String, ns: i64, width: usize)
    ensures
        final(out)@ == old(out)@ + ffprobe::pad_left(fixed::seconds2(ns as int), width as nat),
{
    let mut t = String::new();
    fixed::push_seconds2(&mut t, ns);
    assert(t@ =~= fixed::seconds2(ns as int));
    push_left_padded(out, t.as_str(), width);
}

fn segment_text(segments: &Vec<Segment>, i: usize) -> (r: String)
    requires
        applier::segments_in_range(segments@),
        i < segments@.len(),
    ensures
        r@ == segment_line(segments@, i as int),
{
    assert(refine::segment_in_range(segments@[i as int]));
    let s: Segment = segments[i];
    let mut r = String::from_str("  seg #");
    text::push_decimal(&mut r, i as u64);
    r.append(": master ");
    push_seconds2_padded(&mut r, s.master_start_ns, 8);
    r.append("..");
    push_seconds2_padded(&mut r, s.master_end_ns, 8);
    r.append("s (");
    push_seconds2_padded(&mut r, s.master_end_ns - s.master_start_ns, 6);
    r.append("s)  offset ");
    fixed::push_plus_seconds3(&mut r, s.donor_offset_ns);
    r.append("s");
    if i > 0 {
        assert(refine::segment_in_range(segments@[i - 1]));
        let mut jump = String::from_str("  jump ");
        fixed::push_plus_seconds3(&mut jump, s.donor_offset_ns - segments[i - 1].donor_offset_ns);
        jump.append("s");
        r.append(jump.as_str());
    } else {
        r.append("");
    }
    r
}

/// The offset map in lines for the log: what is silenced at the ends, and every
/// segment with its jump.
pub fn offset_map_lines(map: &OffsetMap) -> (r: Vec<String>)
    requires
        applier::segments_in_range(map.segments@),
        time::in_range(map.master_duration_ns),
        time::in_range(map.valid_master_end_ns),
    ensures
        args::views(r@) == map_lines(*map),
{
    let mut r: Vec<String> = Vec::new();
    if map.valid_master_start_ns > 500_000_000 {
        let mut l = String::from_str("  lead-in [0.00..");
        fixed::push_seconds2(&mut l, map.valid_master_start_ns);
        l.append("s] has no correlation evidence — synced dubs will be SILENCED there");
        push_arg(&mut r, l.as_str());
    }
    assert(args::views(r@) =~= lead_lines(*map));
    if map.master_duration_ns - map.valid_master_end_ns > 500_000_000 {
        let mut l = String::from_str("  tail-out [");
        fixed::push_seconds2(&mut l, map.valid_master_end_ns);
        l.append("..");
        fixed::push_seconds2(&mut l, map.master_duration_ns);
        l.append("s] has no correlation evidence — synced dubs will be SILENCED there");
        push_arg(&mut r, l.as_str());
    }
    assert(args::views(r@) =~= lead_lines(*map) + tail_lines(*map));
    let ghost before = args::views(r@);
    let ghost all = Seq::new(map.segments@.len(), |i: int| segment_line(map.segments@, i));
    let mut i: usize = 0;
    while i < map.segments.len()
        invariant
            i <= map.segments@.len(),
            applier::segments_in_range(map.segments@),
            all == Seq::new(map.segments@.len(), |i: int| segment_line(map.segments@, i)),
            args::views(r@) == before + all.take(i as int),
        decreases map.segments@.len() - i,
    {
        push_arg(&mut r, segment_text(&map.segments, i).as_str());
        i += 1;
        assert(args::views(r@) =~= before + all.take(i as int));
    }
    assert(all.take(i as int) =~= all);
    r
}

/// How the anchors are to be correlated.
#[derive(Clone, Copy, Debug, PartialEq, Eq, Structural)]
pub struct CorrelationPlan {
    /// From one window to the next.
    pub hop_ns: i64,
    /// How far a boundary may first lie from where it was found.
    pub half_hop_ns: i64,
    pub master_duration_ns: i128,
}

/// Anchors below this confidence are not used.
pub const MIN_CONFIDENCE: i64 = 6_000_000;

/// What is said of anchors with different sample rates.
pub open spec fn rates_text(master: u32, donor: u32) -> Seq<char> {
    "anchor sample rates differ: master "@ + text::decimal(master as nat) + "Hz vs donor "@
        + text::decimal(donor as nat) + "Hz"@
}

/// The correlation of two anchors: windows overlap by half.
pub open spec fn correlation_of(window_ns: i64, rate: u32, master_samples: i64) -> CorrelationPlan {
    CorrelationPlan {
        hop_ns: (window_ns as int / 2) as i64,
        half_hop_ns: (window_ns as int / 4) as i64,
        master_duration_ns: time::to_ns(master_samples as int, rate as int) as i128,
    }
}

/// Plans the correlation of two anchors, which have to have one sample rate.
pub fn plan_correlation(window_ns: i64, master_rate: u32, donor_rate: u32, master_samples: i64)
    -> (r: Result<CorrelationPlan, String>)
    requires
        master_rate > 0,
        0 <= master_samples,
        0 <= window_ns,
    ensures
        if master_rate != donor_rate {
            r matches Err(e) && e@ == rates_text(master_rate, donor_rate)
        } else {
            r matches Ok(p) && p == correlation_of(window_ns, master_rate, master_samples)
                && p.master_duration_ns == time::to_ns(master_samples as int, master_rate as int)
        },
{
    if master_rate != donor_rate {
        let mut m = String::from_str("anchor sample rates differ: master ");
        text::push_decimal(&mut m, master_rate as u64);
        m.append("Hz vs donor ");
        text::push_decimal(&mut m, donor_rate as u64);
        m.append("Hz");
        return Err(m);
    }
    Ok(
        CorrelationPlan {
            hop_ns: window_ns / 2,
            half_hop_ns: window_ns / 4,
            master_duration_ns: time::div_round(
                master_samples as i128 * 1_000_000_000,
                master_rate as i128,
            ),
        },
    )
}

/// Windows overlap by half, boundaries are found to a quarter of a window, and
/// the master lasts as long as its samples, to half a nanosecond.
pub proof fn law_correlation_plan(window_ns: i64, rate: u32, master_samples: i64)
    requires
        rate > 0,
        window_ns >= 0,
        master_samples >= 0,
    ensures
        ({
            let p = correlation_of(window_ns, rate, master_samples);
            &&& 2 * p.hop_ns <= window_ns <= 2 * p.hop_ns + 1
            &&& 4 * p.half_hop_ns <= window_ns <= 4 * p.half_hop_ns + 3
            &&& -rate <= 2 * (p.master_duration_ns * rate - master_samples * 1_000_000_000) <= rate
        }),
{
    let n = master_samples * 1_000_000_000;
    time::law_time_of_samples(master_samples as int, rate as int);
    assert(n <= i64::MAX * 1_000_000_000 * rate) by (nonlinear_arith)
        requires
            n == master_samples * 1_000_000_000,
            master_samples <= i64::MAX,
            rate >= 1,
    ;
    time::lemma_round_div_bounds(n, rate as int, 0, i64::MAX * 1_000_000_000);
}

/// The jump that a summary names is the change of offset between two
/// neighbouring segments, at the end of the first, and none is larger; the
/// first of several is named.
pub proof fn law_summary_names_the_largest_jump(
    r: RunSummary,
    cfg: RunConfig,
    fps: FpsInfo,
    map: OffsetMap,
    silences: Seq<SilenceInterval>,
    elapsed_ns: u64,
    k: int,
)
    requires
        is_summary(r, cfg, fps, map, silences, elapsed_ns),
        0 <= k < map.segments@.len() - 1,
    ensures
        ({
            let s = map.segments@;
            let d = s[k + 1].donor_offset_ns - s[k].donor_offset_ns;
            &&& r.max_jump_ns is Some && r.max_jump_at_master_ns is Some
            &&& exists|i: int|
                0 <= i < s.len() - 1 && (#[trigger] s[i]).master_end_ns == r.max_jump_at_master_ns->0
                    && s[i + 1].donor_offset_ns - s[i].donor_offset_ns == r.max_jump_ns->0 && (k < i
                    ==> time::abs(d) < time::abs(r.max_jump_ns->0 as int))
            &&& -time::abs(r.max_jump_ns->0 as int) <= d <= time::abs(r.max_jump_ns->0 as int)
        }),
{
    let s = map.segments@;
    let n = boundaries(s);
    lemma_first_largest(s, n);
    let b = largest_jump(s, n)->0;
    assert(s[b] == s[b]);
    let d = applier::delta_at(s, k);
    assert(time::abs(d) <= time::abs(applier::delta_at(s, b)));
}

proof fn lemma_first_largest(segments: Seq<Segment>, n: int)
    requires
        0 <= n < segments.len(),
    ensures
        n > 0 ==> largest_jump(segments, n) is Some,
        largest_jump(segments, n) matches Some(b) ==> 0 <= b < n && (forall|i: int|
            0 <= i < n ==> time::abs(#[trigger] applier::delta_at(segments, i)) <= time::abs(
                applier::delta_at(segments, b),
            )) && (forall|i: int|
            0 <= i < b ==> time::abs(#[trigger] applier::delta_at(segments, i)) < time::abs(
                applier::delta_at(segments, b),
            )),
    decreases n,
{
    if n > 0 {
        lemma_first_largest(segments, n - 1);
    }
}

/// The silence that a run inserts is the sum of what the donor falls behind by:
/// another segment adds as much as the offset falls there, and nothing if it
/// does not fall.
pub proof fn law_inserted_silence_adds_up(segments: Seq<Segment>, n: int)
    requires
        0 <= n < segments.len() - 1,
    ensures
        inserted(segments, 0) == 0,
        ({
            let fall = segments[n].donor_offset_ns - segments[n + 1].donor_offset_ns;
            inserted(segments, n + 1) - inserted(segments, n) == if fall > 0 {
                fall
            } else {
                0
            }
        }),
{
}

/// A boundary counts as snapped if and only if some silence at least as wide as
/// the change of offset has its middle within the radius; the others fall back.
pub proof fn law_snapped_boundaries(
    segments: Seq<Segment>,
    n: int,
    silences: Seq<SilenceInterval>,
    radius: int,
)
    requires
        0 <= n < segments.len() - 1,
    ensures
        snap_count(segments, 0, silences, radius) == 0,
        ({
            let d = segments[n + 1].donor_offset_ns - segments[n].donor_offset_ns;
            let b = segments[n].master_end_ns;
            let fits = exists|k: int|
                0 <= k < silences.len() && -((#[trigger] silences[k]).end_ns - silences[k].start_ns)
                    <= d <= silences[k].end_ns - silences[k].start_ns && -2 * radius
                    <= silences[k].start_ns + silences[k].end_ns - 2 * b <= 2 * radius;
            snap_count(segments, n + 1, silences, radius) - snap_count(segments, n, silences, radius)
                == if fits {
                1int
            } else {
                0int
            }
        }),
{
    let b = segments[n].master_end_ns as int;
    let d = applier::delta_at(segments, n);
    assert forall|k: int| 0 <= k < silences.len() implies applier::qualifies(
        #[trigger] silences[k],
        b,
        d,
        radius,
    ) == (-(silences[k].end_ns - silences[k].start_ns) <= d <= silences[k].end_ns
        - silences[k].start_ns && -2 * radius <= silences[k].start_ns + silences[k].end_ns - 2 * b <= 2
        * radius) by {}
    if has_silence(segments, n, silences, radius) {
        let k = choose|k: int|
            0 <= k < silences.len() && applier::qualifies(#[trigger] silences[k], b, d, radius);
        assert(-(silences[k].end_ns - silences[k].start_ns) <= d);
    }
}

/// What a summary counts adds up, and its numbers are those of the map.
pub proof fn law_summary_adds_up(
    r: RunSummary,
    cfg: RunConfig,
    fps: FpsInfo,
    map: OffsetMap,
    silences: Seq<SilenceInterval>,
    elapsed_ns: u64,
)
    requires
        is_summary(r, cfg, fps, map, silences, elapsed_ns),
    ensures
        r.kept_anchors + r.rejected_anchors == r.total_anchors,
        r.kept_anchors == map.anchor_count,
        r.segments == map.segments@.len(),
        r.segments > 0 ==> r.master_snap_count + r.fallback_required_count == r.segments - 1,
        r.master_duration_ns == map.master_duration_ns,
        r.total_anchors > 0 ==> -r.total_anchors <= 2 * (r.low_confidence_ppm * r.total_anchors
            - r.rejected_anchors * 1_000_000) <= r.total_anchors,
        r.total_anchors == 0 ==> r.low_confidence_ppm == 0,
        r.segments <= 1 ==> r.max_jump_ns is None && r.max_jump_at_master_ns is None
            && r.total_silence_inserted_ns == 0,
{
    let total = map.anchor_count + map.rejected_count;
    if total > 0 {
        fixed::law_round_even(map.rejected_count * 1_000_000, total);
    }
}

/// A line tells of every segment, in order, in front of them of more than half a
/// second without evidence at the start, then at the end.
pub proof fn law_map_in_lines(map: OffsetMap, i: int)
    requires
        0 <= i < map.segments@.len(),
    ensures
        ({
            let v = map_lines(map);
            let n = map.segments@.len();
            &&& map.valid_master_start_ns > 500_000_000 <==> lead_lines(map).len() == 1
            &&& map.valid_master_start_ns <= 500_000_000 <==> lead_lines(map).len() == 0
            &&& map.master_duration_ns > map.valid_master_end_ns + 500_000_000 <==> tail_lines(
                map,
            ).len() == 1
            &&& map.master_duration_ns <= map.valid_master_end_ns + 500_000_000 <==> tail_lines(
                map,
            ).len() == 0
            &&& v.len() == lead_lines(map).len() + tail_lines(map).len() + n
            &&& v[v.len() - n + i] == segment_line(map.segments@, i)
        }),
{
}

/// The line of a segment tells where it starts and ends on the master, how long
/// it lasts, its offset, and by how much that differs from the segment before.
pub proof fn law_segment_in_a_line(segments: Seq<Segment>, i: int)
    requires
        0 <= i < segments.len(),
    ensures
        ({
            let s = segments[i];
            let head = "  seg #"@ + text::decimal(i as nat) + ": master "@ + ffprobe::pad_left(
                fixed::seconds2(s.master_start_ns as int),
                8,
            ) + ".."@ + ffprobe::pad_left(fixed::seconds2(s.master_end_ns as int), 8) + "s ("@
                + ffprobe::pad_left(fixed::seconds2(s.master_end_ns - s.master_start_ns), 6)
                + "s)  offset "@ + fixed::plus_seconds3(s.donor_offset_ns as int) + "s"@;
            &&& i == 0 ==> segment_line(segments, i) == head + ""@
            &&& i > 0 ==> segment_line(segments, i) == head + ("  jump "@ + fixed::plus_seconds3(
                s.donor_offset_ns - segments[i - 1].donor_offset_ns,
            ) + "s"@)
        }),
{
}

} // verus!
