//! Filling the gap at a splice with time-stretched neighbouring audio.
//!
//! The audio before and behind a gap is stretched so that each side reaches
//! into the gap, and replaces what was there. Where the two sides meet they
//! are crossfaded; where they do not, silence is left between them with soft
//! fades. Speech is never stretched.
use vstd::prelude::*;
use crate::audio::vad::Verdict;
use crate::correlation::offset_map::Segment;
use crate::sync::applier;
use crate::sync::applier::SpliceConfig;
use crate::sync::render;
use crate::time;

verus! {

/// What filling needs to know of the whole.
#[derive(Clone, Copy, Debug)]
pub struct FillSetup {
    pub rate: u32,
    pub donor_frames: i64,
    pub margin_ns: i64,
    pub xfade_ns: i64,
    /// Largest stretch, in millionths; at least one.
    pub max_ratio_ppm: i64,
}

impl FillSetup {
    pub open spec fn wf(&self) -> bool {
        &&& 0 < self.rate
        &&& 0 <= self.donor_frames <= time::TIME_LIMIT
        &&& 0 < self.margin_ns <= time::TIME_LIMIT
        &&& 0 <= self.xfade_ns <= 50_000_000
        &&& 1_000_000 <= self.max_ratio_ppm
    }
}

/// The setup that a configuration asks for; `None` without a margin. Without
/// frames there is nothing to fill either.
pub open spec fn setup_of(cfg: SpliceConfig, rate: u32, donor_frames: i64) -> Option<FillSetup> {
    if cfg.gap_fill_margin_ns <= 0 || rate == 0 {
        None
    } else {
        Some(
            FillSetup {
                rate,
                donor_frames,
                margin_ns: cfg.gap_fill_margin_ns,
                xfade_ns: (applier::crossfade_used(cfg.crossfade_ms as int) * 1_000_000) as i64,
                max_ratio_ppm: time::max2(cfg.gap_fill_max_ratio_ppm as int, 1_000_000) as i64,
            },
        )
    }
}

pub fn fill_setup(cfg: &SpliceConfig, rate: u32, donor_frames: i64) -> (r: Option<FillSetup>)
    requires
        0 <= donor_frames <= time::TIME_LIMIT,
        time::in_range(cfg.gap_fill_margin_ns),
    ensures
        r == setup_of(*cfg, rate, donor_frames),
        r matches Some(s) ==> s.wf(),
{
    if cfg.gap_fill_margin_ns <= 0 || rate == 0 {
        return None;
    }
    Some(
        FillSetup {
            rate,
            donor_frames,
            margin_ns: cfg.gap_fill_margin_ns,
            xfade_ns: applier::crossfade_ns(cfg),
            max_ratio_ppm: time::max_i64(cfg.gap_fill_max_ratio_ppm, 1_000_000),
        },
    )
}

/// The audio on both sides of a gap: donor frames `pre_lo..pre_hi` and
/// `post_lo..post_hi`, and how long each is to be after stretching.
#[derive(Clone, Copy, Debug)]
pub struct GapSources {
    pub pre_lo: i64,
    pub pre_hi: i64,
    pub post_lo: i64,
    pub post_hi: i64,
    pub target_pre_ns: i64,
    pub target_post_ns: i64,
    /// The stretch of the master that is replaced: the gap and both sources.
    pub zone_start: i64,
    pub zone_frames: i64,
}

/// Why a gap is not filled.
#[derive(Clone, Copy, Debug, PartialEq, Eq, Structural)]
pub enum GapSkip {
    /// The segments overlap or touch.
    NoGap,
    /// A neighbour is no longer than the crossfade.
    NoMargin,
    /// There is no donor audio on one side.
    OutOfBounds,
}

/// How much of a segment of length `len` may be replaced: the margin, but not
/// the segment's own crossfade.
pub open spec fn usable_margin(setup: FillSetup, len: int) -> int {
    time::min2(setup.margin_ns as int, time::max2(len - setup.xfade_ns, 0))
}

/// How far a source of `frames` frames reaches into the gap: half of it, or
/// what the largest stretch allows.
pub open spec fn extension(setup: FillSetup, frames: int, gap_ns: int) -> int {
    time::min2(
        gap_ns / 2,
        time::to_ns(frames, setup.rate as int) * (setup.max_ratio_ppm - 1_000_000) / 1_000_000,
    )
}

pub open spec fn clamp_frame(x: int, max: int) -> int {
    time::min2(time::max2(x, 0), max)
}

/// The sources for the gap between two segments.
pub open spec fn sources_of(a: Segment, b: Segment, setup: FillSetup) -> Result<
    GapSources,
    GapSkip,
> {
    let rate = setup.rate as int;
    let gap = b.master_start_ns - a.master_end_ns;
    let margin_pre = usable_margin(setup, a.master_end_ns - a.master_start_ns);
    let margin_post = usable_margin(setup, b.master_end_ns - b.master_start_ns);
    let pre_end = time::to_samples(a.master_end_ns + a.donor_offset_ns, rate);
    let post_start = time::to_samples(b.master_start_ns + b.donor_offset_ns, rate);
    let pre_lo = time::max2(pre_end - time::to_samples(margin_pre, rate), 0);
    let pre_hi = clamp_frame(pre_end, setup.donor_frames as int);
    let post_lo = time::max2(post_start, 0);
    let post_hi = clamp_frame(
        post_start + time::to_samples(margin_post, rate),
        setup.donor_frames as int,
    );
    if gap * rate <= time::NS_PER_S {
        Err(GapSkip::NoGap)
    } else if margin_pre <= 0 || margin_post <= 0 {
        Err(GapSkip::NoMargin)
    } else if pre_hi <= pre_lo || post_hi <= post_lo {
        Err(GapSkip::OutOfBounds)
    } else {
        let pre = pre_hi - pre_lo;
        let post = post_hi - post_lo;
        Ok(
            GapSources {
                pre_lo: pre_lo as i64,
                pre_hi: pre_hi as i64,
                post_lo: post_lo as i64,
                post_hi: post_hi as i64,
                target_pre_ns: (time::to_ns(pre, rate) + extension(setup, pre, gap)) as i64,
                target_post_ns: (time::to_ns(post, rate) + extension(setup, post, gap)) as i64,
                zone_start: (time::to_samples(a.master_end_ns as int, rate) - pre) as i64,
                zone_frames: (time::to_samples(gap, rate) + pre + post) as i64,
            },
        )
    }
}

/// Segments between which a gap can be filled: donor times in range too.
pub open spec fn fillable(a: Segment, b: Segment) -> bool {
    &&& render::renderable(a)
    &&& render::renderable(b)
    &&& -time::TIME_LIMIT <= a.master_end_ns + a.donor_offset_ns <= time::TIME_LIMIT
    &&& -time::TIME_LIMIT <= b.master_start_ns - a.master_end_ns <= time::TIME_LIMIT
}

proof fn lemma_ns_bound(frames: int, rate: int, ns: int)
    requires
        0 < rate,
        0 <= frames,
        0 <= ns <= time::TIME_LIMIT,
        frames <= time::to_samples(ns, rate) + 1,
    ensures
        0 <= time::to_ns(frames, rate) <= ns + 2 * time::NS_PER_S,
{
    time::lemma_round_div(ns * rate, time::NS_PER_S as int);
    let n = frames * time::NS_PER_S;
    assert(ns * rate >= 0) by (nonlinear_arith)
        requires
            ns >= 0,
            rate > 0,
    ;
    let q = time::to_samples(ns, rate);
    assert(2 * (q * time::NS_PER_S) <= 2 * (ns * rate) + time::NS_PER_S);
    assert(2 * n <= 2 * (ns * rate) + 3 * time::NS_PER_S);
    assert((ns + 2 * time::NS_PER_S) * rate >= ns * rate + 2 * time::NS_PER_S) by (nonlinear_arith)
        requires
            rate >= 1,
            time::NS_PER_S == 1_000_000_000,
    ;
    assert(0 * rate <= n) by (nonlinear_arith)
        requires
            n >= 0,
    ;
    time::lemma_round_div_bounds(n, rate, 0, ns + 2 * time::NS_PER_S);
}

/// How long a source of `frames` frames is to be after stretching.
fn target_of(setup: &FillSetup, frames: i64, gap_ns: i64) -> (r: i64)
    requires
        setup.wf(),
        0 <= frames <= time::to_samples(setup.margin_ns as int, setup.rate as int) + 1,
        frames <= 2 * time::TIME_LIMIT,
        0 <= gap_ns <= time::TIME_LIMIT,
    ensures
        r == time::to_ns(frames as int, setup.rate as int) + extension(
            *setup,
            frames as int,
            gap_ns as int,
        ),
        0 <= r <= 4 * time::TIME_LIMIT,
{
    proof {
        lemma_ns_bound(frames as int, setup.rate as int, setup.margin_ns as int);
    }
    let source_ns: i64 = time::div_round(
        frames as i128 * 1_000_000_000,
        setup.rate as i128,
    ) as i64;
    let extra: i128 = (setup.max_ratio_ppm - 1_000_000) as i128;
    assert(0 <= source_ns * extra <= 2 * time::TIME_LIMIT * i64::MAX) by (nonlinear_arith)
        requires
            0 <= source_ns <= 2 * time::TIME_LIMIT,
            0 <= extra <= i64::MAX,
            time::TIME_LIMIT > 0,
    ;
    let reach: i128 = source_ns as i128 * extra / 1_000_000;
    let half: i64 = gap_ns / 2;
    let reached: i64 = if (half as i128) <= reach {
        half
    } else {
        reach as i64
    };
    source_ns + reached
}

fn margin_of(setup: &FillSetup, len: i64) -> (r: i64)
    requires
        setup.wf(),
        -2 * time::TIME_LIMIT <= len <= 2 * time::TIME_LIMIT,
    ensures
        r == usable_margin(*setup, len as int),
        0 <= r <= setup.margin_ns,
{
    time::min_i64(setup.margin_ns, time::max_i64(len - setup.xfade_ns, 0))
}

fn clamped(x: i128, max: i64) -> (r: i64)
    requires
        0 <= max,
    ensures
        r == clamp_frame(x as int, max as int),
{
    if x <= 0 {
        0
    } else if x <= max as i128 {
        x as i64
    } else {
        max
    }
}

/// A longer time holds no fewer frames.
proof fn lemma_samples_monotone(a: int, b: int, rate: int)
    requires
        0 <= a <= b,
        0 <= rate,
    ensures
        time::to_samples(a, rate) <= time::to_samples(b, rate),
{
    assert(0 <= a * rate <= b * rate) by (nonlinear_arith)
        requires
            0 <= a <= b,
            0 <= rate,
    ;
    vstd::arithmetic::div_mod::lemma_div_is_ordered(
        2 * (a * rate) + time::NS_PER_S,
        2 * (b * rate) + time::NS_PER_S,
        2 * time::NS_PER_S as int,
    );
}

/// Finds the audio on both sides of the gap between two segments.
pub fn plan_gap(a: &Segment, b: &Segment, setup: &FillSetup) -> (r: Result<GapSources, GapSkip>)
    requires
        setup.wf(),
        fillable(*a, *b),
    ensures
        r == sources_of(*a, *b, *setup),
{
    let rate: u32 = setup.rate;
    let gap: i64 = b.master_start_ns - a.master_end_ns;
    assert(-time::TIME_LIMIT * u32::MAX <= gap * rate <= time::TIME_LIMIT * u32::MAX)
        by (nonlinear_arith)
        requires
            -time::TIME_LIMIT <= gap <= time::TIME_LIMIT,
            0 < rate <= u32::MAX,
            time::TIME_LIMIT > 0,
    ;
    if gap as i128 * rate as i128 <= 1_000_000_000 {
        return Err(GapSkip::NoGap);
    }
    assert(gap > 0) by (nonlinear_arith)
        requires
            gap * rate > 1_000_000_000,
            rate > 0,
    ;
    let margin_pre: i64 = margin_of(setup, a.master_end_ns - a.master_start_ns);
    let margin_post: i64 = margin_of(setup, b.master_end_ns - b.master_start_ns);
    if margin_pre <= 0 || margin_post <= 0 {
        return Err(GapSkip::NoMargin);
    }
    proof {
        let rt = rate as int;
        lemma_samples_monotone(margin_pre as int, setup.margin_ns as int, rt);
        lemma_samples_monotone(margin_post as int, setup.margin_ns as int, rt);
    }
    let pre_end: i64 = time::samples_of(a.master_end_ns + a.donor_offset_ns, rate);
    let post_start: i64 = time::samples_of(b.master_start_ns + b.donor_offset_ns, rate);
    let pre_from: i128 = pre_end as i128 - time::samples_of(margin_pre, rate) as i128;
    let pre_lo: i64 = if pre_from > 0 {
        pre_from as i64
    } else {
        0
    };
    let pre_hi: i64 = clamped(pre_end as i128, setup.donor_frames);
    let post_lo: i64 = time::max_i64(post_start, 0);
    let post_hi: i64 = clamped(
        post_start as i128 + time::samples_of(margin_post, rate) as i128,
        setup.donor_frames,
    );
    if pre_hi <= pre_lo || post_hi <= post_lo {
        return Err(GapSkip::OutOfBounds);
    }
    let pre: i64 = pre_hi - pre_lo;
    let post: i64 = post_hi - post_lo;
    Ok(
        GapSources {
            pre_lo,
            pre_hi,
            post_lo,
            post_hi,
            target_pre_ns: target_of(setup, pre, gap),
            target_post_ns: target_of(setup, post, gap),
            zone_start: time::samples_of(a.master_end_ns, rate) - pre,
            zone_frames: time::samples_of(gap, rate) + pre + post,
        },
    )
}

/// The frames from `lo` to `hi` hold the gap between two segments, and no more
/// on either side than the margin, up to a frame of rounding.
pub open spec fn zone_near_gap(a: Segment, b: Segment, setup: FillSetup, lo: int, hi: int) -> bool {
    let rate = setup.rate as int;
    let margin = time::to_samples(setup.margin_ns as int, rate);
    let gap_lo = time::to_samples(a.master_end_ns as int, rate);
    let gap_hi = time::to_samples(b.master_start_ns as int, rate);
    &&& gap_lo - margin <= lo <= gap_lo
    &&& gap_hi <= hi <= gap_hi + margin + 1
}

/// Frames of a time in range.
proof fn lemma_samples_bound(ns: int, rate: int)
    requires
        -time::TIME_LIMIT <= ns <= time::TIME_LIMIT,
        0 <= rate <= u32::MAX,
    ensures
        -5 * time::TIME_LIMIT <= time::to_samples(ns, rate) <= 5 * time::TIME_LIMIT,
{
    assert(-time::TIME_LIMIT * u32::MAX <= ns * rate <= time::TIME_LIMIT * u32::MAX)
        by (nonlinear_arith)
        requires
            -time::TIME_LIMIT <= ns <= time::TIME_LIMIT,
            0 <= rate <= u32::MAX,
            time::TIME_LIMIT > 0,
    ;
    time::lemma_round_div_bounds(
        ns * rate,
        time::NS_PER_S as int,
        -5 * time::TIME_LIMIT,
        5 * time::TIME_LIMIT,
    );
}

/// Rounding two times to frames apart is off by at most one frame.
proof fn lemma_samples_sum(x: int, y: int, rate: int)
    ensures
        -1 <= time::to_samples(x, rate) + time::to_samples(y, rate) - time::to_samples(x + y, rate)
            <= 1,
{
    let d = time::NS_PER_S as int;
    assert(x * rate + y * rate == (x + y) * rate) by (nonlinear_arith);
    time::lemma_round_div(x * rate, d);
    time::lemma_round_div(y * rate, d);
    time::lemma_round_div((x + y) * rate, d);
}

/// The sources lie inside the donor, neither is longer than its side's margin,
/// and no stretch is asked for beyond the largest ratio or half the gap. The
/// zone that is replaced holds the gap, and reaches no more than the margin
/// beyond it on either side, up to a frame of rounding.
pub proof fn law_gap_sources(a: Segment, b: Segment, setup: FillSetup)
    requires
        setup.wf(),
        fillable(a, b),
    ensures
        sources_of(a, b, setup) matches Ok(g) ==> {
            let pre = g.pre_hi - g.pre_lo;
            let post = g.post_hi - g.post_lo;
            let gap = b.master_start_ns - a.master_end_ns;
            let pre_ns = time::to_ns(pre, setup.rate as int);
            let post_ns = time::to_ns(post, setup.rate as int);
            &&& 0 <= g.pre_lo < g.pre_hi <= setup.donor_frames
            &&& 0 <= g.post_lo < g.post_hi <= setup.donor_frames
            &&& pre <= time::to_samples(setup.margin_ns as int, setup.rate as int)
            &&& post <= time::to_samples(setup.margin_ns as int, setup.rate as int)
            &&& pre_ns <= g.target_pre_ns <= pre_ns + gap / 2
            &&& post_ns <= g.target_post_ns <= post_ns + gap / 2
            &&& (g.target_pre_ns - pre_ns) * 1_000_000 <= pre_ns * (setup.max_ratio_ppm
                - 1_000_000)
            &&& (g.target_post_ns - post_ns) * 1_000_000 <= post_ns * (setup.max_ratio_ppm
                - 1_000_000)
            &&& g.zone_frames == time::to_samples(gap, setup.rate as int) + pre + post
            &&& zone_near_gap(a, b, setup, g.zone_start as int, g.zone_start + g.zone_frames)
        },
{
    if let Ok(g) = sources_of(a, b, setup) {
        let rt = setup.rate as int;
        let gap = b.master_start_ns - a.master_end_ns;
        let margin_pre = usable_margin(setup, a.master_end_ns - a.master_start_ns);
        let margin_post = usable_margin(setup, b.master_end_ns - b.master_start_ns);
        assert(gap > 0) by (nonlinear_arith)
            requires
                gap * rt > 1_000_000_000,
                rt > 0,
        ;
        lemma_samples_bound(a.master_end_ns as int, rt);
        lemma_samples_bound(gap, rt);
        lemma_samples_sum(a.master_end_ns as int, gap, rt);
        lemma_samples_monotone(margin_pre, setup.margin_ns as int, rt);
        lemma_samples_monotone(margin_post, setup.margin_ns as int, rt);
        let pre = g.pre_hi - g.pre_lo;
        let post = g.post_hi - g.post_lo;
        lemma_extension(setup, pre, gap);
        lemma_extension(setup, post, gap);
    }
}

proof fn lemma_extension(setup: FillSetup, frames: int, gap: int)
    requires
        setup.wf(),
        0 <= frames <= time::to_samples(setup.margin_ns as int, setup.rate as int) + 1,
        0 <= gap <= time::TIME_LIMIT,
    ensures
        0 <= extension(setup, frames, gap) <= gap / 2,
        0 <= time::to_ns(frames, setup.rate as int) <= 2 * time::TIME_LIMIT,
        extension(setup, frames, gap) * 1_000_000 <= time::to_ns(frames, setup.rate as int) * (
        setup.max_ratio_ppm - 1_000_000),
{
    lemma_ns_bound(frames, setup.rate as int, setup.margin_ns as int);
    let x = time::to_ns(frames, setup.rate as int);
    let e = setup.max_ratio_ppm - 1_000_000;
    assert(x * e >= 0) by (nonlinear_arith)
        requires
            x >= 0,
            e >= 0,
    ;
}

/// Whether a gap is filled, given what its neighbours are: not with speech on
/// either side, and not when there is no signal at all. A side that is merely
/// quiet is stretched, since its room tone would contrast with silence.
pub open spec fn fill_wanted(pre: Verdict, post: Verdict, both_digitally_zero: bool) -> bool {
    pre != Verdict::Speech && post != Verdict::Speech && !both_digitally_zero
}

pub fn should_fill(pre: Verdict, post: Verdict, both_digitally_zero: bool) -> (r: bool)
    ensures
        r == fill_wanted(pre, post, both_digitally_zero),
{
    pre != Verdict::Speech && post != Verdict::Speech && !both_digitally_zero
}

/// How the replacement for a zone of `zone` frames is put together from the
/// stretched audio of both sides.
#[derive(Clone, Copy, Debug)]
pub struct MixPlan {
    pub zone: i64,
    pub pre_frames: i64,
    pub post_frames: i64,
    /// End of the first side in the zone.
    pub pre_end: i64,
    /// Start of the second side in the zone.
    pub post_start: i64,
    /// Whether the sides meet, or leave silence between them.
    pub meets: bool,
    /// Length of the fades into and out of that silence.
    pub silence_fade: i64,
    /// Lengths of the crossfades with what was there before.
    pub left_edge: i64,
    pub right_edge: i64,
}

pub open spec fn mix_plan_of(
    zone: int,
    pre_frames: int,
    post_frames: int,
    silence_fade: int,
    xfade: int,
) -> MixPlan {
    let pre_end = time::min2(pre_frames, zone);
    MixPlan {
        zone: zone as i64,
        pre_frames: pre_frames as i64,
        post_frames: post_frames as i64,
        pre_end: pre_end as i64,
        post_start: time::max2(zone - post_frames, 0) as i64,
        meets: pre_end + post_frames >= zone,
        silence_fade: time::min2(time::min2(silence_fade, pre_end), post_frames) as i64,
        left_edge: time::min2(time::min2(xfade, pre_frames), zone / 2) as i64,
        right_edge: time::min2(time::min2(xfade, post_frames), zone / 2) as i64,
    }
}

/// Plans the replacement for a zone.
pub fn plan_mix(zone: i64, pre_frames: i64, post_frames: i64, silence_fade: i64, xfade: i64) -> (r:
    MixPlan)
    requires
        0 <= zone,
        0 <= pre_frames,
        0 <= post_frames,
        0 <= silence_fade,
        0 <= xfade,
    ensures
        r == mix_plan_of(
            zone as int,
            pre_frames as int,
            post_frames as int,
            silence_fade as int,
            xfade as int,
        ),
        r.wf(),
{
    let pre_end: i64 = time::min_i64(pre_frames, zone);
    MixPlan {
        zone,
        pre_frames,
        post_frames,
        pre_end,
        post_start: time::max_i64(zone - post_frames, 0),
        meets: pre_end as i128 + post_frames as i128 >= zone as i128,
        silence_fade: time::min_i64(time::min_i64(silence_fade, pre_end), post_frames),
        left_edge: time::min_i64(time::min_i64(xfade, pre_frames), zone / 2),
        right_edge: time::min_i64(time::min_i64(xfade, post_frames), zone / 2),
    }
}

/// What a frame of the replacement is made of. A fade is the place in it and
/// its length.
#[derive(Clone, Copy, Debug)]
pub enum MixOp {
    Silence,
    /// Frame of the first side, possibly fading out.
    Pre { frame: i64, fade_out: Option<(i64, i64)> },
    /// Frame of the second side, possibly fading in.
    Post { frame: i64, fade_in: Option<(i64, i64)> },
    /// Both, the first fading out while the second fades in.
    Cross { pre: i64, post: i64, place: i64, len: i64 },
}

/// What frame `f` of the replacement is made of.
pub open spec fn mix_op_of(p: MixPlan, f: int) -> MixOp {
    if p.meets {
        if f < p.post_start {
            MixOp::Pre { frame: f as i64, fade_out: None }
        } else if f < p.pre_end {
            MixOp::Cross {
                pre: f as i64,
                post: (f - p.post_start) as i64,
                place: (f - p.post_start) as i64,
                len: (p.pre_end - p.post_start) as i64,
            }
        } else {
            MixOp::Post { frame: (f - p.post_start) as i64, fade_in: None }
        }
    } else if f < p.pre_end {
        let from = p.pre_end - p.silence_fade;
        MixOp::Pre {
            frame: f as i64,
            fade_out: if f >= from {
                Some(((f - from) as i64, p.silence_fade))
            } else {
                None
            },
        }
    } else if f < p.post_start {
        MixOp::Silence
    } else {
        let k = f - p.post_start;
        MixOp::Post {
            frame: k as i64,
            fade_in: if k < p.silence_fade {
                Some((k as i64, p.silence_fade))
            } else {
                None
            },
        }
    }
}

impl MixPlan {
    /// A plan that [`plan_mix`] makes.
    pub open spec fn wf(&self) -> bool {
        &&& 0 <= self.zone
        &&& 0 <= self.pre_frames
        &&& 0 <= self.post_frames
        &&& self.pre_end == time::min2(self.pre_frames as int, self.zone as int)
        &&& self.post_start == time::max2(self.zone - self.post_frames, 0)
        &&& self.meets == (self.pre_end + self.post_frames >= self.zone)
        &&& 0 <= self.silence_fade <= self.pre_end
        &&& self.silence_fade <= self.post_frames
        &&& 0 <= self.left_edge <= self.zone / 2
        &&& 0 <= self.right_edge <= self.zone / 2
    }
}

/// Decides what frame `f` of the replacement is made of.
pub fn mix_op(p: &MixPlan, f: i64) -> (r: MixOp)
    requires
        p.wf(),
        0 <= f < p.zone,
    ensures
        r == mix_op_of(*p, f as int),
{
    if p.meets {
        if f < p.post_start {
            MixOp::Pre { frame: f, fade_out: None }
        } else if f < p.pre_end {
            MixOp::Cross {
                pre: f,
                post: f - p.post_start,
                place: f - p.post_start,
                len: p.pre_end - p.post_start,
            }
        } else {
            MixOp::Post { frame: f - p.post_start, fade_in: None }
        }
    } else if f < p.pre_end {
        let from: i64 = p.pre_end - p.silence_fade;
        let fade_out: Option<(i64, i64)> = if f >= from {
            Some((f - from, p.silence_fade))
        } else {
            None
        };
        MixOp::Pre { frame: f, fade_out }
    } else if f < p.post_start {
        MixOp::Silence
    } else {
        let k: i64 = f - p.post_start;
        let fade_in: Option<(i64, i64)> = if k < p.silence_fade {
            Some((k, p.silence_fade))
        } else {
            None
        };
        MixOp::Post { frame: k, fade_in }
    }
}

/// A frame that the stretched audio holds, and places inside their fades.
pub open spec fn op_in_bounds(p: MixPlan, op: MixOp) -> bool {
    match op {
        MixOp::Silence => true,
        MixOp::Pre { frame, fade_out } => 0 <= frame < p.pre_frames && (fade_out matches Some(x)
            ==> 0 <= x.0 < x.1),
        MixOp::Post { frame, fade_in } => 0 <= frame < p.post_frames && (fade_in matches Some(x)
            ==> 0 <= x.0 < x.1),
        MixOp::Cross { pre, post, place, len } => 0 <= pre < p.pre_frames && 0 <= post
            < p.post_frames && 0 <= place < len,
    }
}

/// The replacement only uses frames that the stretched audio holds; silence is
/// left exactly where neither side reaches.
pub proof fn law_mix_in_bounds(p: MixPlan, f: int)
    requires
        p.wf(),
        0 <= f < p.zone,
    ensures
        op_in_bounds(p, mix_op_of(p, f)),
        mix_op_of(p, f) is Silence <==> p.pre_frames <= f < p.zone - p.post_frames,
{
}

/// No frame of either side is heard twice.
pub proof fn law_mix_uses_frames_once(p: MixPlan, f: int, g: int)
    requires
        p.wf(),
        0 <= f < g < p.zone,
    ensures
        pre_frame(mix_op_of(p, f)) is Some ==> pre_frame(mix_op_of(p, f)) != pre_frame(
            mix_op_of(p, g),
        ),
        post_frame(mix_op_of(p, f)) is Some ==> post_frame(mix_op_of(p, f)) != post_frame(
            mix_op_of(p, g),
        ),
{
}

/// The frame of the first side that an operation uses.
pub open spec fn pre_frame(op: MixOp) -> Option<i64> {
    match op {
        MixOp::Pre { frame, .. } => Some(frame),
        MixOp::Cross { pre, .. } => Some(pre),
        _ => None,
    }
}

/// The frame of the second side that an operation uses.
pub open spec fn post_frame(op: MixOp) -> Option<i64> {
    match op {
        MixOp::Post { frame, .. } => Some(frame),
        MixOp::Cross { post, .. } => Some(post),
        _ => None,
    }
}

/// How a frame of the replacement gets into the output.
#[derive(Clone, Copy, Debug)]
pub enum WriteOp {
    /// Fading in over what was there.
    FadeIn { place: i64, len: i64 },
    /// Fading out into what was there.
    FadeOut { place: i64, len: i64 },
    Replace,
}

/// How frame `f` is written: crossfaded at the edges, replaced in between.
pub open spec fn write_op_of(p: MixPlan, f: int) -> WriteOp {
    if f < p.left_edge {
        WriteOp::FadeIn { place: f as i64, len: p.left_edge }
    } else if f >= p.zone - p.right_edge {
        WriteOp::FadeOut { place: (f - (p.zone - p.right_edge)) as i64, len: p.right_edge }
    } else {
        WriteOp::Replace
    }
}

/// Decides how frame `f` is written.
pub fn write_op(p: &MixPlan, f: i64) -> (r: WriteOp)
    requires
        p.wf(),
        0 <= f < p.zone,
    ensures
        r == write_op_of(*p, f as int),
        r matches WriteOp::FadeIn { place, len } ==> 0 <= place < len,
        r matches WriteOp::FadeOut { place, len } ==> 0 <= place < len,
{
    if f < p.left_edge {
        WriteOp::FadeIn { place: f, len: p.left_edge }
    } else if f >= p.zone - p.right_edge {
        WriteOp::FadeOut { place: f - (p.zone - p.right_edge), len: p.right_edge }
    } else {
        WriteOp::Replace
    }
}

/// The output frame for frame `f` of a zone, if the output has it.
pub open spec fn output_frame(zone_start: int, f: int, out_frames: int) -> Option<i64> {
    if 0 <= zone_start + f < out_frames {
        Some((zone_start + f) as i64)
    } else {
        None
    }
}

/// Finds the output frame for frame `f` of a zone.
pub fn zone_frame(zone_start: i64, f: i64, out_frames: i64) -> (r: Option<i64>)
    requires
        0 <= f,
    ensures
        r == output_frame(zone_start as int, f as int, out_frames as int),
{
    let dst: i128 = zone_start as i128 + f as i128;
    if dst < 0 || dst >= out_frames as i128 {
        None
    } else {
        Some(dst as i64)
    }
}

/// Filling changes only frames of the output that lie in the gap or no farther
/// from it than the margin, up to a frame of rounding.
pub proof fn law_fill_stays_near_gap(
    a: Segment,
    b: Segment,
    setup: FillSetup,
    f: int,
    out_frames: int,
)
    requires
        setup.wf(),
        fillable(a, b),
        sources_of(a, b, setup) is Ok,
        0 <= f < sources_of(a, b, setup)->Ok_0.zone_frames,
        out_frames <= i64::MAX,
    ensures
        output_frame(
            sources_of(a, b, setup)->Ok_0.zone_start as int,
            f,
            out_frames,
        ) matches Some(dst) ==> {
            let rate = setup.rate as int;
            let margin = time::to_samples(setup.margin_ns as int, rate);
            &&& 0 <= dst < out_frames
            &&& time::to_samples(a.master_end_ns as int, rate) - margin <= dst
            &&& dst <= time::to_samples(b.master_start_ns as int, rate) + margin
        },
{
    law_gap_sources(a, b, setup);
}

/// Between segments that touch or overlap there is nothing to fill.
pub proof fn law_no_gap_no_fill(a: Segment, b: Segment, setup: FillSetup)
    requires
        b.master_start_ns <= a.master_end_ns,
    ensures
        sources_of(a, b, setup) == Err::<GapSources, _>(GapSkip::NoGap),
{
    let gap = b.master_start_ns - a.master_end_ns;
    let rate = setup.rate as int;
    assert(gap * rate <= 0) by (nonlinear_arith)
        requires
            gap <= 0,
            rate >= 0,
    ;
}

/// A gap is filled if and only if there is no speech on either side and there
/// is any signal at all.
pub proof fn law_speech_is_never_stretched(pre: Verdict, post: Verdict, zero: bool)
    ensures
        fill_wanted(pre, post, zero) == fill_wanted(post, pre, zero),
        fill_wanted(pre, post, zero) ==> pre != Verdict::Speech && post != Verdict::Speech && !zero,
        pre != Verdict::Speech && post != Verdict::Speech ==> fill_wanted(pre, post, false),
{
}

/// Filling needs a margin and a sample rate, never works with a ratio below
/// one, and otherwise with what is configured.
pub proof fn law_fill_setup(cfg: SpliceConfig, rate: u32, donor_frames: i64)
    ensures
        match setup_of(cfg, rate, donor_frames) {
            Some(s) => {
                &&& cfg.gap_fill_margin_ns > 0 && rate > 0
                &&& s.rate == rate && s.donor_frames == donor_frames
                &&& s.margin_ns == cfg.gap_fill_margin_ns
                &&& 1_000_000 <= s.xfade_ns <= 50_000_000
                &&& 1 <= cfg.crossfade_ms <= 50 ==> s.xfade_ns == cfg.crossfade_ms * 1_000_000
                &&& s.max_ratio_ppm >= 1_000_000
                &&& cfg.gap_fill_max_ratio_ppm >= 1_000_000 ==> s.max_ratio_ppm
                    == cfg.gap_fill_max_ratio_ppm
                &&& cfg.gap_fill_max_ratio_ppm <= 1_000_000 ==> s.max_ratio_ppm == 1_000_000
            },
            None => cfg.gap_fill_margin_ns <= 0 || rate == 0,
        },
{
    applier::law_crossfade_is_clamped(cfg.crossfade_ms as int);
}

/// A gap is left alone if and only if it is no longer than a frame, a segment
/// beside it is no longer than the crossfade, or the donor has nothing there.
pub proof fn law_why_a_gap_is_skipped(a: Segment, b: Segment, setup: FillSetup)
    requires
        setup.wf(),
        fillable(a, b),
    ensures
        ({
            let gap = b.master_start_ns - a.master_end_ns;
            let short = a.master_end_ns - a.master_start_ns <= setup.xfade_ns || b.master_end_ns
                - b.master_start_ns <= setup.xfade_ns;
            match sources_of(a, b, setup) {
                Err(GapSkip::NoGap) => gap * setup.rate <= 1_000_000_000,
                Err(GapSkip::NoMargin) => gap * setup.rate > 1_000_000_000 && short,
                Err(GapSkip::OutOfBounds) => gap * setup.rate > 1_000_000_000 && !short,
                Ok(_) => gap * setup.rate > 1_000_000_000 && !short,
            }
        }),
{
}

/// The audio that is stretched is the audio next to the gap: before it, up to
/// the donor frame at which the one segment ends; behind it, from the donor
/// frame at which the other begins, to half a frame and as far as the donor
/// goes. It is as long as the margin and the segment less its crossfade allow.
pub proof fn law_sources_lie_next_to_the_gap(a: Segment, b: Segment, setup: FillSetup)
    requires
        setup.wf(),
        fillable(a, b),
    ensures
        sources_of(a, b, setup) matches Ok(g) ==> {
            let rate = setup.rate as int;
            let unit: int = 1_000_000_000;
            let end = (a.master_end_ns + a.donor_offset_ns) * rate;
            let start = (b.master_start_ns + b.donor_offset_ns) * rate;
            &&& g.pre_hi == setup.donor_frames && 2 * (setup.donor_frames * unit - end) <= unit || -unit
                <= 2 * (g.pre_hi * unit - end) <= unit
            &&& g.post_lo == 0 && 2 * start <= unit || -unit <= 2 * (g.post_lo * unit - start) <= unit
            &&& exists|m: int|
                #![trigger room(setup, a, m)]
                room(setup, a, m) && (g.pre_lo == 0 && 2 * (end - m * rate) <= 2 * unit || -2 * unit
                    <= 2 * (g.pre_lo * unit - (end - m * rate)) <= 2 * unit)
            &&& exists|m: int|
                #![trigger room(setup, b, m)]
                room(setup, b, m) && (g.post_hi == setup.donor_frames && 2 * (setup.donor_frames * unit
                    - (start + m * rate)) <= 2 * unit || -2 * unit <= 2 * (g.post_hi * unit - (start + m
                    * rate)) <= 2 * unit)
        },
{
    if let Ok(g) = sources_of(a, b, setup) {
        let rt = setup.rate as int;
        let ma = usable_margin(setup, a.master_end_ns - a.master_start_ns);
        let mb = usable_margin(setup, b.master_end_ns - b.master_start_ns);
        time::law_samples_of_a_time(a.master_end_ns + a.donor_offset_ns, rt);
        time::law_samples_of_a_time(b.master_start_ns + b.donor_offset_ns, rt);
        time::law_samples_of_a_time(ma, rt);
        time::law_samples_of_a_time(mb, rt);
        lemma_samples_bound(a.master_end_ns + a.donor_offset_ns, rt);
        lemma_samples_bound(b.master_start_ns + b.donor_offset_ns, rt);
        assert(room(setup, a, ma));
        assert(room(setup, b, mb));
    }
}

/// `m` is how much of a segment may be used beside a gap: the margin, or the
/// segment less its crossfade where that is shorter.
pub open spec fn room(setup: FillSetup, s: Segment, m: int) -> bool {
    let len = s.master_end_ns - s.master_start_ns - setup.xfade_ns;
    &&& m <= setup.margin_ns && m <= len
    &&& m == setup.margin_ns || m == len
}

/// Either side is stretched to reach the middle of the gap, or as far as the
/// largest ratio allows if that is less.
pub proof fn law_sides_reach_for_the_middle(a: Segment, b: Segment, setup: FillSetup)
    requires
        setup.wf(),
        fillable(a, b),
    ensures
        sources_of(a, b, setup) matches Ok(g) ==> {
            let gap = b.master_start_ns - a.master_end_ns;
            &&& reaches(setup, g.pre_hi - g.pre_lo, g.target_pre_ns as int, gap)
            &&& reaches(setup, g.post_hi - g.post_lo, g.target_post_ns as int, gap)
        },
{
    if let Ok(g) = sources_of(a, b, setup) {
        let gap = b.master_start_ns - a.master_end_ns;
        law_gap_sources(a, b, setup);
        let (x, y) = (g.pre_hi - g.pre_lo, g.post_hi - g.post_lo);
        assert(gap > 0) by (nonlinear_arith)
            requires
                gap * setup.rate > 1_000_000_000,
                setup.rate > 0,
        ;
        lemma_extension(setup, x, gap);
        lemma_extension(setup, y, gap);
        time::law_time_of_samples(x, setup.rate as int);
        time::law_time_of_samples(y, setup.rate as int);
        let (p, q) = (time::to_ns(x, setup.rate as int), time::to_ns(y, setup.rate as int));
        assert(near(setup, x, p));
        assert(near(setup, y, q));
    }
}

/// `t` is the time of a number of frames, to half a nanosecond.
pub open spec fn near(setup: FillSetup, frames: int, t: int) -> bool {
    -setup.rate <= 2 * (t * setup.rate - frames * 1_000_000_000) <= setup.rate
}

/// A source of some frames with a target reaches half-way into a gap, or is
/// stretched by the largest ratio.
pub open spec fn reaches(setup: FillSetup, frames: int, target: int, gap: int) -> bool {
    exists|t: int|
        #![trigger near(setup, frames, t)]
        {
            let more = target - t;
            let most = t * (setup.max_ratio_ppm - 1_000_000);
            &&& near(setup, frames, t)
            &&& 0 <= more && 2 * more <= gap && more * 1_000_000 <= most
            &&& 2 * more + 1 >= gap || (more + 1) * 1_000_000 > most
        }
}

/// The zone that is replaced starts with the first side and ends with the
/// second: the gap lies between them, to a frame.
pub proof fn law_zone_holds_both_sides(a: Segment, b: Segment, setup: FillSetup)
    requires
        setup.wf(),
        fillable(a, b),
    ensures
        sources_of(a, b, setup) matches Ok(g) ==> {
            let rate = setup.rate as int;
            let unit: int = 1_000_000_000;
            let pre = g.pre_hi - g.pre_lo;
            let post = g.post_hi - g.post_lo;
            &&& -unit <= 2 * ((g.zone_start + pre) * unit - a.master_end_ns * rate) <= unit
            &&& -unit <= 2 * ((g.zone_frames - pre - post) * unit - (b.master_start_ns
                - a.master_end_ns) * rate) <= unit
        },
{
    if let Ok(g) = sources_of(a, b, setup) {
        let rt = setup.rate as int;
        let gap = b.master_start_ns - a.master_end_ns;
        law_gap_sources(a, b, setup);
        time::law_samples_of_a_time(a.master_end_ns as int, rt);
        time::law_samples_of_a_time(gap, rt);
        lemma_samples_bound(a.master_end_ns as int, rt);
        lemma_samples_bound(gap, rt);
    }
}

/// The first side fills the zone from its start on, the second up to its end,
/// and where both have audio they are crossfaded over just that stretch.
pub proof fn law_mix_lines_up_both_sides(
    zone: int,
    pre: int,
    post: int,
    silence_fade: int,
    xfade: int,
    f: int,
)
    requires
        0 <= f < zone <= i64::MAX,
        0 <= pre <= i64::MAX,
        0 <= post <= zone,
        0 <= silence_fade <= i64::MAX,
        0 <= xfade <= i64::MAX,
    ensures
        ({
            let first = f < pre;
            let second = f >= zone - post;
            match mix_op_of(mix_plan_of(zone, pre, post, silence_fade, xfade), f) {
                MixOp::Silence => !first && !second,
                MixOp::Pre { frame, .. } => first && !second && frame == f,
                MixOp::Post { frame, .. } => second && !first && frame + zone - post == f,
                MixOp::Cross { pre: x, post: y, place, len } => {
                    &&& first && second
                    &&& x == f
                    &&& y + zone - post == f
                    &&& place == y
                    &&& len == if pre <= zone {
                        pre - (zone - post)
                    } else {
                        post
                    }
                },
            }
        }),
{
}

/// Where silence is left between the sides, the first fades out into it and the
/// second fades in from it, over the length asked for or all the side has.
pub proof fn law_silence_has_soft_edges(
    zone: int,
    pre: int,
    post: int,
    silence_fade: int,
    xfade: int,
    f: int,
)
    requires
        0 <= f < zone <= i64::MAX,
        0 <= pre,
        0 <= post,
        pre + post < zone,
        0 <= silence_fade <= i64::MAX,
        0 <= xfade <= i64::MAX,
    ensures
        ({
            let p = mix_plan_of(zone, pre, post, silence_fade, xfade);
            let len = p.silence_fade;
            &&& len <= silence_fade && len <= pre && len <= post
            &&& len == silence_fade || len == pre || len == post
            &&& mix_op_of(p, f) matches MixOp::Pre { fade_out, .. } ==> (fade_out is Some <==> f
                >= pre - len) && (fade_out matches Some(x) ==> x.0 == f - (pre - len) && x.1 == len)
            &&& mix_op_of(p, f) matches MixOp::Post { frame, fade_in } ==> (fade_in is Some <==> frame
                < len) && (fade_in matches Some(x) ==> x.0 == frame && x.1 == len)
        }),
{
}

/// Where the sides meet no silence is left and nothing fades into one.
pub proof fn law_sides_that_meet_do_not_fade(p: MixPlan, f: int)
    requires
        p.wf(),
        p.pre_frames + p.post_frames >= p.zone,
        0 <= f < p.zone,
    ensures
        mix_op_of(p, f) !is Silence,
        mix_op_of(p, f) matches MixOp::Pre { fade_out, .. } ==> fade_out is None,
        mix_op_of(p, f) matches MixOp::Post { fade_in, .. } ==> fade_in is None,
{
}

/// A replacement fades in over what was there at its start and out into it at
/// its end, for the crossfade, but no longer than a side and half the zone; in
/// between it replaces.
pub proof fn law_replacement_has_crossfaded_edges(
    zone: int,
    pre: int,
    post: int,
    silence_fade: int,
    xfade: int,
    f: int,
)
    requires
        0 <= f < zone <= i64::MAX,
        0 <= pre <= i64::MAX,
        0 <= post <= i64::MAX,
        0 <= silence_fade <= i64::MAX,
        0 <= xfade <= i64::MAX,
    ensures
        ({
            let p = mix_plan_of(zone, pre, post, silence_fade, xfade);
            let l = p.left_edge;
            let r = p.right_edge;
            &&& l <= xfade && l <= pre && 2 * l <= zone
            &&& l == xfade || l == pre || 2 * l + 1 >= zone
            &&& r <= xfade && r <= post && 2 * r <= zone
            &&& r == xfade || r == post || 2 * r + 1 >= zone
            &&& match write_op_of(p, f) {
                WriteOp::FadeIn { place, len } => f < l && place == f && len == l,
                WriteOp::FadeOut { place, len } => f >= zone - r && zone - f == len - place && len
                    == r,
                WriteOp::Replace => l <= f < zone - r,
            }
        }),
{
}

/// Frame `f` of a zone is written `f` frames behind the start of the zone, if
/// the output has that frame.
pub proof fn law_zone_is_written_in_place(zone_start: int, f: int, out_frames: int)
    requires
        out_frames <= i64::MAX,
    ensures
        match output_frame(zone_start, f, out_frames) {
            Some(dst) => dst == zone_start + f && 0 <= dst < out_frames,
            None => zone_start + f < 0 || zone_start + f >= out_frames,
        },
{
}

} // verus!
