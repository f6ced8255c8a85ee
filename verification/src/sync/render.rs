//! Which donor frame lands on which master frame, and how it is faded.
//!
//! Samples themselves are not touched here: the caller multiplies each one
//! with the gain that belongs to its place in a fade.
use vstd::prelude::*;
use crate::correlation::offset_map::Segment;
use crate::correlation::refine;
use crate::time;

verus! {

/// The master timeline in frames.
#[derive(Clone, Copy, Debug)]
pub struct Timeline {
    pub total_frames: i64,
    /// Frames outside `valid_lo..valid_hi` stay silent.
    pub valid_lo: i64,
    pub valid_hi: i64,
    /// Length of a crossfade.
    pub xfade: i64,
    pub donor_frames: i64,
}

/// The timeline of a master.
pub open spec fn timeline_of(
    duration_ns: int,
    valid_start_ns: int,
    valid_end_ns: int,
    xfade_ns: int,
    rate: int,
    donor_frames: int,
) -> Timeline {
    Timeline {
        total_frames: time::max2(time::to_samples(duration_ns, rate), 0) as i64,
        valid_lo: time::to_samples(valid_start_ns, rate) as i64,
        valid_hi: time::to_samples(valid_end_ns, rate) as i64,
        xfade: time::max2(time::to_samples(xfade_ns, rate), 0) as i64,
        donor_frames: donor_frames as i64,
    }
}

pub fn timeline(
    duration_ns: i64,
    valid_start_ns: i64,
    valid_end_ns: i64,
    xfade_ns: i64,
    rate: u32,
    donor_frames: usize,
) -> (r: Timeline)
    requires
        time::in_range(duration_ns),
        time::in_range(valid_start_ns),
        time::in_range(valid_end_ns),
        time::in_range(xfade_ns),
        donor_frames <= i64::MAX,
    ensures
        r == timeline_of(
            duration_ns as int,
            valid_start_ns as int,
            valid_end_ns as int,
            xfade_ns as int,
            rate as int,
            donor_frames as int,
        ),
        r.total_frames >= 0,
        r.xfade >= 0,
        r.donor_frames == donor_frames,
{
    Timeline {
        total_frames: time::max_i64(time::samples_of(duration_ns, rate), 0),
        valid_lo: time::samples_of(valid_start_ns, rate),
        valid_hi: time::samples_of(valid_end_ns, rate),
        xfade: time::max_i64(time::samples_of(xfade_ns, rate), 0),
        donor_frames: donor_frames as i64,
    }
}

/// The frames that one segment fills: `len` of them, from `dst_start` on in the
/// master, read from `donor_start` on in the donor.
#[derive(Clone, Copy, Debug)]
pub struct RenderSpan {
    pub dst_start: i64,
    pub donor_start: i64,
    pub len: u64,
    pub fade_in: bool,
    pub fade_out: bool,
}

/// The frames of segment `idx` of `count`; `None` if it has none. There are
/// fades at the splices only, not at the edges of the master.
pub open spec fn span_of(s: Segment, idx: int, count: int, rate: int) -> Option<RenderSpan> {
    let start = time::to_samples(s.master_start_ns as int, rate);
    let end = time::to_samples(s.master_end_ns as int, rate);
    if end <= start {
        None
    } else {
        Some(
            RenderSpan {
                dst_start: start as i64,
                donor_start: time::to_samples(s.master_start_ns + s.donor_offset_ns, rate) as i64,
                len: (end - start) as u64,
                fade_in: idx > 0,
                fade_out: idx + 1 < count,
            },
        )
    }
}

/// A segment that can be rendered: its times, and its donor times, in range.
pub open spec fn renderable(s: Segment) -> bool {
    &&& refine::segment_in_range(s)
    &&& -time::TIME_LIMIT <= s.master_start_ns + s.donor_offset_ns <= time::TIME_LIMIT
}

/// Plans the frames of a segment.
pub fn plan_span(s: &Segment, idx: usize, count: usize, rate: u32) -> (r: Option<RenderSpan>)
    requires
        renderable(*s),
        idx < count,
    ensures
        r == span_of(*s, idx as int, count as int, rate as int),
        r matches Some(x) ==> x.len > 0,
{
    let start: i64 = time::samples_of(s.master_start_ns, rate);
    let end: i64 = time::samples_of(s.master_end_ns, rate);
    if end <= start {
        return None;
    }
    Some(
        RenderSpan {
            dst_start: start,
            donor_start: time::samples_of(s.master_start_ns + s.donor_offset_ns, rate),
            len: (end as i128 - start as i128) as u64,
            fade_in: idx > 0,
            fade_out: idx < count - 1,
        },
    )
}

/// What happens to one master frame: it gets the donor frame `src` (silence if
/// `None`) with the gain of its places in the two fades.
#[derive(Clone, Copy, Debug)]
pub struct RenderFrame {
    pub dst: i64,
    pub src: Option<i64>,
    /// Place in the fade-in, counted from its start.
    pub fade_in: Option<i64>,
    /// Place in the fade-out, counted from its end.
    pub fade_out: Option<i64>,
}

/// Frame `i` of a span; `None` if it lies outside the master or its valid
/// range.
pub open spec fn frame_of(span: RenderSpan, i: int, t: Timeline) -> Option<RenderFrame> {
    let dst = span.dst_start + i;
    let src = span.donor_start + i;
    if dst < 0 || dst >= t.total_frames || dst < t.valid_lo || dst >= t.valid_hi {
        None
    } else {
        Some(
            RenderFrame {
                dst: dst as i64,
                src: if 0 <= src < t.donor_frames {
                    Some(src as i64)
                } else {
                    None
                },
                fade_in: if span.fade_in && i < t.xfade {
                    Some(i as i64)
                } else {
                    None
                },
                fade_out: if span.fade_out && span.len > t.xfade && i >= span.len - t.xfade {
                    Some((span.len - 1 - i) as i64)
                } else {
                    None
                },
            },
        )
    }
}

/// Decides what frame `i` of a span does.
pub fn render_frame(span: &RenderSpan, i: u64, t: &Timeline) -> (r: Option<RenderFrame>)
    requires
        i < span.len,
        t.xfade >= 0,
    ensures
        r == frame_of(*span, i as int, *t),
{
    let dst: i128 = span.dst_start as i128 + i as i128;
    let src: i128 = span.donor_start as i128 + i as i128;
    if dst < 0 || dst >= t.total_frames as i128 || dst < t.valid_lo as i128 || dst
        >= t.valid_hi as i128 {
        return None;
    }
    let src_frame: Option<i64> = if 0 <= src && src < t.donor_frames as i128 {
        Some(src as i64)
    } else {
        None
    };
    let xfade: u64 = t.xfade as u64;
    let fade_in: Option<i64> = if span.fade_in && i < xfade {
        Some(i as i64)
    } else {
        None
    };
    let fade_out: Option<i64> = if span.fade_out && span.len > xfade && i >= span.len - xfade {
        Some((span.len - 1 - i) as i64)
    } else {
        None
    };
    Some(RenderFrame { dst: dst as i64, src: src_frame, fade_in, fade_out })
}

/// Rendered frames stay inside the master, inside its valid range and inside
/// the donor, and places in a fade inside the fade.
pub proof fn law_rendered_frames_in_bounds(span: RenderSpan, i: int, t: Timeline)
    requires
        0 <= i < span.len,
        t.xfade >= 0,
    ensures
        frame_of(span, i, t) matches Some(f) ==> {
            &&& 0 <= f.dst < t.total_frames
            &&& t.valid_lo <= f.dst < t.valid_hi
            &&& f.src matches Some(s) ==> 0 <= s < t.donor_frames
            &&& f.fade_in matches Some(k) ==> 0 <= k < t.xfade
            &&& f.fade_out matches Some(k) ==> 0 <= k < t.xfade
        },
{
}

/// Where two spans overlap by exactly the crossfade, a frame's place in the
/// fade-out of the one mirrors its place in the fade-in of the other, so that
/// the squares of the two gains add up to one and there is no dip.
pub proof fn law_hard_cut_is_equal_power(
    a: RenderSpan,
    b: RenderSpan,
    t: Timeline,
    i: int,
    k: int,
)
    requires
        a.fade_out,
        b.fade_in,
        t.xfade > 0,
        a.len > t.xfade,
        a.dst_start + a.len - b.dst_start == t.xfade,
        0 <= i < a.len,
        0 <= k < b.len,
        a.dst_start + i == b.dst_start + k,
        frame_of(a, i, t) is Some,
    ensures
        ({
            let x = frame_of(a, i, t)->0;
            let y = frame_of(b, k, t)->0;
            &&& frame_of(b, k, t) is Some
            &&& x.dst == y.dst
            &&& x.fade_out is Some
            &&& y.fade_in is Some
            &&& x.fade_out->0 + y.fade_in->0 == t.xfade - 1
        }),
{
}

/// Between two spans, and behind the last, nothing is written: the gap at a
/// splice stays silent.
pub proof fn law_gap_stays_silent(a: RenderSpan, b: RenderSpan, t: Timeline, dst: int)
    requires
        a.dst_start + a.len <= dst < b.dst_start,
    ensures
        forall|i: int|
            0 <= i < a.len ==> (#[trigger] frame_of(a, i, t) matches Some(f) ==> f.dst != dst),
        forall|i: int|
            0 <= i < b.len ==> (#[trigger] frame_of(b, i, t) matches Some(f) ==> f.dst != dst),
{
}

/// The offset of a segment is what lies between the donor frames and the
/// master frames: a rendered donor frame less the master frame that it lands
/// on is the donor offset, up to one frame of rounding.
pub proof fn law_offset_is_applied(
    s: Segment,
    idx: int,
    count: int,
    rate: u32,
    i: int,
    t: Timeline,
)
    requires
        renderable(s),
        span_of(s, idx, count, rate as int) is Some,
        0 <= i < span_of(s, idx, count, rate as int)->0.len,
    ensures
        frame_of(span_of(s, idx, count, rate as int)->0, i, t) matches Some(f) ==> (
        f.src matches Some(src) ==> -1_000_000_000 <= (src - f.dst) * 1_000_000_000
            - s.donor_offset_ns * rate <= 1_000_000_000),
{
    lemma_span(s, idx, count, rate);
    let m = s.master_start_ns as int;
    let o = s.donor_offset_ns as int;
    assert((m + o) * rate == m * rate + o * rate) by (nonlinear_arith);
    time::law_samples_of_a_time(m, rate as int);
    time::law_samples_of_a_time(m + o, rate as int);
}

/// The numbers of a span are those of its times.
proof fn lemma_span(s: Segment, idx: int, count: int, rate: u32)
    requires
        renderable(s),
    ensures
        span_of(s, idx, count, rate as int) matches Some(x) ==> {
            &&& x.dst_start == time::to_samples(s.master_start_ns as int, rate as int)
            &&& x.donor_start == time::to_samples(
                s.master_start_ns + s.donor_offset_ns,
                rate as int,
            )
            &&& x.dst_start + x.len == time::to_samples(s.master_end_ns as int, rate as int)
        },
{
    lemma_samples_fit(s.master_start_ns as int, rate);
    lemma_samples_fit(s.master_end_ns as int, rate);
    lemma_samples_fit(s.master_start_ns + s.donor_offset_ns, rate);
}

/// A time in range is a machine integer of samples.
proof fn lemma_samples_fit(ns: int, rate: u32)
    requires
        -time::TIME_LIMIT <= ns <= time::TIME_LIMIT,
    ensures
        -time::TIME_LIMIT * 5 <= time::to_samples(ns, rate as int) <= time::TIME_LIMIT * 5,
{
    assert(-time::TIME_LIMIT * 0xffff_ffff <= ns * rate <= time::TIME_LIMIT * 0xffff_ffff)
        by (nonlinear_arith)
        requires
            -time::TIME_LIMIT <= ns <= time::TIME_LIMIT,
            0 <= rate <= 0xffff_ffff,
            time::TIME_LIMIT > 0,
    ;
    time::lemma_round_div_bounds(
        ns * rate,
        1_000_000_000,
        -time::TIME_LIMIT * 5,
        time::TIME_LIMIT * 5,
    );
}

/// A segment's frames start and end with it, to half a frame, and a segment of
/// more than one frame has some.
pub proof fn law_span_is_the_segment(s: Segment, idx: int, count: int, rate: u32)
    requires
        renderable(s),
    ensures
        match span_of(s, idx, count, rate as int) {
            Some(x) => {
                &&& x.len > 0
                &&& -1_000_000_000 <= 2 * (x.dst_start * 1_000_000_000 - s.master_start_ns * rate)
                    <= 1_000_000_000
                &&& -1_000_000_000 <= 2 * ((x.dst_start + x.len) * 1_000_000_000 - s.master_end_ns
                    * rate) <= 1_000_000_000
                &&& x.fade_in <==> idx > 0
                &&& x.fade_out <==> idx < count - 1
            },
            None => s.master_end_ns * rate - s.master_start_ns * rate <= 1_000_000_000,
        },
{
    lemma_span(s, idx, count, rate);
    time::law_samples_of_a_time(s.master_start_ns as int, rate as int);
    time::law_samples_of_a_time(s.master_end_ns as int, rate as int);
}

/// Frames follow one another: frame `i` of a span is written `i` frames behind
/// its start. It is written if and only if the master and the valid range hold
/// it, with donor audio if and only if the donor has it.
pub proof fn law_frames_are_written_in_order(span: RenderSpan, i: int, t: Timeline)
    requires
        0 <= i < span.len,
        t.xfade >= 0,
        t.donor_frames >= 0,
    ensures
        ({
            let dst = span.dst_start + i;
            let src = span.donor_start + i;
            let seen = 0 <= dst < t.total_frames && t.valid_lo <= dst < t.valid_hi;
            &&& frame_of(span, i, t) is Some <==> seen
            &&& frame_of(span, i, t) matches Some(f) ==> {
                &&& f.dst == dst
                &&& f.src is Some <==> 0 <= src < t.donor_frames
                &&& f.src matches Some(x) ==> x == src
            }
        }),
{
}

/// Fades are where a span meets another: the first frames fade in from place
/// zero, the last fade out to place zero, and what lies between is neither.
pub proof fn law_fades_at_the_splices(span: RenderSpan, i: int, t: Timeline)
    requires
        0 <= i < span.len,
        t.xfade >= 0,
    ensures
        frame_of(span, i, t) matches Some(f) ==> {
            &&& f.fade_in is Some <==> span.fade_in && i < t.xfade
            &&& f.fade_in matches Some(k) ==> k == i
            &&& f.fade_out is Some <==> span.fade_out && t.xfade < span.len && span.len - i
                <= t.xfade
            &&& f.fade_out matches Some(k) ==> k + i == span.len - 1
        },
{
}

/// The timeline is that of the master, to half a frame, and never shorter than
/// nothing.
pub proof fn law_timeline(
    duration_ns: i64,
    valid_start_ns: i64,
    valid_end_ns: i64,
    xfade_ns: i64,
    rate: u32,
    donor_frames: i64,
)
    requires
        time::in_range(duration_ns),
        time::in_range(valid_start_ns),
        time::in_range(valid_end_ns),
        time::in_range(xfade_ns),
    ensures
        ({
            let t = timeline_of(
                duration_ns as int,
                valid_start_ns as int,
                valid_end_ns as int,
                xfade_ns as int,
                rate as int,
                donor_frames as int,
            );
            &&& t.donor_frames == donor_frames
            &&& -1_000_000_000 <= 2 * (t.valid_lo * 1_000_000_000 - valid_start_ns * rate)
                <= 1_000_000_000
            &&& -1_000_000_000 <= 2 * (t.valid_hi * 1_000_000_000 - valid_end_ns * rate)
                <= 1_000_000_000
            &&& duration_ns >= 0 ==> -1_000_000_000 <= 2 * (t.total_frames * 1_000_000_000
                - duration_ns * rate) <= 1_000_000_000
            &&& duration_ns <= 0 ==> t.total_frames == 0
            &&& xfade_ns >= 0 ==> -1_000_000_000 <= 2 * (t.xfade * 1_000_000_000 - xfade_ns * rate)
                <= 1_000_000_000
            &&& xfade_ns <= 0 ==> t.xfade == 0
        }),
{
    lemma_samples_fit(duration_ns as int, rate);
    lemma_samples_fit(valid_start_ns as int, rate);
    lemma_samples_fit(valid_end_ns as int, rate);
    lemma_samples_fit(xfade_ns as int, rate);
    time::law_samples_of_a_time(duration_ns as int, rate as int);
    time::law_samples_of_a_time(valid_start_ns as int, rate as int);
    time::law_samples_of_a_time(valid_end_ns as int, rate as int);
    time::law_samples_of_a_time(xfade_ns as int, rate as int);
    let d = duration_ns as int;
    let x = xfade_ns as int;
    assert(d >= 0 ==> d * rate >= 0) by (nonlinear_arith)
        requires
            rate >= 0,
    ;
    assert(d <= 0 ==> d * rate <= 0) by (nonlinear_arith)
        requires
            rate >= 0,
    ;
    assert(x >= 0 ==> x * rate >= 0) by (nonlinear_arith)
        requires
            rate >= 0,
    ;
    assert(x <= 0 ==> x * rate <= 0) by (nonlinear_arith)
        requires
            rate >= 0,
    ;
}

} // verus!
