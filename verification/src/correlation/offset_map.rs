//! A piecewise-constant map from master time to donor offset.
use vstd::prelude::*;
use crate::correlation::sliding::AnchorPoint;
use crate::fixed;
use crate::rate::FrameRate;
use crate::text;
use crate::time;
use crate::wide::Wide;

verus! {

/// A stretch of master time with one donor offset.
#[derive(Clone, Copy, Debug)]
pub struct Segment {
    pub master_start_ns: i64,
    pub master_end_ns: i64,
    pub donor_offset_ns: i64,
}

#[derive(Clone, Debug)]
pub struct OffsetMap {
    pub segments: Vec<Segment>,
    pub master_duration_ns: i64,
    pub anchor_count: usize,
    pub rejected_count: usize,
    /// Jumps that were larger than allowed and therefore taken for false
    /// detections.
    pub suppressed_jumps: usize,
    /// Outside this range there was no confident evidence; synced dubs are
    /// silent there.
    pub valid_master_start_ns: i64,
    pub valid_master_end_ns: i64,
}

/// Why no map could be built.
#[derive(Clone, Copy, Debug)]
pub enum BuildError {
    NoUsableAnchors { total: usize, min_confidence: i64 },
}

impl BuildError {
    pub open spec fn text(&self) -> Seq<char> {
        match self {
            BuildError::NoUsableAnchors { total, min_confidence } => {
                "no anchors survived the confidence filter (kept 0 of "@ + text::decimal(
                    *total as nat,
                ) + ", min_confidence="@ + fixed::plain(*min_confidence as int, 1_000_000, 6)
                    + "); the master and donor files may not share content, or the anchor track choice is wrong"@
            },
        }
    }

    /// The error as a line of text.
    pub fn message(&self) -> (r: String)
        ensures
            r@ == self.text(),
    {
        let BuildError::NoUsableAnchors { total, min_confidence } = self;
        let mut r = String::from_str("no anchors survived the confidence filter (kept 0 of ");
        text::push_decimal(&mut r, *total as u64);
        r.append(", min_confidence=");
        fixed::push_plain(&mut r, *min_confidence, 1_000_000, 6);
        r.append(
            "); the master and donor files may not share content, or the anchor track choice is wrong",
        );
        r
    }
}

/// What governs the building of a map.
#[derive(Clone, Copy, Debug)]
pub struct BuildConfig {
    pub frame_rate: FrameRate,
    pub master_duration_ns: i64,
    pub correlation_window_ns: i64,
    pub min_confidence: i64,
    pub max_jump_ns: i64,
}

impl BuildConfig {
    pub open spec fn wf(&self) -> bool {
        &&& self.frame_rate.wf()
        &&& time::in_range(self.master_duration_ns)
        &&& time::in_range(self.correlation_window_ns)
    }
}

/// Anchors whose times the library can compute with.
pub open spec fn anchors_in_range(anchors: Seq<AnchorPoint>) -> bool {
    forall|i: int|
        0 <= i < anchors.len() ==> time::in_range((#[trigger] anchors[i]).master_time_ns)
            && time::in_range(anchors[i].offset_ns)
}

/// The anchors that are confident enough, in order.
pub open spec fn kept_anchors(anchors: Seq<AnchorPoint>, min_confidence: i64) -> Seq<AnchorPoint>
    decreases anchors.len(),
{
    if anchors.len() == 0 {
        anchors
    } else {
        let rest = kept_anchors(anchors.drop_last(), min_confidence);
        if anchors.last().confidence >= min_confidence {
            rest.push(anchors.last())
        } else {
            rest
        }
    }
}

/// The order of offsets.
pub open spec fn offset_le() -> spec_fn(i64, i64) -> bool {
    |a: i64, b: i64| a <= b
}

/// The offsets of the anchors around `i`, two on either side where there are.
pub open spec fn offset_window(anchors: Seq<AnchorPoint>, i: int) -> Seq<i64> {
    let lo = time::max2(i - 2, 0);
    let hi = time::min2(i + 3, anchors.len() as int);
    Seq::new((hi - lo) as nat, |k: int| anchors[lo + k].offset_ns)
}

/// The middle of a list of offsets in order; of an even number, the upper one.
pub open spec fn median(w: Seq<i64>) -> i64 {
    w.sort_by(offset_le())[w.len() as int / 2]
}

/// The anchors with their offsets median-filtered.
pub open spec fn smoothed(anchors: Seq<AnchorPoint>) -> Seq<AnchorPoint> {
    Seq::new(
        anchors.len(),
        |i: int| AnchorPoint { offset_ns: median(offset_window(anchors, i)), ..anchors[i] },
    )
}

/// A difference of offsets of at most one frame.
pub open spec fn within_frame(jump: int, rate: FrameRate) -> bool {
    time::abs(jump) * rate.top() <= rate.bottom() * time::NS_PER_S
}

/// Where the offset flips between two windows. A window reports the dominant
/// offset across its length, so the flip lies half a window past the midpoint
/// of the two starts; it never lies past the end.
pub open spec fn boundary_between(prev: AnchorPoint, curr: AnchorPoint, config: BuildConfig) -> int {
    time::min2(
        (prev.master_time_ns + curr.master_time_ns + config.correlation_window_ns) / 2,
        config.master_duration_ns as int,
    )
}

/// The segments that are complete after some anchors, and the one under way.
pub struct Progress {
    pub done: Seq<Segment>,
    pub start: i64,
    pub offset: i64,
    pub suppressed: int,
}

/// The progress after the first `n` smoothed anchors.
pub open spec fn progress(s: Seq<AnchorPoint>, n: int, config: BuildConfig) -> Progress
    decreases n,
{
    if n <= 1 {
        Progress { done: Seq::empty(), start: 0, offset: s[0].offset_ns, suppressed: 0 }
    } else {
        let p = progress(s, n - 1, config);
        let jump = s[n - 1].offset_ns - p.offset;
        if within_frame(jump, config.frame_rate) {
            p
        } else if time::abs(jump) > config.max_jump_ns {
            Progress { suppressed: p.suppressed + 1, ..p }
        } else {
            let boundary = boundary_between(s[n - 2], s[n - 1], config) as i64;
            Progress {
                done: p.done.push(
                    Segment {
                        master_start_ns: p.start,
                        master_end_ns: boundary,
                        donor_offset_ns: p.offset,
                    },
                ),
                start: boundary,
                offset: s[n - 1].offset_ns,
                suppressed: p.suppressed,
            }
        }
    }
}

/// The segments of the map for the kept anchors.
pub open spec fn map_segments(kept: Seq<AnchorPoint>, config: BuildConfig) -> Seq<Segment> {
    let p = progress(smoothed(kept), kept.len() as int, config);
    p.done.push(
        Segment {
            master_start_ns: p.start,
            master_end_ns: config.master_duration_ns,
            donor_offset_ns: p.offset,
        },
    )
}

/// The segments follow one another without gap or overlap.
pub open spec fn contiguous(segments: Seq<Segment>) -> bool {
    forall|i: int|
        0 <= i < segments.len() - 1 ==> (#[trigger] segments[i]).master_end_ns == segments[i
            + 1].master_start_ns
}

/// No segment ends before it starts.
pub open spec fn ordered(segments: Seq<Segment>) -> bool {
    forall|i: int|
        0 <= i < segments.len() ==> (#[trigger] segments[i]).master_start_ns
            <= segments[i].master_end_ns
}

/// The segments cover the whole of `0..duration`, one after the other.
pub open spec fn covers(segments: Seq<Segment>, duration: i64) -> bool {
    &&& segments.len() > 0
    &&& segments[0].master_start_ns == 0
    &&& segments.last().master_end_ns == duration
    &&& contiguous(segments)
}

fn kept_of(anchors: &Vec<AnchorPoint>, min_confidence: i64) -> (r: Vec<AnchorPoint>)
    ensures
        r@ == kept_anchors(anchors@, min_confidence),
{
    let mut r: Vec<AnchorPoint> = Vec::new();
    let mut i: usize = 0;
    while i < anchors.len()
        invariant
            i <= anchors@.len(),
            r@ == kept_anchors(anchors@.take(i as int), min_confidence),
        decreases anchors@.len() - i,
    {
        let a: AnchorPoint = anchors[i];
        assert(anchors@.take(i + 1).drop_last() =~= anchors@.take(i as int));
        if a.confidence >= min_confidence {
            r.push(a);
        }
        i += 1;
    }
    assert(anchors@.take(i as int) =~= anchors@);
    r
}

/// The kept anchors are among the anchors.
pub proof fn lemma_kept(anchors: Seq<AnchorPoint>, min_confidence: i64)
    ensures
        kept_anchors(anchors, min_confidence).len() <= anchors.len(),
        forall|i: int|
            0 <= i < kept_anchors(anchors, min_confidence).len() ==> anchors.contains(
                #[trigger] kept_anchors(anchors, min_confidence)[i],
            ) && kept_anchors(anchors, min_confidence)[i].confidence >= min_confidence,
    decreases anchors.len(),
{
    if anchors.len() > 0 {
        let d = anchors.drop_last();
        lemma_kept(d, min_confidence);
        let k = kept_anchors(anchors, min_confidence);
        let kd = kept_anchors(d, min_confidence);
        assert forall|i: int| 0 <= i < k.len() implies anchors.contains(#[trigger] k[i])
            && k[i].confidence >= min_confidence by {
            if i < kd.len() {
                assert(k[i] == kd[i]);
                let j = choose|j: int| 0 <= j < d.len() && d[j] == kd[i];
                assert(anchors[j] == kd[i]);
            } else {
                assert(k[i] == anchors[anchors.len() - 1]);
            }
        }
    }
}

/// Inserts `x` into a sorted list, behind what is not larger.
fn insert_sorted(v: &mut Vec<i64>, x: i64)
    requires
        vstd::relations::sorted_by(old(v)@, offset_le()),
    ensures
        vstd::relations::sorted_by(final(v)@, offset_le()),
        final(v)@.to_multiset() == old(v)@.to_multiset().insert(x),
        final(v)@.len() == old(v)@.len() + 1,
{
    let mut i: usize = 0;
    while i < v.len() && v[i] <= x
        invariant
            i <= v@.len(),
            forall|k: int| 0 <= k < i ==> v@[k] <= x,
        decreases v@.len() - i,
    {
        i += 1;
    }
    let ghost before = v@;
    v.insert(i, x);
    proof {
        broadcast use vstd::seq_lib::group_to_multiset_ensures;

        assert(v@ =~= before.insert(i as int, x));
        vstd::seq_lib::to_multiset_insert(before, i as int, x);
        let le = offset_le();
        assert forall|a: int, b: int| 0 <= a < b < v@.len() implies le(v@[a], v@[b]) by {
            if b < i {
                assert(le(before[a], before[b]));
            } else if b == i {
            } else if a < i {
                assert(before[b - 1] == v@[b]);
                assert(le(before[a], before[b - 1]));
            } else if a == i {
                assert(before[b - 1] == v@[b]);
                if i < b - 1 {
                    assert(le(before[i as int], before[b - 1]));
                }
            } else {
                assert(le(before[a - 1], before[b - 1]));
            }
        }
    }
}

fn median_at(anchors: &Vec<AnchorPoint>, i: usize) -> (r: i64)
    requires
        i < anchors@.len(),
    ensures
        r == median(offset_window(anchors@, i as int)),
{
    let n: usize = anchors.len();
    let lo: usize = if i >= 2 {
        i - 2
    } else {
        0
    };
    let hi: usize = if n - i >= 3 {
        i + 3
    } else {
        n
    };
    let ghost w = offset_window(anchors@, i as int);
    let mut buf: Vec<i64> = Vec::new();
    let mut k: usize = lo;
    assert(w.take(0) =~= buf@);
    while k < hi
        invariant
            lo <= k <= hi <= n == anchors@.len(),
            w.len() == hi - lo,
            forall|j: int| 0 <= j < w.len() ==> w[j] == anchors@[lo + j].offset_ns,
            buf@.len() == k - lo,
            vstd::relations::sorted_by(buf@, offset_le()),
            buf@.to_multiset() == w.take(k - lo).to_multiset(),
        decreases hi - k,
    {
        insert_sorted(&mut buf, anchors[k].offset_ns);
        proof {
            vstd::seq_lib::to_multiset_build(w.take(k - lo), w[k - lo]);
            assert(w.take(k + 1 - lo) =~= w.take(k - lo).push(w[k - lo]));
        }
        k += 1;
    }
    proof {
        assert(w.take(w.len() as int) =~= w);
        w.lemma_sort_by_ensures(offset_le());
        vstd::seq_lib::lemma_sorted_unique(buf@, w.sort_by(offset_le()), offset_le());
    }
    buf[buf.len() / 2]
}

/// Replaces each offset by the median of the up to five around it, which kills
/// single-window outliers.
pub fn median_filter_offsets(anchors: &Vec<AnchorPoint>) -> (r: Vec<AnchorPoint>)
    ensures
        r@ == smoothed(anchors@),
{
    let mut r: Vec<AnchorPoint> = Vec::new();
    let mut i: usize = 0;
    while i < anchors.len()
        invariant
            i <= anchors@.len(),
            r@.len() == i,
            forall|k: int| 0 <= k < i ==> #[trigger] r@[k] == smoothed(anchors@)[k],
        decreases anchors@.len() - i,
    {
        let a: AnchorPoint = anchors[i];
        let m: i64 = median_at(anchors, i);
        r.push(
            AnchorPoint {
                master_time_ns: a.master_time_ns,
                offset_ns: m,
                confidence: a.confidence,
            },
        );
        i += 1;
    }
    assert(r@ =~= smoothed(anchors@));
    r
}

/// The median of a non-empty window is one of its offsets.
proof fn lemma_median_member(w: Seq<i64>)
    requires
        w.len() > 0,
    ensures
        w.contains(median(w)),
{
    w.lemma_sort_by_ensures(offset_le());
    let s = w.sort_by(offset_le());
    vstd::seq_lib::to_multiset_len(w);
    vstd::seq_lib::to_multiset_len(s);
    assert(s.len() == w.len());
    assert(s.contains(median(w))) by {
        assert(s[w.len() as int / 2] == median(w));
    }
}

/// A smoothed offset is the offset of some anchor, so it stays in range.
proof fn lemma_smoothed_in_range(anchors: Seq<AnchorPoint>)
    requires
        anchors_in_range(anchors),
    ensures
        anchors_in_range(smoothed(anchors)),
{
    let s = smoothed(anchors);
    assert forall|i: int| 0 <= i < s.len() implies time::in_range((#[trigger] s[i]).master_time_ns)
        && time::in_range(s[i].offset_ns) by {
        let w = offset_window(anchors, i);
        lemma_median_member(w);
        let k = choose|k: int| 0 <= k < w.len() && w[k] == median(w);
        let lo = time::max2(i - 2, 0);
        assert(time::in_range(anchors[lo + k].offset_ns));
        assert(time::in_range(anchors[i].master_time_ns));
    }
}

/// What is built from anchors: a map of the confident ones, or nothing if there
/// are none.
pub open spec fn is_map_of(
    r: Result<OffsetMap, BuildError>,
    anchors: Seq<AnchorPoint>,
    config: BuildConfig,
) -> bool {
    let kept = kept_anchors(anchors, config.min_confidence);
    match r {
        Err(BuildError::NoUsableAnchors { total, min_confidence }) => kept.len() == 0 && total
            == anchors.len() && min_confidence == config.min_confidence,
        Ok(map) => {
            &&& kept.len() > 0
            &&& map.segments@ == map_segments(kept, config)
            &&& map.master_duration_ns == config.master_duration_ns
            &&& map.anchor_count == kept.len()
            &&& map.anchor_count + map.rejected_count == anchors.len()
            &&& map.suppressed_jumps == progress(smoothed(kept), kept.len() as int, config).suppressed
            &&& map.valid_master_start_ns == kept[0].master_time_ns
            &&& map.valid_master_end_ns == time::min2(
                kept.last().master_time_ns + config.correlation_window_ns,
                config.master_duration_ns as int,
            )
        },
    }
}

fn is_within_frame(jump: i64, rate: &FrameRate) -> (r: bool)
    requires
        i64::MIN < jump,
    ensures
        r == within_frame(jump as int, *rate),
{
    let size: i64 = time::abs_i64(jump);
    let (n, d): (Wide, Wide) = rate.parts();
    let there: Wide = n.times(size as u128);
    let frame: Wide = d.times(1_000_000_000);
    assert(rate.top() * size == size * rate.top()) by (nonlinear_arith);
    there.at_most(&frame)
}

impl OffsetMap {
    /// Builds a piecewise-constant map from raw anchors.
    ///
    /// Anchors below `min_confidence` are dropped and the offsets of the rest
    /// median-filtered. A boundary stands where the offset then moves by more
    /// than one frame; jumps beyond `max_jump_ns` are taken for false
    /// detections and skipped. The last segment reaches to the end of the
    /// master.
    pub fn build(
        anchors: &Vec<AnchorPoint>,
        frame_rate: FrameRate,
        master_duration_ns: i64,
        correlation_window_ns: i64,
        min_confidence: i64,
        max_jump_ns: i64,
    ) -> (r: Result<OffsetMap, BuildError>)
        requires
            frame_rate.wf(),
            time::in_range(master_duration_ns),
            time::in_range(correlation_window_ns),
            anchors_in_range(anchors@),
        ensures
            is_map_of(
                r,
                anchors@,
                BuildConfig {
                    frame_rate,
                    master_duration_ns,
                    correlation_window_ns,
                    min_confidence,
                    max_jump_ns,
                },
            ),
    {
        let ghost config = BuildConfig {
            frame_rate,
            master_duration_ns,
            correlation_window_ns,
            min_confidence,
            max_jump_ns,
        };
        let kept = kept_of(anchors, min_confidence);
        proof {
            lemma_kept(anchors@, min_confidence);
            assert forall|i: int| 0 <= i < kept@.len() implies time::in_range(
                (#[trigger] kept@[i]).master_time_ns,
            ) && time::in_range(kept@[i].offset_ns) by {
                let j = choose|j: int| 0 <= j < anchors@.len() && anchors@[j] == kept@[i];
                assert(time::in_range(anchors@[j].master_time_ns));
            }
            lemma_smoothed_in_range(kept@);
        }
        if kept.len() == 0 {
            return Err(BuildError::NoUsableAnchors { total: anchors.len(), min_confidence });
        }
        let smooth = median_filter_offsets(&kept);
        let n: usize = smooth.len();
        let mut segments: Vec<Segment> = Vec::new();
        let mut start: i64 = 0;
        let mut offset: i64 = smooth[0].offset_ns;
        let mut suppressed: usize = 0;
        let mut i: usize = 1;
        while i < n
            invariant
                1 <= i <= n,
                n == smooth@.len(),
                smooth@ == smoothed(kept@),
                anchors_in_range(smooth@),
                config.frame_rate == frame_rate,
                config.master_duration_ns == master_duration_ns,
                config.correlation_window_ns == correlation_window_ns,
                config.max_jump_ns == max_jump_ns,
                time::in_range(master_duration_ns),
                time::in_range(correlation_window_ns),
                time::in_range(offset),
                suppressed < i,
                progress(smooth@, i as int, config) == (Progress {
                    done: segments@,
                    start,
                    offset,
                    suppressed: suppressed as int,
                }),
            decreases n - i,
        {
            let prev: AnchorPoint = smooth[i - 1];
            let curr: AnchorPoint = smooth[i];
            assert(time::in_range(smooth@[i - 1].master_time_ns));
            assert(time::in_range(smooth@[i as int].master_time_ns));
            let jump: i64 = curr.offset_ns - offset;
            if is_within_frame(jump, &frame_rate) {
            } else if time::abs_i64(jump) > max_jump_ns {
                suppressed += 1;
            } else {
                let middle: i64 = time::half_floor(
                    prev.master_time_ns + curr.master_time_ns + correlation_window_ns,
                );
                let boundary: i64 = time::min_i64(middle, master_duration_ns);
                segments.push(
                    Segment {
                        master_start_ns: start,
                        master_end_ns: boundary,
                        donor_offset_ns: offset,
                    },
                );
                start = boundary;
                offset = curr.offset_ns;
            }
            i += 1;
        }
        segments.push(
            Segment {
                master_start_ns: start,
                master_end_ns: master_duration_ns,
                donor_offset_ns: offset,
            },
        );
        let last: AnchorPoint = kept[kept.len() - 1];
        assert(time::in_range(kept@[kept@.len() - 1].master_time_ns));
        Ok(
            OffsetMap {
                segments,
                master_duration_ns,
                anchor_count: kept.len(),
                rejected_count: anchors.len() - kept.len(),
                suppressed_jumps: suppressed,
                valid_master_start_ns: kept[0].master_time_ns,
                valid_master_end_ns: time::min_i64(
                    last.master_time_ns + correlation_window_ns,
                    master_duration_ns,
                ),
            },
        )
    }
}

proof fn lemma_progress_covers(s: Seq<AnchorPoint>, n: int, config: BuildConfig)
    ensures
        ({
            let p = progress(s, n, config);
            &&& contiguous(p.done)
            &&& if p.done.len() == 0 {
                p.start == 0
            } else {
                p.done[0].master_start_ns == 0 && p.done.last().master_end_ns == p.start
            }
        }),
    decreases n,
{
    if n > 1 {
        lemma_progress_covers(s, n - 1, config);
        let before = progress(s, n - 1, config);
        let p = progress(s, n, config);
        if p.done.len() > before.done.len() {
            assert forall|i: int| 0 <= i < p.done.len() - 1 implies (
            #[trigger] p.done[i]).master_end_ns == p.done[i + 1].master_start_ns by {
                assert(p.done[i] == before.done[i]);
                if i + 1 < before.done.len() {
                    assert(p.done[i + 1] == before.done[i + 1]);
                }
            }
        }
    }
}

/// The segments of a map cover the master from its start to its end, without
/// gap or overlap.
pub proof fn law_map_covers_master(kept: Seq<AnchorPoint>, config: BuildConfig)
    requires
        kept.len() > 0,
    ensures
        covers(map_segments(kept, config), config.master_duration_ns),
{
    let n = kept.len() as int;
    lemma_progress_covers(smoothed(kept), n, config);
    let p = progress(smoothed(kept), n, config);
    let segs = map_segments(kept, config);
    assert forall|i: int| 0 <= i < segs.len() - 1 implies (#[trigger] segs[i]).master_end_ns
        == segs[i + 1].master_start_ns by {
        assert(segs[i] == p.done[i]);
        if i + 1 < p.done.len() {
            assert(segs[i + 1] == p.done[i + 1]);
        }
    }
    if p.done.len() > 0 {
        assert(segs[0] == p.done[0]);
    }
}

/// Anchors in the order of their master times, none before zero.
pub open spec fn in_time_order(anchors: Seq<AnchorPoint>) -> bool {
    &&& forall|i: int| 0 <= i < anchors.len() ==> 0 <= (#[trigger] anchors[i]).master_time_ns
    &&& forall|i: int, j: int|
        0 <= i <= j < anchors.len() ==> (#[trigger] anchors[i]).master_time_ns <= (
        #[trigger] anchors[j]).master_time_ns
}

proof fn lemma_progress_ordered(s: Seq<AnchorPoint>, n: int, config: BuildConfig)
    requires
        config.wf(),
        anchors_in_range(s),
        in_time_order(s),
        config.correlation_window_ns >= 0,
        config.master_duration_ns >= 0,
        1 <= n <= s.len(),
    ensures
        ({
            let p = progress(s, n, config);
            &&& ordered(p.done)
            &&& p.start <= boundary_between(s[n - 1], s[n - 1], config)
        }),
    decreases n,
{
    if n > 1 {
        lemma_progress_ordered(s, n - 1, config);
        let before = progress(s, n - 1, config);
        let p = progress(s, n, config);
        assert(s[n - 2].master_time_ns <= s[n - 1].master_time_ns);
        assert(time::in_range(s[n - 2].master_time_ns));
        assert(time::in_range(s[n - 1].master_time_ns));
        if p.done.len() > before.done.len() {
            assert forall|i: int| 0 <= i < p.done.len() implies (
            #[trigger] p.done[i]).master_start_ns <= p.done[i].master_end_ns by {
                if i < before.done.len() {
                    assert(p.done[i] == before.done[i]);
                }
            }
        }
    } else {
        assert(s[0].master_time_ns >= 0);
        assert(time::in_range(s[0].master_time_ns));
    }
}

/// With anchors in the order of their times, no segment ends before it starts.
pub proof fn law_map_is_ordered(kept: Seq<AnchorPoint>, config: BuildConfig)
    requires
        kept.len() > 0,
        config.wf(),
        anchors_in_range(kept),
        in_time_order(kept),
        config.correlation_window_ns >= 0,
        config.master_duration_ns >= 0,
    ensures
        ordered(map_segments(kept, config)),
{
    let s = smoothed(kept);
    let n = kept.len() as int;
    lemma_smoothed_in_range(kept);
    assert(in_time_order(s)) by {
        assert forall|i: int| 0 <= i < s.len() implies 0 <= (#[trigger] s[i]).master_time_ns by {
            assert(kept[i].master_time_ns >= 0);
        }
        assert forall|i: int, j: int| 0 <= i <= j < s.len() implies (
        #[trigger] s[i]).master_time_ns <= (#[trigger] s[j]).master_time_ns by {
            assert(kept[i].master_time_ns <= kept[j].master_time_ns);
        }
    }
    lemma_progress_ordered(s, n, config);
    let p = progress(s, n, config);
    let segs = map_segments(kept, config);
    assert forall|i: int| 0 <= i < segs.len() implies (#[trigger] segs[i]).master_start_ns
        <= segs[i].master_end_ns by {
        if i < p.done.len() {
            assert(segs[i] == p.done[i]);
        }
    }
}

/// A jump that a map may hold: more than one frame, no more than the limit.
pub open spec fn real_jump(a: Segment, b: Segment, config: BuildConfig) -> bool {
    let jump = b.donor_offset_ns - a.donor_offset_ns;
    !within_frame(jump, config.frame_rate) && time::abs(jump) <= config.max_jump_ns
}

proof fn lemma_progress_jumps(s: Seq<AnchorPoint>, n: int, config: BuildConfig)
    ensures
        ({
            let p = progress(s, n, config);
            let open_segment = Segment {
                master_start_ns: p.start,
                master_end_ns: p.start,
                donor_offset_ns: p.offset,
            };
            &&& forall|i: int|
                0 <= i < p.done.len() - 1 ==> real_jump(
                    #[trigger] p.done[i],
                    p.done[i + 1],
                    config,
                )
            &&& p.done.len() > 0 ==> real_jump(p.done.last(), open_segment, config)
        }),
    decreases n,
{
    if n > 1 {
        lemma_progress_jumps(s, n - 1, config);
        let before = progress(s, n - 1, config);
        let p = progress(s, n, config);
        if p.done.len() > before.done.len() {
            assert forall|i: int| 0 <= i < p.done.len() - 1 implies real_jump(
                #[trigger] p.done[i],
                p.done[i + 1],
                config,
            ) by {
                assert(p.done[i] == before.done[i]);
                if i + 1 < before.done.len() {
                    assert(p.done[i + 1] == before.done[i + 1]);
                }
            }
        }
    }
}

/// Between neighbouring segments the offset jumps by more than one frame and
/// by no more than the allowed maximum.
pub proof fn law_map_jumps_are_real(kept: Seq<AnchorPoint>, config: BuildConfig)
    requires
        kept.len() > 0,
    ensures
        forall|i: int|
            0 <= i < map_segments(kept, config).len() - 1 ==> real_jump(
                #[trigger] map_segments(kept, config)[i],
                map_segments(kept, config)[i + 1],
                config,
            ),
{
    let s = smoothed(kept);
    let n = kept.len() as int;
    lemma_progress_jumps(s, n, config);
    let p = progress(s, n, config);
    let segs = map_segments(kept, config);
    assert forall|i: int| 0 <= i < segs.len() - 1 implies real_jump(
        #[trigger] segs[i],
        segs[i + 1],
        config,
    ) by {
        assert(segs[i] == p.done[i]);
        if i + 1 < p.done.len() {
            assert(segs[i + 1] == p.done[i + 1]);
            assert(real_jump(p.done[i], p.done[i + 1], config));
        }
    }
}

/// The anchors that build a map are those of enough confidence, all of them
/// and in their order.
pub proof fn law_confident_anchors_are_kept(anchors: Seq<AnchorPoint>, min_confidence: i64)
    ensures
        kept_anchors(anchors, min_confidence) == anchors.filter(
            |a: AnchorPoint| a.confidence >= min_confidence,
        ),
    decreases anchors.len(),
{
    reveal(Seq::filter);
    if anchors.len() > 0 {
        law_confident_anchors_are_kept(anchors.drop_last(), min_confidence);
    }
}

/// A difference of offsets of at most one frame, in either direction.
pub open spec fn one_frame(difference: int, rate: FrameRate) -> bool {
    -rate.bottom() * 1_000_000_000 <= difference * rate.top() <= rate.bottom() * 1_000_000_000
}

/// How many of the first `n` indices have a property.
pub open spec fn how_many(n: int, p: spec_fn(int) -> bool) -> int
    decreases n,
{
    if n <= 0 {
        0
    } else {
        how_many(n - 1, p) + if p(n - 1) {
            1int
        } else {
            0int
        }
    }
}

/// Segment `next` begins where the offset was seen to change from that of
/// segment `last`, between anchors `x` and `y`: by more than a frame and by no
/// more than is allowed, up or down, and half a window past the middle of the
/// two anchors or at the end.
pub open spec fn changes_here(
    last: Segment,
    next: Segment,
    x: AnchorPoint,
    y: AnchorPoint,
    config: BuildConfig,
) -> bool {
    let change = y.offset_ns - last.donor_offset_ns;
    let sum = x.master_time_ns + y.master_time_ns + config.correlation_window_ns;
    let cut = last.master_end_ns;
    &&& next.donor_offset_ns == y.offset_ns
    &&& next.master_start_ns == cut
    &&& !one_frame(change, config.frame_rate)
    &&& -config.max_jump_ns <= change <= config.max_jump_ns
    &&& cut <= config.master_duration_ns
    &&& (2 * cut <= sum <= 2 * cut + 1) || (cut == config.master_duration_ns && 2 * cut <= sum)
}

/// The segments follow the anchors `s`: `at[i]` is the segment that anchor `i`
/// belongs to. The segments are taken one by one, each begins where the offset
/// changes and has the offset it changes to, and an anchor is within a frame of
/// its segment unless it is farther off than a jump may be.
pub open spec fn follows(
    at: Seq<int>,
    s: Seq<AnchorPoint>,
    segments: Seq<Segment>,
    suppressed: int,
    config: BuildConfig,
) -> bool {
    &&& at.len() == s.len()
    &&& at[0] == 0
    &&& at.last() == segments.len() - 1
    &&& segments[0].donor_offset_ns == s[0].offset_ns
    &&& forall|i: int|
        0 <= i < s.len() ==> {
            let off = (#[trigger] s[i]).offset_ns - segments[at[i]].donor_offset_ns;
            &&& 0 <= at[i] < segments.len()
            &&& one_frame(off, config.frame_rate) || off > config.max_jump_ns || -off
                > config.max_jump_ns
        }
    &&& forall|i: int|
        0 < i < s.len() ==> {
            ||| #[trigger] at[i] == at[i - 1]
            ||| at[i] == at[i - 1] + 1 && changes_here(
                segments[at[i - 1]],
                segments[at[i]],
                s[i - 1],
                s[i],
                config,
            )
        }
    &&& suppressed == how_many(
        s.len() as int,
        |i: int|
            !one_frame(s[i].offset_ns - segments[at[i]].donor_offset_ns, config.frame_rate),
    )
}

proof fn lemma_one_frame(jump: int, rate: FrameRate)
    ensures
        within_frame(jump, rate) == one_frame(jump, rate),
{
    let (t, b) = (rate.top(), rate.bottom());
    rate.lemma_parts();
    assert((-jump) * t == -(jump * t)) by (nonlinear_arith);
    assert(-b * 1_000_000_000 == -(b * 1_000_000_000)) by (nonlinear_arith);
    assert(jump >= 0 ==> jump * t >= 0) by (nonlinear_arith)
        requires
            t >= 0,
    ;
    assert(jump <= 0 ==> jump * t <= 0) by (nonlinear_arith)
        requires
            t >= 0,
    ;
}

/// What is complete stays, and the segment under way is completed next.
proof fn lemma_progress_prefix(s: Seq<AnchorPoint>, a: int, b: int, config: BuildConfig)
    requires
        1 <= a <= b,
    ensures
        ({
            let p = progress(s, a, config);
            let q = progress(s, b, config);
            &&& p.done.len() <= q.done.len()
            &&& forall|k: int| 0 <= k < p.done.len() ==> #[trigger] q.done[k] == p.done[k]
            &&& q.done.len() == p.done.len() ==> q.offset == p.offset && q.start == p.start
            &&& q.done.len() > p.done.len() ==> q.done[p.done.len() as int].donor_offset_ns
                == p.offset && q.done[p.done.len() as int].master_start_ns == p.start
        }),
    decreases b,
{
    if a < b {
        lemma_progress_prefix(s, a, b - 1, config);
    }
}

/// The segment that is open after anchor `i` is the one numbered by what is
/// complete before it.
proof fn lemma_open_segment(kept: Seq<AnchorPoint>, i: int, config: BuildConfig)
    requires
        0 <= i < kept.len(),
    ensures
        ({
            let p = progress(smoothed(kept), i + 1, config);
            let segments = map_segments(kept, config);
            &&& p.done.len() < segments.len()
            &&& segments[p.done.len() as int].donor_offset_ns == p.offset
            &&& segments[p.done.len() as int].master_start_ns == p.start
            &&& forall|k: int| 0 <= k < p.done.len() ==> #[trigger] segments[k] == p.done[k]
        }),
{
    let n = kept.len() as int;
    let s = smoothed(kept);
    lemma_progress_prefix(s, i + 1, n, config);
    let p = progress(s, i + 1, config);
    let q = progress(s, n, config);
    let segments = map_segments(kept, config);
    assert forall|k: int| 0 <= k < p.done.len() implies #[trigger] segments[k] == p.done[k] by {
        assert(q.done[k] == p.done[k]);
    }
}

proof fn lemma_suppressed(kept: Seq<AnchorPoint>, n: int, config: BuildConfig, p: spec_fn(int) -> bool)
    requires
        1 <= n <= kept.len(),
        forall|i: int|
            0 <= i < kept.len() ==> #[trigger] p(i) == !one_frame(
                smoothed(kept)[i].offset_ns - progress(smoothed(kept), i + 1, config).offset,
                config.frame_rate,
            ),
    ensures
        progress(smoothed(kept), n, config).suppressed == how_many(n, p),
    decreases n,
{
    let s = smoothed(kept);
    config.frame_rate.lemma_parts();
    if n > 1 {
        lemma_suppressed(kept, n - 1, config, p);
        let before = progress(s, n - 1, config);
        lemma_one_frame(s[n - 1].offset_ns - before.offset, config.frame_rate);
        lemma_one_frame(0, config.frame_rate);
        assert(p(n - 1) == !one_frame(
            s[n - 1].offset_ns - progress(s, n, config).offset,
            config.frame_rate,
        ));
    } else {
        lemma_one_frame(0, config.frame_rate);
        assert(p(0) == !one_frame(
            s[0].offset_ns - progress(s, 1, config).offset,
            config.frame_rate,
        ));
        assert(how_many(0, p) == 0);
        assert(0 * config.frame_rate.top() == 0) by (nonlinear_arith);
    }
}

/// The segments of a map follow its smoothed anchors: every change of offset of
/// more than a frame and of no more than the limit, up or down, starts a
/// segment with the new offset, nothing else does, and changes beyond the limit
/// are counted.
pub proof fn law_segments_follow_the_anchors(kept: Seq<AnchorPoint>, config: BuildConfig)
    requires
        kept.len() > 0,
        config.wf(),
        anchors_in_range(kept),
    ensures
        exists|at: Seq<int>|
            #[trigger] follows(
                at,
                smoothed(kept),
                map_segments(kept, config),
                progress(smoothed(kept), kept.len() as int, config).suppressed,
                config,
            ),
{
    let s = smoothed(kept);
    let n = kept.len() as int;
    let segments = map_segments(kept, config);
    let at = Seq::new(n as nat, |i: int| progress(s, i + 1, config).done.len() as int);
    lemma_smoothed_in_range(kept);
    config.frame_rate.lemma_parts();
    assert forall|i: int| 0 <= i < s.len() implies ({
        let off = (#[trigger] s[i]).offset_ns - segments[at[i]].donor_offset_ns;
        &&& 0 <= at[i] < segments.len()
        &&& one_frame(off, config.frame_rate) || off > config.max_jump_ns || -off
            > config.max_jump_ns
    }) by {
        lemma_open_segment(kept, i, config);
        lemma_one_frame(0, config.frame_rate);
        if i > 0 {
            let before = progress(s, i, config);
            lemma_one_frame(s[i].offset_ns - before.offset, config.frame_rate);
        }
        assert(0 * config.frame_rate.top() == 0) by (nonlinear_arith);
    }
    assert forall|i: int| 0 < i < s.len() implies ({
        ||| #[trigger] at[i] == at[i - 1]
        ||| at[i] == at[i - 1] + 1 && changes_here(
            segments[at[i - 1]],
            segments[at[i]],
            s[i - 1],
            s[i],
            config,
        )
    }) by {
        lemma_open_segment(kept, i - 1, config);
        lemma_open_segment(kept, i, config);
        let before = progress(s, i, config);
        let p = progress(s, i + 1, config);
        assert(at[i - 1] == before.done.len());
        assert(at[i] == p.done.len());
        if p.done.len() > before.done.len() {
            lemma_one_frame(s[i].offset_ns - before.offset, config.frame_rate);
            assert(time::in_range(s[i - 1].master_time_ns));
            assert(time::in_range(s[i].master_time_ns));
            assert(segments[at[i - 1]] == p.done[at[i - 1]]);
        }
    }
    lemma_open_segment(kept, 0, config);
    let missed = |i: int|
        !one_frame(s[i].offset_ns - segments[at[i]].donor_offset_ns, config.frame_rate);
    assert forall|i: int| 0 <= i < kept.len() implies #[trigger] missed(i) == !one_frame(
        s[i].offset_ns - progress(s, i + 1, config).offset,
        config.frame_rate,
    ) by {
        lemma_open_segment(kept, i, config);
    }
    lemma_suppressed(kept, n, config, missed);
    assert(follows(at, s, segments, progress(s, n, config).suppressed, config));
}

/// If no jump was too large, the last segment is within one frame of the last
/// smoothed anchor, and without a change of more than a frame from one anchor
/// to the first there is one segment only.
pub proof fn law_last_segment_has_the_last_offset(kept: Seq<AnchorPoint>, config: BuildConfig)
    requires
        kept.len() > 0,
    ensures
        progress(smoothed(kept), kept.len() as int, config).suppressed == 0 ==> one_frame(
            smoothed(kept).last().offset_ns - map_segments(kept, config).last().donor_offset_ns,
            config.frame_rate,
        ),
        (forall|i: int|
            0 <= i < kept.len() ==> one_frame(
                (#[trigger] smoothed(kept)[i]).offset_ns - smoothed(kept)[0].offset_ns,
                config.frame_rate,
            )) ==> map_segments(kept, config) == seq![
            Segment {
                master_start_ns: 0,
                master_end_ns: config.master_duration_ns,
                donor_offset_ns: smoothed(kept)[0].offset_ns,
            },
        ],
{
    let s = smoothed(kept);
    let n = kept.len() as int;
    config.frame_rate.lemma_parts();
    lemma_one_frame(0, config.frame_rate);
    assert(0 * config.frame_rate.top() == 0) by (nonlinear_arith);
    if n > 1 {
        let before = progress(s, n - 1, config);
        lemma_one_frame(s[n - 1].offset_ns - before.offset, config.frame_rate);
        lemma_suppressed_grows(s, n - 1, config);
    }
    if forall|i: int|
        0 <= i < kept.len() ==> one_frame(
            (#[trigger] s[i]).offset_ns - s[0].offset_ns,
            config.frame_rate,
        ) {
        lemma_one_segment(s, n, config);
        assert(map_segments(kept, config) =~= seq![
            Segment {
                master_start_ns: 0,
                master_end_ns: config.master_duration_ns,
                donor_offset_ns: s[0].offset_ns,
            },
        ]);
    }
}

proof fn lemma_suppressed_grows(s: Seq<AnchorPoint>, n: int, config: BuildConfig)
    ensures
        progress(s, n, config).suppressed >= 0,
    decreases n,
{
    if n > 1 {
        lemma_suppressed_grows(s, n - 1, config);
    }
}

proof fn lemma_one_segment(s: Seq<AnchorPoint>, n: int, config: BuildConfig)
    requires
        n <= s.len(),
        forall|i: int|
            0 <= i < s.len() ==> one_frame(
                (#[trigger] s[i]).offset_ns - s[0].offset_ns,
                config.frame_rate,
            ),
    ensures
        progress(s, n, config).done.len() == 0,
        progress(s, n, config).start == 0,
        progress(s, n, config).offset == s[0].offset_ns,
    decreases n,
{
    if n > 1 {
        lemma_one_segment(s, n - 1, config);
        assert(one_frame(s[n - 1].offset_ns - s[0].offset_ns, config.frame_rate));
        lemma_one_frame(s[n - 1].offset_ns - s[0].offset_ns, config.frame_rate);
    }
}

/// How many numbers of a list have a property.
pub open spec fn count_if(w: Seq<i64>, p: spec_fn(i64) -> bool) -> int
    decreases w.len(),
{
    if w.len() == 0 {
        0
    } else {
        count_if(w.drop_last(), p) + if p(w.last()) {
            1int
        } else {
            0int
        }
    }
}

proof fn lemma_count_remove(w: Seq<i64>, j: int, p: spec_fn(i64) -> bool)
    requires
        0 <= j < w.len(),
    ensures
        count_if(w, p) == count_if(w.remove(j), p) + if p(w[j]) {
            1int
        } else {
            0int
        },
    decreases w.len(),
{
    if j == w.len() - 1 {
        assert(w.remove(j) =~= w.drop_last());
    } else {
        lemma_count_remove(w.drop_last(), j, p);
        assert(w.remove(j).drop_last() =~= w.drop_last().remove(j));
        assert(w.remove(j).last() == w.last());
    }
}

/// Lists of the same numbers count alike.
proof fn lemma_count_permuted(a: Seq<i64>, b: Seq<i64>, p: spec_fn(i64) -> bool)
    requires
        a.to_multiset() == b.to_multiset(),
    ensures
        count_if(a, p) == count_if(b, p),
    decreases a.len(),
{
    vstd::seq_lib::to_multiset_len(a);
    vstd::seq_lib::to_multiset_len(b);
    if a.len() > 0 {
        let x = a.last();
        vstd::seq_lib::to_multiset_contains(a, x);
        vstd::seq_lib::to_multiset_contains(b, x);
        assert(a[a.len() - 1] == x);
        let j = choose|j: int| 0 <= j < b.len() && b[j] == x;
        vstd::seq_lib::to_multiset_remove(a, a.len() - 1);
        vstd::seq_lib::to_multiset_remove(b, j);
        assert(a.remove(a.len() - 1) =~= a.drop_last());
        lemma_count_permuted(a.drop_last(), b.remove(j), p);
        lemma_count_remove(b, j, p);
    }
}

/// A property that only some places can have is had that often at most.
proof fn lemma_count_bound(w: Seq<i64>, p: spec_fn(i64) -> bool, lo: int, hi: int)
    requires
        0 <= lo <= hi <= w.len(),
        forall|k: int| 0 <= k < w.len() && !(lo <= k < hi) ==> !#[trigger] p(w[k]),
    ensures
        count_if(w, p) <= hi - lo,
    decreases w.len(),
{
    if w.len() > 0 {
        let d = w.drop_last();
        let n = w.len() as int;
        assert forall|k: int| 0 <= k < d.len() && !(lo <= k < hi) implies !#[trigger] p(d[k]) by {
            assert(d[k] == w[k]);
        }
        if hi == n && lo < n {
            lemma_count_bound(d, p, lo, hi - 1);
        } else if hi == n {
            lemma_count_bound(d, p, lo - 1, hi - 1);
            assert(!p(w[n - 1]));
        } else {
            lemma_count_bound(d, p, lo, hi);
            assert(!p(w[n - 1]));
        }
    }
}

/// Smoothing takes, for every anchor, the middle of the offsets of the anchors
/// at most two places away: one of those offsets, with at most half of them
/// below it and fewer than half above it. Times and confidences stay.
pub proof fn law_smoothing_takes_the_middle(anchors: Seq<AnchorPoint>, i: int, lo: int, hi: int)
    requires
        0 <= i < anchors.len(),
        lo == i - 2 || (lo == 0 && i < 2),
        0 <= lo,
        hi == i + 3 || (hi == anchors.len() && i + 3 > hi),
        hi <= anchors.len(),
    ensures
        ({
            let r = smoothed(anchors)[i];
            let near = Seq::new((hi - lo) as nat, |k: int| anchors[lo + k].offset_ns);
            &&& smoothed(anchors).len() == anchors.len()
            &&& r.master_time_ns == anchors[i].master_time_ns
            &&& r.confidence == anchors[i].confidence
            &&& near.contains(r.offset_ns)
            &&& 2 * count_if(near, |x: i64| x < r.offset_ns) <= hi - lo
            &&& 2 * count_if(near, |x: i64| x > r.offset_ns) < hi - lo
        }),
{
    let w = offset_window(anchors, i);
    let near = Seq::new((hi - lo) as nat, |k: int| anchors[lo + k].offset_ns);
    assert(w =~= near);
    let s = w.sort_by(offset_le());
    let r = median(w);
    let n = w.len() as int;
    lemma_median_member(w);
    w.lemma_sort_by_ensures(offset_le());
    vstd::seq_lib::to_multiset_len(w);
    vstd::seq_lib::to_multiset_len(s);
    let below = |x: i64| x < r;
    let above = |x: i64| x > r;
    let le = offset_le();
    assert forall|k: int| 0 <= k < s.len() && !(0 <= k < n / 2) implies !#[trigger] below(s[k]) by {
        if k > n / 2 {
            assert(le(s[n / 2], s[k]));
        }
    }
    assert forall|k: int| 0 <= k < s.len() && !(n / 2 + 1 <= k < n) implies !#[trigger] above(
        s[k],
    ) by {
        if k < n / 2 {
            assert(le(s[k], s[n / 2]));
        }
    }
    lemma_count_bound(s, below, 0, n / 2);
    lemma_count_bound(s, above, n / 2 + 1, n);
    lemma_count_permuted(w, s, below);
    lemma_count_permuted(w, s, above);
}

/// A map counts its anchors, and is valid from the first confident anchor to
/// the end of the window of the last, or the end of the master. There is a map
/// if and only if some anchor is confident enough.
pub proof fn law_map_is_valid_where_there_are_anchors(
    r: Result<OffsetMap, BuildError>,
    anchors: Seq<AnchorPoint>,
    config: BuildConfig,
)
    requires
        is_map_of(r, anchors, config),
    ensures
        ({
            let used = anchors.filter(|a: AnchorPoint| a.confidence >= config.min_confidence);
            match r {
                Ok(map) => {
                    let end = used.last().master_time_ns + config.correlation_window_ns;
                    &&& used.len() > 0
                    &&& map.anchor_count == used.len()
                    &&& map.rejected_count == anchors.len() - used.len()
                    &&& map.master_duration_ns == config.master_duration_ns
                    &&& map.valid_master_start_ns == used[0].master_time_ns
                    &&& map.valid_master_end_ns == end || map.valid_master_end_ns
                        == config.master_duration_ns
                    &&& map.valid_master_end_ns <= end && map.valid_master_end_ns
                        <= config.master_duration_ns
                },
                Err(_) => used.len() == 0,
            }
        }),
{
    law_confident_anchors_are_kept(anchors, config.min_confidence);
}

/// The segments of a map that is built follow its smoothed anchors, and the
/// jumps it reports as suppressed are those beyond the limit.
pub proof fn law_built_map_follows_the_anchors(
    map: OffsetMap,
    anchors: Seq<AnchorPoint>,
    config: BuildConfig,
)
    requires
        config.wf(),
        anchors_in_range(anchors),
        is_map_of(Ok(map), anchors, config),
    ensures
        ({
            let used = anchors.filter(|a: AnchorPoint| a.confidence >= config.min_confidence);
            exists|at: Seq<int>|
                #[trigger] follows(
                    at,
                    smoothed(used),
                    map.segments@,
                    map.suppressed_jumps as int,
                    config,
                )
        }),
{
    let kept = kept_anchors(anchors, config.min_confidence);
    law_confident_anchors_are_kept(anchors, config.min_confidence);
    lemma_kept(anchors, config.min_confidence);
    assert forall|i: int| 0 <= i < kept.len() implies time::in_range(
        (#[trigger] kept[i]).master_time_ns,
    ) && time::in_range(kept[i].offset_ns) by {
        assert(anchors.contains(kept[i]));
        let j = choose|j: int| 0 <= j < anchors.len() && anchors[j] == kept[i];
        assert(time::in_range(anchors[j].master_time_ns));
    }
    law_segments_follow_the_anchors(kept, config);
}

} // verus!
