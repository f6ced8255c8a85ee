//! Where and how a dub is cut when its offset changes.
//!
//! Every interior boundary is moved into a moment that is silent in the master
//! if there is a wide enough one near it. When the donor falls behind (a
//! negative change of offset) as much silence is inserted there; when it runs
//! ahead the donor jumps. Without a master silence, a silence of the dub
//! itself is used, and as a last resort the boundary as it is.
use vstd::prelude::*;
use crate::args;
use crate::audio::vad::SilenceInterval;
use crate::correlation::offset_map::{OffsetMap, Segment};
use crate::correlation::refine;
use crate::text;
use crate::time;

verus! {

/// Everything that governs splicing. Levels are millionths of a decibel,
/// ratios millionths.
#[derive(Clone, Copy, Debug)]
pub struct SpliceConfig {
    pub silence_udb: i64,
    pub silence_min_ms: u32,
    /// How far from a boundary a silence may lie.
    pub snap_radius_ns: i64,
    /// Length of the equal-power crossfade at every splice.
    pub crossfade_ms: u32,
    /// Fill gaps with time-stretched neighbouring audio.
    pub smooth_gaps: bool,
    /// How much audio on either side of a gap is stretched.
    pub gap_fill_margin_ns: i64,
    /// From this level on a neighbour counts as speech, which is not stretched.
    pub speech_udb: i64,
    /// Largest stretch; below one it counts as one.
    pub gap_fill_max_ratio_ppm: i64,
    /// Length of the fades into and out of a silence that is left in a gap.
    pub gap_fill_silence_fade_ms: u32,
}

pub const MIN_CROSSFADE_MS: u32 = 1;

pub const MAX_CROSSFADE_MS: u32 = 50;

/// The crossfade that is applied: within 1 and 50 ms.
pub open spec fn crossfade_used(ms: int) -> int {
    time::min2(time::max2(ms, MIN_CROSSFADE_MS as int), MAX_CROSSFADE_MS as int)
}

pub fn clamp_crossfade_ms(cfg: &SpliceConfig) -> (r: u32)
    ensures
        r == crossfade_used(cfg.crossfade_ms as int),
        MIN_CROSSFADE_MS <= r <= MAX_CROSSFADE_MS,
{
    if cfg.crossfade_ms < MIN_CROSSFADE_MS {
        MIN_CROSSFADE_MS
    } else if cfg.crossfade_ms > MAX_CROSSFADE_MS {
        MAX_CROSSFADE_MS
    } else {
        cfg.crossfade_ms
    }
}

/// The crossfade as a time.
pub fn crossfade_ns(cfg: &SpliceConfig) -> (r: i64)
    ensures
        r == crossfade_used(cfg.crossfade_ms as int) * 1_000_000,
{
    clamp_crossfade_ms(cfg) as i64 * 1_000_000
}

/// A master silence chosen for a boundary.
#[derive(Clone, Copy, Debug)]
pub struct MasterSnap {
    pub snap_master_ns: i64,
    /// How much silence is inserted: what the donor falls behind by.
    pub gap_ns: i64,
    pub silence_width_ns: i64,
}

/// How a boundary is spliced.
#[derive(Clone, Copy, Debug)]
pub enum SpliceStrategy {
    /// In the middle of a master silence that is wide enough for the change.
    InMasterSilence { snap_master_ns: i64, gap_ns: i64 },
    /// In a moment at which the dub is silent on both sides of the cut.
    InDubSilence { snap_master_ns: i64, gap_ns: i64 },
    /// At the boundary itself.
    AtBoundary { gap_ns: i64 },
}

pub open spec fn silences_in_range(silences: Seq<SilenceInterval>) -> bool {
    forall|k: int|
        0 <= k < silences.len() ==> time::in_range((#[trigger] silences[k]).start_ns)
            && time::in_range(silences[k].end_ns)
}

/// The silence to insert for a change of offset.
pub open spec fn gap_for(delta: int) -> int {
    if delta < 0 {
        -delta
    } else {
        0
    }
}

pub open spec fn width(s: SilenceInterval) -> int {
    s.end_ns - s.start_ns
}

/// Twice the distance of a silence's middle from a boundary.
pub open spec fn distance2(s: SilenceInterval, boundary: int) -> int {
    time::abs(s.start_ns + s.end_ns - 2 * boundary)
}

/// A silence wide enough to take the change, with its middle near enough.
pub open spec fn qualifies(s: SilenceInterval, boundary: int, delta: int, radius: int) -> bool {
    width(s) >= time::abs(delta) && distance2(s, boundary) <= 2 * radius
}

/// Nearer to the boundary, or as near and wider.
pub open spec fn better(a: SilenceInterval, b: SilenceInterval, boundary: int) -> bool {
    distance2(a, boundary) < distance2(b, boundary) || (distance2(a, boundary) == distance2(
        b,
        boundary,
    ) && width(a) > width(b))
}

/// Silence `k` is the best of the first `n`: no other qualifying one is better,
/// and the ones before it are worse.
pub open spec fn is_best(
    silences: Seq<SilenceInterval>,
    n: int,
    k: int,
    boundary: int,
    delta: int,
    radius: int,
) -> bool {
    &&& 0 <= k < n
    &&& qualifies(silences[k], boundary, delta, radius)
    &&& forall|j: int|
        0 <= j < n && qualifies(#[trigger] silences[j], boundary, delta, radius) ==> !better(
            silences[j],
            silences[k],
            boundary,
        ) && (j < k ==> better(silences[k], silences[j], boundary))
}

/// The snap into a silence.
pub open spec fn snap_into(s: SilenceInterval, delta: int) -> MasterSnap {
    MasterSnap {
        snap_master_ns: ((s.start_ns + s.end_ns) / 2) as i64,
        gap_ns: gap_for(delta) as i64,
        silence_width_ns: width(s) as i64,
    }
}

/// Picks the master silence best suited to take a change of offset: at least as
/// wide as the change, nearest to the boundary, the wider one on a tie.
pub fn best_master_silence(
    boundary: i64,
    delta: i64,
    silences: &Vec<SilenceInterval>,
    radius: i64,
) -> (r: Option<MasterSnap>)
    requires
        time::in_range(boundary),
        -2 * time::TIME_LIMIT <= delta <= 2 * time::TIME_LIMIT,
        time::in_range(radius),
        silences_in_range(silences@),
    ensures
        match r {
            Some(m) => exists|k: int|
                is_best(
                    silences@,
                    silences@.len() as int,
                    k,
                    boundary as int,
                    delta as int,
                    radius as int,
                ) && m == snap_into(#[trigger] silences@[k], delta as int),
            None => forall|k: int|
                0 <= k < silences@.len() ==> !qualifies(
                    #[trigger] silences@[k],
                    boundary as int,
                    delta as int,
                    radius as int,
                ),
        },
{
    let needed: i64 = time::abs_i64(delta);
    let ghost b = boundary as int;
    let ghost d = delta as int;
    let ghost rad = radius as int;
    let mut best: Option<usize> = None;
    let mut i: usize = 0;
    while i < silences.len()
        invariant
            i <= silences@.len(),
            silences_in_range(silences@),
            time::in_range(boundary),
            time::in_range(radius),
            needed == time::abs(d),
            b == boundary,
            d == delta,
            rad == radius,
            match best {
                Some(k) => k < i && is_best(silences@, i as int, k as int, b, d, rad),
                None => forall|k: int|
                    0 <= k < i ==> !qualifies(#[trigger] silences@[k], b, d, rad),
            },
        decreases silences@.len() - i,
    {
        let s: SilenceInterval = silences[i];
        assert(time::in_range(silences@[i as int].start_ns));
        let w: i64 = s.end_ns - s.start_ns;
        let dist: i64 = time::abs_i64(s.start_ns + s.end_ns - 2 * boundary);
        if w >= needed && dist <= 2 * radius {
            let take = match best {
                None => true,
                Some(k) => {
                    let t: SilenceInterval = silences[k];
                    assert(time::in_range(silences@[k as int].start_ns));
                    let tw: i64 = t.end_ns - t.start_ns;
                    let td: i64 = time::abs_i64(t.start_ns + t.end_ns - 2 * boundary);
                    dist < td || (dist == td && w > tw)
                },
            };
            if take {
                best = Some(i);
            }
        }
        i += 1;
    }
    match best {
        Some(k) => {
            let s: SilenceInterval = silences[k];
            assert(time::in_range(silences@[k as int].start_ns));
            let gap: i64 = if delta < 0 {
                needed
            } else {
                0
            };
            Some(
                MasterSnap {
                    snap_master_ns: time::half_floor(s.start_ns + s.end_ns),
                    gap_ns: gap,
                    silence_width_ns: s.end_ns - s.start_ns,
                },
            )
        },
        None => None,
    }
}

/// A snap lies inside its silence and near the boundary, and the inserted gap
/// is no wider than the silence.
pub proof fn law_snap_fits_silence(
    s: SilenceInterval,
    boundary: int,
    delta: int,
    radius: int,
)
    requires
        qualifies(s, boundary, delta, radius),
        time::in_range(s.start_ns),
        time::in_range(s.end_ns),
        -2 * time::TIME_LIMIT <= delta <= 2 * time::TIME_LIMIT,
    ensures
        ({
            let m = snap_into(s, delta);
            &&& s.start_ns <= m.snap_master_ns <= s.end_ns
            &&& s.start_ns <= m.snap_master_ns - m.gap_ns / 2
            &&& m.snap_master_ns - m.gap_ns / 2 + m.gap_ns <= s.end_ns + 1
            &&& time::abs(m.snap_master_ns - boundary) <= radius + 1
        }),
{
}

/// A map whose segments the library can compute with.
pub open spec fn segments_in_range(segments: Seq<Segment>) -> bool {
    forall|k: int| 0 <= k < segments.len() ==> refine::segment_in_range(#[trigger] segments[k])
}

/// The change of offset at boundary `i`.
pub open spec fn delta_at(segments: Seq<Segment>, i: int) -> int {
    segments[i + 1].donor_offset_ns - segments[i].donor_offset_ns
}

/// `m` is what [`best_master_silence`] finds for boundary `i`.
pub open spec fn is_master_snap(
    m: Option<MasterSnap>,
    segments: Seq<Segment>,
    i: int,
    silences: Seq<SilenceInterval>,
    radius: int,
) -> bool {
    let b = segments[i].master_end_ns as int;
    let d = delta_at(segments, i);
    match m {
        Some(snap) => exists|k: int|
            is_best(silences, silences.len() as int, k, b, d, radius) && snap == snap_into(
                #[trigger] silences[k],
                d,
            ),
        None => forall|k: int|
            0 <= k < silences.len() ==> !qualifies(#[trigger] silences[k], b, d, radius),
    }
}

/// A snap that the library can compute with.
pub open spec fn snap_wf(m: Option<MasterSnap>) -> bool {
    m matches Some(s) ==> time::in_range(s.snap_master_ns) && 0 <= s.gap_ns <= 2 * time::TIME_LIMIT
}

pub open spec fn snaps_wf(snaps: Seq<Option<MasterSnap>>) -> bool {
    forall|k: int| 0 <= k < snaps.len() ==> snap_wf(#[trigger] snaps[k])
}

/// Looks for a master silence at every interior boundary.
pub fn master_snap_per_boundary(
    map: &OffsetMap,
    silences: &Vec<SilenceInterval>,
    radius: i64,
) -> (r: Vec<Option<MasterSnap>>)
    requires
        segments_in_range(map.segments@),
        silences_in_range(silences@),
        time::in_range(radius),
    ensures
        r@.len() == (if map.segments@.len() == 0 {
            0
        } else {
            map.segments@.len() - 1
        }),
        forall|i: int|
            0 <= i < r@.len() ==> is_master_snap(
                #[trigger] r@[i],
                map.segments@,
                i,
                silences@,
                radius as int,
            ),
        snaps_wf(r@),
{
    let mut r: Vec<Option<MasterSnap>> = Vec::new();
    if map.segments.len() < 2 {
        return r;
    }
    let n: usize = map.segments.len() - 1;
    let mut i: usize = 0;
    while i < n
        invariant
            i <= n,
            n + 1 == map.segments@.len(),
            n < usize::MAX,
            segments_in_range(map.segments@),
            silences_in_range(silences@),
            time::in_range(radius),
            r@.len() == i,
            forall|k: int|
                0 <= k < i ==> is_master_snap(
                    #[trigger] r@[k],
                    map.segments@,
                    k,
                    silences@,
                    radius as int,
                ),
            snaps_wf(r@),
        decreases n - i,
    {
        assert(refine::segment_in_range(map.segments@[i as int]));
        assert(refine::segment_in_range(map.segments@[i + 1]));
        let boundary: i64 = map.segments[i].master_end_ns;
        let delta: i64 = map.segments[i + 1].donor_offset_ns - map.segments[i].donor_offset_ns;
        let snap = best_master_silence(boundary, delta, silences, radius);
        let ghost before = r@;
        r.push(snap);
        assert forall|k: int| 0 <= k < r@.len() implies snap_wf(#[trigger] r@[k]) by {
            if k < i {
                assert(r@[k] == before[k]);
            }
        }
        i += 1;
    }
    r
}

/// The choice of a master silence is determined: whoever looks for one at a
/// boundary finds the same.
pub proof fn law_master_snap_is_unique(
    a: Option<MasterSnap>,
    b: Option<MasterSnap>,
    segments: Seq<Segment>,
    i: int,
    silences: Seq<SilenceInterval>,
    radius: int,
)
    requires
        is_master_snap(a, segments, i, silences, radius),
        is_master_snap(b, segments, i, silences, radius),
    ensures
        a == b,
{
    let t = segments[i].master_end_ns as int;
    let d = delta_at(segments, i);
    let n = silences.len() as int;
    if a is Some && b is Some {
        let j = choose|k: int|
            is_best(silences, n, k, t, d, radius) && a == Some(snap_into(#[trigger] silences[k], d));
        let k = choose|k: int|
            is_best(silences, n, k, t, d, radius) && b == Some(snap_into(#[trigger] silences[k], d));
        assert(qualifies(silences[j], t, d, radius) && qualifies(silences[k], t, d, radius));
        assert(j == k);
    }
}

/// What a search for mutual silence is about: a boundary, the offsets on both
/// sides, and how far away a silence may be.
pub struct MutualQuery {
    pub boundary: int,
    pub off_a: int,
    pub off_b: int,
    pub radius: int,
}

/// Silence `s` comes near `center`.
pub open spec fn near(s: SilenceInterval, center: int, radius: int) -> bool {
    s.end_ns >= center - radius && s.start_ns <= center + radius
}

/// The master times at which the dub is silent under both offsets: inside `a`
/// under the one and inside `b` under the other.
pub open spec fn mutual_lo(a: SilenceInterval, b: SilenceInterval, q: MutualQuery) -> int {
    time::max2(a.start_ns - q.off_a, b.start_ns - q.off_b)
}

pub open spec fn mutual_hi(a: SilenceInterval, b: SilenceInterval, q: MutualQuery) -> int {
    time::min2(a.end_ns - q.off_a, b.end_ns - q.off_b)
}

/// A pair of silences that gives such times.
pub open spec fn is_mutual(a: SilenceInterval, b: SilenceInterval, q: MutualQuery) -> bool {
    &&& near(a, q.boundary + q.off_a, q.radius)
    &&& near(b, q.boundary + q.off_b, q.radius)
    &&& mutual_lo(a, b, q) <= mutual_hi(a, b, q)
}

/// The time nearest to the boundary that a pair gives.
pub open spec fn mutual_time(a: SilenceInterval, b: SilenceInterval, q: MutualQuery) -> int {
    time::min2(time::max2(q.boundary, mutual_lo(a, b, q)), mutual_hi(a, b, q))
}

pub open spec fn mutual_shift(a: SilenceInterval, b: SilenceInterval, q: MutualQuery) -> int {
    time::abs(mutual_time(a, b, q) - q.boundary)
}

/// Pair `(x, y)` has been looked at when the search is at `(i, k)`.
pub open spec fn looked_at(x: int, y: int, n: int, i: int, k: int) -> bool {
    0 <= x && 0 <= y < n && (x < i || (x == i && y < k))
}

/// Pair `(x, y)` moves the boundary least among those looked at, and is the
/// first that does.
pub open spec fn is_best_pair(
    s: Seq<SilenceInterval>,
    q: MutualQuery,
    x: int,
    y: int,
    i: int,
    k: int,
) -> bool {
    let n = s.len() as int;
    &&& x < n
    &&& looked_at(x, y, n, i, k)
    &&& is_mutual(s[x], s[y], q)
    &&& forall|u: int, v: int|
        #![trigger s[u], s[v]]
        u < n && looked_at(u, v, n, i, k) && is_mutual(s[u], s[v], q) ==> mutual_shift(
            s[x],
            s[y],
            q,
        ) <= mutual_shift(s[u], s[v], q) && (looked_at(u, v, n, x, y) ==> mutual_shift(
            s[x],
            s[y],
            q,
        ) < mutual_shift(s[u], s[v], q))
}

/// No pair looked at gives a time.
pub open spec fn no_pair(s: Seq<SilenceInterval>, q: MutualQuery, i: int, k: int) -> bool {
    forall|u: int, v: int|
        #![trigger s[u], s[v]]
        u < s.len() && looked_at(u, v, s.len() as int, i, k) ==> !is_mutual(s[u], s[v], q)
}

/// `t` is what [`find_dub_mutual_silence`] finds.
pub open spec fn is_mutual_result(
    t: Option<i64>,
    s: Seq<SilenceInterval>,
    q: MutualQuery,
) -> bool {
    let n = s.len() as int;
    match t {
        Some(time_ns) => exists|x: int, y: int|
            #![trigger s[x], s[y]]
            is_best_pair(s, q, x, y, n, 0) && time_ns == mutual_time(s[x], s[y], q),
        None => no_pair(s, q, n, 0),
    }
}

/// Finds the master time nearest to the boundary at which the dub is silent
/// under both offsets.
pub fn find_dub_mutual_silence(
    boundary: i64,
    off_a: i64,
    off_b: i64,
    silences: &Vec<SilenceInterval>,
    radius: i64,
) -> (r: Option<i64>)
    requires
        time::in_range(boundary),
        time::in_range(off_a),
        time::in_range(off_b),
        time::in_range(radius),
        silences_in_range(silences@),
    ensures
        is_mutual_result(
            r,
            silences@,
            MutualQuery {
                boundary: boundary as int,
                off_a: off_a as int,
                off_b: off_b as int,
                radius: radius as int,
            },
        ),
{
    let ghost q = MutualQuery {
        boundary: boundary as int,
        off_a: off_a as int,
        off_b: off_b as int,
        radius: radius as int,
    };
    let ghost s = silences@;
    let n: usize = silences.len();
    let center_a: i64 = boundary + off_a;
    let center_b: i64 = boundary + off_b;
    let mut best: Option<(i64, i64)> = None;
    let ghost mut bx: int = 0;
    let ghost mut by: int = 0;
    let mut i: usize = 0;
    while i < n
        invariant
            i <= n,
            n == s.len(),
            s == silences@,
            silences_in_range(s),
            time::in_range(boundary),
            time::in_range(off_a),
            time::in_range(off_b),
            time::in_range(radius),
            center_a == boundary + off_a,
            center_b == boundary + off_b,
            q == (MutualQuery {
                boundary: boundary as int,
                off_a: off_a as int,
                off_b: off_b as int,
                radius: radius as int,
            }),
            match best {
                Some((shift, t)) => is_best_pair(s, q, bx, by, i as int, 0) && t == mutual_time(
                    s[bx],
                    s[by],
                    q,
                ) && shift == mutual_shift(s[bx], s[by], q),
                None => no_pair(s, q, i as int, 0),
            },
        decreases n - i,
    {
        let a: SilenceInterval = silences[i];
        assert(time::in_range(s[i as int].start_ns));
        let a_near = a.end_ns >= center_a - radius && a.start_ns <= center_a + radius;
        let mut k: usize = 0;
        while k < n
            invariant
                i < n,
                k <= n,
                n == s.len(),
                s == silences@,
                a == s[i as int],
                silences_in_range(s),
                time::in_range(boundary),
                time::in_range(off_a),
                time::in_range(off_b),
                time::in_range(radius),
                time::in_range(a.start_ns),
                time::in_range(a.end_ns),
                center_a == boundary + off_a,
                center_b == boundary + off_b,
                a_near == near(a, center_a as int, radius as int),
                q == (MutualQuery {
                    boundary: boundary as int,
                    off_a: off_a as int,
                    off_b: off_b as int,
                    radius: radius as int,
                }),
                match best {
                    Some((shift, t)) => is_best_pair(s, q, bx, by, i as int, k as int) && t
                        == mutual_time(s[bx], s[by], q) && shift == mutual_shift(s[bx], s[by], q),
                    None => no_pair(s, q, i as int, k as int),
                },
            decreases n - k,
        {
            let b: SilenceInterval = silences[k];
            assert(time::in_range(s[k as int].start_ns));
            let b_near = b.end_ns >= center_b - radius && b.start_ns <= center_b + radius;
            let lo: i64 = time::max_i64(a.start_ns - off_a, b.start_ns - off_b);
            let hi: i64 = time::min_i64(a.end_ns - off_a, b.end_ns - off_b);
            if a_near && b_near && lo <= hi {
                let t: i64 = time::min_i64(time::max_i64(boundary, lo), hi);
                let shift: i64 = time::abs_i64(t - boundary);
                assert(is_mutual(s[i as int], s[k as int], q));
                let take = match best {
                    None => true,
                    Some((least, _)) => shift < least,
                };
                if take {
                    best = Some((shift, t));
                    proof {
                        bx = i as int;
                        by = k as int;
                    }
                }
            }
            k += 1;
        }
        i += 1;
    }
    match best {
        Some((_, t)) => {
            assert(is_best_pair(s, q, bx, by, n as int, 0));
            Some(t)
        },
        None => None,
    }
}

/// A mutual silence is never farther from the boundary than the radius, and
/// both donor reads there are silent.
pub proof fn law_mutual_silence_is_near(
    a: SilenceInterval,
    b: SilenceInterval,
    q: MutualQuery,
)
    requires
        is_mutual(a, b, q),
        q.radius >= 0,
    ensures
        mutual_shift(a, b, q) <= q.radius,
        a.start_ns <= mutual_time(a, b, q) + q.off_a <= a.end_ns,
        b.start_ns <= mutual_time(a, b, q) + q.off_b <= b.end_ns,
{
}

/// `st` is the strategy for boundary `i`: a master silence before a silence of
/// the dub before the boundary itself.
pub open spec fn is_strategy(
    st: SpliceStrategy,
    segments: Seq<Segment>,
    i: int,
    snaps: Seq<Option<MasterSnap>>,
    dub_silences: Seq<SilenceInterval>,
    radius: int,
) -> bool {
    let gap = gap_for(delta_at(segments, i));
    let q = MutualQuery {
        boundary: segments[i].master_end_ns as int,
        off_a: segments[i].donor_offset_ns as int,
        off_b: segments[i + 1].donor_offset_ns as int,
        radius,
    };
    let snap = if i < snaps.len() {
        snaps[i]
    } else {
        None
    };
    match st {
        SpliceStrategy::InMasterSilence { snap_master_ns, gap_ns } => {
            &&& snap matches Some(m)
            &&& snap_master_ns == m.snap_master_ns
            &&& gap_ns == m.gap_ns
        },
        SpliceStrategy::InDubSilence { snap_master_ns, gap_ns } => {
            &&& snap is None
            &&& is_mutual_result(Some(snap_master_ns), dub_silences, q)
            &&& gap_ns == gap
        },
        SpliceStrategy::AtBoundary { gap_ns } => {
            &&& snap is None
            &&& is_mutual_result(None, dub_silences, q)
            &&& gap_ns == gap
        },
    }
}

/// Decides how every interior boundary is spliced.
pub fn classify_strategies(
    segments: &Vec<Segment>,
    snaps: &Vec<Option<MasterSnap>>,
    dub_silences: &Vec<SilenceInterval>,
    radius: i64,
) -> (r: Vec<SpliceStrategy>)
    requires
        segments_in_range(segments@),
        silences_in_range(dub_silences@),
        time::in_range(radius),
    ensures
        r@.len() == (if segments@.len() == 0 {
            0
        } else {
            segments@.len() - 1
        }),
        forall|i: int|
            0 <= i < r@.len() ==> is_strategy(
                #[trigger] r@[i],
                segments@,
                i,
                snaps@,
                dub_silences@,
                radius as int,
            ),
{
    let mut r: Vec<SpliceStrategy> = Vec::new();
    if segments.len() < 2 {
        return r;
    }
    let n: usize = segments.len() - 1;
    let mut i: usize = 0;
    while i < n
        invariant
            i <= n,
            n + 1 == segments@.len(),
            n < usize::MAX,
            segments_in_range(segments@),
            silences_in_range(dub_silences@),
            time::in_range(radius),
            r@.len() == i,
            forall|k: int|
                0 <= k < i ==> is_strategy(
                    #[trigger] r@[k],
                    segments@,
                    k,
                    snaps@,
                    dub_silences@,
                    radius as int,
                ),
        decreases n - i,
    {
        let a: Segment = segments[i];
        let b: Segment = segments[i + 1];
        assert(refine::segment_in_range(segments@[i as int]));
        assert(refine::segment_in_range(segments@[i + 1]));
        let delta: i64 = b.donor_offset_ns - a.donor_offset_ns;
        let gap_ns: i64 = if delta < 0 {
            -delta
        } else {
            0
        };
        let snap: Option<MasterSnap> = if i < snaps.len() {
            snaps[i]
        } else {
            None
        };
        let st = match snap {
            Some(m) => SpliceStrategy::InMasterSilence {
                snap_master_ns: m.snap_master_ns,
                gap_ns: m.gap_ns,
            },
            None => match find_dub_mutual_silence(
                a.master_end_ns,
                a.donor_offset_ns,
                b.donor_offset_ns,
                dub_silences,
                radius,
            ) {
                Some(t) => SpliceStrategy::InDubSilence { snap_master_ns: t, gap_ns },
                None => SpliceStrategy::AtBoundary { gap_ns },
            },
        };
        r.push(st);
        i += 1;
    }
    r
}

impl SpliceStrategy {
    /// How much silence is inserted.
    pub open spec fn gap(self) -> int {
        match self {
            SpliceStrategy::InMasterSilence { gap_ns, .. } => gap_ns as int,
            SpliceStrategy::InDubSilence { gap_ns, .. } => gap_ns as int,
            SpliceStrategy::AtBoundary { gap_ns } => gap_ns as int,
        }
    }

    /// Where it is inserted, at a boundary that lies at `boundary`.
    pub open spec fn snap(self, boundary: int) -> int {
        match self {
            SpliceStrategy::InMasterSilence { snap_master_ns, .. } => snap_master_ns as int,
            SpliceStrategy::InDubSilence { snap_master_ns, .. } => snap_master_ns as int,
            SpliceStrategy::AtBoundary { .. } => boundary,
        }
    }

    pub open spec fn wf(self) -> bool {
        0 <= self.gap() <= 2 * time::TIME_LIMIT && -2 * time::TIME_LIMIT <= self.snap(0) <= 2
            * time::TIME_LIMIT
    }
}

/// Where the segment before a splice ends. A gap is centred on the snap; a hard
/// cut makes the segments overlap by the crossfade.
pub open spec fn splice_end(a: Segment, st: SpliceStrategy, xfade: int) -> int {
    let snap = st.snap(a.master_end_ns as int);
    time::max2(
        if st.gap() > 0 {
            snap - st.gap() / 2
        } else {
            snap + xfade / 2
        },
        a.master_start_ns as int,
    )
}

/// Where the segment behind a splice starts.
pub open spec fn splice_start(a: Segment, b: Segment, st: SpliceStrategy, xfade: int) -> int {
    let snap = st.snap(a.master_end_ns as int);
    time::min2(
        if st.gap() > 0 {
            snap - st.gap() / 2 + st.gap()
        } else {
            snap - xfade / 2
        },
        b.master_end_ns as int,
    )
}

/// The segments after the first `n` splices.
pub open spec fn spliced(
    segments: Seq<Segment>,
    strategies: Seq<SpliceStrategy>,
    xfade: int,
    n: int,
) -> Seq<Segment>
    decreases n,
{
    if n <= 0 {
        segments
    } else {
        let s = spliced(segments, strategies, xfade, n - 1);
        let i = n - 1;
        let st = strategies[i];
        let end = splice_end(s[i], st, xfade);
        let start = splice_start(s[i], s[i + 1], st, xfade);
        let (end, start) = if st.gap() > 0 {
            (time::min2(end, start), time::max2(start, end))
        } else {
            (end, start)
        };
        s.update(i, Segment { master_end_ns: end as i64, ..s[i] }).update(
            i + 1,
            Segment { master_start_ns: start as i64, ..s[i + 1] },
        )
    }
}

/// What splicing leaves as it was, and the ranges it keeps to.
proof fn lemma_spliced(
    segments: Seq<Segment>,
    strategies: Seq<SpliceStrategy>,
    xfade: int,
    n: int,
)
    requires
        segments_in_range(segments),
        0 <= n < segments.len(),
        n <= strategies.len(),
        0 <= xfade <= 50_000_000,
        forall|k: int| 0 <= k < strategies.len() ==> (#[trigger] strategies[k]).wf(),
    ensures
        ({
            let s = spliced(segments, strategies, xfade, n);
            &&& s.len() == segments.len()
            &&& forall|k: int|
                0 <= k < s.len() ==> (#[trigger] s[k]).donor_offset_ns
                    == segments[k].donor_offset_ns
            &&& forall|k: int|
                n <= k < s.len() ==> (#[trigger] s[k]).master_end_ns == segments[k].master_end_ns
            &&& forall|k: int| n < k < s.len() ==> #[trigger] s[k] == segments[k]
            &&& s[0].master_start_ns == segments[0].master_start_ns
            &&& forall|k: int|
                0 <= k < s.len() ==> -3 * time::TIME_LIMIT <= (#[trigger] s[k]).master_start_ns <= 3
                    * time::TIME_LIMIT && -3 * time::TIME_LIMIT <= s[k].master_end_ns <= 3
                    * time::TIME_LIMIT
        }),
    decreases n,
{
    assert(refine::segment_in_range(segments[0]));
    if n > 0 {
        lemma_spliced(segments, strategies, xfade, n - 1);
        let b = spliced(segments, strategies, xfade, n - 1);
        let s = spliced(segments, strategies, xfade, n);
        let i = n - 1;
        assert(refine::segment_in_range(segments[i]));
        assert(refine::segment_in_range(segments[i + 1]));
        assert(strategies[i].wf());
        assert(b[i].master_end_ns == segments[i].master_end_ns);
        assert(b[i + 1] == segments[i + 1]);
        assert forall|k: int| 0 <= k < s.len() implies (#[trigger] s[k]).donor_offset_ns
            == segments[k].donor_offset_ns by {
            assert(b[k].donor_offset_ns == segments[k].donor_offset_ns);
        }
        assert forall|k: int| n <= k < s.len() implies (#[trigger] s[k]).master_end_ns
            == segments[k].master_end_ns by {
            assert(b[k].master_end_ns == segments[k].master_end_ns);
        }
        assert forall|k: int| n < k < s.len() implies #[trigger] s[k] == segments[k] by {
            assert(b[k] == segments[k]);
        }
        assert forall|k: int| 0 <= k < s.len() implies -3 * time::TIME_LIMIT <= (
        #[trigger] s[k]).master_start_ns <= 3 * time::TIME_LIMIT && -3 * time::TIME_LIMIT
            <= s[k].master_end_ns <= 3 * time::TIME_LIMIT by {
            assert(-3 * time::TIME_LIMIT <= b[k].master_start_ns <= 3 * time::TIME_LIMIT);
        }
    } else {
        assert forall|k: int| 0 <= k < segments.len() implies -3 * time::TIME_LIMIT <= (
        #[trigger] segments[k]).master_start_ns <= 3 * time::TIME_LIMIT && -3 * time::TIME_LIMIT
            <= segments[k].master_end_ns <= 3 * time::TIME_LIMIT by {
            assert(refine::segment_in_range(segments[k]));
        }
    }
}

/// Bakes the splices into the ends of the segments. Afterwards each segment is
/// the exact range that is filled with donor audio at its offset.
pub fn apply_segment_geometry(
    segments: &mut Vec<Segment>,
    strategies: &Vec<SpliceStrategy>,
    xfade_ns: i64,
)
    requires
        segments_in_range(old(segments)@),
        old(segments)@.len() < 2 || strategies@.len() == old(segments)@.len() - 1,
        0 <= xfade_ns <= 50_000_000,
        forall|k: int| 0 <= k < strategies@.len() ==> (#[trigger] strategies@[k]).wf(),
    ensures
        final(segments)@ == (if old(segments)@.len() < 2 {
            old(segments)@
        } else {
            spliced(old(segments)@, strategies@, xfade_ns as int, strategies@.len() as int)
        }),
{
    let ghost start_segments = segments@;
    if segments.len() < 2 {
        return;
    }
    let n: usize = segments.len() - 1;
    let mut i: usize = 0;
    while i < n
        invariant
            i <= n,
            n + 1 == start_segments.len(),
            segments@.len() == n + 1,
            n < usize::MAX,
            strategies@.len() == n,
            segments_in_range(start_segments),
            0 <= xfade_ns <= 50_000_000,
            forall|k: int| 0 <= k < strategies@.len() ==> (#[trigger] strategies@[k]).wf(),
            segments@ == spliced(start_segments, strategies@, xfade_ns as int, i as int),
        decreases n - i,
    {
        proof {
            lemma_spliced(start_segments, strategies@, xfade_ns as int, i as int);
            assert(refine::segment_in_range(start_segments[i as int]));
            assert(refine::segment_in_range(start_segments[i + 1]));
            assert(strategies@[i as int].wf());
        }
        let a: Segment = segments[i];
        let b: Segment = segments[i + 1];
        assert(a.master_end_ns == start_segments[i as int].master_end_ns);
        assert(b == start_segments[i + 1]);
        let (snap, gap): (i64, i64) = match strategies[i] {
            SpliceStrategy::InMasterSilence { snap_master_ns, gap_ns } => (snap_master_ns, gap_ns),
            SpliceStrategy::InDubSilence { snap_master_ns, gap_ns } => (snap_master_ns, gap_ns),
            SpliceStrategy::AtBoundary { gap_ns } => (a.master_end_ns, gap_ns),
        };
        let mut end: i64 = if gap > 0 {
            snap - gap / 2
        } else {
            snap + xfade_ns / 2
        };
        let mut start: i64 = if gap > 0 {
            snap - gap / 2 + gap
        } else {
            snap - xfade_ns / 2
        };
        end = time::max_i64(end, a.master_start_ns);
        start = time::min_i64(start, b.master_end_ns);
        if gap > 0 && end > start {
            let e: i64 = end;
            end = start;
            start = e;
        }
        segments.set(
            i,
            Segment {
                master_start_ns: a.master_start_ns,
                master_end_ns: end,
                donor_offset_ns: a.donor_offset_ns,
            },
        );
        segments.set(
            i + 1,
            Segment {
                master_start_ns: start,
                master_end_ns: b.master_end_ns,
                donor_offset_ns: b.donor_offset_ns,
            },
        );
        i += 1;
    }
}

/// What holds at splice `i`: a gap separates the two segments, and is exactly
/// as long as asked for unless a segment is too short for it; a hard cut makes
/// them overlap by no more than the crossfade, and by all of it unless a
/// segment is too short.
pub open spec fn splice_holds(a: Segment, b: Segment, s: Seq<Segment>, i: int, st: SpliceStrategy, xfade: int) -> bool {
    let snap = st.snap(a.master_end_ns as int);
    let end = s[i].master_end_ns as int;
    let start = s[i + 1].master_start_ns as int;
    if st.gap() > 0 {
        &&& end <= start
        &&& a.master_start_ns <= snap - st.gap() / 2 && snap - st.gap() / 2 + st.gap()
            <= b.master_end_ns ==> start - end == st.gap() && end == snap - st.gap() / 2
    } else {
        a.master_start_ns <= snap + xfade / 2 && snap - xfade / 2 <= b.master_end_ns ==> end
            - start == 2 * (xfade / 2) && end == snap + xfade / 2
    }
}

proof fn lemma_splice_kept(
    segments: Seq<Segment>,
    strategies: Seq<SpliceStrategy>,
    xfade: int,
    i: int,
    n: int,
)
    requires
        segments_in_range(segments),
        0 <= i < n < segments.len(),
        n <= strategies.len(),
        0 <= xfade <= 50_000_000,
        forall|k: int| 0 <= k < strategies.len() ==> (#[trigger] strategies[k]).wf(),
    ensures
        splice_holds(
            spliced(segments, strategies, xfade, i)[i],
            segments[i + 1],
            spliced(segments, strategies, xfade, n),
            i,
            strategies[i],
            xfade,
        ),
    decreases n,
{
    lemma_spliced(segments, strategies, xfade, n - 1);
    assert(refine::segment_in_range(segments[n - 1]));
    assert(refine::segment_in_range(segments[n]));
    assert(strategies[n - 1].wf());
    let b = spliced(segments, strategies, xfade, n - 1);
    assert(b[n] == segments[n]);
    assert(b[n - 1].master_end_ns == segments[n - 1].master_end_ns);
    assert(-3 * time::TIME_LIMIT <= b[n - 1].master_start_ns <= 3 * time::TIME_LIMIT);
    if n > i + 1 {
        lemma_splice_kept(segments, strategies, xfade, i, n - 1);
        let s = spliced(segments, strategies, xfade, n);
        assert(s[i] == b[i]);
        assert(s[i + 1].master_start_ns == b[i + 1].master_start_ns);
    }
}

/// After splicing, at every boundary: an inserted silence separates the two
/// segments and has the length of the change of offset, and a hard cut makes
/// them overlap by the crossfade, except where a segment is too short. The
/// offsets, the start of the first and the end of the last segment stay.
pub proof fn law_splice_geometry(
    segments: Seq<Segment>,
    strategies: Seq<SpliceStrategy>,
    xfade: int,
)
    requires
        segments_in_range(segments),
        segments.len() >= 2,
        strategies.len() == segments.len() - 1,
        0 <= xfade <= 50_000_000,
        forall|k: int| 0 <= k < strategies.len() ==> (#[trigger] strategies[k]).wf(),
    ensures
        ({
            let n = strategies.len() as int;
            let s = spliced(segments, strategies, xfade, n);
            &&& s.len() == segments.len()
            &&& s[0].master_start_ns == segments[0].master_start_ns
            &&& s.last().master_end_ns == segments.last().master_end_ns
            &&& forall|k: int|
                0 <= k < s.len() ==> (#[trigger] s[k]).donor_offset_ns
                    == segments[k].donor_offset_ns
            &&& forall|i: int|
                0 <= i < n ==> splice_holds(
                    spliced(segments, strategies, xfade, i)[i],
                    segments[i + 1],
                    s,
                    i,
                    #[trigger] strategies[i],
                    xfade,
                )
        }),
{
    let n = strategies.len() as int;
    lemma_spliced(segments, strategies, xfade, n);
    let s = spliced(segments, strategies, xfade, n);
    assert forall|i: int| 0 <= i < n implies splice_holds(
        spliced(segments, strategies, xfade, i)[i],
        segments[i + 1],
        s,
        i,
        #[trigger] strategies[i],
        xfade,
    ) by {
        lemma_splice_kept(segments, strategies, xfade, i, n);
    }
}

/// A dub on the master timeline.
#[derive(Clone, Debug)]
pub struct SyncedDub {
    pub donor_index: u32,
    pub wav: String,
}

/// `synced_dub_{index}.wav`
pub open spec fn synced_name_of(donor_index: u32) -> Seq<char> {
    "synced_dub_"@ + text::decimal(donor_index as nat) + ".wav"@
}

/// The file that a synced dub is written to.
pub fn synced_name(donor_index: u32) -> (r: String)
    ensures
        r@ == synced_name_of(donor_index),
{
    args::number_text("synced_dub_", donor_index as u64, ".wav")
}

/// How one dub is cut.
#[derive(Debug)]
pub struct SplicePlan {
    pub strategies: Vec<SpliceStrategy>,
    /// The ranges to fill with donor audio.
    pub segments: Vec<Segment>,
}

/// Plans the cuts of a dub: a strategy for every interior boundary, and the
/// segments with the splices baked in.
pub fn plan_splices(
    map: &OffsetMap,
    snaps: &Vec<Option<MasterSnap>>,
    dub_silences: &Vec<SilenceInterval>,
    cfg: &SpliceConfig,
) -> (r: SplicePlan)
    requires
        segments_in_range(map.segments@),
        snaps_wf(snaps@),
        silences_in_range(dub_silences@),
        time::in_range(cfg.snap_radius_ns),
    ensures
        r.strategies@.len() == (if map.segments@.len() == 0 {
            0
        } else {
            map.segments@.len() - 1
        }),
        forall|i: int|
            0 <= i < r.strategies@.len() ==> is_strategy(
                #[trigger] r.strategies@[i],
                map.segments@,
                i,
                snaps@,
                dub_silences@,
                cfg.snap_radius_ns as int,
            ),
        r.segments@ == (if map.segments@.len() < 2 {
            map.segments@
        } else {
            spliced(
                map.segments@,
                r.strategies@,
                crossfade_used(cfg.crossfade_ms as int) * 1_000_000,
                r.strategies@.len() as int,
            )
        }),
{
    let strategies = classify_strategies(&map.segments, snaps, dub_silences, cfg.snap_radius_ns);
    let mut segments: Vec<Segment> = Vec::new();
    let mut i: usize = 0;
    while i < map.segments.len()
        invariant
            i <= map.segments@.len(),
            segments@ == map.segments@.take(i as int),
        decreases map.segments@.len() - i,
    {
        segments.push(map.segments[i]);
        i += 1;
    }
    assert(segments@ =~= map.segments@);
    assert forall|k: int| 0 <= k < strategies@.len() implies (#[trigger] strategies@[k]).wf() by {
        assert(refine::segment_in_range(map.segments@[k]));
        assert(refine::segment_in_range(map.segments@[k + 1]));
        assert(is_strategy(
            strategies@[k],
            map.segments@,
            k,
            snaps@,
            dub_silences@,
            cfg.snap_radius_ns as int,
        ));
        if k < snaps@.len() {
            assert(snap_wf(snaps@[k]));
        }
    }
    apply_segment_geometry(&mut segments, &strategies, crossfade_ns(cfg));
    SplicePlan { strategies, segments }
}

/// The crossfade asked for is used from 1 to 50 ms; less counts as the one,
/// more as the other.
pub proof fn law_crossfade_is_clamped(ms: int)
    ensures
        1 <= crossfade_used(ms) <= 50,
        1 <= ms <= 50 ==> crossfade_used(ms) == ms,
        ms <= 1 ==> crossfade_used(ms) == 1,
        ms >= 50 ==> crossfade_used(ms) == 50,
{
}

/// The master silence chosen for a boundary is at least as wide as the change
/// of offset and has its middle within the radius, and no other such silence
/// lies nearer, or as near and is wider. The snap is its middle. Silence is
/// inserted only where the donor falls behind, as much as it falls behind by.
pub proof fn law_master_silence_is_the_nearest(
    snap: MasterSnap,
    segments: Seq<Segment>,
    i: int,
    silences: Seq<SilenceInterval>,
    radius: int,
)
    requires
        segments_in_range(segments),
        silences_in_range(silences),
        0 <= i < segments.len() - 1,
        is_master_snap(Some(snap), segments, i, silences, radius),
    ensures
        ({
            let b = segments[i].master_end_ns;
            let d = segments[i + 1].donor_offset_ns - segments[i].donor_offset_ns;
            &&& d < 0 ==> snap.gap_ns == -d
            &&& d >= 0 ==> snap.gap_ns == 0
            &&& exists|k: int|
                #![trigger silences[k]]
                {
                    let s = silences[k];
                    let far = s.start_ns + s.end_ns - 2 * b;
                    &&& 0 <= k < silences.len()
                    &&& -(s.end_ns - s.start_ns) <= d <= s.end_ns - s.start_ns
                    &&& -2 * radius <= far <= 2 * radius
                    &&& snap.silence_width_ns == s.end_ns - s.start_ns
                    &&& 2 * snap.snap_master_ns <= s.start_ns + s.end_ns <= 2 * snap.snap_master_ns
                        + 1
                    &&& forall|j: int|
                        0 <= j < silences.len() && j != k ==> is_farther(
                            #[trigger] silences[j],
                            s,
                            b as int,
                            d,
                            j < k,
                        )
                }
        }),
{
    let b = segments[i].master_end_ns as int;
    let d = delta_at(segments, i);
    assert(refine::segment_in_range(segments[i]));
    assert(refine::segment_in_range(segments[i + 1]));
    let k = choose|k: int|
        is_best(silences, silences.len() as int, k, b, d, radius) && snap == snap_into(
            #[trigger] silences[k],
            d,
        );
    let s = silences[k];
    assert(time::in_range(s.start_ns) && time::in_range(s.end_ns));
    assert(qualifies(s, b, d, radius));
    assert forall|j: int| 0 <= j < silences.len() && j != k implies is_farther(
        #[trigger] silences[j],
        s,
        b,
        d,
        j < k,
    ) by {
        if qualifies(silences[j], b, d, radius) {
            assert(!better(silences[j], s, b));
        }
    }
}

/// Silence `o` is no rival of `s` at a boundary with a change of `d`: too
/// narrow, farther away, or as far and not wider (narrower, if it comes first).
pub open spec fn is_farther(
    o: SilenceInterval,
    s: SilenceInterval,
    boundary: int,
    d: int,
    first: bool,
) -> bool {
    let o_width = o.end_ns - o.start_ns;
    let s_width = s.end_ns - s.start_ns;
    let o_far = o.start_ns + o.end_ns - 2 * boundary;
    let s_far = s.start_ns + s.end_ns - 2 * boundary;
    ||| o_width < d
    ||| o_width < -d
    ||| (o_far > s_far || -o_far > s_far) && (o_far > -s_far || -o_far > -s_far)
    ||| (o_far == s_far || o_far == -s_far) && if first {
        o_width < s_width
    } else {
        o_width <= s_width
    }
}

/// Without a master silence for a boundary, every silence is narrower than the
/// change of offset or has its middle beyond the radius.
pub proof fn law_no_master_silence(
    segments: Seq<Segment>,
    i: int,
    silences: Seq<SilenceInterval>,
    radius: int,
    k: int,
)
    requires
        0 <= i < segments.len() - 1,
        0 <= k < silences.len(),
        is_master_snap(None, segments, i, silences, radius),
    ensures
        ({
            let b = segments[i].master_end_ns;
            let d = segments[i + 1].donor_offset_ns - segments[i].donor_offset_ns;
            let s = silences[k];
            let far = s.start_ns + s.end_ns - 2 * b;
            s.end_ns - s.start_ns < d || s.end_ns - s.start_ns < -d || far > 2 * radius || far < -2
                * radius
        }),
{
    assert(!qualifies(
        silences[k],
        segments[i].master_end_ns as int,
        delta_at(segments, i),
        radius,
    ));
}

/// Silence is inserted only where the donor falls behind, and as much as it
/// falls behind by, whichever strategy is chosen: where the offset does not
/// fall the gap is zero.
pub proof fn law_gap_is_the_fall(
    st: SpliceStrategy,
    segments: Seq<Segment>,
    i: int,
    snaps: Seq<Option<MasterSnap>>,
    silences: Seq<SilenceInterval>,
    dub_silences: Seq<SilenceInterval>,
    radius: int,
)
    requires
        segments_in_range(segments),
        silences_in_range(silences),
        0 <= i < segments.len() - 1,
        i < snaps.len() ==> is_master_snap(snaps[i], segments, i, silences, radius),
        is_strategy(st, segments, i, snaps, dub_silences, radius),
    ensures
        ({
            let d = segments[i + 1].donor_offset_ns - segments[i].donor_offset_ns;
            let gap = match st {
                SpliceStrategy::InMasterSilence { gap_ns, .. } => gap_ns,
                SpliceStrategy::InDubSilence { gap_ns, .. } => gap_ns,
                SpliceStrategy::AtBoundary { gap_ns } => gap_ns,
            };
            &&& d < 0 ==> gap == -d
            &&& d >= 0 ==> gap == 0
        }),
{
    assert(refine::segment_in_range(segments[i]));
    assert(refine::segment_in_range(segments[i + 1]));
    if let SpliceStrategy::InMasterSilence { .. } = st {
        law_master_silence_is_the_nearest(snaps[i]->0, segments, i, silences, radius);
    }
}

/// A master silence is always preferred: it is used if and only if there is
/// one, and the splice then lies in its middle.
pub proof fn law_master_silence_comes_first(
    st: SpliceStrategy,
    segments: Seq<Segment>,
    i: int,
    snaps: Seq<Option<MasterSnap>>,
    dub_silences: Seq<SilenceInterval>,
    radius: int,
)
    requires
        0 <= i < segments.len() - 1,
        is_strategy(st, segments, i, snaps, dub_silences, radius),
    ensures
        i < snaps.len() && snaps[i] is Some <==> st is InMasterSilence,
        st matches SpliceStrategy::InMasterSilence { snap_master_ns, gap_ns } ==> snap_master_ns
            == snaps[i]->0.snap_master_ns && gap_ns == snaps[i]->0.gap_ns,
{
}

/// The dub is silent at master time `t` under an offset.
pub open spec fn silent_at(silences: Seq<SilenceInterval>, t: int, offset: int) -> bool {
    exists|k: int|
        0 <= k < silences.len() && (#[trigger] silences[k]).start_ns <= t + offset
            <= silences[k].end_ns
}

/// A splice in a dub silence lies where the dub is silent under both offsets,
/// within the radius, and no other such time is nearer to the boundary.
pub proof fn law_dub_silence_is_the_nearest(
    st: SpliceStrategy,
    segments: Seq<Segment>,
    i: int,
    snaps: Seq<Option<MasterSnap>>,
    dub: Seq<SilenceInterval>,
    radius: int,
    other: int,
)
    requires
        0 <= i < segments.len() - 1,
        radius >= 0,
        is_strategy(st, segments, i, snaps, dub, radius),
        st is InDubSilence,
    ensures
        ({
            let b = segments[i].master_end_ns;
            let t = st->InDubSilence_snap_master_ns;
            &&& silent_at(dub, t as int, segments[i].donor_offset_ns as int)
            &&& silent_at(dub, t as int, segments[i + 1].donor_offset_ns as int)
            &&& b - radius <= t <= b + radius
            &&& silent_at(dub, other, segments[i].donor_offset_ns as int) && silent_at(
                dub,
                other,
                segments[i + 1].donor_offset_ns as int,
            ) ==> (b <= t ==> other >= t || other <= 2 * b - t) && (t <= b ==> other <= t || other
                >= 2 * b - t)
        }),
{
    let q = MutualQuery {
        boundary: segments[i].master_end_ns as int,
        off_a: segments[i].donor_offset_ns as int,
        off_b: segments[i + 1].donor_offset_ns as int,
        radius,
    };
    let t = st->InDubSilence_snap_master_ns;
    lemma_mutual_result(t, dub, q);
    if silent_at(dub, other, q.off_a) && silent_at(dub, other, q.off_b) {
        lemma_mutual_nearest(t, dub, q, other);
    }
}

/// At a mutual silence the dub is silent under both offsets.
proof fn lemma_mutual_result(t: i64, dub: Seq<SilenceInterval>, q: MutualQuery)
    requires
        is_mutual_result(Some(t), dub, q),
        q.radius >= 0,
    ensures
        silent_at(dub, t as int, q.off_a),
        silent_at(dub, t as int, q.off_b),
        time::abs(t - q.boundary) <= q.radius,
{
    let (x, y) = choose|x: int, y: int|
        #![trigger dub[x], dub[y]]
        is_best_pair(dub, q, x, y, dub.len() as int, 0) && t == mutual_time(dub[x], dub[y], q);
    law_mutual_silence_is_near(dub[x], dub[y], q);
    assert(dub[x].start_ns <= t + q.off_a <= dub[x].end_ns);
    assert(dub[y].start_ns <= t + q.off_b <= dub[y].end_ns);
}

/// No mutual silence is nearer to the boundary than the one found.
proof fn lemma_mutual_nearest(t: i64, dub: Seq<SilenceInterval>, q: MutualQuery, other: int)
    requires
        is_mutual_result(Some(t), dub, q),
        q.radius >= 0,
        silent_at(dub, other, q.off_a),
        silent_at(dub, other, q.off_b),
    ensures
        time::abs(t - q.boundary) <= time::abs(other - q.boundary),
{
    let n = dub.len() as int;
    let (x, y) = choose|x: int, y: int|
        #![trigger dub[x], dub[y]]
        is_best_pair(dub, q, x, y, n, 0) && t == mutual_time(dub[x], dub[y], q);
    let u = choose|k: int|
        0 <= k < n && (#[trigger] dub[k]).start_ns <= other + q.off_a <= dub[k].end_ns;
    let v = choose|k: int|
        0 <= k < n && (#[trigger] dub[k]).start_ns <= other + q.off_b <= dub[k].end_ns;
    if time::abs(other - q.boundary) <= q.radius {
        assert(is_mutual(dub[u], dub[v], q));
        assert(looked_at(u, v, n, n, 0));
        let shift = mutual_shift(dub[x], dub[y], q);
        assert(shift <= mutual_shift(dub[u], dub[v], q));
        lemma_clamped_is_nearest(
            q.boundary,
            mutual_lo(dub[u], dub[v], q),
            mutual_hi(dub[u], dub[v], q),
            other,
        );
    } else {
        lemma_mutual_result(t, dub, q);
    }
}

/// The nearest point of an interval.
proof fn lemma_clamped_is_nearest(b: int, lo: int, hi: int, other: int)
    requires
        lo <= other <= hi,
    ensures
        time::abs(time::min2(time::max2(b, lo), hi) - b) <= time::abs(other - b),
{
}

/// A boundary is cut where it is only if there is no master silence for it and
/// at no time within the radius is the dub silent under both offsets.
pub proof fn law_boundary_is_the_last_resort(
    st: SpliceStrategy,
    segments: Seq<Segment>,
    i: int,
    snaps: Seq<Option<MasterSnap>>,
    dub: Seq<SilenceInterval>,
    radius: int,
    t: int,
)
    requires
        0 <= i < segments.len() - 1,
        is_strategy(st, segments, i, snaps, dub, radius),
        st is AtBoundary,
        segments[i].master_end_ns - radius <= t <= segments[i].master_end_ns + radius,
    ensures
        i < snaps.len() ==> snaps[i] is None,
        !silent_at(dub, t, segments[i].donor_offset_ns as int) || !silent_at(
            dub,
            t,
            segments[i + 1].donor_offset_ns as int,
        ),
{
    let q = MutualQuery {
        boundary: segments[i].master_end_ns as int,
        off_a: segments[i].donor_offset_ns as int,
        off_b: segments[i + 1].donor_offset_ns as int,
        radius,
    };
    let n = dub.len() as int;
    if silent_at(dub, t, q.off_a) && silent_at(dub, t, q.off_b) {
        let u = choose|k: int|
            0 <= k < n && (#[trigger] dub[k]).start_ns <= t + q.off_a <= dub[k].end_ns;
        let v = choose|k: int|
            0 <= k < n && (#[trigger] dub[k]).start_ns <= t + q.off_b <= dub[k].end_ns;
        assert(looked_at(u, v, n, n, 0));
        assert(is_mutual(dub[u], dub[v], q));
    }
}

/// Where the donor falls behind, the spliced segments leave a silence that is
/// centred on the splice and exactly as long as the gap, if both segments have
/// room for it; it never turns into an overlap.
pub proof fn law_inserted_silence(
    segments: Seq<Segment>,
    strategies: Seq<SpliceStrategy>,
    xfade: int,
    i: int,
    snap: int,
    gap: int,
)
    requires
        segments_in_range(segments),
        strategies.len() == segments.len() - 1,
        0 <= xfade <= 50_000_000,
        forall|k: int| 0 <= k < strategies.len() ==> (#[trigger] strategies[k]).wf(),
        0 <= i < strategies.len(),
        gap > 0,
        match strategies[i] {
            SpliceStrategy::InMasterSilence { snap_master_ns, gap_ns } => snap == snap_master_ns
                && gap == gap_ns,
            SpliceStrategy::InDubSilence { snap_master_ns, gap_ns } => snap == snap_master_ns && gap
                == gap_ns,
            SpliceStrategy::AtBoundary { gap_ns } => snap == segments[i].master_end_ns && gap
                == gap_ns,
        },
    ensures
        ({
            let s = spliced(segments, strategies, xfade, strategies.len() as int);
            &&& s[i].master_end_ns <= s[i + 1].master_start_ns
            &&& 2 * s[i].master_start_ns <= 2 * snap - gap && 2 * snap + gap + 1 <= 2
                * segments[i + 1].master_end_ns ==> {
                &&& s[i + 1].master_start_ns - s[i].master_end_ns == gap
                &&& 2 * snap - gap <= 2 * s[i].master_end_ns <= 2 * snap - gap + 1
            }
        }),
{
    let n = strategies.len() as int;
    lemma_splice_kept(segments, strategies, xfade, i, n);
    lemma_spliced(segments, strategies, xfade, i);
    lemma_start_kept(segments, strategies, xfade, i, n);
}

/// Where the donor does not fall behind, the spliced segments overlap by the
/// crossfade, centred on the splice, if both segments have room for it, so
/// that no silence is left.
pub proof fn law_hard_cut_leaves_no_silence(
    segments: Seq<Segment>,
    strategies: Seq<SpliceStrategy>,
    xfade: int,
    i: int,
    snap: int,
)
    requires
        segments_in_range(segments),
        strategies.len() == segments.len() - 1,
        0 <= xfade <= 50_000_000,
        forall|k: int| 0 <= k < strategies.len() ==> (#[trigger] strategies[k]).wf(),
        0 <= i < strategies.len(),
        match strategies[i] {
            SpliceStrategy::InMasterSilence { snap_master_ns, gap_ns } => snap == snap_master_ns
                && gap_ns == 0,
            SpliceStrategy::InDubSilence { snap_master_ns, gap_ns } => snap == snap_master_ns
                && gap_ns == 0,
            SpliceStrategy::AtBoundary { gap_ns } => snap == segments[i].master_end_ns && gap_ns
                == 0,
        },
    ensures
        ({
            let s = spliced(segments, strategies, xfade, strategies.len() as int);
            2 * s[i].master_start_ns <= 2 * snap + xfade - 1 && 2 * snap - xfade + 1 <= 2
                * segments[i + 1].master_end_ns ==> {
                &&& xfade - 1 <= s[i].master_end_ns - s[i + 1].master_start_ns <= xfade
                &&& s[i].master_end_ns + s[i + 1].master_start_ns == 2 * snap
            }
        }),
{
    let n = strategies.len() as int;
    lemma_splice_kept(segments, strategies, xfade, i, n);
    lemma_spliced(segments, strategies, xfade, i);
    lemma_start_kept(segments, strategies, xfade, i, n);
}

/// Later splices leave the start of a segment alone.
proof fn lemma_start_kept(
    segments: Seq<Segment>,
    strategies: Seq<SpliceStrategy>,
    xfade: int,
    i: int,
    n: int,
)
    requires
        segments_in_range(segments),
        0 <= i <= n < segments.len(),
        n <= strategies.len(),
        0 <= xfade <= 50_000_000,
        forall|k: int| 0 <= k < strategies.len() ==> (#[trigger] strategies[k]).wf(),
    ensures
        spliced(segments, strategies, xfade, n)[i].master_start_ns == spliced(
            segments,
            strategies,
            xfade,
            i,
        )[i].master_start_ns,
    decreases n,
{
    if n > i {
        lemma_start_kept(segments, strategies, xfade, i, n - 1);
        lemma_spliced(segments, strategies, xfade, n - 1);
    }
}

/// Splicing moves only the two ends that meet at a splice: the offsets, the
/// start of the first segment and the end of the last stay as they were.
pub proof fn law_splicing_keeps_the_rest(
    segments: Seq<Segment>,
    strategies: Seq<SpliceStrategy>,
    xfade: int,
    k: int,
)
    requires
        segments_in_range(segments),
        segments.len() >= 2,
        strategies.len() == segments.len() - 1,
        0 <= xfade <= 50_000_000,
        forall|k: int| 0 <= k < strategies.len() ==> (#[trigger] strategies[k]).wf(),
        0 <= k < segments.len(),
    ensures
        ({
            let s = spliced(segments, strategies, xfade, strategies.len() as int);
            &&& s.len() == segments.len()
            &&& s[k].donor_offset_ns == segments[k].donor_offset_ns
            &&& s[0].master_start_ns == segments[0].master_start_ns
            &&& s[s.len() - 1].master_end_ns == segments[s.len() - 1].master_end_ns
        }),
{
    lemma_spliced(segments, strategies, xfade, strategies.len() as int);
}

} // verus!
