//! Sliding-window correlation between two mono anchor signals.
use vstd::prelude::*;
use crate::time;

verus! {

/// One window's evidence: at this master time, the matching donor content is
/// this far later.
#[derive(Clone, Copy, Debug)]
pub struct AnchorPoint {
    pub master_time_ns: i64,
    pub offset_ns: i64,
    /// Peak-to-sidelobe ratio, in millionths.
    pub confidence: i64,
}

/// Anchors from this confidence on steer the search.
pub const MIN_CONF_FOR_SEED: i64 = 6_000_000;

/// The windows of a sliding correlation, in samples.
#[derive(Clone, Copy, Debug)]
pub struct SlidingPlan {
    pub rate: u32,
    pub window: u64,
    pub hop: u64,
    /// How far around the expected offset the donor is searched.
    pub drift: u64,
    pub master_len: u64,
    pub donor_len: u64,
    pub windows: u64,
}

/// The plan for two signals; `None` if the master is shorter than a window.
pub open spec fn plan_of(
    master_len: int,
    donor_len: int,
    rate: int,
    window_ns: int,
    hop_ns: int,
    drift_ns: int,
) -> Option<SlidingPlan> {
    let window = time::to_samples(window_ns, rate);
    let hop = time::to_samples(hop_ns, rate);
    if master_len < window {
        None
    } else {
        Some(
            SlidingPlan {
                rate: rate as u32,
                window: window as u64,
                hop: hop as u64,
                drift: time::to_samples(drift_ns, rate) as u64,
                master_len: master_len as u64,
                donor_len: donor_len as u64,
                windows: ((master_len - window) / hop + 1) as u64,
            },
        )
    }
}

impl SlidingPlan {
    pub open spec fn wf(&self) -> bool {
        &&& self.rate > 0
        &&& self.hop > 0
        &&& self.window <= self.master_len <= time::TIME_LIMIT
        &&& self.donor_len <= time::TIME_LIMIT
        &&& self.drift <= 5 * time::TIME_LIMIT
        &&& self.windows == (self.master_len - self.window) / self.hop as int + 1
    }

    /// First master sample of window `i`.
    pub open spec fn master_start(&self, i: int) -> int {
        i * self.hop
    }

    /// Length of the donor slice that is searched: the window and the drift on
    /// either side.
    pub open spec fn slice_len(&self) -> int {
        self.window + 2 * self.drift
    }

    /// The donor slice for window `i` when the offset is expected to be `seed`
    /// samples; `None` if it is no longer than the window.
    pub open spec fn donor_slice(&self, i: int, seed: int) -> Option<(int, int)> {
        let start = time::max2(self.master_start(i) + seed - self.drift, 0);
        let end = time::min2(start + self.slice_len(), self.donor_len as int);
        if end <= start + self.window {
            None
        } else {
            Some((start, end))
        }
    }
}

/// Plans a sliding correlation. A hop that rounds to no samples at all is not
/// one that a signal can be walked in.
pub fn plan_sliding(
    master_len: usize,
    donor_len: usize,
    rate: u32,
    window_ns: i64,
    hop_ns: i64,
    drift_ns: i64,
) -> (r: Option<SlidingPlan>)
    requires
        rate > 0,
        master_len <= time::TIME_LIMIT,
        donor_len <= time::TIME_LIMIT,
        0 <= window_ns <= time::TIME_LIMIT,
        0 <= hop_ns <= time::TIME_LIMIT,
        0 <= drift_ns <= time::TIME_LIMIT,
        time::to_samples(hop_ns as int, rate as int) > 0,
    ensures
        r == plan_of(
            master_len as int,
            donor_len as int,
            rate as int,
            window_ns as int,
            hop_ns as int,
            drift_ns as int,
        ),
        r matches Some(p) ==> p.wf(),
{
    let window: i64 = time::samples_of(window_ns, rate);
    let hop: i64 = time::samples_of(hop_ns, rate);
    let drift: i64 = time::samples_of(drift_ns, rate);
    if (master_len as i64) < window {
        return None;
    }
    Some(
        SlidingPlan {
            rate,
            window: window as u64,
            hop: hop as u64,
            drift: drift as u64,
            master_len: master_len as u64,
            donor_len: donor_len as u64,
            windows: (master_len as u64 - window as u64) / (hop as u64) + 1,
        },
    )
}

/// Every window lies inside the master.
pub proof fn law_windows_in_master(p: SlidingPlan, i: int)
    requires
        p.wf(),
        0 <= i < p.windows,
    ensures
        0 <= p.master_start(i),
        p.master_start(i) + p.window <= p.master_len,
{
    let spare = p.master_len - p.window;
    let hop = p.hop as int;
    vstd::arithmetic::div_mod::lemma_fundamental_div_mod(spare, hop);
    vstd::arithmetic::div_mod::lemma_mod_bound(spare, hop);
    assert(0 <= i * hop <= spare) by (nonlinear_arith)
        requires
            0 <= i <= spare / hop,
            spare == hop * (spare / hop) + spare % hop,
            spare % hop >= 0,
            hop > 0,
    ;
}

/// First master sample of window `i`.
pub fn window_start(p: &SlidingPlan, i: u64) -> (r: u64)
    requires
        p.wf(),
        i < p.windows,
    ensures
        r == p.master_start(i as int),
        r + p.window <= p.master_len,
{
    proof {
        law_windows_in_master(*p, i as int);
    }
    i * p.hop
}

/// The donor samples to search for window `i`.
pub fn donor_range(p: &SlidingPlan, i: u64, seed: i64) -> (r: Option<(u64, u64)>)
    requires
        p.wf(),
        i < p.windows,
    ensures
        match r {
            Some((a, b)) => p.donor_slice(i as int, seed as int) == Some((a as int, b as int)) && a
                + p.window < b <= p.donor_len,
            None => p.donor_slice(i as int, seed as int) is None,
        },
{
    let master_start: u64 = window_start(p, i);
    let target: i128 = master_start as i128 + seed as i128 - p.drift as i128;
    let start: i128 = if target > 0 {
        target
    } else {
        0
    };
    let reach: i128 = start + (p.window as i128 + 2 * p.drift as i128);
    let end: i128 = if reach < p.donor_len as i128 {
        reach
    } else {
        p.donor_len as i128
    };
    if end <= start + p.window as i128 {
        None
    } else {
        Some((start as u64, end as u64))
    }
}

/// One window's evidence in samples.
#[derive(Clone, Copy, Debug)]
pub struct SampleAnchor {
    pub master_start: u64,
    /// Donor position less master position.
    pub offset: i64,
    pub confidence: i64,
}

/// The anchor of a window whose content was found `found` samples into the
/// donor slice at `donor_start`.
pub open spec fn found_anchor(
    master_start: u64,
    donor_start: u64,
    found: u64,
    confidence: i64,
) -> SampleAnchor {
    SampleAnchor {
        master_start,
        offset: (donor_start + found - master_start) as i64,
        confidence,
    }
}

/// Turns the place of a match into an anchor.
pub fn anchor_from_phat(master_start: u64, donor_start: u64, found: u64, confidence: i64) -> (r:
    SampleAnchor)
    requires
        master_start <= time::TIME_LIMIT,
        donor_start <= time::TIME_LIMIT,
        found <= time::TIME_LIMIT,
    ensures
        r == found_anchor(master_start, donor_start, found, confidence),
{
    SampleAnchor {
        master_start,
        offset: donor_start as i64 + found as i64 - master_start as i64,
        confidence,
    }
}

/// The anchor of a window that could not be searched: the expected offset,
/// without any confidence.
pub fn anchor_without_donor(master_start: u64, seed: i64) -> (r: SampleAnchor)
    ensures
        r == (SampleAnchor { master_start, offset: seed, confidence: 0 }),
{
    SampleAnchor { master_start, offset: seed, confidence: 0 }
}

/// The offset to expect behind a chunk of anchors: that of the last confident
/// one, or what was expected before.
pub open spec fn seed_after(chunk: Seq<SampleAnchor>, seed: int) -> int
    decreases chunk.len(),
{
    if chunk.len() == 0 {
        seed
    } else if chunk.last().confidence >= MIN_CONF_FOR_SEED {
        chunk.last().offset as int
    } else {
        seed_after(chunk.drop_last(), seed)
    }
}

/// Updates the expected offset behind a chunk, so that the next chunk's search
/// is centred on the real offset even when it drifts a long way.
pub fn next_seed(chunk: &Vec<SampleAnchor>, seed: i64) -> (r: i64)
    ensures
        r == seed_after(chunk@, seed as int),
{
    let mut n: usize = chunk.len();
    assert(chunk@.take(n as int) =~= chunk@);
    while n > 0
        invariant
            n <= chunk@.len(),
            seed_after(chunk@, seed as int) == seed_after(chunk@.take(n as int), seed as int),
        decreases n,
    {
        if chunk[n - 1].confidence >= MIN_CONF_FOR_SEED {
            return chunk[n - 1].offset;
        }
        assert(chunk@.take(n as int).drop_last() =~= chunk@.take(n - 1));
        n -= 1;
    }
    seed
}

/// A time that a machine integer holds.
pub open spec fn fits(t: int) -> bool {
    i64::MIN <= t <= i64::MAX
}

/// An anchor in time.
pub open spec fn anchor_time(a: SampleAnchor, rate: int) -> AnchorPoint {
    AnchorPoint {
        master_time_ns: time::to_ns(a.master_start as int, rate) as i64,
        offset_ns: time::to_ns(a.offset as int, rate) as i64,
        confidence: a.confidence,
    }
}

/// Turns an anchor's samples into times; `None` if one of them does not fit.
pub fn to_anchor_point(a: &SampleAnchor, rate: u32) -> (r: Option<AnchorPoint>)
    requires
        rate > 0,
        a.master_start <= i64::MAX,
    ensures
        match r {
            Some(p) => p == anchor_time(*a, rate as int) && p.master_time_ns == time::to_ns(
                a.master_start as int,
                rate as int,
            ) && p.offset_ns == time::to_ns(a.offset as int, rate as int),
            None => !fits(time::to_ns(a.master_start as int, rate as int)) || !fits(
                time::to_ns(a.offset as int, rate as int),
            ),
        },
{
    match (time::ns_of(a.master_start as i64, rate), time::ns_of(a.offset, rate)) {
        (Some(master_time_ns), Some(offset_ns)) => Some(
            AnchorPoint { master_time_ns, offset_ns, confidence: a.confidence },
        ),
        _ => None,
    }
}

/// Where the chunk that starts at window `start` ends: `size` windows on, or at
/// the last one.
pub fn chunk_end(start: u64, size: u64, windows: u64) -> (r: u64)
    requires
        start <= windows,
    ensures
        r == time::min2(start + size, windows as int),
{
    if size >= windows - start {
        windows
    } else {
        start + size
    }
}

/// An anchor says where the content of a window is in the donor: the window's
/// place plus the offset is the place of the match.
pub proof fn law_anchor_points_at_the_match(
    master_start: u64,
    donor_start: u64,
    found: u64,
    confidence: i64,
)
    requires
        master_start <= time::TIME_LIMIT,
        donor_start <= time::TIME_LIMIT,
        found <= time::TIME_LIMIT,
    ensures
        ({
            let a = found_anchor(master_start, donor_start, found, confidence);
            &&& a.master_start == master_start
            &&& a.master_start + a.offset == donor_start + found
            &&& a.confidence == confidence
        }),
{
}

/// The windows, hops and drift of a plan are those asked for, to half a sample.
/// The windows fill the master: the last one fits, and one more would not. There
/// is a plan if and only if one window fits.
pub proof fn law_windows_fill_the_master(
    master_len: int,
    donor_len: int,
    rate: u32,
    window_ns: int,
    hop_ns: int,
    drift_ns: int,
)
    requires
        rate > 0,
        0 <= master_len <= time::TIME_LIMIT,
        0 <= donor_len <= time::TIME_LIMIT,
        0 <= window_ns <= time::TIME_LIMIT,
        0 <= hop_ns <= time::TIME_LIMIT,
        0 <= drift_ns <= time::TIME_LIMIT,
        time::to_samples(hop_ns, rate as int) > 0,
    ensures
        match plan_of(master_len, donor_len, rate as int, window_ns, hop_ns, drift_ns) {
            Some(p) => {
                let unit: int = 1_000_000_000;
                &&& p.rate == rate && p.master_len == master_len && p.donor_len == donor_len
                &&& -unit <= 2 * (p.window * unit - window_ns * rate) <= unit
                &&& -unit <= 2 * (p.hop * unit - hop_ns * rate) <= unit
                &&& -unit <= 2 * (p.drift * unit - drift_ns * rate) <= unit
                &&& p.windows > 0
                &&& p.master_start(0) == 0
                &&& p.master_start(p.windows as int) - p.master_start(p.windows - 1) == p.hop
                &&& p.master_start(p.windows - 1) + p.window <= master_len
                &&& p.master_start(p.windows as int) + p.window > master_len
            },
            None => 2 * (window_ns * rate - master_len * 1_000_000_000) > 0,
        },
{
    let rt = rate as int;
    lemma_samples_fit(window_ns, rate);
    lemma_samples_fit(hop_ns, rate);
    lemma_samples_fit(drift_ns, rate);
    time::law_samples_of_a_time(window_ns, rt);
    time::law_samples_of_a_time(hop_ns, rt);
    time::law_samples_of_a_time(drift_ns, rt);
    if let Some(p) = plan_of(master_len, donor_len, rt, window_ns, hop_ns, drift_ns) {
        let spare = master_len - p.window;
        let hop = p.hop as int;
        let n = spare / hop;
        vstd::arithmetic::div_mod::lemma_fundamental_div_mod(spare, hop);
        vstd::arithmetic::div_mod::lemma_mod_bound(spare, hop);
        vstd::arithmetic::div_mod::lemma_div_pos_is_pos(spare, hop);
        vstd::arithmetic::div_mod::lemma_div_is_ordered_by_denominator(spare, 1, hop);
        assert(spare / 1 == spare);
        assert(p.windows == n + 1);
        assert((n + 1) * hop == n * hop + hop && n * hop == hop * n && 0 * hop == 0)
            by (nonlinear_arith);
    }
}

proof fn lemma_samples_fit(ns: int, rate: u32)
    requires
        0 <= ns <= time::TIME_LIMIT,
    ensures
        0 <= time::to_samples(ns, rate as int) <= time::TIME_LIMIT * 5,
{
    assert(0 <= ns * rate <= time::TIME_LIMIT * 0xffff_ffff) by (nonlinear_arith)
        requires
            0 <= ns <= time::TIME_LIMIT,
            0 <= rate <= 0xffff_ffff,
            time::TIME_LIMIT > 0,
    ;
    time::lemma_round_div(ns * rate, 1_000_000_000);
    time::lemma_round_div_bounds(ns * rate, 1_000_000_000, 0, time::TIME_LIMIT * 5);
}

/// The donor is searched around where the content is expected: from the drift
/// before it, or the donor's start, on. The slice is longer than the window and
/// as long as the window and the drift on either side, or up to the donor's
/// end.
pub proof fn law_donor_is_searched_around_the_seed(p: SlidingPlan, i: int, seed: int)
    ensures
        ({
            let from = i * p.hop + seed - p.drift;
            match p.donor_slice(i, seed) {
                Some((start, end)) => {
                    &&& start == from || start == 0 && from < 0
                    &&& start >= 0
                    &&& end - start > p.window
                    &&& end <= p.donor_len
                    &&& end - start <= p.window + 2 * p.drift
                    &&& end == p.donor_len || end - start == p.window + 2 * p.drift
                },
                None => p.drift == 0 || p.donor_len <= p.window || p.donor_len <= from + p.window,
            }
        }),
{
}

/// The next search starts from the offset of the last confident anchor; if
/// there is none, from the offset before.
pub proof fn law_seed_is_the_last_confident_offset(chunk: Seq<SampleAnchor>, seed: int)
    ensures
        forall|k: int|
            0 <= k < chunk.len() && (#[trigger] chunk[k]).confidence >= 6_000_000 && (forall|j: int|
                k < j < chunk.len() ==> (#[trigger] chunk[j]).confidence < 6_000_000) ==> seed_after(
                chunk,
                seed,
            ) == chunk[k].offset,
        (forall|k: int| 0 <= k < chunk.len() ==> (#[trigger] chunk[k]).confidence < 6_000_000)
            ==> seed_after(chunk, seed) == seed,
    decreases chunk.len(),
{
    if chunk.len() > 0 {
        let d = chunk.drop_last();
        law_seed_is_the_last_confident_offset(d, seed);
        let n = chunk.len() - 1;
        assert(chunk[n] == chunk.last());
        assert forall|k: int|
            0 <= k < chunk.len() && (#[trigger] chunk[k]).confidence >= 6_000_000 && (forall|j: int|
                k < j < chunk.len() ==> (#[trigger] chunk[j]).confidence < 6_000_000) implies seed_after(
            chunk,
            seed,
        ) == chunk[k].offset by {
            if k < n {
                assert(chunk[n].confidence < 6_000_000);
                assert(d[k] == chunk[k]);
                assert forall|j: int| k < j < d.len() implies (#[trigger] d[j]).confidence
                    < 6_000_000 by {
                    assert(d[j] == chunk[j]);
                }
            }
        }
        if forall|k: int| 0 <= k < chunk.len() ==> (#[trigger] chunk[k]).confidence < 6_000_000 {
            assert forall|k: int| 0 <= k < d.len() implies (#[trigger] d[k]).confidence
                < 6_000_000 by {
                assert(d[k] == chunk[k]);
            }
        }
    }
}

/// An anchor in time is the anchor in samples, to half a nanosecond.
pub proof fn law_anchor_in_time(a: SampleAnchor, rate: int)
    requires
        rate > 0,
        fits(time::to_ns(a.master_start as int, rate)),
        fits(time::to_ns(a.offset as int, rate)),
    ensures
        ({
            let p = anchor_time(a, rate);
            &&& -rate <= 2 * (p.master_time_ns * rate - a.master_start * 1_000_000_000) <= rate
            &&& -rate <= 2 * (p.offset_ns * rate - a.offset * 1_000_000_000) <= rate
            &&& p.confidence == a.confidence
        }),
{
    time::law_time_of_samples(a.master_start as int, rate);
    time::law_time_of_samples(a.offset as int, rate);
}

} // verus!
