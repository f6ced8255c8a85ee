//! Refinement of segment boundaries.
//!
//! A boundary is refined by sweeping a short window over a bracket around it
//! and asking, window by window, which of the two neighbouring offsets matches
//! better. The caller scores the windows; everything else is decided here.
use vstd::prelude::*;
use crate::correlation::offset_map;
use crate::correlation::offset_map::{OffsetMap, Segment};
use crate::time;

verus! {

pub const FINE_WINDOW_MAX_NS: i64 = 4_000_000_000;

pub const FINE_WINDOW_MIN_NS: i64 = 500_000_000;

pub const FINE_HOP_NS: i64 = 250_000_000;

pub const SUBFRAME_WINDOW_NS: i64 = 1_000_000_000;

pub const SUBFRAME_HOP_NS: i64 = 50_000_000;

pub const SUBFRAME_PAD_NS: i64 = 500_000_000;

/// Beyond this the two passes disagree, and the coarse one is kept.
pub const SUBFRAME_DISAGREEMENT_LIMIT_NS: i64 = 1_000_000_000;

pub const BRACKET_EXTEND_STEP_NS: i64 = 5_000_000_000;

pub const BRACKET_EXTEND_MAX_NS: i64 = 30_000_000_000;

/// Which offset matches a window better.
#[derive(Clone, Copy, Debug, PartialEq, Eq, Structural)]
pub enum Side {
    /// The one before the boundary, also on a tie.
    A,
    /// The one behind the boundary.
    B,
    /// Neither could be scored.
    Neither,
}

/// The windows of one sweep: `count` of them, `hop` samples apart, the first
/// at sample `start` of the master.
#[derive(Clone, Copy, Debug)]
pub struct Sweep {
    pub lo_ns: i64,
    pub hi_ns: i64,
    pub rate: u32,
    pub start: u64,
    pub window: u64,
    pub hop: u64,
    pub count: u64,
    /// Where the donor window starts, relative to the master window, for
    /// either offset.
    pub lag_a: i64,
    pub lag_b: i64,
}

/// What a sweep is asked for.
#[derive(Clone, Copy, Debug)]
pub struct SweepRequest {
    pub lo_ns: i64,
    pub hi_ns: i64,
    pub offset_a_ns: i64,
    pub offset_b_ns: i64,
    pub min_window_ns: i64,
    pub max_window_ns: i64,
    pub hop_ns: i64,
}

impl SweepRequest {
    pub open spec fn wf(&self) -> bool {
        &&& 0 <= self.lo_ns <= time::TIME_LIMIT
        &&& 0 <= self.hi_ns <= time::TIME_LIMIT
        &&& time::in_range(self.offset_a_ns)
        &&& time::in_range(self.offset_b_ns)
        &&& 0 <= self.min_window_ns <= time::TIME_LIMIT
        &&& 0 <= self.max_window_ns <= time::TIME_LIMIT
        &&& 0 <= self.hop_ns <= time::TIME_LIMIT
    }

    /// The window: half the bracket, within the limits.
    pub open spec fn window_ns(&self) -> int {
        time::max2(
            time::min2(
                self.max_window_ns as int,
                time::max2(self.hi_ns - self.lo_ns, 0) / 2,
            ),
            self.min_window_ns as int,
        )
    }

    /// The windows to score in a master of `master_len` samples, if any fits.
    pub open spec fn sweep(&self, rate: u32, master_len: int) -> Option<Sweep> {
        let window = time::to_samples(self.window_ns(), rate as int);
        let hop = time::max2(time::to_samples(self.hop_ns as int, rate as int), 1);
        let start = time::to_samples(self.lo_ns as int, rate as int);
        let end = time::min2(time::to_samples(self.hi_ns as int, rate as int), master_len);
        if window == 0 || start + window > end {
            None
        } else {
            Some(
                Sweep {
                    lo_ns: self.lo_ns,
                    hi_ns: self.hi_ns,
                    rate,
                    start: start as u64,
                    window: window as u64,
                    hop: hop as u64,
                    count: ((end - window - start) / hop + 1) as u64,
                    lag_a: time::to_samples(self.offset_a_ns as int, rate as int) as i64,
                    lag_b: time::to_samples(self.offset_b_ns as int, rate as int) as i64,
                },
            )
        }
    }
}

impl Sweep {
    /// First sample of window `k`.
    pub open spec fn position(&self, k: int) -> int {
        self.start + k * self.hop
    }

    /// The middle of window `k`.
    pub open spec fn center(&self, k: int) -> int {
        time::round_div((2 * self.position(k) + self.window) * time::NS_PER_S, 2 * self.rate)
    }

    /// The windows lie inside the bracket.
    pub open spec fn wf(&self) -> bool {
        &&& self.rate > 0
        &&& self.window > 0
        &&& self.hop > 0
        &&& self.count > 0
        &&& 0 <= self.lo_ns <= time::TIME_LIMIT
        &&& 0 <= self.hi_ns <= time::TIME_LIMIT
        &&& 2 * self.lo_ns * self.rate <= (2 * self.start + 1) * time::NS_PER_S
        &&& (2 * (self.position(self.count - 1) + self.window) - 1) * time::NS_PER_S <= 2
            * self.hi_ns * self.rate
    }
}

/// The middle of every window lies inside the bracket.
pub proof fn law_centers_in_bracket(s: Sweep, k: int)
    requires
        s.wf(),
        0 <= k < s.count,
    ensures
        s.lo_ns <= s.center(k) <= s.hi_ns,
        s.position(0) <= s.position(k) <= s.position(s.count - 1),
{
    assert(0 <= k * s.hop <= (s.count - 1) * s.hop) by (nonlinear_arith)
        requires
            0 <= k <= s.count - 1,
            s.hop > 0,
    ;
    let n = (2 * s.position(k) + s.window) * time::NS_PER_S;
    let d = 2 * s.rate;
    assert(s.lo_ns * d == 2 * s.lo_ns * s.rate) by (nonlinear_arith)
        requires
            d == 2 * s.rate,
    ;
    assert(s.hi_ns * d == 2 * s.hi_ns * s.rate) by (nonlinear_arith)
        requires
            d == 2 * s.rate,
    ;
    time::lemma_round_div_bounds(n, d, s.lo_ns as int, s.hi_ns as int);
}

/// Plans a sweep.
pub fn plan_sweep(request: &SweepRequest, rate: u32, master_len: usize) -> (r: Option<Sweep>)
    requires
        request.wf(),
        rate > 0,
        master_len <= i64::MAX,
    ensures
        r == request.sweep(rate, master_len as int),
        r matches Some(s) ==> s.wf() && s.position(s.count - 1) + s.window <= master_len,
{
    let width: i64 = time::max_i64(request.hi_ns - request.lo_ns, 0);
    let window_ns: i64 = time::max_i64(
        time::min_i64(request.max_window_ns, width / 2),
        request.min_window_ns,
    );
    let window: i64 = time::samples_of(window_ns, rate);
    let hop: i64 = time::max_i64(time::samples_of(request.hop_ns, rate), 1);
    let start: i64 = time::samples_of(request.lo_ns, rate);
    let hi: i64 = time::samples_of(request.hi_ns, rate);
    let end: i64 = time::min_i64(hi, master_len as i64);
    if window == 0 || start > end || window > end - start {
        return None;
    }
    let spare: i64 = end - window - start;
    let count: i64 = spare / hop + 1;
    let lag_a: i64 = time::samples_of(request.offset_a_ns, rate);
    let lag_b: i64 = time::samples_of(request.offset_b_ns, rate);
    let s = Sweep {
        lo_ns: request.lo_ns,
        hi_ns: request.hi_ns,
        rate,
        start: start as u64,
        window: window as u64,
        hop: hop as u64,
        count: count as u64,
        lag_a,
        lag_b,
    };
    proof {
        vstd::arithmetic::div_mod::lemma_fundamental_div_mod(spare as int, hop as int);
        vstd::arithmetic::div_mod::lemma_mod_bound(spare as int, hop as int);
        assert((count - 1) * hop <= spare) by (nonlinear_arith)
            requires
                spare == hop * (spare as int / hop as int) + spare as int % hop as int,
                spare as int % hop as int >= 0,
                count - 1 == spare as int / hop as int,
        ;
        assert(s.position(s.count - 1) + s.window <= end);
        time::lemma_round_div(request.lo_ns * rate, time::NS_PER_S as int);
        time::lemma_round_div(request.hi_ns * rate, time::NS_PER_S as int);
        assert(2 * s.lo_ns * s.rate == 2 * (request.lo_ns * rate)) by (nonlinear_arith)
            requires
                s.lo_ns == request.lo_ns,
                s.rate == rate,
        ;
        assert(2 * s.hi_ns * s.rate == 2 * (request.hi_ns * rate)) by (nonlinear_arith)
            requires
                s.hi_ns == request.hi_ns,
                s.rate == rate,
        ;
    }
    Some(s)
}

/// First sample of the master window `k` of a sweep.
pub fn sweep_position(s: &Sweep, k: u64, master_len: usize) -> (r: usize)
    requires
        s.wf(),
        k < s.count,
        s.position(s.count - 1) + s.window <= master_len,
    ensures
        r == s.position(k as int),
        r + s.window <= master_len,
{
    proof {
        law_centers_in_bracket(*s, k as int);
        assert(0 <= k * s.hop) by (nonlinear_arith)
            requires
                k >= 0,
                s.hop > 0,
        ;
    }
    (s.start + k * s.hop) as usize
}

/// `r` is where the donor window for a master window at `start` lies, or nothing
/// where a buffer does not hold its window.
pub open spec fn is_donor_window(
    r: Option<usize>,
    master_len: int,
    donor_len: int,
    start: int,
    lag: int,
    window: int,
) -> bool {
    match r {
        Some(d) => d == start + lag && start + window <= master_len && d + window <= donor_len,
        None => start + lag < 0 || start + window > master_len || start + lag + window > donor_len,
    }
}

/// Where the donor window for a master window at `start` lies, if the two
/// buffers hold both: shifted by `lag` samples.
pub fn donor_window(
    master_len: usize,
    donor_len: usize,
    start: usize,
    lag: i64,
    window: usize,
) -> (r: Option<usize>)
    requires
        start <= i64::MAX,
        master_len <= i64::MAX,
        donor_len <= i64::MAX,
    ensures
        is_donor_window(
            r,
            master_len as int,
            donor_len as int,
            start as int,
            lag as int,
            window as int,
        ),
{
    let d: i128 = start as i128 + lag as i128;
    if d < 0 || start as i128 + window as i128 > master_len as i128 || d + window as i128
        > donor_len as i128 {
        None
    } else {
        Some(d as usize)
    }
}

/// What a sweep found.
#[derive(Clone, Copy, Debug)]
pub struct SweepResult {
    pub refined_ns: Option<i64>,
    pub last_a_center_ns: Option<i64>,
    pub first_b_center_ns: Option<i64>,
}

/// The last window that the offset before the boundary wins.
pub open spec fn last_a(sides: Seq<Side>) -> Option<int>
    decreases sides.len(),
{
    if sides.len() == 0 {
        None
    } else if sides.last() == Side::A {
        Some(sides.len() - 1)
    } else {
        last_a(sides.drop_last())
    }
}

/// The first window that the offset behind the boundary wins.
pub open spec fn first_b(sides: Seq<Side>) -> Option<int>
    decreases sides.len(),
{
    if sides.len() == 0 {
        None
    } else {
        match first_b(sides.drop_last()) {
            Some(k) => Some(k),
            None => if sides.last() == Side::B {
                Some(sides.len() - 1)
            } else {
                None
            },
        }
    }
}

/// Nothing was found.
pub open spec fn no_result() -> SweepResult {
    SweepResult { refined_ns: None, last_a_center_ns: None, first_b_center_ns: None }
}

/// What the winners of a sweep's windows say: the boundary lies midway between
/// the last window on the one side and the first on the other.
pub open spec fn result_of(s: Sweep, sides: Seq<Side>) -> SweepResult {
    let a = match last_a(sides) {
        Some(k) => Some(s.center(k) as i64),
        None => None,
    };
    let b = match first_b(sides) {
        Some(k) => Some(s.center(k) as i64),
        None => None,
    };
    SweepResult {
        refined_ns: match (a, b) {
            (Some(x), Some(y)) => Some(((x + y) / 2) as i64),
            _ => None,
        },
        last_a_center_ns: a,
        first_b_center_ns: b,
    }
}

/// A result whose times lie inside a bracket.
pub open spec fn result_within(r: SweepResult, lo: i64, hi: i64) -> bool {
    &&& r.refined_ns matches Some(t) ==> lo <= t <= hi
    &&& r.last_a_center_ns matches Some(t) ==> lo <= t <= hi
    &&& r.first_b_center_ns matches Some(t) ==> lo <= t <= hi
    &&& r.refined_ns is Some <==> r.last_a_center_ns is Some && r.first_b_center_ns is Some
}

proof fn lemma_winners(sides: Seq<Side>)
    ensures
        last_a(sides) matches Some(k) ==> 0 <= k < sides.len() && sides[k] == Side::A,
        first_b(sides) matches Some(k) ==> 0 <= k < sides.len() && sides[k] == Side::B,
    decreases sides.len(),
{
    if sides.len() > 0 {
        lemma_winners(sides.drop_last());
    }
}

/// Whatever the windows score, what a sweep finds lies inside its bracket.
pub proof fn law_result_in_bracket(s: Sweep, sides: Seq<Side>)
    requires
        s.wf(),
        sides.len() <= s.count,
    ensures
        result_within(result_of(s, sides), s.lo_ns, s.hi_ns),
{
    lemma_winners(sides);
    if let Some(k) = last_a(sides) {
        law_centers_in_bracket(s, k);
    }
    if let Some(k) = first_b(sides) {
        law_centers_in_bracket(s, k);
    }
}

fn center_of(s: &Sweep, k: u64) -> (r: i64)
    requires
        s.wf(),
        k < s.count,
        s.position(s.count - 1) + s.window <= i64::MAX,
    ensures
        r == s.center(k as int),
        s.lo_ns <= r <= s.hi_ns,
{
    proof {
        law_centers_in_bracket(*s, k as int);
        assert(0 <= k * s.hop) by (nonlinear_arith)
            requires
                k >= 0,
                s.hop > 0,
        ;
    }
    let pos: u64 = s.start + k * s.hop;
    let doubled: i128 = 2 * (pos as i128) + s.window as i128;
    time::div_round(doubled * 1_000_000_000, 2 * (s.rate as i128)) as i64
}

/// Turns the winners of a sweep's windows into its result.
pub fn conclude_sweep(s: &Sweep, sides: &Vec<Side>) -> (r: SweepResult)
    requires
        s.wf(),
        sides@.len() <= s.count,
        s.position(s.count - 1) + s.window <= i64::MAX,
    ensures
        r == result_of(*s, sides@),
        result_within(r, s.lo_ns, s.hi_ns),
{
    let mut a: Option<i64> = None;
    let mut b: Option<i64> = None;
    let mut k: usize = 0;
    while k < sides.len()
        invariant
            k <= sides@.len() <= s.count,
            s.wf(),
            s.position(s.count - 1) + s.window <= i64::MAX,
            a == (match last_a(sides@.take(k as int)) {
                Some(j) => Some(s.center(j) as i64),
                None => None,
            }),
            b == (match first_b(sides@.take(k as int)) {
                Some(j) => Some(s.center(j) as i64),
                None => None,
            }),
            a matches Some(t) ==> s.lo_ns <= t <= s.hi_ns,
            b matches Some(t) ==> s.lo_ns <= t <= s.hi_ns,
        decreases sides@.len() - k,
    {
        assert(sides@.take(k + 1).drop_last() =~= sides@.take(k as int));
        match sides[k] {
            Side::A => {
                a = Some(center_of(s, k as u64));
            },
            Side::B => {
                if b.is_none() {
                    b = Some(center_of(s, k as u64));
                }
            },
            Side::Neither => {},
        }
        k += 1;
    }
    assert(sides@.take(k as int) =~= sides@);
    let refined: Option<i64> = match (a, b) {
        (Some(x), Some(y)) => Some(time::half_floor(x + y)),
        _ => None,
    };
    SweepResult { refined_ns: refined, last_a_center_ns: a, first_b_center_ns: b }
}

/// The stretch in which a boundary is looked for, and how far it may grow.
#[derive(Clone, Copy, Debug)]
pub struct Bracket {
    pub lo_ns: i64,
    pub hi_ns: i64,
    pub extended_lo_ns: i64,
    pub extended_hi_ns: i64,
    /// The bracket never leaves the two segments that meet at the boundary.
    pub floor_ns: i64,
    pub ceiling_ns: i64,
}

impl Bracket {
    pub open spec fn wf(&self) -> bool {
        &&& 0 <= self.floor_ns <= self.lo_ns < self.hi_ns <= self.ceiling_ns <= time::TIME_LIMIT
        &&& 0 <= self.extended_lo_ns < BRACKET_EXTEND_MAX_NS + BRACKET_EXTEND_STEP_NS
        &&& 0 <= self.extended_hi_ns < BRACKET_EXTEND_MAX_NS + BRACKET_EXTEND_STEP_NS
    }

    /// How many times at most the bracket can still be extended.
    pub open spec fn budget(&self) -> int {
        (time::max2(BRACKET_EXTEND_MAX_NS - self.extended_lo_ns, 0) + BRACKET_EXTEND_STEP_NS - 1)
            / BRACKET_EXTEND_STEP_NS as int + (time::max2(
            BRACKET_EXTEND_MAX_NS - self.extended_hi_ns,
            0,
        ) + BRACKET_EXTEND_STEP_NS - 1) / BRACKET_EXTEND_STEP_NS as int + if self.lo_ns
            > self.floor_ns {
            1int
        } else {
            0
        } + if self.hi_ns < self.ceiling_ns {
            1int
        } else {
            0
        }
    }
}

/// The first bracket for the boundary between two segments: half a hop and one
/// fine window to either side. Without room around the boundary it is empty.
pub open spec fn initial_bracket(a: Segment, b: Segment, half_hop_ns: i64) -> Bracket {
    let floor = time::max2(a.master_start_ns as int, 0);
    let lo = time::max2(a.master_end_ns - half_hop_ns - FINE_WINDOW_MAX_NS, floor);
    let hi = time::min2(
        a.master_end_ns + half_hop_ns + FINE_WINDOW_MAX_NS,
        b.master_end_ns as int,
    );
    Bracket {
        lo_ns: lo as i64,
        hi_ns: hi as i64,
        extended_lo_ns: 0,
        extended_hi_ns: 0,
        floor_ns: floor as i64,
        ceiling_ns: b.master_end_ns,
    }
}

/// The wider bracket to sweep next, if the last sweep saw only one side win:
/// the cut then lies past the edge on the other side. It grows in steps, up to
/// a limit and inside the two segments.
pub open spec fn extended(b: Bracket, r: SweepResult) -> Option<Bracket> {
    let need_hi = r.last_a_center_ns is Some && r.first_b_center_ns is None;
    let need_lo = r.first_b_center_ns is Some && r.last_a_center_ns is None;
    if need_hi && b.extended_hi_ns < BRACKET_EXTEND_MAX_NS && b.hi_ns < b.ceiling_ns {
        let hi = time::min2(b.hi_ns + BRACKET_EXTEND_STEP_NS, b.ceiling_ns as int);
        Some(
            Bracket {
                hi_ns: hi as i64,
                extended_hi_ns: (b.extended_hi_ns + (hi - b.hi_ns)) as i64,
                ..b
            },
        )
    } else if need_lo && b.extended_lo_ns < BRACKET_EXTEND_MAX_NS && b.lo_ns > b.floor_ns {
        let lo = time::max2(b.lo_ns - BRACKET_EXTEND_STEP_NS, b.floor_ns as int);
        Some(
            Bracket {
                lo_ns: lo as i64,
                extended_lo_ns: (b.extended_lo_ns + (b.lo_ns - lo)) as i64,
                ..b
            },
        )
    } else {
        None
    }
}

/// Extending widens the bracket, keeps it inside the segments, and cannot go
/// on for ever.
pub proof fn law_extension_terminates(b: Bracket, r: SweepResult)
    requires
        b.wf(),
    ensures
        extended(b, r) matches Some(w) ==> {
            &&& w.wf()
            &&& w.lo_ns <= b.lo_ns
            &&& w.hi_ns >= b.hi_ns
            &&& w.hi_ns - w.lo_ns > b.hi_ns - b.lo_ns
            &&& 0 <= w.budget() < b.budget()
        },
{
}

pub fn extend_bracket(b: &Bracket, r: &SweepResult) -> (w: Option<Bracket>)
    requires
        b.wf(),
    ensures
        w == extended(*b, *r),
        w matches Some(x) ==> x.wf(),
{
    let seen_a = r.last_a_center_ns.is_some();
    let seen_b = r.first_b_center_ns.is_some();
    if seen_a && !seen_b && b.extended_hi_ns < BRACKET_EXTEND_MAX_NS && b.hi_ns < b.ceiling_ns {
        let hi: i64 = time::min_i64(b.hi_ns + BRACKET_EXTEND_STEP_NS, b.ceiling_ns);
        Some(
            Bracket {
                lo_ns: b.lo_ns,
                hi_ns: hi,
                extended_lo_ns: b.extended_lo_ns,
                extended_hi_ns: b.extended_hi_ns + (hi - b.hi_ns),
                floor_ns: b.floor_ns,
                ceiling_ns: b.ceiling_ns,
            },
        )
    } else if seen_b && !seen_a && b.extended_lo_ns < BRACKET_EXTEND_MAX_NS && b.lo_ns
        > b.floor_ns {
        let lo: i64 = time::max_i64(b.lo_ns - BRACKET_EXTEND_STEP_NS, b.floor_ns);
        Some(
            Bracket {
                lo_ns: lo,
                hi_ns: b.hi_ns,
                extended_lo_ns: b.extended_lo_ns + (b.lo_ns - lo),
                extended_hi_ns: b.extended_hi_ns,
                floor_ns: b.floor_ns,
                ceiling_ns: b.ceiling_ns,
            },
        )
    } else {
        None
    }
}

/// Where a refinement stands.
#[derive(Clone, Copy, Debug, PartialEq, Eq, Structural)]
pub enum Stage {
    /// Sweeping the bracket, coarsely.
    Coarse,
    /// Sweeping once more around the transition that was found.
    Subframe,
    Done,
}

/// The refinement of one boundary.
#[derive(Clone, Copy, Debug)]
pub struct BoundaryRefiner {
    pub boundary_idx: usize,
    pub coarse_boundary_ns: i64,
    pub offset_a_ns: i64,
    pub offset_b_ns: i64,
    pub bracket: Bracket,
    pub stage: Stage,
    /// The last coarse result.
    pub coarse: SweepResult,
    pub refined_subframe_ns: Option<i64>,
    pub chosen_ns: Option<i64>,
}

/// The stretch around a coarsely found transition, if there is one.
pub open spec fn subframe_range(b: Bracket, r: SweepResult) -> Option<(i64, i64)> {
    match (r.last_a_center_ns, r.first_b_center_ns) {
        (Some(x), Some(y)) => {
            let lo = time::max2(x - SUBFRAME_PAD_NS, b.lo_ns as int);
            let hi = time::min2(y + SUBFRAME_PAD_NS, b.hi_ns as int);
            if hi > lo {
                Some((lo as i64, hi as i64))
            } else {
                None
            }
        },
        _ => None,
    }
}

/// The second pass agrees with the first.
pub open spec fn agrees(sub: Option<i64>, coarse: Option<i64>) -> bool {
    &&& sub matches Some(s)
    &&& coarse matches Some(c)
    &&& time::abs(s - c) <= SUBFRAME_DISAGREEMENT_LIMIT_NS
}

/// The refinement after the sweep that it asked for has found `r`.
pub open spec fn after_sweep(st: BoundaryRefiner, r: SweepResult) -> BoundaryRefiner {
    match st.stage {
        Stage::Coarse => match extended(st.bracket, r) {
            Some(bracket) => BoundaryRefiner { bracket, coarse: r, ..st },
            None => BoundaryRefiner {
                coarse: r,
                chosen_ns: r.refined_ns,
                stage: if subframe_range(st.bracket, r) is Some {
                    Stage::Subframe
                } else {
                    Stage::Done
                },
                ..st
            },
        },
        Stage::Subframe => if agrees(r.refined_ns, st.coarse.refined_ns) {
            BoundaryRefiner {
                refined_subframe_ns: r.refined_ns,
                chosen_ns: r.refined_ns,
                stage: Stage::Done,
                ..st
            }
        } else {
            BoundaryRefiner { stage: Stage::Done, ..st }
        },
        Stage::Done => st,
    }
}

impl BoundaryRefiner {
    /// Everything found lies inside the bracket. In an empty one nothing is
    /// looked for.
    pub open spec fn wf(&self) -> bool {
        &&& self.bracket.wf() || (self.stage == Stage::Done && self.coarse == no_result()
            && self.chosen_ns is None)
        &&& time::in_range(self.offset_a_ns)
        &&& time::in_range(self.offset_b_ns)
        &&& result_within(self.coarse, self.bracket.lo_ns, self.bracket.hi_ns)
        &&& self.chosen_ns matches Some(t) ==> self.bracket.lo_ns <= t <= self.bracket.hi_ns
        &&& self.stage == Stage::Subframe ==> subframe_range(self.bracket, self.coarse) is Some
    }

    /// The sweep to run next.
    pub open spec fn request(&self) -> Option<SweepRequest> {
        match self.stage {
            Stage::Coarse => Some(
                SweepRequest {
                    lo_ns: self.bracket.lo_ns,
                    hi_ns: self.bracket.hi_ns,
                    offset_a_ns: self.offset_a_ns,
                    offset_b_ns: self.offset_b_ns,
                    min_window_ns: FINE_WINDOW_MIN_NS,
                    max_window_ns: FINE_WINDOW_MAX_NS,
                    hop_ns: FINE_HOP_NS,
                },
            ),
            Stage::Subframe => match subframe_range(self.bracket, self.coarse) {
                Some((lo, hi)) => Some(
                    SweepRequest {
                        lo_ns: lo,
                        hi_ns: hi,
                        offset_a_ns: self.offset_a_ns,
                        offset_b_ns: self.offset_b_ns,
                        min_window_ns: time::min2(
                            SUBFRAME_WINDOW_NS as int,
                            (hi - lo) / 2,
                        ) as i64,
                        max_window_ns: SUBFRAME_WINDOW_NS,
                        hop_ns: SUBFRAME_HOP_NS,
                    },
                ),
                None => None,
            },
            Stage::Done => None,
        }
    }

    /// Starts refining boundary `i` of a map. Without any room around it, it is
    /// done at once.
    pub fn start(map: &OffsetMap, i: usize, half_hop_ns: i64) -> (r: BoundaryRefiner)
        requires
            i + 1 < map.segments@.len(),
            0 <= half_hop_ns <= time::TIME_LIMIT,
            segment_in_range(map.segments@[i as int]),
            segment_in_range(map.segments@[i + 1]),
        ensures
            r.wf(),
            r == (BoundaryRefiner {
                boundary_idx: i,
                coarse_boundary_ns: map.segments@[i as int].master_end_ns,
                offset_a_ns: map.segments@[i as int].donor_offset_ns,
                offset_b_ns: map.segments@[i + 1].donor_offset_ns,
                bracket: initial_bracket(
                    map.segments@[i as int],
                    map.segments@[i + 1],
                    half_hop_ns,
                ),
                stage: if r.bracket.lo_ns < r.bracket.hi_ns {
                    Stage::Coarse
                } else {
                    Stage::Done
                },
                coarse: no_result(),
                refined_subframe_ns: None,
                chosen_ns: None,
            }),
    {
        assert(map.segments.len() == map.segments@.len());
        let a: Segment = map.segments[i];
        let b: Segment = map.segments[i + 1];
        let floor: i64 = time::max_i64(a.master_start_ns, 0);
        let lo: i64 = time::max_i64(a.master_end_ns - half_hop_ns - FINE_WINDOW_MAX_NS, floor);
        let hi: i64 = time::min_i64(
            a.master_end_ns + half_hop_ns + FINE_WINDOW_MAX_NS,
            b.master_end_ns,
        );
        BoundaryRefiner {
            boundary_idx: i,
            coarse_boundary_ns: a.master_end_ns,
            offset_a_ns: a.donor_offset_ns,
            offset_b_ns: b.donor_offset_ns,
            bracket: Bracket {
                lo_ns: lo,
                hi_ns: hi,
                extended_lo_ns: 0,
                extended_hi_ns: 0,
                floor_ns: floor,
                ceiling_ns: b.master_end_ns,
            },
            stage: if lo < hi {
                Stage::Coarse
            } else {
                Stage::Done
            },
            coarse: SweepResult {
                refined_ns: None,
                last_a_center_ns: None,
                first_b_center_ns: None,
            },
            refined_subframe_ns: None,
            chosen_ns: None,
        }
    }

    /// The sweep to run next; `None` when the refinement is done.
    pub fn next_request(&self) -> (r: Option<SweepRequest>)
        requires
            self.wf(),
        ensures
            r == self.request(),
            r is None <==> self.stage == Stage::Done,
            r matches Some(q) ==> q.wf() && self.bracket.lo_ns <= q.lo_ns && q.hi_ns
                <= self.bracket.hi_ns,
    {
        match self.stage {
            Stage::Coarse => Some(
                SweepRequest {
                    lo_ns: self.bracket.lo_ns,
                    hi_ns: self.bracket.hi_ns,
                    offset_a_ns: self.offset_a_ns,
                    offset_b_ns: self.offset_b_ns,
                    min_window_ns: FINE_WINDOW_MIN_NS,
                    max_window_ns: FINE_WINDOW_MAX_NS,
                    hop_ns: FINE_HOP_NS,
                },
            ),
            Stage::Subframe => match (self.coarse.last_a_center_ns, self.coarse.first_b_center_ns) {
                (Some(x), Some(y)) => {
                    let lo: i64 = time::max_i64(x - SUBFRAME_PAD_NS, self.bracket.lo_ns);
                    let hi: i64 = time::min_i64(y + SUBFRAME_PAD_NS, self.bracket.hi_ns);
                    Some(
                        SweepRequest {
                            lo_ns: lo,
                            hi_ns: hi,
                            offset_a_ns: self.offset_a_ns,
                            offset_b_ns: self.offset_b_ns,
                            min_window_ns: time::min_i64(SUBFRAME_WINDOW_NS, (hi - lo) / 2),
                            max_window_ns: SUBFRAME_WINDOW_NS,
                            hop_ns: SUBFRAME_HOP_NS,
                        },
                    )
                },
                _ => None,
            },
            Stage::Done => None,
        }
    }

    /// Takes in what the requested sweep has found.
    pub fn take_result(&mut self, r: &SweepResult)
        requires
            old(self).wf(),
            result_within(*r, old(self).bracket.lo_ns, old(self).bracket.hi_ns),
        ensures
            *final(self) == after_sweep(*old(self), *r),
            final(self).wf(),
    {
        match self.stage {
            Stage::Coarse => {
                self.coarse = *r;
                match extend_bracket(&self.bracket, r) {
                    Some(wider) => {
                        self.bracket = wider;
                    },
                    None => {
                        self.chosen_ns = r.refined_ns;
                        self.stage = match (r.last_a_center_ns, r.first_b_center_ns) {
                            (Some(x), Some(y)) => {
                                let lo: i64 = time::max_i64(
                                    x - SUBFRAME_PAD_NS,
                                    self.bracket.lo_ns,
                                );
                                let hi: i64 = time::min_i64(
                                    y + SUBFRAME_PAD_NS,
                                    self.bracket.hi_ns,
                                );
                                if hi > lo {
                                    Stage::Subframe
                                } else {
                                    Stage::Done
                                }
                            },
                            _ => Stage::Done,
                        };
                    },
                }
            },
            Stage::Subframe => {
                match (r.refined_ns, self.coarse.refined_ns) {
                    (Some(s), Some(c)) => {
                        if time::abs_i64(s - c) <= SUBFRAME_DISAGREEMENT_LIMIT_NS {
                            self.refined_subframe_ns = r.refined_ns;
                            self.chosen_ns = r.refined_ns;
                        }
                    },
                    _ => {},
                }
                self.stage = Stage::Done;
            },
            Stage::Done => {},
        }
    }

    /// How many sweeps at most the refinement still asks for.
    pub open spec fn sweeps_left(&self) -> int {
        match self.stage {
            Stage::Coarse => self.bracket.budget() + 2,
            Stage::Subframe => 1,
            Stage::Done => 0,
        }
    }
}

/// Every sweep brings a refinement nearer to its end.
pub proof fn law_refinement_terminates(st: BoundaryRefiner, r: SweepResult)
    requires
        st.wf(),
        st.stage != Stage::Done,
    ensures
        0 <= after_sweep(st, r).sweeps_left() < st.sweeps_left(),
{
    law_extension_terminates(st.bracket, r);
}

/// The chosen boundary lies between the start of the segment before it and the
/// end of the segment behind it, whatever the sweeps found.
pub proof fn law_chosen_boundary_in_segments(st: BoundaryRefiner)
    requires
        st.wf(),
    ensures
        st.chosen_ns matches Some(t) ==> st.bracket.floor_ns <= t <= st.bracket.ceiling_ns,
{
}

pub open spec fn segment_in_range(s: Segment) -> bool {
    &&& time::in_range(s.master_start_ns)
    &&& time::in_range(s.master_end_ns)
    &&& time::in_range(s.donor_offset_ns)
}

/// The segments with boundary `i` moved.
pub open spec fn with_boundary(segments: Seq<Segment>, i: int, t: i64) -> Seq<Segment> {
    segments.update(i, Segment { master_end_ns: t, ..segments[i] }).update(
        i + 1,
        Segment { master_start_ns: t, ..segments[i + 1] },
    )
}

impl OffsetMap {
    /// Moves the boundary between segments `i` and `i + 1`.
    pub fn set_boundary(&mut self, i: usize, t: i64)
        requires
            i + 1 < old(self).segments@.len(),
        ensures
            final(self).segments@ == with_boundary(old(self).segments@, i as int, t),
            final(self).master_duration_ns == old(self).master_duration_ns,
            final(self).anchor_count == old(self).anchor_count,
            final(self).rejected_count == old(self).rejected_count,
            final(self).suppressed_jumps == old(self).suppressed_jumps,
            final(self).valid_master_start_ns == old(self).valid_master_start_ns,
            final(self).valid_master_end_ns == old(self).valid_master_end_ns,
    {
        assert(self.segments.len() == self.segments@.len());
        let a: Segment = self.segments[i];
        let b: Segment = self.segments[i + 1];
        self.segments.set(
            i,
            Segment {
                master_start_ns: a.master_start_ns,
                master_end_ns: t,
                donor_offset_ns: a.donor_offset_ns,
            },
        );
        self.segments.set(
            i + 1,
            Segment {
                master_start_ns: t,
                master_end_ns: b.master_end_ns,
                donor_offset_ns: b.donor_offset_ns,
            },
        );
    }
}

/// Moving a boundary between the segments that meet at it keeps the cover of
/// the master: no gap, no overlap, no segment turned round.
pub proof fn law_refinement_keeps_cover(
    segments: Seq<Segment>,
    duration: i64,
    i: int,
    t: i64,
)
    requires
        offset_map::covers(segments, duration),
        offset_map::ordered(segments),
        0 <= i < segments.len() - 1,
        segments[i].master_start_ns <= t <= segments[i + 1].master_end_ns,
    ensures
        offset_map::covers(with_boundary(segments, i, t), duration),
        offset_map::ordered(with_boundary(segments, i, t)),
{
    let w = with_boundary(segments, i, t);
    assert forall|k: int| 0 <= k < w.len() - 1 implies (#[trigger] w[k]).master_end_ns == w[k
        + 1].master_start_ns by {
        assert(segments[k].master_end_ns == segments[k + 1].master_start_ns);
    }
    assert forall|k: int| 0 <= k < w.len() implies (#[trigger] w[k]).master_start_ns
        <= w[k].master_end_ns by {
        assert(segments[k].master_start_ns <= segments[k].master_end_ns);
    }
}

/// The refinement of boundary `i` before its first sweep.
pub open spec fn started(segments: Seq<Segment>, i: int, half_hop_ns: i64) -> BoundaryRefiner {
    let bracket = initial_bracket(segments[i], segments[i + 1], half_hop_ns);
    BoundaryRefiner {
        boundary_idx: i as usize,
        coarse_boundary_ns: segments[i].master_end_ns,
        offset_a_ns: segments[i].donor_offset_ns,
        offset_b_ns: segments[i + 1].donor_offset_ns,
        bracket,
        stage: if bracket.lo_ns < bracket.hi_ns {
            Stage::Coarse
        } else {
            Stage::Done
        },
        coarse: no_result(),
        refined_subframe_ns: None,
        chosen_ns: None,
    }
}

/// The refinement of all boundaries, as mathematics.
pub struct Refinement {
    pub segments: Seq<Segment>,
    pub traces: Seq<BoundaryRefiner>,
    pub current: Option<BoundaryRefiner>,
}

/// The segments with a finished refinement's boundary, if it chose one.
pub open spec fn adopted(segments: Seq<Segment>, st: BoundaryRefiner) -> Seq<Segment> {
    if st.chosen_ns is Some && st.boundary_idx + 1 < segments.len() {
        with_boundary(segments, st.boundary_idx as int, st.chosen_ns->0)
    } else {
        segments
    }
}

/// Goes on from a refinement: one that is done becomes a trace, its boundary is
/// adopted, and the next boundary follows.
pub open spec fn settled(
    segments: Seq<Segment>,
    traces: Seq<BoundaryRefiner>,
    st: BoundaryRefiner,
    half_hop_ns: i64,
) -> Refinement
    decreases segments.len() - traces.len(),
{
    if st.stage != Stage::Done {
        Refinement { segments, traces, current: Some(st) }
    } else {
        let moved = adopted(segments, st);
        let more = traces.push(st);
        if more.len() + 1 < moved.len() {
            settled(moved, more, started(moved, more.len() as int, half_hop_ns), half_hop_ns)
        } else {
            Refinement { segments: moved, traces: more, current: None }
        }
    }
}

/// The boundaries of a map: one fewer than its segments.
pub open spec fn boundaries(segments: Seq<Segment>) -> int {
    if segments.len() == 0 {
        0
    } else {
        segments.len() - 1
    }
}

/// A refinement belongs to the boundary `i` that it is about.
pub open spec fn belongs(st: BoundaryRefiner, segments: Seq<Segment>, i: int) -> bool {
    &&& st.wf()
    &&& st.boundary_idx == i
    &&& 0 <= i
    &&& i + 1 < segments.len()
    &&& st.bracket.floor_ns == time::max2(segments[i].master_start_ns as int, 0)
    &&& st.bracket.ceiling_ns == segments[i + 1].master_end_ns
}

impl Refinement {
    /// Every boundary so far has its trace, and the one under way is the next.
    pub open spec fn wf(&self) -> bool {
        &&& all_in_range(self.segments)
        &&& traced(self.traces)
        &&& match self.current {
            Some(st) => {
                &&& belongs(st, self.segments, self.traces.len() as int)
                &&& st.stage != Stage::Done
            },
            None => self.traces.len() == boundaries(self.segments),
        }
    }

    /// How many sweeps the boundary under way may still ask for.
    pub open spec fn sweeps_left(&self) -> int {
        match self.current {
            Some(st) => st.sweeps_left(),
            None => 0,
        }
    }
}

pub open spec fn all_in_range(segments: Seq<Segment>) -> bool {
    forall|k: int| 0 <= k < segments.len() ==> segment_in_range(#[trigger] segments[k])
}

/// Trace `i` is that of boundary `i`, and done.
pub open spec fn traced(traces: Seq<BoundaryRefiner>) -> bool {
    forall|i: int|
        0 <= i < traces.len() ==> (#[trigger] traces[i]).boundary_idx == i && traces[i].stage
            == Stage::Done
}

proof fn lemma_started(segments: Seq<Segment>, i: int, half_hop_ns: i64)
    requires
        all_in_range(segments),
        0 <= i,
        i + 1 < segments.len() <= usize::MAX,
        0 <= half_hop_ns <= time::TIME_LIMIT,
    ensures
        belongs(started(segments, i, half_hop_ns), segments, i),
{
    assert(segment_in_range(segments[i]));
    assert(segment_in_range(segments[i + 1]));
}

proof fn lemma_adopted(segments: Seq<Segment>, st: BoundaryRefiner, i: int)
    requires
        all_in_range(segments),
        belongs(st, segments, i),
    ensures
        all_in_range(adopted(segments, st)),
        adopted(segments, st).len() == segments.len(),
{
    let moved = adopted(segments, st);
    assert forall|k: int| 0 <= k < moved.len() implies segment_in_range(#[trigger] moved[k]) by {
        assert(segment_in_range(segments[k]));
    }
}

/// Going on keeps what holds of a refinement, and ends or gets further.
proof fn lemma_settled(
    segments: Seq<Segment>,
    traces: Seq<BoundaryRefiner>,
    st: BoundaryRefiner,
    half_hop_ns: i64,
)
    requires
        all_in_range(segments),
        traced(traces),
        belongs(st, segments, traces.len() as int),
        segments.len() <= usize::MAX,
        0 <= half_hop_ns <= time::TIME_LIMIT,
    ensures
        settled(segments, traces, st, half_hop_ns).wf(),
        settled(segments, traces, st, half_hop_ns).segments.len() == segments.len(),
        settled(segments, traces, st, half_hop_ns).traces.len() >= traces.len(),
        st.stage == Stage::Done ==> settled(segments, traces, st, half_hop_ns).traces.len()
            > traces.len(),
    decreases segments.len() - traces.len(),
{
    if st.stage == Stage::Done {
        let moved = adopted(segments, st);
        let more = traces.push(st);
        lemma_adopted(segments, st, traces.len() as int);
        if more.len() + 1 < moved.len() {
            lemma_started(moved, more.len() as int, half_hop_ns);
            lemma_settled(
                moved,
                more,
                started(moved, more.len() as int, half_hop_ns),
                half_hop_ns,
            );
        }
    }
}

/// The refinement of all boundaries of a map, one after the other.
#[derive(Debug)]
pub struct MapRefiner {
    pub half_hop_ns: i64,
    /// One for each boundary that is done, in order.
    pub traces: Vec<BoundaryRefiner>,
    /// The boundary under way.
    pub current: Option<BoundaryRefiner>,
}

impl MapRefiner {
    /// The refinement together with the map that it works on.
    pub open spec fn of(&self, map: OffsetMap) -> Refinement {
        Refinement { segments: map.segments@, traces: self.traces@, current: self.current }
    }

    pub open spec fn wf(&self, map: OffsetMap) -> bool {
        &&& self.of(map).wf()
        &&& 0 <= self.half_hop_ns <= time::TIME_LIMIT
    }

    /// Starts refining all boundaries of a map.
    pub fn start(map: &mut OffsetMap, half_hop_ns: i64) -> (r: MapRefiner)
        requires
            0 <= half_hop_ns <= time::TIME_LIMIT,
            all_in_range(old(map).segments@),
        ensures
            r.half_hop_ns == half_hop_ns,
            r.of(*final(map)) == if old(map).segments@.len() < 2 {
                Refinement {
                    segments: old(map).segments@,
                    traces: Seq::empty(),
                    current: None,
                }
            } else {
                settled(
                    old(map).segments@,
                    Seq::empty(),
                    started(old(map).segments@, 0, half_hop_ns),
                    half_hop_ns,
                )
            },
            r.wf(*final(map)),
            final(map).segments@.len() == old(map).segments@.len(),
            *final(map) == (OffsetMap { segments: final(map).segments, ..*old(map) }),
    {
        let n: usize = map.segments.len();
        let mut r = MapRefiner { half_hop_ns, traces: Vec::new(), current: None };
        if n < 2 {
            return r;
        }
        assert(segment_in_range(map.segments@[0]));
        assert(segment_in_range(map.segments@[1]));
        proof {
            lemma_started(map.segments@, 0, half_hop_ns);
        }
        let first: BoundaryRefiner = BoundaryRefiner::start(map, 0, half_hop_ns);
        assert(r.traces@ =~= Seq::empty());
        r.settle(map, first);
        r
    }

    /// Goes on from the refinement of the next boundary.
    fn settle(&mut self, map: &mut OffsetMap, st: BoundaryRefiner)
        requires
            all_in_range(old(map).segments@),
            traced(old(self).traces@),
            belongs(st, old(map).segments@, old(self).traces@.len() as int),
            0 <= old(self).half_hop_ns <= time::TIME_LIMIT,
        ensures
            final(self).half_hop_ns == old(self).half_hop_ns,
            final(self).of(*final(map)) == settled(
                old(map).segments@,
                old(self).traces@,
                st,
                old(self).half_hop_ns,
            ),
            final(self).wf(*final(map)),
            final(map).segments@.len() == old(map).segments@.len(),
            *final(map) == (OffsetMap { segments: final(map).segments, ..*old(map) }),
    {
        let n: usize = map.segments.len();
        let half_hop_ns: i64 = self.half_hop_ns;
        let mut st: BoundaryRefiner = st;
        let ghost goal = settled(map.segments@, self.traces@, st, half_hop_ns);
        proof {
            lemma_settled(map.segments@, self.traces@, st, half_hop_ns);
        }
        while st.stage == Stage::Done
            invariant_except_break
                belongs(st, map.segments@, self.traces@.len() as int),
                settled(map.segments@, self.traces@, st, half_hop_ns) == goal,
            invariant
                n == map.segments@.len(),
                n == old(map).segments@.len(),
                n <= usize::MAX,
                all_in_range(map.segments@),
                traced(self.traces@),
                self.half_hop_ns == half_hop_ns,
                half_hop_ns == old(self).half_hop_ns,
                0 <= half_hop_ns <= time::TIME_LIMIT,
                self.traces@.len() < n,
                *map == (OffsetMap { segments: map.segments, ..*old(map) }),
            ensures
                goal == (if st.stage == Stage::Done {
                    Refinement { segments: map.segments@, traces: self.traces@, current: None }
                } else {
                    Refinement { segments: map.segments@, traces: self.traces@, current: Some(st) }
                }),
            decreases n - self.traces@.len(),
        {
            proof {
                lemma_adopted(map.segments@, st, self.traces@.len() as int);
            }
            let ghost before = map.segments@;
            match st.chosen_ns {
                Some(t) => {
                    map.set_boundary(st.boundary_idx, t);
                },
                None => {},
            }
            assert(map.segments@ == adopted(before, st));
            self.traces.push(st);
            let i: usize = self.traces.len();
            if i >= n - 1 {
                break;
            }
            proof {
                lemma_started(map.segments@, i as int, half_hop_ns);
                assert(segment_in_range(map.segments@[i as int]));
                assert(segment_in_range(map.segments@[i + 1]));
            }
            st = BoundaryRefiner::start(map, i, half_hop_ns);
        }
        self.current = match st.stage {
            Stage::Done => None,
            _ => Some(st),
        };
    }

    /// The sweep to run next; `None` when every boundary is done.
    pub fn next_request(&self, map: &OffsetMap) -> (r: Option<SweepRequest>)
        requires
            self.wf(*map),
        ensures
            match self.current {
                Some(st) => r is Some && r == st.request() && r->0.wf(),
                None => r is None,
            },
    {
        match &self.current {
            Some(st) => st.next_request(),
            None => None,
        }
    }

    /// Takes in what the requested sweep has found.
    pub fn take_result(&mut self, map: &mut OffsetMap, r: &SweepResult)
        requires
            old(self).wf(*old(map)),
            old(self).current matches Some(st) && result_within(
                *r,
                st.bracket.lo_ns,
                st.bracket.hi_ns,
            ),
        ensures
            final(self).half_hop_ns == old(self).half_hop_ns,
            final(self).of(*final(map)) == settled(
                old(map).segments@,
                old(self).traces@,
                after_sweep(old(self).current->0, *r),
                old(self).half_hop_ns,
            ),
            final(self).wf(*final(map)),
            final(map).segments@.len() == old(map).segments@.len(),
            *final(map) == (OffsetMap { segments: final(map).segments, ..*old(map) }),
    {
        if let Some(now) = self.current {
            let mut st: BoundaryRefiner = now;
            st.take_result(r);
            self.settle(map, st);
        }
    }
}

/// When a refinement is at its end, every boundary between two segments has
/// exactly one trace, and trace `i` is that of boundary `i`.
pub proof fn law_one_trace_per_boundary(r: MapRefiner, map: OffsetMap)
    requires
        r.wf(map),
        r.current is None,
    ensures
        r.traces@.len() == boundaries(map.segments@),
        forall|i: int| 0 <= i < r.traces@.len() ==> (#[trigger] r.traces@[i]).boundary_idx == i,
{
}

/// Every sweep finishes a boundary or leaves fewer sweeps for the one under
/// way, so the refinement of a map comes to an end.
pub proof fn law_map_refinement_terminates(
    before: Refinement,
    r: SweepResult,
    half_hop_ns: i64,
)
    requires
        before.wf(),
        before.current is Some,
        result_within(
            r,
            before.current->0.bracket.lo_ns,
            before.current->0.bracket.hi_ns,
        ),
        before.segments.len() <= usize::MAX,
        0 <= half_hop_ns <= time::TIME_LIMIT,
    ensures
        ({
            let after = settled(
                before.segments,
                before.traces,
                after_sweep(before.current->0, r),
                half_hop_ns,
            );
            ||| after.traces.len() > before.traces.len()
            ||| after.traces.len() == before.traces.len() && 0 <= after.sweeps_left()
                < before.sweeps_left()
        }),
{
    let st = before.current->0;
    let next = after_sweep(st, r);
    law_refinement_terminates(st, r);
    lemma_after_sweep(st, r);
    lemma_settled(before.segments, before.traces, next, half_hop_ns);
}

/// A sweep keeps a refinement at its boundary.
proof fn lemma_after_sweep(st: BoundaryRefiner, r: SweepResult)
    requires
        st.wf(),
        result_within(r, st.bracket.lo_ns, st.bracket.hi_ns),
    ensures
        after_sweep(st, r).wf(),
        after_sweep(st, r).boundary_idx == st.boundary_idx,
        after_sweep(st, r).bracket.floor_ns == st.bracket.floor_ns,
        after_sweep(st, r).bracket.ceiling_ns == st.bracket.ceiling_ns,
{
    if st.stage == Stage::Coarse {
        law_extension_terminates(st.bracket, r);
    }
}

/// Refining a map keeps the cover of the master: no gap, no overlap, no segment
/// turned round.
pub proof fn law_map_refinement_keeps_cover(
    segments: Seq<Segment>,
    duration: i64,
    traces: Seq<BoundaryRefiner>,
    st: BoundaryRefiner,
    half_hop_ns: i64,
)
    requires
        offset_map::covers(segments, duration),
        offset_map::ordered(segments),
        all_in_range(segments),
        traced(traces),
        belongs(st, segments, traces.len() as int),
        segments.len() <= usize::MAX,
        0 <= half_hop_ns <= time::TIME_LIMIT,
    ensures
        offset_map::covers(settled(segments, traces, st, half_hop_ns).segments, duration),
        offset_map::ordered(settled(segments, traces, st, half_hop_ns).segments),
    decreases segments.len() - traces.len(),
{
    if st.stage == Stage::Done {
        let i = traces.len() as int;
        let moved = adopted(segments, st);
        let more = traces.push(st);
        lemma_adopted(segments, st, i);
        if let Some(t) = st.chosen_ns {
            law_chosen_boundary_in_segments(st);
            law_refinement_keeps_cover(segments, duration, i, t);
        }
        if more.len() + 1 < moved.len() {
            lemma_started(moved, more.len() as int, half_hop_ns);
            law_map_refinement_keeps_cover(
                moved,
                duration,
                more,
                started(moved, more.len() as int, half_hop_ns),
                half_hop_ns,
            );
        }
    }
}

/// The windows of a sweep are half the bracket long, within the two limits:
/// never shorter than the one, longer than the other only for that, and never
/// longer than half the bracket only where the shorter limit allows it.
pub proof fn law_window_of_a_sweep(q: SweepRequest)
    requires
        0 <= q.min_window_ns <= q.max_window_ns,
    ensures
        q.min_window_ns <= q.window_ns() <= q.max_window_ns,
        q.window_ns() > q.min_window_ns ==> 2 * q.window_ns() <= q.hi_ns - q.lo_ns,
        q.window_ns() < q.max_window_ns ==> 2 * q.window_ns() >= q.hi_ns - q.lo_ns - 1,
{
}

/// The windows of a sweep start where the bracket does, are a hop apart, stay
/// inside the bracket and the master, and one more would not fit. The lags are
/// the two offsets, in their order. All to half a sample.
pub proof fn law_sweep_walks_the_bracket(q: SweepRequest, rate: u32, master_len: int)
    requires
        q.wf(),
        rate > 0,
        0 <= master_len <= i64::MAX,
    ensures
        q.sweep(rate, master_len) matches Some(s) ==> {
            let unit: int = 1_000_000_000;
            let last = s.start + (s.count - 1) * s.hop + s.window;
            &&& s.lo_ns == q.lo_ns && s.hi_ns == q.hi_ns && s.rate == rate
            &&& -unit <= 2 * (s.start * unit - q.lo_ns * rate) <= unit
            &&& -unit <= 2 * (s.window * unit - q.window_ns() * rate) <= unit
            &&& s.hop == 1 && 2 * q.hop_ns * rate <= 3 * unit || -unit <= 2 * (s.hop * unit
                - q.hop_ns * rate) <= unit
            &&& -unit <= 2 * (s.lag_a * unit - q.offset_a_ns * rate) <= unit
            &&& -unit <= 2 * (s.lag_b * unit - q.offset_b_ns * rate) <= unit
            &&& s.count > 0
            &&& last <= master_len
            &&& 2 * (last * unit - q.hi_ns * rate) <= unit
            &&& last + s.hop > master_len || 2 * ((last + s.hop) * unit - q.hi_ns * rate) > -unit
        },
{
    if let Some(s) = q.sweep(rate, master_len) {
        let rt = rate as int;
        lemma_samples_fit(q.lo_ns as int, rate);
        lemma_samples_fit(q.hi_ns as int, rate);
        lemma_samples_fit(q.window_ns(), rate);
        lemma_samples_fit(q.hop_ns as int, rate);
        lemma_samples_fit(q.offset_a_ns as int, rate);
        lemma_samples_fit(q.offset_b_ns as int, rate);
        time::law_samples_of_a_time(q.lo_ns as int, rt);
        time::law_samples_of_a_time(q.hi_ns as int, rt);
        time::law_samples_of_a_time(q.window_ns(), rt);
        time::law_samples_of_a_time(q.hop_ns as int, rt);
        time::law_samples_of_a_time(q.offset_a_ns as int, rt);
        time::law_samples_of_a_time(q.offset_b_ns as int, rt);
        let end = time::min2(time::to_samples(q.hi_ns as int, rt), master_len);
        let spare = end - s.window - s.start;
        let hop = s.hop as int;
        vstd::arithmetic::div_mod::lemma_fundamental_div_mod(spare, hop);
        vstd::arithmetic::div_mod::lemma_mod_bound(spare, hop);
        vstd::arithmetic::div_mod::lemma_div_pos_is_pos(spare, hop);
        vstd::arithmetic::div_mod::lemma_div_is_ordered_by_denominator(spare, 1, hop);
        assert(spare / 1 == spare);
        assert(s.count == spare / hop + 1);
        assert((s.count - 1) * hop == hop * (spare / hop)) by (nonlinear_arith)
            requires
                s.count - 1 == spare / hop,
        ;
        assert(2 * q.hop_ns * rate == 2 * (q.hop_ns * rate)) by (nonlinear_arith);
    }
}

proof fn lemma_samples_fit(ns: int, rate: u32)
    requires
        -time::TIME_LIMIT <= ns <= time::TIME_LIMIT,
    ensures
        -time::TIME_LIMIT * 5 <= time::to_samples(ns, rate as int) <= time::TIME_LIMIT * 5,
        ns >= 0 ==> time::to_samples(ns, rate as int) >= 0,
{
    assert(-time::TIME_LIMIT * 0xffff_ffff <= ns * rate <= time::TIME_LIMIT * 0xffff_ffff)
        by (nonlinear_arith)
        requires
            -time::TIME_LIMIT <= ns <= time::TIME_LIMIT,
            0 <= rate <= 0xffff_ffff,
            time::TIME_LIMIT > 0,
    ;
    assert(ns >= 0 ==> ns * rate >= 0) by (nonlinear_arith)
        requires
            rate >= 0,
    ;
    time::lemma_round_div(ns * rate, 1_000_000_000);
    time::lemma_round_div_bounds(
        ns * rate,
        1_000_000_000,
        -time::TIME_LIMIT * 5,
        time::TIME_LIMIT * 5,
    );
}

/// The middle of a window lies half its length behind its first sample, to half
/// a nanosecond.
pub proof fn law_center_of_a_window(s: Sweep, k: int)
    requires
        s.rate > 0,
    ensures
        -s.rate <= 2 * s.rate * s.center(k) - (2 * (s.start + k * s.hop) + s.window)
            * 1_000_000_000 <= s.rate,
{
    let n = (2 * (s.start + k * s.hop) + s.window) * 1_000_000_000;
    time::law_rounding(n, 2 * s.rate as int);
    assert(s.center(k) * (2 * s.rate) == 2 * s.rate * s.center(k)) by (nonlinear_arith);
}

/// A boundary lies midway between the middle of the last window that the
/// offset before it wins and that of the first window that the offset behind it
/// wins, and is found if and only if both win one.
pub proof fn law_boundary_lies_between_the_winners(s: Sweep, sides: Seq<Side>)
    requires
        s.wf(),
        sides.len() <= s.count,
    ensures
        ({
            let r = result_of(s, sides);
            &&& match r.last_a_center_ns {
                Some(t) => exists|k: int|
                    0 <= k < sides.len() && #[trigger] sides[k] == Side::A && t == s.center(k)
                        && forall|j: int| k < j < sides.len() ==> #[trigger] sides[j] != Side::A,
                None => forall|j: int| 0 <= j < sides.len() ==> #[trigger] sides[j] != Side::A,
            }
            &&& match r.first_b_center_ns {
                Some(t) => exists|k: int|
                    0 <= k < sides.len() && #[trigger] sides[k] == Side::B && t == s.center(k)
                        && forall|j: int| 0 <= j < k ==> #[trigger] sides[j] != Side::B,
                None => forall|j: int| 0 <= j < sides.len() ==> #[trigger] sides[j] != Side::B,
            }
            &&& match (r.last_a_center_ns, r.first_b_center_ns) {
                (Some(x), Some(y)) => r.refined_ns matches Some(t) && 2 * t <= x + y <= 2 * t + 1,
                _ => r.refined_ns is None,
            }
        }),
{
    lemma_last_and_first(sides);
    lemma_winners(sides);
    if let Some(k) = last_a(sides) {
        law_centers_in_bracket(s, k);
    }
    if let Some(k) = first_b(sides) {
        law_centers_in_bracket(s, k);
    }
}

proof fn lemma_last_and_first(sides: Seq<Side>)
    ensures
        match last_a(sides) {
            Some(k) => 0 <= k < sides.len() && sides[k] == Side::A && forall|j: int|
                k < j < sides.len() ==> #[trigger] sides[j] != Side::A,
            None => forall|j: int| 0 <= j < sides.len() ==> #[trigger] sides[j] != Side::A,
        },
        match first_b(sides) {
            Some(k) => 0 <= k < sides.len() && sides[k] == Side::B && forall|j: int|
                0 <= j < k ==> #[trigger] sides[j] != Side::B,
            None => forall|j: int| 0 <= j < sides.len() ==> #[trigger] sides[j] != Side::B,
        },
    decreases sides.len(),
{
    if sides.len() > 0 {
        let d = sides.drop_last();
        lemma_last_and_first(d);
        assert forall|j: int| 0 <= j < d.len() implies #[trigger] sides[j] == d[j] by {}
        assert(sides[sides.len() - 1] == sides.last());
    }
}

/// The first bracket reaches half a hop and four seconds to either side of the
/// boundary, as far as the two segments go and not before zero.
pub proof fn law_first_bracket(a: Segment, b: Segment, half_hop_ns: i64)
    requires
        segment_in_range(a),
        segment_in_range(b),
        0 <= half_hop_ns <= time::TIME_LIMIT,
    ensures
        ({
            let r = initial_bracket(a, b, half_hop_ns);
            let reach = half_hop_ns + 4_000_000_000;
            &&& r.lo_ns >= a.master_end_ns - reach && r.lo_ns >= a.master_start_ns && r.lo_ns >= 0
            &&& r.lo_ns == a.master_end_ns - reach || r.lo_ns == a.master_start_ns || r.lo_ns == 0
            &&& r.hi_ns <= a.master_end_ns + reach && r.hi_ns <= b.master_end_ns
            &&& r.hi_ns == a.master_end_ns + reach || r.hi_ns == b.master_end_ns
            &&& r.floor_ns >= a.master_start_ns && r.floor_ns >= 0
            &&& r.floor_ns == a.master_start_ns || r.floor_ns == 0
            &&& r.ceiling_ns == b.master_end_ns
            &&& r.extended_lo_ns == 0 && r.extended_hi_ns == 0
        }),
{
}

/// A bracket grows to the right if and only if only the offset before the
/// boundary won windows, and to the left if and only if only the one behind it
/// did, while it has been extended there by less than thirty seconds and the
/// segment goes on. It grows by five seconds, or to the end of the segment.
pub proof fn law_bracket_grows_towards_the_cut(b: Bracket, r: SweepResult)
    requires
        b.wf(),
    ensures
        ({
            let only_a = r.last_a_center_ns is Some && r.first_b_center_ns is None;
            let only_b = r.last_a_center_ns is None && r.first_b_center_ns is Some;
            let right = only_a && b.extended_hi_ns < 30_000_000_000 && b.hi_ns < b.ceiling_ns;
            let left = only_b && b.extended_lo_ns < 30_000_000_000 && b.lo_ns > b.floor_ns;
            match extended(b, r) {
                Some(w) => {
                    &&& right || left
                    &&& w.floor_ns == b.floor_ns && w.ceiling_ns == b.ceiling_ns
                    &&& right ==> {
                        &&& w.lo_ns == b.lo_ns && w.extended_lo_ns == b.extended_lo_ns
                        &&& b.hi_ns < w.hi_ns <= b.ceiling_ns
                        &&& w.hi_ns == b.hi_ns + 5_000_000_000 || w.hi_ns == b.ceiling_ns && w.hi_ns
                            < b.hi_ns + 5_000_000_000
                        &&& w.extended_hi_ns - b.extended_hi_ns == w.hi_ns - b.hi_ns
                    }
                    &&& left ==> {
                        &&& w.hi_ns == b.hi_ns && w.extended_hi_ns == b.extended_hi_ns
                        &&& b.floor_ns <= w.lo_ns < b.lo_ns
                        &&& w.lo_ns == b.lo_ns - 5_000_000_000 || w.lo_ns == b.floor_ns && w.lo_ns
                            > b.lo_ns - 5_000_000_000
                        &&& w.extended_lo_ns - b.extended_lo_ns == b.lo_ns - w.lo_ns
                    }
                },
                None => !right && !left,
            }
        }),
{
}

/// While the bracket still grows the refinement goes on coarsely. Then the
/// coarse boundary is chosen, and a second pass looks more closely if both
/// sides won windows, half a second around them and inside the bracket.
pub proof fn law_coarse_pass(st: BoundaryRefiner, r: SweepResult)
    requires
        st.wf(),
        st.stage == Stage::Coarse,
        result_within(r, st.bracket.lo_ns, st.bracket.hi_ns),
    ensures
        ({
            let n = after_sweep(st, r);
            &&& n.boundary_idx == st.boundary_idx
            &&& n.coarse_boundary_ns == st.coarse_boundary_ns
            &&& n.offset_a_ns == st.offset_a_ns
            &&& n.offset_b_ns == st.offset_b_ns
            &&& n.coarse == r
            &&& n.refined_subframe_ns == st.refined_subframe_ns
            &&& match extended(st.bracket, r) {
                Some(w) => n.stage == Stage::Coarse && n.bracket == w && n.chosen_ns
                    == st.chosen_ns,
                None => n.bracket == st.bracket && n.chosen_ns == r.refined_ns,
            }
            &&& n.stage == Stage::Subframe ==> r.last_a_center_ns is Some && r.first_b_center_ns
                is Some
            &&& extended(st.bracket, r) is None && n.stage != Stage::Subframe ==> n.stage
                == Stage::Done && (r.last_a_center_ns is None || r.first_b_center_ns is None || (
            r.last_a_center_ns->0 - 500_000_000 >= r.first_b_center_ns->0 + 500_000_000))
            &&& n.stage == Stage::Subframe ==> (n.request() matches Some(q) && {
                let x = r.last_a_center_ns->0;
                let y = r.first_b_center_ns->0;
                &&& q.lo_ns >= x - 500_000_000 && q.lo_ns >= st.bracket.lo_ns
                &&& q.lo_ns == x - 500_000_000 || q.lo_ns == st.bracket.lo_ns
                &&& q.hi_ns <= y + 500_000_000 && q.hi_ns <= st.bracket.hi_ns
                &&& q.hi_ns == y + 500_000_000 || q.hi_ns == st.bracket.hi_ns
            })
        }),
{
}

/// What the second pass finds is chosen if it lies within a second of what the
/// first found; otherwise the first stands. Either way the refinement is done.
pub proof fn law_second_pass(st: BoundaryRefiner, r: SweepResult)
    requires
        st.stage == Stage::Subframe,
    ensures
        ({
            let n = after_sweep(st, r);
            let near = r.refined_ns is Some && st.coarse.refined_ns is Some && -1_000_000_000
                <= r.refined_ns->0 - st.coarse.refined_ns->0 <= 1_000_000_000;
            &&& n.stage == Stage::Done
            &&& n.coarse == st.coarse
            &&& n.bracket == st.bracket
            &&& near ==> n.chosen_ns == r.refined_ns && n.refined_subframe_ns == r.refined_ns
            &&& !near ==> n.chosen_ns == st.chosen_ns && n.refined_subframe_ns
                == st.refined_subframe_ns
        }),
{
}

/// The first pass sweeps the whole bracket with windows of half a second to
/// four seconds, a quarter of a second apart; the second with windows of up to
/// a second, a twentieth of a second apart. Both compare the same two offsets.
pub proof fn law_sweeps_asked_for(st: BoundaryRefiner)
    requires
        st.wf(),
    ensures
        match st.request() {
            Some(q) => {
                &&& q.offset_a_ns == st.offset_a_ns && q.offset_b_ns == st.offset_b_ns
                &&& st.stage == Stage::Coarse ==> q.lo_ns == st.bracket.lo_ns && q.hi_ns
                    == st.bracket.hi_ns && q.min_window_ns == 500_000_000 && q.max_window_ns
                    == 4_000_000_000 && q.hop_ns == 250_000_000
                &&& st.stage == Stage::Subframe ==> q.max_window_ns == 1_000_000_000 && q.hop_ns
                    == 50_000_000 && q.min_window_ns <= 1_000_000_000 && 2 * q.min_window_ns
                    <= q.hi_ns - q.lo_ns && (q.min_window_ns == 1_000_000_000 || 2 * q.min_window_ns
                    >= q.hi_ns - q.lo_ns - 1)
            },
            None => st.stage == Stage::Done,
        },
{
}

/// Moving a boundary moves the end of the one segment and the start of the
/// other, and nothing else.
pub proof fn law_boundary_is_moved(segments: Seq<Segment>, i: int, t: i64, k: int)
    requires
        0 <= i < segments.len() - 1,
        0 <= k < segments.len(),
    ensures
        ({
            let s = with_boundary(segments, i, t);
            &&& s.len() == segments.len()
            &&& s[i].master_end_ns == t && s[i + 1].master_start_ns == t
            &&& s[k].donor_offset_ns == segments[k].donor_offset_ns
            &&& k != i ==> s[k].master_end_ns == segments[k].master_end_ns
            &&& k != i + 1 ==> s[k].master_start_ns == segments[k].master_start_ns
        }),
{
}

/// The refinement of a boundary is about the two segments that meet there.
pub proof fn law_refinement_starts_at_its_boundary(segments: Seq<Segment>, i: int, half_hop_ns: i64)
    requires
        0 <= i < segments.len() - 1,
        segments.len() <= usize::MAX,
    ensures
        ({
            let st = started(segments, i, half_hop_ns);
            &&& st.boundary_idx == i
            &&& st.coarse_boundary_ns == segments[i].master_end_ns
            &&& st.offset_a_ns == segments[i].donor_offset_ns
            &&& st.offset_b_ns == segments[i + 1].donor_offset_ns
            &&& st.bracket == initial_bracket(segments[i], segments[i + 1], half_hop_ns)
            &&& st.chosen_ns is None
            &&& st.stage == Stage::Coarse <==> st.bracket.lo_ns < st.bracket.hi_ns
            &&& st.stage != Stage::Subframe
        }),
{
}

/// A finished refinement that chose a boundary moves it in the map; one that
/// chose none leaves the map as it is.
pub proof fn law_chosen_boundary_is_adopted(segments: Seq<Segment>, st: BoundaryRefiner)
    requires
        st.boundary_idx + 1 < segments.len(),
    ensures
        ({
            let s = adopted(segments, st);
            let i = st.boundary_idx as int;
            match st.chosen_ns {
                Some(t) => s[i].master_end_ns == t && s[i + 1].master_start_ns == t,
                None => s == segments,
            }
        }),
{
}

/// The donor is later than the master by the lag: what lies at a sample of the
/// master window lies so many samples later in the donor, and both windows are
/// whole. Only a window that is not whole is left out.
pub proof fn law_windows_are_apart_by_the_lag(
    r: Option<usize>,
    master_len: int,
    donor_len: int,
    start: int,
    lag: int,
    window: int,
)
    requires
        0 <= start,
        0 <= window,
        is_donor_window(r, master_len, donor_len, start, lag, window),
    ensures
        r matches Some(d) ==> d - start == lag && 0 <= d && d + window <= donor_len && start + window
            <= master_len,
        0 <= start + lag && start + lag + window <= donor_len && start + window <= master_len
            ==> r is Some,
{
}

} // verus!
