//! Onsets: sudden rises of the level of a track.
use vstd::prelude::*;
use crate::audio::vad::HOP_NS;
use crate::time;

verus! {

/// Hops at or below this level never count as onsets, however large the rise:
/// in a long quiet passage any tiny burst looks like a huge jump.
pub const ONSET_NOISE_FLOOR_UDB: i64 = -60_000_000;

/// A rise of the level. Levels are millionths of a decibel.
#[derive(Clone, Copy, Debug)]
pub struct OnsetEvent {
    pub time_ns: i64,
    pub rms_udb: i64,
    pub jump_udb: i64,
}

/// The lowest of `levels[lo..hi]`.
pub open spec fn lowest(levels: Seq<i64>, lo: int, hi: int) -> int
    decreases hi - lo,
{
    if hi <= lo + 1 {
        levels[lo] as int
    } else {
        time::min2(lowest(levels, lo, hi - 1), levels[hi - 1] as int)
    }
}

/// The rise at hop `i` above the lowest of the `refractory` hops before it.
pub open spec fn rise(levels: Seq<i64>, i: int, refractory: int) -> int {
    levels[i] - lowest(levels, time::max2(i - refractory, 0), i)
}

/// The onsets among the first `n` hops, and the hop of the last one.
pub struct Onsets {
    pub events: Seq<OnsetEvent>,
    pub last: Option<int>,
}

pub open spec fn onsets(levels: Seq<i64>, n: int, min_jump: int, refractory: int) -> Onsets
    decreases n,
{
    if n <= 1 {
        Onsets { events: Seq::empty(), last: None }
    } else {
        let before = onsets(levels, n - 1, min_jump, refractory);
        let i = n - 1;
        let waiting = before.last matches Some(last) && i - last < refractory;
        if !waiting && rise(levels, i, refractory) >= min_jump && levels[i]
            > ONSET_NOISE_FLOOR_UDB {
            Onsets {
                events: before.events.push(
                    OnsetEvent {
                        time_ns: (i * HOP_NS) as i64,
                        rms_udb: levels[i],
                        jump_udb: rise(levels, i, refractory) as i64,
                    },
                ),
                last: Some(i),
            }
        } else {
            before
        }
    }
}

/// How many hops a refractory time lasts, at least one.
pub open spec fn refractory_hops(refractory_ns: int) -> int {
    time::max2(time::round_div(refractory_ns, HOP_NS as int), 1)
}

fn lowest_of(levels: &Vec<i64>, lo: usize, hi: usize) -> (r: i64)
    requires
        lo < hi <= levels@.len(),
    ensures
        r == lowest(levels@, lo as int, hi as int),
        exists|k: int| lo <= k < hi && r == #[trigger] levels@[k],
{
    let mut r: i64 = levels[lo];
    let mut i: usize = lo + 1;
    while i < hi
        invariant
            lo < i <= hi <= levels@.len(),
            r == lowest(levels@, lo as int, i as int),
            exists|k: int| lo <= k < i && r == #[trigger] levels@[k],
        decreases hi - i,
    {
        r = time::min_i64(r, levels[i]);
        i += 1;
    }
    r
}

/// Detects hops whose level rises by at least `min_jump_udb` above the lowest
/// of the refractory time before. After an onset the refractory time has to
/// pass before the next.
pub fn detect_onsets(levels: &Vec<i64>, min_jump_udb: i64, refractory_ns: i64) -> (r: Vec<
    OnsetEvent,
>)
    requires
        levels@.len() * HOP_NS <= time::TIME_LIMIT,
        forall|i: int| 0 <= i < levels@.len() ==> time::in_range(#[trigger] levels@[i]),
        time::in_range(refractory_ns),
    ensures
        r@ == onsets(
            levels@,
            levels@.len() as int,
            min_jump_udb as int,
            refractory_hops(refractory_ns as int),
        ).events,
{
    let quotient: i128 = time::div_round(refractory_ns as i128, HOP_NS as i128);
    proof {
        time::lemma_round_div_bounds(
            refractory_ns as int,
            HOP_NS as int,
            -time::TIME_LIMIT as int,
            time::TIME_LIMIT as int,
        );
    }
    let refractory: i64 = time::max_i64(quotient as i64, 1);
    let ghost min_jump = min_jump_udb as int;
    let mut events: Vec<OnsetEvent> = Vec::new();
    let mut last: Option<usize> = None;
    let n: usize = levels.len();
    let mut i: usize = 1;
    while i < n
        invariant
            1 <= i,
            i <= n || (n == 0 && i == 1),
            n == levels@.len(),
            n * HOP_NS <= time::TIME_LIMIT,
            refractory >= 1,
            refractory == refractory_hops(refractory_ns as int),
            min_jump == min_jump_udb,
            forall|k: int| 0 <= k < levels@.len() ==> time::in_range(#[trigger] levels@[k]),
            events@ == onsets(levels@, i as int, min_jump, refractory as int).events,
            match last {
                Some(l) => l < i && onsets(levels@, i as int, min_jump, refractory as int).last
                    == Some(l as int),
                None => onsets(levels@, i as int, min_jump, refractory as int).last is None,
            },
        decreases n - i,
    {
        let waiting = match last {
            Some(l) => ((i - l) as i64) < refractory,
            None => false,
        };
        let lo: usize = if i as i64 > refractory {
            (i as i64 - refractory) as usize
        } else {
            0
        };
        let floor: i64 = lowest_of(levels, lo, i);
        assert(time::in_range(levels@[i as int]));
        let jump: i64 = levels[i] - floor;
        if !waiting && jump >= min_jump_udb && levels[i] > ONSET_NOISE_FLOOR_UDB {
            events.push(
                OnsetEvent { time_ns: i as i64 * HOP_NS, rms_udb: levels[i], jump_udb: jump },
            );
            last = Some(i);
        }
        i += 1;
    }
    proof {
        let hops = refractory as int;
        assert(n == 0 ==> onsets(levels@, 0, min_jump, hops).events == onsets(
            levels@,
            1,
            min_jump,
            hops,
        ).events);
    }
    events
}

proof fn lemma_onsets(levels: Seq<i64>, n: int, min_jump: int, refractory: int)
    requires
        0 <= n <= levels.len(),
        levels.len() * HOP_NS <= time::TIME_LIMIT,
        refractory >= 1,
        forall|i: int| 0 <= i < levels.len() ==> time::in_range(#[trigger] levels[i]),
    ensures
        ({
            let o = onsets(levels, n, min_jump, refractory);
            &&& o.last is Some <==> o.events.len() > 0
            &&& o.last matches Some(l) ==> 0 <= l < n && o.events.last().time_ns == l * HOP_NS
            &&& forall|k: int|
                0 <= k < o.events.len() ==> (#[trigger] o.events[k]).rms_udb
                    > ONSET_NOISE_FLOOR_UDB && o.events[k].jump_udb >= min_jump
            &&& forall|k: int|
                0 <= k < o.events.len() - 1 ==> (#[trigger] o.events[k]).time_ns + refractory
                    * HOP_NS <= o.events[k + 1].time_ns
        }),
    decreases n,
{
    if n > 1 {
        lemma_onsets(levels, n - 1, min_jump, refractory);
        let b = onsets(levels, n - 1, min_jump, refractory);
        let o = onsets(levels, n, min_jump, refractory);
        if o.events.len() > b.events.len() {
            lemma_lowest(levels, time::max2(n - 1 - refractory, 0), n - 1);
            assert(time::in_range(levels[n - 1]));
            assert forall|k: int| 0 <= k < o.events.len() implies (
            #[trigger] o.events[k]).rms_udb > ONSET_NOISE_FLOOR_UDB && o.events[k].jump_udb
                >= min_jump by {
                if k < b.events.len() {
                    assert(o.events[k] == b.events[k]);
                }
            }
            assert forall|k: int| 0 <= k < o.events.len() - 1 implies (
            #[trigger] o.events[k]).time_ns + refractory * HOP_NS <= o.events[k + 1].time_ns by {
                assert(o.events[k] == b.events[k]);
                if k + 1 < b.events.len() {
                    assert(o.events[k + 1] == b.events[k + 1]);
                }
            }
        }
    }
}

proof fn lemma_lowest(levels: Seq<i64>, lo: int, hi: int)
    requires
        0 <= lo < hi <= levels.len(),
        forall|i: int| 0 <= i < levels.len() ==> time::in_range(#[trigger] levels[i]),
    ensures
        -time::TIME_LIMIT <= lowest(levels, lo, hi) <= time::TIME_LIMIT,
    decreases hi - lo,
{
    assert(time::in_range(levels[lo]));
    if hi > lo + 1 {
        lemma_lowest(levels, lo, hi - 1);
        assert(time::in_range(levels[hi - 1]));
    }
}

/// Onsets rise by at least the asked-for jump, stand above the noise floor,
/// and are at least the refractory time apart.
pub proof fn law_onsets(levels: Seq<i64>, min_jump: int, refractory: int)
    requires
        levels.len() * HOP_NS <= time::TIME_LIMIT,
        refractory >= 1,
        forall|i: int| 0 <= i < levels.len() ==> time::in_range(#[trigger] levels[i]),
    ensures
        ({
            let events = onsets(levels, levels.len() as int, min_jump, refractory).events;
            &&& forall|k: int|
                0 <= k < events.len() ==> (#[trigger] events[k]).rms_udb > ONSET_NOISE_FLOOR_UDB
                    && events[k].jump_udb >= min_jump
            &&& forall|k: int|
                0 <= k < events.len() - 1 ==> (#[trigger] events[k]).time_ns + refractory * HOP_NS
                    <= events[k + 1].time_ns
        }),
{
    lemma_onsets(levels, levels.len() as int, min_jump, refractory);
}

/// The lowest level is one of the levels, and none is lower.
pub proof fn law_lowest_level(levels: Seq<i64>, lo: int, hi: int)
    requires
        lo < hi,
    ensures
        exists|k: int| lo <= k < hi && lowest(levels, lo, hi) == #[trigger] levels[k],
        forall|k: int| lo <= k < hi ==> lowest(levels, lo, hi) <= #[trigger] levels[k],
    decreases hi - lo,
{
    if hi > lo + 1 {
        law_lowest_level(levels, lo, hi - 1);
        let k = choose|k: int| lo <= k < hi - 1 && lowest(levels, lo, hi - 1) == #[trigger] levels[k];
        assert(levels[hi - 1] == levels[hi - 1]);
        assert(lowest(levels, lo, hi) == levels[k] || lowest(levels, lo, hi) == levels[hi - 1]);
    } else {
        assert(lowest(levels, lo, hi) == levels[lo]);
    }
}

/// An event stands for the rise at hop `i`: it is at that hop's time, has its
/// level, and its jump is how far the level lies above the lowest of the hops
/// before it that are within the refractory time.
pub open spec fn is_rise_at(e: OnsetEvent, levels: Seq<i64>, i: int, refractory: int) -> bool {
    &&& 0 < i < levels.len()
    &&& e.time_ns == i * 20_000_000
    &&& e.rms_udb == levels[i]
    &&& forall|k: int|
        0 <= k && i - refractory <= k < i ==> #[trigger] levels[k] >= levels[i] - e.jump_udb
    &&& exists|k: int|
        0 <= k && i - refractory <= k < i && #[trigger] levels[k] == levels[i] - e.jump_udb
}

/// Every onset is a rise of at least the asked-for jump to a level above the
/// noise floor.
pub proof fn law_onsets_are_rises(levels: Seq<i64>, n: int, min_jump: int, refractory: int)
    requires
        0 <= n <= levels.len(),
        levels.len() * HOP_NS <= time::TIME_LIMIT,
        refractory >= 1,
        forall|i: int| 0 <= i < levels.len() ==> time::in_range(#[trigger] levels[i]),
    ensures
        forall|j: int|
            0 <= j < onsets(levels, n, min_jump, refractory).events.len() ==> {
                let e = #[trigger] onsets(levels, n, min_jump, refractory).events[j];
                &&& e.jump_udb >= min_jump
                &&& e.rms_udb > -60_000_000
                &&& exists|i: int|
                    #[trigger] is_rise_at(e, levels, i, refractory)
            },
    decreases n,
{
    if n > 1 {
        law_onsets_are_rises(levels, n - 1, min_jump, refractory);
        let b = onsets(levels, n - 1, min_jump, refractory);
        let o = onsets(levels, n, min_jump, refractory);
        if o.events.len() > b.events.len() {
            let i = n - 1;
            let lo = time::max2(i - refractory, 0);
            let e = o.events.last();
            law_lowest_level(levels, lo, i);
            lemma_lowest(levels, lo, i);
            assert(time::in_range(levels[i]));
            let k = choose|k: int| lo <= k < i && lowest(levels, lo, i) == #[trigger] levels[k];
            assert(levels[k] == levels[i] - e.jump_udb);
            assert(is_rise_at(e, levels, i, refractory));
            assert forall|j: int| 0 <= j < o.events.len() implies ({
                let e = #[trigger] o.events[j];
                &&& e.jump_udb >= min_jump
                &&& e.rms_udb > -60_000_000
                &&& exists|i: int| #[trigger] is_rise_at(e, levels, i, refractory)
            }) by {
                if j < b.events.len() {
                    assert(o.events[j] == b.events[j]);
                }
            }
        }
    }
}

/// A loud enough rise is an onset unless one lies less than the refractory time
/// before it.
pub proof fn law_no_rise_is_missed(levels: Seq<i64>, n: int, i: int, min_jump: int, refractory: int)
    requires
        0 < i < n <= levels.len(),
        levels.len() * HOP_NS <= time::TIME_LIMIT,
        refractory >= 1,
        forall|k: int| 0 <= k < levels.len() ==> time::in_range(#[trigger] levels[k]),
        levels[i] > -60_000_000,
        exists|k: int|
            0 <= k && i - refractory <= k < i && levels[i] - #[trigger] levels[k] >= min_jump,
    ensures
        exists|j: int|
            0 <= j < onsets(levels, n, min_jump, refractory).events.len() && i - refractory < (
            #[trigger] onsets(levels, n, min_jump, refractory).events[j]).time_ns as int / 20_000_000
                <= i,
    decreases n,
{
    let o = onsets(levels, n, min_jump, refractory);
    let b = onsets(levels, n - 1, min_jump, refractory);
    if n - 1 > i {
        law_no_rise_is_missed(levels, n - 1, i, min_jump, refractory);
        let j = choose|j: int|
            0 <= j < b.events.len() && i - refractory < (#[trigger] b.events[j]).time_ns as int
                / 20_000_000 <= i;
        assert(o.events[j] == b.events[j]);
    } else {
        let lo = time::max2(i - refractory, 0);
        law_lowest_level(levels, lo, i);
        lemma_onsets(levels, n - 1, min_jump, refractory);
        if o.events.len() > b.events.len() {
            assert(o.events[o.events.len() - 1].time_ns == i * 20_000_000);
        } else {
            let k = choose|k: int|
                0 <= k && i - refractory <= k < i && levels[i] - #[trigger] levels[k] >= min_jump;
            assert(lowest(levels, lo, i) <= levels[k]);
            assert(b.last is Some);
            assert(b.events[b.events.len() - 1].time_ns == b.last->0 * 20_000_000);
        }
    }
}

/// The refractory time in hops is itself, to half a hop, and a hop at least.
pub proof fn law_refractory_hops(refractory_ns: int)
    ensures
        refractory_hops(refractory_ns) >= 1,
        refractory_ns >= 20_000_000 ==> -20_000_000 <= 2 * (refractory_hops(refractory_ns)
            * 20_000_000 - refractory_ns) <= 20_000_000,
{
    time::law_rounding(refractory_ns, 20_000_000);
}

} // verus!
