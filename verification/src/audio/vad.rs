//! Silence and speech: what follows from the level of each hop of a track.
use vstd::prelude::*;
use crate::time;

verus! {

/// Length of the hops that levels are measured over.
pub const HOP_NS: i64 = 20_000_000;

/// A silent stretch of a track.
#[derive(Clone, Copy, Debug)]
pub struct SilenceInterval {
    pub start_ns: i64,
    pub end_ns: i64,
}

/// Whether a buffer can safely be time-stretched.
#[derive(Clone, Copy, Debug, PartialEq, Eq, Structural)]
pub enum Verdict {
    /// Below the silence floor: nothing useful to stretch.
    Silent,
    /// Broadband ambience or music: safe to stretch.
    Ambient,
    /// Likely speech, which must not be stretched.
    Speech,
}

/// Frames per hop, at least one.
pub open spec fn hop_len(rate: u32) -> int {
    time::max2(time::to_samples(HOP_NS as int, rate as int), 1)
}

pub fn hop_frames(rate: u32) -> (r: usize)
    ensures
        r == hop_len(rate),
{
    let n: i64 = time::samples_of(HOP_NS, rate);
    proof {
        assert(0 <= HOP_NS * rate <= 20_000_000 * 0xffff_ffff) by (nonlinear_arith)
            requires
                HOP_NS == 20_000_000,
                0 <= rate <= 0xffff_ffff,
        ;
        time::lemma_round_div_bounds(HOP_NS * rate, time::NS_PER_S as int, 0, 0xffff_ffff);
    }
    time::max_i64(n, 1) as usize
}

/// The silent runs among the first `n` hops: those that are over and long
/// enough, and where the one under way started.
pub struct Runs {
    pub found: Seq<SilenceInterval>,
    pub open_at: Option<int>,
}

/// `found`, and the run `start..end` behind it if it is long enough.
pub open spec fn with_run(
    found: Seq<SilenceInterval>,
    start: int,
    end: int,
    min_ns: int,
) -> Seq<SilenceInterval> {
    if (end - start) * HOP_NS >= min_ns {
        found.push(
            SilenceInterval {
                start_ns: (start * HOP_NS) as i64,
                end_ns: (end * HOP_NS) as i64,
            },
        )
    } else {
        found
    }
}

pub open spec fn runs(silent: Seq<bool>, n: int, min_ns: int) -> Runs
    decreases n,
{
    if n <= 0 {
        Runs { found: Seq::empty(), open_at: None }
    } else {
        let r = runs(silent, n - 1, min_ns);
        match (silent[n - 1], r.open_at) {
            (true, None) => Runs { found: r.found, open_at: Some(n - 1) },
            (false, Some(start)) => Runs {
                found: with_run(r.found, start, n - 1, min_ns),
                open_at: None,
            },
            _ => r,
        }
    }
}

/// The silent intervals of a track whose hops are silent or not.
pub open spec fn silences_of(silent: Seq<bool>, min_ns: int) -> Seq<SilenceInterval> {
    let r = runs(silent, silent.len() as int, min_ns);
    match r.open_at {
        Some(start) => with_run(r.found, start, silent.len() as int, min_ns),
        None => r.found,
    }
}

fn push_if_long_enough(
    found: &mut Vec<SilenceInterval>,
    start_hop: usize,
    end_hop: usize,
    min_ns: i64,
)
    requires
        start_hop <= end_hop,
        end_hop * HOP_NS <= time::TIME_LIMIT,
    ensures
        final(found)@ == with_run(old(found)@, start_hop as int, end_hop as int, min_ns as int),
{
    let start_ns: i64 = start_hop as i64 * HOP_NS;
    let end_ns: i64 = end_hop as i64 * HOP_NS;
    if end_ns - start_ns >= min_ns {
        found.push(SilenceInterval { start_ns, end_ns });
    }
}

/// Coalesces silent hops into intervals and drops those shorter than `min_ns`.
pub fn detect_silence(silent: &Vec<bool>, min_ns: i64) -> (r: Vec<SilenceInterval>)
    requires
        silent@.len() * HOP_NS <= time::TIME_LIMIT,
    ensures
        r@ == silences_of(silent@, min_ns as int),
{
    let mut found: Vec<SilenceInterval> = Vec::new();
    let mut open_at: Option<usize> = None;
    let mut i: usize = 0;
    while i < silent.len()
        invariant
            i <= silent@.len(),
            silent@.len() * HOP_NS <= time::TIME_LIMIT,
            found@ == runs(silent@, i as int, min_ns as int).found,
            match open_at {
                Some(s) => s < i && runs(silent@, i as int, min_ns as int).open_at == Some(
                    s as int,
                ),
                None => runs(silent@, i as int, min_ns as int).open_at is None,
            },
        decreases silent@.len() - i,
    {
        if silent[i] {
            if open_at.is_none() {
                open_at = Some(i);
            }
        } else {
            match open_at {
                Some(s) => {
                    push_if_long_enough(&mut found, s, i, min_ns);
                    open_at = None;
                },
                None => {},
            }
        }
        i += 1;
    }
    match open_at {
        Some(s) => {
            push_if_long_enough(&mut found, s, silent.len(), min_ns);
        },
        None => {},
    }
    found
}

/// `start..end` is a run of silent hops that cannot be made longer.
pub open spec fn maximal_run(silent: Seq<bool>, start: int, end: int) -> bool {
    &&& 0 <= start < end <= silent.len()
    &&& forall|i: int| start <= i < end ==> #[trigger] silent[i]
    &&& start > 0 ==> !silent[start - 1]
    &&& end < silent.len() ==> !silent[end]
}

/// An interval that is exactly such a run, and long enough.
pub open spec fn is_long_run(silent: Seq<bool>, s: SilenceInterval, min_ns: int) -> bool {
    &&& s.start_ns as int % HOP_NS as int == 0
    &&& s.end_ns as int % HOP_NS as int == 0
    &&& maximal_run(silent, s.start_ns as int / HOP_NS as int, s.end_ns as int / HOP_NS as int)
    &&& s.end_ns - s.start_ns >= min_ns
}

proof fn lemma_hop_times(k: int)
    requires
        0 <= k,
    ensures
        (k * HOP_NS) % HOP_NS as int == 0,
        (k * HOP_NS) / HOP_NS as int == k,
{
}

/// Runs that end before hop `n` are maximal already.
proof fn lemma_runs(silent: Seq<bool>, n: int, min_ns: int)
    requires
        0 <= n <= silent.len(),
        silent.len() * HOP_NS <= time::TIME_LIMIT,
    ensures
        ({
            let r = runs(silent, n, min_ns);
            &&& match r.open_at {
                Some(s) => 0 <= s < n && (forall|i: int| s <= i < n ==> #[trigger] silent[i]) && (s
                    > 0 ==> !silent[s - 1]),
                None => n > 0 ==> !silent[n - 1],
            }
            &&& forall|k: int|
                0 <= k < r.found.len() ==> is_long_run(silent, #[trigger] r.found[k], min_ns)
                    && r.found[k].end_ns < n * HOP_NS
            &&& forall|k: int, j: int|
                0 <= k < j < r.found.len() ==> (#[trigger] r.found[k]).end_ns < (
                #[trigger] r.found[j]).start_ns
            &&& r.open_at matches Some(s) ==> forall|k: int|
                0 <= k < r.found.len() ==> (#[trigger] r.found[k]).end_ns < s * HOP_NS
        }),
    decreases n,
{
    if n > 0 {
        lemma_runs(silent, n - 1, min_ns);
        let b = runs(silent, n - 1, min_ns);
        let r = runs(silent, n, min_ns);
        if let Some(s) = b.open_at {
            lemma_hop_times(s);
            lemma_hop_times(n - 1);
            if !silent[n - 1] {
                assert(maximal_run(silent, s, n - 1));
                assert forall|k: int| 0 <= k < r.found.len() implies is_long_run(
                    silent,
                    #[trigger] r.found[k],
                    min_ns,
                ) && r.found[k].end_ns < n * HOP_NS by {
                    if k < b.found.len() {
                        assert(r.found[k] == b.found[k]);
                    }
                }
                assert forall|k: int, j: int| 0 <= k < j < r.found.len() implies (
                #[trigger] r.found[k]).end_ns < (#[trigger] r.found[j]).start_ns by {
                    assert(r.found[k] == b.found[k]);
                    if j < b.found.len() {
                        assert(r.found[j] == b.found[j]);
                    }
                }
            }
        } else {
            assert forall|k: int| 0 <= k < r.found.len() implies is_long_run(
                silent,
                #[trigger] r.found[k],
                min_ns,
            ) && r.found[k].end_ns < n * HOP_NS by {
                assert(r.found[k] == b.found[k]);
            }
        }
    }
}

/// Every silence is a run of silent hops that cannot be made longer, is at
/// least as long as asked for, and lies before the next one.
pub proof fn law_silences_are_maximal_runs(silent: Seq<bool>, min_ns: int)
    requires
        silent.len() * HOP_NS <= time::TIME_LIMIT,
    ensures
        forall|k: int|
            0 <= k < silences_of(silent, min_ns).len() ==> is_long_run(
                silent,
                #[trigger] silences_of(silent, min_ns)[k],
                min_ns,
            ),
        forall|k: int, j: int|
            0 <= k < j < silences_of(silent, min_ns).len() ==> (#[trigger] silences_of(
                silent,
                min_ns,
            )[k]).end_ns < (#[trigger] silences_of(silent, min_ns)[j]).start_ns,
{
    let n = silent.len() as int;
    lemma_runs(silent, n, min_ns);
    let r = runs(silent, n, min_ns);
    let all = silences_of(silent, min_ns);
    if let Some(s) = r.open_at {
        lemma_hop_times(s);
        lemma_hop_times(n);
        assert(maximal_run(silent, s, n));
        assert forall|k: int| 0 <= k < all.len() implies is_long_run(
            silent,
            #[trigger] all[k],
            min_ns,
        ) by {
            if k < r.found.len() {
                assert(all[k] == r.found[k]);
            }
        }
        assert forall|k: int, j: int| 0 <= k < j < all.len() implies (#[trigger] all[k]).end_ns < (
        #[trigger] all[j]).start_ns by {
            assert(all[k] == r.found[k]);
            if j < r.found.len() {
                assert(all[j] == r.found[j]);
            }
        }
    }
}

/// The interval of the run `start..end` of hops.
pub open spec fn run_interval(start: int, end: int) -> SilenceInterval {
    SilenceInterval { start_ns: (start * HOP_NS) as i64, end_ns: (end * HOP_NS) as i64 }
}

proof fn lemma_run_found(silent: Seq<bool>, start: int, end: int, n: int, min_ns: int)
    requires
        maximal_run(silent, start, end),
        (end - start) * HOP_NS >= min_ns,
        start < n <= silent.len(),
    ensures
        n <= end ==> runs(silent, n, min_ns).open_at == Some(start),
        n > end ==> runs(silent, n, min_ns).found.contains(run_interval(start, end)),
    decreases n,
{
    let before = runs(silent, n - 1, min_ns);
    let now = runs(silent, n, min_ns);
    if n - 1 > start {
        lemma_run_found(silent, start, end, n - 1, min_ns);
        if n <= end {
            assert(silent[n - 1]);
        } else if n == end + 1 {
            assert(now.found.last() == run_interval(start, end));
        } else {
            let k = choose|k: int|
                0 <= k < before.found.len() && before.found[k] == run_interval(start, end);
            assert(now.found[k] == before.found[k]);
        }
    } else {
        assert(silent[start]);
        if start > 0 {
            lemma_closed(silent, start, min_ns);
        }
    }
}

/// Behind a hop that is not silent no run is under way.
proof fn lemma_closed(silent: Seq<bool>, n: int, min_ns: int)
    requires
        0 < n <= silent.len(),
        !silent[n - 1],
    ensures
        runs(silent, n, min_ns).open_at is None,
{
}

/// Every run of silent hops that cannot be made longer and is long enough is
/// among the silences.
pub proof fn law_every_long_run_is_a_silence(silent: Seq<bool>, start: int, end: int, min_ns: int)
    requires
        maximal_run(silent, start, end),
        (end - start) * HOP_NS >= min_ns,
    ensures
        silences_of(silent, min_ns).contains(run_interval(start, end)),
{
    let n = silent.len() as int;
    lemma_run_found(silent, start, end, n, min_ns);
    let r = runs(silent, n, min_ns);
    let all = silences_of(silent, min_ns);
    if n > end {
        let k = choose|k: int| 0 <= k < r.found.len() && r.found[k] == run_interval(start, end);
        assert(all[k] == r.found[k]);
    } else {
        assert(all.last() == run_interval(start, end));
    }
}

/// How often the sign flips between neighbouring frames, zeros not counted:
/// `signs` holds -1, 0 or 1 for each frame.
pub open spec fn crossings(signs: Seq<i8>) -> nat
    decreases signs.len(),
{
    if signs.len() < 2 {
        0
    } else {
        let a = signs[signs.len() - 2];
        let b = signs[signs.len() - 1];
        crossings(signs.drop_last()) + if a != 0 && b != 0 && a != b {
            1nat
        } else {
            0nat
        }
    }
}

/// What a buffer is taken for by its level and zero-crossing rate: silent below
/// the silence floor; speech if it reaches the speech level and crosses zero on
/// less than 15 % of its frames; ambient otherwise.
pub open spec fn verdict_of(signs: Seq<i8>, below_silence: bool, reaches_speech: bool) -> Verdict {
    if signs.len() == 0 || below_silence {
        Verdict::Silent
    } else if reaches_speech && 20 * crossings(signs) < 3 * signs.len() {
        Verdict::Speech
    } else {
        Verdict::Ambient
    }
}

/// Classifies a buffer.
pub fn classify_buffer(signs: &Vec<i8>, below_silence: bool, reaches_speech: bool) -> (r: Verdict)
    ensures
        r == verdict_of(signs@, below_silence, reaches_speech),
{
    let frames: usize = signs.len();
    if frames == 0 || below_silence {
        return Verdict::Silent;
    }
    let mut count: u64 = 0;
    let mut f: usize = 1;
    assert(signs@.take(1).len() == 1);
    while f < frames
        invariant
            1 <= f <= frames == signs@.len(),
            count == crossings(signs@.take(f as int)),
            count < f,
        decreases frames - f,
    {
        assert(signs@.take(f + 1).drop_last() =~= signs@.take(f as int));
        if signs[f - 1] != 0 && signs[f] != 0 && signs[f - 1] != signs[f] {
            count += 1;
        }
        f += 1;
    }
    assert(signs@.take(f as int) =~= signs@);
    if reaches_speech && 20 * (count as u128) < 3 * (frames as u128) {
        Verdict::Speech
    } else {
        Verdict::Ambient
    }
}

/// Hops last twenty milliseconds, to half a frame, and a frame at least.
pub proof fn law_hop_lasts_twenty_milliseconds(rate: u32)
    ensures
        hop_len(rate) >= 1,
        rate >= 75 ==> -1_000_000_000 <= 2 * (hop_len(rate) * 1_000_000_000 - 20_000_000 * rate)
            <= 1_000_000_000,
{
    time::law_samples_of_a_time(20_000_000, rate as int);
}

/// Inside a silence every hop is silent; the hops right before and right behind
/// it are not. It starts and ends with a hop and lasts as long as asked for.
pub proof fn law_silences_are_silent(silent: Seq<bool>, min_ns: int, k: int, h: int)
    requires
        silent.len() * HOP_NS <= time::TIME_LIMIT,
        0 <= k < silences_of(silent, min_ns).len(),
        0 <= h < silent.len(),
    ensures
        ({
            let s = silences_of(silent, min_ns)[k];
            &&& 0 <= s.start_ns < s.end_ns <= silent.len() * 20_000_000
            &&& s.end_ns - s.start_ns >= min_ns
            &&& s.start_ns <= h * 20_000_000 < s.end_ns ==> silent[h] && (h + 1) * 20_000_000
                <= s.end_ns
            &&& (h + 1) * 20_000_000 == s.start_ns ==> !silent[h]
            &&& h * 20_000_000 == s.end_ns ==> !silent[h]
        }),
{
    law_silences_are_maximal_runs(silent, min_ns);
    let s = silences_of(silent, min_ns)[k];
    assert(is_long_run(silent, s, min_ns));
}

/// Where every hop from `a` to `b` is silent and that lasts as long as asked
/// for, there is a silence that holds all of it.
pub proof fn law_no_long_silence_is_missed(silent: Seq<bool>, a: int, b: int, min_ns: int)
    requires
        silent.len() * HOP_NS <= time::TIME_LIMIT,
        0 <= a < b <= silent.len(),
        forall|i: int| a <= i < b ==> #[trigger] silent[i],
        (b - a) * 20_000_000 >= min_ns,
    ensures
        exists|k: int|
            0 <= k < silences_of(silent, min_ns).len() && (#[trigger] silences_of(
                silent,
                min_ns,
            )[k]).start_ns <= a * 20_000_000 && b * 20_000_000 <= silences_of(
                silent,
                min_ns,
            )[k].end_ns,
    decreases silent.len() - (b - a),
{
    let all = silences_of(silent, min_ns);
    if a > 0 && silent[a - 1] {
        law_no_long_silence_is_missed(silent, a - 1, b, min_ns);
    } else if b < silent.len() && silent[b] {
        law_no_long_silence_is_missed(silent, a, b + 1, min_ns);
    } else {
        law_every_long_run_is_a_silence(silent, a, b, min_ns);
        let k = choose|k: int| 0 <= k < all.len() && all[k] == run_interval(a, b);
        assert(all[k].start_ns <= a * 20_000_000);
    }
}

/// Another frame adds a zero crossing if and only if its sign is opposite to
/// the last one's.
pub proof fn law_crossings_count_flips(signs: Seq<i8>, x: i8)
    requires
        forall|i: int| 0 <= i < signs.len() ==> -1 <= #[trigger] signs[i] <= 1,
        -1 <= x <= 1,
    ensures
        signs.len() == 0 ==> crossings(signs.push(x)) == 0,
        signs.len() > 0 ==> crossings(signs.push(x)) - crossings(signs) == if signs.last() * x < 0 {
            1int
        } else {
            0int
        },
{
    let s = signs.push(x);
    assert(s.drop_last() =~= signs);
    if signs.len() > 0 {
        let a = signs[signs.len() - 1];
        assert(a == signs.last());
        assert(a * x < 0 <==> (a != 0 && x != 0 && a != x)) by (nonlinear_arith)
            requires
                -1 <= a <= 1,
                -1 <= x <= 1,
        ;
    }
}

/// Only what is loud enough and crosses zero on less than fifteen of a hundred
/// frames is taken for speech; what is below the floor, or empty, is silent.
pub proof fn law_verdicts(signs: Seq<i8>, below: bool, loud: bool)
    ensures
        verdict_of(signs, below, loud) == Verdict::Silent <==> signs.len() == 0 || below,
        verdict_of(signs, below, loud) == Verdict::Speech <==> signs.len() > 0 && !below && loud
            && 100 * crossings(signs) < 15 * signs.len(),
{
}

/// A hop has a frame at least, and no more than one where the rate is so low that
/// twenty milliseconds hold less than one and a half.
pub proof fn law_hop_has_a_frame(rate: u32)
    ensures
        hop_len(rate) >= 1,
        rate < 75 ==> hop_len(rate) == 1,
{
    time::law_samples_of_a_time(20_000_000, rate as int);
}

} // verus!
