//! The geometry of a phase-correlation search: transform length, peak and the
//! guard around it. The transform itself is the caller's.
use vstd::prelude::*;
use crate::time;

verus! {

/// Half the width of the guard around a peak, whose samples do not count as
/// noise.
pub const PSR_GUARD_NS: i64 = 20_000_000;

/// Where the best match starts in the donor slice, and how sharp it is.
#[derive(Clone, Copy, Debug)]
pub struct PhatResult {
    pub donor_offset_in_slice: u64,
    pub confidence: i64,
}

pub open spec fn is_power_of_two(n: int) -> bool {
    exists|k: nat| n == #[trigger] vstd::arithmetic::power2::pow2(k)
}

/// The transform length for two signals: the least power of two that holds
/// both, so that the correlation does not wrap round.
pub fn transform_len(master_len: u64, donor_len: u64) -> (r: u64)
    requires
        master_len <= time::TIME_LIMIT,
        donor_len <= time::TIME_LIMIT,
    ensures
        is_power_of_two(r as int),
        r >= master_len + donor_len,
        forall|n: int|
            is_power_of_two(n) && n >= master_len + donor_len ==> r <= n,
{
    let need: u64 = master_len + donor_len;
    let mut r: u64 = 1;
    let ghost mut k: nat = 0;
    proof {
        vstd::arithmetic::power2::lemma2_to64();
    }
    while r < need
        invariant
            need <= 2 * time::TIME_LIMIT,
            r == vstd::arithmetic::power2::pow2(k),
            0 < r <= 4 * time::TIME_LIMIT,
            k == 0 || vstd::arithmetic::power2::pow2((k - 1) as nat) < need,
            r < need ==> r <= 2 * time::TIME_LIMIT,
        decreases 4 * time::TIME_LIMIT - r,
    {
        proof {
            vstd::arithmetic::power2::lemma_pow2_unfold(k + 1);
            k = k + 1;
        }
        r = r * 2;
    }
    proof {
        assert forall|n: int| is_power_of_two(n) && n >= need implies r <= n by {
            let j = choose|j: nat| n == #[trigger] vstd::arithmetic::power2::pow2(j);
            if j < k {
                if j < k - 1 {
                    vstd::arithmetic::power2::lemma_pow2_strictly_increases(j, (k - 1) as nat);
                }
            } else if j > k {
                vstd::arithmetic::power2::lemma_pow2_strictly_increases(k, j);
            } else {
            }
            if k == 0 {
                vstd::arithmetic::power2::lemma_pow2_pos(j);
            }
        }
    }
    r
}

/// `k` is the first of the largest values.
pub open spec fn is_first_largest(values: Seq<i64>, k: int) -> bool {
    &&& 0 <= k < values.len()
    &&& forall|j: int| 0 <= j < values.len() ==> #[trigger] values[j] <= values[k]
    &&& forall|j: int| 0 <= j < k ==> #[trigger] values[j] < values[k]
}

/// The peak of a response: the first of its largest values. The values may be
/// on any scale that keeps their order.
pub fn peak_index(values: &Vec<i64>) -> (r: usize)
    requires
        values@.len() > 0,
    ensures
        is_first_largest(values@, r as int),
{
    let mut best: usize = 0;
    let mut k: usize = 1;
    while k < values.len()
        invariant
            best < k <= values@.len(),
            forall|j: int| 0 <= j < k ==> #[trigger] values@[j] <= values@[best as int],
            forall|j: int| 0 <= j < best ==> #[trigger] values@[j] < values@[best as int],
        decreases values@.len() - k,
    {
        if values[k] > values[best] {
            best = k;
        }
        k += 1;
    }
    best
}

/// The guard around a peak, both ends included, among the values `0..=max_k`.
pub open spec fn guard_of(peak: int, max_k: int, rate: int) -> (int, int) {
    let guard = time::to_samples(PSR_GUARD_NS as int, rate);
    (time::max2(peak - guard, 0), time::min2(peak + guard, max_k))
}

pub fn guard_range(peak: u64, max_k: u64, rate: u32) -> (r: (u64, u64))
    requires
        peak <= max_k <= time::TIME_LIMIT,
    ensures
        r.0 == guard_of(peak as int, max_k as int, rate as int).0,
        r.1 == guard_of(peak as int, max_k as int, rate as int).1,
        r.0 <= peak <= r.1 <= max_k,
{
    let guard: i64 = time::samples_of(PSR_GUARD_NS, rate);
    let lo: i64 = time::max_i64(peak as i64 - guard, 0);
    let room: i64 = (max_k - peak) as i64;
    let hi: i64 = if guard <= room {
        peak as i64 + guard
    } else {
        max_k as i64
    };
    (lo as u64, hi as u64)
}

/// The guard is twenty milliseconds to either side of the peak, to half a
/// sample, as far as there are values.
pub proof fn law_guard_is_around_the_peak(peak: int, max_k: int, rate: int)
    requires
        0 <= peak <= max_k,
        rate >= 0,
    ensures
        ({
            let (lo, hi) = guard_of(peak, max_k, rate);
            let unit: int = 1_000_000_000;
            &&& 0 <= lo <= peak <= hi <= max_k
            &&& lo == 0 && 2 * (20_000_000 * rate - peak * unit) >= -unit || -unit <= 2 * ((peak - lo)
                * unit - 20_000_000 * rate) <= unit
            &&& hi == max_k && 2 * (20_000_000 * rate - (max_k - peak) * unit) >= -unit || -unit <= 2
                * ((hi - peak) * unit - 20_000_000 * rate) <= unit
        }),
{
    time::law_samples_of_a_time(20_000_000, rate);
}

/// No value is larger than the peak, and none before it is as large.
pub proof fn law_peak_is_the_largest(values: Seq<i64>, k: int, j: int)
    requires
        is_first_largest(values, k),
        0 <= j < values.len(),
    ensures
        0 <= k < values.len(),
        values[j] <= values[k],
        values[j] == values[k] ==> k <= j,
{
}

} // verus!
