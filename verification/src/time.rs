//! Integer time: nanoseconds, sample counts and the rounding between them.
use vstd::prelude::*;

verus! {

pub const NS_PER_S: i64 = 1_000_000_000;

/// Times of up to 36 years in both directions, so that sums of a few of them
/// fit.
pub const TIME_LIMIT: i64 = 1_152_921_504_606_846_976;

pub open spec fn in_range(t: i64) -> bool {
    -TIME_LIMIT <= t <= TIME_LIMIT
}

/// Whether a time is one that the library computes with.
pub fn time_in_range(t: i64) -> (r: bool)
    ensures
        r == in_range(t),
{
    -TIME_LIMIT <= t && t <= TIME_LIMIT
}

/// `n / d` to the nearest integer, halves away from zero.
pub open spec fn round_div(n: int, d: int) -> int {
    if n >= 0 {
        (2 * n + d) / (2 * d)
    } else {
        -((d - 2 * n) / (2 * d))
    }
}

/// The number of samples nearest to a time.
pub open spec fn to_samples(ns: int, rate: int) -> int {
    round_div(ns * rate, NS_PER_S as int)
}

/// The time nearest to a number of samples.
pub open spec fn to_ns(samples: int, rate: int) -> int {
    round_div(samples * NS_PER_S, rate)
}

pub open spec fn abs(x: int) -> int {
    if x < 0 {
        -x
    } else {
        x
    }
}

pub open spec fn min2(a: int, b: int) -> int {
    if a <= b {
        a
    } else {
        b
    }
}

pub open spec fn max2(a: int, b: int) -> int {
    if a >= b {
        a
    } else {
        b
    }
}

pub fn min_i64(a: i64, b: i64) -> (r: i64)
    ensures
        r == min2(a as int, b as int),
{
    if a <= b {
        a
    } else {
        b
    }
}

pub fn max_i64(a: i64, b: i64) -> (r: i64)
    ensures
        r == max2(a as int, b as int),
{
    if a >= b {
        a
    } else {
        b
    }
}

pub fn abs_i64(a: i64) -> (r: i64)
    requires
        a > i64::MIN,
    ensures
        r == abs(a as int),
{
    if a < 0 {
        -a
    } else {
        a
    }
}

/// Half of a sum, rounded down.
pub fn half_floor(x: i64) -> (r: i64)
    ensures
        r == x as int / 2,
{
    if x >= 0 {
        x / 2
    } else if x % 2 == 0 {
        x / 2
    } else {
        x / 2 - 1
    }
}

/// Rounding moves a quotient by at most one half: for a positive divisor,
/// `2 * |n - r * d| <= d`, and it keeps integer bounds.
pub proof fn lemma_round_div(n: int, d: int)
    requires
        d > 0,
    ensures
        2 * (n - round_div(n, d) * d) <= d,
        2 * (round_div(n, d) * d - n) <= d,
        n >= 0 ==> round_div(n, d) >= 0,
        n <= 0 ==> round_div(n, d) <= 0,
{
    let q = round_div(n, d);
    if n >= 0 {
        lemma_div_facts(2 * n + d, 2 * d);
        assert(q * d * 2 == (2 * d) * q) by (nonlinear_arith);
        if n == 0 {
            vstd::arithmetic::div_mod::lemma_basic_div(d, 2 * d);
        }
    } else {
        lemma_div_facts(d - 2 * n, 2 * d);
        let p = (d - 2 * n) / (2 * d);
        assert(q * d * 2 == -((2 * d) * p)) by (nonlinear_arith)
            requires
                q == -p,
        ;
    }
}

proof fn lemma_div_facts(x: int, m: int)
    requires
        x >= 0,
        m > 0,
    ensures
        m * (x / m) <= x < m * (x / m) + m,
        x / m >= 0,
{
    vstd::arithmetic::div_mod::lemma_fundamental_div_mod(x, m);
    vstd::arithmetic::div_mod::lemma_mod_bound(x, m);
    vstd::arithmetic::div_mod::lemma_div_pos_is_pos(x, m);
}

/// A quotient between two integers rounds to a number between them.
pub proof fn lemma_round_div_bounds(n: int, d: int, lo: int, hi: int)
    requires
        d > 0,
        lo * d <= n <= hi * d,
    ensures
        lo <= round_div(n, d) <= hi,
{
    lemma_round_div(n, d);
    let q = round_div(n, d);
    if q < lo {
        assert(q * d <= (lo - 1) * d) by (nonlinear_arith)
            requires
                q <= lo - 1,
                d > 0,
        ;
        assert((lo - 1) * d == lo * d - d) by (nonlinear_arith);
    }
    if q > hi {
        assert(q * d >= (hi + 1) * d) by (nonlinear_arith)
            requires
                q >= hi + 1,
                d > 0,
        ;
        assert((hi + 1) * d == hi * d + d) by (nonlinear_arith);
    }
}

/// `n / d` to the nearest integer, halves away from zero.
pub fn div_round(n: i128, d: i128) -> (r: i128)
    requires
        0 < d <= 0x1_0000_0000_0000_0000,
        -0x1000_0000_0000_0000_0000_0000_0000_0000 <= n
            <= 0x1000_0000_0000_0000_0000_0000_0000_0000,
    ensures
        r == round_div(n as int, d as int),
{
    if n >= 0 {
        (2 * n + d) / (2 * d)
    } else {
        -((d - 2 * n) / (2 * d))
    }
}

/// The number of samples nearest to a time.
pub fn samples_of(ns: i64, rate: u32) -> (r: i64)
    requires
        in_range(ns),
    ensures
        r == to_samples(ns as int, rate as int),
        -TIME_LIMIT * 5 <= r <= TIME_LIMIT * 5,
        ns >= 0 ==> r >= 0,
{
    proof {
        assert(-TIME_LIMIT * 0xffff_ffff <= ns * rate <= TIME_LIMIT * 0xffff_ffff) by (nonlinear_arith)
            requires
                -TIME_LIMIT <= ns <= TIME_LIMIT,
                0 <= rate <= 0xffff_ffff,
                TIME_LIMIT > 0,
        ;
        assert(ns >= 0 ==> ns * rate >= 0) by (nonlinear_arith)
            requires
                rate >= 0,
        ;
        lemma_round_div(ns * rate, NS_PER_S as int);
        lemma_round_div_bounds(
            ns * rate,
            NS_PER_S as int,
            -TIME_LIMIT * 5,
            TIME_LIMIT * 5,
        );
    }
    div_round(ns as i128 * rate as i128, NS_PER_S as i128) as i64
}

/// The time nearest to a number of samples, if an `i64` holds it.
pub fn ns_of(samples: i64, rate: u32) -> (r: Option<i64>)
    requires
        rate > 0,
    ensures
        match r {
            Some(t) => t == to_ns(samples as int, rate as int),
            None => to_ns(samples as int, rate as int) > i64::MAX || to_ns(
                samples as int,
                rate as int,
            ) < i64::MIN,
        },
{
    let t: i128 = div_round(samples as i128 * 1_000_000_000, rate as i128);
    if t > i64::MAX as i128 || t < i64::MIN as i128 {
        None
    } else {
        Some(t as i64)
    }
}

/// Rounding goes to the nearest integer, and from the middle between two away
/// from zero.
pub proof fn law_rounding(n: int, d: int)
    requires
        d > 0,
    ensures
        2 * (n - round_div(n, d) * d) <= d,
        2 * (round_div(n, d) * d - n) <= d,
        2 * (n - round_div(n, d) * d) == d ==> n < 0,
        2 * (round_div(n, d) * d - n) == d ==> n > 0,
{
    lemma_round_div(n, d);
    let q = round_div(n, d);
    if n >= 0 {
        lemma_div_facts(2 * n + d, 2 * d);
        assert(q * d * 2 == (2 * d) * q) by (nonlinear_arith);
        if n == 0 {
            assert(q * d == 0) by (nonlinear_arith)
                requires
                    q == 0,
            ;
        }
    } else {
        let p = (d - 2 * n) / (2 * d);
        lemma_div_facts(d - 2 * n, 2 * d);
        assert(q * d * 2 == -((2 * d) * p)) by (nonlinear_arith)
            requires
                q == -p,
        ;
    }
}

/// A time and the number of samples that stands for it are at most half a
/// sample apart.
pub proof fn law_samples_of_a_time(ns: int, rate: int)
    ensures
        -1_000_000_000 <= 2 * (to_samples(ns, rate) * 1_000_000_000 - ns * rate) <= 1_000_000_000,
{
    law_rounding(ns * rate, 1_000_000_000);
}

/// A number of samples and the time that stands for it are at most half a
/// nanosecond apart.
pub proof fn law_time_of_samples(samples: int, rate: int)
    requires
        rate > 0,
    ensures
        -rate <= 2 * (to_ns(samples, rate) * rate - samples * 1_000_000_000) <= rate,
{
    law_rounding(samples * 1_000_000_000, rate);
}

/// The size of a number, and the smaller and the larger of two.
pub proof fn law_sizes(a: int, b: int)
    ensures
        abs(a) >= 0 && (abs(a) == a || abs(a) == -a),
        min2(a, b) <= a && min2(a, b) <= b && (min2(a, b) == a || min2(a, b) == b),
        max2(a, b) >= a && max2(a, b) >= b && (max2(a, b) == a || max2(a, b) == b),
{
}

} // verus!
