//! Frame rates, and ratios of them, as exact fractions.
use vstd::prelude::*;
use crate::wide::Wide;

verus! {

/// Frames per second: `num / den * 10^tens`.
#[derive(Clone, Copy, Debug, PartialEq, Eq, Structural)]
pub struct FrameRate {
    pub num: u128,
    pub den: u128,
    pub tens: i32,
}

/// Ten to the power of `tens`, as far as it is a whole number.
pub open spec fn power(tens: int) -> int {
    vstd::arithmetic::power::pow(
        10,
        if tens > 0 {
            tens as nat
        } else {
            0
        },
    )
}

pub proof fn lemma_power(tens: int)
    ensures
        power(tens) > 0,
        tens <= 0 ==> power(tens) == 1,
{
    vstd::arithmetic::power::lemma_pow_positive(
        10,
        if tens > 0 {
            tens as nat
        } else {
            0
        },
    );
    vstd::arithmetic::power::lemma_pow0(10);
}

/// The size of a power of ten that is a whole number.
fn zeros(tens: i32, up: bool) -> (r: u32)
    ensures
        vstd::arithmetic::power::pow(10, r as nat) == power(
            if up {
                tens as int
            } else {
                -(tens as int)
            },
        ),
{
    if up && tens > 0 {
        tens as u32
    } else if !up && tens < 0 {
        (-(tens as i64)) as u32
    } else {
        0
    }
}

impl FrameRate {
    /// A rate above zero.
    pub open spec fn wf(&self) -> bool {
        0 < self.num && 0 < self.den
    }

    /// The rate as a fraction of whole numbers: what stands above.
    pub open spec fn top(&self) -> int {
        self.num * power(self.tens as int)
    }

    /// What stands below.
    pub open spec fn bottom(&self) -> int {
        self.den * power(-(self.tens as int))
    }

    pub proof fn lemma_parts(&self)
        ensures
            0 <= self.top(),
            0 <= self.bottom(),
            self.top() > 0 <==> self.num > 0,
            self.bottom() > 0 <==> self.den > 0,
    {
        lemma_power(self.tens as int);
        lemma_power(-(self.tens as int));
        lemma_sign(self.num as int, power(self.tens as int));
        lemma_sign(self.den as int, power(-(self.tens as int)));
    }

    /// Both parts of the fraction.
    pub fn parts(&self) -> (r: (Wide, Wide))
        ensures
            r.0@ == self.top(),
            r.1@ == self.bottom(),
    {
        proof {
            self.lemma_parts();
        }
        (
            Wide::of(self.num).times_ten(zeros(self.tens, true)),
            Wide::of(self.den).times_ten(zeros(self.tens, false)),
        )
    }
}

/// A product with a positive number is above zero if the other factor is.
proof fn lemma_sign(a: int, b: int)
    requires
        a >= 0,
        b > 0,
    ensures
        a * b >= 0,
        a * b > 0 <==> a > 0,
{
    assert(a * b >= 0) by (nonlinear_arith)
        requires
            a >= 0,
            b > 0,
    ;
    assert(a > 0 ==> a * b > 0) by (nonlinear_arith)
        requires
            b > 0,
    ;
    assert(0 * b == 0) by (nonlinear_arith);
}

/// By how much audio is stretched.
#[derive(Clone, Copy, Debug, PartialEq, Eq, Structural)]
pub enum Ratio {
    /// Given, in billionths.
    Nano(i64),
    /// The donor's frame rate over the master's.
    Rates { donor: FrameRate, master: FrameRate },
}

impl Ratio {
    pub open spec fn num(&self) -> int {
        match *self {
            Ratio::Nano(r) => r as int,
            Ratio::Rates { donor, master } => donor.top() * master.bottom(),
        }
    }

    pub open spec fn den(&self) -> int {
        match *self {
            Ratio::Nano(_) => 1_000_000_000,
            Ratio::Rates { donor, master } => donor.bottom() * master.top(),
        }
    }

    /// Whether the ratio is below zero, the size of its numerator, and its
    /// denominator.
    pub fn parts(&self) -> (r: (bool, Wide, Wide))
        ensures
            r.0 == (self.num() < 0),
            r.1@ == if self.num() < 0 {
                -self.num()
            } else {
                self.num()
            },
            r.2@ == self.den(),
    {
        match self {
            Ratio::Nano(ratio) => (*ratio < 0, Wide::of(size_of(*ratio)), Wide::of(1_000_000_000)),
            Ratio::Rates { donor, master } => {
                let (a, b): (Wide, Wide) = donor.parts();
                let (c, d): (Wide, Wide) = master.parts();
                assert(a@ * d@ >= 0) by (nonlinear_arith);
                (false, a.multiplied(&d), b.multiplied(&c))
            },
        }
    }
}

/// A number without its sign.
pub fn size_of(x: i64) -> (r: u128)
    ensures
        r == if x < 0 {
            -(x as int)
        } else {
            x as int
        },
{
    if x < 0 {
        (-(x as i128)) as u128
    } else {
        x as u128
    }
}

/// What is known of the donor's frame rate.
#[derive(Clone, Copy, Debug, PartialEq, Eq, Structural)]
pub enum DonorRate {
    Found(FrameRate),
    /// What a given ratio, in billionths, makes of the master's.
    Implied { master: FrameRate, ratio_nano: i64 },
}

impl DonorRate {
    pub open spec fn num(&self) -> int {
        match *self {
            DonorRate::Found(f) => f.top(),
            DonorRate::Implied { master, ratio_nano } => master.top() * ratio_nano,
        }
    }

    pub open spec fn den(&self) -> int {
        match *self {
            DonorRate::Found(f) => f.bottom(),
            DonorRate::Implied { master, .. } => master.bottom() * 1_000_000_000,
        }
    }

    /// Whether the rate is below zero, the size of its numerator, and its
    /// denominator.
    pub fn parts(&self) -> (r: (bool, Wide, Wide))
        ensures
            r.0 == (self.num() < 0),
            r.1@ == if self.num() < 0 {
                -self.num()
            } else {
                self.num()
            },
            r.2@ == self.den(),
    {
        match self {
            DonorRate::Found(f) => {
                let (n, d): (Wide, Wide) = f.parts();
                (false, n, d)
            },
            DonorRate::Implied { master, ratio_nano } => {
                let size: u128 = size_of(*ratio_nano);
                proof {
                    let (m, r) = (master.top(), *ratio_nano as int);
                    master.lemma_parts();
                    assert(m > 0 && r < 0 ==> m * r < 0) by (nonlinear_arith);
                    assert(m == 0 || r >= 0 ==> m * r >= 0) by (nonlinear_arith)
                        requires
                            m >= 0,
                    ;
                    assert(m == 0 ==> m * r == 0) by (nonlinear_arith);
                    assert(m * (-r) == -(m * r)) by (nonlinear_arith);
                }
                let (n, d): (Wide, Wide) = master.parts();
                (*ratio_nano < 0 && master.num > 0, n.times(size), d.times(1_000_000_000))
            },
        }
    }
}

/// A rate is `num / den`, its numerator or its denominator lengthened by the
/// zeros of its power of ten.
pub proof fn law_rate_is_its_fraction(f: FrameRate)
    ensures
        f.tens == 0 ==> f.top() == f.num && f.bottom() == f.den,
        f.tens >= 0 ==> f.bottom() == f.den && f.top() == f.num * vstd::arithmetic::power::pow(
            10,
            f.tens as nat,
        ),
        f.tens <= 0 ==> f.top() == f.num && f.bottom() == f.den * vstd::arithmetic::power::pow(
            10,
            (-f.tens) as nat,
        ),
{
    vstd::arithmetic::power::lemma_pow0(10);
    assert(f.num * 1 == f.num && f.den * 1 == f.den) by (nonlinear_arith);
}

/// The ratio of two rates is the donor's over the master's: times the master's
/// rate it is the donor's.
pub proof fn law_ratio_of_rates(donor: FrameRate, master: FrameRate)
    ensures
        ({
            let r = Ratio::Rates { donor, master };
            r.num() * (master.top() * donor.bottom()) == r.den() * (donor.top() * master.bottom())
        }),
        donor.wf() && master.wf() ==> (Ratio::Rates { donor, master }).den() > 0 && (
        Ratio::Rates { donor, master }).num() > 0,
{
    donor.lemma_parts();
    master.lemma_parts();
    let (a, b, c, d) = (donor.top(), donor.bottom(), master.top(), master.bottom());
    assert((a * d) * (c * b) == (b * c) * (a * d)) by (nonlinear_arith);
    assert(a > 0 && d > 0 ==> a * d > 0) by (nonlinear_arith);
    assert(b > 0 && c > 0 ==> b * c > 0) by (nonlinear_arith);
}

/// A ratio that is given is that many billionths.
pub proof fn law_given_ratio(nano: i64)
    ensures
        Ratio::Nano(nano).num() * 1_000_000_000 == nano * Ratio::Nano(nano).den(),
        Ratio::Nano(nano).den() > 0,
{
}

/// A donor's rate that was found is itself; one that a ratio implies is the
/// master's times the ratio.
pub proof fn law_donor_rate(found: FrameRate, master: FrameRate, nano: i64)
    ensures
        DonorRate::Found(found).num() * found.bottom() == DonorRate::Found(found).den()
            * found.top(),
        ({
            let d = DonorRate::Implied { master, ratio_nano: nano };
            d.num() * (master.bottom() * 1_000_000_000) == d.den() * (master.top() * nano)
        }),
{
    assert(found.top() * found.bottom() == found.bottom() * found.top()) by (nonlinear_arith);
    let (a, b) = (master.top(), master.bottom());
    assert((a * nano) * (b * 1_000_000_000) == (b * 1_000_000_000) * (a * nano))
        by (nonlinear_arith);
}

} // verus!
