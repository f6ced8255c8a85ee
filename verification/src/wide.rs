//! Natural numbers of any size, for products that no machine integer holds.
use vstd::prelude::*;
use crate::text;

verus! {

/// One more than the largest digit.
pub const BASE: u128 = 0x1_0000_0000_0000_0000;

/// A natural number.
#[derive(Debug)]
pub struct Wide {
    /// Digits, the lowest first; leading zeros are allowed.
    pub digits: Vec<u64>,
}

/// The number that digits stand for.
pub open spec fn value_of(digits: Seq<u64>) -> nat
    decreases digits.len(),
{
    if digits.len() == 0 {
        0
    } else {
        digits[0] as nat + BASE as nat * value_of(digits.skip(1))
    }
}

/// What a digit at place `i` counts.
pub open spec fn weight(i: nat) -> nat
    decreases i,
{
    if i == 0 {
        1
    } else {
        BASE as nat * weight((i - 1) as nat)
    }
}

impl View for Wide {
    type V = nat;

    open spec fn view(&self) -> nat {
        value_of(self.digits@)
    }
}

/// A digit on top counts its weight.
proof fn lemma_push(digits: Seq<u64>, d: u64)
    ensures
        value_of(digits.push(d)) == value_of(digits) + d * weight(digits.len()),
    decreases digits.len(),
{
    let s = digits.push(d);
    if digits.len() == 0 {
        assert(s.skip(1) =~= Seq::empty());
        assert(value_of(s.skip(1)) == 0);
        assert(weight(digits.len()) == 1);
        assert(BASE as nat * 0 == 0);
        assert(s[0] == d);
    } else {
        let t = digits.skip(1);
        assert(s[0] == digits[0]);
        assert(weight(digits.len()) == BASE as nat * weight(t.len()));
        assert(s.skip(1) =~= t.push(d));
        lemma_push(t, d);
        let w = weight(t.len());
        assert(BASE * (value_of(t) + d * w) == BASE * value_of(t) + d * (BASE * w))
            by (nonlinear_arith);
    }
}

/// Lower digits never reach the weight of the next.
proof fn lemma_below(digits: Seq<u64>)
    ensures
        value_of(digits) < weight(digits.len()),
    decreases digits.len(),
{
    if digits.len() > 0 {
        let t = digits.skip(1);
        lemma_below(t);
        let v = value_of(t);
        let w = weight(t.len());
        assert(digits[0] + BASE * v < BASE * w) by (nonlinear_arith)
            requires
                v + 1 <= w,
                0 <= digits[0] < BASE,
        ;
    }
}

/// The digits up to place `i + 1`.
proof fn lemma_take(digits: Seq<u64>, i: int)
    requires
        0 <= i < digits.len(),
    ensures
        value_of(digits.take(i + 1)) == value_of(digits.take(i)) + digits[i] * weight(i as nat),
{
    assert(digits.take(i + 1) =~= digits.take(i).push(digits[i]));
    lemma_push(digits.take(i), digits[i]);
}

/// Digit `i`, with zeros above the highest.
pub open spec fn digit(digits: Seq<u64>, i: int) -> u64 {
    if 0 <= i < digits.len() {
        digits[i]
    } else {
        0
    }
}

/// The digits below place `i`, or all of them.
pub open spec fn lower(digits: Seq<u64>, i: int) -> nat {
    if i <= digits.len() {
        value_of(digits.take(i))
    } else {
        value_of(digits)
    }
}

proof fn lemma_lower(digits: Seq<u64>, i: int)
    requires
        0 <= i,
    ensures
        lower(digits, i + 1) == lower(digits, i) + digit(digits, i) * weight(i as nat),
        lower(digits, 0) == 0,
        i >= digits.len() ==> lower(digits, i) == value_of(digits),
        lower(digits, i) < weight(i as nat),
{
    assert(digits.take(0) =~= Seq::empty());
    assert(digits.take(digits.len() as int) =~= digits);
    if i < digits.len() {
        lemma_take(digits, i);
        lemma_below(digits.take(i));
    } else {
        lemma_below(digits);
        lemma_weights(digits.len(), i as nat);
        assert(0 * weight(i as nat) == 0) by (nonlinear_arith);
    }
}

proof fn lemma_weights(a: nat, b: nat)
    requires
        a <= b,
    ensures
        0 < weight(a) <= weight(b),
    decreases b,
{
    if b > 0 {
        if a < b {
            lemma_weights(a, (b - 1) as nat);
            let w = weight((b - 1) as nat);
            assert(w <= BASE * w) by (nonlinear_arith)
                requires
                    w > 0,
                    BASE >= 1,
            ;
        } else {
            lemma_weights((a - 1) as nat, (b - 1) as nat);
            let w = weight((b - 1) as nat);
            assert(0 < BASE * w) by (nonlinear_arith)
                requires
                    w > 0,
                    BASE >= 1,
            ;
        }
    }
}

impl Wide {
    pub fn of(x: u128) -> (r: Wide)
        ensures
            r@ == x,
    {
        let low: u64 = (x % 0x1_0000_0000_0000_0000) as u64;
        let high: u64 = (x / 0x1_0000_0000_0000_0000) as u64;
        let mut digits: Vec<u64> = Vec::new();
        digits.push(low);
        digits.push(high);
        proof {
            assert(digits@.skip(1).skip(1) =~= Seq::empty());
            assert(value_of(digits@.skip(1).skip(1)) == 0);
            assert(digits@.skip(1)[0] == high);
            assert(value_of(digits@.skip(1)) == high);
        }
        Wide { digits }
    }

    fn digit_at(&self, i: usize) -> (r: u64)
        ensures
            r == digit(self.digits@, i as int),
    {
        if i < self.digits.len() {
            self.digits[i]
        } else {
            0
        }
    }

    fn places(&self, other: &Wide) -> (r: usize)
        ensures
            r >= self.digits@.len(),
            r >= other.digits@.len(),
            r == self.digits@.len() || r == other.digits@.len(),
    {
        if self.digits.len() >= other.digits.len() {
            self.digits.len()
        } else {
            other.digits.len()
        }
    }

    /// The sum of two numbers.
    pub fn plus(&self, other: &Wide) -> (r: Wide)
        ensures
            r@ == self@ + other@,
    {
        let n: usize = self.places(other);
        let mut digits: Vec<u64> = Vec::new();
        let mut carry: u128 = 0;
        let mut i: usize = 0;
        let ghost a = self.digits@;
        let ghost b = other.digits@;
        proof {
            lemma_lower(a, 0);
            lemma_lower(b, 0);
        }
        while i < n
            invariant
                i <= n,
                a == self.digits@,
                b == other.digits@,
                digits@.len() == i,
                carry <= 1,
                value_of(digits@) + carry * weight(i as nat) == lower(a, i as int) + lower(
                    b,
                    i as int,
                ),
            decreases n - i,
        {
            let x: u64 = self.digit_at(i);
            let y: u64 = other.digit_at(i);
            let sum: u128 = x as u128 + y as u128 + carry;
            let low: u64 = (sum % 0x1_0000_0000_0000_0000) as u64;
            let next: u128 = sum / 0x1_0000_0000_0000_0000;
            proof {
                lemma_lower(a, i as int);
                lemma_lower(b, i as int);
                lemma_push(digits@, low);
                let w = weight(i as nat);
                assert(low * w + next * (BASE * w) == x * w + y * w + carry * w)
                    by (nonlinear_arith)
                    requires
                        low + next * BASE == x + y + carry,
                ;
            }
            digits.push(low);
            carry = next;
            i += 1;
        }
        proof {
            lemma_lower(a, i as int);
            lemma_lower(b, i as int);
            lemma_push(digits@, carry as u64);
        }
        digits.push(carry as u64);
        Wide { digits }
    }

    /// Whether a number is at most another.
    pub fn at_most(&self, other: &Wide) -> (r: bool)
        ensures
            r == (self@ <= other@),
    {
        let n: usize = self.places(other);
        let ghost a = self.digits@;
        let ghost b = other.digits@;
        let mut i: usize = n;
        proof {
            lemma_lower(a, n as int);
            lemma_lower(b, n as int);
        }
        while i > 0
            invariant
                i <= n,
                a == self.digits@,
                b == other.digits@,
                self@ - lower(a, i as int) == other@ - lower(b, i as int),
            decreases i,
        {
            let x: u64 = self.digit_at(i - 1);
            let y: u64 = other.digit_at(i - 1);
            proof {
                lemma_lower(a, i - 1);
                lemma_lower(b, i - 1);
            }
            if x != y {
                proof {
                    let w = weight((i - 1) as nat);
                    if x < y {
                        assert(x * w + w <= y * w) by (nonlinear_arith)
                            requires
                                x + 1 <= y,
                                w >= 0,
                        ;
                    } else {
                        assert(y * w + w <= x * w) by (nonlinear_arith)
                            requires
                                y + 1 <= x,
                                w >= 0,
                        ;
                    }
                }
                return x < y;
            }
            i -= 1;
        }
        proof {
            lemma_lower(a, 0);
            lemma_lower(b, 0);
        }
        true
    }

    /// The difference of two numbers.
    pub fn minus(&self, other: &Wide) -> (r: Wide)
        requires
            other@ <= self@,
        ensures
            r@ == self@ - other@,
    {
        let n: usize = self.places(other);
        let mut digits: Vec<u64> = Vec::new();
        let mut borrow: u128 = 0;
        let mut i: usize = 0;
        let ghost a = self.digits@;
        let ghost b = other.digits@;
        proof {
            lemma_lower(a, 0);
            lemma_lower(b, 0);
        }
        while i < n
            invariant
                i <= n,
                a == self.digits@,
                b == other.digits@,
                digits@.len() == i,
                borrow <= 1,
                value_of(digits@) + lower(b, i as int) == lower(a, i as int) + borrow * weight(
                    i as nat,
                ),
            decreases n - i,
        {
            let x: u64 = self.digit_at(i);
            let y: u64 = other.digit_at(i);
            let need: u128 = y as u128 + borrow;
            let next: u128 = if (x as u128) < need {
                1
            } else {
                0
            };
            let low: u64 = (x as u128 + next * 0x1_0000_0000_0000_0000 - need) as u64;
            proof {
                lemma_lower(a, i as int);
                lemma_lower(b, i as int);
                lemma_push(digits@, low);
                let w = weight(i as nat);
                assert(low * w + y * w + borrow * w == x * w + next * (BASE * w))
                    by (nonlinear_arith)
                    requires
                        low + y + borrow == x + next * BASE,
                ;
            }
            digits.push(low);
            borrow = next;
            i += 1;
        }
        proof {
            lemma_lower(a, i as int);
            lemma_lower(b, i as int);
            lemma_below(digits@);
            let w = weight(i as nat);
            if borrow == 1 {
                assert(borrow * w == w) by (nonlinear_arith)
                    requires
                        borrow == 1,
                ;
            } else {
                assert(borrow * w == 0) by (nonlinear_arith)
                    requires
                        borrow == 0,
                ;
            }
        }
        Wide { digits }
    }

    /// The product with a machine integer, by doubling.
    pub fn times(&self, k: u128) -> (r: Wide)
        ensures
            r@ == self@ * k,
        decreases k,
    {
        if k == 0 {
            assert(self@ * 0 == 0) by (nonlinear_arith);
            return Wide::of(0);
        }
        let half: Wide = self.times(k / 2);
        let twice: Wide = half.plus(&half);
        proof {
            let v = self@ as int;
            let h = k as int / 2;
            assert(v * k == 2 * (v * h) + v * (k as int % 2)) by (nonlinear_arith)
                requires
                    k as int == 2 * h + k as int % 2,
            ;
        }
        if k % 2 == 0 {
            assert(self@ * (k as int % 2) == 0) by (nonlinear_arith)
                requires
                    k as int % 2 == 0,
            ;
            twice
        } else {
            assert(self@ * (k as int % 2) == self@) by (nonlinear_arith)
                requires
                    k as int % 2 == 1,
            ;
            twice.plus(self)
        }
    }

    /// The product, digit by digit from the highest down.
    pub fn multiplied(&self, other: &Wide) -> (r: Wide)
        ensures
            r@ == self@ * other@,
    {
        let mut i: usize = other.digits.len();
        let mut r: Wide = Wide::of(0);
        proof {
            assert(other.digits@.skip(i as int) =~= Seq::empty());
            assert(self@ * 0 == 0) by (nonlinear_arith);
        }
        while i > 0
            invariant
                i <= other.digits@.len(),
                r@ == self@ * value_of(other.digits@.skip(i as int)),
            decreases i,
        {
            let ghost rest = value_of(other.digits@.skip(i as int)) as int;
            i -= 1;
            let d: u64 = other.digits[i];
            proof {
                let tail = other.digits@.skip(i as int);
                assert(tail.skip(1) =~= other.digits@.skip(i + 1));
                assert(tail[0] == d);
                assert(self@ * (d + BASE * rest) == self@ * rest * BASE + self@ * d)
                    by (nonlinear_arith);
            }
            r = r.times(BASE).plus(&self.times(d as u128));
        }
        assert(other.digits@.skip(0) =~= other.digits@);
        r
    }

    /// The product with a power of ten.
    pub fn times_ten(&self, k: u32) -> (r: Wide)
        ensures
            r@ == self@ * vstd::arithmetic::power::pow(10, k as nat),
        decreases k,
    {
        reveal(vstd::arithmetic::power::pow);
        if k == 0 {
            assert(self@ * 1 == self@) by (nonlinear_arith);
            return self.plus(&Wide::of(0));
        }
        proof {
            let p = vstd::arithmetic::power::pow(10, (k - 1) as nat);
            assert(self@ * (10 * p) == self@ * p * 10) by (nonlinear_arith);
        }
        self.times_ten(k - 1).times(10)
    }

    /// Quotient and remainder, by doubling the divisor.
    pub fn over(&self, d: &Wide) -> (r: (Wide, Wide))
        requires
            d@ > 0,
        ensures
            self@ == r.0@ * d@ + r.1@,
            r.1@ < d@,
            r.0@ == self@ / d@,
            r.1@ == self@ % d@,
    {
        let (q, rest): (Wide, Wide) = self.divided(d);
        proof {
            vstd::arithmetic::div_mod::lemma_fundamental_div_mod_converse(
                self@ as int,
                d@ as int,
                q@ as int,
                rest@ as int,
            );
        }
        (q, rest)
    }

    fn divided(&self, d: &Wide) -> (r: (Wide, Wide))
        requires
            d@ > 0,
        ensures
            self@ == r.0@ * d@ + r.1@,
            r.1@ < d@,
        decreases (if self@ >= d@ { self@ - d@ + 1 } else { 0 }),
    {
        if !d.at_most(self) {
            assert(0 * d@ == 0) by (nonlinear_arith);
            return (Wide::of(0), self.minus(&Wide::of(0)));
        }
        let twice: Wide = d.plus(d);
        let (q, rest): (Wide, Wide) = self.divided(&twice);
        let double: Wide = q.plus(&q);
        proof {
            let (x, y) = (q@ as int, d@ as int);
            assert(x * (y + y) == (x + x) * y) by (nonlinear_arith);
            assert((x + x + 1) * y == (x + x) * y + y) by (nonlinear_arith);
        }
        if d.at_most(&rest) {
            (double.plus(&Wide::of(1)), rest.minus(d))
        } else {
            (double, rest)
        }
    }

    /// The number as a machine integer, if it is one.
    pub fn small(&self) -> (r: Option<u128>)
        ensures
            match r {
                Some(x) => x == self@,
                None => self@ > u128::MAX,
            },
    {
        let most: Wide = Wide::of(u128::MAX);
        if !self.at_most(&most) {
            return None;
        }
        let low: u64 = self.digit_at(0);
        let high: u64 = self.digit_at(1);
        proof {
            let a = self.digits@;
            lemma_lower(a, 0);
            lemma_lower(a, 1);
            assert(weight(0) == 1);
            assert(weight(1) == BASE) by {
                reveal_with_fuel(weight, 2);
            }
            lemma_two_digits(a);
        }
        Some(low as u128 + high as u128 * 0x1_0000_0000_0000_0000)
    }
}

/// A number below the weight of the third digit consists of the lower two.
proof fn lemma_two_digits(a: Seq<u64>)
    requires
        value_of(a) <= u128::MAX,
    ensures
        value_of(a) == digit(a, 0) + digit(a, 1) * BASE,
    decreases a.len(),
{
    lemma_lower(a, 0);
    lemma_lower(a, 1);
    lemma_lower(a, 2);
    reveal_with_fuel(weight, 3);
    assert(weight(1) == BASE);
    assert(weight(2) == BASE * BASE);
    assert(lower(a, 2) == digit(a, 0) + digit(a, 1) * BASE) by (nonlinear_arith)
        requires
            lower(a, 2) == lower(a, 1) + digit(a, 1) * weight(1),
            lower(a, 1) == digit(a, 0) * weight(0),
            weight(0) == 1,
            weight(1) == BASE,
    ;
    if a.len() > 2 {
        let t = a.drop_last();
        assert(t.push(a.last()) =~= a);
        lemma_push(t, a.last());
        if a.last() > 0 {
            lemma_weights(2, t.len());
            let w = weight(t.len());
            assert(a.last() * w >= BASE * BASE) by (nonlinear_arith)
                requires
                    a.last() >= 1,
                    w >= BASE * BASE,
            ;
            assert(BASE * BASE > u128::MAX) by (nonlinear_arith)
                requires
                    BASE == 0x1_0000_0000_0000_0000,
            ;
        } else {
            assert(a.last() * weight(t.len()) == 0) by (nonlinear_arith)
                requires
                    a.last() == 0,
            ;
        }
        lemma_two_digits(t);
    }
}

/// Appends a number in decimal.
pub fn push_natural(out: &mut String, n: &Wide)
    ensures
        final(out)@ == old(out)@ + text::decimal(n@),
    decreases n@,
{
    let ghost start = out@;
    if let Some(x) = n.small() {
        text::push_wide(out, x);
        return;
    }
    let (q, rest): (Wide, Wide) = n.over(&Wide::of(10));
    match rest.small() {
        Some(last) => {
            assert(n@ >= 10);
            push_natural(out, &q);
            text::push_wide(out, last);
            assert(out@ =~= start + text::decimal(n@));
        },
        None => {},
    }
}

} // verus!
