//! Decimal fractions with a fixed number of places.
use vstd::prelude::*;
use crate::number;
use crate::text;
use crate::wide;
use crate::wide::Wide;

verus! {

/// `n / d` to the nearest integer, halves to the even one.
pub open spec fn round_even(n: int, d: int) -> int {
    let q = n / d;
    let r = n % d;
    if 2 * r < d || (2 * r == d && q % 2 == 0) {
        q
    } else {
        q + 1
    }
}

pub fn round_even_of(n: u128, d: u128) -> (r: u128)
    requires
        0 < d <= 0x7fff_ffff_ffff_ffff_ffff_ffff_ffff_ffff,
    ensures
        r == round_even(n as int, d as int),
{
    let q: u128 = n / d;
    let rest: u128 = n % d;
    proof {
        vstd::arithmetic::div_mod::lemma_mod_bound(n as int, d as int);
        if d == 1 {
            assert(rest == 0);
        } else {
            vstd::arithmetic::div_mod::lemma_div_is_ordered_by_denominator(n as int, 2, d as int);
        }
    }
    if 2 * rest < d || (2 * rest == d && q % 2 == 0) {
        q
    } else {
        q + 1
    }
}

/// `n` units of one `unit`-th, written with `places` places: `unit` is ten to
/// the power of `places`.
pub open spec fn fixed(n: int, unit: int, places: nat) -> Seq<char> {
    text::decimal((n / unit) as nat) + seq!['.'] + text::zero_pad(
        text::decimal((n % unit) as nat),
        places,
    )
}

/// A signed time in seconds with three places.
pub open spec fn seconds3(ns: int) -> Seq<char> {
    signed_fixed(ns, 1_000_000, 1000, 3)
}

/// A signed time in seconds with two places.
pub open spec fn seconds2(ns: int) -> Seq<char> {
    signed_fixed(ns, 10_000_000, 100, 2)
}

/// A signed time in seconds with six places.
pub open spec fn seconds6(ns: int) -> Seq<char> {
    signed_fixed(ns, 1000, 1_000_000, 6)
}

/// A signed time in seconds with one place.
pub open spec fn seconds1(ns: int) -> Seq<char> {
    signed_fixed(ns, 100_000_000, 10, 1)
}

/// A time in whole seconds.
pub open spec fn seconds0(ns: int) -> Seq<char> {
    if ns < 0 {
        seq!['-'] + text::decimal(round_even(-ns, 1_000_000_000) as nat)
    } else {
        text::decimal(round_even(ns, 1_000_000_000) as nat)
    }
}

/// A time in seconds with three places and always a sign.
pub open spec fn plus_seconds3(ns: int) -> Seq<char> {
    if ns < 0 {
        seconds3(ns)
    } else {
        seq!['+'] + seconds3(ns)
    }
}

/// Without the zeros at its end.
pub open spec fn strip_zeros(s: Seq<char>) -> Seq<char>
    decreases s.len(),
{
    if s.len() > 0 && s.last() == '0' {
        strip_zeros(s.drop_last())
    } else {
        s
    }
}

/// `n` units of one `unit`-th with as many places as it takes, at most
/// `places`: `unit` is ten to the power of `places`.
pub open spec fn plain(n: int, unit: int, places: nat) -> Seq<char> {
    let a = if n < 0 {
        -n
    } else {
        n
    };
    (if n < 0 {
        seq!['-']
    } else {
        Seq::empty()
    }) + text::decimal((a / unit) as nat) + (if a % unit == 0 {
        Seq::empty()
    } else {
        seq!['.'] + strip_zeros(text::zero_pad(text::decimal((a % unit) as nat), places))
    })
}

/// A time in seconds with as many places as it takes.
pub open spec fn seconds(ns: int) -> Seq<char> {
    plain(ns, 1_000_000_000, 9)
}

/// `ns` rounded to steps of `step`, `unit` steps to the second.
pub open spec fn signed_fixed(ns: int, step: int, unit: int, places: nat) -> Seq<char> {
    if ns < 0 {
        seq!['-'] + fixed(round_even(-ns, step), unit, places)
    } else {
        fixed(round_even(ns, step), unit, places)
    }
}

pub fn push_fixed(out: &mut String, n: u128, unit: u64, places: usize)
    requires
        unit > 0,
    ensures
        final(out)@ == old(out)@ + fixed(n as int, unit as int, places as nat),
{
    let ghost start = out@;
    text::push_wide(out, n / unit as u128);
    out.push('.');
    text::push_padded(out, (n % unit as u128) as u64, places);
    assert(out@ =~= start + fixed(n as int, unit as int, places as nat));
}

pub fn push_signed(out: &mut String, ns: i128, step: u64, unit: u64, places: usize)
    requires
        step > 0,
        unit > 0,
    ensures
        final(out)@ == old(out)@ + signed_fixed(ns as int, step as int, unit as int, places as nat),
{
    let ghost start = out@;
    let size: u128 = if ns < 0 {
        out.push('-');
        if ns == i128::MIN {
            0x8000_0000_0000_0000_0000_0000_0000_0000
        } else {
            (-ns) as u128
        }
    } else {
        ns as u128
    };
    let ghost signed = out@;
    let n: u128 = round_even_of(size, step as u128);
    push_fixed(out, n, unit, places);
    assert(out@ =~= start + signed_fixed(ns as int, step as int, unit as int, places as nat));
}

/// A quotient with a number of places. Over zero it is without bound, or no
/// number at all.
pub open spec fn fraction(n: int, d: int, unit: int, places: nat) -> Seq<char> {
    if d == 0 {
        if n < 0 {
            "-inf"@
        } else if n > 0 {
            "inf"@
        } else {
            "NaN"@
        }
    } else if n < 0 {
        seq!['-'] + fixed(round_even(-n * unit, d), unit, places)
    } else {
        fixed(round_even(n * unit, d), unit, places)
    }
}

/// [`round_even`] for numbers of any size.
pub fn round_even_wide(n: &Wide, d: &Wide) -> (r: Wide)
    requires
        d@ > 0,
    ensures
        r@ == round_even(n@ as int, d@ as int),
{
    let (q, rest): (Wide, Wide) = n.over(d);
    let twice: Wide = rest.plus(&rest);
    if !d.at_most(&twice) {
        return q;
    }
    let (_, odd): (Wide, Wide) = q.over(&Wide::of(2));
    if twice.at_most(d) && odd.at_most(&Wide::of(0)) {
        q
    } else {
        q.plus(&Wide::of(1))
    }
}

/// Appends the quotient of two numbers, `negative` if it is below zero.
pub fn push_fraction(out: &mut String, negative: bool, n: &Wide, d: &Wide, unit: u64, places: usize)
    requires
        unit > 0,
        negative ==> n@ > 0,
    ensures
        final(out)@ == old(out)@ + fraction(
            if negative {
                -(n@ as int)
            } else {
                n@ as int
            },
            d@ as int,
            unit as int,
            places as nat,
        ),
{
    let ghost start = out@;
    let zero: Wide = Wide::of(0);
    if d.at_most(&zero) {
        out.append(
            if negative {
                "-inf"
            } else if n.at_most(&zero) {
                "NaN"
            } else {
                "inf"
            },
        );
        return;
    }
    if negative {
        out.push('-');
    }
    let q: Wide = round_even_wide(&n.times(unit as u128), d);
    let (whole, rest): (Wide, Wide) = q.over(&Wide::of(unit as u128));
    wide::push_natural(out, &whole);
    out.push('.');
    match rest.small() {
        Some(r) => {
            text::push_padded(out, r as u64, places);
        },
        None => {},
    }
    assert(out@ =~= start + fraction(
        if negative {
            -(n@ as int)
        } else {
            n@ as int
        },
        d@ as int,
        unit as int,
        places as nat,
    ));
}

/// Appends a time in seconds with three places.
pub fn push_seconds3(out: &mut String, ns: i64)
    ensures
        final(out)@ == old(out)@ + seconds3(ns as int),
{
    push_signed(out, ns as i128, 1_000_000, 1000, 3)
}

/// Appends a time in seconds with two places.
pub fn push_seconds2(out: &mut String, ns: i64)
    ensures
        final(out)@ == old(out)@ + seconds2(ns as int),
{
    push_signed(out, ns as i128, 10_000_000, 100, 2)
}

/// Appends a time in seconds with one place.
pub fn push_seconds1(out: &mut String, ns: i64)
    ensures
        final(out)@ == old(out)@ + seconds1(ns as int),
{
    push_signed(out, ns as i128, 100_000_000, 10, 1)
}

/// Appends a time in whole seconds.
pub fn push_seconds0(out: &mut String, ns: i64)
    ensures
        final(out)@ == old(out)@ + seconds0(ns as int),
{
    let ghost start = out@;
    let size: u128 = if ns < 0 {
        out.push('-');
        -(ns as i128) as u128
    } else {
        ns as u128
    };
    let n: u128 = round_even_of(size, 1_000_000_000);
    text::push_decimal(out, n as u64);
    assert(out@ =~= start + seconds0(ns as int));
}

/// Appends a time in seconds with three places and its sign.
pub fn push_plus_seconds3(out: &mut String, ns: i64)
    ensures
        final(out)@ == old(out)@ + plus_seconds3(ns as int),
{
    let ghost start = out@;
    if ns >= 0 {
        out.push('+');
    }
    push_seconds3(out, ns);
    assert(out@ =~= start + plus_seconds3(ns as int));
}

/// Appends `n` units of one `unit`-th with as many places as it takes.
pub fn push_plain(out: &mut String, n: i64, unit: u64, places: usize)
    requires
        unit > 0,
    ensures
        final(out)@ == old(out)@ + plain(n as int, unit as int, places as nat),
{
    let ghost start = out@;
    let size: u64 = if n < 0 {
        out.push('-');
        -(n as i128) as u64
    } else {
        n as u64
    };
    text::push_decimal(out, size / unit);
    let rest: u64 = size % unit;
    if rest != 0 {
        out.push('.');
        let ghost before = out@;
        let mut padded = String::new();
        text::push_padded(&mut padded, rest, places);
        let digits = text::chars_of(padded.as_str());
        let mut end: usize = digits.len();
        assert(digits@.take(end as int) =~= digits@);
        assert(digits@ =~= text::zero_pad(text::decimal(rest as nat), places as nat));
        while end > 0 && digits[end - 1] == '0'
            invariant
                end <= digits@.len(),
                strip_zeros(digits@) == strip_zeros(digits@.take(end as int)),
            decreases end,
        {
            assert(digits@.take(end as int).drop_last() =~= digits@.take(end - 1));
            end -= 1;
        }
        assert(digits@.take(end as int) =~= digits@.subrange(0, end as int));
        let kept = text::string_of(&digits, 0, end);
        out.append(kept.as_str());
        assert(out@ =~= before + strip_zeros(digits@));
    }
    assert(out@ =~= start + plain(n as int, unit as int, places as nat));
}

/// Appends a time in seconds with as many places as it takes.
pub fn push_seconds(out: &mut String, ns: i64)
    ensures
        final(out)@ == old(out)@ + seconds(ns as int),
{
    push_plain(out, ns, 1_000_000_000, 9)
}

/// Rounding goes to the nearest integer, and from the middle between two to the
/// even one.
pub proof fn law_round_even(n: int, d: int)
    requires
        d > 0,
    ensures
        -d <= 2 * (round_even(n, d) * d - n) <= d,
        2 * (round_even(n, d) * d - n) == d ==> round_even(n, d) % 2 == 0,
        2 * (round_even(n, d) * d - n) == -d ==> round_even(n, d) % 2 == 0,
{
    let q = n / d;
    vstd::arithmetic::div_mod::lemma_fundamental_div_mod(n, d);
    vstd::arithmetic::div_mod::lemma_mod_bound(n, d);
    assert(d * q == q * d && (q + 1) * d == q * d + d) by (nonlinear_arith);
}

/// A number that is written with places is read as that number.
proof fn lemma_fixed_is_read(negative: bool, n: int, unit: int, places: nat)
    requires
        n >= 0,
        places >= 1,
        unit == vstd::arithmetic::power::pow(10, places),
    ensures
        number::decimal_of(
            (if negative {
                seq!['-']
            } else {
                Seq::<char>::empty()
            }) + fixed(n, unit, places),
        ) matches Some(d) && d.negative == negative && number::scaled(d, places as int) == n,
{
    vstd::arithmetic::power::lemma_pow_positive(10, places);
    vstd::arithmetic::div_mod::lemma_fundamental_div_mod(n, unit);
    vstd::arithmetic::div_mod::lemma_mod_bound(n, unit);
    vstd::arithmetic::div_mod::lemma_div_pos_is_pos(n, unit);
    let sign = if negative {
        seq!['-']
    } else {
        Seq::<char>::empty()
    };
    let a = text::decimal((n / unit) as nat);
    let low = text::decimal((n % unit) as nat);
    let b = text::zero_pad(low, places);
    number::lemma_decimal((n / unit) as nat);
    number::lemma_decimal((n % unit) as nat);
    number::lemma_decimal_len((n % unit) as nat, places);
    number::lemma_zero_pad(low, places);
    number::law_decimal_is_read(negative, a, b);
    assert(sign + fixed(n, unit, places) =~= sign + a + seq!['.'] + b);
    assert(unit * (n / unit) == (n / unit) * unit) by (nonlinear_arith);
}

/// A number of tenths that is written with one place reads as that number.
pub proof fn law_tenths_are_read(n: int)
    requires
        n >= 0,
    ensures
        reads(fixed(n, 10, 1), 1, 0, n),
{
    lemma_powers();
    lemma_fixed_is_read(false, n, 10, 1);
    assert(Seq::<char>::empty() + fixed(n, 10, 1) =~= fixed(n, 10, 1));
}

/// A text reads as a number of units of one in `10^places`, with the sign of
/// `n`.
pub open spec fn reads(s: Seq<char>, places: int, n: int, size: int) -> bool {
    number::decimal_of(s) matches Some(d) && d.negative == (n < 0) && number::scaled(d, places)
        == size
}

proof fn lemma_powers()
    ensures
        vstd::arithmetic::power::pow(10, 1) == 10,
        vstd::arithmetic::power::pow(10, 2) == 100,
        vstd::arithmetic::power::pow(10, 3) == 1_000,
        vstd::arithmetic::power::pow(10, 4) == 10_000,
        vstd::arithmetic::power::pow(10, 6) == 1_000_000,
{
    reveal_with_fuel(vstd::arithmetic::power::pow, 7);
}

/// A text reads as the number `n` in steps of `step`, `10^places` to the unit, to
/// half a step.
pub open spec fn reads_as(s: Seq<char>, places: int, n: int, step: int) -> bool {
    exists|q: int|
        #[trigger] reads(s, places, n, q) && -step <= 2 * (q * step - size(n)) <= step
}

/// A time that is written in seconds reads as that time, to half a unit of its
/// last place, with its sign.
pub proof fn law_written_seconds_are_read(ns: int)
    ensures
        reads_as(seconds1(ns), 1, ns, 100_000_000),
        reads_as(seconds2(ns), 2, ns, 10_000_000),
        reads_as(seconds3(ns), 3, ns, 1_000_000),
        reads_as(seconds6(ns), 6, ns, 1_000),
        ns >= 0 ==> plus_seconds3(ns) == seq!['+'] + seconds3(ns),
        ns < 0 ==> plus_seconds3(ns) == seconds3(ns),
{
    lemma_powers();
    lemma_signed(ns, 100_000_000, 10, 1);
    lemma_signed(ns, 10_000_000, 100, 2);
    lemma_signed(ns, 1_000_000, 1_000, 3);
    lemma_signed(ns, 1_000, 1_000_000, 6);
}

/// A number without its sign.
pub open spec fn size(n: int) -> int {
    if n < 0 {
        -n
    } else {
        n
    }
}

proof fn lemma_signed(ns: int, step: int, unit: int, places: nat)
    requires
        step > 0,
        places >= 1,
        unit == vstd::arithmetic::power::pow(10, places),
    ensures
        reads_as(signed_fixed(ns, step, unit, places), places as int, ns, step),
{
    let q = round_even(size(ns), step);
    law_round_even(size(ns), step);
    vstd::arithmetic::div_mod::lemma_div_pos_is_pos(size(ns), step);
    lemma_fixed_is_read(ns < 0, q, unit, places);
    if ns >= 0 {
        assert(Seq::<char>::empty() + fixed(q, unit, places) =~= fixed(q, unit, places));
    }
    assert(reads(signed_fixed(ns, step, unit, places), places as int, ns, q));
}

/// A quotient that is written with places reads as the quotient, to half a unit
/// of its last place, with its sign.
pub proof fn law_written_quotient_is_read(n: int, d: int, unit: int, places: nat)
    requires
        d > 0,
        places >= 1,
        unit == vstd::arithmetic::power::pow(10, places),
    ensures
        exists|q: int|
            #[trigger] reads(fraction(n, d, unit, places), places as int, n, q) && -d <= 2 * (q * d
                - size(n) * unit) <= d,
{
    vstd::arithmetic::power::lemma_pow_positive(10, places);
    let k = size(n) * unit;
    assert(k >= 0) by (nonlinear_arith)
        requires
            k == size(n) * unit,
            size(n) >= 0,
            unit > 0,
    ;
    assert(-n * unit == (-n) * unit) by (nonlinear_arith);
    let q = round_even(k, d);
    law_round_even(k, d);
    vstd::arithmetic::div_mod::lemma_div_pos_is_pos(k, d);
    lemma_fixed_is_read(n < 0, q, unit, places);
    if n >= 0 {
        assert(Seq::<char>::empty() + fixed(q, unit, places) =~= fixed(q, unit, places));
    }
    assert(reads(fraction(n, d, unit, places), places as int, n, q));
}

pub proof fn lemma_strip_zeros(s: Seq<char>)
    requires
        number::all_digits(s),
    ensures
        number::all_digits(strip_zeros(s)),
        strip_zeros(s).len() <= s.len(),
        number::digits_value(s) == number::digits_value(strip_zeros(s))
            * vstd::arithmetic::power::pow(10, (s.len() - strip_zeros(s).len()) as nat),
    decreases s.len(),
{
    let t = strip_zeros(s);
    if s.len() > 0 && s.last() == '0' {
        let u = s.drop_last();
        assert forall|i: int| 0 <= i < u.len() implies number::is_digit(#[trigger] u[i]) by {
            assert(u[i] == s[i]);
        }
        lemma_strip_zeros(u);
        let k = (u.len() - t.len()) as nat;
        let v = number::digits_value(t) as int;
        let p = vstd::arithmetic::power::pow(10, k);
        reveal(vstd::arithmetic::power::pow);
        assert(vstd::arithmetic::power::pow(10, k + 1) == 10 * p);
        assert(10 * (v * p) == v * (10 * p)) by (nonlinear_arith);
    } else {
        vstd::arithmetic::power::lemma_pow0(10);
        assert(number::digits_value(s) * 1 == number::digits_value(s)) by (nonlinear_arith);
    }
}

/// A number that is written with as many places as it takes is read as exactly
/// that number.
pub proof fn law_written_number_is_read(n: int, unit: int, places: nat)
    requires
        places >= 1,
        unit == vstd::arithmetic::power::pow(10, places),
    ensures
        reads(plain(n, unit, places), places as int, n, size(n)),
{
    let m = size(n);
    vstd::arithmetic::power::lemma_pow_positive(10, places);
    vstd::arithmetic::div_mod::lemma_fundamental_div_mod(m, unit);
    vstd::arithmetic::div_mod::lemma_mod_bound(m, unit);
    vstd::arithmetic::div_mod::lemma_div_pos_is_pos(m, unit);
    let sign = if n < 0 {
        seq!['-']
    } else {
        Seq::<char>::empty()
    };
    let a = text::decimal((m / unit) as nat);
    let low = text::decimal((m % unit) as nat);
    let b = text::zero_pad(low, places);
    number::lemma_decimal((m / unit) as nat);
    number::lemma_decimal((m % unit) as nat);
    number::lemma_decimal_len((m % unit) as nat, places);
    number::lemma_zero_pad(low, places);
    lemma_strip_zeros(b);
    let c = strip_zeros(b);
    number::law_decimal_is_read(n < 0, a, c);
    assert(unit * (m / unit) == (m / unit) * unit) by (nonlinear_arith);
    vstd::arithmetic::power::lemma_pow0(10);
    let d = number::decimal_of(plain(n, unit, places))->0;
    assert(number::digits_value(d.digits) * 1 == number::digits_value(d.digits))
        by (nonlinear_arith);
    if m % unit == 0 {
        assert(plain(n, unit, places) =~= sign + a);
    } else {
        assert(plain(n, unit, places) =~= sign + a + seq!['.'] + c);
        let k = (places - c.len()) as nat;
        let p = vstd::arithmetic::power::pow(10, k);
        let q = vstd::arithmetic::power::pow(10, c.len());
        vstd::arithmetic::power::lemma_pow_adds(10, c.len(), k);
        let x = number::digits_value(a) as int;
        let y = number::digits_value(c) as int;
        assert(unit == q * p);
        assert((x * q + y) * p == x * (q * p) + y * p) by (nonlinear_arith);
    }
}

/// A time that is written in seconds with as many places as it takes is read as
/// exactly that time.
pub proof fn law_written_time_is_read(ns: int)
    ensures
        reads(seconds(ns), 9, ns, size(ns)),
{
    reveal_with_fuel(vstd::arithmetic::power::pow, 10);
    law_written_number_is_read(ns, 1_000_000_000, 9);
}

/// A written number starts with its sign or a digit, and ends with a digit.
pub proof fn lemma_plain_ends(n: int, unit: int, places: nat)
    requires
        unit > 0,
    ensures
        ({
            let s = plain(n, unit, places);
            &&& s.len() > 0
            &&& number::is_digit(s[0]) || s[0] == '-'
            &&& number::is_digit(s.last())
        }),
{
    let m = size(n);
    vstd::arithmetic::div_mod::lemma_mod_bound(m, unit);
    let a = text::decimal((m / unit) as nat);
    let low = text::decimal((m % unit) as nat);
    let b = text::zero_pad(low, places);
    number::lemma_decimal((m / unit) as nat);
    number::lemma_decimal((m % unit) as nat);
    number::lemma_zero_pad(low, places);
    lemma_strip_zeros(b);
    let c = strip_zeros(b);
    let s = plain(n, unit, places);
    assert(number::is_digit(a[0]) && number::is_digit(a[a.len() - 1]));
    if m % unit == 0 {
        assert(s.last() == a.last());
    } else {
        if c.len() == 0 {
            assert(number::digits_value(b) == 0 * vstd::arithmetic::power::pow(10, b.len()));
            assert(0 * vstd::arithmetic::power::pow(10, b.len()) == 0) by (nonlinear_arith);
            assert(false);
        }
        assert(s.last() == c.last());
        assert(number::is_digit(c[c.len() - 1]));
    }
    assert(n >= 0 ==> s[0] == a[0]);
}

} // verus!
