//! Numbers in text: unsigned integers, and decimal numbers held exactly.
use vstd::prelude::*;
use crate::text;
use crate::time;

verus! {

pub open spec fn is_digit(c: char) -> bool {
    48 <= c as u32 <= 57
}

pub open spec fn digit_value(c: char) -> nat {
    (c as u32 - 48) as nat
}

/// The number that a sequence of digits stands for.
pub open spec fn digits_value(s: Seq<char>) -> nat
    decreases s.len(),
{
    if s.len() == 0 {
        0
    } else {
        10 * digits_value(s.drop_last()) + digit_value(s.last())
    }
}

pub open spec fn all_digits(s: Seq<char>) -> bool {
    forall|i: int| 0 <= i < s.len() ==> is_digit(#[trigger] s[i])
}

/// Where the run of digits that starts at `i` ends.
pub open spec fn digit_run(s: Seq<char>, i: int) -> int
    decreases s.len() - i,
{
    if i < s.len() && is_digit(s[i]) {
        digit_run(s, i + 1)
    } else {
        i
    }
}

pub fn char_is_digit(c: char) -> (r: bool)
    ensures
        r == is_digit(c),
{
    48 <= c as u32 && c as u32 <= 57
}

pub proof fn lemma_digit_run(s: Seq<char>, i: int)
    requires
        0 <= i <= s.len(),
    ensures
        i <= digit_run(s, i) <= s.len(),
        digit_run(s, i) < s.len() ==> !is_digit(s[digit_run(s, i)]),
        forall|k: int| i <= k < digit_run(s, i) ==> is_digit(#[trigger] s[k]),
    decreases s.len() - i,
{
    if i < s.len() && is_digit(s[i]) {
        lemma_digit_run(s, i + 1);
    }
}

pub proof fn lemma_digit_run_is(s: Seq<char>, i: int, k: int)
    requires
        0 <= i <= k <= s.len(),
        k == s.len() || !is_digit(s[k]),
        forall|q: int| i <= q < k ==> is_digit(#[trigger] s[q]),
    ensures
        digit_run(s, i) == k,
    decreases k - i,
{
    if i < k {
        lemma_digit_run_is(s, i + 1, k);
    }
}

pub fn run_end(s: &Vec<char>, from: usize) -> (r: usize)
    requires
        from <= s@.len(),
    ensures
        r == digit_run(s@, from as int),
        from <= r <= s@.len(),
        forall|k: int| from <= k < r ==> is_digit(#[trigger] s@[k]),
{
    let mut i: usize = from;
    while i < s.len() && char_is_digit(s[i])
        invariant
            from <= i <= s@.len(),
            digit_run(s@, from as int) == digit_run(s@, i as int),
            forall|k: int| from <= k < i ==> is_digit(#[trigger] s@[k]),
        decreases s@.len() - i,
    {
        i += 1;
    }
    i
}

/// The digits of a number stand for it.
pub proof fn lemma_decimal(n: nat)
    ensures
        all_digits(text::decimal(n)),
        digits_value(text::decimal(n)) == n,
        text::decimal(n).len() >= 1,
        n < 10 ==> text::decimal(n).len() == 1,
        n < 100 ==> text::decimal(n).len() <= 2,
        n < 1000 ==> text::decimal(n).len() <= 3,
    decreases n,
{
    let d = text::decimal(n);
    if n >= 10 {
        lemma_decimal(n / 10);
        let p = text::decimal(n / 10);
        assert(d.drop_last() =~= p);
        assert(d.last() == text::digit_char(n % 10));
        assert(all_digits(d));
    } else {
        assert(d.drop_last() =~= Seq::empty());
        assert(digits_value(d.drop_last()) == 0);
        assert(d.last() == text::digit_char(n));
    }
}

/// Zeros in front change neither the value nor that all are digits.
pub proof fn lemma_zero_pad(s: Seq<char>, width: nat)
    requires
        all_digits(s),
    ensures
        all_digits(text::zero_pad(s, width)),
        digits_value(text::zero_pad(s, width)) == digits_value(s),
        text::zero_pad(s, width).len() == if s.len() >= width {
            s.len()
        } else {
            width
        },
    decreases s.len(), width,
{
    let z = text::zero_pad(s, width);
    if s.len() < width {
        if s.len() == 0 {
            assert(z.drop_last() =~= text::zero_pad(s, (width - 1) as nat));
            lemma_zero_pad(s, (width - 1) as nat);
            assert(z.last() == '0');
        } else {
            assert(z.drop_last() =~= text::zero_pad(s.drop_last(), (width - 1) as nat));
            lemma_zero_pad(s.drop_last(), (width - 1) as nat);
            assert(z.last() == s.last());
        }
        assert(all_digits(z));
    }
}

/// A number cut off behind its first `k` digits has lost its last
/// `s.len() - k` digits.
pub proof fn lemma_value_take(s: Seq<char>, k: int)
    requires
        0 <= k <= s.len(),
        all_digits(s),
    ensures
        digits_value(s.take(k)) == digits_value(s) as int / vstd::arithmetic::power::pow(10, (s.len() - k) as nat),
        vstd::arithmetic::power::pow(10, (s.len() - k) as nat) > 0,
    decreases s.len() - k,
{
    vstd::arithmetic::power::lemma_pow_positive(10, (s.len() - k) as nat);
    if k == s.len() {
        assert(s.take(k) =~= s);
        vstd::arithmetic::power::lemma_pow0(10);
    } else {
        let d = s.drop_last();
        assert(d.take(k) =~= s.take(k));
        assert(all_digits(d));
        lemma_value_take(d, k);
        let e = (d.len() - k) as nat;
        assert((s.len() - k) as nat == e + 1);
        reveal(vstd::arithmetic::power::pow);
        assert(vstd::arithmetic::power::pow(10, (s.len() - k) as nat) == 10 * vstd::arithmetic::power::pow(10, e));
        let v = digits_value(s) as int;
        assert(is_digit(s[s.len() - 1]));
        assert(v / 10 == digits_value(d) as int);
        vstd::arithmetic::div_mod::lemma_div_denominator(v, 10, vstd::arithmetic::power::pow(10, e));
    }
}

/// Longer digit sequences stand for numbers at least as large.
pub proof fn lemma_value_monotone(s: Seq<char>, k: int)
    requires
        0 <= k <= s.len(),
    ensures
        digits_value(s.take(k)) <= digits_value(s),
    decreases s.len() - k,
{
    if k == s.len() {
        assert(s.take(k) =~= s);
    } else {
        let d = s.drop_last();
        assert(d.take(k) =~= s.take(k));
        lemma_value_monotone(d, k);
    }
}

/// The value of `s[from..to]`, digits all, if it is at most `limit`.
pub fn value_within(s: &Vec<char>, from: usize, to: usize, limit: u128) -> (r: Option<u128>)
    requires
        from <= to <= s@.len(),
        forall|k: int| from <= k < to ==> is_digit(#[trigger] s@[k]),
    ensures
        match r {
            Some(v) => v == digits_value(s@.subrange(from as int, to as int)) && v <= limit,
            None => digits_value(s@.subrange(from as int, to as int)) > limit,
        },
{
    let mut v: u128 = 0;
    let mut i: usize = from;
    let ghost whole = s@.subrange(from as int, to as int);
    while i < to
        invariant
            from <= i <= to <= s@.len(),
            whole == s@.subrange(from as int, to as int),
            forall|k: int| from <= k < to ==> is_digit(#[trigger] s@[k]),
            v == digits_value(s@.subrange(from as int, i as int)),
            v <= limit,
        decreases to - i,
    {
        let d: u128 = (s[i] as u32 - 48) as u128;
        proof {
            let next = s@.subrange(from as int, i + 1);
            assert(next.drop_last() =~= s@.subrange(from as int, i as int));
            assert(next.last() == s@[i as int]);
            assert(next =~= whole.take(i + 1 - from));
            lemma_value_monotone(whole, i + 1 - from);
        }
        if v > limit / 10 || d > limit - v * 10 {
            return None;
        }
        v = v * 10 + d;
        i += 1;
    }
    Some(v)
}

/// Why a text is not an integer.
#[derive(Clone, Copy, Debug, PartialEq, Eq, Structural)]
pub enum IntError {
    Empty,
    InvalidDigit,
    PosOverflow,
}

impl IntError {
    pub open spec fn text(self) -> Seq<char> {
        match self {
            IntError::Empty => "cannot parse integer from empty string"@,
            IntError::InvalidDigit => "invalid digit found in string"@,
            IntError::PosOverflow => "number too large to fit in target type"@,
        }
    }

    pub fn message(&self) -> (r: &'static str)
        ensures
            r@ == self.text(),
    {
        match self {
            IntError::Empty => "cannot parse integer from empty string",
            IntError::InvalidDigit => "invalid digit found in string",
            IntError::PosOverflow => "number too large to fit in target type",
        }
    }
}

/// An unsigned 32-bit integer.
pub open spec fn u32_of(s: Seq<char>) -> Result<u32, IntError> {
    match unsigned_of(s, u32::MAX as nat) {
        Ok(v) => Ok(v as u32),
        Err(e) => Err(e),
    }
}

/// An unsigned integer of at most `max`: digits, with an optional `+` in
/// front. The first problem from the left decides the error.
pub open spec fn unsigned_of(s: Seq<char>, max: nat) -> Result<nat, IntError> {
    if s.len() == 0 {
        Err(IntError::Empty)
    } else {
        let body = if s[0] == '+' {
            s.skip(1)
        } else {
            s
        };
        let run = digit_run(body, 0);
        if digits_value(body.take(run)) > max {
            Err(IntError::PosOverflow)
        } else if run == 0 || run < body.len() {
            Err(IntError::InvalidDigit)
        } else {
            Ok(digits_value(body))
        }
    }
}

/// An unsigned 64-bit integer, under the same rules.
pub open spec fn u64_of(s: Seq<char>) -> Result<u64, IntError> {
    match unsigned_of(s, u64::MAX as nat) {
        Ok(v) => Ok(v as u64),
        Err(e) => Err(e),
    }
}

fn parse_unsigned(s: &Vec<char>, max: u64) -> (r: Result<u64, IntError>)
    ensures
        match unsigned_of(s@, max as nat) {
            Ok(v) => r == Ok::<_, IntError>(v as u64) && v <= max,
            Err(e) => r == Err::<u64, _>(e),
        },
{
    if s.len() == 0 {
        return Err(IntError::Empty);
    }
    let from: usize = if s[0] == '+' {
        1
    } else {
        0
    };
    let ghost body = s@.skip(from as int);
    let end: usize = run_end(s, from);
    proof {
        assert(s@.skip(0) =~= s@);
        lemma_digit_run(s@, from as int);
        assert forall|q: int| 0 <= q < end - from implies is_digit(#[trigger] body[q]) by {
            assert(body[q] == s@[from + q]);
        }
        lemma_digit_run_is(body, 0, end - from);
        assert(body.take(end - from) =~= s@.subrange(from as int, end as int));
    }
    match value_within(s, from, end, max as u128) {
        None => Err(IntError::PosOverflow),
        Some(v) => if end == from || end < s.len() {
            Err(IntError::InvalidDigit)
        } else {
            assert(body.take(end - from) =~= body);
            Ok(v as u64)
        },
    }
}

/// Parses an unsigned 32-bit integer.
pub fn parse_u32(s: &Vec<char>) -> (r: Result<u32, IntError>)
    ensures
        r == u32_of(s@),
{
    match parse_unsigned(s, u32::MAX as u64) {
        Ok(v) => Ok(v as u32),
        Err(e) => Err(e),
    }
}

/// Parses an unsigned 64-bit integer.
pub fn parse_u64(s: &Vec<char>) -> (r: Result<u64, IntError>)
    ensures
        r == u64_of(s@),
{
    parse_unsigned(s, u64::MAX)
}

/// All-digit texts that fit parse to their value.
pub proof fn lemma_u32_of_digits(s: Seq<char>)
    requires
        s.len() > 0,
        all_digits(s),
        digits_value(s) <= u32::MAX,
    ensures
        u32_of(s) == Ok::<_, IntError>(digits_value(s) as u32),
{
    assert(is_digit(s[0]));
    lemma_digit_run_is(s, 0, s.len() as int);
    assert(s.take(s.len() as int) =~= s);
}

/// A written number parses to itself.
pub proof fn law_u32_round_trip(n: u32, width: nat)
    ensures
        u32_of(text::zero_pad(text::decimal(n as nat), width)) == Ok::<_, IntError>(n),
{
    lemma_decimal(n as nat);
    lemma_zero_pad(text::decimal(n as nat), width);
    lemma_u32_of_digits(text::zero_pad(text::decimal(n as nat), width));
}

/// A decimal number: its sign, its digits without the point, and the power of
/// ten that they are multiplied by.
pub struct Decimal {
    pub negative: bool,
    pub digits: Vec<char>,
    pub exponent: i128,
}

/// The exact value behind a [`Decimal`].
pub struct DecimalView {
    pub negative: bool,
    pub digits: Seq<char>,
    pub exponent: int,
}

impl View for Decimal {
    type V = DecimalView;

    open spec fn view(&self) -> DecimalView {
        DecimalView {
            negative: self.negative,
            digits: self.digits@,
            exponent: self.exponent as int,
        }
    }
}

/// Written exponents beyond this act like it.
pub const EXPONENT_CAP: u64 = 1_000_000_000_000;

pub open spec fn capped_exponent(s: Seq<char>) -> int {
    if digits_value(s) > EXPONENT_CAP {
        EXPONENT_CAP as int
    } else {
        digits_value(s) as int
    }
}

pub open spec fn has_sign(s: Seq<char>, i: int) -> bool {
    i < s.len() && (s[i] == '+' || s[i] == '-')
}

/// The exponent written from `i` on, if nothing else stands there: nothing, or
/// an `e`, an optional sign and digits.
pub open spec fn exponent_of(s: Seq<char>, i: int) -> Option<int> {
    if i == s.len() {
        Some(0)
    } else if s[i] == 'e' || s[i] == 'E' {
        let from = if has_sign(s, i + 1) {
            i + 2
        } else {
            i + 1
        };
        if from < s.len() && digit_run(s, from) == s.len() {
            let e = capped_exponent(s.skip(from));
            Some(
                if s[i + 1] == '-' {
                    -e
                } else {
                    e
                },
            )
        } else {
            None
        }
    } else {
        None
    }
}

/// The finite number that a text stands for: an optional sign, digits with an
/// optional point among them, and an optional exponent.
pub open spec fn decimal_of(s: Seq<char>) -> Option<DecimalView> {
    let start = if has_sign(s, 0) {
        1int
    } else {
        0int
    };
    let point = digit_run(s, start);
    let has_point = point < s.len() && s[point] == '.';
    let end = if has_point {
        digit_run(s, point + 1)
    } else {
        point
    };
    let fraction = if has_point {
        s.subrange(point + 1, end)
    } else {
        Seq::empty()
    };
    let digits = s.subrange(start, point) + fraction;
    match exponent_of(s, end) {
        Some(e) if digits.len() > 0 => Some(
            DecimalView {
                negative: s.len() > 0 && s[0] == '-',
                digits,
                exponent: e - fraction.len(),
            },
        ),
        _ => None,
    }
}

fn sign_at(s: &Vec<char>, i: usize) -> (r: bool)
    requires
        i <= s@.len(),
    ensures
        r == has_sign(s@, i as int),
{
    i < s.len() && (s[i] == '+' || s[i] == '-')
}

fn parse_exponent(s: &Vec<char>, i: usize) -> (r: Option<i128>)
    requires
        i <= s@.len(),
    ensures
        match r {
            Some(e) => exponent_of(s@, i as int) == Some(e as int) && -EXPONENT_CAP <= e
                <= EXPONENT_CAP,
            None => exponent_of(s@, i as int) is None,
        },
{
    if i == s.len() {
        return Some(0);
    }
    if s[i] != 'e' && s[i] != 'E' {
        return None;
    }
    let from: usize = if sign_at(s, i + 1) {
        i + 2
    } else {
        i + 1
    };
    if from >= s.len() {
        return None;
    }
    let end: usize = run_end(s, from);
    if end < s.len() {
        return None;
    }
    assert(s@.skip(from as int) =~= s@.subrange(from as int, end as int));
    let e: i128 = match value_within(s, from, end, EXPONENT_CAP as u128) {
        Some(v) => v as i128,
        None => EXPONENT_CAP as i128,
    };
    if s[i + 1] == '-' {
        Some(-e)
    } else {
        Some(e)
    }
}

/// Parses a finite decimal number.
pub fn parse_decimal(s: &Vec<char>) -> (r: Option<Decimal>)
    ensures
        match r {
            Some(d) => decimal_of(s@) == Some(d@) && all_digits(d.digits@) && d.digits@.len() > 0
                && d.exponent <= EXPONENT_CAP && -d.exponent <= EXPONENT_CAP + d.digits@.len(),
            None => decimal_of(s@) is None,
        },
{
    let start: usize = if sign_at(s, 0) {
        1
    } else {
        0
    };
    let point: usize = run_end(s, start);
    let has_point = point < s.len() && s[point] == '.';
    let end: usize = if has_point {
        run_end(s, point + 1)
    } else {
        point
    };
    let e: i128 = match parse_exponent(s, end) {
        None => {
            return None;
        },
        Some(e) => e,
    };
    let mut digits = text::copy_range(s, start, point);
    let mut fraction: i128 = 0;
    if has_point {
        let mut tail = text::copy_range(s, point + 1, end);
        fraction = tail.len() as i128;
        digits.append(&mut tail);
    } else {
        assert(digits@ =~= digits@ + Seq::<char>::empty());
    }
    if digits.len() == 0 {
        return None;
    }
    let negative = s.len() > 0 && s[0] == '-';
    Some(Decimal { negative, digits, exponent: e - fraction })
}

/// This many digits always fit a machine integer.
pub const SIGNIFICANT: usize = 38;

/// Where the zeros end that stand from `i` on.
pub open spec fn zero_run(digits: Seq<char>, i: int) -> int
    decreases digits.len() - i,
{
    if 0 <= i < digits.len() && digits[i] == '0' {
        zero_run(digits, i + 1)
    } else {
        i
    }
}

pub proof fn lemma_zero_run(digits: Seq<char>, i: int)
    requires
        0 <= i <= digits.len(),
    ensures
        i <= zero_run(digits, i) <= digits.len(),
    decreases digits.len() - i,
{
    if i < digits.len() && digits[i] == '0' {
        lemma_zero_run(digits, i + 1);
    }
}

/// A number's first digits, without leading zeros, as an integer, and the power
/// of ten that it is multiplied by.
pub struct Leading {
    pub value: u128,
    pub tens: i128,
    /// How many places before the point the first digit stands.
    pub order: i128,
}

/// The end of the first digits.
pub open spec fn leading_end(d: DecimalView) -> int {
    time::min2(zero_run(d.digits, 0) + SIGNIFICANT, d.digits.len() as int)
}

pub open spec fn leading_value(d: DecimalView) -> int {
    digits_value(d.digits.subrange(zero_run(d.digits, 0), leading_end(d))) as int
}

pub open spec fn leading_tens(d: DecimalView) -> int {
    d.exponent + d.digits.len() - leading_end(d)
}

pub open spec fn order(d: DecimalView) -> int {
    d.exponent + d.digits.len() - zero_run(d.digits, 0)
}

/// Few digits stand for a machine integer.
proof fn lemma_significant(s: Seq<char>)
    requires
        all_digits(s),
        s.len() <= SIGNIFICANT,
    ensures
        digits_value(s) <= u128::MAX,
{
    let p = vstd::arithmetic::power::pow(10, s.len());
    lemma_value_take(s, 0);
    assert(s.take(0) =~= Seq::empty());
    vstd::arithmetic::power::lemma_pow_increases(10, s.len(), SIGNIFICANT as nat);
    vstd::arithmetic::div_mod::lemma_fundamental_div_mod(digits_value(s) as int, p);
    assert(p * 0 == 0) by (nonlinear_arith);
    assert(vstd::arithmetic::power::pow(10, 38) == 100_000_000_000_000_000_000_000_000_000_000_000_000)
        by {
        reveal_with_fuel(vstd::arithmetic::power::pow, 39);
    }
}

/// The first digits of a number.
pub fn leading(d: &Decimal) -> (r: Leading)
    requires
        all_digits(d.digits@),
        i64::MIN * 1000 <= d.exponent <= i64::MAX,
    ensures
        r.value == leading_value(d@),
        r.tens == leading_tens(d@),
        r.order == order(d@),
{
    let n: usize = d.digits.len();
    let mut from: usize = 0;
    while from < n && d.digits[from] == '0'
        invariant
            from <= n == d.digits@.len(),
            zero_run(d.digits@, 0) == zero_run(d.digits@, from as int),
        decreases n - from,
    {
        from += 1;
    }
    let end: usize = if n - from > SIGNIFICANT {
        from + SIGNIFICANT
    } else {
        n
    };
    proof {
        let s = d.digits@.subrange(from as int, end as int);
        assert forall|k: int| 0 <= k < s.len() implies is_digit(#[trigger] s[k]) by {
            assert(s[k] == d.digits@[from + k]);
        }
        lemma_significant(s);
    }
    let value: u128 = match value_within(&d.digits, from, end, u128::MAX) {
        Some(v) => v,
        None => 0,
    };
    Leading {
        value,
        tens: d.exponent + (n - end) as i128,
        order: d.exponent + (n - from) as i128,
    }
}

/// `value * 10^places`, rounded towards zero, without its sign.
pub open spec fn scaled(d: DecimalView, places: int) -> int {
    let e = d.exponent + places;
    if e >= 0 {
        digits_value(d.digits) * vstd::arithmetic::power::pow(10, e as nat)
    } else {
        digits_value(d.digits) as int / vstd::arithmetic::power::pow(10, (-e) as nat)
    }
}

/// [`scaled`], if it is at most `limit`.
pub fn scale_within(d: &Decimal, places: i128, limit: u128) -> (r: Option<u128>)
    requires
        all_digits(d.digits@),
        i128::MIN < d.exponent + places <= i128::MAX,
    ensures
        match r {
            Some(v) => v == scaled(d@, places as int) && v <= limit,
            None => scaled(d@, places as int) > limit,
        },
{
    let e: i128 = d.exponent + places;
    let n: usize = d.digits.len();
    if e < 0 {
        let drop: i128 = -e;
        if drop >= n as i128 {
            proof {
                lemma_value_take(d.digits@, 0);
                assert(d.digits@.take(0) =~= Seq::empty());
                lemma_div_pow_beyond(digits_value(d.digits@), n as nat, drop as nat);
            }
            return Some(0);
        }
        let keep: usize = n - drop as usize;
        proof {
            lemma_value_take(d.digits@, keep as int);
            assert(d.digits@.take(keep as int) =~= d.digits@.subrange(0, keep as int));
        }
        return value_within(&d.digits, 0, keep, limit);
    }
    assert(d.digits@.subrange(0, n as int) =~= d.digits@);
    let base: u128 = match value_within(&d.digits, 0, n, limit) {
        Some(v) => v,
        None => {
            proof {
                lemma_mul_pow_grows(digits_value(d.digits@), 0, e as nat);
                vstd::arithmetic::power::lemma_pow0(10);
            }
            return None;
        },
    };
    if base == 0 {
        assert(scaled(d@, places as int) == 0) by (nonlinear_arith)
            requires
                e >= 0,
                e == d@.exponent + places,
                digits_value(d@.digits) == 0,
                scaled(d@, places as int) == digits_value(d@.digits)
                    * vstd::arithmetic::power::pow(10, e as nat),
        ;
        return Some(0);
    }
    let mut v: u128 = base;
    let mut k: i128 = 0;
    proof {
        vstd::arithmetic::power::lemma_pow0(10);
    }
    while k < e
        invariant
            0 <= k <= e,
            base > 0,
            base == digits_value(d.digits@),
            e == d.exponent + places,
            v == base * vstd::arithmetic::power::pow(10, k as nat),
            0 < v <= limit,
        decreases e - k,
    {
        proof {
            reveal(vstd::arithmetic::power::pow);
            let p = vstd::arithmetic::power::pow(10, k as nat);
            assert(vstd::arithmetic::power::pow(10, (k + 1) as nat) == 10 * p);
            assert(base * (10 * p) == 10 * (base * p)) by (nonlinear_arith);
            lemma_mul_pow_grows(base as nat, (k + 1) as nat, e as nat);
        }
        if v > limit / 10 {
            return None;
        }
        v = v * 10;
        k += 1;
    }
    Some(v)
}

/// A power of ten with more zeros than the number has digits divides it to 0.
proof fn lemma_div_pow_beyond(v: nat, n: nat, m: nat)
    requires
        n <= m,
        v as int / vstd::arithmetic::power::pow(10, n) == 0,
        vstd::arithmetic::power::pow(10, n) > 0,
    ensures
        v as int / vstd::arithmetic::power::pow(10, m) == 0,
{
    vstd::arithmetic::power::lemma_pow_increases(10, n, m);
    let a = vstd::arithmetic::power::pow(10, n);
    let b = vstd::arithmetic::power::pow(10, m);
    vstd::arithmetic::div_mod::lemma_fundamental_div_mod(v as int, a);
    vstd::arithmetic::div_mod::lemma_mod_bound(v as int, a);
    assert(v < a);
    vstd::arithmetic::div_mod::lemma_basic_div(v as int, b);
}

proof fn lemma_mul_pow_grows(v: nat, a: nat, b: nat)
    requires
        a <= b,
    ensures
        v * vstd::arithmetic::power::pow(10, a) <= v * vstd::arithmetic::power::pow(10, b),
{
    vstd::arithmetic::power::lemma_pow_increases(10, a, b);
    let x = vstd::arithmetic::power::pow(10, a);
    let y = vstd::arithmetic::power::pow(10, b);
    assert(v * x <= v * y) by (nonlinear_arith)
        requires
            x <= y,
            v >= 0,
    ;
}

/// The digits of two texts behind one another stand for the first number, moved
/// up by the places of the second, plus the second.
pub proof fn lemma_value_concat(a: Seq<char>, b: Seq<char>)
    ensures
        digits_value(a + b) == digits_value(a) * vstd::arithmetic::power::pow(10, b.len())
            + digits_value(b),
    decreases b.len(),
{
    let p = vstd::arithmetic::power::pow(10, b.len());
    reveal(vstd::arithmetic::power::pow);
    if b.len() == 0 {
        assert(a + b =~= a);
        assert(digits_value(a) * 1 == digits_value(a)) by (nonlinear_arith);
    } else {
        let c = b.drop_last();
        lemma_value_concat(a, c);
        assert((a + b).drop_last() =~= a + c);
        assert((a + b).last() == b.last());
        let q = vstd::arithmetic::power::pow(10, c.len());
        assert(p == 10 * q);
        assert(digits_value(a) * (10 * q) == 10 * (digits_value(a) * q)) by (nonlinear_arith);
    }
}

/// A number below a power of ten has no more digits than that has zeros.
pub proof fn lemma_decimal_len(n: nat, k: nat)
    requires
        k >= 1,
        n < vstd::arithmetic::power::pow(10, k),
    ensures
        text::decimal(n).len() <= k,
    decreases n,
{
    reveal(vstd::arithmetic::power::pow);
    if n >= 10 {
        let p = vstd::arithmetic::power::pow(10, (k - 1) as nat);
        assert(vstd::arithmetic::power::pow(10, k) == 10 * p);
        if k == 1 {
            assert(p == 1);
        }
        lemma_decimal_len(n / 10, (k - 1) as nat);
    }
}

/// A decimal number is read as its digits before and behind the point, in
/// units of as many places as stand behind it, with the sign in front.
pub proof fn law_decimal_is_read(negative: bool, a: Seq<char>, b: Seq<char>)
    requires
        all_digits(a),
        all_digits(b),
        a.len() > 0,
    ensures
        ({
            let sign = if negative {
                seq!['-']
            } else {
                Seq::<char>::empty()
            };
            let whole = decimal_of(sign + a);
            let part = decimal_of(sign + a + seq!['.'] + b);
            &&& whole matches Some(d) && d.negative == negative && d.exponent == 0 && scaled(d, 0)
                == digits_value(a)
            &&& part matches Some(d) && d.negative == negative && d.exponent == -(b.len() as int)
                && scaled(d, b.len() as int) == digits_value(a) * vstd::arithmetic::power::pow(10, b.len()) + digits_value(b)
        }),
{
    let sign = if negative {
        seq!['-']
    } else {
        Seq::<char>::empty()
    };
    let n = sign.len() as int;
    assert(is_digit(a[0]));
    let s = sign + a;
    assert(s[n] == a[0]);
    assert forall|q: int| n <= q < s.len() implies is_digit(#[trigger] s[q]) by {
        assert(s[q] == a[q - n]);
    }
    lemma_digit_run_is(s, n, s.len() as int);
    assert(s.subrange(n, s.len() as int) + Seq::<char>::empty() =~= a);
    vstd::arithmetic::power::lemma_pow0(10);
    assert(digits_value(a) * 1 == digits_value(a)) by (nonlinear_arith);
    let t = sign + a + seq!['.'] + b;
    let point = n + a.len();
    assert(t[n] == a[0]);
    assert forall|q: int| n <= q < point implies is_digit(#[trigger] t[q]) by {
        assert(t[q] == a[q - n]);
    }
    assert(t[point] == '.');
    lemma_digit_run_is(t, n, point);
    assert forall|q: int| point + 1 <= q < t.len() implies is_digit(#[trigger] t[q]) by {
        assert(t[q] == b[q - point - 1]);
    }
    lemma_digit_run_is(t, point + 1, t.len() as int);
    assert(t.subrange(point + 1, t.len() as int) =~= b);
    assert(t.subrange(n, point) + b =~= a + b);
    lemma_value_concat(a, b);
    assert(digits_value(a + b) * 1 == digits_value(a + b)) by (nonlinear_arith);
}

/// An exponent moves the point: a number with one stands for the number without
/// it times that power of ten.
pub proof fn law_exponent_moves_the_point(a: Seq<char>, e: Seq<char>, down: bool)
    requires
        all_digits(a),
        all_digits(e),
        a.len() > 0,
        e.len() > 0,
        digits_value(e) <= EXPONENT_CAP,
    ensures
        ({
            let s = a + (if down {
                seq!['e', '-']
            } else {
                seq!['e']
            }) + e;
            decimal_of(s) matches Some(d) && !d.negative && d.digits == a && d.exponent == if down {
                -(digits_value(e) as int)
            } else {
                digits_value(e) as int
            }
        }),
{
    let mark = if down {
        seq!['e', '-']
    } else {
        seq!['e']
    };
    let s = a + mark + e;
    let n = a.len() as int;
    let m = n + mark.len();
    assert(is_digit(a[0]) && is_digit(e[0]));
    assert(s[0] == a[0]);
    assert forall|q: int| 0 <= q < n implies is_digit(#[trigger] s[q]) by {
        assert(s[q] == a[q]);
    }
    assert(s[n] == 'e');
    lemma_digit_run_is(s, 0, n);
    assert forall|q: int| m <= q < s.len() implies is_digit(#[trigger] s[q]) by {
        assert(s[q] == e[q - m]);
    }
    lemma_digit_run_is(s, m, s.len() as int);
    if down {
        assert(s[n + 1] == '-');
    } else {
        assert(s[n + 1] == e[0]);
    }
    assert(s.skip(m) =~= e);
    assert(s.subrange(0, n) + Seq::<char>::empty() =~= a);
}

/// Scaling multiplies by a power of ten and drops what lies below the point.
pub proof fn law_scaling(d: DecimalView, places: int)
    ensures
        d.exponent + places >= 0 ==> scaled(d, places) == digits_value(d.digits)
            * vstd::arithmetic::power::pow(10, (d.exponent + places) as nat),
        d.exponent + places < 0 ==> ({
            let p = vstd::arithmetic::power::pow(10, (-(d.exponent + places)) as nat);
            p * scaled(d, places) <= digits_value(d.digits) < p * scaled(d, places) + p
        }),
{
    if d.exponent + places < 0 {
        let k = (-(d.exponent + places)) as nat;
        let p = vstd::arithmetic::power::pow(10, k);
        vstd::arithmetic::power::lemma_pow_positive(10, k);
        vstd::arithmetic::div_mod::lemma_fundamental_div_mod(digits_value(d.digits) as int, p);
        vstd::arithmetic::div_mod::lemma_mod_bound(digits_value(d.digits) as int, p);
    }
}

/// Digits stand for their number: one more digit makes ten times as much, plus
/// the digit.
pub proof fn law_digits_stand_for_their_number(s: Seq<char>, d: nat, n: nat)
    requires
        d < 10,
    ensures
        digits_value(s.push(text::digit_char(d))) == 10 * digits_value(s) + d,
        digits_value(text::decimal(n)) == n,
        all_digits(text::decimal(n)),
        n > 0 ==> text::decimal(n)[0] != '0',
{
    assert(s.push(text::digit_char(d)).drop_last() =~= s);
    lemma_decimal(n);
    lemma_no_leading_zero(n);
}

proof fn lemma_no_leading_zero(n: nat)
    ensures
        n > 0 ==> text::decimal(n)[0] != '0',
        text::decimal(n).len() > 0,
    decreases n,
{
    if n >= 10 {
        lemma_no_leading_zero(n / 10);
    }
}

/// Whole numbers are read as they are, up to the largest; behind them nothing
/// but digits is taken.
pub proof fn law_whole_numbers_are_read(s: Seq<char>, max: nat)
    ensures
        s.len() > 0 && all_digits(s) && digits_value(s) <= max ==> unsigned_of(s, max)
            == Ok::<_, IntError>(digits_value(s)),
        unsigned_of(s, max) matches Ok(v) ==> v <= max && s.len() > 0 && forall|i: int|
            1 <= i < s.len() ==> is_digit(#[trigger] s[i]),
        s.len() > 0 && !is_digit(s[0]) && s[0] != '+' ==> unsigned_of(s, max) is Err,
{
    if s.len() > 0 {
        let body = if s[0] == '+' {
            s.skip(1)
        } else {
            s
        };
        lemma_digit_run(body, 0);
        if all_digits(s) {
            assert(is_digit(s[0]));
            lemma_digit_run_is(s, 0, s.len() as int);
            assert(s.take(s.len() as int) =~= s);
        }
        if unsigned_of(s, max) is Ok {
            assert(digit_run(body, 0) == body.len());
            assert(body.take(body.len() as int) =~= body);
            assert forall|i: int| 1 <= i < s.len() implies is_digit(#[trigger] s[i]) by {
                if s[0] == '+' {
                    assert(body[i - 1] == s[i]);
                } else {
                    assert(body[i] == s[i]);
                }
            }
        }
    }
}

} // verus!
