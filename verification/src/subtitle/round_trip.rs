//! What parsing gives back of a serialized document.
use vstd::prelude::*;
use crate::number;
use crate::subtitle;
use crate::subtitle::srt;
use crate::text;

verus! {

/// A time as it comes back: whole milliseconds, none before zero.
pub open spec fn rounded(ns: int) -> int {
    srt::stamp_ms(ns) * 1_000_000
}

/// A time whose hours can be read back.
pub open spec fn writable(ns: int) -> bool {
    srt::stamp_ms(ns) / 3_600_000 <= u32::MAX
}

/// Written times are at most half a millisecond off, and whole milliseconds
/// are exact. A time before zero is written as zero.
pub proof fn law_stamp_precision(ns: int)
    ensures
        0 <= ns <= u64::MAX * 1_000_000 ==> {
            &&& -500_000 <= rounded(ns) - ns <= 500_000
            &&& ns % 1_000_000 == 0 ==> rounded(ns) == ns
        },
        ns < 0 ==> srt::stamp(ns) == srt::stamp(0),
{
    reveal(srt::stamp);
}

/// The digits of the two-part number in `SS.mmm`.
proof fn lemma_value_concat3(a: Seq<char>, b: Seq<char>)
    requires
        b.len() == 3,
    ensures
        number::digits_value(a + b) == 1000 * number::digits_value(a) + number::digits_value(b),
{
    let s = a + b;
    let s1 = s.drop_last();
    let s2 = s1.drop_last();
    assert(s2.drop_last() =~= a);
    let b1 = b.drop_last();
    let b2 = b1.drop_last();
    assert(b2.drop_last() =~= Seq::empty());
    assert(s.last() == b.last());
    assert(s1.last() == b1.last());
    assert(s2.last() == b2.last());
    assert(number::digits_value(b2.drop_last()) == 0);
    assert(number::digits_value(b2) == number::digit_value(b2.last()));
    assert(number::digits_value(b1) == 10 * number::digits_value(b2) + number::digit_value(
        b1.last(),
    ));
    assert(number::digits_value(b) == 10 * number::digits_value(b1) + number::digit_value(b.last()));
    assert(number::digits_value(s2) == 10 * number::digits_value(a) + number::digit_value(
        s2.last(),
    ));
    assert(number::digits_value(s1) == 10 * number::digits_value(s2) + number::digit_value(
        s1.last(),
    ));
    assert(number::digits_value(s) == 10 * number::digits_value(s1) + number::digit_value(s.last()));
}

/// `SS.mmm` as a decimal number.
proof fn lemma_seconds(ss: Seq<char>, mmm: Seq<char>)
    requires
        number::all_digits(ss),
        number::all_digits(mmm),
        ss.len() == 2,
        mmm.len() == 3,
    ensures
        ({
            let s = ss + seq!['.'] + mmm;
            &&& number::decimal_of(s) matches Some(d)
            &&& !d.negative
            &&& number::scaled(d, 9) == (1000 * number::digits_value(ss) + number::digits_value(
                mmm,
            )) * 1_000_000
        }),
{
    let s = ss + seq!['.'] + mmm;
    assert(s[0] == ss[0]);
    assert(number::is_digit(ss[0]));
    assert forall|q: int| 0 <= q < 2 implies number::is_digit(#[trigger] s[q]) by {
        assert(s[q] == ss[q]);
    }
    assert(s[2] == '.');
    number::lemma_digit_run_is(s, 0, 2);
    assert forall|q: int| 3 <= q < 6 implies number::is_digit(#[trigger] s[q]) by {
        assert(s[q] == mmm[q - 3]);
    }
    number::lemma_digit_run_is(s, 3, 6);
    assert(s.len() == 6);
    assert(s.subrange(0, 2) + s.subrange(3, 6) =~= ss + mmm);
    let d = number::decimal_of(s)->0;
    assert(d.digits =~= ss + mmm);
    assert(d.exponent == -3);
    lemma_value_concat3(ss, mmm);
    assert(vstd::arithmetic::power::pow(10, 6) == 1_000_000) by {
        reveal_with_fuel(vstd::arithmetic::power::pow, 7);
    }
}

/// A character that a timestamp consists of.
pub open spec fn stamp_char(c: char) -> bool {
    number::is_digit(c) || c == ':' || c == ','
}

/// The pieces of a timestamp.
proof fn lemma_stamp_parts(ns: int) -> (parts: (Seq<char>, Seq<char>, Seq<char>, Seq<char>))
    requires
        writable(ns),
    ensures
        srt::stamp(ns) == parts.0 + seq![':'] + parts.1 + seq![':'] + parts.2 + seq![',']
            + parts.3,
        number::all_digits(parts.0),
        number::all_digits(parts.1),
        number::all_digits(parts.2),
        number::all_digits(parts.3),
        parts.0.len() >= 2,
        parts.1.len() == 2,
        parts.2.len() == 2,
        parts.3.len() == 3,
        number::u32_of(parts.0) == Ok::<_, number::IntError>(
            (srt::stamp_ms(ns) / 3_600_000) as u32,
        ),
        number::u32_of(parts.1) == Ok::<_, number::IntError>(
            (srt::stamp_ms(ns) / 60_000 % 60) as u32,
        ),
        number::digits_value(parts.2) == srt::stamp_ms(ns) / 1000 % 60,
        number::digits_value(parts.3) == srt::stamp_ms(ns) % 1000,
        forall|i: int| 0 <= i < srt::stamp(ns).len() ==> stamp_char(#[trigger] srt::stamp(ns)[i]),
{
    reveal(srt::stamp);
    let ms = srt::stamp_ms(ns);
    let h = (ms / 3_600_000) as nat;
    let m = (ms / 60_000 % 60) as nat;
    let s = (ms / 1000 % 60) as nat;
    let f = (ms % 1000) as nat;
    number::law_u32_round_trip(h as u32, 2);
    number::law_u32_round_trip(m as u32, 2);
    number::lemma_decimal(h);
    number::lemma_decimal(m);
    number::lemma_decimal(s);
    number::lemma_decimal(f);
    number::lemma_zero_pad(text::decimal(h), 2);
    number::lemma_zero_pad(text::decimal(m), 2);
    number::lemma_zero_pad(text::decimal(s), 2);
    number::lemma_zero_pad(text::decimal(f), 3);
    let parts = (
        text::zero_pad(text::decimal(h), 2),
        text::zero_pad(text::decimal(m), 2),
        text::zero_pad(text::decimal(s), 2),
        text::zero_pad(text::decimal(f), 3),
    );
    let t = srt::stamp(ns);
    assert(t == parts.0 + seq![':'] + parts.1 + seq![':'] + parts.2 + seq![','] + parts.3);
    assert forall|i: int| 0 <= i < t.len() implies stamp_char(#[trigger] t[i]) by {
        let a = parts.0.len() as int;
        if i < a {
            assert(t[i] == parts.0[i]);
        } else if i == a {
        } else if i < a + 3 {
            assert(t[i] == parts.1[i - a - 1]);
        } else if i == a + 3 {
        } else if i < a + 6 {
            assert(t[i] == parts.2[i - a - 4]);
        } else if i == a + 6 {
        } else {
            assert(t[i] == parts.3[i - a - 7]);
        }
    }
    parts
}

proof fn lemma_replaced_digits(s: Seq<char>)
    requires
        number::all_digits(s),
    ensures
        text::replaced(s, ',', '.') == s,
{
    assert forall|i: int| 0 <= i < s.len() implies s[i] != ',' by {
        assert(number::is_digit(s[i]));
    }
    assert(text::replaced(s, ',', '.') =~= s);
}

proof fn lemma_replaced_concat(a: Seq<char>, b: Seq<char>)
    ensures
        text::replaced(a + b, ',', '.') == text::replaced(a, ',', '.') + text::replaced(
            b,
            ',',
            '.',
        ),
{
    assert(text::replaced(a + b, ',', '.') =~= text::replaced(a, ',', '.') + text::replaced(
        b,
        ',',
        '.',
    ));
}

/// A timestamp with its comma replaced.
proof fn lemma_replaced_stamp(hh: Seq<char>, mm: Seq<char>, ss: Seq<char>, mmm: Seq<char>)
    requires
        number::all_digits(hh),
        number::all_digits(mm),
        number::all_digits(ss),
        number::all_digits(mmm),
    ensures
        text::replaced(
            hh + seq![':'] + mm + seq![':'] + ss + seq![','] + mmm,
            ',',
            '.',
        ) == hh + seq![':'] + mm + seq![':'] + ss + seq!['.'] + mmm,
{
    lemma_replaced_digits(hh);
    lemma_replaced_digits(mm);
    lemma_replaced_digits(ss);
    lemma_replaced_digits(mmm);
    lemma_replaced_concat(hh, seq![':']);
    lemma_replaced_concat(hh + seq![':'], mm);
    lemma_replaced_concat(hh + seq![':'] + mm, seq![':']);
    lemma_replaced_concat(hh + seq![':'] + mm + seq![':'], ss);
    lemma_replaced_concat(hh + seq![':'] + mm + seq![':'] + ss, seq![',']);
    lemma_replaced_concat(hh + seq![':'] + mm + seq![':'] + ss + seq![','], mmm);
    assert(text::replaced(seq![':'], ',', '.') =~= seq![':']);
    assert(text::replaced(seq![','], ',', '.') =~= seq!['.']);
}

/// Where the colons of a timestamp are, and what stands between them.
proof fn lemma_cut_stamp(
    s: Seq<char>,
    hh: Seq<char>,
    mm: Seq<char>,
    ss: Seq<char>,
    mmm: Seq<char>,
)
    requires
        s == hh + seq![':'] + mm + seq![':'] + ss + seq!['.'] + mmm,
        number::all_digits(hh),
        number::all_digits(mm),
        mm.len() == 2,
        ss.len() == 2,
        mmm.len() == 3,
    ensures
        text::next_index(s, ':', 0) == hh.len(),
        text::next_index(s, ':', hh.len() as int + 1) == hh.len() + 3,
        hh.len() + 3 < s.len(),
        s.take(hh.len() as int) == hh,
        s.subrange(hh.len() as int + 1, hh.len() as int + 3) == mm,
        s.skip(hh.len() as int + 4) == ss + seq!['.'] + mmm,
{
    let a = hh.len() as int;
    assert forall|q: int| 0 <= q < a implies #[trigger] s[q] != ':' by {
        assert(s[q] == hh[q]);
        assert(number::is_digit(hh[q]));
    }
    text::lemma_next_index_is(s, ':', 0, a);
    assert forall|q: int| a + 1 <= q < a + 3 implies #[trigger] s[q] != ':' by {
        assert(s[q] == mm[q - a - 1]);
        assert(number::is_digit(mm[q - a - 1]));
    }
    text::lemma_next_index_is(s, ':', a + 1, a + 3);
    assert(s.take(a) =~= hh);
    assert(s.subrange(a + 1, a + 3) =~= mm);
    assert(s.skip(a + 4) =~= ss + seq!['.'] + mmm);
}

/// A written time, with white space around it or not, reads back rounded.
#[verifier::rlimit(40)]
#[verifier::spinoff_prover]
proof fn lemma_stamp_time(ns: int, raw: Seq<char>)
    requires
        writable(ns),
        text::trim(raw) == srt::stamp(ns),
    ensures
        srt::time_of(raw) == Ok::<_, Seq<char>>(rounded(ns) as i128),
{
    let (hh, mm, ss, mmm) = lemma_stamp_parts(ns);
    let s = text::replaced(srt::stamp(ns), ',', '.');
    lemma_replaced_stamp(hh, mm, ss, mmm);
    lemma_cut_stamp(s, hh, mm, ss, mmm);
    lemma_seconds(ss, mmm);
    let ms = srt::stamp_ms(ns);
    assert(ms == (ms / 3_600_000) * 3_600_000 + (ms / 60_000 % 60) * 60_000 + (ms / 1000 % 60)
        * 1000 + ms % 1000);
    reveal(srt::time_of);
}

/// A text that looks like a timestamp: digits at both ends, and nothing but
/// digits, colons and commas.
pub open spec fn stamp_like(s: Seq<char>) -> bool {
    &&& s.len() > 0
    &&& number::is_digit(s[0])
    &&& number::is_digit(s.last())
    &&& forall|i: int| 0 <= i < s.len() ==> stamp_char(#[trigger] s[i])
}

proof fn lemma_stamp_like(ns: int)
    requires
        writable(ns),
    ensures
        stamp_like(srt::stamp(ns)),
{
    let p = lemma_stamp_parts(ns);
    let x = srt::stamp(ns);
    assert(p.0[0] == x[0]);
    assert(number::is_digit(p.0[0]));
    assert(x.last() == p.3[2]);
    assert(number::is_digit(p.3[2]));
}

/// Where there is no dash there is no arrow.
proof fn lemma_no_dash(s: Seq<char>, j: int)
    requires
        text::occurs_at(s, srt::arrow(), j),
    ensures
        0 <= j < s.len(),
        s[j] == '-',
{
    assert(s.subrange(j, j + 3)[0] == srt::arrow()[0]);
}

proof fn lemma_no_arrow(y: Seq<char>)
    requires
        stamp_like(y),
    ensures
        !text::contains(seq![' '] + y, srt::arrow()),
{
    let rest = seq![' '] + y;
    if text::contains(rest, srt::arrow()) {
        let j = choose|j: int| text::occurs_at(rest, srt::arrow(), j);
        lemma_no_dash(rest, j);
        if j > 0 {
            assert(stamp_char(y[j - 1]));
        }
    }
}

/// The arrow of `x --> y` does not stand inside `x`.
proof fn lemma_no_earlier_arrow(x: Seq<char>, rest: Seq<char>, j: int)
    requires
        stamp_like(x),
        0 <= j <= x.len(),
    ensures
        !text::occurs_at(x.push(' ') + rest, srt::arrow(), j),
{
    let line = x.push(' ') + rest;
    if text::occurs_at(line, srt::arrow(), j) {
        lemma_no_dash(line, j);
        if j < x.len() {
            assert(line[j] == x[j]);
            assert(stamp_char(x[j]));
        } else {
            assert(line[j] == ' ');
        }
    }
}

/// Where the arrow of `x --> y` stands.
proof fn lemma_arrow_split(x: Seq<char>, y: Seq<char>)
    requires
        stamp_like(x),
        stamp_like(y),
    ensures
        ({
            let line = x + seq![' '] + srt::arrow() + seq![' '] + y;
            &&& text::contains(line, srt::arrow())
            &&& text::before(line, srt::arrow()) == x.push(' ')
            &&& text::behind(line, srt::arrow()) == seq![' '] + y
        }),
{
    let line = x + seq![' '] + srt::arrow() + seq![' '] + y;
    let head = x.push(' ');
    let tail = seq![' '] + y;
    let rest = srt::arrow() + tail;
    assert(line =~= head + rest);
    let cut = head.len() as int;
    assert(text::occurs_at(line, srt::arrow(), cut)) by {
        assert(line.subrange(cut, cut + 3) =~= srt::arrow());
    }
    assert(text::first_at(line, srt::arrow(), cut)) by {
        assert forall|j: int| 0 <= j < cut implies !#[trigger] text::occurs_at(
            line,
            srt::arrow(),
            j,
        ) by {
            lemma_no_earlier_arrow(x, rest, j);
        }
    }
    text::lemma_first_at(line, srt::arrow(), cut);
    assert(line.take(cut) =~= head);
    assert(line.skip(cut + 3) =~= tail);
}

/// A timestamp line is one line.
proof fn lemma_stamp_line_plain(x: Seq<char>, y: Seq<char>)
    requires
        stamp_like(x),
        stamp_like(y),
    ensures
        plain_line(x + seq![' '] + srt::arrow() + seq![' '] + y),
{
    let line = x + seq![' '] + srt::arrow() + seq![' '] + y;
    let cut = x.len() as int + 1;
    assert forall|i: int| 0 <= i < line.len() implies #[trigger] line[i] != '\n' by {
        if i < x.len() {
            assert(line[i] == x[i]);
            assert(stamp_char(x[i]));
        } else if i >= cut + 4 {
            assert(line[i] == y[i - cut - 4]);
            assert(stamp_char(y[i - cut - 4]));
        }
    }
    assert(line.last() == y.last());
}

/// A written timestamp line gives back both times.
proof fn lemma_stamp_line(a: int, b: int)
    requires
        writable(a),
        writable(b),
    ensures
        srt::times_of(srt::stamp_line(a, b)) == Ok::<_, Seq<char>>(
            (rounded(a) as i128, rounded(b) as i128),
        ),
        text::contains(srt::stamp_line(a, b), srt::arrow()),
        plain_line(srt::stamp_line(a, b)),
{
    let x = srt::stamp(a);
    let y = srt::stamp(b);
    lemma_stamp_like(a);
    lemma_stamp_like(b);
    lemma_arrow_split(x, y);
    lemma_no_arrow(y);
    lemma_stamp_line_plain(x, y);
    text::lemma_trim_back(x, ' ');
    text::lemma_trim_id(x);
    text::lemma_trim_front(' ', y);
    text::lemma_trim_id(y);
    lemma_stamp_time(a, x.push(' '));
    lemma_stamp_time(b, seq![' '] + y);
    reveal(srt::times_of);
}

/// The lines of a document that does not start with a byte order mark.
pub open spec fn plain_lines(s: Seq<char>) -> Seq<Seq<char>> {
    srt::lines_of(srt::crlf_to_lf(s))
}

/// A line that comes back as it was written.
pub open spec fn plain_line(a: Seq<char>) -> bool {
    &&& forall|i: int| 0 <= i < a.len() ==> #[trigger] a[i] != '\n'
    &&& a.len() > 0 ==> a.last() != '\r'
}

proof fn lemma_crlf_line(a: Seq<char>, rest: Seq<char>)
    requires
        plain_line(a),
    ensures
        srt::crlf_to_lf(a + seq!['\n'] + rest) == a + seq!['\n'] + srt::crlf_to_lf(rest),
    decreases a.len(),
{
    let s = a + seq!['\n'] + rest;
    if a.len() == 0 {
        assert(s =~= seq!['\n'] + rest);
        assert(s.skip(1) =~= rest);
        assert(a + seq!['\n'] + srt::crlf_to_lf(rest) =~= seq!['\n'] + srt::crlf_to_lf(rest));
    } else {
        let t = a.skip(1);
        assert(s.skip(1) =~= t + seq!['\n'] + rest);
        assert(plain_line(t)) by {
            assert forall|i: int| 0 <= i < t.len() implies #[trigger] t[i] != '\n' by {
                assert(t[i] == a[i + 1]);
            }
        }
        lemma_crlf_line(t, rest);
        assert(s[0] == a[0]);
        if a.len() > 1 {
            assert(s[1] == a[1]);
        }
        assert(seq![a[0]] + (t + seq!['\n'] + srt::crlf_to_lf(rest)) =~= a + seq!['\n']
            + srt::crlf_to_lf(rest));
    }
}

/// A line and its line feed come back as one line, whatever follows.
proof fn lemma_first_line(a: Seq<char>, rest: Seq<char>)
    requires
        plain_line(a),
    ensures
        plain_lines(a + seq!['\n'] + rest) == seq![a] + plain_lines(rest),
{
    lemma_crlf_line(a, rest);
    let r = srt::crlf_to_lf(rest);
    let s = a + seq!['\n'] + r;
    assert forall|q: int| 0 <= q < a.len() implies #[trigger] s[q] != '\n' by {
        assert(s[q] == a[q]);
    }
    text::lemma_next_index_is(s, '\n', 0, a.len() as int);
    assert(s.take(a.len() as int) =~= a);
    assert(s.skip(a.len() as int + 1) =~= r);
}

/// The lines of a cue's text.
pub open spec fn pieces(t: Seq<char>) -> Seq<Seq<char>>
    decreases t.len(),
{
    let k = text::next_index(t, '\n', 0);
    if k < 0 || k >= t.len() {
        seq![t]
    } else {
        seq![t.take(k)] + pieces(t.skip(k + 1))
    }
}

/// Lines that come back as text: none is blank, none ends in a carriage
/// return, and none looks like the start of an event.
pub open spec fn text_lines(lines: Seq<Seq<char>>) -> bool {
    forall|i: int|
        0 <= i < lines.len() ==> !text::is_blank(#[trigger] lines[i]) && lines[i].last() != '\r'
            && !srt::starts_event(lines.skip(i))
}

/// A text that survives: none, or lines that come back as text.
pub open spec fn text_survives(t: Seq<char>) -> bool {
    t.len() == 0 || text_lines(pieces(t))
}

proof fn lemma_text_lines_tail(lines: Seq<Seq<char>>)
    requires
        text_lines(lines),
        lines.len() > 0,
    ensures
        text_lines(lines.skip(1)),
{
    let t = lines.skip(1);
    assert forall|i: int| 0 <= i < t.len() implies !text::is_blank(#[trigger] t[i]) && t[i].last()
        != '\r' && !srt::starts_event(t.skip(i)) by {
        assert(t[i] == lines[i + 1]);
        assert(t.skip(i) =~= lines.skip(i + 1));
    }
}

/// No piece holds a line feed.
proof fn lemma_pieces_plain(t: Seq<char>)
    ensures
        pieces(t).len() >= 1,
        forall|i: int, k: int|
            0 <= i < pieces(t).len() && 0 <= k < pieces(t)[i].len() ==> #[trigger] pieces(t)[i][k]
                != '\n',
    decreases t.len(),
{
    let k = text::next_index(t, '\n', 0);
    text::lemma_next_index(t, '\n', 0);
    if k < t.len() {
        lemma_pieces_plain(t.skip(k + 1));
        let rest = pieces(t.skip(k + 1));
        assert forall|i: int, j: int|
            0 <= i < pieces(t).len() && 0 <= j < pieces(t)[i].len() implies #[trigger] pieces(
            t,
        )[i][j] != '\n' by {
            if i > 0 {
                assert(pieces(t)[i] == rest[i - 1]);
            } else {
                assert(pieces(t)[0][j] == t[j]);
            }
        }
    }
}

/// A text and a line feed come back as the text's pieces.
proof fn lemma_text_lines(t: Seq<char>, rest: Seq<char>)
    requires
        text_lines(pieces(t)),
    ensures
        plain_lines(t + seq!['\n'] + rest) == pieces(t) + plain_lines(rest),
    decreases t.len(),
{
    lemma_pieces_plain(t);
    let k = text::next_index(t, '\n', 0);
    text::lemma_next_index(t, '\n', 0);
    let p = pieces(t)[0];
    assert(!text::is_blank(p) && p.last() != '\r');
    assert(plain_line(p));
    if k >= t.len() {
        assert(pieces(t) =~= seq![t]);
        lemma_first_line(t, rest);
    } else {
        let u = t.skip(k + 1);
        assert(pieces(t) =~= seq![p] + pieces(u));
        assert(pieces(t).skip(1) =~= pieces(u));
        lemma_text_lines_tail(pieces(t));
        lemma_text_lines(u, rest);
        assert(t + seq!['\n'] + rest =~= p + seq!['\n'] + (u + seq!['\n'] + rest));
        lemma_first_line(p, u + seq!['\n'] + rest);
        assert(seq![p] + (pieces(u) + plain_lines(rest)) =~= pieces(t) + plain_lines(rest));
    }
}

proof fn lemma_joined_front(p: Seq<char>, ps: Seq<Seq<char>>)
    requires
        ps.len() >= 1,
    ensures
        srt::joined(seq![p] + ps) == p + seq!['\n'] + srt::joined(ps),
    decreases ps.len(),
{
    let all = seq![p] + ps;
    assert(all.drop_last() =~= seq![p] + ps.drop_last());
    assert(all.last() == ps.last());
    if ps.len() == 1 {
        assert(all.drop_last() =~= seq![p]);
        assert(srt::joined(all.drop_last()) == p);
        assert(srt::joined(ps) == ps[0]);
    } else {
        lemma_joined_front(p, ps.drop_last());
        assert(srt::joined(all) =~= p + seq!['\n'] + srt::joined(ps));
    }
}

proof fn lemma_joined_pieces(t: Seq<char>)
    ensures
        srt::joined(pieces(t)) == t,
    decreases t.len(),
{
    let k = text::next_index(t, '\n', 0);
    text::lemma_next_index(t, '\n', 0);
    if k < t.len() {
        let u = t.skip(k + 1);
        lemma_joined_pieces(u);
        lemma_pieces_plain(u);
        lemma_joined_front(t.take(k), pieces(u));
        assert(t.take(k) + seq!['\n'] + u =~= t);
    }
}

/// A blank line is no timestamp line.
pub proof fn lemma_blank_no_times(line: Seq<char>)
    requires
        text::is_blank(line),
    ensures
        !text::contains(line, srt::arrow()),
        !srt::is_times(line),
{
    if text::contains(line, srt::arrow()) {
        let j = choose|j: int| text::occurs_at(line, srt::arrow(), j);
        lemma_no_dash(line, j);
        assert(text::is_white(line[j]));
    }
    reveal(srt::times_of);
}

/// Where the text ends: at the end of the lines, or at lines that do not start
/// with text and not with times either.
pub open spec fn ends_text(b: Seq<Seq<char>>) -> bool {
    b.len() == 0 || ((text::is_blank(b[0]) || srt::starts_event(b)) && !srt::is_times(b[0]))
}

proof fn lemma_text_run(a: Seq<Seq<char>>, b: Seq<Seq<char>>)
    requires
        text_lines(a),
        ends_text(b),
    ensures
        srt::text_run(a + b) == a.len(),
    decreases a.len(),
{
    let s = a + b;
    if a.len() > 0 {
        assert(s[0] == a[0]);
        assert(a.skip(0) =~= a);
        assert(!srt::starts_event(a));
        if a.len() > 1 {
            assert(s[1] == a[1]);
        } else if b.len() > 0 {
            assert(s[1] == b[0]);
        }
        assert(s.skip(1) =~= a.skip(1) + b);
        lemma_text_lines_tail(a);
        lemma_text_run(a.skip(1), b);
    } else {
        assert(s =~= b);
    }
}

/// A blank line in front changes nothing.
proof fn lemma_blank_front(rest: Seq<Seq<char>>, count: int)
    ensures
        srt::events_of(seq![Seq::<char>::empty()] + rest, count) == srt::events_of(rest, count),
{
    let s = seq![Seq::<char>::empty()] + rest;
    assert(s.skip(1) =~= rest);
    assert(text::is_blank(s[0]));
    let b = srt::blank_run(rest);
    srt::lemma_runs(rest);
    assert(srt::blank_run(s) == 1 + b);
    if 0 <= b < rest.len() {
        assert(s.skip(1 + b) =~= rest.skip(b));
    }
}

/// An event as it comes back, as number `n`.
pub open spec fn written(n: int, cue: subtitle::Cue) -> subtitle::Cue {
    subtitle::Cue {
        index: n as u32,
        start_ns: rounded(cue.start_ns as int) as i128,
        end_ns: rounded(cue.end_ns as int) as i128,
        text: cue.text,
    }
}

/// The events that come back as they were, up to their number and the rounding
/// of their times.
pub open spec fn cue_survives(cue: subtitle::Cue) -> bool {
    &&& text_survives(cue.text)
    &&& writable(cue.start_ns as int)
    &&& writable(cue.end_ns as int)
}

/// One event with the blank line after it, or without.
pub open spec fn entry(n: int, cue: subtitle::Cue, apart: bool) -> Seq<char> {
    if apart {
        srt::block(n, cue)
    } else {
        srt::block(n, cue).drop_last()
    }
}

/// The lines of one written event.
pub open spec fn entry_lines(n: int, cue: subtitle::Cue, apart: bool) -> Seq<Seq<char>> {
    seq![
        text::decimal(n as nat),
        srt::stamp_line(cue.start_ns as int, cue.end_ns as int),
    ] + (if cue.text.len() == 0 {
        seq![Seq::empty()]
    } else {
        pieces(cue.text)
    }) + (if apart {
        seq![Seq::empty()]
    } else {
        Seq::empty()
    })
}

proof fn lemma_number_line(n: int)
    requires
        0 <= n <= u32::MAX,
    ensures
        plain_line(text::decimal(n as nat)),
        !text::is_blank(text::decimal(n as nat)),
        number::u32_of(text::trim(text::decimal(n as nat))) == Ok::<_, number::IntError>(n as u32),
        text::decimal(n as nat).len() > 0,
        number::is_digit(text::decimal(n as nat)[0]),
{
    let d = text::decimal(n as nat);
    number::lemma_decimal(n as nat);
    assert(number::is_digit(d[0]));
    assert(number::is_digit(d.last()));
    assert(!text::is_white(d[0]));
    text::lemma_trim_id(d);
    number::law_u32_round_trip(n as u32, 0);
    assert forall|i: int| 0 <= i < d.len() implies #[trigger] d[i] != '\n' by {
        assert(number::is_digit(d[i]));
    }
}

#[verifier::spinoff_prover]
#[verifier::rlimit(40)]
proof fn lemma_entry_lines(n: int, cue: subtitle::Cue, apart: bool, rest: Seq<char>)
    requires
        0 <= n <= u32::MAX,
        cue_survives(cue),
    ensures
        plain_lines(entry(n, cue, apart) + rest) == entry_lines(n, cue, apart) + plain_lines(rest),
{
    let d = text::decimal(n as nat);
    let line = srt::stamp_line(cue.start_ns as int, cue.end_ns as int);
    let none = Seq::<char>::empty();
    lemma_number_line(n);
    lemma_stamp_line(cue.start_ns as int, cue.end_ns as int);
    assert(plain_line(none));
    let tail = if apart {
        none + seq!['\n'] + rest
    } else {
        rest
    };
    let body = cue.text + seq!['\n'] + tail;
    assert(entry(n, cue, apart) + rest =~= d + seq!['\n'] + (line + seq!['\n'] + body));
    lemma_first_line(d, line + seq!['\n'] + body);
    lemma_first_line(line, body);
    lemma_first_line(none, rest);
    if cue.text.len() == 0 {
        assert(body =~= none + seq!['\n'] + tail);
        lemma_first_line(none, tail);
    } else {
        lemma_text_lines(cue.text, tail);
    }
    assert(plain_lines(entry(n, cue, apart) + rest) =~= entry_lines(n, cue, apart) + plain_lines(
        rest,
    ));
}

proof fn lemma_entry_event(n: int, cue: subtitle::Cue, apart: bool, rest: Seq<Seq<char>>)
    requires
        0 < n <= u32::MAX,
        cue_survives(cue),
        ends_text(rest),
    ensures
        srt::events_of(entry_lines(n, cue, apart) + rest, n - 1) == match srt::events_of(rest, n) {
            Ok(more) => Ok::<_, Seq<char>>(seq![written(n, cue)] + more),
            Err(e) => Err(e),
        },
{
    let all = entry_lines(n, cue, apart) + rest;
    let d = text::decimal(n as nat);
    let line = srt::stamp_line(cue.start_ns as int, cue.end_ns as int);
    lemma_number_line(n);
    lemma_stamp_line(cue.start_ns as int, cue.end_ns as int);
    assert(all[0] == d);
    assert(all[1] == line);
    assert(srt::blank_run(all) == 0);
    assert(all.skip(0) =~= all);
    assert(srt::head_of(all, n - 1) == Ok::<_, Seq<char>>((n as u32, 2int))) by {
        reveal(srt::head_of);
    }
    let none = Seq::<char>::empty();
    let after = if apart {
        seq![none] + rest
    } else {
        rest
    };
    let (body_text, behind) = if cue.text.len() == 0 {
        (Seq::<Seq<char>>::empty(), seq![none] + after)
    } else {
        (pieces(cue.text), after)
    };
    let body = all.skip(2);
    assert(body =~= body_text + behind);
    assert(text::is_blank(none));
    lemma_blank_no_times(none);
    assert(ends_text(behind)) by {
        if behind != rest {
            assert(behind[0] == none);
        }
    }
    lemma_text_run(body_text, behind);
    assert(body.take(body_text.len() as int) =~= body_text);
    assert(body.skip(body_text.len() as int) =~= behind);
    lemma_blank_front(rest, n);
    lemma_blank_front(after, n);
    if cue.text.len() > 0 {
        lemma_joined_pieces(cue.text);
    } else {
        assert(cue.text =~= Seq::empty());
        assert(srt::joined(body_text) =~= cue.text);
    }
}

/// The entries of `events`, numbered from `first`; `apart` says which of them
/// have a blank line after them.
pub open spec fn entries(events: Seq<subtitle::Cue>, first: int, apart: Seq<bool>) -> Seq<char>
    decreases events.len(),
{
    if events.len() == 0 {
        Seq::empty()
    } else {
        entry(first, events[0], apart[0]) + entries(events.skip(1), first + 1, apart.skip(1))
    }
}

/// A blank line after every event.
pub open spec fn all_apart(n: nat) -> Seq<bool> {
    Seq::new(n, |i: int| true)
}

proof fn lemma_entries_back(events: Seq<subtitle::Cue>, first: int)
    requires
        events.len() > 0,
    ensures
        entries(events, first, all_apart(events.len())) == entries(
            events.drop_last(),
            first,
            all_apart((events.len() - 1) as nat),
        ) + srt::block(first + events.len() - 1, events.last()),
    decreases events.len(),
{
    let n = events.len();
    assert(all_apart(n).skip(1) =~= all_apart((n - 1) as nat));
    if n == 1 {
        assert(entries(events.skip(1), first + 1, all_apart(0)) =~= Seq::empty());
        assert(entries(events.drop_last(), first, all_apart(0)) =~= Seq::empty());
        assert(entries(events, first, all_apart(n)) =~= srt::block(first, events[0]));
    } else {
        let tail = events.skip(1);
        lemma_entries_back(tail, first + 1);
        assert(tail.drop_last() =~= events.drop_last().skip(1));
        assert(events.drop_last()[0] == events[0]);
        assert(all_apart((n - 1) as nat).skip(1) =~= all_apart((n - 2) as nat));
        assert(entries(events, first, all_apart(n)) =~= entries(
            events.drop_last(),
            first,
            all_apart((n - 1) as nat),
        ) + srt::block(first + n - 1, events.last()));
    }
}

proof fn lemma_document_is_entries(events: Seq<subtitle::Cue>)
    ensures
        srt::document(events) == entries(events, 1, all_apart(events.len())),
    decreases events.len(),
{
    if events.len() > 0 {
        lemma_entries_back(events, 1);
        lemma_document_is_entries(events.drop_last());
    }
}

/// The events that come back, numbered from `first`.
pub open spec fn all_written(events: Seq<subtitle::Cue>, first: int) -> Seq<subtitle::Cue> {
    Seq::new(events.len(), |i: int| written(first + i, events[i]))
}

/// What follows an event, an entry or nothing, ends its text.
proof fn lemma_entry_ends_text(n: int, cue: subtitle::Cue, apart: bool, rest: Seq<Seq<char>>)
    requires
        0 <= n <= u32::MAX,
        cue_survives(cue),
    ensures
        ends_text(entry_lines(n, cue, apart) + rest),
{
    let all = entry_lines(n, cue, apart) + rest;
    let d = text::decimal(n as nat);
    lemma_number_line(n);
    lemma_stamp_line(cue.start_ns as int, cue.end_ns as int);
    assert(all[0] == d);
    assert(all[1] == srt::stamp_line(cue.start_ns as int, cue.end_ns as int));
    assert(!srt::is_times(d)) by {
        reveal(srt::times_of);
        number::lemma_decimal(n as nat);
        if text::contains(d, srt::arrow()) {
            let j = choose|j: int| text::occurs_at(d, srt::arrow(), j);
            lemma_no_dash(d, j);
            assert(number::is_digit(d[j]));
        }
    }
}

proof fn lemma_entries_parse(events: Seq<subtitle::Cue>, first: int, apart: Seq<bool>)
    requires
        0 < first,
        first + events.len() <= u32::MAX + 1,
        forall|i: int| 0 <= i < events.len() ==> cue_survives(#[trigger] events[i]),
    ensures
        srt::events_of(plain_lines(entries(events, first, apart)), first - 1) == Ok::<
            _,
            Seq<char>,
        >(all_written(events, first)),
        ends_text(plain_lines(entries(events, first, apart))),
    decreases events.len(),
{
    if events.len() == 0 {
        assert(entries(events, first, apart) =~= Seq::empty());
        assert(srt::crlf_to_lf(Seq::empty()) =~= Seq::empty());
        assert(plain_lines(entries(events, first, apart)) =~= Seq::empty());
        assert(all_written(events, first) =~= Seq::empty());
    } else {
        let tail = events.skip(1);
        assert forall|i: int| 0 <= i < tail.len() implies cue_survives(#[trigger] tail[i]) by {
            assert(tail[i] == events[i + 1]);
        }
        assert(cue_survives(events[0]));
        let rest = entries(tail, first + 1, apart.skip(1));
        lemma_entries_parse(tail, first + 1, apart.skip(1));
        lemma_entry_lines(first, events[0], apart[0], rest);
        lemma_entry_event(first, events[0], apart[0], plain_lines(rest));
        lemma_entry_ends_text(first, events[0], apart[0], plain_lines(rest));
        assert(seq![written(first, events[0])] + all_written(tail, first + 1) =~= all_written(
            events,
            first,
        ));
    }
}

/// The blank lines between events may be missing: whichever of them are there,
/// a serialized document gives back its events, numbered from 1, with the same
/// text and with the same times rounded to the millisecond (times before zero
/// as zero).
pub proof fn law_blank_lines_may_be_missing(events: Seq<subtitle::Cue>, apart: Seq<bool>)
    requires
        events.len() <= u32::MAX,
        apart.len() == events.len(),
        forall|i: int| 0 <= i < events.len() ==> cue_survives(#[trigger] events[i]),
    ensures
        srt::parsed(entries(events, 1, apart)) == Ok::<_, Seq<char>>(all_written(events, 1)),
{
    lemma_entries_parse(events, 1, apart);
    let doc = entries(events, 1, apart);
    if events.len() > 0 {
        lemma_number_line(1);
        let d = text::decimal(1);
        assert(srt::block(1, events[0])[0] == d[0]);
        assert(doc[0] == d[0]);
    }
    assert(srt::strip_bom(doc) == doc);
}

/// Parsing a serialized document gives back its events, numbered from 1, with
/// the same text and with the same times rounded to the millisecond (times
/// before zero as zero).
pub proof fn law_serialize_parse_round_trip(events: Seq<subtitle::Cue>)
    requires
        events.len() <= u32::MAX,
        forall|i: int| 0 <= i < events.len() ==> cue_survives(#[trigger] events[i]),
    ensures
        srt::parsed(srt::document(events)) == Ok::<_, Seq<char>>(all_written(events, 1)),
{
    lemma_document_is_entries(events);
    law_blank_lines_may_be_missing(events, all_apart(events.len()));
}

} // verus!
