//! SubRip (SRT) parser and serializer.
//!
//! The grammar is informal. Common deviations are tolerated (CRLF, a byte
//! order mark, missing or extra blank lines, missing or odd index numbers); the
//! serializer always emits the canonical form.
use vstd::prelude::*;
use crate::error::DubsyncError;
use crate::number;
use crate::subtitle;
use crate::subtitle::SubtitleEvent;
use crate::text;
use crate::time;

verus! {

pub const NS_PER_S: i128 = 1_000_000_000;

/// Without the byte order marks at its start.
pub open spec fn strip_bom(s: Seq<char>) -> Seq<char>
    decreases s.len(),
{
    if s.len() > 0 && s[0] == '\u{feff}' {
        strip_bom(s.skip(1))
    } else {
        s
    }
}

/// With every carriage return in front of a line feed left out.
pub open spec fn crlf_to_lf(s: Seq<char>) -> Seq<char>
    decreases s.len(),
{
    if s.len() == 0 {
        s
    } else if s.len() >= 2 && s[0] == '\r' && s[1] == '\n' {
        seq!['\n'] + crlf_to_lf(s.skip(2))
    } else {
        seq![s[0]] + crlf_to_lf(s.skip(1))
    }
}

/// Without one carriage return at the end.
pub open spec fn strip_cr(s: Seq<char>) -> Seq<char> {
    if s.len() > 0 && s.last() == '\r' {
        s.drop_last()
    } else {
        s
    }
}

/// The lines of a text: each ends with a line feed, an optional carriage
/// return before it; the last line may go without.
pub open spec fn lines_of(s: Seq<char>) -> Seq<Seq<char>>
    decreases s.len(),
{
    if s.len() == 0 {
        Seq::empty()
    } else {
        let k = text::next_index(s, '\n', 0);
        if k < 0 || k >= s.len() {
            seq![s]
        } else {
            seq![strip_cr(s.take(k))] + lines_of(s.skip(k + 1))
        }
    }
}

/// The lines that the parser works on.
pub open spec fn document_lines(s: Seq<char>) -> Seq<Seq<char>> {
    lines_of(crlf_to_lf(strip_bom(s)))
}

/// Seconds beyond this many nanoseconds count as it: it lies outside of every
/// segment and is written like anything beyond it.
pub const SECONDS_LIMIT: u128 = 10_000_000_000_000_000_000_000_000_000_000_000_000;

/// A whole number of nanoseconds.
pub open spec fn total_time(h: u32, m: u32, secs: number::DecimalView) -> i128 {
    let v = time::min2(number::scaled(secs, 9), SECONDS_LIMIT as int);
    let total = (h * 3600 + m * 60) * 1_000_000_000 + if secs.negative {
        -v
    } else {
        v
    };
    total as i128
}

/// The time that `HH:MM:SS,mmm` stands for; a `.` may stand for the `,`.
#[verifier::opaque]
pub open spec fn time_of(raw: Seq<char>) -> Result<i128, Seq<char>> {
    let s = text::replaced(text::trim(raw), ',', '.');
    let c1 = text::next_index(s, ':', 0);
    let c2 = text::next_index(s, ':', c1 + 1);
    match number::u32_of(s.take(c1)) {
        Err(e) => Err("bad hours in `"@ + raw + "`: "@ + e.text()),
        Ok(h) => if c1 >= s.len() {
            Err("missing minutes in `"@ + raw + "`"@)
        } else {
            match number::u32_of(s.subrange(c1 + 1, c2)) {
                Err(e) => Err("bad minutes in `"@ + raw + "`: "@ + e.text()),
                Ok(m) => if c2 >= s.len() {
                    Err("missing seconds in `"@ + raw + "`"@)
                } else {
                    let secs = s.skip(c2 + 1);
                    match number::decimal_of(secs) {
                        None => Err(
                            "bad seconds in `"@ + raw + "`: "@ + if secs.len() == 0 {
                                "cannot parse float from empty string"@
                            } else {
                                "invalid float literal"@
                            },
                        ),
                        Some(d) => Ok(total_time(h, m, d)),
                    }
                },
            }
        },
    }
}

/// `-->`
pub open spec fn arrow() -> Seq<char> {
    seq!['-', '-', '>']
}

/// The two times of a timestamp line. What stands behind a second arrow is
/// ignored.
#[verifier::opaque]
pub open spec fn times_of(line: Seq<char>) -> Result<(i128, i128), Seq<char>> {
    let rest = text::behind(line, arrow());
    let end = if text::contains(rest, arrow()) {
        text::before(rest, arrow())
    } else {
        rest
    };
    if !text::contains(line, arrow()) {
        Err("missing end timestamp in `"@ + line + "`"@)
    } else {
        match time_of(text::before(line, arrow())) {
            Err(e) => Err(e),
            Ok(a) => match time_of(end) {
                Err(e) => Err(e),
                Ok(b) => Ok((a, b)),
            },
        }
    }
}

/// How many blank lines come first.
pub open spec fn blank_run(lines: Seq<Seq<char>>) -> int
    decreases lines.len(),
{
    if lines.len() > 0 && text::is_blank(lines[0]) {
        1 + blank_run(lines.skip(1))
    } else {
        0
    }
}

/// A timestamp line whose times can be read.
pub open spec fn is_times(line: Seq<char>) -> bool {
    times_of(line) is Ok
}

/// An event starts with the first of the lines: a timestamp line, or an index
/// line right in front of one. This is how an event is told from the text
/// before it where the blank line between them is missing.
pub open spec fn starts_event(lines: Seq<Seq<char>>) -> bool {
    &&& lines.len() > 0
    &&& is_times(lines[0]) || (number::u32_of(text::trim(lines[0])) is Ok && lines.len() > 1
        && is_times(lines[1]))
}

/// How many lines of text come first: those before a blank line or the start
/// of an event.
pub open spec fn text_run(lines: Seq<Seq<char>>) -> int
    decreases lines.len(),
{
    if lines.len() > 0 && !text::is_blank(lines[0]) && !starts_event(lines) {
        1 + text_run(lines.skip(1))
    } else {
        0
    }
}

/// The lines with line feeds between them.
pub open spec fn joined(lines: Seq<Seq<char>>) -> Seq<char>
    decreases lines.len(),
{
    if lines.len() == 0 {
        Seq::empty()
    } else if lines.len() == 1 {
        lines[0]
    } else {
        joined(lines.drop_last()) + seq!['\n'] + lines.last()
    }
}

/// The index and the number of lines of an event's head, which starts with a
/// line that is not blank: an index line and a timestamp line, or a timestamp
/// line alone, which gets the number after the `count` events before it.
#[verifier::opaque]
pub open spec fn head_of(lines: Seq<Seq<char>>, count: int) -> Result<(u32, int), Seq<char>> {
    match number::u32_of(text::trim(lines[0])) {
        Ok(n) => if lines.len() < 2 {
            Err("trailing index `"@ + lines[0] + "` with no timestamp line"@)
        } else if !text::contains(lines[1], arrow()) {
            Err(
                "expected timestamp after index line `"@ + lines[0] + "`, got `"@ + lines[1]
                    + "`"@,
            )
        } else {
            Ok((n, 2))
        },
        Err(_) => if text::contains(lines[0], arrow()) {
            Ok((((count % 0x1_0000_0000 + 1) % 0x1_0000_0000) as u32, 1))
        } else {
            Err("expected index or timestamp line, got `"@ + lines[0] + "`"@)
        },
    }
}

/// The events on `lines`, `count` events having come before.
pub open spec fn events_of(lines: Seq<Seq<char>>, count: int) -> Result<
    Seq<subtitle::Cue>,
    Seq<char>,
>
    decreases lines.len(),
{
    let b = blank_run(lines);
    if b < 0 || b >= lines.len() {
        Ok(Seq::empty())
    } else {
        let here = lines.skip(b);
        match head_of(here, count) {
            Err(e) => Err(e),
            Ok((index, n)) => match times_of(here[n - 1]) {
                Err(e) => Err(e),
                Ok((start_ns, end_ns)) => {
                    let body = here.skip(n);
                    let k = text_run(body);
                    if k < 0 || n < 1 || n > here.len() || k > body.len() {
                        Ok(Seq::empty())
                    } else {
                        let cue = subtitle::Cue {
                            index,
                            start_ns,
                            end_ns,
                            text: joined(body.take(k)),
                        };
                        match events_of(body.skip(k), count + 1) {
                            Err(e) => Err(e),
                            Ok(rest) => Ok(seq![cue] + rest),
                        }
                    }
                },
            },
        }
    }
}

/// What a document parses to.
pub open spec fn parsed(s: Seq<char>) -> Result<Seq<subtitle::Cue>, Seq<char>> {
    events_of(document_lines(s), 0)
}

/// `HH:MM:SS,mmm` for a time, rounded to the millisecond; times before zero
/// count as zero.
#[verifier::opaque]
pub open spec fn stamp(ns: int) -> Seq<char> {
    let ms = stamp_ms(ns);
    text::zero_pad(text::decimal((ms / 3_600_000) as nat), 2) + seq![':'] + text::zero_pad(
        text::decimal((ms / 60_000 % 60) as nat),
        2,
    ) + seq![':'] + text::zero_pad(text::decimal((ms / 1000 % 60) as nat), 2) + seq![',']
        + text::zero_pad(text::decimal((ms % 1000) as nat), 3)
}

/// The milliseconds that a time is written as, at most what a `u64` holds.
pub open spec fn stamp_ms(ns: int) -> int {
    if ns < 0 {
        0
    } else {
        time::min2((ns + 500_000) / 1_000_000, u64::MAX as int)
    }
}

/// The timestamp line of an event.
pub open spec fn stamp_line(start_ns: int, end_ns: int) -> Seq<char> {
    stamp(start_ns) + seq![' '] + arrow() + seq![' '] + stamp(end_ns)
}

/// One event in canonical form: number, times, text, blank line.
pub open spec fn block(n: int, cue: subtitle::Cue) -> Seq<char> {
    text::decimal(n as nat) + seq!['\n'] + stamp_line(cue.start_ns as int, cue.end_ns as int)
        + seq!['\n'] + cue.text + seq!['\n', '\n']
}

/// The document for `events`, numbered from 1.
pub open spec fn document(events: Seq<subtitle::Cue>) -> Seq<char>
    decreases events.len(),
{
    if events.len() == 0 {
        Seq::empty()
    } else {
        document(events.drop_last()) + block(events.len() as int, events.last())
    }
}

/// The views of a list of lines.
pub open spec fn line_views(v: Seq<Vec<char>>) -> Seq<Seq<char>> {
    Seq::new(v.len(), |i: int| v[i]@)
}

fn skip_bom(s: &Vec<char>) -> (r: usize)
    ensures
        r <= s@.len(),
        s@.skip(r as int) == strip_bom(s@),
{
    let mut i: usize = 0;
    assert(s@.skip(0) =~= s@);
    while i < s.len() && s[i] == '\u{feff}'
        invariant
            i <= s@.len(),
            strip_bom(s@.skip(i as int)) == strip_bom(s@),
        decreases s@.len() - i,
    {
        assert(s@.skip(i as int).skip(1) =~= s@.skip(i + 1));
        i += 1;
    }
    i
}

fn normalize_newlines(s: &Vec<char>, from: usize) -> (r: Vec<char>)
    requires
        from <= s@.len(),
    ensures
        r@ == crlf_to_lf(s@.skip(from as int)),
{
    let mut r: Vec<char> = Vec::new();
    let mut i: usize = from;
    let n: usize = s.len();
    while i < n
        invariant
            from <= i <= n == s@.len(),
            r@ + crlf_to_lf(s@.skip(i as int)) == crlf_to_lf(s@.skip(from as int)),
        decreases n - i,
    {
        let ghost before = r@;
        let ghost here = s@.skip(i as int);
        if s[i] == '\r' && n - i >= 2 && s[i + 1] == '\n' {
            assert(here.skip(2) =~= s@.skip(i + 2));
            r.push('\n');
            i += 2;
            assert(before + (seq!['\n'] + crlf_to_lf(s@.skip(i as int))) =~= r@ + crlf_to_lf(
                s@.skip(i as int),
            ));
        } else {
            assert(here.skip(1) =~= s@.skip(i + 1));
            r.push(s[i]);
            i += 1;
            assert(before + (seq![s@[i - 1]] + crlf_to_lf(s@.skip(i as int))) =~= r@ + crlf_to_lf(
                s@.skip(i as int),
            ));
        }
    }
    assert(s@.skip(i as int) =~= Seq::empty());
    r
}

fn split_lines(s: &Vec<char>) -> (r: Vec<Vec<char>>)
    ensures
        line_views(r@) == lines_of(s@),
{
    let mut r: Vec<Vec<char>> = Vec::new();
    let mut i: usize = 0;
    let n: usize = s.len();
    assert(s@.skip(0) =~= s@);
    assert(line_views(r@) + lines_of(s@.skip(0)) =~= lines_of(s@));
    while i < n
        invariant
            i <= n == s@.len(),
            line_views(r@) + lines_of(s@.skip(i as int)) == lines_of(s@),
        decreases n - i,
    {
        let ghost here = s@.skip(i as int);
        let ghost before = line_views(r@);
        let k: usize = text::find_char(s, '\n', i);
        proof {
            text::lemma_next_index(s@, '\n', i as int);
            assert forall|q: int| 0 <= q < k - i implies #[trigger] here[q] != '\n' by {
                assert(here[q] == s@[i + q]);
            }
            text::lemma_next_index_is(here, '\n', 0, k - i);
        }
        if k >= n {
            let line = text::copy_range(s, i, n);
            assert(line@ =~= here);
            r.push(line);
            i = n;
            assert(s@.skip(i as int) =~= Seq::empty());
            assert(line_views(r@) =~= before + seq![here]);
        } else {
            let end: usize = if k > i && s[k - 1] == '\r' {
                k - 1
            } else {
                k
            };
            let line = text::copy_range(s, i, end);
            assert(here.take(k - i) =~= s@.subrange(i as int, k as int));
            assert(line@ =~= strip_cr(here.take(k - i)));
            assert(here.skip(k - i + 1) =~= s@.skip(k + 1));
            r.push(line);
            i = k + 1;
            assert(line_views(r@) + lines_of(s@.skip(i as int)) =~= before + (seq![line@]
                + lines_of(s@.skip(i as int))));
        }
    }
    assert(s@.skip(i as int) =~= Seq::empty());
    assert(line_views(r@) =~= lines_of(s@));
    r
}

/// `open` + `middle` + `close`
fn quoted(open_text: &str, middle: &Vec<char>, close_text: &str) -> (r: String)
    ensures
        r@ == open_text@ + middle@ + close_text@,
{
    let mut r = String::from_str(open_text);
    let m = text::string_of(middle, 0, middle.len());
    r.append(m.as_str());
    r.append(close_text);
    proof {
        assert(middle@.subrange(0, middle@.len() as int) =~= middle@);
    }
    r
}

/// Parses one `HH:MM:SS,mmm` time.
pub fn parse_one_timestamp(raw: &Vec<char>) -> (r: Result<i128, DubsyncError>)
    ensures
        r matches Ok(t) ==> subtitle::time_fits(t),
        match time_of(raw@) {
            Ok(t) => r == Ok::<_, DubsyncError>(t),
            Err(e) => r matches Err(DubsyncError::SubtitleParse(m)) && m@ == e,
        },
{
    proof {
        reveal(time_of);
    }
    let trimmed = text::trim_chars(raw);
    let s = text::replace_char(&trimmed, ',', '.');
    let n: usize = s.len();
    let c1: usize = text::find_char(&s, ':', 0);
    let hours = text::copy_range(&s, 0, c1);
    assert(hours@ =~= s@.take(c1 as int));
    let h: u32 = match number::parse_u32(&hours) {
        Ok(h) => h,
        Err(e) => {
            let mut m = quoted("bad hours in `", raw, "`: ");
            m.append(e.message());
            return Err(DubsyncError::SubtitleParse(m));
        },
    };
    if c1 >= n {
        return Err(DubsyncError::SubtitleParse(quoted("missing minutes in `", raw, "`")));
    }
    let c2: usize = text::find_char(&s, ':', c1 + 1);
    let minutes = text::copy_range(&s, c1 + 1, c2);
    let m: u32 = match number::parse_u32(&minutes) {
        Ok(m) => m,
        Err(e) => {
            let mut m = quoted("bad minutes in `", raw, "`: ");
            m.append(e.message());
            return Err(DubsyncError::SubtitleParse(m));
        },
    };
    if c2 >= n {
        return Err(DubsyncError::SubtitleParse(quoted("missing seconds in `", raw, "`")));
    }
    let secs = text::copy_range(&s, c2 + 1, n);
    assert(secs@ =~= s@.skip(c2 + 1));
    let d: number::Decimal = match number::parse_decimal(&secs) {
        Some(d) => d,
        None => {
            let mut m = quoted("bad seconds in `", raw, "`: ");
            if secs.len() == 0 {
                m.append("cannot parse float from empty string");
            } else {
                m.append("invalid float literal");
            }
            return Err(DubsyncError::SubtitleParse(m));
        },
    };
    let len: usize = d.digits.len();
    let v: u128 = match number::scale_within(&d, 9, SECONDS_LIMIT) {
        Some(v) => v,
        None => SECONDS_LIMIT,
    };
    let whole: i128 = (h as i128 * 3600 + m as i128 * 60) * NS_PER_S;
    let total: i128 = if d.negative {
        whole - v as i128
    } else {
        whole + v as i128
    };
    Ok(total)
}

fn arrow_chars() -> (r: Vec<char>)
    ensures
        r@ == arrow(),
{
    let mut r: Vec<char> = Vec::new();
    r.push('-');
    r.push('-');
    r.push('>');
    r
}

fn has_arrow(line: &Vec<char>) -> (r: bool)
    ensures
        r == text::contains(line@, arrow()),
{
    let a = arrow_chars();
    match text::find_chars(line, &a) {
        Some(i) => {
            assert(text::occurs_at(line@, arrow(), i as int));
            true
        },
        None => false,
    }
}

/// Parses a timestamp line: `HH:MM:SS,mmm --> HH:MM:SS,mmm`.
pub fn parse_timestamps(line: &Vec<char>) -> (r: Result<(i128, i128), DubsyncError>)
    ensures
        r matches Ok(t) ==> subtitle::time_fits(t.0) && subtitle::time_fits(t.1),
        match times_of(line@) {
            Ok(t) => r == Ok::<_, DubsyncError>(t),
            Err(e) => r matches Err(DubsyncError::SubtitleParse(m)) && m@ == e,
        },
{
    proof {
        reveal(times_of);
    }
    let a = arrow_chars();
    let cut: usize = match text::find_chars(line, &a) {
        Some(i) => i,
        None => {
            return Err(
                DubsyncError::SubtitleParse(quoted("missing end timestamp in `", line, "`")),
            );
        },
    };
    let n: usize = line.len();
    proof {
        text::lemma_first_at(line@, arrow(), cut as int);
    }
    let start = text::copy_range(line, 0, cut);
    let rest = text::copy_range(line, cut + 3, n);
    assert(start@ =~= line@.take(cut as int));
    assert(rest@ =~= line@.skip(cut + 3));
    let end = match text::find_chars(&rest, &a) {
        Some(i) => {
            proof {
                text::lemma_first_at(rest@, arrow(), i as int);
            }
            let e = text::copy_range(&rest, 0, i);
            assert(e@ =~= rest@.take(i as int));
            e
        },
        None => rest,
    };
    let start_ns: i128 = match parse_one_timestamp(&start) {
        Ok(t) => t,
        Err(e) => {
            return Err(e);
        },
    };
    match parse_one_timestamp(&end) {
        Ok(t) => Ok((start_ns, t)),
        Err(e) => Err(e),
    }
}

/// Both runs end inside the list, and a run of blank lines ends at a line that
/// is not blank.
pub proof fn lemma_runs(lines: Seq<Seq<char>>)
    ensures
        0 <= blank_run(lines) <= lines.len(),
        0 <= text_run(lines) <= lines.len(),
        blank_run(lines) < lines.len() ==> !text::is_blank(lines[blank_run(lines)]),
    decreases lines.len(),
{
    if lines.len() > 0 {
        lemma_runs(lines.skip(1));
    }
}

fn skip_blank(lines: &Vec<Vec<char>>, from: usize) -> (r: usize)
    requires
        from <= lines@.len(),
    ensures
        from <= r <= lines@.len(),
        r == from + blank_run(line_views(lines@).skip(from as int)),
{
    let ghost views = line_views(lines@);
    let mut i: usize = from;
    while i < lines.len() && text::chars_blank(&lines[i])
        invariant
            from <= i <= lines@.len(),
            views == line_views(lines@),
            from + blank_run(views.skip(from as int)) == i + blank_run(views.skip(i as int)),
        decreases lines@.len() - i,
    {
        assert(views.skip(i as int).skip(1) =~= views.skip(i + 1));
        i += 1;
    }
    i
}

fn reads_times(line: &Vec<char>) -> (r: bool)
    ensures
        r == is_times(line@),
{
    match parse_timestamps(line) {
        Ok(_) => true,
        Err(_) => false,
    }
}

/// Says whether an event starts at line `at`.
fn event_starts(lines: &Vec<Vec<char>>, at: usize) -> (r: bool)
    requires
        at < lines@.len(),
    ensures
        r == starts_event(line_views(lines@).skip(at as int)),
{
    let ghost here = line_views(lines@).skip(at as int);
    assert(here[0] == lines@[at as int]@);
    if reads_times(&lines[at]) {
        return true;
    }
    if lines.len() - at < 2 {
        return false;
    }
    assert(here[1] == lines@[at + 1]@);
    if !reads_times(&lines[at + 1]) {
        return false;
    }
    let trimmed = text::trim_chars(&lines[at]);
    match number::parse_u32(&trimmed) {
        Ok(_) => true,
        Err(_) => false,
    }
}

/// The text of an event: the lines from `from` up to a blank one or the next
/// event, joined. Also says where that is.
fn take_text(lines: &Vec<Vec<char>>, from: usize) -> (r: (String, usize))
    requires
        from <= lines@.len(),
    ensures
        ({
            let body = line_views(lines@).skip(from as int);
            &&& r.1 == from + text_run(body)
            &&& from <= r.1 <= lines@.len()
            &&& r.0@ == joined(body.take(text_run(body)))
        }),
{
    let ghost views = line_views(lines@);
    let ghost body = views.skip(from as int);
    let mut out = String::new();
    let mut i: usize = from;
    while i < lines.len() && !text::chars_blank(&lines[i]) && !event_starts(lines, i)
        invariant
            from <= i <= lines@.len(),
            views == line_views(lines@),
            body == views.skip(from as int),
            text_run(body) == i - from + text_run(views.skip(i as int)),
            out@ == joined(body.take(i - from)),
        decreases lines@.len() - i,
    {
        assert(views.skip(i as int).skip(1) =~= views.skip(i + 1));
        if i > from {
            out.push('\n');
        }
        let line = text::string_of(&lines[i], 0, lines[i].len());
        assert(line@ =~= views[i as int]);
        out.append(line.as_str());
        i += 1;
        proof {
            let now = body.take(i - from);
            assert(now.drop_last() =~= body.take(i - 1 - from));
            assert(now.last() == views[i - 1]);
        }
    }
    (out, i)
}

/// Parses the head of an event at line `at`, which is not blank.
fn parse_head(lines: &Vec<Vec<char>>, at: usize, count: usize) -> (r: Result<
    (u32, usize),
    DubsyncError,
>)
    requires
        at < lines@.len(),
    ensures
        match head_of(line_views(lines@).skip(at as int), count as int) {
            Ok(h) => r matches Ok(got) && got.0 == h.0 && got.1 == h.1 && 1 <= got.1 && at + got.1
                <= lines@.len(),
            Err(e) => r matches Err(DubsyncError::SubtitleParse(m)) && m@ == e,
        },
{
    proof {
        reveal(head_of);
    }
    let ghost here = line_views(lines@).skip(at as int);
    let first = &lines[at];
    assert(here[0] == first@);
    let trimmed = text::trim_chars(first);
    match number::parse_u32(&trimmed) {
        Ok(n) => {
            if lines.len() - at < 2 {
                return Err(
                    DubsyncError::SubtitleParse(
                        quoted("trailing index `", first, "` with no timestamp line"),
                    ),
                );
            }
            let second = &lines[at + 1];
            assert(here[1] == second@);
            if !has_arrow(second) {
                let mut m = quoted("expected timestamp after index line `", first, "`, got `");
                let l = text::string_of(second, 0, second.len());
                assert(l@ =~= second@);
                m.append(l.as_str());
                m.append("`");
                return Err(DubsyncError::SubtitleParse(m));
            }
            Ok((n, 2))
        },
        Err(_) => {
            if !has_arrow(first) {
                return Err(
                    DubsyncError::SubtitleParse(
                        quoted("expected index or timestamp line, got `", first, "`"),
                    ),
                );
            }
            let low: u64 = count as u64 % 0x1_0000_0000;
            Ok((((low + 1) % 0x1_0000_0000) as u32, 1))
        },
    }
}

/// Parses an SRT document.
///
/// Tolerated: LF or CRLF line ends, byte order marks at the start, missing or
/// non-sequential index numbers, missing or extra blank lines between events. A
/// line where an index or a timestamp has to stand and does not, or a time that
/// cannot be read there, fails.
pub fn parse(document: &str) -> (r: Result<Vec<SubtitleEvent>, DubsyncError>)
    ensures
        match parsed(document@) {
            Ok(c) => r matches Ok(events) && subtitle::cues(events@) == c,
            Err(e) => r matches Err(DubsyncError::SubtitleParse(m)) && m@ == e,
        },
        r matches Ok(events) ==> subtitle::times_fit(events@),
{
    let chars = text::chars_of(document);
    let from: usize = skip_bom(&chars);
    let cleaned = normalize_newlines(&chars, from);
    let lines = split_lines(&cleaned);
    let ghost views = line_views(lines@);
    assert(views == document_lines(document@));
    let mut events: Vec<SubtitleEvent> = Vec::new();
    let mut i: usize = 0;
    assert(views.skip(0) =~= views);
    proof {
        if let Ok(rest) = events_of(views, 0) {
            assert(subtitle::cues(events@) + rest =~= rest);
        }
    }
    loop
        invariant_except_break
            match events_of(views.skip(i as int), events@.len() as int) {
                Ok(rest) => parsed(document@) == Ok::<_, Seq<char>>(
                    subtitle::cues(events@) + rest,
                ),
                Err(e) => parsed(document@) == Err::<Seq<subtitle::Cue>, _>(e),
            },
        invariant
            i <= lines@.len(),
            views == line_views(lines@),
            events@.len() <= i,
            subtitle::times_fit(events@),
        ensures
            parsed(document@) == Ok::<_, Seq<char>>(subtitle::cues(events@)),
        decreases lines@.len() - i,
    {
        let ghost rest_lines = views.skip(i as int);
        let at: usize = skip_blank(&lines, i);
        proof {
            lemma_runs(rest_lines);
        }
        if at >= lines.len() {
            assert(subtitle::cues(events@) + Seq::empty() =~= subtitle::cues(events@));
            break;
        }
        assert(rest_lines.skip(at - i) =~= views.skip(at as int));
        let ghost here = views.skip(at as int);
        let (index, n): (u32, usize) = match parse_head(&lines, at, events.len()) {
            Ok(h) => h,
            Err(e) => {
                return Err(e);
            },
        };
        assert(here[n - 1] == lines@[at + n - 1]@);
        let (start_ns, end_ns): (i128, i128) = match parse_timestamps(&lines[at + n - 1]) {
            Ok(t) => t,
            Err(e) => {
                return Err(e);
            },
        };
        let (body_text, next): (String, usize) = take_text(&lines, at + n);
        assert(here.skip(n as int) =~= views.skip(at + n));
        let ghost body = views.skip(at + n);
        proof {
            lemma_runs(body);
            assert(body.skip(text_run(body)) =~= views.skip(next as int));
        }
        let ghost before = subtitle::cues(events@);
        events.push(SubtitleEvent { index, start_ns, end_ns, text: body_text });
        i = next;
        proof {
            let cue = events@.last()@;
            assert(subtitle::cues(events@) =~= before + seq![cue]);
            if let Ok(tail) = events_of(views.skip(i as int), events@.len() as int) {
                assert(before + (seq![cue] + tail) =~= subtitle::cues(events@) + tail);
            }
        }
    }
    Ok(events)
}

/// `HH:MM:SS,mmm` for a time.
pub fn format_timestamp(ns: i128) -> (r: String)
    ensures
        r@ == stamp(ns as int),
{
    let mut out = String::new();
    push_timestamp(&mut out, ns);
    out
}

fn push_timestamp(out: &mut String, ns: i128)
    ensures
        final(out)@ == old(out)@ + stamp(ns as int),
{
    let ms: u64 = if ns < 0 {
        0
    } else {
        let exact: u128 = (ns as u128 + 500_000) / 1_000_000;
        if exact > u64::MAX as u128 {
            u64::MAX
        } else {
            exact as u64
        }
    };
    let ghost start = out@;
    text::push_padded(out, ms / 3_600_000, 2);
    out.push(':');
    text::push_padded(out, ms / 60_000 % 60, 2);
    out.push(':');
    text::push_padded(out, ms / 1000 % 60, 2);
    out.push(',');
    text::push_padded(out, ms % 1000, 3);
    proof {
        reveal(stamp);
        assert(out@ =~= start + stamp(ns as int));
    }
}

fn push_block(out: &mut String, n: u64, event: &SubtitleEvent)
    ensures
        final(out)@ == old(out)@ + block(n as int, event@),
{
    let ghost start = out@;
    text::push_decimal(out, n);
    out.push('\n');
    let ghost numbered = out@;
    push_timestamp(out, event.start_ns);
    out.append(" --> ");
    push_timestamp(out, event.end_ns);
    proof {
        reveal_strlit(" --> ");
        assert(" --> "@ =~= seq![' '] + arrow() + seq![' ']);
        assert(out@ =~= numbered + stamp_line(event.start_ns as int, event.end_ns as int));
    }
    out.push('\n');
    out.append(event.text.as_str());
    out.append("\n\n");
    proof {
        reveal_strlit("\n\n");
        assert("\n\n"@ =~= seq!['\n', '\n']);
        assert(out@ =~= start + block(n as int, event@));
    }
}

/// Serializes events to canonical SRT: numbered from 1, `,` before the
/// milliseconds, a blank line after each event.
pub fn serialize(events: &Vec<SubtitleEvent>) -> (r: String)
    ensures
        r@ == document(subtitle::cues(events@)),
{
    let mut out = String::new();
    let mut i: usize = 0;
    let ghost all = subtitle::cues(events@);
    while i < events.len()
        invariant
            i <= events@.len(),
            all == subtitle::cues(events@),
            out@ == document(all.take(i as int)),
        decreases events@.len() - i,
    {
        push_block(&mut out, i as u64 + 1, &events[i]);
        i += 1;
        proof {
            assert(all.take(i as int).drop_last() =~= all.take(i - 1));
            assert(all.take(i as int).last() == events@[i - 1]@);
        }
    }
    proof {
        assert(all.take(i as int) =~= all);
    }
    out
}

/// A stamp has hours, minutes, seconds and thousandths, in that order, each with
/// its number of digits.
pub proof fn law_stamp_fields(hours: nat, minutes: nat, seconds: nat, thousandths: nat)
    requires
        minutes < 60,
        seconds < 60,
        thousandths < 1000,
        hours <= u32::MAX,
    ensures
        stamp(
            1_000_000 * (3_600_000 * hours + 60_000 * minutes + 1000 * seconds + thousandths) as int,
        ) == text::zero_pad(text::decimal(hours), 2) + seq![':'] + text::zero_pad(
            text::decimal(minutes),
            2,
        ) + seq![':'] + text::zero_pad(text::decimal(seconds), 2) + seq![','] + text::zero_pad(
            text::decimal(thousandths),
            3,
        ),
{
    let ms = 3_600_000 * hours + 60_000 * minutes + 1000 * seconds + thousandths;
    lemma_stamp_ms(ms as int);
    lemma_fields(hours as int, minutes as int, seconds as int, thousandths as int);
    reveal(stamp);
}

proof fn lemma_stamp_ms(ms: int)
    requires
        0 <= ms <= u64::MAX,
    ensures
        stamp_ms(1_000_000 * ms) == ms,
{
}

proof fn lemma_fields(hours: int, minutes: int, seconds: int, thousandths: int)
    requires
        0 <= hours,
        0 <= minutes < 60,
        0 <= seconds < 60,
        0 <= thousandths < 1000,
    ensures
        ({
            let ms = 3_600_000 * hours + 60_000 * minutes + 1000 * seconds + thousandths;
            &&& ms / 3_600_000 == hours
            &&& ms / 60_000 % 60 == minutes
            &&& ms / 1000 % 60 == seconds
            &&& ms % 1000 == thousandths
        }),
{
    let ms = 3_600_000 * hours + 60_000 * minutes + 1000 * seconds + thousandths;
    assert(ms / 60_000 == 60 * hours + minutes);
    assert(ms / 1000 == 3600 * hours + 60 * minutes + seconds);
}

/// A time in a document is so many hours, minutes and seconds.
pub proof fn law_time_adds_up(h: u32, m: u32, secs: number::DecimalView)
    requires
        !secs.negative,
        number::scaled(secs, 9) <= 1_000_000_000_000_000_000,
    ensures
        total_time(h, m, secs) == 3_600_000_000_000 * h + 60_000_000_000 * m + number::scaled(
            secs,
            9,
        ),
{
    let e = secs.exponent + 9;
    let v = number::digits_value(secs.digits) as int;
    if e >= 0 {
        let p = vstd::arithmetic::power::pow(10, e as nat);
        vstd::arithmetic::power::lemma_pow_positive(10, e as nat);
        assert(v * p >= 0) by (nonlinear_arith)
            requires
                v >= 0,
                p > 0,
        ;
    } else {
        vstd::arithmetic::power::lemma_pow_positive(10, (-e) as nat);
        vstd::arithmetic::div_mod::lemma_div_pos_is_pos(
            v,
            vstd::arithmetic::power::pow(10, (-e) as nat),
        );
    }
}

} // verus!
