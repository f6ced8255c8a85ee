//! Deviations that parsing does not notice.
use vstd::prelude::*;
use crate::subtitle;
use crate::subtitle::round_trip;
use crate::subtitle::srt;
use crate::text;

verus! {

/// A byte order mark in front of a document changes nothing.
pub proof fn law_byte_order_mark(s: Seq<char>)
    ensures
        srt::parsed(seq!['\u{feff}'] + s) == srt::parsed(s),
{
    let marked = seq!['\u{feff}'] + s;
    assert(marked.skip(1) =~= s);
}

/// With a carriage return in front of every line feed.
pub open spec fn with_crlf(s: Seq<char>) -> Seq<char>
    decreases s.len(),
{
    if s.len() == 0 {
        s
    } else if s[0] == '\n' {
        seq!['\r', '\n'] + with_crlf(s.skip(1))
    } else {
        seq![s[0]] + with_crlf(s.skip(1))
    }
}

proof fn lemma_crlf_undone(s: Seq<char>)
    requires
        !s.contains('\r'),
    ensures
        srt::crlf_to_lf(with_crlf(s)) == s,
        srt::crlf_to_lf(s) == s,
    decreases s.len(),
{
    if s.len() > 0 {
        let t = s.skip(1);
        assert(s[0] != '\r');
        assert forall|i: int| 0 <= i < t.len() implies t[i] != '\r' by {
            assert(t[i] == s[i + 1]);
        }
        lemma_crlf_undone(t);
        let w = with_crlf(s);
        assert(seq![s[0]] + t =~= s);
        if s[0] == '\n' {
            assert(w[0] == '\r' && w[1] == '\n');
            assert(w.skip(2) =~= with_crlf(t));
        } else {
            assert(w[0] == s[0]);
            assert(w.skip(1) =~= with_crlf(t));
        }
    }
}

proof fn lemma_crlf_bom(s: Seq<char>)
    ensures
        srt::strip_bom(with_crlf(s)) == with_crlf(srt::strip_bom(s)),
    decreases s.len(),
{
    if s.len() > 0 {
        let w = with_crlf(s);
        if s[0] == '\u{feff}' {
            assert(w[0] == s[0]);
            assert(w.skip(1) =~= with_crlf(s.skip(1)));
            lemma_crlf_bom(s.skip(1));
        } else {
            assert(w[0] != '\u{feff}');
        }
    }
}

proof fn lemma_bom_tail(s: Seq<char>, c: char)
    requires
        !s.contains(c),
    ensures
        !srt::strip_bom(s).contains(c),
    decreases s.len(),
{
    if s.len() > 0 && s[0] == '\u{feff}' {
        let t = s.skip(1);
        assert forall|i: int| 0 <= i < t.len() implies t[i] != c by {
            assert(t[i] == s[i + 1]);
        }
        lemma_bom_tail(t, c);
    }
}

/// Line ends may be written with a carriage return.
pub proof fn law_crlf(s: Seq<char>)
    requires
        !s.contains('\r'),
    ensures
        srt::parsed(with_crlf(s)) == srt::parsed(s),
{
    lemma_crlf_bom(s);
    lemma_bom_tail(s, '\r');
    lemma_crlf_undone(srt::strip_bom(s));
}

/// Both fail, or both give the same events.
pub open spec fn same_outcome(
    a: Result<Seq<subtitle::Cue>, Seq<char>>,
    b: Result<Seq<subtitle::Cue>, Seq<char>>,
) -> bool {
    match (a, b) {
        (Ok(x), Ok(y)) => x == y,
        (Err(_), Err(_)) => true,
        _ => false,
    }
}

/// Lines that are all blank.
pub open spec fn all_blank(lines: Seq<Seq<char>>) -> bool {
    forall|i: int| 0 <= i < lines.len() ==> text::is_blank(#[trigger] lines[i])
}

/// Blank lines in front change nothing.
proof fn lemma_blanks_front(b: Seq<Seq<char>>, c: Seq<Seq<char>>, count: int)
    requires
        all_blank(b),
    ensures
        srt::blank_run(b + c) == b.len() + srt::blank_run(c),
        srt::events_of(b + c, count) == srt::events_of(c, count),
    decreases b.len(),
{
    let s = b + c;
    if b.len() == 0 {
        assert(s =~= c);
    } else {
        let t = b.skip(1);
        assert forall|i: int| 0 <= i < t.len() implies text::is_blank(#[trigger] t[i]) by {
            assert(t[i] == b[i + 1]);
        }
        lemma_blanks_front(t, c, count);
        assert(text::is_blank(b[0]));
        assert(s[0] == b[0]);
        assert(s.skip(1) =~= t + c);
        let k = srt::blank_run(c);
        srt::lemma_runs(c);
        if 0 <= k < c.len() {
            assert(s.skip(b.len() + k) =~= c.skip(k));
        }
    }
}

/// No line, or a blank one first.
pub open spec fn starts_blank(lines: Seq<Seq<char>>) -> bool {
    lines.len() == 0 || text::is_blank(lines[0])
}

proof fn lemma_starts_blank(b: Seq<Seq<char>>)
    requires
        starts_blank(b),
    ensures
        b.len() > 0 ==> !text::contains(b[0], srt::arrow()) && !srt::is_times(b[0]),
{
    if b.len() > 0 {
        round_trip::lemma_blank_no_times(b[0]);
    }
}

/// Text ends at a blank line or at the end, whatever comes behind it.
proof fn lemma_text_stops(
    a: Seq<Seq<char>>,
    b: Seq<Seq<char>>,
    d: Seq<Seq<char>>,
)
    requires
        starts_blank(b),
        starts_blank(d),
    ensures
        0 <= srt::text_run(a + b) <= a.len(),
        srt::text_run(a + b) == srt::text_run(a + d),
    decreases a.len(),
{
    let s = a + b;
    let t = a + d;
    lemma_starts_blank(b);
    lemma_starts_blank(d);
    if a.len() == 0 {
        assert(s =~= b);
        assert(t =~= d);
    } else {
        assert(s[0] == a[0] && t[0] == a[0]);
        if a.len() > 1 {
            assert(s[1] == a[1] && t[1] == a[1]);
        } else {
            assert(b.len() > 0 ==> s[1] == b[0]);
            assert(d.len() > 0 ==> t[1] == d[0]);
        }
        assert(s.skip(1) =~= a.skip(1) + b);
        assert(t.skip(1) =~= a.skip(1) + d);
        lemma_text_stops(a.skip(1), b, d);
    }
}

/// Where the first line that is not blank stands if there is one in `a`.
proof fn lemma_blank_run_in(a: Seq<Seq<char>>, b: Seq<Seq<char>>)
    requires
        srt::blank_run(a) < a.len(),
    ensures
        srt::blank_run(a + b) == srt::blank_run(a),
    decreases a.len(),
{
    let s = a + b;
    srt::lemma_runs(a);
    assert(s[0] == a[0]);
    if text::is_blank(a[0]) {
        assert(s.skip(1) =~= a.skip(1) + b);
        lemma_blank_run_in(a.skip(1), b);
    }
}

proof fn lemma_blank_run_whole(a: Seq<Seq<char>>)
    requires
        srt::blank_run(a) >= a.len(),
    ensures
        all_blank(a),
    decreases a.len(),
{
    if a.len() > 0 {
        srt::lemma_runs(a.skip(1));
        lemma_blank_run_whole(a.skip(1));
        assert forall|i: int| 0 <= i < a.len() implies text::is_blank(#[trigger] a[i]) by {
            if i > 0 {
                assert(a[i] == a.skip(1)[i - 1]);
            }
        }
    }
}

/// The head of an event in front of a blank line or the end.
proof fn lemma_head_before_blank(
    a: Seq<Seq<char>>,
    b: Seq<Seq<char>>,
    d: Seq<Seq<char>>,
    count: int,
)
    requires
        a.len() > 0,
        starts_blank(b),
        starts_blank(d),
    ensures
        match srt::head_of(a + b, count) {
            Ok(h) => srt::head_of(a + d, count) == Ok::<_, Seq<char>>(h) && 1 <= h.1 <= a.len(),
            Err(_) => srt::head_of(a + d, count) is Err,
        },
        b.len() > 0 && d.len() > 0 && b[0] == d[0] ==> srt::head_of(a + b, count) == srt::head_of(
            a + d,
            count,
        ),
{
    reveal(srt::head_of);
    lemma_starts_blank(b);
    lemma_starts_blank(d);
    assert((a + b)[0] == a[0] && (a + d)[0] == a[0]);
    if a.len() > 1 {
        assert((a + b)[1] == a[1] && (a + d)[1] == a[1]);
    } else {
        assert(b.len() > 0 ==> (a + b)[1] == b[0]);
        assert(d.len() > 0 ==> (a + d)[1] == d[0]);
    }
}

/// A run of blank lines may be replaced by any other, and by none at the end:
/// the outcome is the same, and so is an error if the first of the blank lines
/// is.
#[verifier::spinoff_prover]
#[verifier::rlimit(40)]
pub proof fn law_blank_lines_are_alike(
    a: Seq<Seq<char>>,
    b: Seq<Seq<char>>,
    d: Seq<Seq<char>>,
    c: Seq<Seq<char>>,
    count: int,
)
    requires
        b.len() > 0 || c.len() == 0,
        d.len() > 0 || c.len() == 0,
        all_blank(b),
        all_blank(d),
    ensures
        same_outcome(srt::events_of(a + b + c, count), srt::events_of(a + d + c, count)),
        b.len() > 0 && d.len() > 0 && b[0] == d[0] ==> srt::events_of(a + b + c, count) == srt::events_of(a + d + c, count),
    decreases a.len(),
{
    let r = srt::blank_run(a);
    srt::lemma_runs(a);
    let bc = b + c;
    let dc = d + c;
    assert(starts_blank(bc)) by {
        assert(b.len() > 0 ==> bc[0] == b[0]);
    }
    assert(starts_blank(dc)) by {
        assert(d.len() > 0 ==> dc[0] == d[0]);
    }
    assert(a + b + c =~= a + bc);
    assert(a + d + c =~= a + dc);
    if r >= a.len() {
        lemma_blank_run_whole(a);
        lemma_blanks_front(a, bc, count);
        lemma_blanks_front(a, dc, count);
        lemma_blanks_front(b, c, count);
        lemma_blanks_front(d, c, count);
    } else {
        lemma_blank_run_in(a, bc);
        lemma_blank_run_in(a, dc);
        let here = a.skip(r);
        assert((a + bc).skip(r) =~= here + bc);
        assert((a + dc).skip(r) =~= here + dc);
        lemma_head_before_blank(here, bc, dc, count);
        if let Ok((index, n)) = srt::head_of(here + bc, count) {
            assert((here + bc)[n - 1] == here[n - 1]);
            assert((here + dc)[n - 1] == here[n - 1]);
            if srt::times_of(here[n - 1]) is Ok {
                let body = here.skip(n);
                assert((here + bc).skip(n) =~= body + bc);
                assert((here + dc).skip(n) =~= body + dc);
                lemma_text_stops(body, bc, dc);
                let k = srt::text_run(body + bc);
                assert((body + bc).take(k) =~= body.take(k));
                assert((body + dc).take(k) =~= body.take(k));
                let rest = body.skip(k);
                assert((body + bc).skip(k) =~= rest + b + c);
                assert((body + dc).skip(k) =~= rest + d + c);
                law_blank_lines_are_alike(rest, b, d, c, count + 1);
            }
        }
    }
}

/// White space that makes up whole lines.
pub open spec fn blank_lines(w: Seq<char>) -> bool {
    w.len() > 0 && w.last() == '\n' && text::is_blank(w)
}

/// Nothing, or text that ends with a line feed.
pub open spec fn whole_lines(s: Seq<char>) -> bool {
    s.len() == 0 || s.last() == '\n'
}

proof fn lemma_crlf_split(u: Seq<char>, v: Seq<char>)
    requires
        whole_lines(u),
    ensures
        srt::crlf_to_lf(u + v) == srt::crlf_to_lf(u) + srt::crlf_to_lf(v),
        whole_lines(srt::crlf_to_lf(u)),
        u.len() > 0 ==> srt::crlf_to_lf(u).len() > 0,
    decreases u.len(),
{
    let s = u + v;
    if u.len() == 0 {
        assert(s =~= v);
        assert(srt::crlf_to_lf(u) + srt::crlf_to_lf(v) =~= srt::crlf_to_lf(v));
    } else {
        assert(s[0] == u[0]);
        if u.len() >= 2 {
            assert(s[1] == u[1]);
        }
        let n: int = if u.len() >= 2 && u[0] == '\r' && u[1] == '\n' {
            2
        } else {
            1
        };
        let t = u.skip(n);
        assert(s.skip(n) =~= t + v);
        assert(t.len() > 0 ==> t.last() == u.last());
        lemma_crlf_split(t, v);
        let first = if n == 2 {
            seq!['\n']
        } else {
            seq![u[0]]
        };
        let lf = srt::crlf_to_lf(t);
        assert(srt::crlf_to_lf(u) =~= first + lf);
        assert(first + (lf + srt::crlf_to_lf(v)) =~= (first + lf) + srt::crlf_to_lf(v));
        if lf.len() > 0 {
            assert((first + lf).last() == lf.last());
        } else {
            assert(t.len() == 0);
            assert(first =~= seq!['\n']);
        }
    }
}

/// White space stays white space, and makes blank lines.
proof fn lemma_white_lines(u: Seq<char>)
    requires
        text::is_blank(u),
    ensures
        text::is_blank(srt::crlf_to_lf(u)),
        all_blank(srt::lines_of(u)),
    decreases u.len(),
{
    if u.len() > 0 {
        assert(text::is_white(u[0]));
        let n: int = if u.len() >= 2 && u[0] == '\r' && u[1] == '\n' {
            2
        } else {
            1
        };
        lemma_white_tail(u, n);
        lemma_white_lines(u.skip(n));
        let lf = srt::crlf_to_lf(u);
        assert forall|i: int| 0 <= i < lf.len() implies text::is_white(#[trigger] lf[i]) by {
            if i > 0 {
                assert(lf[i] == srt::crlf_to_lf(u.skip(n))[i - 1]);
            }
        }
        let k = text::next_index(u, '\n', 0);
        text::lemma_next_index(u, '\n', 0);
        if k < u.len() {
            lemma_white_tail(u, k + 1);
            lemma_white_lines(u.skip(k + 1));
            let first = srt::strip_cr(u.take(k));
            assert forall|i: int| 0 <= i < first.len() implies text::is_white(
                #[trigger] first[i],
            ) by {
                assert(first[i] == u[i]);
            }
            let all = srt::lines_of(u);
            assert forall|i: int| 0 <= i < all.len() implies text::is_blank(#[trigger] all[i]) by {
                if i > 0 {
                    assert(all[i] == srt::lines_of(u.skip(k + 1))[i - 1]);
                }
            }
        }
    }
}

proof fn lemma_white_tail(u: Seq<char>, n: int)
    requires
        text::is_blank(u),
        0 <= n <= u.len(),
    ensures
        text::is_blank(u.skip(n)),
{
    let t = u.skip(n);
    assert forall|i: int| 0 <= i < t.len() implies text::is_white(#[trigger] t[i]) by {
        assert(t[i] == u[i + n]);
    }
}

proof fn lemma_lines_split(u: Seq<char>, v: Seq<char>)
    requires
        whole_lines(u),
    ensures
        srt::lines_of(u + v) == srt::lines_of(u) + srt::lines_of(v),
        u.len() > 0 ==> srt::lines_of(u).len() > 0,
    decreases u.len(),
{
    let s = u + v;
    if u.len() == 0 {
        assert(s =~= v);
        assert(srt::lines_of(u) + srt::lines_of(v) =~= srt::lines_of(v));
    } else {
        let k = text::next_index(u, '\n', 0);
        text::lemma_next_index(u, '\n', 0);
        assert(u[u.len() - 1] == '\n');
        assert(k < u.len());
        assert forall|q: int| 0 <= q < k implies #[trigger] s[q] != '\n' by {
            assert(s[q] == u[q]);
        }
        assert(s[k] == u[k]);
        text::lemma_next_index_is(s, '\n', 0, k);
        let t = u.skip(k + 1);
        assert(t.len() > 0 ==> t.last() == u.last());
        lemma_lines_split(t, v);
        assert(s.take(k) =~= u.take(k));
        assert(s.skip(k + 1) =~= t + v);
        let first = seq![srt::strip_cr(u.take(k))];
        assert(srt::lines_of(u) == first + srt::lines_of(t));
        assert(first + (srt::lines_of(t) + srt::lines_of(v)) =~= (first + srt::lines_of(t))
            + srt::lines_of(v));
    }
}

proof fn lemma_bom_split(x: Seq<char>, w: Seq<char>, y: Seq<char>)
    requires
        whole_lines(x),
        text::is_blank(w),
        w.len() > 0 || y.len() == 0,
    ensures
        srt::strip_bom(x + w + y) == srt::strip_bom(x) + w + y,
        whole_lines(srt::strip_bom(x)),
    decreases x.len(),
{
    let s = x + w + y;
    if x.len() == 0 {
        if w.len() > 0 {
            assert(s[0] == w[0]);
            assert(text::is_white(w[0]));
        }
        assert(s =~= srt::strip_bom(x) + w + y);
    } else {
        assert(s[0] == x[0]);
        if x[0] == '\u{feff}' {
            let t = x.skip(1);
            assert(s.skip(1) =~= t + w + y);
            assert(t.len() > 0 ==> t.last() == x.last());
            lemma_bom_split(t, w, y);
        }
    }
}

proof fn lemma_document_split(x: Seq<char>, w: Seq<char>, y: Seq<char>)
    requires
        whole_lines(x),
        text::is_blank(w),
        blank_lines(w) || y.len() == 0,
    ensures
        srt::document_lines(x + w + y) == srt::document_lines(x) + round_trip::plain_lines(w)
            + round_trip::plain_lines(y),
        all_blank(round_trip::plain_lines(w)),
        blank_lines(w) ==> round_trip::plain_lines(w).len() > 0,
        y.len() == 0 ==> round_trip::plain_lines(y).len() == 0,
{
    lemma_bom_split(x, w, y);
    let x0 = srt::strip_bom(x);
    let wy = w + y;
    assert(x0 + w + y =~= x0 + wy);
    lemma_crlf_split(x0, wy);
    lemma_lines_split(srt::crlf_to_lf(x0), srt::crlf_to_lf(wy));
    lemma_white_lines(w);
    lemma_white_lines(srt::crlf_to_lf(w));
    if blank_lines(w) {
        lemma_crlf_split(w, y);
        lemma_lines_split(srt::crlf_to_lf(w), srt::crlf_to_lf(y));
    } else {
        assert(wy =~= w);
        assert(srt::crlf_to_lf(y) =~= y);
        assert(round_trip::plain_lines(y) =~= Seq::empty());
        assert(round_trip::plain_lines(wy) =~= round_trip::plain_lines(w)
            + round_trip::plain_lines(y));
    }
    let a = srt::document_lines(x);
    let b = round_trip::plain_lines(w);
    let c = round_trip::plain_lines(y);
    assert(a + (b + c) =~= a + b + c);
}

/// Extra blank lines next to a blank line change nothing: with one run of blank
/// lines in place of another, a document fails as before or gives the same
/// events.
pub proof fn law_extra_blank_lines(x: Seq<char>, w: Seq<char>, v: Seq<char>, y: Seq<char>)
    requires
        whole_lines(x),
        blank_lines(w),
        blank_lines(v),
    ensures
        same_outcome(srt::parsed(x + w + y), srt::parsed(x + v + y)),
{
    lemma_document_split(x, w, y);
    lemma_document_split(x, v, y);
    law_blank_lines_are_alike(
        srt::document_lines(x),
        round_trip::plain_lines(w),
        round_trip::plain_lines(v),
        round_trip::plain_lines(y),
        0,
    );
}

/// White space at the end of a document, or its lack, changes nothing.
pub proof fn law_trailing_white_space(x: Seq<char>, w: Seq<char>, v: Seq<char>)
    requires
        whole_lines(x),
        text::is_blank(w),
        text::is_blank(v),
    ensures
        same_outcome(srt::parsed(x + w), srt::parsed(x + v)),
{
    let none = Seq::<char>::empty();
    assert(x + w + none =~= x + w);
    assert(x + v + none =~= x + v);
    lemma_document_split(x, w, none);
    lemma_document_split(x, v, none);
    law_blank_lines_are_alike(
        srt::document_lines(x),
        round_trip::plain_lines(w),
        round_trip::plain_lines(v),
        round_trip::plain_lines(none),
        0,
    );
}

} // verus!
