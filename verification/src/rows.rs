//! The rows of the report: what their columns and cells hold.
use vstd::prelude::*;
use crate::fixed;
use crate::number;
use crate::report;
use crate::report::{BoundaryRow, SegmentRow};
use crate::text;

verus! {

/// The columns of a line of comma-separated values.
pub open spec fn columns(s: Seq<char>) -> Seq<Seq<char>>
    decreases s.len(),
{
    let k = text::next_index(s, ',', 0);
    if k < 0 || k >= s.len() {
        seq![s]
    } else {
        seq![s.take(k)] + columns(s.skip(k + 1))
    }
}

spec fn line_of(parts: Seq<Seq<char>>) -> Seq<char>
    decreases parts.len(),
{
    if parts.len() == 0 {
        Seq::empty()
    } else if parts.len() == 1 {
        parts[0]
    } else {
        parts[0] + seq![','] + line_of(parts.skip(1))
    }
}

spec fn whole(s: Seq<char>) -> bool {
    forall|i: int| 0 <= i < s.len() ==> #[trigger] s[i] != ','
}

proof fn lemma_columns(parts: Seq<Seq<char>>)
    requires
        parts.len() > 0,
        forall|i: int| 0 <= i < parts.len() ==> whole(#[trigger] parts[i]),
    ensures
        columns(line_of(parts)) == parts,
    decreases parts.len(),
{
    let s = line_of(parts);
    assert(whole(parts[0]));
    if parts.len() == 1 {
        text::lemma_next_index_is(s, ',', 0, s.len() as int);
        assert(seq![s] =~= parts);
    } else {
        let k = parts[0].len() as int;
        let rest = parts.skip(1);
        assert forall|i: int| 0 <= i < rest.len() implies whole(#[trigger] rest[i]) by {
            assert(rest[i] == parts[i + 1]);
        }
        lemma_columns(rest);
        assert(s[k] == ',');
        assert forall|i: int| 0 <= i < k implies #[trigger] s[i] != ',' by {
            assert(s[i] == parts[0][i]);
        }
        text::lemma_next_index_is(s, ',', 0, k);
        assert(s.take(k) =~= parts[0]);
        assert(s.skip(k + 1) =~= line_of(rest));
        assert(seq![parts[0]] + rest =~= parts);
    }
}

proof fn lemma_digits_are_whole(n: nat)
    ensures
        whole(text::decimal(n)),
{
    number::lemma_decimal(n);
}

proof fn lemma_number_is_whole(n: int, unit: int, places: nat)
    requires
        unit > 0,
    ensures
        whole(fixed::plain(n, unit, places)),
{
    let a = fixed::size(n);
    vstd::arithmetic::div_mod::lemma_mod_bound(a, unit);
    number::lemma_decimal((a / unit) as nat);
    number::lemma_decimal((a % unit) as nat);
    let b = text::zero_pad(text::decimal((a % unit) as nat), places);
    number::lemma_zero_pad(text::decimal((a % unit) as nat), places);
    fixed::lemma_strip_zeros(b);
    let sign = if n < 0 {
        seq!['-']
    } else {
        Seq::<char>::empty()
    };
    let head = text::decimal((a / unit) as nat);
    let tail = if a % unit == 0 {
        Seq::empty()
    } else {
        seq!['.'] + fixed::strip_zeros(b)
    };
    assert(whole(sign) && whole(head) && whole(tail));
    assert(fixed::plain(n, unit, places) =~= sign + head + tail);
}

/// A column holds a time in seconds, or nothing.
pub open spec fn tells(s: Seq<char>, ns: Option<i64>) -> bool {
    match ns {
        Some(t) => fixed::reads(s, 9, t as int, fixed::size(t as int)),
        None => s.len() == 0,
    }
}

proof fn lemma_time(ns: i64)
    ensures
        whole(fixed::seconds(ns as int)),
        tells(fixed::seconds(ns as int), Some(ns)),
{
    lemma_number_is_whole(ns as int, 1_000_000_000, 9);
    fixed::law_written_time_is_read(ns as int);
}

proof fn lemma_opt_time(ns: Option<i64>)
    ensures
        whole(report::opt_seconds(ns)),
        tells(report::opt_seconds(ns), ns),
{
    if let Some(t) = ns {
        lemma_time(t);
    }
}

/// A segment's line has its times in the columns that the heading names, exact,
/// and leaves those of the boundaries empty.
pub proof fn law_segment_line(row: SegmentRow)
    ensures
        ({
            let s = row.csv();
            let c = columns(s.drop_last());
            &&& s.len() > 0 && s.last() == '\n'
            &&& c.len() == 13
            &&& c[0] == "segment"@
            &&& c[1] == text::decimal(row.index as nat)
            &&& tells(c[2], Some(row.master_start_ns))
            &&& tells(c[3], Some(row.master_end_ns))
            &&& tells(c[4], Some(row.duration_ns))
            &&& tells(c[5], Some(row.donor_offset_ns))
            &&& tells(c[6], row.jump_from_prev_ns)
            &&& forall|k: int| 7 <= k < 13 ==> (#[trigger] c[k]).len() == 0
        }),
{
    reveal_strlit("segment");
    lemma_digits_are_whole(row.index as nat);
    lemma_time(row.master_start_ns);
    lemma_time(row.master_end_ns);
    lemma_time(row.duration_ns);
    lemma_time(row.donor_offset_ns);
    lemma_opt_time(row.jump_from_prev_ns);
    let e = Seq::<char>::empty();
    let p = seq![
        "segment"@,
        text::decimal(row.index as nat),
        fixed::seconds(row.master_start_ns as int),
        fixed::seconds(row.master_end_ns as int),
        fixed::seconds(row.duration_ns as int),
        fixed::seconds(row.donor_offset_ns as int),
        report::opt_seconds(row.jump_from_prev_ns),
        e,
        e,
        e,
        e,
        e,
        e,
    ];
    lemma_columns(p);
    lemma_thirteen(p);
    lemma_segment_text(p[1], p[2], p[3], p[4], p[5], p[6]);
    assert(row.csv() == line_of(p).push('\n'));
    assert(row.csv().drop_last() =~= line_of(p));
}

/// A boundary's line has its times in the columns that the heading names, exact,
/// and leaves those of the segments empty.
pub proof fn law_boundary_line(row: BoundaryRow)
    ensures
        ({
            let s = row.csv();
            let c = columns(s.drop_last());
            &&& s.len() > 0 && s.last() == '\n'
            &&& c.len() == 13
            &&& c[0] == "boundary"@
            &&& c[1] == text::decimal(row.index as nat)
            &&& forall|k: int| 2 <= k < 7 ==> (#[trigger] c[k]).len() == 0
            &&& tells(c[7], Some(row.boundary_master_ns))
            &&& tells(c[8], Some(row.delta_ns))
            &&& c[9] == if row.master_silence_used {
                "true"@
            } else {
                "false"@
            }
            &&& tells(c[10], row.master_silence_at_ns)
            &&& tells(c[11], row.master_silence_width_ns)
            &&& tells(c[12], Some(row.gap_ns))
        }),
{
    reveal_strlit("boundary");
    reveal_strlit("true");
    reveal_strlit("false");
    lemma_digits_are_whole(row.index as nat);
    lemma_time(row.boundary_master_ns);
    lemma_time(row.delta_ns);
    lemma_opt_time(row.master_silence_at_ns);
    lemma_opt_time(row.master_silence_width_ns);
    lemma_time(row.gap_ns);
    let e = Seq::<char>::empty();
    let p = seq![
        "boundary"@,
        text::decimal(row.index as nat),
        e,
        e,
        e,
        e,
        e,
        fixed::seconds(row.boundary_master_ns as int),
        fixed::seconds(row.delta_ns as int),
        if row.master_silence_used {
            "true"@
        } else {
            "false"@
        },
        report::opt_seconds(row.master_silence_at_ns),
        report::opt_seconds(row.master_silence_width_ns),
        fixed::seconds(row.gap_ns as int),
    ];
    lemma_columns(p);
    lemma_thirteen(p);
    lemma_boundary_text(p[1], p[7], p[8], row.master_silence_used, p[10], p[11], p[12]);
    assert(row.csv() == line_of(p).push('\n'));
    assert(row.csv().drop_last() =~= line_of(p));
}

proof fn lemma_segment_text(
    n: Seq<char>,
    a: Seq<char>,
    b: Seq<char>,
    c: Seq<char>,
    d: Seq<char>,
    j: Seq<char>,
)
    ensures
        ({
            let e = Seq::<char>::empty();
            let comma = seq![','];
            "segment,"@ + n + ","@ + a + ","@ + b + ","@ + c + ","@ + d + ","@ + j + ",,,,,,\n"@
                == ("segment"@ + comma + n + comma + a + comma + b + comma + c + comma + d + comma
                + j + comma + e + comma + line5(e, e, e, e, e)).push('\n')
        }),
{
    reveal_strlit("segment,");
    reveal_strlit("segment");
    reveal_strlit(",");
    reveal_strlit(",,,,,,\n");
    let e = Seq::<char>::empty();
    assert("segment,"@ =~= "segment"@ + seq![',']);
    assert(","@ =~= seq![',']);
    assert(line5(e, e, e, e, e) =~= seq![',', ',', ',', ',']);
    assert(",,,,,,\n"@ =~= (seq![','] + e + seq![','] + line5(e, e, e, e, e)).push('\n'));
}

proof fn lemma_boundary_text(
    n: Seq<char>,
    a: Seq<char>,
    b: Seq<char>,
    used: bool,
    c: Seq<char>,
    d: Seq<char>,
    g: Seq<char>,
)
    ensures
        ({
            let e = Seq::<char>::empty();
            let comma = seq![','];
            "boundary,"@ + n + ",,,,,,"@ + a + ","@ + b + (if used {
                ",true,"@
            } else {
                ",false,"@
            }) + c + ","@ + d + ","@ + g + "\n"@ == ("boundary"@ + comma + n + comma + e + comma + e
                + comma + e + comma + e + comma + e + comma + a + comma + line5(
                b,
                if used {
                    "true"@
                } else {
                    "false"@
                },
                c,
                d,
                g,
            )).push('\n')
        }),
{
    reveal_strlit("boundary,");
    reveal_strlit("boundary");
    reveal_strlit(",");
    reveal_strlit(",,,,,,");
    reveal_strlit(",true,");
    reveal_strlit("true");
    reveal_strlit(",false,");
    reveal_strlit("false");
    reveal_strlit("\n");
    let e = Seq::<char>::empty();
    assert("boundary,"@ =~= "boundary"@ + seq![',']);
    assert(","@ =~= seq![',']);
    assert("\n"@ =~= seq!['\n']);
    assert(",true,"@ =~= seq![','] + "true"@ + seq![',']);
    assert(",false,"@ =~= seq![','] + "false"@ + seq![',']);
    assert(",,,,,,"@ =~= seq![','] + e + seq![','] + e + seq![','] + e + seq![','] + e + seq![',']
        + e + seq![',']);
}

spec fn line5(
    a: Seq<char>,
    b: Seq<char>,
    c: Seq<char>,
    d: Seq<char>,
    e: Seq<char>,
) -> Seq<char> {
    a + seq![','] + b + seq![','] + c + seq![','] + d + seq![','] + e
}

proof fn lemma_thirteen(p: Seq<Seq<char>>)
    requires
        p.len() == 13,
    ensures
        line_of(p) == p[0] + seq![','] + p[1] + seq![','] + p[2] + seq![','] + p[3] + seq![',']
            + p[4] + seq![','] + p[5] + seq![','] + p[6] + seq![','] + p[7] + seq![','] + line5(
            p[8],
            p[9],
            p[10],
            p[11],
            p[12],
        ),
{
    reveal_with_fuel(line_of, 14);
    let q = p.skip(8);
    assert(q.skip(1).skip(1) =~= p.skip(10));
    assert(p.skip(10).skip(1).skip(1) =~= p.skip(12));
    assert(line_of(q) =~= line5(p[8], p[9], p[10], p[11], p[12]));
    assert(p.skip(1).skip(1).skip(1).skip(1) =~= p.skip(4));
    assert(p.skip(4).skip(1).skip(1).skip(1).skip(1) =~= p.skip(8));
    let r = p.skip(4);
    assert(line_of(r) =~= p[4] + seq![','] + p[5] + seq![','] + p[6] + seq![','] + p[7] + seq![',']
        + line_of(q));
    assert(line_of(p) =~= p[0] + seq![','] + p[1] + seq![','] + p[2] + seq![','] + p[3] + seq![',']
        + line_of(r));
}

/// Cells with what stands between them.
pub open spec fn cells_in_a_row(cells: Seq<Seq<char>>) -> Seq<char>
    decreases cells.len(),
{
    if cells.len() == 0 {
        Seq::empty()
    } else if cells.len() == 1 {
        cells[0]
    } else {
        cells_in_a_row(cells.drop_last()) + "</td><td>"@ + cells.last()
    }
}

/// A row of a table.
pub open spec fn table_row(cells: Seq<Seq<char>>) -> Seq<char> {
    "<tr class=\"num\"><td>"@ + cells_in_a_row(cells) + "</td></tr>\n"@
}

proof fn lemma_six_cells(c: Seq<Seq<char>>)
    requires
        c.len() == 6,
    ensures
        ({
            let s = "</td><td>"@;
            table_row(c) == "<tr class=\"num\"><td>"@ + c[0] + s + c[1] + s + c[2] + s + c[3] + s + c[4]
                + s + c[5] + "</td></tr>\n"@
        }),
{
    let s = "</td><td>"@;
    reveal_with_fuel(cells_in_a_row, 7);
    let d = c.drop_last().drop_last().drop_last().drop_last().drop_last();
    assert(d.len() == 1 && d[0] == c[0]);
    assert(cells_in_a_row(c) == c[0] + s + c[1] + s + c[2] + s + c[3] + s + c[4] + s + c[5]);
    assert(table_row(c) =~= "<tr class=\"num\"><td>"@ + c[0] + s + c[1] + s + c[2] + s + c[3] + s
        + c[4] + s + c[5] + "</td></tr>\n"@);
}

proof fn lemma_seven_cells(c: Seq<Seq<char>>)
    requires
        c.len() == 7,
    ensures
        ({
            let s = "</td><td>"@;
            table_row(c) == "<tr class=\"num\"><td>"@ + c[0] + s + c[1] + s + c[2] + s + c[3] + s + c[4]
                + s + c[5] + s + c[6] + "</td></tr>\n"@
        }),
{
    let s = "</td><td>"@;
    reveal_with_fuel(cells_in_a_row, 8);
    let d = c.drop_last().drop_last().drop_last().drop_last().drop_last().drop_last();
    assert(d.len() == 1 && d[0] == c[0]);
    assert(cells_in_a_row(c) == c[0] + s + c[1] + s + c[2] + s + c[3] + s + c[4] + s + c[5] + s
        + c[6]);
    assert(table_row(c) =~= "<tr class=\"num\"><td>"@ + c[0] + s + c[1] + s + c[2] + s + c[3] + s
        + c[4] + s + c[5] + s + c[6] + "</td></tr>\n"@);
}

/// The row of a segment has its number, its start, its end, its duration, its
/// offset and the jump to it, in that order; the first segment has no jump.
pub proof fn law_segment_cells(row: SegmentRow)
    ensures
        row.html() == table_row(
            seq![
                text::decimal(row.index as nat),
                fixed::seconds3(row.master_start_ns as int),
                fixed::seconds3(row.master_end_ns as int),
                fixed::seconds3(row.duration_ns as int),
                fixed::plus_seconds3(row.donor_offset_ns as int),
                if row.jump_from_prev_ns is Some {
                    fixed::plus_seconds3(row.jump_from_prev_ns->0 as int)
                } else {
                    "—"@
                },
            ],
        ),
{
    lemma_six_cells(
        seq![
            text::decimal(row.index as nat),
            fixed::seconds3(row.master_start_ns as int),
            fixed::seconds3(row.master_end_ns as int),
            fixed::seconds3(row.duration_ns as int),
            fixed::plus_seconds3(row.donor_offset_ns as int),
            if row.jump_from_prev_ns is Some {
                fixed::plus_seconds3(row.jump_from_prev_ns->0 as int)
            } else {
                "—"@
            },
        ],
    );
}

/// The row of a boundary has its number, its place, the change of offset, whether
/// a master silence takes it, where that lies and how wide it is, and the gap, in
/// that order.
pub proof fn law_boundary_cells(row: BoundaryRow)
    ensures
        row.html() == table_row(
            seq![
                text::decimal(row.index as nat),
                fixed::seconds3(row.boundary_master_ns as int),
                fixed::plus_seconds3(row.delta_ns as int),
                if row.master_silence_used {
                    "<span class=\"yes\">yes</span>"@
                } else {
                    "<span class=\"no\">fallback</span>"@
                },
                report::seconds_or_dash(row.master_silence_at_ns),
                report::seconds_or_dash(row.master_silence_width_ns),
                fixed::seconds3(row.gap_ns as int),
            ],
        ),
{
    lemma_seven_cells(
        seq![
            text::decimal(row.index as nat),
            fixed::seconds3(row.boundary_master_ns as int),
            fixed::plus_seconds3(row.delta_ns as int),
            if row.master_silence_used {
                "<span class=\"yes\">yes</span>"@
            } else {
                "<span class=\"no\">fallback</span>"@
            },
            report::seconds_or_dash(row.master_silence_at_ns),
            report::seconds_or_dash(row.master_silence_width_ns),
            fixed::seconds3(row.gap_ns as int),
        ],
    );
}

} // verus!
