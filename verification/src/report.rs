//! The summary of a run, and the detailed report on its offset map.
//!
//! The report comes as comma-separated values or as a page of HTML; both start
//! with the summary.
use vstd::prelude::*;
use crate::args;
use crate::args::push_arg;
use crate::audio::vad::SilenceInterval;
use crate::cli::to_lower;
use crate::cli;
use crate::correlation::offset_map::{OffsetMap, Segment};
use crate::correlation::refine;
use crate::ffprobe::same_text;
use crate::fixed;
use crate::rate::{DonorRate, FrameRate, Ratio};
use crate::sync::applier;
use crate::sync::applier::{best_master_silence, MasterSnap};
use crate::text;
use crate::time;
use crate::wide::Wide;

verus! {

/// What a run did.
#[derive(Clone, Debug)]
pub struct RunSummary {
    pub master_duration_ns: i64,
    pub master_fps: FrameRate,
    pub donor_fps: Option<DonorRate>,
    /// The stretch that was applied, if one was.
    pub fps_stretch_ratio: Option<Ratio>,
    pub pal_pitch_applied: bool,
    pub auto_fps_disabled: bool,
    /// In billionths.
    pub forced_fps_ratio_nano: Option<i64>,
    pub anchor_only_validation: bool,
    pub total_anchors: usize,
    pub kept_anchors: usize,
    pub rejected_anchors: usize,
    pub segments: usize,
    /// The share of rejected anchors in millionths.
    pub low_confidence_ppm: u64,
    pub max_jump_ns: Option<i64>,
    pub max_jump_at_master_ns: Option<i64>,
    pub master_snap_count: usize,
    pub fallback_required_count: usize,
    pub total_silence_inserted_ns: u128,
    pub output_file: String,
    pub elapsed_ns: u64,
}

/// `2m5.3s`, or `5.3s` below a minute.
pub open spec fn duration_text(ns: int) -> Seq<char> {
    let tenths = fixed::fixed(fixed::round_even(ns % 60_000_000_000, 100_000_000), 10, 1);
    if ns >= 60_000_000_000 {
        text::decimal((ns / 60_000_000_000) as nat) + "m"@ + tenths + "s"@
    } else {
        tenths + "s"@
    }
}

/// A duration in minutes and seconds.
pub fn format_duration(ns: u64) -> (r: String)
    ensures
        r@ == duration_text(ns as int),
{
    let minutes: u64 = ns / 60_000_000_000;
    let tenths: u128 = fixed::round_even_of((ns % 60_000_000_000) as u128, 100_000_000);
    let mut r = String::new();
    if minutes > 0 {
        text::push_decimal(&mut r, minutes);
        r.append("m");
    }
    fixed::push_fixed(&mut r, tenths, 10, 1);
    r.append("s");
    assert(r@ =~= duration_text(ns as int));
    r
}

/// A frame rate with three places.
pub open spec fn fps_text(rate: FrameRate) -> Seq<char> {
    fixed::fraction(rate.top(), rate.bottom(), 1000, 3)
}

pub fn push_fps(out: &mut String, rate: &FrameRate)
    ensures
        final(out)@ == old(out)@ + fps_text(*rate),
{
    let (n, d): (Wide, Wide) = rate.parts();
    fixed::push_fraction(out, false, &n, &d, 1000, 3)
}

/// The donor's frame rate with three places.
pub open spec fn donor_text(rate: DonorRate) -> Seq<char> {
    fixed::fraction(rate.num(), rate.den(), 1000, 3)
}

pub fn push_donor_fps(out: &mut String, rate: &DonorRate)
    ensures
        final(out)@ == old(out)@ + donor_text(*rate),
{
    let (negative, n, d): (bool, Wide, Wide) = rate.parts();
    fixed::push_fraction(out, negative, &n, &d, 1000, 3)
}

/// A ratio with four places.
pub open spec fn ratio_text(ratio: Ratio) -> Seq<char> {
    fixed::fraction(ratio.num(), ratio.den(), 10_000, 4)
}

pub fn push_ratio(out: &mut String, ratio: &Ratio)
    ensures
        final(out)@ == old(out)@ + ratio_text(*ratio),
{
    let (negative, n, d): (bool, Wide, Wide) = ratio.parts();
    fixed::push_fraction(out, negative, &n, &d, 10_000, 4)
}

/// What is said of a pitch correction.
pub open spec fn pitch_note(applied: bool) -> Seq<char> {
    if applied {
        " + PAL pitch correction"@
    } else {
        ""@
    }
}

fn pitch_words(applied: bool) -> (r: &'static str)
    ensures
        r@ == pitch_note(applied),
{
    if applied {
        " + PAL pitch correction"
    } else {
        ""
    }
}

/// The share of anchors that were kept, in percent with one place.
pub open spec fn kept_text(kept: usize, total: usize) -> Seq<char> {
    fixed::fixed(
        if total > 0 {
            fixed::round_even(kept * 1000, total as int)
        } else {
            0
        },
        10,
        1,
    )
}

impl RunSummary {
    pub open spec fn runtime_line(&self) -> Seq<char> {
        "Total runtime: "@ + duration_text(self.elapsed_ns as int) + " ("@ + fixed::seconds1(
            self.master_duration_ns as int,
        ) + "s of master)"@
    }

    /// What was done about frame rates: a policy of the user's goes before what
    /// was found.
    pub open spec fn fps_line(&self) -> Seq<char> {
        if self.auto_fps_disabled {
            "FPS: auto-normalize disabled by user (master "@ + fps_text(self.master_fps)
                + ")"@
        } else {
            match self.forced_fps_ratio_nano {
                Some(r) => if self.fps_stretch_ratio is Some {
                    "FPS: forced ratio "@ + ratio_text(Ratio::Nano(r)) + " (stretch applied"@ + pitch_note(
                        self.pal_pitch_applied,
                    ) + ")"@
                } else {
                    "FPS: forced ratio "@ + ratio_text(Ratio::Nano(r))
                        + " (no stretch — within 0.1% of identity)"@
                },
                None => match (self.donor_fps, self.fps_stretch_ratio) {
                    (Some(d), Some(r)) => "FPS: master "@ + fps_text(self.master_fps)
                        + " vs donor "@ + donor_text(d) + " → stretched ratio "@ + ratio_text(r)
                        + pitch_note(self.pal_pitch_applied),
                    (Some(d), None) => "FPS: master "@ + fps_text(self.master_fps)
                        + " = donor "@ + donor_text(d) + " (no stretch)"@,
                    (None, _) => "FPS: master "@ + fps_text(self.master_fps)
                        + " (donor has no video stream)"@,
                },
            }
        }
    }

    pub open spec fn anchors_line(&self) -> Seq<char> {
        "Anchors: "@ + text::decimal(self.kept_anchors as nat) + "/"@ + text::decimal(
            self.total_anchors as nat,
        ) + " kept ("@ + kept_text(self.kept_anchors, self.total_anchors) + "%), "@
            + text::decimal(self.rejected_anchors as nat) + " rejected"@
    }

    pub open spec fn segments_line(&self) -> Seq<char> {
        "Segments: "@ + text::decimal(self.segments as nat)
    }

    /// The largest jump, if there is one.
    pub open spec fn jump_lines(&self) -> Seq<Seq<char>> {
        match (self.max_jump_ns, self.max_jump_at_master_ns) {
            (Some(mag), Some(at)) => seq![
                "Largest jump: "@ + fixed::plus_seconds3(mag as int) + "s at master t="@
                    + fixed::seconds2(at as int) + "s"@,
            ],
            _ => Seq::empty(),
        }
    }

    pub open spec fn splices_line(&self) -> Seq<char> {
        "Splices: "@ + text::decimal(self.master_snap_count as nat) + " into master silence, "@
            + text::decimal(self.fallback_required_count as nat) + " need per-dub fallback"@
    }

    /// How much silence was inserted, if it is more than a millisecond.
    pub open spec fn silence_lines(&self) -> Seq<Seq<char>> {
        if self.total_silence_inserted_ns > 1_000_000 {
            seq![
                "Total silence inserted: "@ + fixed::fixed(
                    fixed::round_even(self.total_silence_inserted_ns as int, 1_000_000),
                    1000,
                    3,
                ) + "s"@,
            ]
        } else {
            Seq::empty()
        }
    }

    pub open spec fn mode_lines(&self) -> Seq<Seq<char>> {
        if self.anchor_only_validation {
            seq!["Mode: anchor-only validation (no dubs synced)"@]
        } else {
            Seq::empty()
        }
    }

    /// The summary in words, the runtime first and the output last.
    pub open spec fn lines(&self) -> Seq<Seq<char>> {
        seq![self.runtime_line(), self.fps_line(), self.anchors_line(), self.segments_line()]
            + self.jump_lines() + seq![self.splices_line()] + self.silence_lines()
            + self.mode_lines() + seq!["Output: "@ + self.output_file@]
    }

    fn runtime_text(&self) -> (r: String)
        ensures
            r@ == self.runtime_line(),
    {
        let mut r = String::from_str("Total runtime: ");
        r.append(format_duration(self.elapsed_ns).as_str());
        r.append(" (");
        fixed::push_seconds1(&mut r, self.master_duration_ns);
        r.append("s of master)");
        r
    }

    fn fps_words(&self) -> (r: String)
        ensures
            r@ == self.fps_line(),
    {
        if self.auto_fps_disabled {
            let mut r = String::from_str("FPS: auto-normalize disabled by user (master ");
            push_fps(&mut r, &self.master_fps);
            r.append(")");
            return r;
        }
        if let Some(ratio) = self.forced_fps_ratio_nano {
            let mut r = String::from_str("FPS: forced ratio ");
            push_ratio(&mut r, &Ratio::Nano(ratio));
            if self.fps_stretch_ratio.is_some() {
                r.append(" (stretch applied");
                r.append(pitch_words(self.pal_pitch_applied));
                r.append(")");
            } else {
                r.append(" (no stretch — within 0.1% of identity)");
            }
            return r;
        }
        let mut r = String::from_str("FPS: master ");
        push_fps(&mut r, &self.master_fps);
        match self.donor_fps {
            Some(d) => match self.fps_stretch_ratio {
                Some(ratio) => {
                    r.append(" vs donor ");
                    push_donor_fps(&mut r, &d);
                    r.append(" → stretched ratio ");
                    push_ratio(&mut r, &ratio);
                    r.append(pitch_words(self.pal_pitch_applied));
                },
                None => {
                    r.append(" = donor ");
                    push_donor_fps(&mut r, &d);
                    r.append(" (no stretch)");
                },
            },
            None => {
                r.append(" (donor has no video stream)");
            },
        }
        r
    }

    fn anchors_text(&self) -> (r: String)
        ensures
            r@ == self.anchors_line(),
    {
        let mut r = String::from_str("Anchors: ");
        text::push_decimal(&mut r, self.kept_anchors as u64);
        r.append("/");
        text::push_decimal(&mut r, self.total_anchors as u64);
        r.append(" kept (");
        let kept: u128 = if self.total_anchors > 0 {
            fixed::round_even_of(self.kept_anchors as u128 * 1000, self.total_anchors as u128)
        } else {
            0
        };
        fixed::push_fixed(&mut r, kept, 10, 1);
        r.append("%), ");
        text::push_decimal(&mut r, self.rejected_anchors as u64);
        r.append(" rejected");
        r
    }

    /// The summary in words, for the terminal and for reports.
    pub fn human_lines(&self) -> (r: Vec<String>)
        ensures
            args::views(r@) == self.lines(),
    {
        let mut r: Vec<String> = Vec::new();
        push_arg(&mut r, self.runtime_text().as_str());
        push_arg(&mut r, self.fps_words().as_str());
        push_arg(&mut r, self.anchors_text().as_str());
        let segments = args::number_text("Segments: ", self.segments as u64, "");
        assert(segments@ =~= self.segments_line()) by {
            reveal_strlit("");
        }
        push_arg(&mut r, segments.as_str());
        assert(args::views(r@) =~= seq![
            self.runtime_line(),
            self.fps_line(),
            self.anchors_line(),
            self.segments_line(),
        ]);
        if let Some(mag) = self.max_jump_ns {
            if let Some(at) = self.max_jump_at_master_ns {
                let mut l = String::from_str("Largest jump: ");
                fixed::push_plus_seconds3(&mut l, mag);
                l.append("s at master t=");
                fixed::push_seconds2(&mut l, at);
                l.append("s");
                push_arg(&mut r, l.as_str());
            }
        }
        let ghost jumps = args::views(r@);
        let mut l = String::from_str("Splices: ");
        text::push_decimal(&mut l, self.master_snap_count as u64);
        l.append(" into master silence, ");
        text::push_decimal(&mut l, self.fallback_required_count as u64);
        l.append(" need per-dub fallback");
        push_arg(&mut r, l.as_str());
        if self.total_silence_inserted_ns > 1_000_000 {
            let mut l = String::from_str("Total silence inserted: ");
            let n: u128 = round_millis(self.total_silence_inserted_ns);
            fixed::push_fixed(&mut l, n, 1000, 3);
            l.append("s");
            push_arg(&mut r, l.as_str());
        }
        if self.anchor_only_validation {
            push_arg(&mut r, "Mode: anchor-only validation (no dubs synced)");
        }
        let output = args::joined("Output: ", self.output_file.as_str());
        push_arg(&mut r, output.as_str());
        assert(args::views(r@) =~= self.lines());
        r
    }
}

/// Nanoseconds to milliseconds, halves to the even one.
fn round_millis(ns: u128) -> (r: u128)
    ensures
        r == fixed::round_even(ns as int, 1_000_000),
{
    let q: u128 = ns / 1_000_000;
    let rest: u128 = ns % 1_000_000;
    if 2 * rest < 1_000_000 || (2 * rest == 1_000_000 && q % 2 == 0) {
        q
    } else {
        q + 1
    }
}

/// A segment of the offset map.
#[derive(Clone, Debug)]
pub struct SegmentRow {
    pub index: usize,
    pub master_start_ns: i64,
    pub master_end_ns: i64,
    pub duration_ns: i64,
    pub donor_offset_ns: i64,
    /// The change of offset from the segment before.
    pub jump_from_prev_ns: Option<i64>,
}

/// A boundary between two segments, and whether a master silence takes it.
#[derive(Clone, Debug)]
pub struct BoundaryRow {
    pub index: usize,
    pub boundary_master_ns: i64,
    pub delta_ns: i64,
    pub master_silence_used: bool,
    pub master_silence_at_ns: Option<i64>,
    pub master_silence_width_ns: Option<i64>,
    pub gap_ns: i64,
}

/// The detailed report.
#[derive(Clone, Debug)]
pub struct OffsetMapReport {
    pub summary: RunSummary,
    pub segments: Vec<SegmentRow>,
    pub boundaries: Vec<BoundaryRow>,
}

/// What a row says about segment `i`.
pub open spec fn is_segment_row(row: SegmentRow, segments: Seq<Segment>, i: int) -> bool {
    let s = segments[i];
    &&& row.index == i
    &&& row.master_start_ns == s.master_start_ns
    &&& row.master_end_ns == s.master_end_ns
    &&& row.duration_ns == s.master_end_ns - s.master_start_ns
    &&& row.donor_offset_ns == s.donor_offset_ns
    &&& match row.jump_from_prev_ns {
        Some(j) => i > 0 && j == s.donor_offset_ns - segments[i - 1].donor_offset_ns,
        None => i == 0,
    }
}

/// The snap that a row shows.
pub open spec fn row_snap(row: BoundaryRow) -> Option<MasterSnap> {
    match (row.master_silence_at_ns, row.master_silence_width_ns) {
        (Some(at), Some(width)) => Some(
            MasterSnap { snap_master_ns: at, gap_ns: row.gap_ns, silence_width_ns: width },
        ),
        _ => None,
    }
}

/// What a row says about boundary `i`: the decision that the splicer takes from
/// the master's silences.
pub open spec fn is_boundary_row(
    row: BoundaryRow,
    segments: Seq<Segment>,
    i: int,
    silences: Seq<SilenceInterval>,
    radius: int,
) -> bool {
    &&& row.index == i
    &&& row.boundary_master_ns == segments[i].master_end_ns
    &&& row.delta_ns == applier::delta_at(segments, i)
    &&& row.gap_ns == applier::gap_for(row.delta_ns as int)
    &&& row.master_silence_used == row.master_silence_at_ns is Some
    &&& row.master_silence_used == row.master_silence_width_ns is Some
    &&& applier::is_master_snap(row_snap(row), segments, i, silences, radius)
}

fn build_segment_rows(map: &OffsetMap) -> (r: Vec<SegmentRow>)
    requires
        applier::segments_in_range(map.segments@),
    ensures
        r@.len() == map.segments@.len(),
        forall|i: int|
            0 <= i < r@.len() ==> is_segment_row(#[trigger] r@[i], map.segments@, i),
{
    let mut r: Vec<SegmentRow> = Vec::new();
    let mut i: usize = 0;
    while i < map.segments.len()
        invariant
            i <= map.segments@.len(),
            r@.len() == i,
            applier::segments_in_range(map.segments@),
            forall|k: int| 0 <= k < i ==> is_segment_row(#[trigger] r@[k], map.segments@, k),
        decreases map.segments@.len() - i,
    {
        assert(refine::segment_in_range(map.segments@[i as int]));
        let s: Segment = map.segments[i];
        let jump_from_prev_ns: Option<i64> = if i > 0 {
            assert(refine::segment_in_range(map.segments@[i - 1]));
            Some(s.donor_offset_ns - map.segments[i - 1].donor_offset_ns)
        } else {
            None
        };
        r.push(
            SegmentRow {
                index: i,
                master_start_ns: s.master_start_ns,
                master_end_ns: s.master_end_ns,
                duration_ns: s.master_end_ns - s.master_start_ns,
                donor_offset_ns: s.donor_offset_ns,
                jump_from_prev_ns,
            },
        );
        i += 1;
    }
    r
}

fn build_boundary_rows(map: &OffsetMap, silences: &Vec<SilenceInterval>, radius: i64) -> (r: Vec<
    BoundaryRow,
>)
    requires
        applier::segments_in_range(map.segments@),
        applier::silences_in_range(silences@),
        time::in_range(radius),
    ensures
        r@.len() == (if map.segments@.len() == 0 {
            0
        } else {
            map.segments@.len() - 1
        }),
        forall|i: int|
            0 <= i < r@.len() ==> is_boundary_row(
                #[trigger] r@[i],
                map.segments@,
                i,
                silences@,
                radius as int,
            ),
{
    let mut r: Vec<BoundaryRow> = Vec::new();
    if map.segments.len() < 2 {
        return r;
    }
    let n: usize = map.segments.len() - 1;
    let mut i: usize = 0;
    while i < n
        invariant
            i <= n,
            n + 1 == map.segments@.len(),
            n < usize::MAX,
            r@.len() == i,
            applier::segments_in_range(map.segments@),
            applier::silences_in_range(silences@),
            time::in_range(radius),
            forall|k: int|
                0 <= k < i ==> is_boundary_row(
                    #[trigger] r@[k],
                    map.segments@,
                    k,
                    silences@,
                    radius as int,
                ),
        decreases n - i,
    {
        assert(refine::segment_in_range(map.segments@[i as int]));
        assert(refine::segment_in_range(map.segments@[i + 1]));
        let boundary: i64 = map.segments[i].master_end_ns;
        let delta: i64 = map.segments[i + 1].donor_offset_ns - map.segments[i].donor_offset_ns;
        let snap = best_master_silence(boundary, delta, silences, radius);
        let gap_ns: i64 = if delta < 0 {
            -delta
        } else {
            0
        };
        let (at, width): (Option<i64>, Option<i64>) = match snap {
            Some(m) => (Some(m.snap_master_ns), Some(m.silence_width_ns)),
            None => (None, None),
        };
        let row = BoundaryRow {
            index: i,
            boundary_master_ns: boundary,
            delta_ns: delta,
            master_silence_used: snap.is_some(),
            master_silence_at_ns: at,
            master_silence_width_ns: width,
            gap_ns,
        };
        assert(row_snap(row) == snap);
        r.push(row);
        i += 1;
    }
    r
}

impl OffsetMapReport {
    /// Builds the report from the offset map and the master's silences.
    pub fn build(
        summary: RunSummary,
        map: &OffsetMap,
        master_silences: &Vec<SilenceInterval>,
        snap_radius_ns: i64,
    ) -> (r: Self)
        requires
            applier::segments_in_range(map.segments@),
            applier::silences_in_range(master_silences@),
            time::in_range(snap_radius_ns),
        ensures
            r.summary == summary,
            r.segments@.len() == map.segments@.len(),
            forall|i: int|
                0 <= i < r.segments@.len() ==> is_segment_row(
                    #[trigger] r.segments@[i],
                    map.segments@,
                    i,
                ),
            r.boundaries@.len() == (if map.segments@.len() == 0 {
                0
            } else {
                map.segments@.len() - 1
            }),
            forall|i: int|
                0 <= i < r.boundaries@.len() ==> is_boundary_row(
                    #[trigger] r.boundaries@[i],
                    map.segments@,
                    i,
                    master_silences@,
                    snap_radius_ns as int,
                ),
    {
        let segments = build_segment_rows(map);
        let boundaries = build_boundary_rows(map, master_silences, snap_radius_ns);
        OffsetMapReport { summary, segments, boundaries }
    }
}

/// The formats of a report.
#[derive(Clone, Copy, Debug, PartialEq, Eq, Structural)]
pub enum ReportFormat {
    Html,
    Csv,
    Json,
}

impl ReportFormat {
    /// The format that a file extension stands for, in any case; unknown ones
    /// and none at all stand for comma-separated values.
    pub open spec fn of(extension: Option<Seq<char>>) -> ReportFormat {
        match extension {
            Some(e) => if cli::ascii_lower(e) == "html"@ || cli::ascii_lower(e) == "htm"@ {
                ReportFormat::Html
            } else if cli::ascii_lower(e) == "json"@ {
                ReportFormat::Json
            } else {
                ReportFormat::Csv
            },
            None => ReportFormat::Csv,
        }
    }

    pub fn of_extension(extension: Option<&str>) -> (r: ReportFormat)
        ensures
            r == ReportFormat::of(args::opt_str_view(extension)),
    {
        match extension {
            Some(e) => {
                let l = to_lower(&text::chars_of(e));
                if same_text(l.as_str(), "html") || same_text(l.as_str(), "htm") {
                    ReportFormat::Html
                } else if same_text(l.as_str(), "json") {
                    ReportFormat::Json
                } else {
                    ReportFormat::Csv
                }
            },
            None => ReportFormat::Csv,
        }
    }
}

/// A time that may be missing, in seconds.
pub open spec fn opt_seconds(ns: Option<i64>) -> Seq<char> {
    match ns {
        Some(t) => fixed::seconds(t as int),
        None => Seq::empty(),
    }
}

fn push_opt_seconds(out: &mut String, ns: Option<i64>)
    ensures
        final(out)@ == old(out)@ + opt_seconds(ns),
{
    let ghost start = out@;
    match ns {
        Some(t) => {
            fixed::push_seconds(out, t);
        },
        None => {
            assert(out@ =~= start + opt_seconds(ns));
        },
    }
}

impl SegmentRow {
    pub open spec fn csv(&self) -> Seq<char> {
        "segment,"@ + text::decimal(self.index as nat) + ","@ + fixed::seconds(
            self.master_start_ns as int,
        ) + ","@ + fixed::seconds(self.master_end_ns as int) + ","@ + fixed::seconds(
            self.duration_ns as int,
        ) + ","@ + fixed::seconds(self.donor_offset_ns as int) + ","@ + opt_seconds(
            self.jump_from_prev_ns,
        ) + ",,,,,,\n"@
    }

    fn csv_text(&self) -> (r: String)
        ensures
            r@ == self.csv(),
    {
        let mut r = String::from_str("segment,");
        text::push_decimal(&mut r, self.index as u64);
        r.append(",");
        fixed::push_seconds(&mut r, self.master_start_ns);
        r.append(",");
        fixed::push_seconds(&mut r, self.master_end_ns);
        r.append(",");
        fixed::push_seconds(&mut r, self.duration_ns);
        r.append(",");
        fixed::push_seconds(&mut r, self.donor_offset_ns);
        r.append(",");
        push_opt_seconds(&mut r, self.jump_from_prev_ns);
        r.append(",,,,,,\n");
        r
    }

    pub open spec fn html(&self) -> Seq<char> {
        "<tr class=\"num\"><td>"@ + text::decimal(self.index as nat) + "</td><td>"@
            + fixed::seconds3(self.master_start_ns as int) + "</td><td>"@ + fixed::seconds3(
            self.master_end_ns as int,
        ) + "</td><td>"@ + fixed::seconds3(self.duration_ns as int) + "</td><td>"@
            + fixed::plus_seconds3(self.donor_offset_ns as int) + "</td><td>"@ + (
        match self.jump_from_prev_ns {
            Some(j) => fixed::plus_seconds3(j as int),
            None => "—"@,
        }) + "</td></tr>\n"@
    }

    fn html_text(&self) -> (r: String)
        ensures
            r@ == self.html(),
    {
        let mut r = String::from_str("<tr class=\"num\"><td>");
        text::push_decimal(&mut r, self.index as u64);
        r.append("</td><td>");
        fixed::push_seconds3(&mut r, self.master_start_ns);
        r.append("</td><td>");
        fixed::push_seconds3(&mut r, self.master_end_ns);
        r.append("</td><td>");
        fixed::push_seconds3(&mut r, self.duration_ns);
        r.append("</td><td>");
        fixed::push_plus_seconds3(&mut r, self.donor_offset_ns);
        r.append("</td><td>");
        match self.jump_from_prev_ns {
            Some(j) => {
                fixed::push_plus_seconds3(&mut r, j);
            },
            None => {
                r.append("—");
            },
        }
        r.append("</td></tr>\n");
        r
    }
}

/// A time that may be missing, with three places or a dash.
pub open spec fn seconds_or_dash(ns: Option<i64>) -> Seq<char> {
    match ns {
        Some(t) => fixed::seconds3(t as int),
        None => "—"@,
    }
}

fn push_seconds_or_dash(out: &mut String, ns: Option<i64>)
    ensures
        final(out)@ == old(out)@ + seconds_or_dash(ns),
{
    match ns {
        Some(t) => {
            fixed::push_seconds3(out, t);
        },
        None => {
            out.append("—");
        },
    }
}

impl BoundaryRow {
    pub open spec fn csv(&self) -> Seq<char> {
        "boundary,"@ + text::decimal(self.index as nat) + ",,,,,,"@ + fixed::seconds(
            self.boundary_master_ns as int,
        ) + ","@ + fixed::seconds(self.delta_ns as int) + (if self.master_silence_used {
            ",true,"@
        } else {
            ",false,"@
        }) + opt_seconds(self.master_silence_at_ns) + ","@ + opt_seconds(
            self.master_silence_width_ns,
        ) + ","@ + fixed::seconds(self.gap_ns as int) + "\n"@
    }

    fn csv_text(&self) -> (r: String)
        ensures
            r@ == self.csv(),
    {
        let mut r = String::from_str("boundary,");
        text::push_decimal(&mut r, self.index as u64);
        r.append(",,,,,,");
        fixed::push_seconds(&mut r, self.boundary_master_ns);
        r.append(",");
        fixed::push_seconds(&mut r, self.delta_ns);
        r.append(
            if self.master_silence_used {
                ",true,"
            } else {
                ",false,"
            },
        );
        push_opt_seconds(&mut r, self.master_silence_at_ns);
        r.append(",");
        push_opt_seconds(&mut r, self.master_silence_width_ns);
        r.append(",");
        fixed::push_seconds(&mut r, self.gap_ns);
        r.append("\n");
        r
    }

    pub open spec fn html(&self) -> Seq<char> {
        "<tr class=\"num\"><td>"@ + text::decimal(self.index as nat) + "</td><td>"@
            + fixed::seconds3(self.boundary_master_ns as int) + "</td><td>"@
            + fixed::plus_seconds3(self.delta_ns as int) + "</td><td>"@ + (
        if self.master_silence_used {
            "<span class=\"yes\">yes</span>"@
        } else {
            "<span class=\"no\">fallback</span>"@
        }) + "</td><td>"@ + seconds_or_dash(self.master_silence_at_ns) + "</td><td>"@
            + seconds_or_dash(self.master_silence_width_ns) + "</td><td>"@ + fixed::seconds3(
            self.gap_ns as int,
        ) + "</td></tr>\n"@
    }

    fn html_text(&self) -> (r: String)
        ensures
            r@ == self.html(),
    {
        let mut r = String::from_str("<tr class=\"num\"><td>");
        text::push_decimal(&mut r, self.index as u64);
        r.append("</td><td>");
        fixed::push_seconds3(&mut r, self.boundary_master_ns);
        r.append("</td><td>");
        fixed::push_plus_seconds3(&mut r, self.delta_ns);
        r.append("</td><td>");
        r.append(
            if self.master_silence_used {
                "<span class=\"yes\">yes</span>"
            } else {
                "<span class=\"no\">fallback</span>"
            },
        );
        r.append("</td><td>");
        push_seconds_or_dash(&mut r, self.master_silence_at_ns);
        r.append("</td><td>");
        push_seconds_or_dash(&mut r, self.master_silence_width_ns);
        r.append("</td><td>");
        fixed::push_seconds3(&mut r, self.gap_ns);
        r.append("</td></tr>\n");
        r
    }
}

pub const CSV_HEADER: &'static str = "#\nsection,index,master_start_s,master_end_s,duration_s,donor_offset_s,jump_from_prev_s,boundary_master_s,delta_s,master_silence_used,master_silence_at_s,master_silence_width_s,gap_s\n";

impl OffsetMapReport {
    pub open spec fn comment(&self) -> spec_fn(int) -> Seq<char> {
        |i: int| "# "@ + self.summary.lines()[i] + "\n"@
    }

    pub open spec fn segment_csv(&self) -> spec_fn(int) -> Seq<char> {
        |i: int| self.segments@[i].csv()
    }

    pub open spec fn boundary_csv(&self) -> spec_fn(int) -> Seq<char> {
        |i: int| self.boundaries@[i].csv()
    }

    /// The summary as comments, a heading, the segments and the boundaries.
    pub open spec fn csv(&self) -> Seq<char> {
        text::flat(self.comment(), self.summary.lines().len() as int) + CSV_HEADER@ + text::flat(
            self.segment_csv(),
            self.segments@.len() as int,
        ) + text::flat(self.boundary_csv(), self.boundaries@.len() as int)
    }

    /// The report as comma-separated values.
    #[verifier::rlimit(30)]
    pub fn csv_text(&self) -> (r: String)
        ensures
            r@ == self.csv(),
    {
        let lines = self.summary.human_lines();
        let mut r = String::new();
        let mut i: usize = 0;
        while i < lines.len()
            invariant
                i <= lines@.len(),
                args::views(lines@) == self.summary.lines(),
                r@ == text::flat(self.comment(), i as int),
            decreases lines@.len() - i,
        {
            assert(self.summary.lines()[i as int] == lines@[i as int]@);
            let mut l = String::from_str("# ");
            l.append(lines[i].as_str());
            l.append("\n");
            r.append(l.as_str());
            i += 1;
        }
        r.append(CSV_HEADER);
        let ghost before = r@;
        let mut i: usize = 0;
        assert(before =~= before + text::flat(self.segment_csv(), 0));
        while i < self.segments.len()
            invariant
                i <= self.segments@.len(),
                r@ == before + text::flat(self.segment_csv(), i as int),
            decreases self.segments@.len() - i,
        {
            r.append(self.segments[i].csv_text().as_str());
            i += 1;
            assert(r@ =~= before + text::flat(self.segment_csv(), i as int));
        }
        let ghost before_boundaries = r@;
        let mut i: usize = 0;
        assert(before_boundaries =~= before_boundaries + text::flat(self.boundary_csv(), 0));
        while i < self.boundaries.len()
            invariant
                i <= self.boundaries@.len(),
                r@ == before_boundaries + text::flat(self.boundary_csv(), i as int),
            decreases self.boundaries@.len() - i,
        {
            r.append(self.boundaries[i].csv_text().as_str());
            i += 1;
            assert(r@ =~= before_boundaries + text::flat(self.boundary_csv(), i as int));
        }
        r
    }
}

/// How a character is written in HTML.
pub open spec fn escape(c: char) -> Seq<char> {
    if c == '<' {
        "&lt;"@
    } else if c == '>' {
        "&gt;"@
    } else if c == '&' {
        "&amp;"@
    } else if c == '"' {
        "&quot;"@
    } else if c == '\'' {
        "&#39;"@
    } else {
        seq![c]
    }
}

pub open spec fn escapes(s: Seq<char>) -> spec_fn(int) -> Seq<char> {
    |i: int| escape(s[i])
}

/// How a text is written in HTML.
pub open spec fn escaped(s: Seq<char>) -> Seq<char> {
    text::flat(escapes(s), s.len() as int)
}

/// Escapes the characters that HTML gives a meaning to.
pub fn html_escape(s: &str) -> (r: String)
    ensures
        r@ == escaped(s@),
{
    let chars = text::chars_of(s);
    let mut r = String::new();
    let mut i: usize = 0;
    while i < chars.len()
        invariant
            i <= chars@.len(),
            chars@ == s@,
            r@ == text::flat(escapes(s@), i as int),
        decreases chars@.len() - i,
    {
        let c = chars[i];
        match c {
            '<' => {
                r.append("&lt;");
            },
            '>' => {
                r.append("&gt;");
            },
            '&' => {
                r.append("&amp;");
            },
            '"' => {
                r.append("&quot;");
            },
            '\'' => {
                r.append("&#39;");
            },
            _ => {
                r.push(c);
            },
        }
        i += 1;
        assert(r@ =~= text::flat(escapes(s@), i as int));
    }
    r
}

/// Nothing in it opens or closes a tag or an attribute.
pub open spec fn inert(t: Seq<char>) -> bool {
    forall|i: int|
        0 <= i < t.len() ==> #[trigger] t[i] != '<' && t[i] != '>' && t[i] != '"' && t[i] != '\''
}

/// An escaped text cannot open or close a tag or an attribute.
pub proof fn law_escaped_is_inert(s: Seq<char>)
    ensures
        inert(escaped(s)),
{
    lemma_flat_inert(s, s.len() as int);
}

proof fn lemma_flat_inert(s: Seq<char>, n: int)
    requires
        0 <= n <= s.len(),
    ensures
        inert(text::flat(escapes(s), n)),
    decreases n,
{
    reveal_strlit("&lt;");
    reveal_strlit("&gt;");
    reveal_strlit("&amp;");
    reveal_strlit("&quot;");
    reveal_strlit("&#39;");
    if n > 0 {
        lemma_flat_inert(s, n - 1);
        assert(inert(escape(s[n - 1])));
    }
}

pub const HTML_HEAD: &'static str = "<!doctype html>\n<html lang=\"en\"><head>\n<meta charset=\"utf-8\">\n<title>";

pub const HTML_STYLE: &'static str = "</title>\n<style>\nbody { font-family: -apple-system, system-ui, sans-serif; margin: 24px; max-width: 980px; }\nh1 { font-size: 1.4em; margin-bottom: 0.2em; }\n.summary ul { list-style: none; padding-left: 0; }\n.summary li { padding: 2px 0; }\ntable { border-collapse: collapse; margin-top: 12px; font-size: 0.92em; }\nth, td { border: 1px solid #ddd; padding: 4px 8px; text-align: right; }\nth { background: #f4f4f4; font-weight: 600; }\ntr:nth-child(even) td { background: #fbfbfb; }\n.yes { color: #2a8a4f; font-weight: 600; }\n.no { color: #b04848; font-weight: 600; }\n.num { font-variant-numeric: tabular-nums; }\n</style>\n</head><body>\n<h1>dubsync report</h1>\n<section class=\"summary\"><ul>\n";

pub const HTML_SEGMENTS: &'static str = "</ul></section>\n<h2>Segments</h2>\n<table>\n<thead><tr><th>#</th><th>master_start_s</th><th>master_end_s</th><th>duration_s</th><th>donor_offset_s</th><th>jump_from_prev_s</th></tr></thead>\n<tbody>\n";

pub const HTML_BOUNDARIES: &'static str = "<h2>Boundaries</h2>\n<table>\n<thead><tr><th>#</th><th>boundary_master_s</th><th>delta_s</th><th>master_silence_used</th><th>master_silence_at_s</th><th>master_silence_width_s</th><th>gap_s</th></tr></thead>\n<tbody>\n";

pub const HTML_TABLE_END: &'static str = "</tbody></table>\n";

pub const HTML_END: &'static str = "</body></html>\n";

impl OffsetMapReport {
    pub open spec fn item(&self) -> spec_fn(int) -> Seq<char> {
        |i: int| "<li>"@ + escaped(self.summary.lines()[i]) + "</li>\n"@
    }

    pub open spec fn segment_html(&self) -> spec_fn(int) -> Seq<char> {
        |i: int| self.segments@[i].html()
    }

    pub open spec fn boundary_html(&self) -> spec_fn(int) -> Seq<char> {
        |i: int| self.boundaries@[i].html()
    }

    pub open spec fn html_top(&self) -> Seq<char> {
        HTML_HEAD@ + escaped("dubsync report — "@ + self.summary.output_file@) + HTML_STYLE@
            + text::flat(self.item(), self.summary.lines().len() as int)
    }

    /// The table of boundaries, if there are any.
    pub open spec fn html_boundaries(&self) -> Seq<char> {
        if self.boundaries@.len() > 0 {
            HTML_BOUNDARIES@ + text::flat(self.boundary_html(), self.boundaries@.len() as int)
                + HTML_TABLE_END@
        } else {
            ""@
        }
    }

    /// A page with the summary as a list, a table of the segments, and one of
    /// the boundaries if there are any.
    pub open spec fn html(&self) -> Seq<char> {
        self.html_top() + HTML_SEGMENTS@ + text::flat(
            self.segment_html(),
            self.segments@.len() as int,
        ) + HTML_TABLE_END@ + self.html_boundaries() + HTML_END@
    }

    fn html_top_text(&self) -> (r: String)
        ensures
            r@ == self.html_top(),
    {
        let mut r = String::from_str(HTML_HEAD);
        let title = args::joined("dubsync report — ", self.summary.output_file.as_str());
        r.append(html_escape(title.as_str()).as_str());
        r.append(HTML_STYLE);
        let lines = self.summary.human_lines();
        let ghost before = r@;
        let mut i: usize = 0;
        assert(before =~= before + text::flat(self.item(), 0));
        while i < lines.len()
            invariant
                i <= lines@.len(),
                args::views(lines@) == self.summary.lines(),
                r@ == before + text::flat(self.item(), i as int),
            decreases lines@.len() - i,
        {
            assert(self.summary.lines()[i as int] == lines@[i as int]@);
            let mut l = String::from_str("<li>");
            l.append(html_escape(lines[i].as_str()).as_str());
            l.append("</li>\n");
            r.append(l.as_str());
            i += 1;
            assert(r@ =~= before + text::flat(self.item(), i as int));
        }
        r
    }

    fn html_boundaries_text(&self) -> (r: String)
        ensures
            r@ == self.html_boundaries(),
    {
        if self.boundaries.len() == 0 {
            return String::from_str("");
        }
        let mut r = String::from_str(HTML_BOUNDARIES);
        let ghost before = r@;
        let mut i: usize = 0;
        assert(before =~= before + text::flat(self.boundary_html(), 0));
        while i < self.boundaries.len()
            invariant
                i <= self.boundaries@.len(),
                r@ == before + text::flat(self.boundary_html(), i as int),
            decreases self.boundaries@.len() - i,
        {
            r.append(self.boundaries[i].html_text().as_str());
            i += 1;
            assert(r@ =~= before + text::flat(self.boundary_html(), i as int));
        }
        r.append(HTML_TABLE_END);
        r
    }

    /// The report as a page of HTML.
    pub fn html_text(&self) -> (r: String)
        ensures
            r@ == self.html(),
    {
        let mut r = self.html_top_text();
        r.append(HTML_SEGMENTS);
        let ghost before = r@;
        let mut i: usize = 0;
        assert(before =~= before + text::flat(self.segment_html(), 0));
        while i < self.segments.len()
            invariant
                i <= self.segments@.len(),
                r@ == before + text::flat(self.segment_html(), i as int),
            decreases self.segments@.len() - i,
        {
            r.append(self.segments[i].html_text().as_str());
            i += 1;
            assert(r@ =~= before + text::flat(self.segment_html(), i as int));
        }
        r.append(HTML_TABLE_END);
        r.append(self.html_boundaries_text().as_str());
        r.append(HTML_END);
        r
    }

    /// The report in a format that the library writes; JSON is left to the
    /// caller.
    pub fn render(&self, format: ReportFormat) -> (r: Option<String>)
        ensures
            match r {
                Some(t) => format != ReportFormat::Json && t@ == (if format == ReportFormat::Html {
                    self.html()
                } else {
                    self.csv()
                }),
                None => format == ReportFormat::Json,
            },
    {
        match format {
            ReportFormat::Html => Some(self.html_text()),
            ReportFormat::Csv => Some(self.csv_text()),
            ReportFormat::Json => None,
        }
    }
}

/// A row tells where its segment lies, how long it lasts, its offset, and by how
/// much that differs from the segment before.
pub proof fn law_segment_rows(row: SegmentRow, segments: Seq<Segment>, i: int)
    requires
        0 <= i < segments.len(),
        is_segment_row(row, segments, i),
    ensures
        row.index == i,
        row.master_start_ns == segments[i].master_start_ns,
        row.master_end_ns == segments[i].master_end_ns,
        row.master_start_ns + row.duration_ns == row.master_end_ns,
        row.donor_offset_ns == segments[i].donor_offset_ns,
        row.jump_from_prev_ns is Some <==> i > 0,
        row.jump_from_prev_ns matches Some(j) ==> segments[i - 1].donor_offset_ns + j
            == segments[i].donor_offset_ns,
{
}

/// A row tells where its boundary lies, by how much the offset changes there, and
/// the silence that goes in: as much as the offset falls, none where it rises. A
/// master silence that it names is wide enough and near enough; where it names
/// none, there is none.
pub proof fn law_boundary_rows(
    row: BoundaryRow,
    segments: Seq<Segment>,
    i: int,
    silences: Seq<SilenceInterval>,
    radius: int,
)
    requires
        applier::segments_in_range(segments),
        applier::silences_in_range(silences),
        0 <= i < segments.len() - 1,
        is_boundary_row(row, segments, i, silences, radius),
    ensures
        row.index == i,
        row.boundary_master_ns == segments[i].master_end_ns,
        segments[i].donor_offset_ns + row.delta_ns == segments[i + 1].donor_offset_ns,
        row.delta_ns < 0 ==> row.gap_ns == -row.delta_ns,
        row.delta_ns >= 0 ==> row.gap_ns == 0,
        row.master_silence_used ==> row.master_silence_at_ns is Some && row.master_silence_width_ns
            is Some && exists|k: int|
            #![trigger silences[k]]
            {
                let s = silences[k];
                let at = row.master_silence_at_ns->0;
                let far = s.start_ns + s.end_ns - 2 * row.boundary_master_ns;
                &&& 0 <= k < silences.len()
                &&& row.master_silence_width_ns->0 == s.end_ns - s.start_ns
                &&& 2 * at <= s.start_ns + s.end_ns <= 2 * at + 1
                &&& -(s.end_ns - s.start_ns) <= row.delta_ns <= s.end_ns - s.start_ns
                &&& -2 * radius <= far <= 2 * radius
            },
        !row.master_silence_used ==> row.master_silence_at_ns is None && row.master_silence_width_ns
            is None && forall|k: int|
            #![trigger silences[k]]
            0 <= k < silences.len() ==> {
                let s = silences[k];
                let far = s.start_ns + s.end_ns - 2 * row.boundary_master_ns;
                s.end_ns - s.start_ns < row.delta_ns || s.end_ns - s.start_ns < -row.delta_ns || far
                    > 2 * radius || far < -2 * radius
            },
{
    match row_snap(row) {
        Some(snap) => {
            applier::law_master_silence_is_the_nearest(snap, segments, i, silences, radius);
        },
        None => {
            assert forall|k: int| #![trigger silences[k]] 0 <= k < silences.len() implies {
                let s = silences[k];
                let far = s.start_ns + s.end_ns - 2 * row.boundary_master_ns;
                s.end_ns - s.start_ns < row.delta_ns || s.end_ns - s.start_ns < -row.delta_ns || far
                    > 2 * radius || far < -2 * radius
            } by {
                applier::law_no_master_silence(segments, i, silences, radius, k);
            }
        },
    }
}

/// Frame rates read as their fraction to a thousandth, ratios to a tenth of one.
pub proof fn law_rates_are_written(rate: FrameRate, donor: DonorRate, ratio: Ratio)
    requires
        rate.bottom() > 0,
        donor.den() > 0,
        ratio.den() > 0,
    ensures
        reads_ratio(fps_text(rate), 3, rate.top(), rate.bottom(), 1_000),
        reads_ratio(donor_text(donor), 3, donor.num(), donor.den(), 1_000),
        reads_ratio(ratio_text(ratio), 4, ratio.num(), ratio.den(), 10_000),
{
    reveal_with_fuel(vstd::arithmetic::power::pow, 5);
    fixed::law_written_quotient_is_read(rate.top(), rate.bottom(), 1_000, 3);
    fixed::law_written_quotient_is_read(donor.num(), donor.den(), 1_000, 3);
    fixed::law_written_quotient_is_read(ratio.num(), ratio.den(), 10_000, 4);
}

/// A text reads as `n / d` to half a unit of its last place.
pub open spec fn reads_ratio(s: Seq<char>, places: int, n: int, d: int, unit: int) -> bool {
    exists|q: int|
        #[trigger] fixed::reads(s, places, n, q) && -d <= 2 * (q * d - fixed::size(n) * unit) <= d
}

/// The share of the anchors that were kept is told in percent, to a tenth.
pub proof fn law_kept_share(kept: usize, total: usize)
    ensures
        total > 0 ==> reads_ratio(kept_text(kept, total), 1, 100 * kept, total as int, 10),
        total == 0 ==> fixed::reads(kept_text(kept, total), 1, 0, 0),
{
    let q = if total > 0 {
        fixed::round_even(kept * 1000, total as int)
    } else {
        0
    };
    if total > 0 {
        fixed::law_round_even(kept * 1000, total as int);
        vstd::arithmetic::div_mod::lemma_div_pos_is_pos(kept * 1000, total as int);
    }
    fixed::law_tenths_are_read(q);
    assert(fixed::reads(kept_text(kept, total), 1, 100 * kept, q));
}

/// A time is told in whole minutes, if it has any, and the seconds beyond them
/// to a tenth.
pub proof fn law_durations_are_written(ns: int)
    requires
        ns >= 0,
    ensures
        exists|m: nat, t: Seq<char>| #[trigger] is_duration(duration_text(ns), ns, m, t),
{
    let m = (ns / 60_000_000_000) as nat;
    let rest = ns % 60_000_000_000;
    let q = fixed::round_even(rest, 100_000_000);
    let t = fixed::fixed(q, 10, 1);
    fixed::law_round_even(rest, 100_000_000);
    fixed::law_tenths_are_read(q);
    assert(fixed::reads(t, 1, rest, q));
    assert(is_duration(duration_text(ns), ns, m, t));
}

/// `s` tells `m` minutes and the seconds that `t` reads as.
pub open spec fn is_duration(s: Seq<char>, ns: int, m: nat, t: Seq<char>) -> bool {
    &&& s == if m > 0 {
        text::decimal(m) + "m"@ + t + "s"@
    } else {
        t + "s"@
    }
    &&& 0 <= ns - 60_000_000_000 * m < 60_000_000_000
    &&& fixed::reads_as(t, 1, ns - 60_000_000_000 * m, 100_000_000)
}

/// What a browser shows of a text.
pub open spec fn shown(t: Seq<char>) -> Seq<char>
    decreases t.len(),
{
    if t.len() == 0 {
        Seq::empty()
    } else if starts(t, seq!['&', 'l', 't', ';']) {
        seq!['<'] + shown(t.skip(4))
    } else if starts(t, seq!['&', 'g', 't', ';']) {
        seq!['>'] + shown(t.skip(4))
    } else if starts(t, seq!['&', 'a', 'm', 'p', ';']) {
        seq!['&'] + shown(t.skip(5))
    } else if starts(t, seq!['&', 'q', 'u', 'o', 't', ';']) {
        seq!['"'] + shown(t.skip(6))
    } else if starts(t, seq!['&', '#', '3', '9', ';']) {
        seq!['\''] + shown(t.skip(5))
    } else {
        seq![t[0]] + shown(t.skip(1))
    }
}

pub open spec fn starts(t: Seq<char>, with: Seq<char>) -> bool {
    t.len() >= with.len() && t.take(with.len() as int) == with
}

proof fn lemma_shown_escape(c: char, rest: Seq<char>)
    ensures
        shown(escape(c) + rest) == seq![c] + shown(rest),
{
    reveal_strlit("&lt;");
    reveal_strlit("&gt;");
    reveal_strlit("&amp;");
    reveal_strlit("&quot;");
    reveal_strlit("&#39;");
    let e = escape(c);
    let t = e + rest;
    assert(t.take(e.len() as int) =~= e);
    assert(t.skip(e.len() as int) =~= rest);
    assert(t[0] == e[0]);
    if c == '<' {
        assert(e =~= seq!['&', 'l', 't', ';']);
    } else if c == '>' {
        assert(e =~= seq!['&', 'g', 't', ';']);
        assert(t.take(4)[1] == 'g');
    } else if c == '&' {
        assert(e =~= seq!['&', 'a', 'm', 'p', ';']);
        assert(t.take(4)[1] == 'a');
    } else if c == '"' {
        assert(e =~= seq!['&', 'q', 'u', 'o', 't', ';']);
        assert(t.take(4)[1] == 'q' && t.take(5)[1] == 'q');
    } else if c == '\'' {
        assert(e =~= seq!['&', '#', '3', '9', ';']);
        assert(t.take(4)[1] == '#' && t.take(5)[1] == '#');
        assert(t.len() >= 6 ==> t.take(6)[1] == '#');
    } else {
        assert(t.len() >= 4 ==> t.take(4)[0] == c);
        assert(t.len() >= 5 ==> t.take(5)[0] == c);
        assert(t.len() >= 6 ==> t.take(6)[0] == c);
    }
}

proof fn lemma_shown_flat(s: Seq<char>, n: int, rest: Seq<char>)
    requires
        0 <= n <= s.len(),
    ensures
        shown(text::flat(escapes(s), n) + rest) == s.take(n) + shown(rest),
    decreases n,
{
    if n > 0 {
        let more = escape(s[n - 1]) + rest;
        lemma_shown_flat(s, n - 1, more);
        lemma_shown_escape(s[n - 1], rest);
        assert(text::flat(escapes(s), n) + rest =~= text::flat(escapes(s), n - 1) + more);
        assert(s.take(n) + shown(rest) =~= s.take(n - 1) + (seq![s[n - 1]] + shown(rest)));
    } else {
        assert(text::flat(escapes(s), n) + rest =~= rest);
        assert(s.take(n) + shown(rest) =~= shown(rest));
    }
}

/// A browser shows an escaped text as the text that it was.
pub proof fn law_escaped_shows_as_it_was(s: Seq<char>)
    ensures
        shown(escaped(s)) == s,
{
    lemma_shown_flat(s, s.len() as int, Seq::empty());
    assert(escaped(s) + Seq::<char>::empty() =~= escaped(s));
    assert(s.take(s.len() as int) + Seq::<char>::empty() =~= s);
}

} // verus!
