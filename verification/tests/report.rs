use dubsync::audio::vad::SilenceInterval;
use dubsync::correlation::offset_map::{OffsetMap, Segment};
use dubsync::rate::{DonorRate, FrameRate, Ratio};
use dubsync::report::{format_duration, html_escape, OffsetMapReport, ReportFormat, RunSummary};

const S: i64 = 1_000_000_000;
const FILM: FrameRate = FrameRate { num: 24, den: 1, tens: 0 };
const PAL: FrameRate = FrameRate { num: 25, den: 1, tens: 0 };

fn fake_summary(output: &str) -> RunSummary {
    RunSummary {
        master_duration_ns: 1_830_500_000_000,
        master_fps: FILM,
        donor_fps: Some(DonorRate::Found(PAL)),
        fps_stretch_ratio: Some(Ratio::Rates { donor: PAL, master: FILM }),
        pal_pitch_applied: true,
        auto_fps_disabled: false,
        forced_fps_ratio_nano: None,
        anchor_only_validation: false,
        total_anchors: 122,
        kept_anchors: 119,
        rejected_anchors: 3,
        segments: 4,
        low_confidence_ppm: 25_000,
        max_jump_ns: Some(-1_250_000_000),
        max_jump_at_master_ns: Some(305_400_000_000),
        master_snap_count: 2,
        fallback_required_count: 1,
        total_silence_inserted_ns: 3_250_000_000,
        output_file: output.to_string(),
        elapsed_ns: 312_700_000_000,
    }
}

fn fake_map() -> OffsetMap {
    OffsetMap {
        segments: vec![
            Segment { master_start_ns: 0, master_end_ns: 305 * S, donor_offset_ns: 0 },
            Segment {
                master_start_ns: 305 * S,
                master_end_ns: 1_830_500_000_000,
                donor_offset_ns: -1_250_000_000,
            },
        ],
        master_duration_ns: 1_830_500_000_000,
        anchor_count: 119,
        rejected_count: 3,
        suppressed_jumps: 0,
        valid_master_start_ns: 0,
        valid_master_end_ns: 1_830_500_000_000,
    }
}

fn report() -> OffsetMapReport {
    OffsetMapReport::build(fake_summary("/tmp/out.mkv"), &fake_map(), &Vec::new(), 30 * S)
}

fn write(extension: &str) -> String {
    report().render(ReportFormat::of_extension(Some(extension))).expect("rendered here")
}

#[test]
fn html_round_trip() {
    let content = write("html");
    assert!(content.contains("<title>dubsync report"));
    assert!(content.contains("<h1>dubsync report"));
    assert!(content.contains("Segments"));
    assert!(content.contains("305.000"));
}

#[test]
fn csv_round_trip() {
    let content = write("csv");
    assert!(content.starts_with("# Total runtime:"));
    assert!(content.contains("section,index,master_start_s"));
    assert!(content.contains("segment,0,0,305"));
}

#[test]
fn unknown_extension_falls_back_to_csv() {
    let content = write("weird");
    assert!(content.contains("section,index,master_start_s"));
    assert!(matches!(ReportFormat::of_extension(None), ReportFormat::Csv));
}

#[test]
fn json_is_left_to_the_caller() {
    let report = report();
    assert!(matches!(ReportFormat::of_extension(Some("json")), ReportFormat::Json));
    assert!(report.render(ReportFormat::Json).is_none());
    assert_eq!(report.summary.segments, 4);
    assert_eq!(report.segments.len(), 2);
}

#[test]
fn human_lines_emit_eta_and_anchors() {
    let s = fake_summary("/tmp/out.mkv");
    let lines = s.human_lines();
    assert!(lines.iter().any(|l| l.starts_with("Total runtime:")));
    assert!(lines.iter().any(|l| l.contains("FPS:")));
    assert!(lines.iter().any(|l| l.contains("Anchors:")));
    assert!(lines.iter().any(|l| l.contains("Largest jump:")));
}

#[test]
fn boundary_rows_show_the_silence_used() {
    let silences = vec![SilenceInterval { start_ns: 304 * S, end_ns: 307 * S }];
    let report =
        OffsetMapReport::build(fake_summary("/tmp/out.mkv"), &fake_map(), &silences, 30 * S);
    assert_eq!(report.boundaries.len(), 1);
    let b = &report.boundaries[0];
    assert!(b.master_silence_used);
    assert_eq!(b.master_silence_at_ns, Some(305_500_000_000));
    assert_eq!(b.master_silence_width_ns, Some(3 * S));
    assert_eq!(b.gap_ns, 1_250_000_000);
    assert_eq!(report.segments[1].jump_from_prev_ns, Some(-1_250_000_000));
    assert_eq!(report.segments[0].jump_from_prev_ns, None);
    assert!(report.csv_text().contains("true"));
    assert!(report.html_text().contains("305.500"));
}

#[test]
fn markup_is_escaped() {
    assert_eq!(html_escape("a<b> & \"c\""), "a&lt;b&gt; &amp; &quot;c&quot;");
    let report = OffsetMapReport::build(fake_summary("<x>.mkv"), &fake_map(), &Vec::new(), 30 * S);
    assert!(!report.html_text().contains("<x>"));
}

#[test]
fn run_times_are_formatted() {
    assert_eq!(format_duration(5_000_000_000), "5.0s");
    assert_eq!(format_duration(65_250_000_000), "1m5.2s");
    assert_eq!(format_duration(3_725_000_000_000), "62m5.0s");
}
