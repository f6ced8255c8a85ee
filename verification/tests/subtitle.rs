use dubsync::correlation::offset_map::{OffsetMap, Segment};
use dubsync::error::DubsyncError;
use dubsync::subtitle::srt::{format_timestamp, parse, parse_one_timestamp, serialize};
use dubsync::subtitle::{apply_offset_map, SubtitleEvent};

const S: i128 = 1_000_000_000;

fn ns(s: f64) -> i64 {
    (s * 1e9).round() as i64
}

fn ev(idx: u32, start: f64, end: f64, text: &str) -> SubtitleEvent {
    SubtitleEvent { index: idx, start_ns: ns(start) as i128, end_ns: ns(end) as i128, text: text.into() }
}

fn seg(start: f64, end: f64, offset: f64) -> Segment {
    Segment { master_start_ns: ns(start), master_end_ns: ns(end), donor_offset_ns: ns(offset) }
}

fn map_with_segments(segs: Vec<Segment>) -> OffsetMap {
    let last_end = segs.last().map(|s| s.master_end_ns).unwrap_or(0);
    OffsetMap {
        segments: segs,
        master_duration_ns: last_end,
        anchor_count: 1,
        rejected_count: 0,
        suppressed_jumps: 0,
        valid_master_start_ns: 0,
        valid_master_end_ns: last_end,
    }
}

#[test]
fn shifts_events_within_single_segment() {
    let map = map_with_segments(vec![seg(0.0, 100.0, 0.0)]);
    let input = vec![ev(1, 10.0, 12.0, "hi"), ev(2, 50.0, 51.0, "world")];
    let out = apply_offset_map(&input, &map);
    assert_eq!(out.len(), 2);
    assert_eq!(out[0].start_ns, 10 * S);
    assert_eq!(out[0].end_ns, 12 * S);
    assert_eq!(out[1].start_ns, 50 * S);
    assert_eq!(out[0].index, 1);
    assert_eq!(out[1].index, 2);
}

#[test]
fn shifts_events_per_segment_offset() {
    let map = map_with_segments(vec![seg(0.0, 50.0, 0.0), seg(50.0, 100.0, -1.0)]);
    let input = vec![ev(1, 10.0, 12.0, "a"), ev(2, 80.0, 82.0, "b")];
    let out = apply_offset_map(&input, &map);
    assert_eq!(out.len(), 2);
    assert_eq!(out[0].start_ns, 10 * S);
    assert_eq!(out[1].start_ns, 81 * S);
    assert_eq!(out[1].end_ns, 83 * S);
}

#[test]
fn drops_events_outside_any_segment() {
    let map = map_with_segments(vec![seg(10.0, 50.0, 0.0)]);
    let input = vec![
        ev(1, 4.0, 6.0, "early"),
        ev(2, 20.0, 22.0, "middle"),
        ev(3, 58.0, 62.0, "late"),
    ];
    let out = apply_offset_map(&input, &map);
    assert_eq!(out.len(), 1);
    assert_eq!(out[0].text, "middle");
    assert_eq!(out[0].index, 1);
}

#[test]
fn renumbers_after_drops() {
    let map = map_with_segments(vec![seg(0.0, 100.0, 0.0)]);
    let input = vec![
        ev(1, 10.0, 11.0, "a"),
        ev(99, 200.0, 201.0, "out"),
        ev(7, 50.0, 51.0, "b"),
    ];
    let out = apply_offset_map(&input, &map);
    assert_eq!(out.len(), 2);
    assert_eq!(out[0].index, 1);
    assert_eq!(out[1].index, 2);
    assert!(out[0].start_ns < out[1].start_ns);
}

#[test]
fn shifted_events_are_sorted() {
    let map = map_with_segments(vec![seg(0.0, 100.0, 0.0)]);
    let input = vec![ev(1, 50.0, 51.0, "b"), ev(2, 10.0, 11.0, "a")];
    let out = apply_offset_map(&input, &map);
    assert_eq!(out[0].text, "a");
    assert_eq!(out[0].index, 1);
    assert_eq!(out[1].text, "b");
}

#[test]
fn parses_canonical_two_event_srt() {
    let text = "1\n00:00:01,000 --> 00:00:03,500\nHello\n\n2\n00:00:10,250 --> 00:00:12,000\nWorld\nLine 2\n\n";
    let events = parse(text).unwrap();
    assert_eq!(events.len(), 2);
    assert_eq!(events[0].index, 1);
    assert_eq!(events[0].start_ns, S);
    assert_eq!(events[0].end_ns, 3_500_000_000);
    assert_eq!(events[0].text, "Hello");
    assert_eq!(events[1].start_ns, 10_250_000_000);
    assert_eq!(events[1].text, "World\nLine 2");
}

#[test]
fn handles_crlf_and_bom() {
    let text =
        "\u{feff}1\r\n00:00:01,000 --> 00:00:02,000\r\nHi\r\n\r\n2\r\n00:00:05,000 --> 00:00:06,000\r\nBye\r\n";
    let events = parse(text).unwrap();
    assert_eq!(events.len(), 2);
    assert_eq!(events[0].text, "Hi");
    assert_eq!(events[1].text, "Bye");
}

#[test]
fn tolerates_dot_decimal_separator() {
    let text = "1\n00:00:01.500 --> 00:00:03.250\nHi\n\n";
    let events = parse(text).unwrap();
    assert_eq!(events[0].start_ns, 1_500_000_000);
    assert_eq!(events[0].end_ns, 3_250_000_000);
}

#[test]
fn tolerates_missing_index_lines() {
    let text = "00:00:01,000 --> 00:00:02,000\nA\n\n00:00:03,000 --> 00:00:04,000\nB\n\n";
    let events = parse(text).unwrap();
    assert_eq!(events.len(), 2);
    assert_eq!(events[0].index, 1);
    assert_eq!(events[1].index, 2);
}

#[test]
fn round_trip_preserves_timing_and_text() {
    let document = "1\n00:00:01,000 --> 00:00:03,500\nHello\nworld\n\n2\n00:01:30,250 --> 00:01:32,000\nBye\n\n";
    let events = parse(document).unwrap();
    let out = serialize(&events);
    let reparsed = parse(&out).unwrap();
    assert_eq!(events.len(), reparsed.len());
    for (a, b) in events.iter().zip(reparsed.iter()) {
        assert_eq!(a.start_ns, b.start_ns);
        assert_eq!(a.end_ns, b.end_ns);
        assert_eq!(a.text, b.text);
    }
    assert_eq!(out, document);
}

#[test]
fn timestamp_round_trip() {
    for s in [0.0, 0.001, 1.5, 59.999, 60.0, 3600.0, 3661.123] {
        let formatted: Vec<char> = format_timestamp(ns(s) as i128).chars().collect();
        let parsed = parse_one_timestamp(&formatted).unwrap();
        assert_eq!(parsed, ns(s) as i128, "round trip failed for {s}");
    }
}

#[test]
fn rejects_garbage_timestamps() {
    let bad = "1\nnot a timestamp\nHi\n\n";
    assert!(matches!(parse(bad), Err(DubsyncError::SubtitleParse(_))));
}

#[test]
fn serialize_clamps_negative_to_zero() {
    let events = vec![SubtitleEvent {
        index: 1,
        start_ns: -5 * S,
        end_ns: -3 * S,
        text: "invalid".into(),
    }];
    let out = serialize(&events);
    assert!(out.contains("00:00:00,000 --> 00:00:00,000"));
}

#[test]
fn timestamps_round_to_milliseconds() {
    assert_eq!(format_timestamp(1_234_499_999), "00:00:01,234");
    assert_eq!(format_timestamp(1_234_500_000), "00:00:01,235");
    assert_eq!(format_timestamp(359_999_999_600_000), "100:00:00,000");
}

#[test]
fn tolerates_missing_blank_lines() {
    let text = "1\n00:00:01,000 --> 00:00:02,000\nA\n2\n00:00:03,000 --> 00:00:04,000\nB\n";
    let events = parse(text).unwrap();
    assert_eq!(events.len(), 2);
    assert_eq!((events[0].start_ns, events[0].end_ns), (S, 2 * S));
    assert_eq!(events[0].text, "A");
    assert_eq!((events[1].start_ns, events[1].end_ns), (3 * S, 4 * S));
    assert_eq!(events[1].text, "B");
    assert_eq!(events[1].index, 2);

    // Without index lines too, and with events that have no text.
    let bare = "00:00:01,000 --> 00:00:02,000\nA\n00:00:03,000 --> 00:00:04,000\n\
                00:00:05,000 --> 00:00:06,000\nC\nD";
    let events = parse(bare).unwrap();
    let texts: Vec<&str> = events.iter().map(|e| e.text.as_str()).collect();
    assert_eq!(texts, vec!["A", "", "C\nD"]);
}

#[test]
fn text_that_only_looks_like_an_event_stays_text() {
    let text = "1\n00:00:01,000 --> 00:00:02,000\nleft --> right\n1984\nwas a year\n7\n";
    let events = parse(text).unwrap();
    assert_eq!(events.len(), 1);
    assert_eq!(events[0].text, "left --> right\n1984\nwas a year\n7");
}

#[test]
fn deviations_leave_the_events_alone() {
    let plain = "1\n00:00:01,000 --> 00:00:02,000\nA\n\n2\n00:00:03,000 --> 00:00:04,000\nB\n";
    let show = |text: &str| {
        let events = parse(text).unwrap();
        events
            .iter()
            .map(|e| format!("{} {} {} {}", e.index, e.start_ns, e.end_ns, e.text))
            .collect::<Vec<_>>()
    };
    let expected = show(plain);
    assert_eq!(expected.len(), 2);
    assert_eq!(show(&plain.replace('\n', "\r\n")), expected);
    assert_eq!(show(&format!("\u{feff}{plain}")), expected);
    assert_eq!(show(&plain.replace("A\n\n", "A\n \n\t\n\n")), expected);
    assert_eq!(show(&plain.replace("A\n\n", "A\n")), expected);
    assert_eq!(show(&format!("{plain}\n  ")), expected);
    assert!(parse("5\n\n00:00:01,000 --> 00:00:02,000\nA\n").is_err());
    assert!(parse("5\n  \n\n00:00:01,000 --> 00:00:02,000\nA\n").is_err());
}

#[test]
fn far_times_are_kept() {
    let text = "1\n999999999:00:00,000 --> 999999999:00:01,500\nHi\n\n";
    let events = parse(text).unwrap();
    assert_eq!(events[0].start_ns, 999_999_999 * 3_600 * S);
    assert_eq!(events[0].end_ns, 999_999_999 * 3_600 * S + 1_500_000_000);
    assert_eq!(serialize(&events), text);
    let map = map_with_segments(vec![seg(0.0, 100.0, 0.0)]);
    assert!(apply_offset_map(&events, &map).is_empty());

    let beyond = parse("1\n00:00:1e60 --> 00:00:1e90\nHi\n\n").unwrap();
    assert!(apply_offset_map(&beyond, &map).is_empty());
    assert_eq!(beyond[0].start_ns, beyond[0].end_ns);
    let most = format_timestamp(beyond[0].start_ns);
    assert_eq!(most, "5124095576030:25:51,615");
}
