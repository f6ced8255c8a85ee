use dubsync::error::DubsyncError;
use dubsync::ffprobe::{
    contains_u32, ensure_indices_exist, list_audio_streams, parse_rational, probe_args,
    probe_outcome, string_map, sub_label, video_fps, AudioStream, RawVideoStream, SubtitleStream,
};
use dubsync::rate::FrameRate;

fn value(r: FrameRate) -> f64 {
    let num: f64 = format!("{}e{}", r.num, r.tens).parse().unwrap();
    num / r.den as f64
}

fn pair(k: &str, v: &str) -> (String, String) {
    (k.to_string(), v.to_string())
}

fn audio(index: u32) -> AudioStream {
    AudioStream {
        index,
        codec_name: "ac3".to_string(),
        channels: 6,
        sample_rate: "48000".to_string(),
        channel_layout: Some("5.1".to_string()),
        tags: string_map(vec![pair("language", "eng"), pair("title", "Main")]),
        disposition: string_map(vec![("default".to_string(), 1u8)]),
    }
}

fn sub(index: u32, codec: &str, forced: u8) -> SubtitleStream {
    SubtitleStream {
        index,
        codec_name: codec.to_string(),
        tags: string_map(vec![pair("language", "ita")]),
        disposition: string_map(vec![("forced".to_string(), forced)]),
    }
}

fn video(r: &str, avg: &str) -> RawVideoStream {
    RawVideoStream { r_frame_rate: r.to_string(), avg_frame_rate: avg.to_string() }
}

#[test]
fn parses_integer_rates() {
    assert_eq!(parse_rational("24/1").map(value), Some(24.0));
    assert_eq!(parse_rational("25/1").map(value), Some(25.0));
    assert_eq!(parse_rational("30/1").map(value), Some(30.0));
}

#[test]
fn parses_ntsc_pulldown() {
    let v = value(parse_rational("24000/1001").unwrap());
    assert!((v - 23.976).abs() < 0.001);
}

#[test]
fn parses_ntsc_30() {
    let v = value(parse_rational("30000/1001").unwrap());
    assert!((v - 29.97).abs() < 0.01);
}

#[test]
fn rejects_zero_division() {
    assert_eq!(parse_rational("0/0"), None);
    assert_eq!(parse_rational("24/0"), None);
}

#[test]
fn rejects_malformed() {
    assert_eq!(parse_rational(""), None);
    assert_eq!(parse_rational("garbage"), None);
    assert_eq!(parse_rational("24/x"), None);
}

#[test]
fn parses_bare_number() {
    assert_eq!(parse_rational("24").map(value), Some(24.0));
}

#[test]
fn rates_may_have_decimals_but_no_sign() {
    assert_eq!(parse_rational("23.976").map(value), Some(23.976));
    assert_eq!(parse_rational("-24/1"), None);
    assert_eq!(parse_rational("0"), None);
    assert_eq!(parse_rational("1e20/1").map(value), Some(1e20));
    assert_eq!(parse_rational("1/1e20").map(value), Some(1e-20));
    assert_eq!(parse_rational("1e300/1e10").map(value), Some(1e290));
    assert_eq!(parse_rational("1e309/1e-1"), None);
    assert_eq!(parse_rational("1e400/1"), None);
    assert_eq!(parse_rational("1/1e-400"), None);
    assert_eq!(parse_rational("0e5/1"), None);
    assert_eq!(parse_rational("1e-30"), Some(FrameRate { num: 1, den: 1, tens: -30 }));
}

#[test]
fn the_real_frame_rate_comes_first() {
    assert_eq!(video_fps(&vec![video("25/1", "24/1")]).map(value), Some(25.0));
    assert_eq!(video_fps(&vec![video("0/0", "24/1")]).map(value), Some(24.0));
    assert_eq!(video_fps(&vec![video("0/0", "0/0")]), None);
    assert_eq!(video_fps(&Vec::new()), None);
}

#[test]
fn stream_tags_are_read() {
    let a = audio(1);
    assert_eq!(a.language(), Some("eng"));
    assert_eq!(a.title(), Some("Main"));
    assert!(a.is_default());
    let label = a.display_label();
    assert!(label.contains("ac3"));
    assert!(label.contains("5.1"));
    assert!(label.contains("eng"));
    assert!(label.contains("Main"));

    let s = sub(3, "subrip", 1);
    assert_eq!(s.language(), Some("ita"));
    assert_eq!(s.title(), None);
    assert!(s.is_forced());
    assert!(!s.is_default());
    assert!(sub_label(&s).contains("ita"));
}

#[test]
fn later_pairs_win() {
    let mut a = audio(1);
    a.tags = string_map(vec![pair("language", "eng"), pair("language", "ita")]);
    assert_eq!(a.language(), Some("ita"));
    assert_eq!(a.title(), None);
}

#[test]
fn image_subtitles_are_told_apart() {
    assert!(sub(1, "hdmv_pgs_subtitle", 0).is_image_based());
    assert!(sub(1, "dvd_subtitle", 0).is_image_based());
    assert!(!sub(1, "subrip", 0).is_image_based());
    assert!(!sub(1, "ass", 0).is_image_based());
}

#[test]
fn probing_needs_audio() {
    match list_audio_streams("x.mkv", Vec::new()) {
        Err(DubsyncError::NoAudioStreams(p)) => assert_eq!(p, "x.mkv"),
        _ => panic!("expected no audio streams"),
    }
    match list_audio_streams("x.mkv", vec![audio(1)]) {
        Ok(v) => assert_eq!(v.len(), 1),
        Err(_) => panic!("expected one stream"),
    }
    match probe_outcome("x.mkv", false, "boom") {
        Err(DubsyncError::FfprobeFailed { path, stderr }) => {
            assert_eq!(path, "x.mkv");
            assert_eq!(stderr, "boom");
        }
        _ => panic!("expected a failed probe"),
    }
    assert!(probe_outcome("x.mkv", true, "warning").is_ok());
    let args = probe_args("a", "x.mkv");
    assert_eq!(args.last().map(|s| s.as_str()), Some("x.mkv"));
    assert!(args.contains(&"a".to_string()));
}

#[test]
fn first_missing_index_is_reported() {
    let streams = vec![audio(1), audio(2)];
    assert!(ensure_indices_exist(&streams, &vec![2, 1]).is_ok());
    match ensure_indices_exist(&streams, &vec![1, 7, 9]) {
        Err(DubsyncError::InvalidStreamIndex { index, available }) => {
            assert_eq!(index, 7);
            assert_eq!(available, vec![1, 2]);
        }
        _ => panic!("expected an invalid index"),
    }
    assert!(contains_u32(&vec![4, 5], 5));
    assert!(!contains_u32(&vec![4, 5], 6));
}

#[test]
fn rates_with_many_digits() {
    let exact = parse_rational("23.976023976024").unwrap();
    assert_eq!((exact.num, exact.den, exact.tens), (23_976_023_976_024, 1, -12));
    assert_eq!(value(exact), 23.976023976024);
    let long = parse_rational("23.976023976023976023976").unwrap();
    assert!((value(long) - 24_000.0 / 1001.0).abs() < 1e-9);
    let wide = parse_rational("240000000000000000000/10010000000000000000").unwrap();
    assert!((value(wide) - 24_000.0 / 1001.0).abs() < 1e-9);
    let longer = format!("0024.{}/1", "0".repeat(60));
    assert_eq!(parse_rational(&longer).map(value), Some(24.0));
    assert_eq!(parse_rational("-24/-1").map(|r| (r.num, r.den)), Some((24, 1)));
}
