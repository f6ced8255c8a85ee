use dubsync::audio::wav::{FormatError, WavError};
use dubsync::binpath::{exe_name, ffmpeg, ffprobe, locate, rubberband};
use dubsync::bytes::{push_le16, push_le32, push_le64, read_le16, read_le32, read_le64};
use dubsync::error::DubsyncError;
use dubsync::fixed::{
    push_fixed, push_fraction, push_plain, push_plus_seconds3, push_seconds, push_seconds2,
    push_seconds3, round_even_of,
};
use dubsync::number::{parse_decimal, parse_u32, parse_u64, scale_within, IntError};
use dubsync::text::{
    char_is_white, chars_of, find_chars, push_decimal, push_padded, replace_char, string_of,
    trim_chars,
};
use dubsync::time::{div_round, half_floor, ns_of, samples_of, time_in_range};
use dubsync::wide::{push_natural, Wide};

fn chars(s: &str) -> Vec<char> {
    s.chars().collect()
}

#[test]
fn errors_have_messages() {
    let cases = vec![
        (DubsyncError::FileNotFound("x".to_string()), "x"),
        (
            DubsyncError::FfprobeFailed { path: "p".to_string(), stderr: "bad".to_string() },
            "bad",
        ),
        (DubsyncError::FfmpegFailed { stderr: "mux".to_string() }, "mux"),
        (DubsyncError::RubberbandFailed { stderr: "long".to_string() }, "long"),
        (DubsyncError::NoAudioStreams("n.mkv".to_string()), "n.mkv"),
        (DubsyncError::InvalidStreamIndex { index: 7, available: vec![1, 2] }, "[1, 2]"),
        (DubsyncError::InteractiveCancelled, "cancelled"),
        (DubsyncError::Io("denied".to_string()), "denied"),
        (DubsyncError::Json("comma".to_string()), "comma"),
        (DubsyncError::Wav(WavError::Format(FormatError::MissingFmt)), "missing fmt chunk"),
        (DubsyncError::SubtitleParse("line 1".to_string()), "line 1"),
    ];
    for (error, part) in cases {
        let message = error.message();
        assert!(message.contains(part), "{message} lacks {part}");
    }
}

#[test]
fn programs_are_found() {
    assert_eq!(exe_name("ffmpeg", true), "ffmpeg.exe");
    assert_eq!(exe_name("ffmpeg", false), "ffmpeg");
    assert_eq!(locate("tool", Some("/app/tool".to_string())), "/app/tool");
    assert_eq!(ffmpeg(None), "ffmpeg");
    assert_eq!(ffprobe(None), "ffprobe");
    assert_eq!(rubberband(None), "rubberband");
}

#[test]
fn little_endian_numbers() {
    let mut out = Vec::new();
    push_le16(&mut out, 0x1234);
    push_le32(&mut out, 0xdead_beef);
    push_le64(&mut out, 0x0102_0304_0506_0708);
    assert_eq!(out[0..2], [0x34, 0x12]);
    assert_eq!(read_le16(&out, 0), 0x1234);
    assert_eq!(read_le32(&out, 2), 0xdead_beef);
    assert_eq!(read_le64(&out, 6), 0x0102_0304_0506_0708);
}

#[test]
fn numbers_are_parsed() {
    assert!(matches!(parse_u32(&chars("+7")), Ok(7)));
    assert!(matches!(parse_u32(&chars("")), Err(IntError::Empty)));
    assert!(matches!(parse_u32(&chars("7x")), Err(IntError::InvalidDigit)));
    assert!(matches!(parse_u32(&chars("4294967296")), Err(IntError::PosOverflow)));
    assert!(matches!(parse_u64(&chars("4294967296")), Ok(4_294_967_296)));
    let d = parse_decimal(&chars("-1.50e2")).unwrap();
    assert!(d.negative);
    assert_eq!(scale_within(&d, 0, 1_000), Some(150));
    assert_eq!(scale_within(&d, 3, 1_000), None);
    assert!(parse_decimal(&chars("1.2.3")).is_none());
    assert!(parse_decimal(&chars(".")).is_none());
    assert!(parse_decimal(&chars("5.")).is_some());
}

fn written(f: impl Fn(&mut String)) -> String {
    let mut s = String::new();
    f(&mut s);
    s
}

#[test]
fn decimals_are_written_like_floats() {
    assert_eq!(written(|s| push_fixed(s, 2_005, 1_000, 3)), "2.005");
    assert_eq!(written(|s| push_seconds3(s, -1_250_000_000)), "-1.250");
    assert_eq!(written(|s| push_seconds2(s, 5_000_000)), "0.00");
    assert_eq!(written(|s| push_seconds2(s, 15_000_000)), "0.02");
    assert_eq!(written(|s| push_plus_seconds3(s, 0)), "+0.000");
    assert_eq!(written(|s| push_seconds(s, 305_000_000_000)), "305");
    assert_eq!(written(|s| push_seconds(s, 1_500_000_000)), "1.5");
    assert_eq!(written(|s| push_plain(s, -42_500_000, 1_000_000, 6)), "-42.5");
    assert_eq!(round_even_of(5, 2), 2);
    assert_eq!(round_even_of(7, 2), 4);
}

#[test]
fn text_is_taken_apart() {
    assert_eq!(chars_of("añ"), vec!['a', 'ñ']);
    assert_eq!(string_of(&chars("hello"), 1, 3), "el");
    assert_eq!(trim_chars(&chars(" \u{a0}x y\t\n")), chars("x y"));
    assert!(char_is_white('\u{3000}'));
    assert!(!char_is_white('\u{200b}'));
    assert_eq!(find_chars(&chars("a --> b"), &chars("-->")), Some(2));
    assert_eq!(find_chars(&chars("a"), &chars("-->")), None);
    assert_eq!(replace_char(&chars("1,5"), ',', '.'), chars("1.5"));
    assert_eq!(written(|s| push_decimal(s, 1_234_567_890)), "1234567890");
    assert_eq!(written(|s| push_padded(s, 7, 3)), "007");
    assert_eq!(written(|s| push_padded(s, 1234, 3)), "1234");
}

#[test]
fn times_and_samples() {
    assert_eq!(samples_of(1_500_000_000, 16_000), 24_000);
    assert_eq!(samples_of(-31_250, 16_000), -1);
    assert_eq!(ns_of(24_000, 16_000), Some(1_500_000_000));
    assert_eq!(ns_of(i64::MAX, 1), None);
    assert_eq!(half_floor(-3), -2);
    assert_eq!(div_round(5, 2), 3);
    assert_eq!(div_round(-5, 2), -3);
    assert!(time_in_range(0));
    assert!(!time_in_range(i64::MAX));
}

#[test]
fn wide_numbers_do_arithmetic() {
    let shown = |w: &Wide| written(|s| push_natural(s, w));
    let most = Wide::of(u128::MAX);
    assert_eq!(shown(&Wide::of(0)), "0");
    assert_eq!(shown(&most), "340282366920938463463374607431768211455");
    let product = most.times(u128::MAX);
    assert_eq!(
        shown(&product),
        "115792089237316195423570985008687907852589419931798687112530834793049593217025"
    );
    assert_eq!(product.small(), None);
    let (q, r) = product.plus(&Wide::of(7)).over(&most);
    assert_eq!((q.small(), r.small()), (Some(u128::MAX), Some(7)));
    assert!(most.at_most(&product) && !product.at_most(&most));
    assert_eq!(product.minus(&product).small(), Some(0));
    assert_eq!(Wide::of(u64::MAX as u128).plus(&Wide::of(1)).small(), Some(1 << 64));
}

#[test]
fn fractions_are_rounded_exactly() {
    let shown = |negative: bool, n: u128, d: u128, unit: u64, places: usize| {
        written(|s| push_fraction(s, negative, &Wide::of(n), &Wide::of(d), unit, places))
    };
    assert_eq!(shown(false, 25_025, 24_000, 10_000, 4), "1.0427");
    assert_eq!(shown(true, 1, 3, 1_000, 3), "-0.333");
    // Halves go to the even neighbour.
    assert_eq!(shown(false, 1, 2_000, 1_000, 3), "0.000");
    assert_eq!(shown(false, 3, 2_000, 1_000, 3), "0.002");
    assert_eq!(shown(false, 1, 0, 1_000, 3), "inf");
    assert_eq!(shown(true, 1, 0, 1_000, 3), "-inf");
    assert_eq!(shown(false, 0, 0, 1_000, 3), "NaN");
}
