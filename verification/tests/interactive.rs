use dubsync::cli::{configure, Cli, DubCodec, FpsMode, RunConfig, Selection};
use dubsync::error::DubsyncError;
use dubsync::ffprobe::{string_map, AudioStream, SubtitleStream};
use dubsync::interactive::{
    codec_cursor, codec_options, default_output_path, dub_options, dubs_problem, fps_mode_label,
    fps_mode_of_label, parse_bitrate, parse_decimal_or, parse_number_or, parse_report_path,
    path_problem, pickable_subs, repeat_command, shell_quote, summary_text, trimmed,
};
use dubsync::wizard::{mode_cursor, next_question, take_answer, Answer, Kind, Question};

fn config() -> RunConfig {
    let sel = Selection {
        master_file: "m.mkv".to_string(),
        donor_file: "the donor.mkv".to_string(),
        master_anchor_track: 1,
        donor_anchor_track: 4,
        donor_dub_tracks: vec![2, 3],
        output_file: "out.mkv".to_string(),
    };
    configure(sel, &Cli::default())
}

fn audio(index: u32) -> AudioStream {
    AudioStream {
        index,
        codec_name: "ac3".to_string(),
        channels: 2,
        sample_rate: "48000".to_string(),
        channel_layout: None,
        tags: string_map(Vec::new()),
        disposition: string_map(Vec::new()),
    }
}

fn sub(index: u32, codec: &str) -> SubtitleStream {
    SubtitleStream {
        index,
        codec_name: codec.to_string(),
        tags: string_map(Vec::new()),
        disposition: string_map(Vec::new()),
    }
}

#[test]
fn paths_are_checked() {
    assert_eq!(path_problem("  ", false), Some("path is required"));
    assert_eq!(path_problem("x", false), Some("file does not exist"));
    assert_eq!(path_problem("x", true), None);
    assert_eq!(trimmed("  a b \n"), "a b");
    assert_eq!(dubs_problem(0), Some("pick at least one dub"));
    assert_eq!(dubs_problem(1), None);
}

#[test]
fn the_anchor_is_no_dub() {
    let streams = vec![audio(1), audio(2), audio(3)];
    assert_eq!(dub_options("d.mkv", &streams, 2).unwrap(), vec![0, 2]);
    match dub_options("d.mkv", &vec![audio(2)], 2) {
        Err(DubsyncError::NoAudioStreams(p)) => assert_eq!(p, "d.mkv"),
        _ => panic!("nothing is left to sync"),
    }
    let subs = vec![sub(5, "subrip"), sub(6, "dvd_subtitle"), sub(7, "ass")];
    assert_eq!(pickable_subs(&subs), vec![0, 2]);
}

#[test]
fn output_names() {
    assert_eq!(default_output_path(Some("Movie")), "Movie.synced.mkv");
    assert_eq!(default_output_path(None), "output.synced.mkv");
}

#[test]
fn words_are_quoted_for_the_shell() {
    assert_eq!(shell_quote("a/b_c-d.mkv"), "a/b_c-d.mkv");
    assert_eq!(shell_quote(""), "''");
    assert_eq!(shell_quote("the donor.mkv"), "'the donor.mkv'");
    assert_eq!(shell_quote("it's"), "'it'\\''s'");
    // Letters of any script are safe, other symbols are not.
    assert_eq!(shell_quote("Amélie"), "Amélie");
    assert_eq!(shell_quote("映画"), "映画");
    assert_eq!(shell_quote("a→b"), "'a→b'");
    assert_eq!(shell_quote("a$b;c*"), "'a$b;c*'");
    assert_eq!(shell_quote("~/dub.mkv"), "~/dub.mkv");
}

#[test]
fn the_repeat_command_names_what_differs() {
    let plain = repeat_command(&config(), "dubsync");
    assert!(plain.contains("--master-file m.mkv"));
    assert!(plain.contains("--donor-file 'the donor.mkv'"));
    assert!(plain.contains("--donor-dub-tracks 2,3"));
    assert!(!plain.contains("--silence-db"));
    assert!(!plain.contains("--dub-codec"));

    let mut cfg = config();
    cfg.silence_udb = -42_500_000;
    cfg.max_drift_ns = 1_250_000_000;
    cfg.dub_codec = DubCodec::Flac;
    cfg.fps_mode = FpsMode::Forced(1_041_700_000);
    cfg.keep_master_subs = false;
    cfg.donor_subs_explicit = vec![5, 6];
    cfg.threads = Some(3);
    let full = repeat_command(&cfg, "dubsync");
    for part in [
        "--silence-db -42.5",
        "--max-drift-s 1.25",
        "--dub-codec flac",
        "--force-fps-ratio 1.0417",
        "--no-master-subs",
        "--include-donor-subs 5,6",
        "--threads 3",
    ] {
        assert!(full.contains(part), "{part} missing in {full}");
    }
}

#[test]
fn the_summary_lists_the_choices() {
    let text = summary_text(&config());
    assert!(text.contains("master:        m.mkv"));
    assert!(text.contains("donor anchor:  #4"));
    assert!(text.contains("dub tracks:    [2, 3]"));
}

#[test]
fn bad_numbers_leave_the_default() {
    assert_eq!(parse_number_or(" 25 ", 10), 25);
    assert_eq!(parse_number_or("x", 10), 10);
    assert_eq!(parse_number_or("-1", 10), 10);
    assert_eq!(parse_decimal_or("2.5", 9, 7), 2_500_000_000);
    assert_eq!(parse_decimal_or("-45", 6, 7), -45_000_000);
    assert_eq!(parse_decimal_or("1e1", 6, 7), 10_000_000);
    assert_eq!(parse_decimal_or("many", 6, 7), 7);
    assert_eq!(parse_decimal_or("9e9", 9, 7), 9_000_000_000_000_000_000);
    assert_eq!(parse_decimal_or("-1e30", 9, 7), -i64::MAX);
    assert_eq!(parse_bitrate(""), None);
    assert_eq!(parse_bitrate(" 320 "), Some(320));
    assert_eq!(parse_bitrate("loud"), None);
    assert_eq!(parse_report_path("  "), None);
    assert_eq!(parse_report_path(" r.html ").as_deref(), Some("r.html"));
}

#[test]
fn menus() {
    let codecs = codec_options();
    assert_eq!(codecs.len(), 4);
    for c in codecs {
        assert_eq!(codec_options()[codec_cursor(c)], c);
    }
    for mode in [FpsMode::Auto, FpsMode::Disabled, FpsMode::Forced(7)] {
        let back = fps_mode_of_label(fps_mode_label(mode), 7);
        assert_eq!(back.forced_ratio(), mode.forced_ratio());
        assert_eq!(back.is_disabled(), mode.is_disabled());
    }
    assert_eq!(mode_cursor(FpsMode::Auto), 0);
    assert_eq!(mode_cursor(FpsMode::Disabled), 1);
    assert_eq!(mode_cursor(FpsMode::Forced(7)), 2);
}

/// Asks every question and answers with the default.
fn walk(cfg: &mut RunConfig, yes_to: &[Question], donor_subs: usize, pickable: usize) -> Vec<Question> {
    let mut asked = Vec::new();
    let mut q = Question::Advanced;
    while q != Question::End {
        asked.push(q);
        assert!(asked.len() < 40, "the questions end");
        let yes = yes_to.contains(&q) || q.default_yes(cfg);
        let answer = match q.answer_kind() {
            Kind::YesNo => Answer::YesNo(yes),
            Kind::Line => Answer::Line(q.default_line(cfg)),
            Kind::One => Answer::One(match q {
                Question::Codec => codec_cursor(cfg.dub_codec),
                _ => mode_cursor(cfg.fps_mode),
            }),
            Kind::Many => Answer::Many(cfg.donor_subs_explicit.clone()),
            Kind::Nothing => panic!("nothing is asked"),
        };
        take_answer(cfg, q, &answer);
        q = next_question(q, yes, cfg, donor_subs, pickable);
    }
    asked
}

#[test]
fn most_users_are_asked_nothing_more() {
    let mut cfg = config();
    assert_eq!(walk(&mut cfg, &[], 2, 2), vec![Question::Advanced]);
}

#[test]
fn default_answers_change_nothing() {
    let mut cfg = config();
    let asked = walk(&mut cfg, &[Question::Advanced, Question::Tune], 2, 2);
    assert!(asked.contains(&Question::PickSubs));
    assert!(asked.contains(&Question::Bitrate));
    assert!(!asked.contains(&Question::FpsRatio));
    assert!(!asked.contains(&Question::GapFillMargin));
    assert_eq!(asked.last(), Some(&Question::AnchorRate));
    assert_eq!(format!("{:?}", cfg), format!("{:?}", config()));
}

#[test]
fn questions_depend_on_the_answers() {
    let mut cfg = config();
    cfg.dub_codec = DubCodec::Flac;
    cfg.fps_mode = FpsMode::Forced(1_250_000_000);
    let asked = walk(&mut cfg, &[Question::Advanced, Question::Tune, Question::SmoothGaps], 0, 0);
    assert!(!asked.contains(&Question::ForcedSubs));
    assert!(!asked.contains(&Question::PickSubs));
    assert!(!asked.contains(&Question::Bitrate));
    assert!(asked.contains(&Question::FpsRatio));
    assert!(asked.contains(&Question::GapFillMargin));
    assert!(asked.contains(&Question::SpeechLevel));

    let images = walk(&mut config(), &[Question::Advanced], 1, 0);
    assert!(images.contains(&Question::ForcedSubs));
    assert!(!images.contains(&Question::PickSubs));
}

#[test]
fn answers_are_taken_over() {
    let mut cfg = config();
    take_answer(&mut cfg, Question::Crossfade, &Answer::Line("25".to_string()));
    assert_eq!(cfg.crossfade_ms, 25);
    take_answer(&mut cfg, Question::SnapRadius, &Answer::Line("2.5".to_string()));
    assert_eq!(cfg.snap_radius_ns, 2_500_000_000);
    take_answer(&mut cfg, Question::SilenceLevel, &Answer::Line("-40".to_string()));
    assert_eq!(cfg.silence_udb, -40_000_000);
    take_answer(&mut cfg, Question::Codec, &Answer::One(codec_cursor(DubCodec::Aac)));
    assert_eq!(cfg.dub_codec, DubCodec::Aac);
    take_answer(&mut cfg, Question::PickSubs, &Answer::Many(vec![5]));
    assert_eq!(cfg.donor_subs_explicit, vec![5]);
    assert!(Question::Codec.heading().is_some());
    assert_eq!(Question::Codec.prompt(), "Codec:");
}
