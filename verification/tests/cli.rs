use dubsync::cli::{
    check_files, check_tracks, configure, resolve_fps_mode, resolve_from_cli, select_from_cli, Cli,
    DubCodec, FpsMode, MissingOption, Selection,
};
use dubsync::error::DubsyncError;
use dubsync::ffprobe::{string_map, AudioStream};

fn audio(index: u32, channels: u32) -> AudioStream {
    AudioStream {
        index,
        codec_name: "aac".to_string(),
        channels,
        sample_rate: "48000".to_string(),
        channel_layout: None,
        tags: string_map(Vec::new()),
        disposition: string_map(Vec::new()),
    }
}

fn selection() -> Selection {
    Selection {
        master_file: "m.mkv".to_string(),
        donor_file: "d.mkv".to_string(),
        master_anchor_track: 1,
        donor_anchor_track: 1,
        donor_dub_tracks: vec![2, 3],
        output_file: "out.mkv".to_string(),
    }
}

fn full_cli() -> Cli {
    let mut cli = Cli::default();
    cli.master_file = Some("m.mkv".to_string());
    cli.donor_file = Some("d.mkv".to_string());
    cli.master_anchor_track = Some(1);
    cli.donor_anchor_track = Some(1);
    cli.donor_dub_tracks = Some(vec![2, 3]);
    cli.output_file = Some("out.mkv".to_string());
    cli
}

#[test]
fn dub_codec_ffmpeg_names() {
    assert_eq!(DubCodec::Flac.ffmpeg_name(), "flac");
    assert_eq!(DubCodec::Ac3.ffmpeg_name(), "ac3");
    assert_eq!(DubCodec::Eac3.ffmpeg_name(), "eac3");
    assert_eq!(DubCodec::Aac.ffmpeg_name(), "aac");
}

#[test]
fn dub_codec_max_channels() {
    assert_eq!(DubCodec::Flac.max_channels(), 8);
    assert_eq!(DubCodec::Aac.max_channels(), 8);
    assert_eq!(DubCodec::Ac3.max_channels(), 6);
    assert_eq!(DubCodec::Eac3.max_channels(), 6);
}

#[test]
fn dub_codec_lossless_flag() {
    assert!(DubCodec::Flac.is_lossless());
    assert!(!DubCodec::Ac3.is_lossless());
    assert!(!DubCodec::Eac3.is_lossless());
    assert!(!DubCodec::Aac.is_lossless());
}

#[test]
fn dub_codec_default_bitrate_per_channels() {
    assert_eq!(DubCodec::Flac.default_bitrate_kbps(1), None);
    assert_eq!(DubCodec::Flac.default_bitrate_kbps(2), None);
    assert_eq!(DubCodec::Flac.default_bitrate_kbps(6), None);
    assert_eq!(DubCodec::Flac.default_bitrate_kbps(8), None);

    assert_eq!(DubCodec::Ac3.default_bitrate_kbps(1), Some(448));
    assert_eq!(DubCodec::Ac3.default_bitrate_kbps(2), Some(448));
    assert_eq!(DubCodec::Ac3.default_bitrate_kbps(6), Some(640));

    assert_eq!(DubCodec::Eac3.default_bitrate_kbps(2), Some(256));
    assert_eq!(DubCodec::Eac3.default_bitrate_kbps(6), Some(640));

    assert_eq!(DubCodec::Aac.default_bitrate_kbps(2), Some(192));
    assert_eq!(DubCodec::Aac.default_bitrate_kbps(6), Some(384));
    assert_eq!(DubCodec::Aac.default_bitrate_kbps(8), Some(384));
}

#[test]
fn dub_codec_token_round_trip() {
    for codec in [DubCodec::Flac, DubCodec::Ac3, DubCodec::Eac3, DubCodec::Aac] {
        assert_eq!(DubCodec::from_token(codec.as_token()), codec);
    }
    // Anything unknown falls back to flac.
    assert_eq!(DubCodec::from_token("opus"), DubCodec::Flac);
    assert_eq!(DubCodec::from_token(""), DubCodec::Flac);
    assert_eq!(DubCodec::from_token("AC3"), DubCodec::Ac3);
}

#[test]
fn dub_codec_defaults_to_eac3() {
    assert_eq!(DubCodec::default(), DubCodec::Eac3);
    assert!(DubCodec::Eac3.display_label().len() > 4);
}

#[test]
fn fps_mode_resolution() {
    assert!(matches!(resolve_fps_mode(false, None), FpsMode::Auto));
    assert!(matches!(resolve_fps_mode(true, None), FpsMode::Disabled));

    let m = resolve_fps_mode(false, Some(1_041_700_000));
    assert!(matches!(m, FpsMode::Forced(_)));
    assert_eq!(m.forced_ratio().unwrap(), 1_041_700_000);

    // A ratio of one is forced, though it changes nothing.
    assert!(matches!(
        resolve_fps_mode(false, Some(1_000_000_000)),
        FpsMode::Forced(_)
    ));
}

#[test]
fn fps_mode_helpers() {
    assert!(FpsMode::Disabled.is_disabled());
    assert!(!FpsMode::Auto.is_disabled());
    assert!(!FpsMode::Forced(1_500_000_000).is_disabled());

    assert_eq!(FpsMode::Auto.forced_ratio(), None);
    assert_eq!(FpsMode::Disabled.forced_ratio(), None);
    assert_eq!(FpsMode::Forced(1_250_000_000).forced_ratio(), Some(1_250_000_000));
}

#[test]
fn disabling_wins_over_a_forced_ratio() {
    assert!(resolve_fps_mode(true, Some(1_250_000_000)).is_disabled());
}

#[test]
fn pitch_formula_equivalence() {
    for ratio in [0.96_f64, 1.0, 1.0_f64 / 0.96, 25.0 / 24.0] {
        let new = -12.0 * ratio.log2();
        let old = 12.0 * (1.0_f64 / ratio).log2();
        assert!(
            (new - old).abs() < 1e-12,
            "pitch formulas disagree at ratio {ratio}: new={new}, old={old}"
        );
    }
}

#[test]
fn cli_defaults() {
    let cli = Cli::default();
    assert!(cli.needs_interactive());
    assert_eq!(cli.silence_udb, -45_000_000);
    assert_eq!(cli.silence_min_ms, 200);
    assert_eq!(cli.anchor_rate, 16_000);
    assert_eq!(cli.correlation_window_ns, 30_000_000_000);
    assert_eq!(cli.max_drift_ns, 60_000_000_000);
    assert_eq!(cli.max_segment_jump_ns, 10_000_000_000);
    assert_eq!(cli.snap_radius_ns, 30_000_000_000);
    assert_eq!(cli.crossfade_ms, 10);
    assert!(!cli.smooth_gaps);
    assert_eq!(cli.gap_fill_margin_ns, 500_000_000);
    assert_eq!(cli.speech_udb, -25_000_000);
    assert_eq!(cli.dub_codec, DubCodec::Eac3);
}

#[test]
fn one_given_option_rules_out_the_interactive_mode() {
    assert!(!full_cli().needs_interactive());
    let mut cli = Cli::default();
    cli.output_file = Some("out.mkv".to_string());
    assert!(!cli.needs_interactive());
}

#[test]
fn every_missing_option_is_named() {
    let cases: Vec<(fn(&mut Cli), MissingOption)> = vec![
        (|c| c.master_file = None, MissingOption::MasterFile),
        (|c| c.donor_file = None, MissingOption::DonorFile),
        (|c| c.master_anchor_track = None, MissingOption::MasterAnchorTrack),
        (|c| c.donor_anchor_track = None, MissingOption::DonorAnchorTrack),
        (|c| c.donor_dub_tracks = None, MissingOption::DonorDubTracks),
        (|c| c.donor_dub_tracks = Some(Vec::new()), MissingOption::EmptyDubTracks),
        (|c| c.output_file = None, MissingOption::OutputFile),
    ];
    for (spoil, expected) in cases {
        let mut cli = full_cli();
        spoil(&mut cli);
        match select_from_cli(&cli) {
            Err(e) => assert_eq!(e.message(), expected.message()),
            Ok(_) => panic!("expected an error"),
        }
    }
}

#[test]
fn missing_files_and_tracks_are_reported() {
    let sel = selection();
    assert!(check_files(&sel, true, true).is_ok());
    assert!(check_files(&sel, false, true).unwrap_err().contains("m.mkv"));
    assert!(check_files(&sel, true, false).unwrap_err().contains("d.mkv"));

    let master = vec![audio(1, 2)];
    let donor = vec![audio(1, 2), audio(2, 6), audio(3, 2)];
    assert!(check_tracks(&sel, &master, &donor).is_ok());
    match check_tracks(&sel, &vec![audio(4, 2)], &donor) {
        Err(DubsyncError::InvalidStreamIndex { index, available }) => {
            assert_eq!(index, 1);
            assert_eq!(available, vec![4]);
        }
        _ => panic!("expected an invalid index"),
    }
    match check_tracks(&sel, &master, &vec![audio(1, 2), audio(2, 6)]) {
        Err(DubsyncError::InvalidStreamIndex { index, available }) => {
            assert_eq!(index, 3);
            assert_eq!(available, vec![1, 2]);
        }
        _ => panic!("expected an invalid index"),
    }
}

#[test]
fn a_complete_command_line_resolves() {
    let mut cli = full_cli();
    cli.no_master_subs = true;
    cli.force_fps_ratio = Some(960_000_000);
    cli.include_donor_subs = Some(vec![5]);
    cli.dub_bitrate = Some(320);
    let sel = match select_from_cli(&cli) {
        Ok(s) => s,
        Err(_) => panic!("complete"),
    };
    let master = vec![audio(1, 2)];
    let donor = vec![audio(1, 2), audio(2, 6), audio(3, 2)];
    let cfg = resolve_from_cli(&cli, sel, &master, &donor).unwrap();
    assert_eq!(cfg.donor_dub_tracks, vec![2, 3]);
    assert!(!cfg.keep_master_subs);
    assert_eq!(cfg.fps_mode.forced_ratio(), Some(960_000_000));
    assert_eq!(cfg.donor_subs_explicit, vec![5]);
    assert_eq!(cfg.dub_bitrate_kbps, Some(320));
    assert_eq!(cfg.gap_fill_max_ratio_ppm, 1_200_000);
    assert_eq!(cfg.gap_fill_silence_fade_ms, 100);
}

#[test]
fn configuring_copies_the_options() {
    let mut cli = Cli::default();
    cli.solo_dub = true;
    cli.report = Some("r.csv".to_string());
    cli.temp_dir = Some("/tmp/x".to_string());
    cli.threads = Some(3);
    let cfg = configure(selection(), &cli);
    assert_eq!(cfg.master_file, "m.mkv");
    assert!(cfg.solo_dub);
    assert!(cfg.keep_master_subs);
    assert_eq!(cfg.report_path.as_deref(), Some("r.csv"));
    assert_eq!(cfg.temp_dir.as_deref(), Some("/tmp/x"));
    assert_eq!(cfg.threads, Some(3));
    assert!(cfg.donor_subs_explicit.is_empty());
}
