use dubsync::audio::stretch::stretch_args;
use dubsync::audio::vad::SilenceInterval;
use dubsync::audio::wav::WavInfo;
use dubsync::cli::{configure, Cli, DubCodec, FpsMode, RunConfig, Selection};
use dubsync::correlation::offset_map::{OffsetMap, Segment};
use dubsync::ffmpeg::{ExtractedAnchors, ExtractedDub};
use dubsync::ffprobe::{string_map, AudioStream, SubtitleStream};
use dubsync::pipeline::fps::{
    adopt_stretched, announce, frames_done, needs_donor_rate, plan_fps, plan_jobs, stretch_status,
    stretched_summary, FpsInfo, FpsStep, StretchInput,
};
use dubsync::pipeline::summary::{build_run_summary, offset_map_lines, plan_correlation};
use dubsync::pipeline::tracks::{
    apply_cfg_overrides, donor_anchor_name, donor_dub_name, find_audio, find_sub,
    master_anchor_name, plan_remux, resolve_bitrate, select_donor_subs, shift_subtitle,
    synced_sub, synced_sub_name, validate_codec_against_channels, validate_donor_subs,
    wants_donor_subs,
};
use dubsync::pipeline::{
    correlation_progress, splice_config, stretch_event, tracks_progress, Outcome, Run, Step,
};
use dubsync::progress::{PhaseId, PipelineEvent};
use dubsync::rate::{DonorRate, FrameRate, Ratio};
use dubsync::sync::applier::SyncedDub;

const S: i64 = 1_000_000_000;

fn config() -> RunConfig {
    let sel = Selection {
        master_file: "m.mkv".to_string(),
        donor_file: "d.mkv".to_string(),
        master_anchor_track: 1,
        donor_anchor_track: 4,
        donor_dub_tracks: vec![2, 3],
        output_file: "out.mkv".to_string(),
    };
    configure(sel, &Cli::default())
}

fn audio(index: u32, channels: u32, language: &str) -> AudioStream {
    AudioStream {
        index,
        codec_name: "ac3".to_string(),
        channels,
        sample_rate: "48000".to_string(),
        channel_layout: None,
        tags: string_map(vec![("language".to_string(), language.to_string())]),
        disposition: string_map(Vec::new()),
    }
}

fn sub(index: u32, codec: &str, forced: u8) -> SubtitleStream {
    SubtitleStream {
        index,
        codec_name: codec.to_string(),
        tags: string_map(Vec::new()),
        disposition: string_map(vec![("forced".to_string(), forced)]),
    }
}

fn two_segments() -> OffsetMap {
    OffsetMap {
        segments: vec![
            Segment { master_start_ns: 0, master_end_ns: 100 * S, donor_offset_ns: 0 },
            Segment { master_start_ns: 100 * S, master_end_ns: 200 * S, donor_offset_ns: -2 * S },
        ],
        master_duration_ns: 200 * S,
        anchor_count: 9,
        rejected_count: 1,
        suppressed_jumps: 0,
        valid_master_start_ns: 0,
        valid_master_end_ns: 190 * S,
    }
}

fn text(ev: &PipelineEvent) -> String {
    match ev {
        PipelineEvent::PhaseStarted { id, title, detail, .. } => {
            format!("start {} {} {}", id.ordinal(), title, detail.clone().unwrap_or_default())
        }
        PipelineEvent::PhaseProgress { id, fraction_ppm, detail } => {
            format!("at {} {} {}", id.ordinal(), fraction_ppm, detail.clone().unwrap_or_default())
        }
        PipelineEvent::PhaseFinished { id, summary } => {
            format!("done {} {}", id.ordinal(), summary.clone().unwrap_or_default())
        }
        PipelineEvent::PhaseFailed { id, error } => format!("failed {} {}", id.ordinal(), error),
        PipelineEvent::RunSummary(_) => "summary".to_string(),
    }
}

#[test]
fn a_run_goes_through_its_phases_in_order() {
    let cfg = config();
    let mut run = Run::new();
    let mut log: Vec<String> = Vec::new();
    let fps = FpsInfo {
        master_fps: FrameRate { num: 25, den: 1, tens: 0 },
        donor_fps: None,
        stretch_ratio: None,
        pal_pitch_applied: false,
    };
    let summary = build_run_summary(&cfg, &fps, &two_segments(), &Vec::new(), 5_000_000_000);
    let mut outcomes = vec![
        Outcome::Workspace { path: "/tmp/w".to_string() },
        Outcome::Anchors,
        Outcome::Dubs { count: 2 },
        Outcome::Subs { count: 1 },
        Outcome::Fps {
            title: "Time-stretching".to_string(),
            skip: None,
            eta_ns: 60,
            detail: "3 file(s)".to_string(),
        },
        Outcome::Stretched { summary: "stretched".to_string() },
        Outcome::Mapped { segments: 2, anchors: 9 },
        Outcome::Spliced { count: 2 },
        Outcome::Remuxed,
        Outcome::Summary(Box::new(summary)),
    ];
    outcomes.reverse();
    while let Some(o) = outcomes.pop() {
        log.extend(run.opening(&cfg).iter().map(text));
        log.extend(run.take(&cfg, o).iter().map(text));
    }
    assert_eq!(run.step, Step::Done);
    assert_eq!(run.output(&cfg), Some(cfg.output_file.clone()));
    assert_eq!(Run::new().output(&cfg), None);
    assert_eq!(
        log,
        vec![
            "start 1 Preparing workspace ",
            "done 1 temp dir: /tmp/w",
            "start 2 Extracting anchor tracks master #1 + donor #4",
            "done 2 ",
            "start 3 Extracting 2 dub track(s) [2, 3]",
            "done 3 2 track(s) + 1 sub(s)",
            "start 4 Time-stretching 3 file(s)",
            "done 4 stretched",
            "start 5 Correlating anchors window 30s, max-drift 60s",
            "done 5 2 segment(s), 9 anchors kept",
            "start 6 Splicing dubs onto master timeline 2 track(s)",
            "done 6 2 track(s)",
            "start 7 Remuxing final MKV master video copy + 2 dub(s) EAC3",
            "done 7 wrote out.mkv",
            "summary",
        ]
    );
}

#[test]
fn a_failure_ends_the_run() {
    let cfg = config();
    let mut run = Run { step: Step::Correlate, dubs: 2, synced: 0 };
    let events = run.take(&cfg, Outcome::Failed { error: "no anchors".to_string() });
    assert_eq!(events.iter().map(text).collect::<Vec<_>>(), vec!["failed 5 no anchors"]);
    assert_eq!(run.step, Step::Failed);
    assert!(run.opening(&cfg).is_empty());
}

#[test]
fn a_skipped_stretch_goes_on_to_correlation() {
    let cfg = config();
    let mut run = Run { step: Step::PlanFps, dubs: 2, synced: 0 };
    let events = run.take(
        &cfg,
        Outcome::Fps {
            title: "Checking fps".to_string(),
            skip: Some("no fps mismatch".to_string()),
            eta_ns: 0,
            detail: String::new(),
        },
    );
    assert_eq!(
        events.iter().map(text).collect::<Vec<_>>(),
        vec!["start 4 Checking fps ", "done 4 no fps mismatch"]
    );
    assert_eq!(run.step, Step::Correlate);
}

#[test]
fn progress_events() {
    assert_eq!(text(&tracks_progress(PhaseId::ExtractDubs, 1, 4)), "at 3 250000 1/4 tracks");
    assert_eq!(
        text(&stretch_event(&vec![100, 50], &vec![100, 300])),
        "at 4 375000 1/2 files"
    );
    match correlation_progress(123_456, 11) {
        Some((pct, ev)) => {
            assert_eq!(pct, 12);
            assert_eq!(text(&ev), "at 5 123456 ");
        }
        None => panic!("a new percent is due"),
    }
    assert!(correlation_progress(123_456, 12).is_none());
}

#[test]
fn splice_settings_are_taken_over() {
    let mut cfg = config();
    cfg.crossfade_ms = 25;
    cfg.smooth_gaps = true;
    let s = splice_config(&cfg);
    assert_eq!(s.crossfade_ms, 25);
    assert!(s.smooth_gaps);
    assert_eq!(s.gap_fill_max_ratio_ppm, 1_200_000);
    assert_eq!(s.gap_fill_silence_fade_ms, 100);
    assert_eq!(s.silence_udb, -45_000_000);
}

#[test]
fn validation_mode_keeps_only_the_anchor() {
    let mut cfg = config();
    cfg.anchor_only_validation = true;
    apply_cfg_overrides(&mut cfg);
    assert_eq!(cfg.donor_dub_tracks, vec![4]);
    assert!(cfg.include_donor_anchor);
    assert!(cfg.solo_dub);
}

#[test]
fn overrides_change_the_dub_list() {
    let mut cfg = config();
    cfg.include_donor_anchor = true;
    apply_cfg_overrides(&mut cfg);
    assert_eq!(cfg.donor_dub_tracks, vec![4, 2, 3]);
    apply_cfg_overrides(&mut cfg);
    assert_eq!(cfg.donor_dub_tracks, vec![4, 2, 3]);

    let mut cfg = config();
    cfg.solo_dub = true;
    apply_cfg_overrides(&mut cfg);
    assert_eq!(cfg.donor_dub_tracks, vec![2]);

    let mut cfg = config();
    apply_cfg_overrides(&mut cfg);
    assert_eq!(cfg.donor_dub_tracks, vec![2, 3]);
}

#[test]
fn too_many_channels_are_refused() {
    let mut cfg = config();
    let streams = vec![audio(2, 6, "ita"), audio(3, 8, "fra"), audio(4, 2, "eng")];
    cfg.dub_codec = DubCodec::Ac3;
    let error = validate_codec_against_channels(&cfg, &streams).unwrap_err();
    assert_eq!(
        error,
        "donor track #3 has 8 channels but codec `ac3` only supports up to 6 — \
         use `--dub-codec flac` to keep the full layout"
    );
    cfg.dub_codec = DubCodec::Flac;
    assert!(validate_codec_against_channels(&cfg, &streams).is_ok());
}

#[test]
fn requested_subtitles_have_to_exist_and_be_text() {
    let streams = vec![sub(5, "subrip", 0), sub(6, "hdmv_pgs_subtitle", 1)];
    assert!(validate_donor_subs(&vec![5], &streams).is_ok());
    assert!(validate_donor_subs(&Vec::new(), &streams).is_ok());
    assert_eq!(
        validate_donor_subs(&vec![5, 9], &streams).unwrap_err(),
        "donor subtitle track #9 does not exist — donor has subtitle indices [5, 6]"
    );
    let image = validate_donor_subs(&vec![6], &streams).unwrap_err();
    assert!(image.starts_with(
        "donor subtitle track #6 is `hdmv_pgs_subtitle` (image-based) — can't be time-shifted"
    ));
}

#[test]
fn forced_and_requested_subtitles_are_united() {
    let mut cfg = config();
    assert!(!wants_donor_subs(&cfg));
    cfg.include_donor_forced_subs = true;
    cfg.donor_subs_explicit = vec![7];
    assert!(wants_donor_subs(&cfg));
    let streams = vec![
        sub(5, "subrip", 1),
        sub(6, "hdmv_pgs_subtitle", 1),
        sub(7, "ass", 0),
        sub(8, "subrip", 0),
    ];
    let picked = select_donor_subs(&cfg, &streams);
    assert_eq!(picked.iter().map(|s| s.donor_index).collect::<Vec<_>>(), vec![5, 7]);
    assert!(picked[0].forced);
    assert_eq!(picked[0].srt_path, "donor_sub_5.srt");
    let shifted = synced_sub(&picked[0], "w/donor_sub_5_synced.srt".to_string());
    assert_eq!(shifted.srt_path, "w/donor_sub_5_synced.srt");
    assert!(shifted.forced);
}

#[test]
fn workspace_file_names() {
    assert_eq!(master_anchor_name(1), "master_anchor_1.wav");
    assert_eq!(donor_anchor_name(4), "donor_anchor_4.wav");
    assert_eq!(donor_dub_name(2), "donor_dub_2.wav");
    assert_eq!(synced_sub_name(5), "donor_sub_5_synced.srt");
}

#[test]
fn subtitles_follow_the_offset_map() {
    let raw = "7\n00:01:59,000 --> 00:02:00,000\nHi\n\n";
    let out = shift_subtitle(raw, &two_segments()).unwrap();
    assert_eq!(out, "1\n00:02:01,000 --> 00:02:02,000\nHi\n\n");
    assert!(shift_subtitle("1\nnonsense\n", &two_segments()).is_err());
    // A time of some hundred years is outside of every segment.
    let far = "1\n999999999:00:00,000 --> 999999999:00:01,000\nHi\n";
    assert_eq!(shift_subtitle(far, &two_segments()).unwrap(), "");
}

#[test]
fn bitrates_are_resolved() {
    assert_eq!(resolve_bitrate(DubCodec::Eac3, None, 2), Some(256));
    assert_eq!(resolve_bitrate(DubCodec::Eac3, Some(320), 2), Some(320));
    assert_eq!(resolve_bitrate(DubCodec::Flac, Some(320), 2), None);
    assert_eq!(resolve_bitrate(DubCodec::Aac, None, 0), None);
}

#[test]
fn remux_metadata_comes_from_the_streams() {
    let cfg = config();
    let master = vec![audio(1, 6, "eng")];
    let donor = vec![audio(2, 2, "ita"), audio(3, 6, "fra"), audio(4, 2, "eng")];
    let synced = vec![
        SyncedDub { donor_index: 2, wav: "a.wav".to_string() },
        SyncedDub { donor_index: 3, wav: "b.wav".to_string() },
    ];
    let plan = plan_remux(&cfg, &master, &donor, &synced);
    assert_eq!(plan.master_anchor_track, Some(1));
    assert_eq!(plan.master_anchor_lang.as_deref(), Some("eng"));
    assert_eq!(plan.bitrates, vec![Some(256), Some(640)]);
    assert_eq!(plan.dubs[1].language.as_deref(), Some("fra"));
    assert_eq!(plan.dubs[1].synced.wav, "b.wav");

    let mut solo = config();
    solo.solo_dub = true;
    let plan = plan_remux(&solo, &master, &donor, &synced);
    assert_eq!(plan.master_anchor_track, None);
    assert_eq!(plan.master_anchor_lang, None);
    assert!(find_audio(&donor, 9).is_none());
    assert_eq!(find_audio(&donor, 3).map(|s| s.channels), Some(6));
    assert!(find_sub(&Vec::new(), 3).is_none());
}

fn rate(num: u128, den: u128) -> FrameRate {
    FrameRate { num, den, tens: 0 }
}

fn fps(num: u128, den: u128) -> Option<FrameRate> {
    Some(rate(num, den))
}

#[test]
fn frame_rates_decide_on_a_stretch() {
    let plan = plan_fps(FpsMode::Auto, false, fps(24, 1), fps(25, 1));
    assert_eq!(plan.title, "Time-stretching donor audio (25.000 → 24.000 fps, ratio 1.0417)");
    match plan.step {
        FpsStep::Stretch { ratio } => {
            assert_eq!(ratio, Ratio::Rates { donor: rate(25, 1), master: rate(24, 1) });
            assert_eq!(plan.info.stretch_ratio, Some(ratio));
        }
        _ => panic!("expected a stretch"),
    }
    assert_eq!(plan.info.donor_fps, Some(DonorRate::Found(rate(25, 1))));

    let same = plan_fps(FpsMode::Auto, true, fps(24_000, 1001), fps(24_000, 1001));
    assert_eq!(same.title, "Checking fps (23.976 vs 23.976)");
    match same.step {
        FpsStep::Skip { summary } => assert_eq!(summary, "no fps mismatch"),
        _ => panic!("expected no stretch"),
    }
    assert!(!same.info.pal_pitch_applied);

    let silent = plan_fps(FpsMode::Auto, false, fps(24, 1), None);
    match silent.step {
        FpsStep::Skip { summary } => assert_eq!(summary, "donor has no video stream — skipping"),
        _ => panic!("expected no stretch"),
    }
}

#[test]
fn forced_and_disabled_rates() {
    assert!(needs_donor_rate(FpsMode::Auto));
    assert!(!needs_donor_rate(FpsMode::Disabled));
    assert!(!needs_donor_rate(FpsMode::Forced(1_100_000_000)));

    let off = plan_fps(FpsMode::Disabled, true, None, None);
    assert_eq!(off.title, "FPS normalize: skipped");
    match off.step {
        FpsStep::Skip { summary } => assert_eq!(summary, "disabled by --disable-fps-normalize"),
        _ => panic!("expected no stretch"),
    }
    assert_eq!(off.info.master_fps, rate(25, 1));
    assert_eq!(off.info.donor_fps, None);

    let forced = plan_fps(FpsMode::Forced(960_000_000), true, fps(25, 1), None);
    assert_eq!(forced.title, "Time-stretching donor audio (forced ratio 0.9600)");
    assert_eq!(
        forced.info.donor_fps,
        Some(DonorRate::Implied { master: rate(25, 1), ratio_nano: 960_000_000 })
    );
    assert_eq!(forced.info.stretch_ratio, Some(Ratio::Nano(960_000_000)));
    assert!(forced.info.pal_pitch_applied);

    let one = plan_fps(FpsMode::Forced(1_001_000_000), true, fps(25, 1), None);
    assert_eq!(one.title, "FPS normalize: skipped (forced ratio 1.0010)");
    assert!(matches!(one.step, FpsStep::Skip { .. }));
    assert_eq!(one.info.stretch_ratio, None);
}

#[test]
fn stretch_jobs() {
    let input = StretchInput {
        path: "w/donor_dub_2.wav".to_string(),
        stem: Some("donor_dub_2".to_string()),
        info: WavInfo { frames: 4_800_000, sample_rate: 48_000, channels: 2 },
    };
    let unnamed = StretchInput {
        path: "x".to_string(),
        stem: None,
        info: WavInfo { frames: 48_000, sample_rate: 48_000, channels: 2 },
    };
    let inputs = vec![input, unnamed];
    let jobs = plan_jobs(&inputs, &Ratio::Nano(1_500_000_000));
    assert_eq!(jobs[0].out_name, "donor_dub_2_stretched.wav");
    assert_eq!(jobs[0].target_ns, 150_000_000_000);
    assert_eq!(jobs[0].expected_frames, 7_200_000);
    assert_eq!(jobs[1].out_name, "stretched_stretched.wav");
    let (eta_ns, detail) = announce(&inputs, true);
    assert_eq!(eta_ns, 16_833_333_333);
    assert_eq!(detail, "2 file(s), 1.7 min total, with PAL pitch correction");
    assert_eq!(stretch_status(&vec![50, 100], &vec![100, 100]), (750_000, 1));
    assert_eq!(frames_done(1000, 250_000), 250);
    assert_eq!(
        stretched_summary(
            2,
            &Ratio::Rates { donor: rate(25, 1), master: rate(24, 1) },
            Some("-0.707")
        ),
        "stretched 2 file(s) by ratio 1.0417 (pitch -0.707 semitones)"
    );
    assert_eq!(
        stretched_summary(1, &Ratio::Nano(960_000_000), None),
        "stretched 1 file(s) by ratio 0.9600"
    );
}

#[test]
fn ratios_have_no_cap() {
    let plan = plan_fps(FpsMode::Auto, false, fps(1, 1), fps(5000, 1));
    assert_eq!(
        plan.title,
        "Time-stretching donor audio (5000.000 → 1.000 fps, ratio 5000.0000)"
    );
    let far = plan_fps(
        FpsMode::Auto,
        false,
        fps(1, 400_000_000_000_000),
        fps(400_000_000_000_000, 1),
    );
    assert_eq!(
        far.title,
        "Time-stretching donor audio (400000000000000.000 → 0.000 fps, \
         ratio 160000000000000000000000000000.0000)"
    );
    let huge = plan_fps(FpsMode::Auto, false, fps(1, 1), fps(u128::MAX, 1));
    assert!(huge.title.ends_with("ratio 340282366920938463463374607431768211455.0000)"));

    let input = StretchInput {
        path: "x".to_string(),
        stem: None,
        info: WavInfo { frames: 3, sample_rate: 48_000, channels: 1 },
    };
    let inputs = vec![input];
    let by = |donor: FrameRate| Ratio::Rates { donor, master: rate(1, 1) };
    let jobs = plan_jobs(&inputs, &by(rate(20_000_000_000, 1)));
    assert_eq!(jobs[0].target_ns, 1_250_000_000_000_000);
    assert_eq!(jobs[0].expected_frames, 60_000_000_000);
    let most = plan_jobs(&inputs, &by(rate(u128::MAX, 1)));
    assert_eq!((most[0].target_ns, most[0].expected_frames), (i128::MAX, u64::MAX));
    let back = plan_jobs(&inputs, &Ratio::Nano(-2_000_000_000));
    assert_eq!((back[0].target_ns, back[0].expected_frames), (-125_000, 0));
}

#[test]
fn ratios_are_exact() {
    // An hour at 25 fps, played at 24000/1001 fps.
    let ratio = Ratio::Rates { donor: rate(25, 1), master: rate(24_000, 1001) };
    let hour = StretchInput {
        path: "x".to_string(),
        stem: None,
        info: WavInfo { frames: 172_800_000, sample_rate: 48_000, channels: 1 },
    };
    let jobs = plan_jobs(&vec![hour], &ratio);
    assert_eq!(jobs[0].target_ns, 3_753_750_000_000);
    assert_eq!(jobs[0].expected_frames, 180_180_000);
    let args = stretch_args(jobs[0].target_ns, None, "in.wav", "out.wav");
    assert!(args.iter().any(|a| a == "3753.750000"), "{args:?}");
    assert_eq!(stretched_summary(1, &ratio, None), "stretched 1 file(s) by ratio 1.0427");
}

#[test]
fn stretched_files_are_adopted() {
    let mut anchors = ExtractedAnchors {
        master_anchor_wav: "m.wav".to_string(),
        donor_anchor_wav: "d.wav".to_string(),
    };
    let mut dubs = vec![
        ExtractedDub { donor_index: 2, wav: "2.wav".to_string() },
        ExtractedDub { donor_index: 3, wav: "3.wav".to_string() },
    ];
    let outputs = vec!["s/d.wav".to_string(), "s/2.wav".to_string(), "s/3.wav".to_string()];
    adopt_stretched(&mut anchors, &mut dubs, &outputs);
    assert_eq!(anchors.master_anchor_wav, "m.wav");
    assert_eq!(anchors.donor_anchor_wav, "s/d.wav");
    let shown: Vec<(u32, &str)> = dubs.iter().map(|d| (d.donor_index, d.wav.as_str())).collect();
    assert_eq!(shown, vec![(2, "s/2.wav"), (3, "s/3.wav")]);
    adopt_stretched(&mut anchors, &mut Vec::new(), &vec!["t/d.wav".to_string()]);
    assert_eq!(anchors.donor_anchor_wav, "t/d.wav");
}

#[test]
fn run_summaries_add_up() {
    let cfg = config();
    let fps = FpsInfo {
        master_fps: FrameRate { num: 25, den: 1, tens: 0 },
        donor_fps: None,
        stretch_ratio: None,
        pal_pitch_applied: false,
    };
    let silences = vec![SilenceInterval { start_ns: 90 * S, end_ns: 95 * S }];
    let s = build_run_summary(&cfg, &fps, &two_segments(), &silences, 7);
    assert_eq!(s.total_anchors, 10);
    assert_eq!(s.low_confidence_ppm, 100_000);
    assert_eq!(s.max_jump_ns, Some(-2 * S));
    assert_eq!(s.max_jump_at_master_ns, Some(100 * S));
    assert_eq!(s.master_snap_count, 1);
    assert_eq!(s.fallback_required_count, 0);
    assert_eq!(s.total_silence_inserted_ns, 2_000_000_000);
    assert_eq!(s.output_file, "out.mkv");
    assert_eq!(s.elapsed_ns, 7);
    let none = build_run_summary(&cfg, &fps, &two_segments(), &Vec::new(), 7);
    assert_eq!((none.master_snap_count, none.fallback_required_count), (0, 1));
}

#[test]
fn the_offset_map_is_logged() {
    let lines = offset_map_lines(&two_segments());
    assert!(lines.iter().any(|l| l.contains("tail-out [190.00..200.00s]")));
    assert!(!lines.iter().any(|l| l.contains("lead-in")));
    assert!(lines
        .iter()
        .any(|l| l == "  seg #0: master     0.00..  100.00s (100.00s)  offset +0.000s"));
    assert!(lines.iter().any(
        |l| l == "  seg #1: master   100.00..  200.00s (100.00s)  offset -2.000s  jump -2.000s"
    ));
}

#[test]
fn correlation_needs_one_sample_rate() {
    let plan = plan_correlation(30 * S, 16_000, 16_000, 160_000).unwrap();
    assert_eq!(plan.hop_ns, 15 * S);
    assert_eq!(plan.half_hop_ns, 7_500_000_000);
    assert_eq!(plan.master_duration_ns, 10_000_000_000);
    // Longer than sixty-four bits of nanoseconds.
    let long = plan_correlation(30 * S, 1, 1, 1 << 40).unwrap();
    assert_eq!(long.master_duration_ns, 1_099_511_627_776_000_000_000);
    assert_eq!(
        plan_correlation(30 * S, 16_000, 8_000, 160_000).err(),
        Some("anchor sample rates differ: master 16000Hz vs donor 8000Hz".to_string())
    );
}
