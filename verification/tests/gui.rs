use dubsync::cli::{DubCodec, FpsMode};
use dubsync::ffprobe::{string_map, AudioStream, SubtitleStream};
use dubsync::gui::chat_panel::{format_elapsed, CardStatus, ChatPanel};
use dubsync::gui::dropzones::{
    anchor_label, attach_dub_indices, attach_indices, attach_sub_indices, auto_select,
    drop_goes_to_master, output_path_for, pick_anchor, reconcile_subs, toggle_track, ProbeResult,
    ZoneState,
};
use dubsync::gui::form::{fps_mode_of_token, Form};
use dubsync::gui::options_panel::{bitrate_hint, fps_token_label, report_hint, NumberField};
use dubsync::gui::persistence::{
    derive_report_path, initial_window_size, state_dir, PersistedOptions, PersistedState,
};
use dubsync::gui::run_controller::{
    LogBuffer, LogLevel, LogLine, MessageVisitor, RunOutcome, LOG_BUFFER_CAP,
};
use dubsync::progress::{PhaseId, PipelineEvent};

fn audio(index: u32, language: &str) -> AudioStream {
    AudioStream {
        index,
        codec_name: "ac3".to_string(),
        channels: 2,
        sample_rate: "48000".to_string(),
        channel_layout: None,
        tags: string_map(vec![("language".to_string(), language.to_string())]),
        disposition: string_map(Vec::new()),
    }
}

fn sub(index: u32, codec: &str) -> SubtitleStream {
    SubtitleStream {
        index,
        codec_name: codec.to_string(),
        tags: string_map(Vec::new()),
        disposition: string_map(Vec::new()),
    }
}

fn probed(audio: Vec<AudioStream>, subtitle: Vec<SubtitleStream>) -> Option<ProbeResult> {
    Some(ProbeResult { audio: Ok(audio), subtitle: Ok(subtitle) })
}

fn started(id: PhaseId) -> PipelineEvent {
    PipelineEvent::PhaseStarted {
        id,
        title: "Title".to_string(),
        eta_hint_ns: Some(90_000_000_000),
        detail: None,
    }
}

#[test]
fn cards_follow_the_events() {
    let mut chat = ChatPanel::new();
    assert!(chat.is_empty());
    chat.ingest(started(PhaseId::Correlate), 1_000_000_000);
    assert!(chat.any_running());
    chat.ingest(
        PipelineEvent::PhaseProgress {
            id: PhaseId::Correlate,
            fraction_ppm: 500_000,
            detail: Some("half".to_string()),
        },
        2_000_000_000,
    );
    let card = &chat.cards[0];
    assert_eq!(card.heading(), "[5/7] Title");
    assert_eq!(card.fraction_ppm, Some(500_000));
    assert_eq!(card.time_text(3_500_000_000), "2.5s / ~1:30.0");
    assert_eq!(card.footer(), None);
    chat.ingest(
        PipelineEvent::PhaseFinished {
            id: PhaseId::Correlate,
            summary: Some("2 segment(s)".to_string()),
        },
        4_000_000_000,
    );
    assert!(!chat.any_running());
    let card = &chat.cards[0];
    assert_eq!(card.status, CardStatus::Complete);
    assert_eq!(card.fraction_ppm, Some(1_000_000));
    assert_eq!(card.elapsed(9_000_000_000), 3_000_000_000);
    assert_eq!(card.footer(), Some("2 segment(s)"));
    assert_eq!(card.detail.as_deref(), Some("half"));
}

#[test]
fn a_phase_has_one_card() {
    let mut chat = ChatPanel::new();
    chat.ingest(started(PhaseId::Splice), 0);
    chat.ingest(
        PipelineEvent::PhaseFailed { id: PhaseId::Splice, error: "disk full".to_string() },
        1,
    );
    assert_eq!(chat.cards[0].status, CardStatus::Failed);
    assert_eq!(chat.cards[0].footer(), Some("disk full"));
    chat.ingest(started(PhaseId::Splice), 2);
    assert_eq!(chat.cards.len(), 1);
    assert_eq!(chat.cards[0].status, CardStatus::Running);
    // Without a card the event is lost.
    chat.ingest(PipelineEvent::PhaseFinished { id: PhaseId::Remux, summary: None }, 3);
    assert_eq!(chat.cards.len(), 1);
    chat.reset();
    assert!(chat.is_empty());
}

#[test]
fn elapsed_times() {
    assert_eq!(format_elapsed(2_500_000_000), "2.5s");
    assert_eq!(format_elapsed(60_000_000_000), "1:00.0");
    assert_eq!(format_elapsed(754_300_000_000), "12:34.3");
}

#[test]
fn zones_take_what_was_probed() {
    let mut zone = ZoneState::new("Donor");
    zone.set_file("d.mkv".to_string());
    assert!(zone.probing);
    zone.poll_probe(None);
    assert!(zone.probing);
    zone.poll_probe(Some(ProbeResult {
        audio: Ok(vec![audio(1, "eng")]),
        subtitle: Err("no subs".to_string()),
    }));
    assert!(!zone.probing);
    assert_eq!(zone.streams.as_ref().map(|s| s.len()), Some(1));
    assert_eq!(zone.subtitle_probe_error.as_deref(), Some("no subs"));
    assert!(zone.subtitle_streams.is_none());
    zone.clear_file();
    assert!(zone.file.is_none() && zone.streams.is_none());
}

#[test]
fn tracks_are_remembered_or_guessed() {
    let streams = vec![audio(1, "ita"), audio(2, "eng"), audio(3, "fra")];
    assert_eq!(auto_select(&streams, Some(3), &vec![1, 3, 9]), (Some(3), vec![1]));
    assert_eq!(auto_select(&streams, Some(9), &Vec::new()), (Some(2), Vec::new()));
    assert_eq!(auto_select(&vec![audio(1, "ita")], None, &Vec::new()).0, Some(1));
    assert_eq!(auto_select(&Vec::new(), Some(1), &vec![1]), (None, Vec::new()));
    assert_eq!(anchor_label(&streams, Some(9)), "(pick one)");
    assert!(anchor_label(&streams, Some(2)).contains("eng"));
}

#[test]
fn picking_an_anchor_drops_it_from_the_dubs() {
    let mut anchor = None;
    let mut dubs = vec![1, 2, 3];
    pick_anchor(&mut anchor, &mut dubs, 2, true);
    assert_eq!(anchor, Some(2));
    assert_eq!(dubs, vec![1, 3]);
    toggle_track(&mut dubs, 3, false);
    toggle_track(&mut dubs, 7, true);
    toggle_track(&mut dubs, 7, true);
    assert_eq!(dubs, vec![1, 7]);
}

#[test]
fn lost_subtitles_are_forgotten() {
    let streams = vec![sub(5, "subrip"), sub(6, "dvd_subtitle")];
    assert_eq!(reconcile_subs(&streams, &vec![5, 6, 7]), vec![5]);
    let mut zone = ZoneState::new("Donor");
    let mut subs = vec![5, 6, 7];
    attach_sub_indices(&zone, &mut subs);
    assert_eq!(subs, vec![5, 6, 7]);
    zone.set_file("d.mkv".to_string());
    zone.poll_probe(probed(vec![audio(1, "eng")], streams));
    attach_sub_indices(&zone, &mut subs);
    assert_eq!(subs, vec![5]);
}

#[test]
fn indices_are_attached_once_probed() {
    let mut zone = ZoneState::new("Donor");
    let mut anchor = Some(9);
    let mut dubs = vec![2, 8];
    attach_dub_indices(&zone, &mut anchor, &mut dubs);
    assert_eq!((anchor, dubs.clone()), (Some(9), vec![2, 8]));
    zone.set_file("d.mkv".to_string());
    zone.poll_probe(probed(vec![audio(1, "eng"), audio(2, "ita")], Vec::new()));
    attach_dub_indices(&zone, &mut anchor, &mut dubs);
    assert_eq!((anchor, dubs), (Some(1), vec![2]));
    let mut kept = Some(2);
    attach_indices(&zone, &mut kept);
    assert_eq!(kept, Some(2));
}

#[test]
fn drops_fill_the_empty_slot() {
    assert!(drop_goes_to_master(true, false, false));
    assert!(!drop_goes_to_master(false, true, true));
    assert!(drop_goes_to_master(false, false, true));
    assert!(!drop_goes_to_master(false, false, false));
}

#[test]
fn output_paths() {
    let p = output_path_for(Some("Movie"), Some("/films"), None);
    assert_eq!((p.dir.as_str(), p.name.as_str()), ("/films", "Movie.synced.mkv"));
    let q = output_path_for(None, Some("/films"), Some("/out"));
    assert_eq!((q.dir.as_str(), q.name.as_str()), ("/out", "output.synced.mkv"));
    assert_eq!(output_path_for(Some("Movie"), None, None).dir, "");
    assert_eq!(derive_report_path(Some("Movie.synced"), "html"), "Movie.synced.report.html");
    assert_eq!(derive_report_path(None, "csv"), "dubsync.report.csv");
}

#[test]
fn option_defaults_mirror_the_command_line() {
    let o = PersistedOptions::default();
    let c = dubsync::cli::Cli::default();
    assert_eq!(o.silence_udb, c.silence_udb);
    assert_eq!(o.silence_min_ms, c.silence_min_ms);
    assert_eq!(o.anchor_rate, c.anchor_rate);
    assert_eq!(o.correlation_window_ns, c.correlation_window_ns);
    assert_eq!(o.max_drift_ns, c.max_drift_ns);
    assert_eq!(o.max_segment_jump_ns, c.max_segment_jump_ns);
    assert_eq!(o.snap_radius_ns, c.snap_radius_ns);
    assert_eq!(o.crossfade_ms, c.crossfade_ms);
    assert_eq!(o.smooth_gaps, c.smooth_gaps);
    assert_eq!(o.gap_fill_margin_ns, c.gap_fill_margin_ns);
    assert_eq!(o.speech_udb, c.speech_udb);
    assert_eq!(DubCodec::from_token(&o.dub_codec), c.dub_codec);
    assert_eq!(o.report_format, "html");
    assert_eq!(o.fps_mode, "auto");
    assert!(o.keep_master_subs);
}

#[test]
fn portable_state_stays_with_the_program() {
    let some = |s: &str| Some(s.to_string());
    assert_eq!(state_dir(some("/app"), true, some("/cfg")), some("/app"));
    assert_eq!(state_dir(some("/app"), false, some("/cfg")), some("/cfg"));
    assert_eq!(state_dir(None, false, None), None);
}

#[test]
fn windows_are_not_restored_too_small() {
    assert_eq!(initial_window_size(None), (920_000, 760_000));
    assert_eq!(initial_window_size(Some((100_000, 900_000))), (760_000, 900_000));
}

fn ready_form() -> Form {
    let mut state = PersistedState::default();
    state.master_file = Some("m.mkv".to_string());
    state.donor_file = Some("d.mkv".to_string());
    state.output_dir = Some("/out".to_string());
    state.output_filename = " out.mkv ".to_string();
    state.last_master_anchor = Some(1);
    state.last_donor_anchor = Some(1);
    state.last_donor_dubs = vec![2];
    let mut form = Form::new(state, true, true);
    form.master.poll_probe(probed(vec![audio(1, "eng")], Vec::new()));
    form.donor.poll_probe(probed(vec![audio(1, "eng"), audio(2, "ita")], Vec::new()));
    form
}

#[test]
fn a_complete_form_starts_a_run() {
    let mut form = ready_form();
    assert!(form.is_runnable());
    let path = form.compose_output_path().unwrap();
    assert_eq!((path.dir.as_str(), path.name.as_str()), ("/out", "out.mkv"));
    form.state.options.fps_mode = "manual".to_string();
    form.state.options.fps_manual_ratio_nano = 1_041_700_000;
    form.state.options.dub_bitrate = " 320 ".to_string();
    let cfg = form.start_run(Some("/out/out.mkv".to_string()), None).unwrap();
    assert_eq!(cfg.donor_dub_tracks, vec![2]);
    assert_eq!(cfg.output_file, "/out/out.mkv");
    assert_eq!(cfg.dub_bitrate_kbps, Some(320));
    assert_eq!(cfg.fps_mode.forced_ratio(), Some(1_041_700_000));
    assert!(form.running);
    assert!(!form.is_runnable());
    form.finish(RunOutcome::Done("/out/out.mkv".to_string()));
    assert_eq!(form.last_output.as_deref(), Some("/out/out.mkv"));
    assert!(!form.running);
    form.finish(RunOutcome::Failed("boom".to_string()));
    assert_eq!(form.last_error.as_deref(), Some("boom"));
}

#[test]
fn an_incomplete_form_says_what_is_missing() {
    let mut form = ready_form();
    form.state.last_donor_dubs = Vec::new();
    assert!(!form.is_runnable());
    assert!(form.start_run(Some("/out/out.mkv".to_string()), None).is_none());
    assert_eq!(
        form.last_error.as_deref(),
        Some("Pick at least one dub track on the donor side.")
    );
    form.state.options.anchor_only_validation = true;
    assert!(form.is_runnable());

    let mut form = ready_form();
    form.output_dir = None;
    assert!(form.start_run(None, None).is_none());
    assert_eq!(
        form.last_error.as_deref(),
        Some("Set both an output folder and a filename before running.")
    );
}

#[test]
fn lost_files_are_not_restored() {
    let mut state = PersistedState::default();
    state.master_file = Some("gone.mkv".to_string());
    state.donor_file = Some("d.mkv".to_string());
    let form = Form::new(state, false, true);
    assert!(form.master.file.is_none());
    assert!(form.state.master_file.is_none());
    assert_eq!(form.donor.file.as_deref(), Some("d.mkv"));
}

#[test]
fn a_new_master_renames_the_output() {
    let mut form = Form::new(PersistedState::default(), false, false);
    form.take_drop("/films/New.mkv".to_string(), true, Some("New"), Some("/films"));
    assert_eq!(form.output_filename, "New.synced.mkv");
    assert_eq!(form.output_dir.as_deref(), Some("/films"));
    form.take_drop("/films/Other.mkv".to_string(), true, Some("Other"), Some("/elsewhere"));
    assert_eq!(form.output_filename, "Other.synced.mkv");
    assert_eq!(form.output_dir.as_deref(), Some("/films"));
    form.clear_files();
    assert_eq!(form.output_filename, "");
    assert!(form.master.file.is_none());
    assert_eq!(form.output_dir.as_deref(), Some("/films"));
    form.remember();
    assert_eq!(form.state.output_dir.as_deref(), Some("/films"));
}

#[test]
fn tokens_and_hints() {
    assert!(matches!(fps_mode_of_token("disabled", 5), FpsMode::Disabled));
    assert!(matches!(fps_mode_of_token("manual", 5), FpsMode::Forced(5)));
    assert!(matches!(fps_mode_of_token("else", 5), FpsMode::Auto));
    assert_eq!(fps_token_label("manual"), "Manual ratio");
    assert_eq!(bitrate_hint(DubCodec::Eac3), "auto (256 stereo / 640 5.1)");
    assert!(report_hint("html").contains("saved as <output stem>.report.html"));
    assert_eq!(NumberField::Crossfade.range(), (1, 50));
}

#[test]
fn the_log_forgets_its_oldest_lines() {
    let mut log = LogBuffer::new();
    for i in 0..LOG_BUFFER_CAP + 5 {
        log.push(LogLine { level: LogLevel::Info, message: i.to_string() });
    }
    assert_eq!(log.lines.len(), LOG_BUFFER_CAP);
    assert_eq!(log.lines[0].message, "5");
}

#[test]
fn log_messages_are_put_together() {
    let mut v = MessageVisitor::new();
    v.record_debug("message", "\"vad pass\"");
    v.record_str("path", "x.wav");
    v.record_debug("count", "3");
    assert_eq!(v.into_message(), "vad pass path=x.wav count=3");
    let mut plain = MessageVisitor::new();
    plain.record_str("message", "hello");
    assert_eq!(plain.into_message(), "hello");
}
