use dubsync::progress::{
    describe, format_duration, percent_of, share_of, ChannelReporter, NullReporter, PhaseId,
    PipelineEvent, ProgressReporter, StderrReporter,
};

fn started(id: PhaseId, title: &str) -> PipelineEvent {
    PipelineEvent::PhaseStarted {
        id,
        title: title.to_string(),
        eta_hint_ns: None,
        detail: None,
    }
}

fn progress(id: PhaseId, fraction_ppm: u32) -> PipelineEvent {
    PipelineEvent::PhaseProgress { id, fraction_ppm, detail: None }
}

#[test]
fn null_reporter_is_noop() {
    let mut r = NullReporter;
    let text = r.emit(PipelineEvent::PhaseStarted {
        id: PhaseId::Workspace,
        title: "x".into(),
        eta_hint_ns: None,
        detail: None,
    });
    assert_eq!(text, "");
}

#[test]
fn phase_ordinals_are_unique_and_in_range() {
    let ids = [
        PhaseId::Workspace,
        PhaseId::ExtractAnchors,
        PhaseId::ExtractDubs,
        PhaseId::FpsNormalize,
        PhaseId::Correlate,
        PhaseId::Splice,
        PhaseId::Remux,
    ];
    let ords: Vec<usize> = ids.iter().map(|id| id.ordinal()).collect();
    for &o in &ords {
        assert!((1..=PhaseId::TOTAL).contains(&o));
    }
    let mut sorted = ords.clone();
    sorted.sort();
    sorted.dedup();
    assert_eq!(sorted.len(), ids.len(), "ordinals must be unique");
}

#[test]
fn duration_formatting() {
    assert_eq!(format_duration(5), "5s");
    assert_eq!(format_duration(59), "59s");
    assert_eq!(format_duration(60), "1m00s");
    assert_eq!(format_duration(125), "2m05s");
}

#[test]
fn channel_reporter_round_trips_events() {
    let (tx, rx) = crossbeam_channel::bounded(4);
    let mut r = ChannelReporter::new(tx);
    r.emit(PipelineEvent::PhaseStarted {
        id: PhaseId::Correlate,
        title: "Correlating".into(),
        eta_hint_ns: None,
        detail: None,
    });
    r.emit(PipelineEvent::PhaseFinished {
        id: PhaseId::Correlate,
        summary: Some("3 segments".into()),
    });
    let n = rx.try_iter().count();
    assert_eq!(n, 2);
}

#[test]
fn channel_reporter_hands_on_the_event_itself() {
    let (tx, rx) = crossbeam_channel::bounded(1);
    let mut r = ChannelReporter::new(tx);
    assert_eq!(r.emit(progress(PhaseId::Splice, 250_000)), "");
    // A full channel drops the event.
    assert_eq!(r.emit(progress(PhaseId::Remux, 500_000)), "");
    let got: Vec<PipelineEvent> = rx.try_iter().collect();
    assert_eq!(got.len(), 1);
    assert!(matches!(
        got[0],
        PipelineEvent::PhaseProgress { id: PhaseId::Splice, fraction_ppm: 250_000, .. }
    ));
}

#[test]
fn fractions_give_whole_percents() {
    assert_eq!(percent_of(0), 0);
    assert_eq!(percent_of(9_999), 0);
    assert_eq!(percent_of(10_000), 1);
    assert_eq!(percent_of(999_999), 99);
    assert_eq!(percent_of(1_000_000), 100);
    assert_eq!(share_of(1, 4), 250_000);
    assert_eq!(share_of(5, 4), 1_000_000);
}

#[test]
fn a_terminal_shows_each_percent_once() {
    let mut r = StderrReporter::new(true);
    assert!(r.emit(started(PhaseId::Correlate, "Correlating")).ends_with('\n'));
    let first = r.emit(progress(PhaseId::Correlate, 100_000));
    assert!(first.starts_with('\r'));
    assert!(first.contains("10%"));
    assert_eq!(r.emit(progress(PhaseId::Correlate, 101_000)), "");
    assert!(r.emit(progress(PhaseId::Correlate, 110_000)).contains("11%"));
    let done = r.emit(PipelineEvent::PhaseFinished { id: PhaseId::Correlate, summary: None });
    assert!(done.starts_with('\n'));
}

#[test]
fn no_percents_off_a_terminal() {
    let mut r = StderrReporter::new(false);
    assert!(!r.emit(started(PhaseId::Correlate, "Correlating")).is_empty());
    assert_eq!(r.emit(progress(PhaseId::Correlate, 100_000)), "");
    let done = r.emit(PipelineEvent::PhaseFinished { id: PhaseId::Correlate, summary: None });
    assert!(!done.starts_with('\n'));
}

#[test]
fn descriptions_name_the_phase() {
    let text = describe(&started(PhaseId::Splice, "Splicing dubs"));
    assert!(text.contains("6"));
    assert!(text.contains("7"));
    assert!(text.contains("Splicing dubs"));
    let failed = describe(&PipelineEvent::PhaseFailed {
        id: PhaseId::Remux,
        error: "no space".to_string(),
    });
    assert!(failed.contains("no space"));
}
