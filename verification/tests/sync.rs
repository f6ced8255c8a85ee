use dubsync::audio::stretch::{fit_length, plan_stretch, StretchPlan};
use dubsync::audio::vad::{classify_buffer, SilenceInterval, Verdict};
use dubsync::correlation::offset_map::{OffsetMap, Segment};
use dubsync::sync::applier::{
    apply_segment_geometry, best_master_silence, clamp_crossfade_ms, classify_strategies,
    crossfade_ns, find_dub_mutual_silence, master_snap_per_boundary, plan_splices, synced_name,
    SpliceConfig, SpliceStrategy,
};
use dubsync::sync::gap_fill::{
    fill_setup, mix_op, plan_gap, plan_mix, should_fill, write_op, zone_frame, GapSkip, MixOp,
    WriteOp,
};
use dubsync::sync::render::{plan_span, render_frame, timeline};
use dubsync::time::samples_of;

const S: i64 = 1_000_000_000;

fn ns(s: f64) -> i64 {
    (s * 1e9).round() as i64
}

fn seg(start: f64, end: f64, offset: f64) -> Segment {
    Segment { master_start_ns: ns(start), master_end_ns: ns(end), donor_offset_ns: ns(offset) }
}

fn silence(start: f64, end: f64) -> SilenceInterval {
    SilenceInterval { start_ns: ns(start), end_ns: ns(end) }
}

fn map_of(segments: Vec<Segment>) -> OffsetMap {
    let end = segments.last().unwrap().master_end_ns;
    OffsetMap {
        segments,
        master_duration_ns: end,
        anchor_count: 2,
        rejected_count: 0,
        suppressed_jumps: 0,
        valid_master_start_ns: 0,
        valid_master_end_ns: end,
    }
}

fn jump_map() -> OffsetMap {
    map_of(vec![seg(0.0, 100.0, 0.0), seg(100.0, 200.0, -1.0)])
}

/// Gain at a place of a fade of `len` frames.
fn gain(place: i64, len: i64) -> f32 {
    ((place as f32 + 0.5) / len as f32 * std::f32::consts::FRAC_PI_2).sin()
}

/// Renders a mono donor.
fn render(donor: &[f32], rate: u32, segments: &[Segment], duration: i64, xfade: i64) -> Vec<f32> {
    let t = timeline(duration, 0, duration, xfade, rate, donor.len());
    let mut out = vec![0.0_f32; t.total_frames as usize];
    for (idx, s) in segments.iter().enumerate() {
        let span = match plan_span(s, idx, segments.len(), rate) {
            Some(span) => span,
            None => continue,
        };
        for i in 0..span.len {
            if let Some(f) = render_frame(&span, i, &t) {
                let mut g = 1.0_f32;
                if let Some(p) = f.fade_in {
                    g *= gain(p, t.xfade);
                }
                if let Some(p) = f.fade_out {
                    g *= gain(p, t.xfade);
                }
                let v = f.src.map(|s| donor[s as usize]).unwrap_or(0.0);
                out[f.dst as usize] += v * g;
            }
        }
    }
    out
}

fn verdict(samples: &[f32], cfg: &SpliceConfig) -> Verdict {
    let sum: f64 = samples.iter().map(|&s| (s as f64) * (s as f64)).sum();
    let rms = (sum / samples.len() as f64).sqrt() as f32;
    let udb = (20.0 * rms.max(1e-9).log10() * 1e6) as i64;
    let signs: Vec<i8> = samples
        .iter()
        .map(|&s| if s > 0.0 { 1 } else if s < 0.0 { -1 } else { 0 })
        .collect();
    classify_buffer(&signs, udb < cfg.silence_udb, udb >= cfg.speech_udb)
}

/// Stands in for the stretcher: every frame is held.
fn stretch(samples: &[f32], rate: u32, target_ns: i64) -> Vec<f32> {
    match plan_stretch(samples.len(), 1, rate, target_ns) {
        Ok(StretchPlan::Run { target_frames }) => {
            let n = target_frames as usize;
            let mut held: Vec<u32> =
                (0..n).map(|i| samples[i * samples.len() / n].to_bits()).collect();
            fit_length(&mut held, n);
            held.iter().map(|b| f32::from_bits(*b)).collect()
        }
        _ => panic!("stretchable"),
    }
}

fn fill_gaps(out: &mut [f32], donor: &[f32], rate: u32, segments: &[Segment], cfg: &SpliceConfig) {
    let setup = match fill_setup(cfg, rate, donor.len() as i64) {
        Some(s) => s,
        None => return,
    };
    for pair in segments.windows(2) {
        let g = match plan_gap(&pair[0], &pair[1], &setup) {
            Ok(g) => g,
            Err(_) => continue,
        };
        let pre = &donor[g.pre_lo as usize..g.pre_hi as usize];
        let post = &donor[g.post_lo as usize..g.post_hi as usize];
        let energy = |x: &[f32]| x.iter().map(|&s| (s as f64) * (s as f64)).sum::<f64>();
        let zero = energy(pre) < 1e-9 && energy(post) < 1e-9;
        if !should_fill(verdict(pre, cfg), verdict(post, cfg), zero) {
            continue;
        }
        let a = stretch(pre, rate, g.target_pre_ns);
        let b = stretch(post, rate, g.target_post_ns);
        let fade = samples_of(cfg.gap_fill_silence_fade_ms as i64 * 1_000_000, rate);
        let xfade = samples_of(setup.xfade_ns, rate);
        let p = plan_mix(g.zone_frames, a.len() as i64, b.len() as i64, fade, xfade);
        for f in 0..p.zone {
            let v = match mix_op(&p, f) {
                MixOp::Silence => 0.0,
                MixOp::Pre { frame, fade_out } => {
                    let g = fade_out.map(|(k, n)| gain(n - 1 - k, n)).unwrap_or(1.0);
                    a[frame as usize] * g
                }
                MixOp::Post { frame, fade_in } => {
                    let g = fade_in.map(|(k, n)| gain(k, n)).unwrap_or(1.0);
                    b[frame as usize] * g
                }
                MixOp::Cross { pre, post, place, len } => {
                    a[pre as usize] * gain(len - 1 - place, len) + b[post as usize] * gain(place, len)
                }
            };
            if let Some(dst) = zone_frame(g.zone_start, f, out.len() as i64) {
                let dst = dst as usize;
                out[dst] = match write_op(&p, f) {
                    WriteOp::Replace => v,
                    WriteOp::FadeIn { place, len } => {
                        out[dst] * gain(len - 1 - place, len) + v * gain(place, len)
                    }
                    WriteOp::FadeOut { place, len } => {
                        v * gain(len - 1 - place, len) + out[dst] * gain(place, len)
                    }
                };
            }
        }
    }
}

#[test]
fn output_length_matches_master_duration() {
    let sr = 16_000u32;
    let donor: Vec<f32> =
        (0..10 * sr as usize).map(|i| (i as f32 / sr as f32).sin() * 0.1).collect();
    let map = map_of(vec![seg(0.0, 5.0, 0.0)]);
    let out = render(&donor, sr, &map.segments, map.master_duration_ns, 20_000_000);
    assert_eq!(out.len(), 5 * sr as usize);
}

#[test]
fn master_silence_snap_picks_centred_silence() {
    let silences = vec![silence(99.0, 101.0)];
    let decisions = master_snap_per_boundary(&jump_map(), &silences, 30 * S);
    assert_eq!(decisions.len(), 1);
    let s = decisions[0].expect("expected master snap");
    assert_eq!(s.snap_master_ns, 100 * S);
    assert_eq!(s.gap_ns, S);
}

#[test]
fn master_silence_too_narrow_is_rejected() {
    let silences = vec![silence(99.75, 100.25)];
    let decisions = master_snap_per_boundary(&jump_map(), &silences, 30 * S);
    assert!(decisions[0].is_none());
}

#[test]
fn classify_falls_back_to_at_boundary() {
    let segs = jump_map().segments;
    let strategies = classify_strategies(&segs, &vec![None], &Vec::new(), 30 * S);
    match strategies[0] {
        SpliceStrategy::AtBoundary { gap_ns } => assert_eq!(gap_ns, S),
        other => panic!("expected AtBoundary, got {other:?}"),
    }
}

#[test]
fn classify_prefers_master_silence_over_dub_silence() {
    let map = jump_map();
    let snaps = master_snap_per_boundary(&map, &vec![silence(99.0, 101.0)], 30 * S);
    let strategies =
        classify_strategies(&map.segments, &snaps, &vec![silence(105.0, 107.0)], 30 * S);
    assert!(matches!(strategies[0], SpliceStrategy::InMasterSilence { .. }));
}

#[test]
fn segment_geometry_inserts_silence_gap_centred_on_snap() {
    let mut segs = jump_map().segments;
    let strategies =
        vec![SpliceStrategy::InMasterSilence { snap_master_ns: 100 * S, gap_ns: S }];
    apply_segment_geometry(&mut segs, &strategies, 20_000_000);
    assert_eq!(segs[0].master_end_ns, ns(99.5));
    assert_eq!(segs[1].master_start_ns, ns(100.5));
}

#[test]
fn hardcut_overlap_avoids_zero_dip() {
    let mut segs = vec![seg(0.0, 100.0, 0.0), seg(100.0, 200.0, 0.0)];
    let strategies = vec![SpliceStrategy::AtBoundary { gap_ns: 0 }];
    apply_segment_geometry(&mut segs, &strategies, 20_000_000);
    assert_eq!(segs[0].master_end_ns, ns(100.010));
    assert_eq!(segs[1].master_start_ns, ns(99.990));
}

fn test_splice_cfg() -> SpliceConfig {
    SpliceConfig {
        silence_udb: -45_000_000,
        silence_min_ms: 200,
        snap_radius_ns: 30 * S,
        crossfade_ms: 10,
        smooth_gaps: true,
        gap_fill_margin_ns: S,
        speech_udb: -25_000_000,
        gap_fill_max_ratio_ppm: 1_200_000,
        gap_fill_silence_fade_ms: 100,
    }
}

/// A donor with `pre` in front of the splice and `post` behind it, the segments
/// that leave a gap of `gap_s` between them, and what they render to.
fn build_gap_fixture(
    sr: u32,
    pre: &[f32],
    post: &[f32],
    gap_s: f64,
) -> (Vec<f32>, Vec<Segment>, Vec<f32>) {
    let body_s = 5.0_f64;
    let total_s = body_s + gap_s + body_s;
    let total_n = ((total_s * sr as f64).round() as usize).max(pre.len() + post.len() + sr as usize);
    let mut donor = vec![0.0_f32; total_n];
    let at = (body_s * sr as f64).round() as usize;
    donor[at - pre.len()..at].copy_from_slice(pre);
    let upper = (at + post.len()).min(donor.len());
    donor[at..upper].copy_from_slice(&post[..upper - at]);
    let segs = vec![seg(0.0, body_s, 0.0), seg(body_s + gap_s, total_s, -gap_s)];
    let out = render(&donor, sr, &segs, ns(total_s), 10_000_000);
    (donor, segs, out)
}

fn rms_window(out: &[f32], sr: u32, start_s: f64, end_s: f64) -> f32 {
    let lo = (start_s * sr as f64).round() as usize;
    let hi = ((end_s * sr as f64).round() as usize).min(out.len());
    if hi <= lo {
        return 0.0;
    }
    let sum_sq: f64 = out[lo..hi].iter().map(|&s| (s as f64) * (s as f64)).sum();
    ((sum_sq / (hi - lo) as f64).sqrt()) as f32
}

fn sine(n: usize, sr: u32) -> Vec<f32> {
    (0..n)
        .map(|i| (2.0 * std::f32::consts::PI * 200.0 * i as f32 / sr as f32).sin() * 0.1)
        .collect()
}

fn alternating(n: usize, level: f32) -> Vec<f32> {
    (0..n).map(|i| if i % 2 == 0 { level } else { -level }).collect()
}

#[test]
fn fill_gaps_speech_in_pre_leaves_silence() {
    let sr = 16_000u32;
    let n = sr as usize;
    let (donor, segs, mut out) = build_gap_fixture(sr, &sine(n, sr), &alternating(n, 0.01), 0.5);
    fill_gaps(&mut out, &donor, sr, &segs, &test_splice_cfg());
    let rms = rms_window(&out, sr, 5.05, 5.45);
    assert!(rms < 1e-6, "expected silent gap, got RMS={rms}");
}

#[test]
fn fill_gaps_speech_in_post_leaves_silence() {
    let sr = 16_000u32;
    let n = sr as usize;
    let (donor, segs, mut out) = build_gap_fixture(sr, &alternating(n, 0.01), &sine(n, sr), 0.5);
    fill_gaps(&mut out, &donor, sr, &segs, &test_splice_cfg());
    let rms = rms_window(&out, sr, 5.05, 5.45);
    assert!(rms < 1e-6, "expected silent gap, got RMS={rms}");
}

#[test]
fn fill_gaps_digital_zero_short_circuits() {
    let sr = 16_000u32;
    let n = sr as usize;
    let (donor, segs, mut out) = build_gap_fixture(sr, &vec![0.0; n], &vec![0.0; n], 0.5);
    fill_gaps(&mut out, &donor, sr, &segs, &test_splice_cfg());
    let rms = rms_window(&out, sr, 5.05, 5.45);
    assert!(rms < 1e-6, "expected silent gap, got RMS={rms}");
}

#[test]
fn fill_gaps_zero_margin_returns_immediately() {
    let sr = 16_000u32;
    let n = sr as usize;
    let pre = alternating(n, 0.01);
    let (donor, segs, mut out) = build_gap_fixture(sr, &pre, &pre, 0.5);
    let mut cfg = test_splice_cfg();
    cfg.gap_fill_margin_ns = 0;
    let snapshot = out.clone();
    fill_gaps(&mut out, &donor, sr, &segs, &cfg);
    assert_eq!(out, snapshot, "no margin must be a no-op");
}

#[test]
fn fill_gaps_ambient_neighbours_writes_into_gap() {
    let sr = 16_000u32;
    let n = sr as usize;
    let pre = alternating(n, 0.02);
    let (donor, segs, mut out) = build_gap_fixture(sr, &pre, &pre, 0.3);
    fill_gaps(&mut out, &donor, sr, &segs, &test_splice_cfg());
    let rms = rms_window(&out, sr, 5.05, 5.25);
    assert!(rms > 1e-3, "expected stretched content in gap, got RMS={rms}");
}

#[test]
fn fill_gaps_ratio_cap_leaves_residual_middle() {
    let sr = 16_000u32;
    let n = sr as usize;
    let pre = alternating(n, 0.02);
    let (donor, segs, mut out) = build_gap_fixture(sr, &pre, &pre, 1.0);
    fill_gaps(&mut out, &donor, sr, &segs, &test_splice_cfg());
    let rms_pre_ext = rms_window(&out, sr, 5.05, 5.15);
    assert!(rms_pre_ext > 1e-3, "pre-side extension should have content, got {rms_pre_ext}");
    let rms_mid = rms_window(&out, sr, 5.30, 5.70);
    assert!(rms_mid < 1e-6, "residual middle should be silent, got RMS={rms_mid}");
}

#[test]
fn at_boundary_renders_silence_gap_for_negative_delta() {
    let sr = 16_000u32;
    let donor = vec![0.5_f32; 20 * sr as usize];
    let segs = vec![seg(0.0, 9.5, 0.0), seg(10.5, 20.0, -1.0)];
    let out = render(&donor, sr, &segs, 20 * S, 20_000_000);
    assert_eq!(out[10 * sr as usize], 0.0);
    assert!((out[5 * sr as usize] - 0.5).abs() < 1e-3);
    assert!((out[15 * sr as usize] - 0.5).abs() < 1e-3);
}

#[test]
fn crossfade_is_clamped() {
    let mut cfg = test_splice_cfg();
    assert_eq!(crossfade_ns(&cfg), 10_000_000);
    cfg.crossfade_ms = 0;
    assert_eq!(clamp_crossfade_ms(&cfg), 1);
    cfg.crossfade_ms = 900;
    assert_eq!(clamp_crossfade_ms(&cfg), 50);
}

#[test]
fn silences_out_of_reach_do_not_count() {
    assert!(best_master_silence(100 * S, -S, &vec![silence(140.0, 150.0)], 30 * S).is_none());
    let near = best_master_silence(
        100 * S,
        -S,
        &vec![silence(80.0, 82.0), silence(104.0, 108.0)],
        30 * S,
    )
    .unwrap();
    assert_eq!(near.snap_master_ns, 106 * S);
    assert_eq!(near.silence_width_ns, 4 * S);
}

#[test]
fn a_dub_silence_has_to_suit_both_sides() {
    let found = find_dub_mutual_silence(100 * S, 0, -S, &vec![silence(97.0, 103.0)], 30 * S);
    assert!(found.is_some());
    assert!(find_dub_mutual_silence(100 * S, 0, -S, &Vec::new(), 30 * S).is_none());
}

#[test]
fn splices_are_planned_in_one_go() {
    let map = jump_map();
    let snaps = master_snap_per_boundary(&map, &vec![silence(99.0, 101.0)], 30 * S);
    let plan = plan_splices(&map, &snaps, &Vec::new(), &test_splice_cfg());
    assert_eq!(plan.strategies.len(), 1);
    assert_eq!(plan.segments[0].master_end_ns, ns(99.5));
    assert_eq!(plan.segments[1].master_start_ns, ns(100.5));
    assert_eq!(synced_name(4), "synced_dub_4.wav");
}

#[test]
fn gaps_that_cannot_be_filled() {
    let cfg = test_splice_cfg();
    let setup = fill_setup(&cfg, 16_000, 160_000).unwrap();
    let touching = plan_gap(&seg(0.0, 5.0, 0.0), &seg(5.0, 9.0, 0.0), &setup);
    assert!(matches!(touching, Err(GapSkip::NoGap)));
    let short = plan_gap(&seg(4.995, 5.0, 0.0), &seg(5.5, 9.0, 0.0), &setup);
    assert!(matches!(short, Err(GapSkip::NoMargin)));
    let outside = plan_gap(&seg(0.0, 5.0, 20.0), &seg(5.5, 9.0, 20.0), &setup);
    assert!(matches!(outside, Err(GapSkip::OutOfBounds)));
    let good = plan_gap(&seg(0.0, 5.0, 0.0), &seg(5.5, 9.0, -0.5), &setup).unwrap();
    assert_eq!((good.pre_lo, good.pre_hi), (64_000, 80_000));
    assert_eq!((good.post_lo, good.post_hi), (80_000, 96_000));
    assert_eq!(good.target_pre_ns, 1_200_000_000);
    assert_eq!(good.zone_start, 64_000);
    assert_eq!(good.zone_frames, 40_000);
}

#[test]
fn filled_zones_stay_near_their_gap() {
    let cfg = test_splice_cfg();
    let rate = 16_000;
    let setup = fill_setup(&cfg, rate, 160_000).unwrap();
    let g = plan_gap(&seg(0.0, 5.0, 0.0), &seg(5.5, 9.0, -0.5), &setup).unwrap();
    let margin = samples_of(cfg.gap_fill_margin_ns, rate);
    assert!(g.zone_start >= 80_000 - margin && g.zone_start <= 80_000);
    let end = g.zone_start + g.zone_frames;
    assert!(end >= 88_000 && end <= 88_000 + margin + 1);
    assert_eq!(zone_frame(g.zone_start, g.zone_frames - 1, 1_000_000), Some(end - 1));
    let overlapping = plan_gap(&seg(0.0, 6.0, 0.0), &seg(5.5, 9.0, -0.5), &setup);
    assert!(matches!(overlapping, Err(GapSkip::NoGap)));
    assert!(fill_setup(&cfg, 0, 160_000).is_none());
}

#[test]
fn any_sample_rate_is_accepted() {
    let rate = u32::MAX;
    let span = plan_span(&seg(0.0, 2.0, 0.0), 0, 1, rate).unwrap();
    assert_eq!(span.len, 2 * u32::MAX as u64);
    let cfg = test_splice_cfg();
    let setup = fill_setup(&cfg, rate, 1 << 40).unwrap();
    let g = plan_gap(&seg(0.0, 5.0, 0.0), &seg(5.5, 9.0, -0.5), &setup).unwrap();
    assert_eq!(g.pre_hi, 5 * u32::MAX as i64);
}
