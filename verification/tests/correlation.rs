use dubsync::correlation::gcc_phat::{guard_range, peak_index, transform_len};
use dubsync::correlation::offset_map::{BuildError, OffsetMap, Segment};
use dubsync::correlation::refine::{
    conclude_sweep, donor_window, plan_sweep, sweep_position, BoundaryRefiner, MapRefiner, Side,
    Stage, SweepRequest, SweepResult,
};
use dubsync::correlation::sliding::{
    anchor_from_phat, anchor_without_donor, chunk_end, donor_range, next_seed, plan_sliding,
    to_anchor_point, window_start, AnchorPoint, SampleAnchor,
};
use dubsync::rate::FrameRate;
use rand::rngs::StdRng;
use rand::{Rng, SeedableRng};
use rustfft::num_complex::Complex;
use rustfft::FftPlanner;

const S: i64 = 1_000_000_000;
const FPS_25: FrameRate = FrameRate { num: 25, den: 1, tens: 0 };

fn ns(s: f64) -> i64 {
    (s * 1e9).round() as i64
}

fn anchor(time_s: f64, offset_s: f64, confidence: f64) -> AnchorPoint {
    AnchorPoint {
        master_time_ns: ns(time_s),
        offset_ns: ns(offset_s),
        confidence: (confidence * 1e6).round() as i64,
    }
}

fn build(anchors: &Vec<AnchorPoint>, duration_s: f64) -> OffsetMap {
    OffsetMap::build(anchors, FPS_25, ns(duration_s), 30 * S, 6_000_000, 10 * S).expect("build")
}

#[test]
fn detects_single_jump() {
    // The offset flips between the windows at 135 s and at 150 s.
    let mut anchors = Vec::new();
    for i in 0..20 {
        anchors.push(anchor(i as f64 * 15.0, if i < 10 { 0.5 } else { 1.7 }, 50.0));
    }
    let map = build(&anchors, 300.0);
    assert_eq!(map.segments.len(), 2);
    assert_eq!(map.segments[0].donor_offset_ns, 500_000_000);
    assert_eq!(map.segments[1].donor_offset_ns, 1_700_000_000);
    let b = map.segments[0].master_end_ns;
    assert!(b > 150 * S && b < 165 * S, "boundary {b} not inside the window-corrected range");
    assert_eq!(b, 157_500_000_000);
}

#[test]
fn suppresses_jump_above_max_threshold() {
    let mut anchors = Vec::new();
    for i in 0..20 {
        anchors.push(anchor(i as f64 * 15.0, if i < 13 { 0.0 } else { -58.0 }, 50.0));
    }
    let map = build(&anchors, 300.0);
    assert_eq!(map.segments.len(), 1, "jump > max should not split segments");
    assert_eq!(map.segments[0].donor_offset_ns, 0);
    assert!(map.suppressed_jumps >= 1, "expected at least one suppressed jump");
}

#[test]
fn allows_jump_within_max_threshold() {
    let mut anchors = Vec::new();
    for i in 0..20 {
        anchors.push(anchor(i as f64 * 15.0, if i < 10 { 0.0 } else { 5.0 }, 50.0));
    }
    let map = build(&anchors, 300.0);
    assert_eq!(map.segments.len(), 2, "5s jump should still produce a split");
    assert_eq!(map.suppressed_jumps, 0);
}

#[test]
fn ignores_subframe_noise() {
    let mut anchors = Vec::new();
    for i in 0..20 {
        let jitter = if i % 2 == 0 { 0.0 } else { 0.005 };
        anchors.push(anchor(i as f64 * 15.0, 0.5 + jitter, 50.0));
    }
    let map = build(&anchors, 300.0);
    assert_eq!(map.segments.len(), 1);
}

#[test]
fn drops_low_confidence() {
    let anchors = vec![
        anchor(0.0, 0.5, 50.0),
        anchor(15.0, 100.0, 1.0),
        anchor(30.0, 0.5, 50.0),
    ];
    let map = build(&anchors, 60.0);
    assert_eq!(map.rejected_count, 1);
    assert_eq!(map.segments.len(), 1);
}

#[test]
fn valid_range_tracks_kept_anchors() {
    let anchors = vec![
        anchor(0.0, 0.5, 1.0),
        anchor(60.0, 0.5, 50.0),
        anchor(240.0, 0.5, 50.0),
        anchor(300.0, 99.0, 0.5),
    ];
    let map = build(&anchors, 360.0);
    assert_eq!(map.valid_master_start_ns, 60 * S);
    assert_eq!(map.valid_master_end_ns, 270 * S);
}

#[test]
fn no_usable_anchors_is_an_error() {
    let anchors = vec![anchor(0.0, 0.5, 1.0), anchor(15.0, 0.5, 2.0)];
    match OffsetMap::build(&anchors, FPS_25, 60 * S, 30 * S, 6_000_000, 10 * S) {
        Err(e) => {
            let BuildError::NoUsableAnchors { total, min_confidence } = e;
            assert_eq!(total, 2);
            assert_eq!(min_confidence, 6_000_000);
            assert!(e.message().contains("(kept 0 of 2, min_confidence=6);"));
        }
        Ok(_) => panic!("expected an error"),
    }
}

#[test]
fn segments_cover_the_master() {
    let mut anchors = Vec::new();
    for i in 0..30 {
        anchors.push(anchor(i as f64 * 15.0, (i / 7) as f64, 50.0));
    }
    let map = build(&anchors, 470.0);
    assert_eq!(map.segments[0].master_start_ns, 0);
    assert_eq!(map.segments.last().unwrap().master_end_ns, ns(470.0));
    for w in map.segments.windows(2) {
        assert_eq!(w[0].master_end_ns, w[1].master_start_ns);
        assert!(w[0].master_start_ns < w[0].master_end_ns);
    }
}

/// Normalised correlation of two windows.
fn pearson(a: &[f32], b: &[f32]) -> f32 {
    let (mut ab, mut aa, mut bb) = (0.0_f64, 0.0_f64, 0.0_f64);
    for (&x, &y) in a.iter().zip(b) {
        let (x, y) = (x as f64, y as f64);
        ab += x * y;
        aa += x * x;
        bb += y * y;
    }
    let denom = (aa * bb).sqrt();
    if denom < 1e-12 {
        0.0
    } else {
        (ab / denom) as f32
    }
}

fn score(master: &[f32], donor: &[f32], start: usize, lag: i64, window: usize) -> Option<f32> {
    donor_window(master.len(), donor.len(), start, lag, window)
        .map(|d| pearson(&master[start..start + window], &donor[d..d + window]))
}

/// Runs one sweep; also tells how many windows it looked at.
fn run_sweep(request: &SweepRequest, master: &[f32], donor: &[f32], rate: u32) -> (SweepResult, usize) {
    let sweep = match plan_sweep(request, rate, master.len()) {
        Some(sweep) => sweep,
        None => {
            let nothing =
                SweepResult { refined_ns: None, last_a_center_ns: None, first_b_center_ns: None };
            return (nothing, 0);
        }
    };
    let mut sides = Vec::new();
    for k in 0..sweep.count {
        let p = sweep_position(&sweep, k, master.len());
        let a = score(master, donor, p, sweep.lag_a, sweep.window as usize);
        let b = score(master, donor, p, sweep.lag_b, sweep.window as usize);
        sides.push(match (a, b) {
            (None, None) => Side::Neither,
            (a, b) => {
                if b.unwrap_or(f32::MIN) > a.unwrap_or(f32::MIN) {
                    Side::B
                } else {
                    Side::A
                }
            }
        });
    }
    (conclude_sweep(&sweep, &sides), sides.len())
}

/// Refines the boundaries of a map; also tells how many windows the sub-frame
/// passes looked at.
fn refine(
    map: &mut OffsetMap,
    master: &[f32],
    donor: &[f32],
    rate: u32,
    half_hop: i64,
) -> (Vec<BoundaryRefiner>, usize) {
    let mut subframe_points = 0;
    let mut refiner = MapRefiner::start(map, half_hop);
    while let Some(request) = refiner.next_request(map) {
        let (result, points) = run_sweep(&request, master, donor, rate);
        if refiner.current.as_ref().map(|st| st.stage) == Some(Stage::Subframe) {
            subframe_points += points;
        }
        refiner.take_result(map, &result);
    }
    (refiner.traces, subframe_points)
}

/// A chirp, a donor with 0.3 s more at `trans_s`, and a map whose boundary is
/// off.
fn fixture(total_s: f32, trans_s: f32, coarse_s: f64) -> (Vec<f32>, Vec<f32>, OffsetMap) {
    let sr = 16_000u32;
    let n = (total_s * sr as f32) as usize;
    let signal: Vec<f32> = (0..n)
        .map(|i| {
            let t = i as f32 / sr as f32;
            (2.0 * std::f32::consts::PI * (50.0 + 100.0 * t) * t).sin()
        })
        .collect();
    let trans_samp = (trans_s * sr as f32) as usize;
    let delta_samp = (0.3_f32 * sr as f32) as usize;
    let mut donor = vec![0.0_f32; n + delta_samp];
    donor[..trans_samp].copy_from_slice(&signal[..trans_samp]);
    donor[trans_samp + delta_samp..].copy_from_slice(&signal[trans_samp..]);
    let total = ns(total_s as f64);
    let map = OffsetMap {
        segments: vec![
            Segment { master_start_ns: 0, master_end_ns: ns(coarse_s), donor_offset_ns: 0 },
            Segment {
                master_start_ns: ns(coarse_s),
                master_end_ns: total,
                donor_offset_ns: 300_000_000,
            },
        ],
        master_duration_ns: total,
        anchor_count: 2,
        rejected_count: 0,
        suppressed_jumps: 0,
        valid_master_start_ns: 0,
        valid_master_end_ns: total,
    };
    (signal, donor, map)
}

#[test]
fn refine_finds_known_transition() {
    let (signal, donor, mut map) = fixture(16.0, 8.0, 7.0);
    refine(&mut map, &signal, &donor, 16_000, 2 * S);
    let refined = map.segments[0].master_end_ns as f64 / 1e9;
    assert!((refined - 8.0).abs() < 0.6, "refined boundary {refined} not near true 8.0");
    assert_eq!(map.segments[0].master_end_ns, map.segments[1].master_start_ns);
}

#[test]
fn refinement_extends_bracket_when_cut_lies_past_initial_hi() {
    let (signal, donor, mut map) = fixture(30.0, 22.0, 12.0);
    let (traces, _) = refine(&mut map, &signal, &donor, 16_000, 2 * S);
    assert_eq!(traces.len(), 1);
    let t = &traces[0];
    assert!(
        t.bracket.hi_ns > 22 * S,
        "bracket_hi should extend past true cut 22.0, got {}",
        t.bracket.hi_ns
    );
    let coarse = t.coarse.refined_ns.expect("coarse pass should succeed after extension");
    assert!((coarse - 22 * S).abs() < S, "extended-bracket coarse {coarse}");
    let sub = t.refined_subframe_ns.expect("sub-frame pass should succeed after extension");
    assert!((sub - 22 * S).abs() < 100_000_000, "sub-frame {sub} not within 0.1 s of true 22.0");
}

#[test]
fn subframe_pass_improves_precision() {
    let (signal, donor, mut map) = fixture(16.0, 8.0, 7.0);
    let (traces, subframe_points) = refine(&mut map, &signal, &donor, 16_000, 2 * S);
    assert_eq!(traces.len(), 1);
    let t = &traces[0];
    let sub = t.refined_subframe_ns.expect("sub-frame pass should succeed");
    assert!((sub - 8 * S).abs() < 100_000_000, "sub-frame boundary {sub} not within 0.1 s of 8.0");
    assert_eq!(t.chosen_ns, Some(sub));
    assert!(subframe_points > 0);
}

#[test]
fn sides_decide_the_boundary() {
    let (_, _, map) = fixture(16.0, 8.0, 7.0);
    let st = BoundaryRefiner::start(&map, 0, 2 * S);
    let request = st.next_request().unwrap();
    assert_eq!(request.lo_ns, S);
    assert_eq!(request.hi_ns, 13 * S);
    let sweep = plan_sweep(&request, 16_000, 16 * 16_000).unwrap();
    assert_eq!(sweep.window, 64_000);
    assert_eq!(sweep.hop, 4_000);
    assert_eq!(sweep.count, 33);
    let mut sides = vec![Side::A; 10];
    sides.push(Side::Neither);
    sides.extend(vec![Side::B; 5]);
    let r = conclude_sweep(&sweep, &sides);
    // Windows 9 and 11, whose middles are 5.25 s and 5.75 s.
    assert_eq!(r.last_a_center_ns, Some(5_250_000_000));
    assert_eq!(r.first_b_center_ns, Some(5_750_000_000));
    assert_eq!(r.refined_ns, Some(5_500_000_000));
}

/// Where `master` starts in `donor`, and the ratio of the peak to the noise
/// around it: phase correlation with the library's transform length, peak and
/// guard.
fn locate(master: &[f32], donor: &[f32], rate: u32) -> (usize, f32) {
    let n = transform_len(master.len() as u64, donor.len() as u64) as usize;
    let mut planner = FftPlanner::<f32>::new();
    let forward = planner.plan_fft_forward(n);
    let inverse = planner.plan_fft_inverse(n);
    let spectrum = |x: &[f32]| {
        let mut buf: Vec<Complex<f32>> = x.iter().map(|&s| Complex::new(s, 0.0)).collect();
        buf.resize(n, Complex::new(0.0, 0.0));
        forward.process(&mut buf);
        buf
    };
    let (a, b) = (spectrum(donor), spectrum(master));
    let mut r: Vec<Complex<f32>> = a
        .iter()
        .zip(&b)
        .map(|(x, y)| {
            let prod = x * y.conj();
            let mag = prod.norm();
            if mag > 1e-12 {
                prod / mag
            } else {
                Complex::new(0.0, 0.0)
            }
        })
        .collect();
    inverse.process(&mut r);
    let max_k = donor.len() - master.len();
    let values: Vec<i64> = r[..=max_k].iter().map(|c| (c.re as f64 * 1e6) as i64).collect();
    let peak = peak_index(&values);
    let (lo, hi) = guard_range(peak as u64, max_k as u64, rate);
    let noise: Vec<f64> = (0..=max_k)
        .filter(|&k| (k as u64) < lo || (k as u64) > hi)
        .map(|k| r[k].re.abs() as f64)
        .collect();
    let mean = noise.iter().sum::<f64>() / noise.len() as f64;
    (peak, (r[peak].re as f64 / mean) as f32)
}

/// A chirp buried in silence and noise is found where it was put.
#[test]
fn recovers_known_lag() {
    let master_len = 4096;
    let true_lag = 1234;
    let donor_len = master_len + 2 * 2048;
    let sample_rate = 16_000u32;

    let mut master = Vec::with_capacity(master_len);
    for i in 0..master_len {
        let t = i as f32 / master_len as f32;
        master.push((2.0 * std::f32::consts::PI * (50.0 + 200.0 * t) * t).sin());
    }

    let mut donor = vec![0.0_f32; donor_len];
    donor[true_lag..true_lag + master_len].copy_from_slice(&master);
    let mut rng = StdRng::seed_from_u64(0xdead_beef);
    for s in donor.iter_mut() {
        *s += rng.gen_range(-0.025_f32..0.025);
    }

    let (lag, confidence) = locate(&master, &donor, sample_rate);
    assert_eq!(lag, true_lag, "lag mismatch (conf {confidence})");
    assert!(confidence > 5.0, "confidence too low: {confidence}");
}

#[test]
fn correlation_geometry() {
    assert_eq!(transform_len(4096, 8192), 16_384);
    assert_eq!(transform_len(4096, 4096), 8192);
    assert_eq!(transform_len(0, 0), 1);
    assert_eq!(peak_index(&vec![3, 9, 2, 9]), 1);
    assert_eq!(guard_range(1000, 5000, 16_000), (680, 1320));
    assert_eq!(guard_range(100, 200, 16_000), (0, 200));
}

#[test]
fn sliding_windows() {
    let p = plan_sliding(160_000, 200_000, 16_000, 3 * S, S, 2 * S).unwrap();
    assert_eq!(p.windows, 8);
    assert_eq!(window_start(&p, 7), 112_000);
    assert_eq!(donor_range(&p, 0, 0), Some((0, 112_000)));
    assert_eq!(donor_range(&p, 4, 16_000), Some((48_000, 160_000)));
    assert_eq!(donor_range(&p, 7, 160_000), None);
    assert!(plan_sliding(40_000, 200_000, 16_000, 3 * S, S, 2 * S).is_none());

    let a = anchor_from_phat(16_000, 8_000, 24_000, 7_000_000);
    assert_eq!(a.offset, 16_000);
    let point = to_anchor_point(&a, 16_000).unwrap();
    assert_eq!(point.master_time_ns, S);
    assert_eq!(point.offset_ns, S);
    let lost = anchor_without_donor(32_000, 5);
    assert_eq!(lost.confidence, 0);
    assert_eq!(lost.offset, 5);
    assert_eq!(next_seed(&vec![a, lost], 1), 16_000);
    assert_eq!(next_seed(&vec![lost], 1), 1);
    let weak = SampleAnchor { master_start: 0, offset: 9, confidence: 5_999_999 };
    assert_eq!(next_seed(&vec![weak], 1), 1);
    assert_eq!(chunk_end(0, 64, 100), 64);
    assert_eq!(chunk_end(64, 64, 100), 100);
}

#[test]
fn a_boundary_without_room_is_done_at_once() {
    let segment = |start: i64, end: i64, offset: i64| Segment {
        master_start_ns: start,
        master_end_ns: end,
        donor_offset_ns: offset,
    };
    let map = OffsetMap {
        segments: vec![segment(5 * S, 5 * S, 0), segment(5 * S, 5 * S, -S)],
        master_duration_ns: 5 * S,
        anchor_count: 2,
        rejected_count: 0,
        suppressed_jumps: 0,
        valid_master_start_ns: 0,
        valid_master_end_ns: 5 * S,
    };
    let st = BoundaryRefiner::start(&map, 0, 2 * S);
    assert!(st.next_request().is_none());
    assert_eq!(st.boundary_idx, 0);
    assert_eq!(st.coarse_boundary_ns, 5 * S);
    assert_eq!(st.chosen_ns, None);
}

#[test]
fn every_boundary_has_one_trace() {
    let segment = |start: i64, end: i64, offset: i64| Segment {
        master_start_ns: start,
        master_end_ns: end,
        donor_offset_ns: offset,
    };
    let mut map = OffsetMap {
        segments: vec![
            segment(0, 20 * S, 0),
            segment(20 * S, 20 * S, S),
            segment(20 * S, 20 * S, 2 * S),
            segment(20 * S, 40 * S, 3 * S),
        ],
        master_duration_ns: 40 * S,
        anchor_count: 4,
        rejected_count: 0,
        suppressed_jumps: 0,
        valid_master_start_ns: 0,
        valid_master_end_ns: 40 * S,
    };
    let mut refiner = MapRefiner::start(&mut map, 2 * S);
    let mut asked = Vec::new();
    while let Some(request) = refiner.next_request(&map) {
        asked.push(refiner.traces.len());
        let found = SweepResult {
            refined_ns: Some(request.lo_ns + S),
            last_a_center_ns: None,
            first_b_center_ns: None,
        };
        refiner.take_result(&mut map, &found);
    }
    // The first boundary moves to 15 s; the second gets its room from that, the
    // third from the second.
    let order: Vec<usize> = refiner.traces.iter().map(|t| t.boundary_idx).collect();
    assert_eq!(order, vec![0, 1, 2]);
    assert_eq!(asked, vec![0, 1, 2]);
    assert_eq!(refiner.traces[0].chosen_ns, Some(15 * S));
    assert_eq!(refiner.traces[1].chosen_ns, Some(16 * S));
    assert_eq!(refiner.traces[2].chosen_ns, Some(17 * S));
    let cuts: Vec<i64> = map.segments.iter().map(|s| s.master_start_ns).collect();
    assert_eq!(cuts, vec![0, 15 * S, 16 * S, 17 * S]);
    assert_eq!(map.segments[0].master_end_ns, 15 * S);
    assert_eq!(map.segments[3].master_end_ns, 40 * S);

    map.segments.truncate(1);
    let alone = MapRefiner::start(&mut map, 2 * S);
    assert!(alone.next_request(&map).is_none());
    assert!(alone.traces.is_empty());
    map.segments.clear();
    assert!(MapRefiner::start(&mut map, 2 * S).traces.is_empty());
}

#[test]
fn a_boundary_without_room_has_a_trace_too() {
    let (_, _, mut map) = fixture(16.0, 8.0, 7.0);
    map.segments[0].master_start_ns = 20 * S;
    map.segments[0].master_end_ns = 20 * S;
    let refiner = MapRefiner::start(&mut map, 0);
    assert!(refiner.next_request(&map).is_none());
    assert_eq!(refiner.traces.len(), 1);
    assert_eq!(refiner.traces[0].boundary_idx, 0);
    assert_eq!(refiner.traces[0].chosen_ns, None);
    assert_eq!(map.segments[0].master_end_ns, 20 * S);
    assert_eq!(map.segments[1].master_start_ns, 7 * S);
}
