use dubsync::audio::peaks::{detect_onsets, OnsetEvent};
use dubsync::audio::stretch::{
    check_output, fit_length, plan_stretch, plan_stretch_file, stretch_args, stretch_progress,
    temp_names, StretchPlan,
};
use dubsync::audio::vad::{classify_buffer, detect_silence, hop_frames, SilenceInterval, Verdict};
use dubsync::audio::wav::{
    first_channel, mono_decoding, parse_wav_header, probe_frames, read_interleaved_f32, uses_rf64,
    write_f32_with_format, write_interleaved_f32, FormatError, MonoDecoding, SampleFormat, WavError,
    WavInfo, WavSpec,
};
use dubsync::error::DubsyncError;

fn float_spec(channels: u16, sample_rate: u32) -> WavSpec {
    WavSpec { channels, sample_rate, bits_per_sample: 32, sample_format: SampleFormat::Float }
}

fn bits(samples: &[f32]) -> Vec<u32> {
    samples.iter().map(|s| s.to_bits()).collect()
}

/// Level of each hop of a mono signal, in millionths of a decibel.
fn levels(samples: &[f32], rate: u32) -> Vec<i64> {
    samples
        .chunks(hop_frames(rate))
        .map(|hop| {
            let sum: f64 = hop.iter().map(|&s| (s as f64) * (s as f64)).sum();
            let rms = (sum / hop.len() as f64).sqrt();
            (20.0 * rms.max(1e-9).log10() * 1e6).round() as i64
        })
        .collect()
}

fn onsets(samples: &[f32], rate: u32, min_jump_db: f64, refractory_s: f64) -> Vec<OnsetEvent> {
    detect_onsets(
        &levels(samples, rate),
        (min_jump_db * 1e6) as i64,
        (refractory_s * 1e9) as i64,
    )
}

fn silences(samples: &[f32], rate: u32, silence_db: f64, min_s: f64) -> Vec<SilenceInterval> {
    let threshold = 10f64.powf(silence_db / 20.0);
    let flags: Vec<bool> = samples
        .chunks(hop_frames(rate))
        .map(|hop| {
            let sum: f64 = hop.iter().map(|&s| (s as f64) * (s as f64)).sum();
            sum / (hop.len() as f64) < threshold * threshold
        })
        .collect();
    detect_silence(&flags, (min_s * 1e9).round() as i64)
}

fn classify(samples: &[f32], silence_db: f32, speech_db: f32) -> Verdict {
    let sum: f64 = samples.iter().map(|&s| (s as f64) * (s as f64)).sum();
    let rms = (sum / samples.len() as f64).sqrt() as f32;
    let db = 20.0 * rms.max(1e-9).log10();
    let signs: Vec<i8> = samples
        .iter()
        .map(|&s| if s > 0.0 { 1 } else if s < 0.0 { -1 } else { 0 })
        .collect();
    classify_buffer(&signs, db < silence_db, db >= speech_db)
}

fn tone(i: usize, rate: u32) -> f32 {
    let t = i as f32 / rate as f32;
    (2.0 * std::f32::consts::PI * 440.0 * t).sin() * 0.5
}

/// Tone burst on a silent floor: an onset at the start of the burst.
#[test]
fn detects_onset_after_silence() {
    let sr = 16_000u32;
    let total_s = 4.0_f32;
    let burst_start_s = 2.0_f32;
    let n = (total_s * sr as f32) as usize;
    let burst_start = (burst_start_s * sr as f32) as usize;
    let mut samples = vec![0.0_f32; n];
    for (i, s) in samples.iter_mut().enumerate().skip(burst_start) {
        *s = tone(i, sr);
    }
    let onsets = onsets(&samples, sr, 12.0, 0.5);
    assert!(!onsets.is_empty(), "expected at least one onset for tone-after-silence");
    let first = onsets[0];
    let time_s = first.time_ns as f64 / 1e9;
    assert!((time_s - burst_start_s as f64).abs() < 0.1, "onset at {time_s}");
    assert!(first.jump_udb >= 12_000_000, "jump too small: {}", first.jump_udb);
}

/// Two bursts: one onset for each.
#[test]
fn refractory_suppresses_repeat_fires() {
    let sr = 16_000u32;
    let total_s = 6.0_f32;
    let n = (total_s * sr as f32) as usize;
    let mut samples = vec![0.0_f32; n];
    for (i, s) in samples.iter_mut().enumerate() {
        let t = i as f32 / sr as f32;
        let on = (1.0..=1.5).contains(&t) || (4.0..=4.5).contains(&t);
        if on {
            *s = tone(i, sr);
        }
    }
    let onsets = onsets(&samples, sr, 12.0, 0.5);
    assert_eq!(onsets.len(), 2, "expected exactly two onsets, got {:?}", onsets);
}

#[test]
fn onsets_at_the_noise_floor_do_not_count() {
    let quiet: Vec<i64> = vec![-120_000_000, -60_000_000, -120_000_000];
    assert!(detect_onsets(&quiet, 12_000_000, 40_000_000).is_empty());
    let loud: Vec<i64> = vec![-120_000_000, -59_999_999, -120_000_000];
    let found = detect_onsets(&loud, 12_000_000, 40_000_000);
    assert_eq!(found.len(), 1);
    assert_eq!(found[0].time_ns, 20_000_000);
    assert_eq!(found[0].rms_udb, -59_999_999);
    assert_eq!(found[0].jump_udb, 60_000_001);
}

/// The stretched signal has the planned length, and its energy is that of the
/// source, once both have gone through files: here each source frame is held
/// for half as long again.
#[test]
fn stretch_preserves_length_and_energy() {
    let sr = 16_000u32;
    let in_dur_s = 1.0_f64;
    let out_dur_s = 1.5_f64;
    let n = (in_dur_s * sr as f64) as usize;
    let samples: Vec<f32> = (0..n).map(|i| tone(i, sr)).collect();
    let target_frames = match plan_stretch(n, 1, sr, (out_dur_s * 1e9) as i64) {
        Ok(StretchPlan::Run { target_frames }) => target_frames as usize,
        _ => panic!("stretch should succeed"),
    };
    assert_eq!(target_frames, (out_dur_s * sr as f64).round() as usize);

    let spec = float_spec(1, sr);
    let source = read_interleaved_f32(&write_interleaved_f32(&bits(&samples), &spec)).unwrap();
    assert_eq!(source.frames(), n);
    // A stretcher may return a few frames too many.
    let held: Vec<u32> = (0..target_frames + 7)
        .map(|i| source.samples[(i * 2 / 3).min(source.frames() - 1)])
        .collect();
    let stretched = read_interleaved_f32(&write_interleaved_f32(&held, &spec)).unwrap();
    assert!(check_output(1, sr, stretched.spec.channels, stretched.sample_rate()).is_ok());
    let mut out = stretched.samples;
    fit_length(&mut out, target_frames);
    assert_eq!(out.len(), target_frames, "output length must match target");

    let in_energy: f32 = samples.iter().map(|s| s * s).sum::<f32>() / samples.len() as f32;
    let out_energy: f32 =
        out.iter().map(|b| f32::from_bits(*b)).map(|s| s * s).sum::<f32>() / out.len() as f32;
    let ratio = out_energy / in_energy.max(1e-9);
    assert!((0.5..=1.5).contains(&ratio), "energy ratio out/in = {ratio} outside [0.5, 1.5]");
}

#[test]
fn rejects_extreme_stretch_ratios() {
    let sr = 16_000u32;
    let res = plan_stretch(sr as usize, 1, sr, 5_000_000_000);
    assert!(matches!(res, Err(DubsyncError::RubberbandFailed { .. })));
}

#[test]
fn stretch_ratio_limits() {
    let sr = 16_000u32;
    let n = sr as usize;
    assert!(matches!(plan_stretch(0, 1, sr, 1_000_000_000), Ok(StretchPlan::Empty)));
    assert!(plan_stretch(n, 1, sr, 3_000_000_000).is_ok());
    assert!(plan_stretch(n, 1, sr, 3_000_000_001).is_err());
    assert!(plan_stretch(n, 1, sr, 333_333_334).is_ok());
    assert!(plan_stretch(n, 1, sr, 333_333_333).is_err());
    assert!(plan_stretch_file(
        &WavInfo { frames: 16_000, sample_rate: sr, channels: 1 },
        5_000_000_000
    )
    .is_err());
    match plan_stretch(n, 1, 0, 1_500_000_000) {
        Err(DubsyncError::RubberbandFailed { stderr }) => assert_eq!(
            stderr,
            "stretch ratio 0.000 outside acceptable range [0.333, 3.000] \
             (input infs → target 1.500s)"
        ),
        _ => panic!("a rate of zero has no duration"),
    }
    assert!(check_output(2, 48_000, 1, 48_000).is_err());
    assert!(check_output(2, 48_000, 2, 44_100).is_err());
}

#[test]
fn short_stretches_are_padded() {
    let mut v = vec![1u32, 2];
    fit_length(&mut v, 4);
    assert_eq!(v, vec![1, 2, 0, 0]);
    fit_length(&mut v, 1);
    assert_eq!(v, vec![1]);
}

#[test]
fn stretcher_command_line() {
    let args = stretch_args(1_500_000_000, None, "in.wav", "out.wav");
    assert_eq!(args[args.len() - 2], "in.wav");
    assert_eq!(args[args.len() - 1], "out.wav");
    assert!(args.iter().any(|a| a.contains("1.5")));
    let pitched = stretch_args(1_500_000_000, Some("-0.707"), "in.wav", "out.wav");
    assert!(pitched.iter().any(|a| a.contains("-0.707")));
    let (a, b) = temp_names(7, 42);
    assert_ne!(a, b);
    assert!(a.contains('7') && a.contains("42"));
    assert_eq!(stretch_progress(43, 1044), None);
    assert_eq!(stretch_progress(544, 1044), Some(500_000));
    assert_eq!(stretch_progress(1044, 1044), Some(990_000));
    assert_eq!(stretch_progress(50, 44), None);
}

fn make_tone_then_silence_then_tone(sr: u32) -> Vec<f32> {
    let total_s = 6.0_f32;
    let frames = (total_s * sr as f32) as usize;
    (0..frames)
        .map(|i| {
            let t = i as f32 / sr as f32;
            let env = if t < 2.0 { 1.0 } else if t < 4.0 { 0.0 } else { 1.0 };
            tone(i, sr) * env
        })
        .collect()
}

#[test]
fn finds_middle_silence() {
    let pcm = make_tone_then_silence_then_tone(16_000);
    let silences = silences(&pcm, 16_000, -45.0, 0.2);
    assert_eq!(silences.len(), 1, "expected one silence interval");
    let (start_s, end_s) = (silences[0].start_ns as f64 / 1e9, silences[0].end_ns as f64 / 1e9);
    assert!(start_s > 1.9 && start_s < 2.2, "start was {start_s}");
    assert!(end_s > 3.9 && end_s < 4.1, "end was {end_s}");
}

#[test]
fn short_silences_are_dropped() {
    let flags = vec![true, false, true, true, true, false, true];
    let found = detect_silence(&flags, 40_000_000);
    assert_eq!(found.len(), 1);
    assert_eq!(found[0].start_ns, 40_000_000);
    assert_eq!(found[0].end_ns, 100_000_000);
    // The last run is closed at the end.
    let all = detect_silence(&flags, 20_000_000);
    assert_eq!(all.len(), 3);
    assert_eq!(all[2].end_ns, 140_000_000);
}

#[test]
fn classify_buffer_silence_speech_ambient() {
    let sr = 48_000u32;
    let n = (sr as usize) / 2;

    let silent: Vec<f32> = vec![0.0; n];
    assert_eq!(classify(&silent, -45.0, -25.0), Verdict::Silent);

    // A 200 Hz sine at -15 dBFS: loud, with few zero crossings.
    let amp = 10f32.powf(-15.0 / 20.0);
    let speechy: Vec<f32> = (0..n)
        .map(|i| (2.0 * std::f32::consts::PI * 200.0 * i as f32 / sr as f32).sin() * amp)
        .collect();
    assert_eq!(classify(&speechy, -45.0, -25.0), Verdict::Speech);

    // White noise at -30 dBFS.
    let mut state: u64 = 0xdead_beef;
    let amp_n = 10f32.powf(-30.0 / 20.0);
    let noise: Vec<f32> = (0..n)
        .map(|_| {
            state = state.wrapping_mul(6364136223846793005).wrapping_add(1);
            ((state >> 33) as f32 / u32::MAX as f32 - 0.5) * 2.0 * amp_n
        })
        .collect();
    assert_eq!(classify(&noise, -45.0, -25.0), Verdict::Ambient);
}

#[test]
fn loud_noise_is_no_speech() {
    // Fifteen crossings in a hundred frames are too many for speech.
    let mut signs = vec![1i8; 100];
    for k in 0..8 {
        signs[k * 4] = -1;
    }
    assert_eq!(classify_buffer(&signs, false, true), Verdict::Ambient);
    assert_eq!(classify_buffer(&vec![1i8; 100], false, true), Verdict::Speech);
    assert_eq!(classify_buffer(&vec![1i8; 100], false, false), Verdict::Ambient);
    assert_eq!(classify_buffer(&Vec::new(), false, true), Verdict::Silent);
}

/// Where the size of the data chunk stands.
fn data_size_field_offset(bytes: &[u8]) -> usize {
    let data = bytes.windows(4).position(|w| w == b"data").expect("data chunk present");
    data + 4
}

/// A size of 0xFFFFFFFF stands for a payload that overflows 32 bits: the length
/// of the file counts.
#[test]
fn reads_past_overflow_placeholder_data_size() {
    let spec = float_spec(2, 48_000);
    let samples: Vec<f32> = (0..2000).map(|i| (i as f32) * 1e-4).collect();
    let mut bytes = write_interleaved_f32(&bits(&samples), &spec);
    let off = data_size_field_offset(&bytes);
    bytes[off..off + 4].copy_from_slice(&0xFFFF_FFFFu32.to_le_bytes());

    let pcm = match read_interleaved_f32(&bytes) {
        Ok(p) => p,
        Err(_) => panic!("readable"),
    };
    assert_eq!(pcm.channels(), 2);
    assert_eq!(pcm.sample_rate(), 48_000);
    assert_eq!(pcm.frames(), 1000);
    assert_eq!(pcm.samples.len(), 2000);
    assert!((f32::from_bits(pcm.samples[1999]) - 1999.0 * 1e-4).abs() < 1e-9);

    let info = probe_frames(&bytes).unwrap();
    assert_eq!(info.frames, 1000);
    assert_eq!(info.channels, 2);
}

/// A file cut off inside a frame gives every complete frame.
#[test]
fn truncated_file_floors_to_whole_frame() {
    let spec = float_spec(2, 48_000);
    let samples: Vec<f32> = (0..2000).map(|i| i as f32).collect();
    let mut bytes = write_interleaved_f32(&bits(&samples), &spec);
    let off = data_size_field_offset(&bytes);
    bytes[off..off + 4].copy_from_slice(&0xFFFF_FFFFu32.to_le_bytes());
    bytes.truncate(bytes.len() - 5);

    let pcm = match read_interleaved_f32(&bytes) {
        Ok(p) => p,
        Err(_) => panic!("readable"),
    };
    assert_eq!(pcm.frames(), 999);
    assert_eq!(pcm.samples.len(), 1998);
}

#[test]
fn rf64_round_trips_through_reader() {
    let spec = float_spec(6, 48_000);
    let samples: Vec<f32> = (0..600).map(|i| (i as f32) * 1e-3).collect();
    let bytes = write_f32_with_format(&bits(&samples), &spec, true);
    assert_eq!(&bytes[0..4], b"RF64");
    assert!(bytes.windows(4).any(|w| w == b"ds64"));

    let pcm = match read_interleaved_f32(&bytes) {
        Ok(p) => p,
        Err(_) => panic!("readable"),
    };
    assert_eq!(pcm.channels(), 6);
    assert_eq!(pcm.frames(), 100);
    assert_eq!(pcm.samples.len(), 600);
    assert!((f32::from_bits(pcm.samples[599]) - 599.0 * 1e-3).abs() < 1e-6);

    let info = probe_frames(&bytes).unwrap();
    assert_eq!(info.frames, 100);
    assert_eq!(info.channels, 6);
}

#[test]
fn reads_well_formed_file() {
    let spec = float_spec(1, 16_000);
    let samples: Vec<f32> = (0..500).map(|i| (i as f32) * 0.001).collect();
    let bytes = write_interleaved_f32(&bits(&samples), &spec);

    let pcm = match read_interleaved_f32(&bytes) {
        Ok(p) => p,
        Err(_) => panic!("readable"),
    };
    assert_eq!(pcm.channels(), 1);
    assert_eq!(pcm.frames(), 500);
    assert!((f32::from_bits(pcm.samples[499]) - 0.499).abs() < 1e-9);
}

#[test]
fn written_samples_come_back_bit_for_bit() {
    let odd = vec![0u32, 1, 0x7FC0_0001, 0xFF80_0000, 0x8000_0000, u32::MAX];
    for rf64 in [false, true] {
        let bytes = write_f32_with_format(&odd, &float_spec(2, 44_100), rf64);
        match read_interleaved_f32(&bytes) {
            Ok(p) => assert_eq!(p.samples, odd),
            Err(_) => panic!("readable"),
        }
    }
}

#[test]
fn large_files_are_written_as_rf64() {
    assert!(!uses_rf64(1_000_000));
    assert!(!uses_rf64((0xFFFF_FFFF - 128) / 4));
    assert!(uses_rf64((0xFFFF_FFFF - 128) / 4 + 1));
}

fn header_error(bytes: &[u8]) -> WavError {
    match parse_wav_header(&bytes.to_vec()) {
        Err(e) => e,
        Ok(_) => panic!("expected an error"),
    }
}

#[test]
fn malformed_headers_are_told_apart() {
    let good = write_interleaved_f32(&vec![0; 4], &float_spec(1, 8_000));
    assert!(parse_wav_header(&good).is_ok());
    assert!(matches!(header_error(b"RIF"), WavError::UnexpectedEof));

    let mut bad = good.clone();
    bad[0] = b'X';
    assert!(matches!(header_error(&bad), WavError::Format(FormatError::NotRiff)));

    let mut bad = good.clone();
    bad[8] = b'X';
    assert!(matches!(header_error(&bad), WavError::Format(FormatError::MissingWave)));

    let mut bad = good.clone();
    let fmt = bad.windows(4).position(|w| w == b"fmt ").unwrap();
    bad[fmt + 4] = 8;
    assert!(matches!(header_error(&bad), WavError::Format(FormatError::FmtTooSmall)));

    let mut bad = good.clone();
    bad[fmt] = b'x';
    assert!(matches!(header_error(&bad), WavError::Format(FormatError::MissingFmt)));

    let mut bad = good.clone();
    bad[fmt + 10] = 0;
    assert!(matches!(header_error(&bad), WavError::Format(FormatError::ZeroChannels)));

    let mut bad = good.clone();
    bad[fmt + 22] = 7;
    assert!(matches!(header_error(&bad), WavError::Format(FormatError::BitDepth)));

    let mut bad = good.clone();
    let data = data_size_field_offset(&bad) - 4;
    bad[data] = b'x';
    assert!(matches!(header_error(&bad), WavError::Format(FormatError::MissingData)));

    let mut ints = good.clone();
    ints[fmt + 8] = 1;
    match read_interleaved_f32(&ints) {
        Err(WavError::Unsupported) => {}
        _ => panic!("integers are not decoded here"),
    }
    assert_eq!(FormatError::MissingData.message(), "missing data chunk");
}

#[test]
fn mono_reading_takes_the_first_channel() {
    assert_eq!(first_channel(&vec![1, 2, 3, 4, 5], 2), vec![1, 3]);
    assert!(matches!(mono_decoding(&float_spec(2, 8_000)), Ok(MonoDecoding::Float)));
    let int = WavSpec { sample_format: SampleFormat::Int, bits_per_sample: 16, ..float_spec(1, 8_000) };
    assert!(matches!(mono_decoding(&int), Ok(MonoDecoding::Int { bits: 16 })));
    let double = WavSpec { bits_per_sample: 64, ..float_spec(1, 8_000) };
    assert!(mono_decoding(&double).is_err());
}
