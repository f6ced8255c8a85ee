use dubsync::cli::DubCodec;
use dubsync::error::DubsyncError;
use dubsync::ffmpeg::{
    exit_outcome, extract_anchor, extract_dub, extract_subtitle, parse_progress, remux,
    DonorSyncedSub, DubForRemux, RemuxJob,
};
use dubsync::sync::applier::SyncedDub;

fn has_pair(args: &[String], a: &str, b: &str) -> bool {
    args.windows(2).any(|w| w[0] == a && w[1] == b)
}

#[test]
fn extraction_command_lines() {
    let a = extract_anchor("m.mkv", 3, 16_000, "a.wav");
    assert!(has_pair(&a, "-i", "m.mkv"));
    assert!(has_pair(&a, "-map", "0:3"));
    assert!(has_pair(&a, "-ar", "16000"));
    assert!(has_pair(&a, "-ac", "1"));
    assert_eq!(a.last().map(|s| s.as_str()), Some("a.wav"));

    let d = extract_dub("d.mkv", 2, "b.wav");
    assert!(has_pair(&d, "-map", "0:2"));
    assert!(has_pair(&d, "-c:a", "pcm_f32le"));
    assert!(!d.contains(&"-ar".to_string()));

    let s = extract_subtitle("d.mkv", 5, "s.srt");
    assert!(has_pair(&s, "-map", "0:5"));
    assert_eq!(s.last().map(|x| x.as_str()), Some("s.srt"));
}

#[test]
fn failed_runs_carry_their_output() {
    assert!(exit_outcome(true, "noise".to_string()).is_ok());
    match exit_outcome(false, "boom".to_string()) {
        Err(DubsyncError::FfmpegFailed { stderr }) => assert_eq!(stderr, "boom"),
        _ => panic!("expected a failure"),
    }
}

#[test]
fn remux_command_line() {
    let first = SyncedDub { donor_index: 2, wav: "w/synced_dub_2.wav".to_string() };
    let second = SyncedDub { donor_index: 3, wav: "w/synced_dub_3.wav".to_string() };
    let dubs = vec![
        DubForRemux {
            synced: &first,
            language: Some("ita".to_string()),
            title: Some("Doppiaggio".to_string()),
        },
        DubForRemux { synced: &second, language: None, title: None },
    ];
    let bitrates = vec![Some(256), None];
    let subs = vec![DonorSyncedSub {
        srt_path: "w/donor_sub_5_synced.srt".to_string(),
        language: Some("ita".to_string()),
        title: None,
        forced: true,
        default: false,
    }];
    let job = RemuxJob {
        master_file: "m.mkv",
        master_anchor_track: Some(1),
        master_anchor_lang: Some("eng"),
        synced: &dubs,
        output: "out.mkv",
        progress: true,
        dub_codec: DubCodec::Eac3,
        bitrate_per_dub_kbps: &bitrates,
        keep_master_subs: true,
        master_sub_streams: 2,
        donor_synced_subs: &subs,
    };
    let args = remux(&job);
    let expected = [
        "-nostdin -hide_banner -loglevel error -y -progress pipe:1",
        "-i m.mkv -i w/synced_dub_2.wav -i w/synced_dub_3.wav -i w/donor_sub_5_synced.srt",
        "-map 0:v -map 0:1 -map 1:a -map 2:a -map 0:s -map 3:0",
        "-c:v copy -c:a:0 copy -c:a:1 eac3 -b:a:1 256k -c:a:2 eac3",
        "-c:s:0 copy -c:s:1 copy -c:s:2 copy",
        "-metadata:s:a:0 language=eng -disposition:a:0 default",
        "-metadata:s:a:1 language=ita -metadata:s:a:1 title=Doppiaggio -disposition:a:1 0",
        "-metadata:s:a:2 title=dubsync_(track_#3) -disposition:a:2 0",
        "-metadata:s:s:2 language=ita -disposition:s:2 forced",
        "-max_interleave_delta 0 out.mkv",
    ]
    .join(" ");
    let given: Vec<String> = args.iter().map(|a| a.replace(' ', "_")).collect();
    assert_eq!(given.join(" "), expected);

    let solo = RemuxJob { master_anchor_track: None, master_anchor_lang: None, ..job };
    let args = remux(&solo);
    assert!(!has_pair(&args, "-map", "0:1"));
    assert!(has_pair(&args, "-c:a:0", "eac3"));
    assert!(has_pair(&args, "-disposition:a:0", "default"));
    assert!(has_pair(&args, "-disposition:a:1", "0"));
}

#[test]
fn progress_lines_are_read() {
    assert_eq!(parse_progress("out_time_us=5000000", 10_000_000_000), Some(500_000));
    assert_eq!(parse_progress("out_time_us=50000000", 10_000_000_000), Some(1_000_000));
    assert_eq!(parse_progress("progress=end", 10_000_000_000), Some(1_000_000));
    assert_eq!(parse_progress("frame=7", 10_000_000_000), None);
    assert_eq!(parse_progress("out_time_us=N/A", 10_000_000_000), None);
}
