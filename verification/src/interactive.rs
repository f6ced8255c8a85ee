//! The interactive set-up: what the prompts offer, how answers are read, and
//! the command line that repeats a run.
use vstd::prelude::*;
use crate::args;
use crate::args::push_arg;
use crate::cli::{Cli, DubCodec, FpsMode, RunConfig};
use crate::error;
use crate::error::DubsyncError;
use crate::ffprobe::{same_text, AudioStream, SubtitleStream};
use crate::ffprobe;
use crate::fixed;
use crate::number;
use crate::text;
use crate::time;

verus! {

/// A text without the white space around it.
pub fn trimmed(raw: &str) -> (r: String)
    ensures
        r@ == text::trim(raw@),
{
    let t = text::trim_chars(&text::chars_of(raw));
    let r = text::string_of(&t, 0, t.len());
    assert(r@ =~= t@);
    r
}

/// What is wrong with an answer that should be the path of a file; `exists`
/// says whether there is one at the trimmed path.
pub fn path_problem(raw: &str, exists: bool) -> (r: Option<&'static str>)
    ensures
        args::opt_str_view(r) == (if text::is_blank(raw@) {
            Some("path is required"@)
        } else if !exists {
            Some("file does not exist"@)
        } else {
            None
        }),
{
    if text::chars_blank(&text::chars_of(raw)) {
        Some("path is required")
    } else if !exists {
        Some("file does not exist")
    } else {
        None
    }
}

/// What is wrong with a choice of dubs.
pub fn dubs_problem(chosen: usize) -> (r: Option<&'static str>)
    ensures
        args::opt_str_view(r) == (if chosen == 0 {
            Some("pick at least one dub"@)
        } else {
            None
        }),
{
    if chosen == 0 {
        Some("pick at least one dub")
    } else {
        None
    }
}

/// The places of the first `n` streams that are not the anchor.
pub open spec fn other_streams(indices: Seq<u32>, anchor: u32, n: int) -> Seq<usize>
    decreases n,
{
    if n <= 0 {
        Seq::empty()
    } else if indices[n - 1] != anchor {
        other_streams(indices, anchor, n - 1).push((n - 1) as usize)
    } else {
        other_streams(indices, anchor, n - 1)
    }
}

/// The streams that can be chosen as dubs: all but the anchor. Without any, the
/// donor has nothing to offer.
pub fn dub_options(donor_file: &str, streams: &Vec<AudioStream>, anchor: u32) -> (r: Result<
    Vec<usize>,
    DubsyncError,
>)
    ensures
        ({
            let others = other_streams(ffprobe::indices(streams@), anchor, streams@.len() as int);
            match r {
                Ok(v) => v@ == others && others.len() > 0,
                Err(e) => {
                    &&& others.len() == 0
                    &&& e matches DubsyncError::NoAudioStreams(p)
                    &&& p@ == donor_file@
                },
            }
        }),
{
    let mut r: Vec<usize> = Vec::new();
    let mut i: usize = 0;
    while i < streams.len()
        invariant
            i <= streams@.len(),
            r@ == other_streams(ffprobe::indices(streams@), anchor, i as int),
        decreases streams@.len() - i,
    {
        if streams[i].index != anchor {
            r.push(i);
        }
        i += 1;
    }
    if r.len() == 0 {
        Err(DubsyncError::NoAudioStreams(String::from_str(donor_file)))
    } else {
        Ok(r)
    }
}

/// The places of the first `n` subtitle streams that hold text.
pub open spec fn text_streams(streams: Seq<SubtitleStream>, n: int) -> Seq<usize>
    decreases n,
{
    if n <= 0 {
        Seq::empty()
    } else if !ffprobe::image_codec(streams[n - 1].codec_name@) {
        text_streams(streams, n - 1).push((n - 1) as usize)
    } else {
        text_streams(streams, n - 1)
    }
}

/// The subtitle streams that can be chosen: those that hold text.
pub fn pickable_subs(streams: &Vec<SubtitleStream>) -> (r: Vec<usize>)
    ensures
        r@ == text_streams(streams@, streams@.len() as int),
{
    let mut r: Vec<usize> = Vec::new();
    let mut i: usize = 0;
    while i < streams.len()
        invariant
            i <= streams@.len(),
            r@ == text_streams(streams@, i as int),
        decreases streams@.len() - i,
    {
        if !streams[i].is_image_based() {
            r.push(i);
        }
        i += 1;
    }
    r
}

/// `{stem}.synced.mkv`
pub open spec fn synced_name(stem: Option<Seq<char>>) -> Seq<char> {
    (match stem {
        Some(s) => s,
        None => "output"@,
    }) + ".synced.mkv"@
}

/// The name of the output, next to the master, that is offered: `stem` is the
/// master's name without its extension.
pub fn default_output_path(stem: Option<&str>) -> (r: String)
    ensures
        r@ == synced_name(args::opt_str_view(stem)),
{
    match stem {
        Some(s) => args::joined(s, ".synced.mkv"),
        None => args::joined("output", ".synced.mkv"),
    }
}

/// The configuration in lines.
pub open spec fn config_text(cfg: RunConfig) -> Seq<char> {
    "\n=== dubsync run config ===\nmaster:        "@ + cfg.master_file@ + "\ndonor:         "@
        + cfg.donor_file@ + "\nmaster anchor: #"@ + text::decimal(cfg.master_anchor_track as nat)
        + "\ndonor anchor:  #"@ + text::decimal(cfg.donor_anchor_track as nat)
        + "\ndub tracks:    ["@ + error::comma_list(cfg.donor_dub_tracks@) + "]\noutput:        "@
        + cfg.output_file@ + "\n==========================\n\n"@
}

/// What is shown of the configuration before a run.
pub fn summary_text(cfg: &RunConfig) -> (r: String)
    ensures
        r@ == config_text(*cfg),
{
    let mut r = String::from_str("\n=== dubsync run config ===\nmaster:        ");
    r.append(cfg.master_file.as_str());
    r.append("\ndonor:         ");
    r.append(cfg.donor_file.as_str());
    r.append("\nmaster anchor: #");
    text::push_decimal(&mut r, cfg.master_anchor_track as u64);
    r.append("\ndonor anchor:  #");
    text::push_decimal(&mut r, cfg.donor_anchor_track as u64);
    r.append("\ndub tracks:    [");
    error::push_comma_list(&mut r, &cfg.donor_dub_tracks);
    r.append("]\noutput:        ");
    r.append(cfg.output_file.as_str());
    r.append("\n==========================\n\n");
    r
}

/// The result of `char::is_alphanumeric`.
pub uninterp spec fn alphanumeric(c: char) -> bool;

/// `char::is_alphanumeric`: a letter or a number by Unicode's properties. Of
/// ASCII characters, these are the letters and the digits.
#[verifier::external_body]
fn is_alphanumeric(c: char) -> (r: bool)
    ensures
        r == alphanumeric(c),
        (c as u32) < 128 ==> r == (('0' <= c && c <= '9') || ('a' <= c && c <= 'z') || ('A' <= c
            && c <= 'Z')),
{
    c.is_alphanumeric()
}

/// The other characters that need no quotes.
pub open spec fn plain_mark(c: char) -> bool {
    c == '/' || c == '_' || c == '-' || c == '.' || c == '+' || c == ',' || c == '~' || c == '='
        || c == ':'
}

/// A text that a shell takes as it is.
pub open spec fn is_safe(s: Seq<char>) -> bool {
    s.len() > 0 && forall|i: int|
        0 <= i < s.len() ==> safe_char(#[trigger] s[i])
}

/// What stands between single quotes: a single quote closes them, is escaped,
/// and opens them again.
pub open spec fn between_quotes(s: Seq<char>) -> Seq<char>
    decreases s.len(),
{
    if s.len() == 0 {
        Seq::empty()
    } else if s[0] == '\'' {
        seq!['\'', '\\', '\'', '\''] + between_quotes(s.skip(1))
    } else {
        seq![s[0]] + between_quotes(s.skip(1))
    }
}

/// A text as a word of a shell command.
pub open spec fn quoted(s: Seq<char>) -> Seq<char> {
    if is_safe(s) {
        s
    } else {
        seq!['\''] + between_quotes(s) + seq!['\'']
    }
}

/// A character that stands for itself outside quotes.
pub open spec fn safe_char(c: char) -> bool {
    alphanumeric(c) || plain_mark(c)
}

/// What a shell reads a word as, inside or outside single quotes: `None` if a
/// quote stays open, an escape has nothing behind it, or a character that a
/// shell may take for more than itself stands outside quotes.
pub open spec fn shell_word(t: Seq<char>, in_quotes: bool) -> Option<Seq<char>>
    decreases t.len(),
{
    if t.len() == 0 {
        if in_quotes {
            None
        } else {
            Some(Seq::empty())
        }
    } else if t[0] == '\'' {
        shell_word(t.skip(1), !in_quotes)
    } else if !in_quotes && t[0] == '\\' {
        if t.len() < 2 {
            None
        } else {
            match shell_word(t.skip(2), false) {
                Some(rest) => Some(seq![t[1]] + rest),
                None => None,
            }
        }
    } else if !in_quotes && !safe_char(t[0]) {
        None
    } else {
        match shell_word(t.skip(1), in_quotes) {
            Some(rest) => Some(seq![t[0]] + rest),
            None => None,
        }
    }
}

/// What a shell reads a whole argument as; a tilde at its start stands for a
/// home directory, so there is no telling.
pub open spec fn shell_argument(t: Seq<char>) -> Option<Seq<char>> {
    if t.len() > 0 && t[0] == '~' {
        None
    } else {
        shell_word(t, false)
    }
}

proof fn lemma_between_quotes(s: Seq<char>)
    ensures
        shell_word(between_quotes(s) + seq!['\''], true) == Some(s),
    decreases s.len(),
{
    let end = seq!['\''];
    if s.len() == 0 {
        let t = between_quotes(s) + end;
        assert(t =~= end);
        assert(t.skip(1) =~= Seq::empty());
        assert(shell_word(t.skip(1), false) == Some(Seq::<char>::empty()));
        assert(s =~= Seq::empty());
    } else {
        let rest = s.skip(1);
        lemma_between_quotes(rest);
        let tail = between_quotes(rest) + end;
        let t = between_quotes(s) + end;
        if s[0] == '\'' {
            assert(t =~= seq!['\'', '\\', '\'', '\''] + tail);
            let t1 = t.skip(1);
            assert(t1 =~= seq!['\\', '\'', '\''] + tail);
            let t2 = t1.skip(2);
            assert(t2 =~= seq!['\''] + tail);
            assert(t2.skip(1) =~= tail);
            assert(shell_word(t2, false) == Some(rest));
            assert(t1[0] == '\\' && t1[1] == '\'');
            assert(shell_word(t1, false) == Some(seq!['\''] + rest));
            assert(t[0] == '\'');
            assert(shell_word(t, true) == shell_word(t1, false));
        } else {
            assert(t =~= seq![s[0]] + tail);
            assert(t.skip(1) =~= tail);
            assert(t[0] == s[0]);
            assert(shell_word(t, true) == Some(seq![s[0]] + rest));
        }
        assert(seq![s[0]] + rest =~= s);
    }
}

proof fn lemma_bare_word(s: Seq<char>)
    requires
        forall|i: int|
            0 <= i < s.len() ==> safe_char(#[trigger] s[i]) && s[i] != '\'' && s[i] != '\\',
    ensures
        shell_word(s, false) == Some(s),
    decreases s.len(),
{
    if s.len() == 0 {
        assert(s =~= Seq::empty());
    } else {
        let rest = s.skip(1);
        assert forall|i: int| 0 <= i < rest.len() implies safe_char(#[trigger] rest[i]) && rest[i]
            != '\'' && rest[i] != '\\' by {
            assert(rest[i] == s[i + 1]);
        }
        lemma_bare_word(rest);
        assert(seq![s[0]] + rest =~= s);
    }
}

proof fn lemma_quoted_word(s: Seq<char>)
    requires
        is_safe(s) ==> forall|i: int|
            0 <= i < s.len() ==> #[trigger] s[i] != '\'' && s[i] != '\\',
    ensures
        is_safe(s) && s[0] == '~' || shell_argument(quoted(s)) == Some(s),
{
    if is_safe(s) {
        lemma_bare_word(s);
    } else {
        let q = quoted(s);
        let tail = between_quotes(s) + seq!['\''];
        assert(q =~= seq!['\''] + tail);
        assert(q.skip(1) =~= tail);
        lemma_between_quotes(s);
    }
}

/// Quotes a text for a POSIX shell where that is needed. A shell reads it back
/// as it was, unless it starts with a tilde and is left without quotes.
pub fn shell_quote(s: &str) -> (r: String)
    ensures
        r@ == quoted(s@),
        is_safe(s@) && s@[0] == '~' || shell_argument(r@) == Some(s@),
{
    let chars = text::chars_of(s);
    let mut safe = chars.len() > 0;
    let mut i: usize = 0;
    while i < chars.len()
        invariant
            i <= chars@.len(),
            safe == (chars@.len() > 0 && forall|k: int|
                0 <= k < i ==> safe_char(#[trigger] chars@[k])),
            safe ==> forall|k: int|
                0 <= k < i ==> #[trigger] chars@[k] != '\'' && chars@[k] != '\\',
        decreases chars@.len() - i,
    {
        let c = chars[i];
        let mark = c == '/' || c == '_' || c == '-' || c == '.' || c == '+' || c == ',' || c == '~'
            || c == '=' || c == ':';
        let alnum = is_alphanumeric(c);
        if !alnum && !mark {
            safe = false;
        }
        i += 1;
    }
    proof {
        lemma_quoted_word(s@);
    }
    if safe {
        return String::from_str(s);
    }
    let mut r = String::new();
    r.push('\'');
    let ghost whole = seq!['\''] + between_quotes(s@);
    let mut i: usize = 0;
    assert(s@.skip(0) =~= s@);
    while i < chars.len()
        invariant
            i <= chars@.len(),
            chars@ == s@,
            whole == r@ + between_quotes(s@.skip(i as int)),
        decreases chars@.len() - i,
    {
        let ghost before = r@;
        let c = chars[i];
        assert(s@.skip(i as int)[0] == c);
        assert(s@.skip(i as int).skip(1) =~= s@.skip(i + 1));
        if c == '\'' {
            r.push('\'');
            r.push('\\');
            r.push('\'');
            r.push('\'');
        } else {
            r.push(c);
        }
        i += 1;
        assert(whole =~= r@ + between_quotes(s@.skip(i as int)));
    }
    assert(s@.skip(i as int) =~= Seq::empty());
    assert(r@ =~= whole);
    r.push('\'');
    r
}

/// `1,2,3`
pub open spec fn short_list(v: Seq<u32>) -> Seq<char>
    decreases v.len(),
{
    if v.len() == 0 {
        Seq::empty()
    } else if v.len() == 1 {
        text::decimal(v[0] as nat)
    } else {
        short_list(v.drop_last()) + ","@ + text::decimal(v.last() as nat)
    }
}

fn short_list_text(v: &Vec<u32>) -> (r: String)
    ensures
        r@ == short_list(v@),
{
    let mut r = String::new();
    let mut i: usize = 0;
    while i < v.len()
        invariant
            i <= v@.len(),
            r@ == short_list(v@.take(i as int)),
        decreases v@.len() - i,
    {
        if i > 0 {
            r.append(",");
        }
        text::push_decimal(&mut r, v[i] as u64);
        i += 1;
        assert(v@.take(i as int).drop_last() =~= v@.take(i - 1));
        assert(r@ =~= short_list(v@.take(i as int)));
    }
    assert(v@.take(i as int) =~= v@);
    r
}

/// Parts of a text with the same in between.
pub open spec fn join(parts: Seq<Seq<char>>, between: Seq<char>) -> Seq<char>
    decreases parts.len(),
{
    if parts.len() == 0 {
        Seq::empty()
    } else if parts.len() == 1 {
        parts[0]
    } else {
        join(parts.drop_last(), between) + between + parts.last()
    }
}

fn join_texts(parts: &Vec<String>, between: &str) -> (r: String)
    ensures
        r@ == join(args::views(parts@), between@),
{
    let ghost all = args::views(parts@);
    let mut r = String::new();
    let mut i: usize = 0;
    while i < parts.len()
        invariant
            i <= parts@.len(),
            all == args::views(parts@),
            r@ == join(all.take(i as int), between@),
        decreases parts@.len() - i,
    {
        if i > 0 {
            r.append(between);
        }
        r.append(parts[i].as_str());
        i += 1;
        assert(all.take(i as int).drop_last() =~= all.take(i - 1));
        assert(r@ =~= join(all.take(i as int), between@));
    }
    assert(all.take(i as int) =~= all);
    r
}

/// A part that stands there only if it is needed.
pub open spec fn part(needed: bool, text: Seq<char>) -> Seq<Seq<char>> {
    if needed {
        seq![text]
    } else {
        Seq::empty()
    }
}

/// A flag with a value that is there only if it was given.
pub open spec fn quoted_part(flag: Seq<char>, value: Option<Seq<char>>) -> Seq<Seq<char>> {
    match value {
        Some(v) => seq![flag + quoted(v)],
        None => Seq::empty(),
    }
}

pub open spec fn number_part(flag: Seq<char>, value: Option<nat>) -> Seq<Seq<char>> {
    match value {
        Some(v) => seq![flag + text::decimal(v)],
        None => Seq::empty(),
    }
}

/// What every command line has: the program, the files and the tracks.
pub open spec fn fixed_parts(cfg: RunConfig, program: Seq<char>) -> Seq<Seq<char>> {
    seq![
        quoted(program),
        "--master-file "@ + quoted(cfg.master_file@),
        "--donor-file "@ + quoted(cfg.donor_file@),
        "--master-anchor-track "@ + text::decimal(cfg.master_anchor_track as nat),
        "--donor-anchor-track "@ + text::decimal(cfg.donor_anchor_track as nat),
        "--donor-dub-tracks "@ + short_list(cfg.donor_dub_tracks@),
        "--output-file "@ + quoted(cfg.output_file@),
    ]
}

/// A level in decibels, with as many places as it takes.
pub open spec fn level(udb: i64) -> Seq<char> {
    fixed::plain(udb as int, 1_000_000, 6)
}

pub open spec fn truth(b: bool) -> Seq<char> {
    if b {
        "true"@
    } else {
        "false"@
    }
}

fn truth_word(b: bool) -> (r: &'static str)
    ensures
        r@ == truth(b),
{
    if b {
        "true"
    } else {
        "false"
    }
}

/// The options about how the run is done, where they are not the defaults.
pub open spec fn run_parts(cfg: RunConfig) -> Seq<Seq<char>> {
    part(cfg.keep_temp, "--keep-temp"@) + part(
        cfg.include_donor_anchor,
        "--include-donor-anchor"@,
    ) + part(cfg.solo_dub, "--solo-dub"@) + quoted_part(
        "--temp-dir "@,
        args::opt_view(cfg.temp_dir),
    ) + number_part(
        "--threads "@,
        match cfg.threads {
            Some(n) => Some(n as nat),
            None => None,
        },
    )
}

/// The options about levels and times, where they are not the defaults.
pub open spec fn tuning_parts(cfg: RunConfig) -> Seq<Seq<char>> {
    part(cfg.silence_udb != -45_000_000, "--silence-db "@ + level(cfg.silence_udb)) + part(
        cfg.silence_min_ms != 200,
        "--silence-min-ms "@ + text::decimal(cfg.silence_min_ms as nat),
    ) + part(
        cfg.anchor_rate != 16_000,
        "--anchor-rate "@ + text::decimal(cfg.anchor_rate as nat),
    ) + part(
        cfg.correlation_window_ns != 30_000_000_000,
        "--correlation-window-s "@ + fixed::seconds(cfg.correlation_window_ns as int),
    ) + part(
        cfg.max_drift_ns != 60_000_000_000,
        "--max-drift-s "@ + fixed::seconds(cfg.max_drift_ns as int),
    ) + part(
        cfg.max_segment_jump_ns != 10_000_000_000,
        "--max-segment-jump-s "@ + fixed::seconds(cfg.max_segment_jump_ns as int),
    ) + part(
        cfg.snap_radius_ns != 30_000_000_000,
        "--snap-radius-s "@ + fixed::seconds(cfg.snap_radius_ns as int),
    )
}

/// The options about splices and pitch, where they are not the defaults.
pub open spec fn splice_parts(cfg: RunConfig) -> Seq<Seq<char>> {
    part(
        cfg.crossfade_ms != 10,
        "--crossfade-ms "@ + text::decimal(cfg.crossfade_ms as nat),
    ) + part(cfg.smooth_gaps, "--smooth-gaps "@ + truth(cfg.smooth_gaps)) + part(
        cfg.gap_fill_margin_ns != 500_000_000,
        "--gap-fill-margin-s "@ + fixed::seconds(cfg.gap_fill_margin_ns as int),
    ) + part(cfg.speech_udb != -25_000_000, "--speech-db "@ + level(cfg.speech_udb)) + part(
        cfg.pal_pitch_correction,
        "--pal-pitch-correction "@ + truth(cfg.pal_pitch_correction),
    ) + part(cfg.anchor_only_validation, "--anchor-only-validation"@)
}

/// The option about frame rates, where it is not the default.
pub open spec fn fps_part(mode: FpsMode) -> Seq<Seq<char>> {
    match mode {
        FpsMode::Disabled => seq!["--disable-fps-normalize"@],
        FpsMode::Forced(r) => seq![
            "--force-fps-ratio "@ + fixed::plain(r as int, 1_000_000_000, 9),
        ],
        FpsMode::Auto => Seq::empty(),
    }
}

/// The options about the output, where they are not the defaults.
pub open spec fn output_parts(cfg: RunConfig) -> Seq<Seq<char>> {
    quoted_part("--report "@, args::opt_view(cfg.report_path)) + part(
        cfg.dub_codec != DubCodec::Eac3,
        "--dub-codec "@ + cfg.dub_codec.name(),
    ) + number_part(
        "--dub-bitrate "@,
        match cfg.dub_bitrate_kbps {
            Some(k) => Some(k as nat),
            None => None,
        },
    ) + fps_part(cfg.fps_mode) + part(!cfg.keep_master_subs, "--no-master-subs"@) + part(
        cfg.include_donor_forced_subs,
        "--include-donor-forced-subs"@,
    ) + part(
        cfg.donor_subs_explicit@.len() > 0,
        "--include-donor-subs "@ + short_list(cfg.donor_subs_explicit@),
    )
}

/// The parts of the command line that repeats a run.
pub open spec fn command_parts(cfg: RunConfig, program: Seq<char>) -> Seq<Seq<char>> {
    fixed_parts(cfg, program) + run_parts(cfg) + tuning_parts(cfg) + splice_parts(cfg)
        + output_parts(cfg)
}

fn push_quoted(parts: &mut Vec<String>, flag: &str, value: &str)
    ensures
        args::views(final(parts)@) == args::views(old(parts)@) + seq![flag@ + quoted(value@)],
{
    let ghost before = args::views(parts@);
    let p = args::joined(flag, shell_quote(value).as_str());
    push_arg(parts, p.as_str());
    assert(args::views(parts@) =~= before + seq![flag@ + quoted(value@)]);
}

fn push_flag(parts: &mut Vec<String>, needed: bool, flag: &str)
    ensures
        args::views(final(parts)@) == args::views(old(parts)@) + part(needed, flag@),
{
    let ghost before = args::views(parts@);
    if needed {
        push_arg(parts, flag);
    }
    assert(args::views(parts@) =~= before + part(needed, flag@));
}

fn push_number(parts: &mut Vec<String>, needed: bool, flag: &str, n: u64)
    ensures
        args::views(final(parts)@) == args::views(old(parts)@) + part(
            needed,
            flag@ + text::decimal(n as nat),
        ),
{
    let mut p = String::from_str(flag);
    text::push_decimal(&mut p, n);
    push_flag(parts, needed, p.as_str());
}

fn push_time(parts: &mut Vec<String>, needed: bool, flag: &str, ns: i64)
    ensures
        args::views(final(parts)@) == args::views(old(parts)@) + part(
            needed,
            flag@ + fixed::seconds(ns as int),
        ),
{
    let mut p = String::from_str(flag);
    fixed::push_seconds(&mut p, ns);
    push_flag(parts, needed, p.as_str());
}

fn push_level(parts: &mut Vec<String>, needed: bool, flag: &str, udb: i64)
    ensures
        args::views(final(parts)@) == args::views(old(parts)@) + part(needed, flag@ + level(udb)),
{
    let mut p = String::from_str(flag);
    fixed::push_plain(&mut p, udb, 1_000_000, 6);
    push_flag(parts, needed, p.as_str());
}

fn push_opt_quoted(parts: &mut Vec<String>, flag: &str, value: &Option<String>)
    ensures
        args::views(final(parts)@) == args::views(old(parts)@) + quoted_part(
            flag@,
            args::opt_view(*value),
        ),
{
    let ghost before = args::views(parts@);
    match value {
        Some(v) => {
            push_quoted(parts, flag, v.as_str());
        },
        None => {
            assert(args::views(parts@) =~= before + Seq::empty());
        },
    }
}

fn push_opt_number(parts: &mut Vec<String>, flag: &str, value: Option<u64>)
    ensures
        args::views(final(parts)@) == args::views(old(parts)@) + number_part(
            flag@,
            match value {
                Some(n) => Some(n as nat),
                None => None,
            },
        ),
{
    let ghost before = args::views(parts@);
    match value {
        Some(n) => {
            let mut p = String::from_str(flag);
            text::push_decimal(&mut p, n);
            push_arg(parts, p.as_str());
            assert(args::views(parts@) =~= before + seq![flag@ + text::decimal(n as nat)]);
        },
        None => {
            assert(args::views(parts@) =~= before + Seq::empty());
        },
    }
}

fn fixed_texts(cfg: &RunConfig, program: &str) -> (r: Vec<String>)
    ensures
        args::views(r@) == fixed_parts(*cfg, program@),
{
    let mut r: Vec<String> = Vec::new();
    push_arg(&mut r, shell_quote(program).as_str());
    push_quoted(&mut r, "--master-file ", cfg.master_file.as_str());
    push_quoted(&mut r, "--donor-file ", cfg.donor_file.as_str());
    push_number(&mut r, true, "--master-anchor-track ", cfg.master_anchor_track as u64);
    push_number(&mut r, true, "--donor-anchor-track ", cfg.donor_anchor_track as u64);
    let dubs = args::joined(
        "--donor-dub-tracks ",
        short_list_text(&cfg.donor_dub_tracks).as_str(),
    );
    push_arg(&mut r, dubs.as_str());
    push_quoted(&mut r, "--output-file ", cfg.output_file.as_str());
    assert(args::views(r@) =~= fixed_parts(*cfg, program@));
    r
}

fn push_run_parts(r: &mut Vec<String>, cfg: &RunConfig)
    ensures
        args::views(final(r)@) == args::views(old(r)@) + run_parts(*cfg),
{
    broadcast use lemma_regroup;

    push_flag(r, cfg.keep_temp, "--keep-temp");
    push_flag(r, cfg.include_donor_anchor, "--include-donor-anchor");
    push_flag(r, cfg.solo_dub, "--solo-dub");
    push_opt_quoted(r, "--temp-dir ", &cfg.temp_dir);
    let threads: Option<u64> = match cfg.threads {
        Some(n) => Some(n as u64),
        None => None,
    };
    push_opt_number(r, "--threads ", threads);
}

/// Parts that are appended one by one are appended as a whole.
broadcast proof fn lemma_regroup(a: Seq<Seq<char>>, b: Seq<Seq<char>>, c: Seq<Seq<char>>)
    ensures
        #[trigger] (a + (b + c)) == (a + b) + c,
{
    assert(a + (b + c) =~= (a + b) + c);
}

fn push_tuning_parts(r: &mut Vec<String>, cfg: &RunConfig)
    ensures
        args::views(final(r)@) == args::views(old(r)@) + tuning_parts(*cfg),
{
    broadcast use lemma_regroup;

    push_level(r, cfg.silence_udb != -45_000_000, "--silence-db ", cfg.silence_udb);
    push_number(
        r,
        cfg.silence_min_ms != 200,
        "--silence-min-ms ",
        cfg.silence_min_ms as u64,
    );
    push_number(r, cfg.anchor_rate != 16_000, "--anchor-rate ", cfg.anchor_rate as u64);
    push_time(
        r,
        cfg.correlation_window_ns != 30_000_000_000,
        "--correlation-window-s ",
        cfg.correlation_window_ns,
    );
    push_time(r, cfg.max_drift_ns != 60_000_000_000, "--max-drift-s ", cfg.max_drift_ns);
    push_time(
        r,
        cfg.max_segment_jump_ns != 10_000_000_000,
        "--max-segment-jump-s ",
        cfg.max_segment_jump_ns,
    );
    push_time(r, cfg.snap_radius_ns != 30_000_000_000, "--snap-radius-s ", cfg.snap_radius_ns);
}

fn push_splice_parts(r: &mut Vec<String>, cfg: &RunConfig)
    ensures
        args::views(final(r)@) == args::views(old(r)@) + splice_parts(*cfg),
{
    broadcast use lemma_regroup;

    push_number(r, cfg.crossfade_ms != 10, "--crossfade-ms ", cfg.crossfade_ms as u64);
    let smooth = args::joined("--smooth-gaps ", truth_word(cfg.smooth_gaps));
    push_flag(r, cfg.smooth_gaps, smooth.as_str());
    push_time(
        r,
        cfg.gap_fill_margin_ns != 500_000_000,
        "--gap-fill-margin-s ",
        cfg.gap_fill_margin_ns,
    );
    push_level(r, cfg.speech_udb != -25_000_000, "--speech-db ", cfg.speech_udb);
    let pitch = args::joined("--pal-pitch-correction ", truth_word(cfg.pal_pitch_correction));
    push_flag(r, cfg.pal_pitch_correction, pitch.as_str());
    push_flag(r, cfg.anchor_only_validation, "--anchor-only-validation");
}

fn push_fps_part(r: &mut Vec<String>, mode: FpsMode)
    ensures
        args::views(final(r)@) == args::views(old(r)@) + fps_part(mode),
{
    let ghost before = args::views(r@);
    match mode {
        FpsMode::Disabled => {
            push_arg(r, "--disable-fps-normalize");
        },
        FpsMode::Forced(ratio) => {
            let mut p = String::from_str("--force-fps-ratio ");
            fixed::push_plain(&mut p, ratio, 1_000_000_000, 9);
            push_arg(r, p.as_str());
        },
        FpsMode::Auto => {},
    }
    assert(args::views(r@) =~= before + fps_part(mode));
}

fn push_output_parts(r: &mut Vec<String>, cfg: &RunConfig)
    ensures
        args::views(final(r)@) == args::views(old(r)@) + output_parts(*cfg),
{
    broadcast use lemma_regroup;

    push_opt_quoted(r, "--report ", &cfg.report_path);
    let codec = args::joined("--dub-codec ", cfg.dub_codec.as_token());
    push_flag(r, cfg.dub_codec != DubCodec::Eac3, codec.as_str());
    let bitrate: Option<u64> = match cfg.dub_bitrate_kbps {
        Some(k) => Some(k as u64),
        None => None,
    };
    push_opt_number(r, "--dub-bitrate ", bitrate);
    push_fps_part(r, cfg.fps_mode);
    push_flag(r, !cfg.keep_master_subs, "--no-master-subs");
    push_flag(r, cfg.include_donor_forced_subs, "--include-donor-forced-subs");
    let subs = args::joined(
        "--include-donor-subs ",
        short_list_text(&cfg.donor_subs_explicit).as_str(),
    );
    push_flag(r, cfg.donor_subs_explicit.len() > 0, subs.as_str());
}

/// The command line that repeats a run without the prompts. Options that have
/// their defaults are left out.
pub fn repeat_command(cfg: &RunConfig, program: &str) -> (r: String)
    ensures
        r@ == join(command_parts(*cfg, program@), " \\\n    "@),
{
    let mut parts = fixed_texts(cfg, program);
    push_run_parts(&mut parts, cfg);
    push_tuning_parts(&mut parts, cfg);
    push_splice_parts(&mut parts, cfg);
    push_output_parts(&mut parts, cfg);
    join_texts(&parts, " \\\n    ")
}

/// The number that an answer stands for, or the default.
pub open spec fn number_or(raw: Seq<char>, default: u32) -> u32 {
    match number::u32_of(text::trim(raw)) {
        Ok(n) => n,
        Err(_) => default,
    }
}

/// Reads a whole number; anything else keeps the default.
pub fn parse_number_or(raw: &str, default: u32) -> (r: u32)
    ensures
        r == number_or(raw@, default),
{
    match number::parse_u32(&text::trim_chars(&text::chars_of(raw))) {
        Ok(n) => n,
        Err(_) => default,
    }
}

/// The decimal number that an answer stands for, in units of ten to the power
/// of minus `places`, or the default. Numbers beyond `i64::MAX` count as it.
pub open spec fn decimal_or(raw: Seq<char>, places: int, default: i64) -> i64 {
    match number::decimal_of(text::trim(raw)) {
        Some(d) => {
            let v = time::min2(number::scaled(d, places), i64::MAX as int);
            if d.negative {
                (-v) as i64
            } else {
                v as i64
            }
        },
        None => default,
    }
}

/// Reads a decimal number; anything else keeps the default.
pub fn parse_decimal_or(raw: &str, places: u8, default: i64) -> (r: i64)
    ensures
        r == decimal_or(raw@, places as int, default),
{
    match number::parse_decimal(&text::trim_chars(&text::chars_of(raw))) {
        Some(d) => {
            assert(d.digits@.len() == d.digits.len());
            let size: i64 = match number::scale_within(&d, places as i128, i64::MAX as u128) {
                Some(v) => v as i64,
                None => i64::MAX,
            };
            if d.negative {
                -size
            } else {
                size
            }
        },
        None => default,
    }
}

/// The bitrate that an answer stands for: none if it is blank or no number.
pub fn parse_bitrate(raw: &str) -> (r: Option<u32>)
    ensures
        r == (match number::u32_of(text::trim(raw@)) {
            Ok(n) => Some(n),
            Err(_) => None,
        }),
{
    match number::parse_u32(&text::trim_chars(&text::chars_of(raw))) {
        Ok(n) => Some(n),
        Err(_) => None,
    }
}

/// The path that an answer stands for: none if it is blank.
pub fn parse_report_path(raw: &str) -> (r: Option<String>)
    ensures
        args::opt_view(r) == (if text::trim(raw@).len() == 0 {
            None
        } else {
            Some(text::trim(raw@))
        }),
{
    let t = trimmed(raw);
    if t.as_str().is_empty() {
        None
    } else {
        Some(t)
    }
}

/// The codecs in the order in which they are offered.
pub open spec fn offered() -> Seq<DubCodec> {
    seq![DubCodec::Flac, DubCodec::Ac3, DubCodec::Eac3, DubCodec::Aac]
}

/// The codecs that are offered.
pub fn codec_options() -> (r: Vec<DubCodec>)
    ensures
        r@ == offered(),
{
    let r = vec![DubCodec::Flac, DubCodec::Ac3, DubCodec::Eac3, DubCodec::Aac];
    assert(r@ =~= offered());
    r
}

/// Where a codec stands among those offered.
pub fn codec_cursor(codec: DubCodec) -> (r: usize)
    ensures
        r < offered().len(),
        offered()[r as int] == codec,
{
    match codec {
        DubCodec::Flac => 0,
        DubCodec::Ac3 => 1,
        DubCodec::Eac3 => 2,
        DubCodec::Aac => 3,
    }
}

pub open spec fn mode_label(mode: FpsMode) -> Seq<char> {
    match mode {
        FpsMode::Auto => "Auto"@,
        FpsMode::Disabled => "Disabled"@,
        FpsMode::Forced(_) => "Manual ratio"@,
    }
}

/// The label of a frame-rate policy.
pub fn fps_mode_label(mode: FpsMode) -> (r: &'static str)
    ensures
        r@ == mode_label(mode),
{
    match mode {
        FpsMode::Auto => "Auto",
        FpsMode::Disabled => "Disabled",
        FpsMode::Forced(_) => "Manual ratio",
    }
}

/// The policy behind a label; the ratio is for the manual one.
pub fn fps_mode_of_label(label: &str, ratio: i64) -> (r: FpsMode)
    ensures
        r == (if label@ == "Disabled"@ {
            FpsMode::Disabled
        } else if label@ == "Manual ratio"@ {
            FpsMode::Forced(ratio)
        } else {
            FpsMode::Auto
        }),
{
    if same_text(label, "Disabled") {
        FpsMode::Disabled
    } else if same_text(label, "Manual ratio") {
        FpsMode::Forced(ratio)
    } else {
        FpsMode::Auto
    }
}

/// The places of some tracks, in order, and of no other.
pub open spec fn places_of(r: Seq<usize>, n: int, wanted: spec_fn(int) -> bool) -> bool {
    &&& forall|k: int| 0 <= k < r.len() ==> (#[trigger] r[k]) < n && wanted(r[k] as int)
    &&& forall|k: int, l: int| 0 <= k < l < r.len() ==> #[trigger] r[k] < #[trigger] r[l]
    &&& forall|i: int| 0 <= i < n && #[trigger] wanted(i) ==> r.contains(i as usize)
}

proof fn lemma_places_push(r: Seq<usize>, n: int, wanted: spec_fn(int) -> bool)
    requires
        0 <= n <= usize::MAX,
        places_of(r, n, wanted),
    ensures
        wanted(n) ==> places_of(r.push(n as usize), n + 1, wanted),
        !wanted(n) ==> places_of(r, n + 1, wanted),
{
    if wanted(n) {
        let s = r.push(n as usize);
        assert forall|i: int| 0 <= i < n + 1 && #[trigger] wanted(i) implies s.contains(
            i as usize,
        ) by {
            if i < n {
                let k = r.index_of(i as usize);
                assert(s[k] == i as usize);
            } else {
                assert(s[r.len() as int] == n as usize);
            }
        }
    }
}

/// The dubs that are offered are all tracks but the anchor, in order.
pub proof fn law_dubs_are_all_but_the_anchor(indices: Seq<u32>, anchor: u32, n: int)
    requires
        0 <= n <= indices.len() <= usize::MAX,
    ensures
        places_of(other_streams(indices, anchor, n), n, |i: int| indices[i] != anchor),
    decreases n,
{
    if n > 0 {
        law_dubs_are_all_but_the_anchor(indices, anchor, n - 1);
        lemma_places_push(
            other_streams(indices, anchor, n - 1),
            n - 1,
            |i: int| indices[i] != anchor,
        );
    }
}

/// The subtitles that are offered are all that hold text, in order.
pub proof fn law_offered_subtitles_hold_text(streams: Seq<SubtitleStream>, n: int)
    requires
        0 <= n <= streams.len() <= usize::MAX,
    ensures
        places_of(
            text_streams(streams, n),
            n,
            |i: int| !ffprobe::image_codec(streams[i].codec_name@),
        ),
    decreases n,
{
    if n > 0 {
        law_offered_subtitles_hold_text(streams, n - 1);
        lemma_places_push(
            text_streams(streams, n - 1),
            n - 1,
            |i: int| !ffprobe::image_codec(streams[i].codec_name@),
        );
    }
}

proof fn lemma_digits_stay(s: Seq<char>)
    requires
        s.len() > 0,
        number::is_digit(s.last()),
        number::is_digit(s[0]) || s[0] == '-',
    ensures
        text::trim(s) == s,
{
    text::lemma_trim_id(s);
}

/// A whole number that is typed is taken; what is not a number leaves the one
/// before.
pub proof fn law_typed_number(n: u32, raw: Seq<char>, default: u32)
    ensures
        number_or(text::decimal(n as nat), default) == n,
        number::u32_of(text::trim(raw)) is Err ==> number_or(raw, default) == default,
{
    let s = text::decimal(n as nat);
    number::lemma_decimal(n as nat);
    assert(number::is_digit(s[0]) && number::is_digit(s[s.len() - 1]));
    lemma_digits_stay(s);
    number::law_whole_numbers_are_read(s, u32::MAX as nat);
}

/// A number with places that is typed is taken with its sign; what is not a
/// number leaves the one before.
pub proof fn law_typed_decimal(n: i64, unit: int, places: nat, raw: Seq<char>, default: i64)
    requires
        n > i64::MIN,
        places >= 1,
        unit == vstd::arithmetic::power::pow(10, places),
    ensures
        decimal_or(fixed::plain(n as int, unit, places), places as int, default) == n,
        number::decimal_of(text::trim(raw)) is None ==> decimal_or(raw, places as int, default)
            == default,
{
    let s = fixed::plain(n as int, unit, places);
    fixed::law_written_number_is_read(n as int, unit, places);
    vstd::arithmetic::power::lemma_pow_positive(10, places);
    fixed::lemma_plain_ends(n as int, unit, places);
    lemma_digits_stay(s);
}

proof fn lemma_join(a: Seq<Seq<char>>, b: Seq<Seq<char>>, t: Seq<char>)
    ensures
        a.contains(t) || b.contains(t) ==> (a + b).contains(t),
{
    if a.contains(t) {
        assert((a + b)[a.index_of(t)] == t);
    } else if b.contains(t) {
        assert((a + b)[a.len() + b.index_of(t)] == t);
    }
}

proof fn lemma_any5(
    p0: Seq<Seq<char>>,
    p1: Seq<Seq<char>>,
    p2: Seq<Seq<char>>,
    p3: Seq<Seq<char>>,
    p4: Seq<Seq<char>>,
    t: Seq<char>,
)
    ensures
        p0.contains(t) || p1.contains(t) || p2.contains(t) || p3.contains(t)
            || p4.contains(t) ==> (p0 + p1 + p2 + p3 + p4).contains(t),
{
    lemma_join(p0, p1, t);
    lemma_join(p0 + p1, p2, t);
    lemma_join(p0 + p1 + p2, p3, t);
    lemma_join(p0 + p1 + p2 + p3, p4, t);
}

proof fn lemma_any6(
    p0: Seq<Seq<char>>,
    p1: Seq<Seq<char>>,
    p2: Seq<Seq<char>>,
    p3: Seq<Seq<char>>,
    p4: Seq<Seq<char>>,
    p5: Seq<Seq<char>>,
    t: Seq<char>,
)
    ensures
        p0.contains(t) || p1.contains(t) || p2.contains(t) || p3.contains(t)
            || p4.contains(t) || p5.contains(t) ==> (p0 + p1 + p2 + p3 + p4 + p5).contains(t),
{
    lemma_join(p0, p1, t);
    lemma_join(p0 + p1, p2, t);
    lemma_join(p0 + p1 + p2, p3, t);
    lemma_join(p0 + p1 + p2 + p3, p4, t);
    lemma_join(p0 + p1 + p2 + p3 + p4, p5, t);
}

proof fn lemma_any7(
    p0: Seq<Seq<char>>,
    p1: Seq<Seq<char>>,
    p2: Seq<Seq<char>>,
    p3: Seq<Seq<char>>,
    p4: Seq<Seq<char>>,
    p5: Seq<Seq<char>>,
    p6: Seq<Seq<char>>,
    t: Seq<char>,
)
    ensures
        p0.contains(t) || p1.contains(t) || p2.contains(t) || p3.contains(t)
            || p4.contains(t) || p5.contains(t) || p6.contains(t) ==> (p0 + p1 + p2 + p3 + p4 + p5 + p6).contains(t),
{
    lemma_join(p0, p1, t);
    lemma_join(p0 + p1, p2, t);
    lemma_join(p0 + p1 + p2, p3, t);
    lemma_join(p0 + p1 + p2 + p3, p4, t);
    lemma_join(p0 + p1 + p2 + p3 + p4, p5, t);
    lemma_join(p0 + p1 + p2 + p3 + p4 + p5, p6, t);
}

proof fn lemma_command(cfg: RunConfig, program: Seq<char>, t: Seq<char>)
    ensures
        run_parts(cfg).contains(t) || tuning_parts(cfg).contains(t) || splice_parts(cfg).contains(t)
            || output_parts(cfg).contains(t) ==> command_parts(cfg, program).contains(t),
{
    lemma_any5(
        fixed_parts(cfg, program),
        run_parts(cfg),
        tuning_parts(cfg),
        splice_parts(cfg),
        output_parts(cfg),
        t,
    );
}

/// A run with the options that hold when none is given is repeated by a command
/// without options: only files and tracks are in it.
pub proof fn law_defaults_are_left_out(cfg: RunConfig, program: Seq<char>, c: Cli)
    requires
        c.is_default(),
        cfg.keep_temp == c.keep_temp,
        cfg.include_donor_anchor == c.include_donor_anchor,
        cfg.solo_dub == c.solo_dub,
        cfg.temp_dir is None,
        cfg.threads is None,
        cfg.silence_udb == c.silence_udb,
        cfg.silence_min_ms == c.silence_min_ms,
        cfg.anchor_rate == c.anchor_rate,
        cfg.correlation_window_ns == c.correlation_window_ns,
        cfg.max_drift_ns == c.max_drift_ns,
        cfg.max_segment_jump_ns == c.max_segment_jump_ns,
        cfg.snap_radius_ns == c.snap_radius_ns,
        cfg.crossfade_ms == c.crossfade_ms,
        cfg.smooth_gaps == c.smooth_gaps,
        cfg.gap_fill_margin_ns == c.gap_fill_margin_ns,
        cfg.speech_udb == c.speech_udb,
        cfg.pal_pitch_correction == c.pal_pitch_correction,
        cfg.anchor_only_validation == c.anchor_only_validation,
        cfg.report_path is None,
        cfg.dub_codec == c.dub_codec,
        cfg.dub_bitrate_kbps is None,
        cfg.fps_mode is Auto,
        cfg.keep_master_subs,
        !cfg.include_donor_forced_subs,
        cfg.donor_subs_explicit@.len() == 0,
    ensures
        command_parts(cfg, program) == fixed_parts(cfg, program),
{
    assert(run_parts(cfg) =~= Seq::empty());
    assert(tuning_parts(cfg) =~= Seq::empty());
    assert(splice_parts(cfg) =~= Seq::empty());
    assert(output_parts(cfg) =~= Seq::empty());
    assert(command_parts(cfg, program) =~= fixed_parts(cfg, program));
}

proof fn lemma_tuning(cfg: RunConfig, program: Seq<char>, t: Seq<char>)
    ensures
        ({
            let p0 = part(
                cfg.silence_udb != -45_000_000,
                "--silence-db "@ + level(cfg.silence_udb),
            );
            let p1 = part(
                cfg.silence_min_ms != 200,
                "--silence-min-ms "@ + text::decimal(cfg.silence_min_ms as nat),
            );
            let p2 = part(
                cfg.anchor_rate != 16_000,
                "--anchor-rate "@ + text::decimal(cfg.anchor_rate as nat),
            );
            let p3 = part(
                cfg.correlation_window_ns != 30_000_000_000,
                "--correlation-window-s "@ + fixed::seconds(cfg.correlation_window_ns as int),
            );
            let p4 = part(
                cfg.max_drift_ns != 60_000_000_000,
                "--max-drift-s "@ + fixed::seconds(cfg.max_drift_ns as int),
            );
            let p5 = part(
                cfg.max_segment_jump_ns != 10_000_000_000,
                "--max-segment-jump-s "@ + fixed::seconds(cfg.max_segment_jump_ns as int),
            );
            let p6 = part(
                cfg.snap_radius_ns != 30_000_000_000,
                "--snap-radius-s "@ + fixed::seconds(cfg.snap_radius_ns as int),
            );
            p0.contains(t) || p1.contains(t) || p2.contains(t) || p3.contains(t)
                || p4.contains(t) || p5.contains(t) || p6.contains(t)
        }) ==> command_parts(cfg, program).contains(t),
{
    let p0 = part(cfg.silence_udb != -45_000_000, "--silence-db "@ + level(cfg.silence_udb));
    let p1 = part(
        cfg.silence_min_ms != 200,
        "--silence-min-ms "@ + text::decimal(cfg.silence_min_ms as nat),
    );
    let p2 = part(
        cfg.anchor_rate != 16_000,
        "--anchor-rate "@ + text::decimal(cfg.anchor_rate as nat),
    );
    let p3 = part(
        cfg.correlation_window_ns != 30_000_000_000,
        "--correlation-window-s "@ + fixed::seconds(cfg.correlation_window_ns as int),
    );
    let p4 = part(
        cfg.max_drift_ns != 60_000_000_000,
        "--max-drift-s "@ + fixed::seconds(cfg.max_drift_ns as int),
    );
    let p5 = part(
        cfg.max_segment_jump_ns != 10_000_000_000,
        "--max-segment-jump-s "@ + fixed::seconds(cfg.max_segment_jump_ns as int),
    );
    let p6 = part(
        cfg.snap_radius_ns != 30_000_000_000,
        "--snap-radius-s "@ + fixed::seconds(cfg.snap_radius_ns as int),
    );
    lemma_any7(p0, p1, p2, p3, p4, p5, p6, t);
    lemma_command(cfg, program, t);
}

/// Every tuning option that differs from what holds when it is not given is in
/// the command, with its value.
pub proof fn law_command_tells_the_tuning(cfg: RunConfig, program: Seq<char>, c: Cli)
    requires
        c.is_default(),
    ensures
        ({
            let p = command_parts(cfg, program);
            &&& cfg.silence_udb != c.silence_udb ==> p.contains(
                "--silence-db "@ + level(cfg.silence_udb),
            )
            &&& cfg.silence_min_ms != c.silence_min_ms ==> p.contains(
                "--silence-min-ms "@ + text::decimal(cfg.silence_min_ms as nat),
            )
            &&& cfg.anchor_rate != c.anchor_rate ==> p.contains(
                "--anchor-rate "@ + text::decimal(cfg.anchor_rate as nat),
            )
            &&& cfg.correlation_window_ns != c.correlation_window_ns ==> p.contains(
                "--correlation-window-s "@ + fixed::seconds(cfg.correlation_window_ns as int),
            )
            &&& cfg.max_drift_ns != c.max_drift_ns ==> p.contains(
                "--max-drift-s "@ + fixed::seconds(cfg.max_drift_ns as int),
            )
            &&& cfg.max_segment_jump_ns != c.max_segment_jump_ns ==> p.contains(
                "--max-segment-jump-s "@ + fixed::seconds(cfg.max_segment_jump_ns as int),
            )
            &&& cfg.snap_radius_ns != c.snap_radius_ns ==> p.contains(
                "--snap-radius-s "@ + fixed::seconds(cfg.snap_radius_ns as int),
            )
        }),
{
    let p0 = part(cfg.silence_udb != -45_000_000, "--silence-db "@ + level(cfg.silence_udb));
    let p1 = part(
        cfg.silence_min_ms != 200,
        "--silence-min-ms "@ + text::decimal(cfg.silence_min_ms as nat),
    );
    let p2 = part(
        cfg.anchor_rate != 16_000,
        "--anchor-rate "@ + text::decimal(cfg.anchor_rate as nat),
    );
    let p3 = part(
        cfg.correlation_window_ns != 30_000_000_000,
        "--correlation-window-s "@ + fixed::seconds(cfg.correlation_window_ns as int),
    );
    let p4 = part(
        cfg.max_drift_ns != 60_000_000_000,
        "--max-drift-s "@ + fixed::seconds(cfg.max_drift_ns as int),
    );
    let p5 = part(
        cfg.max_segment_jump_ns != 10_000_000_000,
        "--max-segment-jump-s "@ + fixed::seconds(cfg.max_segment_jump_ns as int),
    );
    let p6 = part(
        cfg.snap_radius_ns != 30_000_000_000,
        "--snap-radius-s "@ + fixed::seconds(cfg.snap_radius_ns as int),
    );
    assert(cfg.silence_udb != c.silence_udb ==> command_parts(cfg, program).contains(
        "--silence-db "@ + level(cfg.silence_udb),
    )) by {
        if cfg.silence_udb != c.silence_udb {
            lemma_tuning(cfg, program, p0[0]);
        }
    }
    assert(cfg.silence_min_ms != c.silence_min_ms ==> command_parts(cfg, program).contains(
        "--silence-min-ms "@ + text::decimal(cfg.silence_min_ms as nat),
    )) by {
        if cfg.silence_min_ms != c.silence_min_ms {
            lemma_tuning(cfg, program, p1[0]);
        }
    }
    assert(cfg.anchor_rate != c.anchor_rate ==> command_parts(cfg, program).contains(
        "--anchor-rate "@ + text::decimal(cfg.anchor_rate as nat),
    )) by {
        if cfg.anchor_rate != c.anchor_rate {
            lemma_tuning(cfg, program, p2[0]);
        }
    }
    assert(cfg.correlation_window_ns != c.correlation_window_ns ==> command_parts(
        cfg,
        program,
    ).contains(
        "--correlation-window-s "@ + fixed::seconds(cfg.correlation_window_ns as int),
    )) by {
        if cfg.correlation_window_ns != c.correlation_window_ns {
            lemma_tuning(cfg, program, p3[0]);
        }
    }
    assert(cfg.max_drift_ns != c.max_drift_ns ==> command_parts(cfg, program).contains(
        "--max-drift-s "@ + fixed::seconds(cfg.max_drift_ns as int),
    )) by {
        if cfg.max_drift_ns != c.max_drift_ns {
            lemma_tuning(cfg, program, p4[0]);
        }
    }
    assert(cfg.max_segment_jump_ns != c.max_segment_jump_ns ==> command_parts(
        cfg,
        program,
    ).contains(
        "--max-segment-jump-s "@ + fixed::seconds(cfg.max_segment_jump_ns as int),
    )) by {
        if cfg.max_segment_jump_ns != c.max_segment_jump_ns {
            lemma_tuning(cfg, program, p5[0]);
        }
    }
    if cfg.snap_radius_ns != c.snap_radius_ns {
        let t = "--snap-radius-s "@ + fixed::seconds(cfg.snap_radius_ns as int);
        assert(p6[0] == t);
        lemma_any7(p0, p1, p2, p3, p4, p5, p6, t);
        lemma_command(cfg, program, t);
    }
}

/// Every option of the splices that differs from what holds when it is not given
/// is in the command, with its value.
pub proof fn law_command_tells_the_splices(cfg: RunConfig, program: Seq<char>, c: Cli)
    requires
        c.is_default(),
    ensures
        ({
            let p = command_parts(cfg, program);
            &&& cfg.crossfade_ms != c.crossfade_ms ==> p.contains(
                "--crossfade-ms "@ + text::decimal(cfg.crossfade_ms as nat),
            )
            &&& cfg.smooth_gaps != c.smooth_gaps ==> p.contains("--smooth-gaps "@ + "true"@)
            &&& cfg.gap_fill_margin_ns != c.gap_fill_margin_ns ==> p.contains(
                "--gap-fill-margin-s "@ + fixed::seconds(cfg.gap_fill_margin_ns as int),
            )
            &&& cfg.speech_udb != c.speech_udb ==> p.contains(
                "--speech-db "@ + level(cfg.speech_udb),
            )
            &&& cfg.pal_pitch_correction != c.pal_pitch_correction ==> p.contains(
                "--pal-pitch-correction "@ + "true"@,
            )
            &&& cfg.anchor_only_validation != c.anchor_only_validation ==> p.contains(
                "--anchor-only-validation"@,
            )
        }),
{
    let p0 = part(
        cfg.crossfade_ms != 10,
        "--crossfade-ms "@ + text::decimal(cfg.crossfade_ms as nat),
    );
    let p1 = part(cfg.smooth_gaps, "--smooth-gaps "@ + truth(cfg.smooth_gaps));
    let p2 = part(
        cfg.gap_fill_margin_ns != 500_000_000,
        "--gap-fill-margin-s "@ + fixed::seconds(cfg.gap_fill_margin_ns as int),
    );
    let p3 = part(cfg.speech_udb != -25_000_000, "--speech-db "@ + level(cfg.speech_udb));
    let p4 = part(
        cfg.pal_pitch_correction,
        "--pal-pitch-correction "@ + truth(cfg.pal_pitch_correction),
    );
    let p5 = part(cfg.anchor_only_validation, "--anchor-only-validation"@);
    if cfg.crossfade_ms != c.crossfade_ms {
        let t = "--crossfade-ms "@ + text::decimal(cfg.crossfade_ms as nat);
        assert(p0[0] == t);
        lemma_any6(p0, p1, p2, p3, p4, p5, t);
        lemma_command(cfg, program, t);
    }
    if cfg.smooth_gaps != c.smooth_gaps {
        let t = "--smooth-gaps "@ + "true"@;
        assert(p1[0] == t);
        lemma_any6(p0, p1, p2, p3, p4, p5, t);
        lemma_command(cfg, program, t);
    }
    if cfg.gap_fill_margin_ns != c.gap_fill_margin_ns {
        let t = "--gap-fill-margin-s "@ + fixed::seconds(cfg.gap_fill_margin_ns as int);
        assert(p2[0] == t);
        lemma_any6(p0, p1, p2, p3, p4, p5, t);
        lemma_command(cfg, program, t);
    }
    if cfg.speech_udb != c.speech_udb {
        let t = "--speech-db "@ + level(cfg.speech_udb);
        assert(p3[0] == t);
        lemma_any6(p0, p1, p2, p3, p4, p5, t);
        lemma_command(cfg, program, t);
    }
    if cfg.pal_pitch_correction != c.pal_pitch_correction {
        let t = "--pal-pitch-correction "@ + "true"@;
        assert(p4[0] == t);
        lemma_any6(p0, p1, p2, p3, p4, p5, t);
        lemma_command(cfg, program, t);
    }
    if cfg.anchor_only_validation != c.anchor_only_validation {
        let t = "--anchor-only-validation"@;
        assert(p5[0] == t);
        lemma_any6(p0, p1, p2, p3, p4, p5, t);
        lemma_command(cfg, program, t);
    }
}

/// Every option of the run that was given is in the command, with its value.
pub proof fn law_command_tells_the_run(cfg: RunConfig, program: Seq<char>, c: Cli)
    requires
        c.is_default(),
    ensures
        ({
            let p = command_parts(cfg, program);
            &&& cfg.keep_temp != c.keep_temp ==> p.contains("--keep-temp"@)
            &&& cfg.include_donor_anchor != c.include_donor_anchor ==> p.contains(
                "--include-donor-anchor"@,
            )
            &&& cfg.solo_dub != c.solo_dub ==> p.contains("--solo-dub"@)
            &&& cfg.temp_dir is Some ==> p.contains("--temp-dir "@ + quoted(cfg.temp_dir->0@))
            &&& cfg.threads is Some ==> p.contains(
                "--threads "@ + text::decimal(cfg.threads->0 as nat),
            )
        }),
{
    let p0 = part(cfg.keep_temp, "--keep-temp"@);
    let p1 = part(cfg.include_donor_anchor, "--include-donor-anchor"@);
    let p2 = part(cfg.solo_dub, "--solo-dub"@);
    let p3 = quoted_part("--temp-dir "@, args::opt_view(cfg.temp_dir));
    let p4 = number_part(
        "--threads "@,
        match cfg.threads {
            Some(n) => Some(n as nat),
            None => None,
        },
    );
    if cfg.keep_temp != c.keep_temp {
        let t = "--keep-temp"@;
        assert(p0[0] == t);
        lemma_any5(p0, p1, p2, p3, p4, t);
        lemma_command(cfg, program, t);
    }
    if cfg.include_donor_anchor != c.include_donor_anchor {
        let t = "--include-donor-anchor"@;
        assert(p1[0] == t);
        lemma_any5(p0, p1, p2, p3, p4, t);
        lemma_command(cfg, program, t);
    }
    if cfg.solo_dub != c.solo_dub {
        let t = "--solo-dub"@;
        assert(p2[0] == t);
        lemma_any5(p0, p1, p2, p3, p4, t);
        lemma_command(cfg, program, t);
    }
    if cfg.temp_dir is Some {
        let t = "--temp-dir "@ + quoted(cfg.temp_dir->0@);
        assert(p3[0] == t);
        lemma_any5(p0, p1, p2, p3, p4, t);
        lemma_command(cfg, program, t);
    }
    if cfg.threads is Some {
        let t = "--threads "@ + text::decimal(cfg.threads->0 as nat);
        assert(p4[0] == t);
        lemma_any5(p0, p1, p2, p3, p4, t);
        lemma_command(cfg, program, t);
    }
}

/// Every option of the output that differs from what holds when it is not given is
/// in the command, with its value.
pub proof fn law_command_tells_the_output(cfg: RunConfig, program: Seq<char>, c: Cli)
    requires
        c.is_default(),
    ensures
        ({
            let p = command_parts(cfg, program);
            &&& cfg.report_path is Some ==> p.contains("--report "@ + quoted(cfg.report_path->0@))
            &&& cfg.dub_codec != c.dub_codec ==> p.contains("--dub-codec "@ + cfg.dub_codec.name())
            &&& cfg.dub_bitrate_kbps is Some ==> p.contains(
                "--dub-bitrate "@ + text::decimal(cfg.dub_bitrate_kbps->0 as nat),
            )
            &&& cfg.fps_mode is Disabled ==> p.contains("--disable-fps-normalize"@)
            &&& cfg.fps_mode matches FpsMode::Forced(r) ==> p.contains(
                "--force-fps-ratio "@ + fixed::plain(r as int, 1_000_000_000, 9),
            )
            &&& !cfg.keep_master_subs ==> p.contains("--no-master-subs"@)
            &&& cfg.include_donor_forced_subs ==> p.contains("--include-donor-forced-subs"@)
            &&& cfg.donor_subs_explicit@.len() > 0 ==> p.contains(
                "--include-donor-subs "@ + short_list(cfg.donor_subs_explicit@),
            )
        }),
{
    let p0 = quoted_part("--report "@, args::opt_view(cfg.report_path));
    let p1 = part(cfg.dub_codec != DubCodec::Eac3, "--dub-codec "@ + cfg.dub_codec.name());
    let p2 = number_part(
        "--dub-bitrate "@,
        match cfg.dub_bitrate_kbps {
            Some(k) => Some(k as nat),
            None => None,
        },
    );
    let p3 = fps_part(cfg.fps_mode);
    let p4 = part(!cfg.keep_master_subs, "--no-master-subs"@);
    let p5 = part(cfg.include_donor_forced_subs, "--include-donor-forced-subs"@);
    let p6 = part(
        cfg.donor_subs_explicit@.len() > 0,
        "--include-donor-subs "@ + short_list(cfg.donor_subs_explicit@),
    );
    if cfg.report_path is Some {
        let t = "--report "@ + quoted(cfg.report_path->0@);
        assert(p0[0] == t);
        lemma_any7(p0, p1, p2, p3, p4, p5, p6, t);
        lemma_command(cfg, program, t);
    }
    if cfg.dub_codec != c.dub_codec {
        let t = "--dub-codec "@ + cfg.dub_codec.name();
        assert(p1[0] == t);
        lemma_any7(p0, p1, p2, p3, p4, p5, p6, t);
        lemma_command(cfg, program, t);
    }
    if cfg.dub_bitrate_kbps is Some {
        let t = "--dub-bitrate "@ + text::decimal(cfg.dub_bitrate_kbps->0 as nat);
        assert(p2[0] == t);
        lemma_any7(p0, p1, p2, p3, p4, p5, p6, t);
        lemma_command(cfg, program, t);
    }
    if !(cfg.fps_mode is Auto) {
        let t = p3[0];
        assert(p3[0] == t);
        lemma_any7(p0, p1, p2, p3, p4, p5, p6, t);
        lemma_command(cfg, program, t);
    }
    if !cfg.keep_master_subs {
        let t = "--no-master-subs"@;
        assert(p4[0] == t);
        lemma_any7(p0, p1, p2, p3, p4, p5, p6, t);
        lemma_command(cfg, program, t);
    }
    if cfg.include_donor_forced_subs {
        let t = "--include-donor-forced-subs"@;
        assert(p5[0] == t);
        lemma_any7(p0, p1, p2, p3, p4, p5, p6, t);
        lemma_command(cfg, program, t);
    }
    if cfg.donor_subs_explicit@.len() > 0 {
        let t = "--include-donor-subs "@ + short_list(cfg.donor_subs_explicit@);
        assert(p6[0] == t);
        lemma_any7(p0, p1, p2, p3, p4, p5, p6, t);
        lemma_command(cfg, program, t);
    }
}

/// A list of tracks has their numbers in order, with commas between them.
pub proof fn law_short_list(v: Seq<u32>, x: u32)
    ensures
        short_list(Seq::empty()) == Seq::<char>::empty(),
        short_list(seq![x]) == text::decimal(x as nat),
        v.len() > 0 ==> short_list(v.push(x)) == short_list(v) + seq![','] + text::decimal(x as nat),
{
    reveal_strlit(",");
    assert(","@ =~= seq![',']);
    assert(v.push(x).drop_last() =~= v);
}

} // verus!
