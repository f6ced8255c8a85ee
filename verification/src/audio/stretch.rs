//! Time-stretching with the external `rubberband` program: what may be asked of
//! it, how it is called, and what is made of its answer.
use vstd::prelude::*;
use crate::args;
use crate::audio::wav::WavInfo;
use crate::error::DubsyncError;
use crate::fixed;
use crate::text;
use crate::time;
use crate::wide::Wide;

verus! {

/// A stretch outside a third to three times the input is not attempted.
pub open spec fn ratio_allowed(in_frames: int, rate: int, target_ns: int) -> bool {
    &&& in_frames * time::NS_PER_S <= 3 * (target_ns * rate)
    &&& target_ns * rate <= 3 * (in_frames * time::NS_PER_S)
}

/// What is said about a stretch that is not attempted. At a rate of zero the
/// input never ends.
pub open spec fn ratio_text(in_frames: int, rate: int, target_ns: int) -> Seq<char> {
    "stretch ratio "@ + fixed::fraction(
        target_ns * rate,
        in_frames * time::NS_PER_S,
        1000,
        3,
    ) + " outside acceptable range [0.333, 3.000] (input "@ + (if rate == 0 {
        "inf"@
    } else {
        fixed::fixed(fixed::round_even(in_frames * 1000, rate), 1000, 3)
    }) + "s → target "@ + fixed::seconds3(target_ns) + "s)"@
}

fn ratio_error(in_frames: u64, rate: u32, target_ns: i128) -> (r: DubsyncError)
    requires
        0 < in_frames,
        0 < target_ns,
    ensures
        r matches DubsyncError::RubberbandFailed { stderr } && stderr@ == ratio_text(
            in_frames as int,
            rate as int,
            target_ns as int,
        ),
{
    let wanted: Wide = Wide::of(target_ns as u128).times(rate as u128);
    let have: Wide = Wide::of(in_frames as u128 * 1_000_000_000);
    let mut m = String::from_str("stretch ratio ");
    fixed::push_fraction(&mut m, false, &wanted, &have, 1000, 3);
    m.append(" outside acceptable range [0.333, 3.000] (input ");
    if rate == 0 {
        m.append("inf");
    } else {
        let input: u128 = fixed::round_even_of(in_frames as u128 * 1000, rate as u128);
        fixed::push_fixed(&mut m, input, 1000, 3);
    }
    m.append("s → target ");
    fixed::push_signed(&mut m, target_ns, 1_000_000, 1000, 3);
    m.append("s)");
    DubsyncError::RubberbandFailed { stderr: m }
}

/// What is to be done about a stretch in memory.
#[derive(Clone, Copy, Debug)]
pub enum StretchPlan {
    /// Nothing in, or nothing wanted: nothing out.
    Empty,
    /// Run the program, then cut or pad to this many frames.
    Run { target_frames: i64 },
}

/// `r` is the plan for a stretch of so many samples to a duration, or why there
/// is none.
pub open spec fn is_stretch_plan(
    r: Result<StretchPlan, DubsyncError>,
    n_samples: int,
    channels: int,
    rate: int,
    target_ns: int,
) -> bool {
    let frames = n_samples / channels;
    if channels == 0 {
        r matches Err(DubsyncError::RubberbandFailed { stderr }) && stderr@
            == "stretch_to_duration called with channels=0"@
    } else if frames == 0 || target_ns <= 0 {
        r == Ok::<_, DubsyncError>(StretchPlan::Empty)
    } else if !ratio_allowed(frames, rate, target_ns) {
        r matches Err(DubsyncError::RubberbandFailed { stderr }) && stderr@ == ratio_text(
            frames,
            rate,
            target_ns,
        )
    } else {
        r == Ok::<_, DubsyncError>(
            StretchPlan::Run { target_frames: time::to_samples(target_ns, rate) as i64 },
        )
    }
}

/// Decides about stretching `n_samples` interleaved samples to a duration.
pub fn plan_stretch(n_samples: usize, channels: u16, rate: u32, target_ns: i64) -> (r: Result<
    StretchPlan,
    DubsyncError,
>)
    requires
        n_samples <= time::TIME_LIMIT,
        target_ns <= time::TIME_LIMIT,
    ensures
        is_stretch_plan(r, n_samples as int, channels as int, rate as int, target_ns as int),
{
    if channels == 0 {
        return Err(
            DubsyncError::RubberbandFailed {
                stderr: String::from_str("stretch_to_duration called with channels=0"),
            },
        );
    }
    let frames: u64 = n_samples as u64 / channels as u64;
    proof {
        vstd::arithmetic::div_mod::lemma_div_is_ordered_by_denominator(
            n_samples as int,
            1,
            channels as int,
        );
    }
    if frames == 0 || target_ns <= 0 {
        return Ok(StretchPlan::Empty);
    }
    match check_ratio(frames, rate, target_ns as i128) {
        Err(e) => Err(e),
        Ok(_) => Ok(StretchPlan::Run { target_frames: time::samples_of(target_ns, rate) }),
    }
}

/// Accepts a stretch of at most three times either way.
fn check_ratio(in_frames: u64, rate: u32, target_ns: i128) -> (r: Result<(), DubsyncError>)
    requires
        0 < in_frames,
        0 < target_ns,
    ensures
        match r {
            Ok(_) => ratio_allowed(in_frames as int, rate as int, target_ns as int),
            Err(e) => !ratio_allowed(in_frames as int, rate as int, target_ns as int) && (
            e matches DubsyncError::RubberbandFailed { stderr } && stderr@ == ratio_text(
                in_frames as int,
                rate as int,
                target_ns as int,
            )),
        },
{
    let wanted: Wide = Wide::of(target_ns as u128).times(rate as u128);
    let have: Wide = Wide::of(in_frames as u128 * 1_000_000_000);
    if have.at_most(&wanted.times(3)) && wanted.at_most(&have.times(3)) {
        return Ok(());
    }
    Err(ratio_error(in_frames, rate, target_ns))
}

/// What the program's output has to look like.
pub fn check_output(channels: u16, rate: u32, got_channels: u16, got_rate: u32) -> (r: Result<
    (),
    DubsyncError,
>)
    ensures
        match r {
            Ok(_) => channels == got_channels && rate == got_rate,
            Err(e) => !(channels == got_channels && rate == got_rate) && (
            e matches DubsyncError::RubberbandFailed { stderr } && stderr@
                == "rubberband output spec mismatch: expected "@ + text::decimal(channels as nat)
                + "ch/"@ + text::decimal(rate as nat) + "Hz, got "@ + text::decimal(
                got_channels as nat,
            ) + "ch/"@ + text::decimal(got_rate as nat) + "Hz"@),
        },
{
    if channels == got_channels && rate == got_rate {
        return Ok(());
    }
    let mut m = String::from_str("rubberband output spec mismatch: expected ");
    text::push_decimal(&mut m, channels as u64);
    m.append("ch/");
    text::push_decimal(&mut m, rate as u64);
    m.append("Hz, got ");
    text::push_decimal(&mut m, got_channels as u64);
    m.append("ch/");
    text::push_decimal(&mut m, got_rate as u64);
    m.append("Hz");
    Err(DubsyncError::RubberbandFailed { stderr: m })
}

/// `samples` cut, or padded with silence, to `len`.
pub open spec fn fitted(samples: Seq<u32>, len: int) -> Seq<u32> {
    Seq::new(
        len as nat,
        |i: int|
            if i < samples.len() {
                samples[i]
            } else {
                0u32
            },
    )
}

/// Cuts or pads to an exact length: the program is only accurate to a few
/// frames.
pub fn fit_length(samples: &mut Vec<u32>, len: usize)
    ensures
        final(samples)@ == fitted(old(samples)@, len as int),
{
    let ghost start = samples@;
    if samples.len() > len {
        samples.truncate(len);
    } else {
        while samples.len() < len
            invariant
                start.len() <= samples@.len() <= len,
                samples@ == fitted(start, samples@.len() as int),
            decreases len - samples@.len(),
        {
            samples.push(0);
            assert(samples@ =~= fitted(start, samples@.len() as int));
        }
    }
    assert(samples@ =~= fitted(start, len as int));
}

/// Bytes that the stretched file will have: header and samples.
pub open spec fn expected_size(info: WavInfo, target_ns: int) -> int {
    44 + time::to_samples(target_ns, info.sample_rate as int) * info.channels * 4
}

/// The frames of a stretch that is allowed.
fn wanted_samples(info: &WavInfo, target_ns: i128) -> (r: u128)
    requires
        0 < target_ns,
        ratio_allowed(info.frames as int, info.sample_rate as int, target_ns as int),
    ensures
        r == time::to_samples(target_ns as int, info.sample_rate as int),
        r <= 0x4_0000_0000_0000_0000,
{
    let rate: u128 = info.sample_rate as u128;
    proof {
        let n = target_ns * rate;
        assert(0 <= n <= 3 * (u64::MAX * 1_000_000_000));
        time::lemma_round_div_bounds(n, 1_000_000_000, 0, 3 * u64::MAX);
        assert(target_ns >= 1 && rate >= 0);
    }
    time::div_round((target_ns as u128 * rate) as i128, 1_000_000_000) as u128
}

/// Decides about stretching a file, and says how large the result will be.
pub fn plan_stretch_file(info: &WavInfo, target_ns: i128) -> (r: Result<u128, DubsyncError>)
    ensures
        if info.frames == 0 || target_ns <= 0 {
            r matches Err(DubsyncError::RubberbandFailed { stderr }) && stderr@
                == "empty input or non-positive target ("@ + text::decimal(info.frames as nat)
                + " frames, target "@ + fixed::seconds3(target_ns as int) + "s)"@
        } else if !ratio_allowed(info.frames as int, info.sample_rate as int, target_ns as int) {
            r matches Err(DubsyncError::RubberbandFailed { stderr }) && stderr@ == ratio_text(
                info.frames as int,
                info.sample_rate as int,
                target_ns as int,
            )
        } else {
            r matches Ok(size) && size == expected_size(*info, target_ns as int)
        },
{
    if info.frames == 0 || target_ns <= 0 {
        let mut m = String::from_str("empty input or non-positive target (");
        text::push_decimal(&mut m, info.frames);
        m.append(" frames, target ");
        fixed::push_signed(&mut m, target_ns, 1_000_000, 1000, 3);
        m.append("s)");
        return Err(DubsyncError::RubberbandFailed { stderr: m });
    }
    match check_ratio(info.frames, info.sample_rate, target_ns) {
        Err(e) => Err(e),
        Ok(_) => {
            let wanted: u128 = wanted_samples(info, target_ns);
            assert(0 <= wanted * info.channels <= 0x4_0000_0000_0000_0000 * 0xffff)
                by (nonlinear_arith)
                requires
                    0 <= wanted <= 0x4_0000_0000_0000_0000,
                    0 <= info.channels <= 0xffff,
            ;
            let samples: u128 = wanted * info.channels as u128;
            Ok(44 + samples * 4)
        },
    }
}

/// How far a running stretch is, in millionths, by the size of its output:
/// never more than 99 %, and nothing while there is no full header.
pub open spec fn progress_of(bytes: int, expected_bytes: int) -> Option<u32> {
    if bytes < 44 || expected_bytes <= 44 {
        None
    } else {
        Some(time::min2((bytes - 44) * 1_000_000 / (expected_bytes - 44), 990_000) as u32)
    }
}

pub fn stretch_progress(bytes: u64, expected_bytes: u128) -> (r: Option<u32>)
    requires
        expected_bytes <= 0x7fff_ffff_ffff_ffff_ffff_ffff_ffff_ffff,
    ensures
        r == progress_of(bytes as int, expected_bytes as int),
{
    if bytes < 44 || expected_bytes <= 44 {
        return None;
    }
    let part: u128 = (bytes as u128 - 44) * 1_000_000 / (expected_bytes - 44);
    if part >= 990_000 {
        Some(990_000)
    } else {
        Some(part as u32)
    }
}

/// The arguments of the program: duration, quiet, an optional pitch shift in
/// semitones, input and output.
pub open spec fn arguments(
    target_ns: int,
    semitones: Option<Seq<char>>,
    input: Seq<char>,
    output: Seq<char>,
) -> Seq<Seq<char>> {
    seq!["-D"@, fixed::seconds6(target_ns), "-q"@] + (match semitones {
        Some(p) => seq!["-p"@, p],
        None => Seq::empty(),
    }) + seq![input, output]
}

/// Builds the arguments of the program.
pub fn stretch_args(target_ns: i128, semitones: Option<&str>, input: &str, output: &str) -> (r: Vec<
    String,
>)
    ensures
        args::views(r@) == arguments(
            target_ns as int,
            args::opt_str_view(semitones),
            input@,
            output@,
        ),
{
    let mut r: Vec<String> = Vec::new();
    let mut duration = String::new();
    fixed::push_signed(&mut duration, target_ns, 1000, 1_000_000, 6);
    r.push(String::from_str("-D"));
    r.push(duration);
    r.push(String::from_str("-q"));
    match semitones {
        Some(p) => {
            r.push(String::from_str("-p"));
            r.push(String::from_str(p));
        },
        None => {},
    }
    r.push(String::from_str(input));
    r.push(String::from_str(output));
    assert(args::views(r@) =~= arguments(
        target_ns as int,
        args::opt_str_view(semitones),
        input@,
        output@,
    ));
    r
}

/// Names for the temporary input and output of one run, which differ between
/// runs of different processes or at different times.
pub fn temp_names(pid: u32, nanos: u64) -> (r: (String, String))
    ensures
        r.0@ == "rubberband_"@ + text::decimal(pid as nat) + "_"@ + text::decimal(nanos as nat)
            + "_in.wav"@,
        r.1@ == "rubberband_"@ + text::decimal(pid as nat) + "_"@ + text::decimal(nanos as nat)
            + "_out.wav"@,
{
    let mut input = String::from_str("rubberband_");
    text::push_decimal(&mut input, pid as u64);
    input.append("_");
    text::push_decimal(&mut input, nanos);
    let mut output = input.clone();
    input.append("_in.wav");
    output.append("_out.wav");
    (input, output)
}

/// A stretch from a third to three times the input is allowed, and no other.
pub proof fn law_stretch_limits(in_frames: int, rate: int, target_ns: int)
    requires
        in_frames > 0,
    ensures
        ({
            let had = in_frames * 1_000_000_000;
            let wanted = target_ns * rate;
            &&& 3 * wanted < had ==> !ratio_allowed(in_frames, rate, target_ns)
            &&& wanted > 3 * had ==> !ratio_allowed(in_frames, rate, target_ns)
            &&& had <= 3 * wanted && wanted <= 3 * had ==> ratio_allowed(in_frames, rate, target_ns)
        }),
{
}

/// Cutting or padding keeps what fits and adds nothing but silence.
pub proof fn law_fitted(samples: Seq<u32>, len: int, i: int)
    requires
        0 <= i < len,
    ensures
        fitted(samples, len).len() == len,
        i < samples.len() ==> fitted(samples, len)[i] == samples[i],
        i >= samples.len() ==> fitted(samples, len)[i] == 0,
{
}

/// The file that is expected holds four bytes for every channel of every frame
/// behind its header of 44 bytes.
pub proof fn law_expected_size(info: WavInfo, target_ns: int)
    ensures
        exists|frames: int|
            #![trigger frames * info.channels]
            expected_size(info, target_ns) == 44 + 4 * (frames * info.channels) && -1_000_000_000 <= 2
                * (frames * 1_000_000_000 - target_ns * info.sample_rate) <= 1_000_000_000,
{
    let frames = time::to_samples(target_ns, info.sample_rate as int);
    time::law_samples_of_a_time(target_ns, info.sample_rate as int);
    assert(expected_size(info, target_ns) == 44 + 4 * (frames * info.channels)) by (nonlinear_arith)
        requires
            expected_size(info, target_ns) == 44 + frames * info.channels * 4,
    ;
}

/// Progress is the share of the expected audio that is written, rounded down
/// and at most 99 %; it is known once there is a header and audio to expect.
pub proof fn law_progress_is_the_share(bytes: int, expected: int)
    requires
        bytes >= 0,
    ensures
        match progress_of(bytes, expected) {
            Some(p) => {
                let written = (bytes - 44) * 1_000_000;
                let all = expected - 44;
                &&& bytes >= 44 && expected > 44
                &&& p <= 990_000
                &&& p * all <= written
                &&& p < 990_000 ==> written < (p + 1) * all
            },
            None => bytes < 44 || expected <= 44,
        },
{
    if bytes >= 44 && expected > 44 {
        let written = (bytes - 44) * 1_000_000;
        let all = expected - 44;
        let q = written / all;
        vstd::arithmetic::div_mod::lemma_fundamental_div_mod(written, all);
        vstd::arithmetic::div_mod::lemma_mod_bound(written, all);
        vstd::arithmetic::div_mod::lemma_div_pos_is_pos(written, all);
        assert(all * q == q * all && (q + 1) * all == q * all + all) by (nonlinear_arith);
        assert(q >= 990_000 ==> 990_000 * all <= q * all) by (nonlinear_arith)
            requires
                all > 0,
        ;
    }
}

/// The program is told the duration first and the files last, and a pitch only
/// if there is one.
pub proof fn law_arguments(
    target_ns: int,
    semitones: Option<Seq<char>>,
    input: Seq<char>,
    output: Seq<char>,
)
    ensures
        ({
            let a = arguments(target_ns, semitones, input, output);
            let n = a.len() as int;
            &&& a[0] == "-D"@ && a[1] == fixed::seconds6(target_ns)
            &&& a[n - 2] == input && a[n - 1] == output
            &&& semitones matches Some(p) ==> n == 7 && a[3] == "-p"@ && a[4] == p
            &&& semitones is None ==> n == 5
        }),
{
}

/// A stretch aims at as many frames as the duration has, to half a frame; nothing
/// is done without frames or without a duration, and a stretch beyond a factor of
/// three is refused.
pub proof fn law_stretch_plan(
    r: Result<StretchPlan, DubsyncError>,
    frames: int,
    channels: int,
    rate: int,
    target_ns: int,
)
    requires
        0 < channels,
        0 <= frames <= time::TIME_LIMIT,
        0 < rate <= u32::MAX,
        target_ns <= time::TIME_LIMIT,
        is_stretch_plan(r, frames * channels, channels, rate, target_ns),
    ensures
        frames == 0 || target_ns <= 0 ==> r == Ok::<_, DubsyncError>(StretchPlan::Empty),
        frames > 0 && target_ns > 0 ==> {
            let had = frames * 1_000_000_000;
            let wanted = target_ns * rate;
            match r {
                Ok(StretchPlan::Run { target_frames }) => had <= 3 * wanted && wanted <= 3 * had && -1
                    * 1_000_000_000 <= 2 * (target_frames * 1_000_000_000 - wanted)
                    <= 1_000_000_000,
                Ok(StretchPlan::Empty) => false,
                Err(_) => 3 * wanted < had || wanted > 3 * had,
            }
        },
{
    vstd::arithmetic::div_mod::lemma_div_multiples_vanish(frames, channels);
    assert(channels * frames == frames * channels) by (nonlinear_arith);
    if frames > 0 && target_ns > 0 {
        law_stretch_limits(frames, rate, target_ns);
        time::law_samples_of_a_time(target_ns, rate);
        assert(0 <= target_ns * rate <= time::TIME_LIMIT * u32::MAX) by (nonlinear_arith)
            requires
                0 < target_ns <= time::TIME_LIMIT,
                0 < rate <= u32::MAX,
        ;
    }
}

/// A refusal tells the ratio that was asked for, to a thousandth.
pub proof fn law_refusal_tells_the_ratio(in_frames: int, rate: int, target_ns: int)
    requires
        in_frames > 0,
        rate > 0,
        target_ns > 0,
    ensures
        exists|t: Seq<char>, u: Seq<char>, q: int, p: int|
            #![trigger fixed::reads(t, 3, 1, q), fixed::reads(u, 3, 1, p)]
            {
                let had = in_frames * 1_000_000_000;
                &&& fixed::reads(t, 3, 1, q)
                &&& -had <= 2 * (q * had - target_ns * rate * 1000) <= had
                &&& fixed::reads(u, 3, 1, p)
                &&& -rate <= 2 * (p * rate - in_frames * 1000) <= rate
                &&& ratio_text(in_frames, rate, target_ns) == "stretch ratio "@ + t
                    + " outside acceptable range [0.333, 3.000] (input "@ + u + "s → target "@
                    + fixed::seconds3(target_ns) + "s)"@
            },
{
    reveal_with_fuel(vstd::arithmetic::power::pow, 4);
    let n = target_ns * rate;
    let had = in_frames * 1_000_000_000;
    assert(n > 0) by (nonlinear_arith)
        requires
            n == target_ns * rate,
            target_ns > 0,
            rate > 0,
    ;
    fixed::law_written_quotient_is_read(n, had, 1000, 3);
    fixed::law_written_quotient_is_read(in_frames, rate, 1000, 3);
    let t = fixed::fraction(n, had, 1000, 3);
    let u = fixed::fraction(in_frames, rate, 1000, 3);
    let q = choose|q: int|
        #[trigger] fixed::reads(t, 3, n, q) && -had <= 2 * (q * had - fixed::size(n) * 1000) <= had;
    let p = choose|p: int|
        #[trigger] fixed::reads(u, 3, in_frames, p) && -rate <= 2 * (p * rate - fixed::size(in_frames)
            * 1000) <= rate;
    assert(fixed::reads(t, 3, 1, q));
    assert(fixed::reads(u, 3, 1, p));
}

} // verus!
