//! Bringing the donor to the master's frame rate.
use vstd::prelude::*;
use crate::args;
use crate::audio::wav::WavInfo;
use crate::cli::FpsMode;
use crate::ffmpeg::{ExtractedAnchors, ExtractedDub};
use crate::fixed;
use crate::progress;
use crate::rate::{DonorRate, FrameRate, Ratio};
use crate::report;
use crate::text;
use crate::time;
use crate::wide::Wide;

verus! {

/// What a run found out and did about frame rates.
#[derive(Clone, Copy, Debug, PartialEq, Eq, Structural)]
pub struct FpsInfo {
    pub master_fps: FrameRate,
    pub donor_fps: Option<DonorRate>,
    /// Set only if a stretch ran.
    pub stretch_ratio: Option<Ratio>,
    pub pal_pitch_applied: bool,
}

/// The rate of a master that does not tell.
pub open spec fn usual_rate() -> FrameRate {
    FrameRate { num: 25, den: 1, tens: 0 }
}

/// The donor's rate over the master's.
pub open spec fn rates(master: FrameRate, donor: FrameRate) -> Ratio {
    Ratio::Rates { donor, master }
}

/// Rates within a thousandth of each other.
pub open spec fn same_rate(master: FrameRate, donor: FrameRate) -> bool {
    let r = rates(master, donor);
    time::abs(r.num() - r.den()) * 1000 <= r.den()
}

/// A forced ratio within a thousandth of one.
pub open spec fn is_identity(ratio: i64) -> bool {
    time::abs(ratio - 1_000_000_000) <= 1_000_000
}

/// The donor's rate that a forced ratio stands for.
pub open spec fn implied(master: FrameRate, ratio: i64) -> Option<DonorRate> {
    Some(DonorRate::Implied { master, ratio_nano: ratio })
}

/// What is to be done about frame rates.
#[derive(Debug)]
pub enum FpsStep {
    /// Nothing, and why.
    Skip { summary: String },
    /// Stretch the donor's audio.
    Stretch { ratio: Ratio },
}

#[derive(Debug)]
pub struct FpsPlan {
    pub title: String,
    pub step: FpsStep,
    /// What will be so afterwards.
    pub info: FpsInfo,
}

/// A plan with its texts as characters; `skip` says why nothing is done, and
/// `ratio` by how much to stretch otherwise.
pub struct PlanView {
    pub title: Seq<char>,
    pub skip: Option<Seq<char>>,
    pub ratio: Option<Ratio>,
    pub info: FpsInfo,
}

impl View for FpsPlan {
    type V = PlanView;

    open spec fn view(&self) -> PlanView {
        PlanView {
            title: self.title@,
            skip: match self.step {
                FpsStep::Skip { summary } => Some(summary@),
                FpsStep::Stretch { .. } => None,
            },
            ratio: match self.step {
                FpsStep::Skip { .. } => None,
                FpsStep::Stretch { ratio } => Some(ratio),
            },
            info: self.info,
        }
    }
}

pub open spec fn info(
    master: FrameRate,
    donor: Option<DonorRate>,
    stretch: Option<Ratio>,
    pal: bool,
) -> FpsInfo {
    FpsInfo {
        master_fps: master,
        donor_fps: donor,
        stretch_ratio: stretch,
        pal_pitch_applied: pal,
    }
}

/// The plan for a policy and the rates that were found: nothing is done where
/// the policy says so, where the donor has no video, and where the rates are
/// within a thousandth of each other.
pub open spec fn plan_of(
    mode: FpsMode,
    pal: bool,
    master: Option<FrameRate>,
    donor: Option<FrameRate>,
) -> PlanView {
    let m = match master {
        Some(f) => f,
        None => usual_rate(),
    };
    match mode {
        FpsMode::Disabled => PlanView {
            title: "FPS normalize: skipped"@,
            skip: Some("disabled by --disable-fps-normalize"@),
            ratio: None,
            info: info(m, None, None, false),
        },
        FpsMode::Forced(r) => if is_identity(r) {
            PlanView {
                title: "FPS normalize: skipped (forced ratio "@ + report::ratio_text(Ratio::Nano(r)) + ")"@,
                skip: Some("forced ratio is identity — no stretch needed"@),
                ratio: None,
                info: info(m, implied(m, r), None, false),
            }
        } else {
            PlanView {
                title: "Time-stretching donor audio (forced ratio "@ + report::ratio_text(Ratio::Nano(r)) + ")"@,
                skip: None,
                ratio: Some(Ratio::Nano(r)),
                info: info(m, implied(m, r), Some(Ratio::Nano(r)), pal),
            }
        },
        FpsMode::Auto => match donor {
            None => PlanView {
                title: "Checking fps"@,
                skip: Some("donor has no video stream — skipping"@),
                ratio: None,
                info: info(m, None, None, false),
            },
            Some(d) => if same_rate(m, d) {
                PlanView {
                    title: "Checking fps ("@ + report::fps_text(m) + " vs "@
                        + report::fps_text(d) + ")"@,
                    skip: Some("no fps mismatch"@),
                    ratio: None,
                    info: info(m, Some(DonorRate::Found(d)), None, false),
                }
            } else {
                PlanView {
                    title: "Time-stretching donor audio ("@ + report::fps_text(d) + " → "@
                        + report::fps_text(m) + " fps, ratio "@ + report::ratio_text(
                        rates(m, d),
                    ) + ")"@,
                    skip: None,
                    ratio: Some(rates(m, d)),
                    info: info(m, Some(DonorRate::Found(d)), Some(rates(m, d)), pal),
                }
            },
        },
    }
}

fn same_rate_of(master: &FrameRate, donor: &FrameRate) -> (r: bool)
    requires
        master.wf(),
        donor.wf(),
    ensures
        r == same_rate(*master, *donor),
{
    let ratio = Ratio::Rates { donor: *donor, master: *master };
    let (_, n, d): (bool, Wide, Wide) = ratio.parts();
    proof {
        donor.lemma_parts();
        master.lemma_parts();
        let (a, b) = (donor.top(), master.bottom());
        assert(a * b >= 0) by (nonlinear_arith)
            requires
                a >= 0,
                b >= 0,
        ;
    }
    let scaled: Wide = n.times(1000);
    d.times(999).at_most(&scaled) && scaled.at_most(&d.times(1001))
}

/// Whether the donor's frame rate is needed at all.
pub fn needs_donor_rate(mode: FpsMode) -> (r: bool)
    ensures
        r == (mode == FpsMode::Auto),
{
    match mode {
        FpsMode::Auto => true,
        _ => false,
    }
}

/// Decides what to do about two rates that were found.
fn plan_rates(pal: bool, m: FrameRate, d: FrameRate) -> (r: FpsPlan)
    requires
        m.wf(),
        d.wf(),
    ensures
        r@ == plan_of(FpsMode::Auto, pal, Some(m), Some(d)),
        r.step matches FpsStep::Stretch { ratio } ==> ratio.den() > 0,
{
    if same_rate_of(&m, &d) {
        let mut title = String::from_str("Checking fps (");
        report::push_fps(&mut title, &m);
        title.append(" vs ");
        report::push_fps(&mut title, &d);
        title.append(")");
        return skip(title, "no fps mismatch", m, Some(DonorRate::Found(d)));
    }
    let ratio = Ratio::Rates { donor: d, master: m };
    proof {
        d.lemma_parts();
        m.lemma_parts();
        let (a, b) = (d.bottom(), m.top());
        assert(a * b > 0) by (nonlinear_arith)
            requires
                a > 0,
                b > 0,
        ;
    }
    let mut title = String::from_str("Time-stretching donor audio (");
    report::push_fps(&mut title, &d);
    title.append(" → ");
    report::push_fps(&mut title, &m);
    title.append(" fps, ratio ");
    report::push_ratio(&mut title, &ratio);
    title.append(")");
    FpsPlan {
        title,
        step: FpsStep::Stretch { ratio },
        info: FpsInfo {
            master_fps: m,
            donor_fps: Some(DonorRate::Found(d)),
            stretch_ratio: Some(ratio),
            pal_pitch_applied: pal,
        },
    }
}

/// Decides what to do about frame rates.
pub fn plan_fps(
    mode: FpsMode,
    pal: bool,
    master: Option<FrameRate>,
    donor: Option<FrameRate>,
) -> (r: FpsPlan)
    requires
        master matches Some(f) ==> f.wf(),
        donor matches Some(f) ==> f.wf(),
    ensures
        r@ == plan_of(mode, pal, master, donor),
        r.step matches FpsStep::Stretch { ratio } ==> ratio.den() > 0,
        r.info.master_fps.wf(),
{
    let m: FrameRate = match master {
        Some(f) => f,
        None => FrameRate { num: 25, den: 1, tens: 0 },
    };
    match mode {
        FpsMode::Disabled => skip(
            String::from_str("FPS normalize: skipped"),
            "disabled by --disable-fps-normalize",
            m,
            None,
        ),
        FpsMode::Forced(ratio) => {
            let donor_fps: Option<DonorRate> = Some(
                DonorRate::Implied { master: m, ratio_nano: ratio },
            );
            let identity = ratio >= 999_000_000 && ratio <= 1_001_000_000;
            if identity {
                let mut title = String::from_str("FPS normalize: skipped (forced ratio ");
                report::push_ratio(&mut title, &Ratio::Nano(ratio));
                title.append(")");
                return skip(
                    title,
                    "forced ratio is identity — no stretch needed",
                    m,
                    donor_fps,
                );
            }
            let mut title = String::from_str("Time-stretching donor audio (forced ratio ");
            report::push_ratio(&mut title, &Ratio::Nano(ratio));
            title.append(")");
            FpsPlan {
                title,
                step: FpsStep::Stretch { ratio: Ratio::Nano(ratio) },
                info: FpsInfo {
                    master_fps: m,
                    donor_fps,
                    stretch_ratio: Some(Ratio::Nano(ratio)),
                    pal_pitch_applied: pal,
                },
            }
        },
        FpsMode::Auto => {
            let d: FrameRate = match donor {
                Some(d) => d,
                None => {
                    return skip(
                        String::from_str("Checking fps"),
                        "donor has no video stream — skipping",
                        m,
                        None,
                    );
                },
            };
            plan_rates(pal, m, d)
        },
    }
}

fn skip(title: String, why: &str, master: FrameRate, donor: Option<DonorRate>) -> (r: FpsPlan)
    ensures
        r@ == (PlanView {
            title: title@,
            skip: Some(why@),
            ratio: None,
            info: info(master, donor, None, false),
        }),
        r.step is Skip,
{
    FpsPlan {
        title,
        step: FpsStep::Skip { summary: String::from_str(why) },
        info: FpsInfo {
            master_fps: master,
            donor_fps: donor,
            stretch_ratio: None,
            pal_pitch_applied: false,
        },
    }
}

/// Forcing a ratio of one is like disabling: nothing is stretched.
pub proof fn law_identity_is_no_stretch(
    pal: bool,
    master: Option<FrameRate>,
    donor: Option<FrameRate>,
)
    ensures
        plan_of(FpsMode::Forced(1_000_000_000), pal, master, donor).skip is Some,
        plan_of(FpsMode::Disabled, pal, master, donor).skip is Some,
{
}

/// A stretch is recorded exactly if one is done, and the pitch is only ever
/// corrected together with a stretch.
pub proof fn law_info_records_the_stretch(
    mode: FpsMode,
    pal: bool,
    master: Option<FrameRate>,
    donor: Option<FrameRate>,
)
    ensures
        ({
            let p = plan_of(mode, pal, master, donor);
            &&& p.skip is None <==> p.ratio is Some
            &&& p.info.stretch_ratio == p.ratio
            &&& p.info.pal_pitch_applied == (pal && p.skip is None)
        }),
{
}

/// A file to be stretched: its path, the stem of its name, and what it holds.
#[derive(Debug)]
pub struct StretchInput {
    pub path: String,
    pub stem: Option<String>,
    pub info: WavInfo,
}

impl StretchInput {
    pub open spec fn wf(&self) -> bool {
        self.info.sample_rate > 0
    }
}

/// A stretch of one file.
#[derive(Debug)]
pub struct StretchJob {
    pub in_path: String,
    /// The name of the result.
    pub out_name: String,
    pub in_frames: u64,
    pub target_ns: i128,
    /// How many frames the result will have.
    pub expected_frames: u64,
}

/// How long a file lasts once stretched, as far as a machine integer can tell.
pub open spec fn target(frames: int, sample_rate: int, ratio: Ratio) -> int {
    let t = time::round_div(frames * 1_000_000_000 * ratio.num(), sample_rate * ratio.den());
    if t > i128::MAX {
        i128::MAX as int
    } else if t < -i128::MAX {
        -i128::MAX as int
    } else {
        t
    }
}

/// How many frames a file has once stretched.
pub open spec fn stretched_frames(frames: int, ratio: Ratio) -> int {
    let n = time::round_div(frames * ratio.num(), ratio.den());
    if n < 0 {
        0
    } else if n > u64::MAX {
        u64::MAX as int
    } else {
        n
    }
}

/// `{stem}_stretched.wav`
pub open spec fn stretched_name(stem: Option<Seq<char>>) -> Seq<char> {
    (match stem {
        Some(s) => s,
        None => "stretched"@,
    }) + "_stretched.wav"@
}

pub open spec fn is_job(job: StretchJob, input: StretchInput, ratio: Ratio) -> bool {
    &&& job.in_path@ == input.path@
    &&& job.out_name@ == stretched_name(args::opt_view(input.stem))
    &&& job.in_frames == input.info.frames
    &&& job.target_ns == target(
        input.info.frames as int,
        input.info.sample_rate as int,
        ratio,
    )
    &&& job.expected_frames == stretched_frames(input.info.frames as int, ratio)
}

/// `n / d` to the nearest integer, for numbers of any size.
fn round_div_wide(n: &Wide, d: &Wide) -> (r: Wide)
    requires
        d@ > 0,
    ensures
        r@ == time::round_div(n@ as int, d@ as int),
{
    let (q, _): (Wide, Wide) = n.times(2).plus(d).over(&d.times(2));
    q
}

/// The signed quotient of a product of `k` and a ratio's numerator.
proof fn lemma_signed_quotient(k: int, size: int, d: int)
    requires
        k >= 0,
        size >= 0,
        d > 0,
    ensures
        k * size >= 0,
        time::round_div(k * size, d) >= 0,
        time::round_div(k * (-size), d) == -time::round_div(k * size, d),
{
    assert(k * (-size) == -(k * size)) by (nonlinear_arith);
    assert(k * size >= 0) by (nonlinear_arith)
        requires
            k >= 0,
            size >= 0,
    ;
    time::lemma_round_div(k * size, d);
    if k * size == 0 {
        time::lemma_round_div_bounds(0, d, 0, 0);
    }
}

fn plan_job(input: &StretchInput, ratio: &Ratio) -> (r: StretchJob)
    requires
        input.wf(),
        ratio.den() > 0,
    ensures
        is_job(r, *input, *ratio),
{
    let frames: u64 = input.info.frames;
    let (negative, n, d): (bool, Wide, Wide) = ratio.parts();
    let long: Wide = n.times(frames as u128 * 1_000_000_000);
    let over: Wide = d.times(input.info.sample_rate as u128);
    proof {
        let (size, den, rate) = (n@ as int, d@ as int, input.info.sample_rate as int);
        assert(den * rate > 0) by (nonlinear_arith)
            requires
                den > 0,
                rate > 0,
        ;
        assert(den * rate == rate * den) by (nonlinear_arith);
        assert(size * (frames * 1_000_000_000) == frames * 1_000_000_000 * size)
            by (nonlinear_arith);
        assert(size * frames == frames * size) by (nonlinear_arith);
        lemma_signed_quotient(frames * 1_000_000_000, size, den * rate);
        lemma_signed_quotient(frames as int, size, den);
    }
    let t: Wide = round_div_wide(&long, &over);
    let most: u128 = i128::MAX as u128;
    let reach: i128 = match t.small() {
        Some(x) => if x > most {
            i128::MAX
        } else {
            x as i128
        },
        None => i128::MAX,
    };
    let target_ns: i128 = if negative {
        -reach
    } else {
        reach
    };
    let expected_frames: u64 = if negative {
        0
    } else {
        match round_div_wide(&n.times(frames as u128), &d).small() {
            Some(x) => if x > u64::MAX as u128 {
                u64::MAX
            } else {
                x as u64
            },
            None => u64::MAX,
        }
    };
    let out_name = match &input.stem {
        Some(s) => args::joined(s.as_str(), "_stretched.wav"),
        None => args::joined("stretched", "_stretched.wav"),
    };
    StretchJob {
        in_path: String::from_str(input.path.as_str()),
        out_name,
        in_frames: frames,
        target_ns,
        expected_frames,
    }
}

/// Plans the stretch of every file: the donor anchor first, then the dubs.
pub fn plan_jobs(inputs: &Vec<StretchInput>, ratio: &Ratio) -> (r: Vec<StretchJob>)
    requires
        ratio.den() > 0,
        forall|i: int| 0 <= i < inputs@.len() ==> (#[trigger] inputs@[i]).wf(),
    ensures
        r@.len() == inputs@.len(),
        forall|i: int| 0 <= i < r@.len() ==> is_job(#[trigger] r@[i], inputs@[i], *ratio),
{
    let mut r: Vec<StretchJob> = Vec::new();
    let mut i: usize = 0;
    while i < inputs.len()
        invariant
            i <= inputs@.len(),
            r@.len() == i,
            ratio.den() > 0,
            forall|k: int| 0 <= k < inputs@.len() ==> (#[trigger] inputs@[k]).wf(),
            forall|k: int| 0 <= k < i ==> is_job(#[trigger] r@[k], inputs@[k], *ratio),
        decreases inputs@.len() - i,
    {
        r.push(plan_job(&inputs[i], ratio));
        i += 1;
    }
    r
}

/// How long the first `n` files last together.
pub open spec fn total_ns(inputs: Seq<StretchInput>, n: int) -> int
    decreases n,
{
    if n <= 0 {
        0
    } else {
        total_ns(inputs, n - 1) + time::to_ns(
            inputs[n - 1].info.frames as int,
            inputs[n - 1].info.sample_rate as int,
        )
    }
}

fn total_duration(inputs: &Vec<StretchInput>) -> (r: u128)
    requires
        inputs@.len() <= 0xffff_ffff,
        forall|i: int| 0 <= i < inputs@.len() ==> (#[trigger] inputs@[i]).wf(),
    ensures
        r == total_ns(inputs@, inputs@.len() as int),
        r <= 0xffff_ffff * (u64::MAX * 1_000_000_000),
{
    let mut r: u128 = 0;
    let mut i: usize = 0;
    while i < inputs.len()
        invariant
            i <= inputs@.len() <= 0xffff_ffff,
            forall|k: int| 0 <= k < inputs@.len() ==> (#[trigger] inputs@[k]).wf(),
            r == total_ns(inputs@, i as int),
            r <= i * (u64::MAX * 1_000_000_000),
        decreases inputs@.len() - i,
    {
        assert(inputs@[i as int].wf());
        let frames: u64 = inputs[i].info.frames;
        let sample_rate: u32 = inputs[i].info.sample_rate;
        let t: i128 = time::div_round(frames as i128 * 1_000_000_000, sample_rate as i128);
        proof {
            let n = frames * 1_000_000_000;
            time::lemma_round_div(n, sample_rate as int);
            assert(sample_rate * (u64::MAX * 1_000_000_000) >= u64::MAX
                * 1_000_000_000) by (nonlinear_arith)
                requires
                    sample_rate >= 1,
            ;
            time::lemma_round_div_bounds(
                n,
                sample_rate as int,
                0,
                u64::MAX * 1_000_000_000,
            );
            assert((i + 1) * (u64::MAX * 1_000_000_000) == i * (u64::MAX
                * 1_000_000_000) + u64::MAX * 1_000_000_000) by (nonlinear_arith);
            assert((i + 1) * (u64::MAX * 1_000_000_000) <= 0xffff_ffff * (u64::MAX
                * 1_000_000_000)) by (nonlinear_arith)
                requires
                    i + 1 <= 0xffff_ffff,
            ;
        }
        r += t as u128;
        i += 1;
    }
    proof {
        assert(i * (u64::MAX * 1_000_000_000) <= 0xffff_ffff * (u64::MAX
            * 1_000_000_000)) by (nonlinear_arith)
            requires
                i <= 0xffff_ffff,
        ;
    }
    r
}

/// How long the stretch is expected to take: a sixth of what it works on, and
/// at least a second.
pub open spec fn eta(total_ns: int) -> int {
    time::min2(time::max2(total_ns / 6, 1_000_000_000), u64::MAX as int)
}

/// What is announced about a stretch.
pub open spec fn stretch_detail(files: nat, total_ns: int, pal: bool) -> Seq<char> {
    text::decimal(files) + " file(s), "@ + fixed::fixed(
        fixed::round_even(total_ns, 6_000_000_000),
        10,
        1,
    ) + " min total"@ + (if pal {
        ", with PAL pitch correction"@
    } else {
        ""@
    })
}

/// Announces a stretch: how long it may take, and what it works on.
pub fn announce(inputs: &Vec<StretchInput>, pal: bool) -> (r: (u64, String))
    requires
        inputs@.len() <= 0xffff_ffff,
        forall|i: int| 0 <= i < inputs@.len() ==> (#[trigger] inputs@[i]).wf(),
    ensures
        r.0 == eta(total_ns(inputs@, inputs@.len() as int)),
        r.1@ == stretch_detail(inputs@.len(), total_ns(inputs@, inputs@.len() as int), pal),
{
    let total: u128 = total_duration(inputs);
    let sixth: u128 = total / 6;
    let eta_ns: u64 = if sixth < 1_000_000_000 {
        1_000_000_000
    } else if sixth > u64::MAX as u128 {
        u64::MAX
    } else {
        sixth as u64
    };
    let mut detail = String::new();
    text::push_decimal(&mut detail, inputs.len() as u64);
    detail.append(" file(s), ");
    let minutes: u128 = fixed::round_even_of(total, 6_000_000_000);
    fixed::push_fixed(&mut detail, minutes, 10, 1);
    detail.append(" min total");
    detail.append(
        if pal {
            ", with PAL pitch correction"
        } else {
            ""
        },
    );
    assert(detail@ =~= stretch_detail(inputs@.len(), total as int, pal));
    (eta_ns, detail)
}

pub open spec fn sum(s: Seq<u64>) -> int
    decreases s.len(),
{
    if s.len() == 0 {
        0
    } else {
        sum(s.drop_last()) + s.last()
    }
}

/// How many of the files are done: those that are to have frames and have them
/// all.
pub open spec fn done_files(done: Seq<u64>, expected: Seq<u64>, n: int) -> int
    decreases n,
{
    if n <= 0 {
        0
    } else {
        done_files(done, expected, n - 1) + if done[n - 1] >= expected[n - 1] && expected[n - 1]
            > 0 {
            1int
        } else {
            0
        }
    }
}

fn sum_of(v: &Vec<u64>) -> (r: u128)
    requires
        v@.len() <= 0xffff_ffff,
    ensures
        r == sum(v@),
        r <= 0xffff_ffff * 0xffff_ffff_ffff_ffff,
{
    let mut r: u128 = 0;
    let mut i: usize = 0;
    while i < v.len()
        invariant
            i <= v@.len() <= 0xffff_ffff,
            r == sum(v@.take(i as int)),
            r <= i * 0xffff_ffff_ffff_ffff,
        decreases v@.len() - i,
    {
        r += v[i] as u128;
        i += 1;
        assert(v@.take(i as int).drop_last() =~= v@.take(i - 1));
    }
    assert(v@.take(i as int) =~= v@);
    r
}

/// The progress of all stretches together, in millionths, and the number of
/// files that are done.
pub fn stretch_status(done: &Vec<u64>, expected: &Vec<u64>) -> (r: (u32, usize))
    requires
        done@.len() == expected@.len() <= 0xffff_ffff,
    ensures
        r.0 == progress::share(sum(done@), time::max2(sum(expected@), 1)),
        r.1 == done_files(done@, expected@, done@.len() as int),
{
    let done_sum: u128 = sum_of(done);
    let expected_sum: u128 = sum_of(expected);
    let total: u128 = if expected_sum > 1 {
        expected_sum
    } else {
        1
    };
    let fraction: u32 = if done_sum >= total {
        1_000_000
    } else {
        let q: u128 = done_sum * 1_000_000 / total;
        proof {
            vstd::arithmetic::div_mod::lemma_div_is_ordered(
                done_sum * 1_000_000,
                total * 1_000_000,
                total as int,
            );
            vstd::arithmetic::div_mod::lemma_div_multiples_vanish(1_000_000, total as int);
            assert(total * 1_000_000 == 1_000_000 * total) by (nonlinear_arith);
        }
        q as u32
    };
    let mut files: usize = 0;
    let mut i: usize = 0;
    while i < done.len()
        invariant
            i <= done@.len() == expected@.len(),
            files == done_files(done@, expected@, i as int),
            files <= i,
        decreases done@.len() - i,
    {
        if done[i] >= expected[i] && expected[i] > 0 {
            files += 1;
        }
        i += 1;
    }
    (fraction, files)
}

/// The frames of a file that count as done at a fraction of it.
pub open spec fn done_frames(expected: int, fraction_ppm: int) -> int {
    expected * fraction_ppm / 1_000_000
}

/// How many frames of a file count as done at a fraction of it.
pub fn frames_done(expected: u64, fraction_ppm: u32) -> (r: u64)
    requires
        fraction_ppm <= 1_000_000,
    ensures
        r == done_frames(expected as int, fraction_ppm as int),
{
    proof {
        assert(0 <= expected * fraction_ppm <= expected * 1_000_000) by (nonlinear_arith)
            requires
                0 <= fraction_ppm <= 1_000_000,
                0 <= expected,
        ;
    }
    (expected as u128 * fraction_ppm as u128 / 1_000_000) as u64
}

/// A finished stretch in words. `semitones` is what the pitch was changed by.
pub open spec fn stretched_text(files: nat, ratio: Ratio, semitones: Option<Seq<char>>) -> Seq<char> {
    "stretched "@ + text::decimal(files) + " file(s) by ratio "@ + report::ratio_text(ratio) + (
    match semitones {
        Some(s) => " (pitch "@ + s + " semitones)"@,
        None => ""@,
    })
}

pub fn stretched_summary(files: usize, ratio: &Ratio, semitones: Option<&str>) -> (r: String)
    ensures
        r@ == stretched_text(files as nat, *ratio, args::opt_str_view(semitones)),
{
    let mut r = String::from_str("stretched ");
    text::push_decimal(&mut r, files as u64);
    r.append(" file(s) by ratio ");
    report::push_ratio(&mut r, ratio);
    match semitones {
        Some(s) => {
            let mut p = String::from_str(" (pitch ");
            p.append(s);
            p.append(" semitones)");
            r.append(p.as_str());
        },
        None => {
            r.append("");
        },
    }
    r
}

/// Takes the stretched files in place of the extracted ones: the first for the
/// donor anchor, the others for the dubs in order. The master anchor stays.
pub fn adopt_stretched(
    anchors: &mut ExtractedAnchors,
    dubs: &mut Vec<ExtractedDub>,
    outputs: &Vec<String>,
)
    requires
        outputs@.len() == old(dubs)@.len() + 1,
    ensures
        final(anchors).donor_anchor_wav@ == outputs@[0]@,
        final(anchors).master_anchor_wav == old(anchors).master_anchor_wav,
        final(dubs)@.len() == old(dubs)@.len(),
        forall|i: int|
            0 <= i < old(dubs)@.len() ==> (#[trigger] final(dubs)@[i]).wav@ == outputs@[i + 1]@
                && final(dubs)@[i].donor_index == old(dubs)@[i].donor_index,
{
    anchors.donor_anchor_wav = outputs[0].clone();
    let n: usize = dubs.len();
    let mut k: usize = 0;
    while k < n
        invariant
            k <= n,
            n == dubs@.len(),
            n == old(dubs)@.len(),
            outputs@.len() == n + 1,
            forall|i: int|
                0 <= i < k ==> (#[trigger] dubs@[i]).wav@ == outputs@[i + 1]@
                    && dubs@[i].donor_index == old(dubs)@[i].donor_index,
            forall|i: int| k <= i < n ==> #[trigger] dubs@[i] == old(dubs)@[i],
        decreases n - k,
    {
        let stretched = ExtractedDub {
            donor_index: dubs[k].donor_index,
            wav: outputs[k + 1].clone(),
        };
        dubs.set(k, stretched);
        k = k + 1;
    }
}

/// With both rates known, the donor is left alone if and only if its rate is
/// within a thousandth of the master's, above it or below it; otherwise it is
/// stretched by its rate over the master's.
pub proof fn law_auto_stretches_what_differs(pal: bool, m: FrameRate, d: FrameRate)
    requires
        m.wf(),
        d.wf(),
    ensures
        ({
            let p = plan_of(FpsMode::Auto, pal, Some(m), Some(d));
            let donor = d.top() * m.bottom();
            let master = m.top() * d.bottom();
            &&& p.ratio is None <==> 999 * master <= 1000 * donor && 1000 * donor <= 1001 * master
            &&& p.skip is Some <==> p.ratio is None
            &&& p.ratio matches Some(r) ==> r.den() > 0 && r.num() * master == r.den() * donor
            &&& p.info.master_fps == m
            &&& p.info.donor_fps == Some(DonorRate::Found(d))
        }),
{
    crate::rate::law_ratio_of_rates(d, m);
    d.lemma_parts();
    m.lemma_parts();
    let (a, b) = (m.top(), d.bottom());
    assert(a * b == b * a) by (nonlinear_arith);
}

/// A donor that is slower than the master is stretched just as one that is
/// faster: swapping two rates two thousandths apart swaps the ratio for
/// its inverse.
pub proof fn law_either_side_may_be_faster(pal: bool, m: FrameRate, d: FrameRate)
    requires
        m.wf(),
        d.wf(),
        1002 * (m.top() * d.bottom()) < 1000 * (d.top() * m.bottom()) || 1002 * (d.top()
            * m.bottom()) < 1000 * (m.top() * d.bottom()),
    ensures
        ({
            let p = plan_of(FpsMode::Auto, pal, Some(m), Some(d)).ratio;
            let q = plan_of(FpsMode::Auto, pal, Some(d), Some(m)).ratio;
            &&& p is Some
            &&& q is Some
            &&& p->0.num() == q->0.den()
            &&& p->0.den() == q->0.num()
        }),
{
    d.lemma_parts();
    m.lemma_parts();
    let (a, b, x, y) = (m.top(), d.bottom(), d.top(), m.bottom());
    assert(a * b == b * a && x * y == y * x) by (nonlinear_arith);
    assert(a * b > 0 && x * y > 0) by (nonlinear_arith)
        requires
            a > 0,
            b > 0,
            x > 0,
            y > 0,
    ;
}

/// A forced ratio is what the donor is stretched by, unless it is within a
/// thousandth of one, whatever the rates are.
pub proof fn law_forced_ratio_is_used(
    r: i64,
    pal: bool,
    master: Option<FrameRate>,
    donor: Option<FrameRate>,
)
    ensures
        ({
            let p = plan_of(FpsMode::Forced(r), pal, master, donor);
            &&& p.ratio is None <==> 999_000_000 <= r <= 1_001_000_000
            &&& p.ratio matches Some(q) ==> q.den() > 0 && q.num() * 1_000_000_000 == r * q.den()
            &&& p.info.donor_fps matches Some(DonorRate::Implied { master: f, ratio_nano }) && f
                == p.info.master_fps && ratio_nano == r
        }),
{
    crate::rate::law_given_ratio(r);
}

/// Without a policy that stretches, and without a donor rate to compare, there
/// is no stretch. A master that does not tell has 25 frames per second.
pub proof fn law_no_stretch_without_cause(pal: bool, master: Option<FrameRate>, donor: Option<FrameRate>)
    ensures
        plan_of(FpsMode::Disabled, pal, master, donor).ratio is None,
        plan_of(FpsMode::Auto, pal, master, None).ratio is None,
        ({
            let told = plan_of(FpsMode::Auto, pal, master, donor).info.master_fps;
            match master {
                Some(m) => told == m,
                None => told.top() == 25 * told.bottom() && told.bottom() > 0,
            }
        }),
{
    crate::rate::law_rate_is_its_fraction(usual_rate());
}

/// A stretched file lasts as long as before times the ratio, to half a
/// nanosecond, and has as many frames as before times the ratio, to half a
/// frame, as far as machine integers reach.
pub proof fn law_stretch_is_by_the_ratio(job: StretchJob, input: StretchInput, ratio: Ratio)
    requires
        input.wf(),
        ratio.den() > 0,
        is_job(job, input, ratio),
    ensures
        ({
            let long = input.info.frames * 1_000_000_000 * ratio.num();
            let unit = input.info.sample_rate * ratio.den();
            let frames = input.info.frames * ratio.num();
            &&& -i128::MAX < job.target_ns < i128::MAX ==> -unit <= 2 * (job.target_ns * unit - long)
                <= unit
            &&& job.target_ns == i128::MAX ==> 2 * long >= (2 * i128::MAX - 1) * unit
            &&& job.target_ns == -i128::MAX ==> 2 * long <= (1 - 2 * i128::MAX) * unit
            &&& ratio.num() >= 0 && job.expected_frames < u64::MAX ==> -ratio.den() <= 2 * (
            job.expected_frames * ratio.den() - frames) <= ratio.den()
            &&& job.expected_frames == u64::MAX ==> 2 * frames >= (2 * u64::MAX - 1) * ratio.den()
            &&& ratio.num() <= 0 ==> job.expected_frames == 0
            &&& job.in_frames == input.info.frames
        }),
{
    let f = input.info.frames as int;
    let (num, den) = (ratio.num(), ratio.den());
    let unit = input.info.sample_rate * den;
    assert(unit > 0) by (nonlinear_arith)
        requires
            unit == input.info.sample_rate * den,
            input.info.sample_rate > 0,
            den > 0,
    ;
    let long = f * 1_000_000_000 * num;
    let frames = f * num;
    time::law_rounding(long, unit);
    time::law_rounding(frames, den);
    let q = time::round_div(long, unit);
    let n = time::round_div(frames, den);
    assert(q >= i128::MAX ==> q * unit >= i128::MAX * unit) by (nonlinear_arith)
        requires
            unit > 0,
    ;
    assert(q <= -i128::MAX ==> q * unit <= -i128::MAX * unit) by (nonlinear_arith)
        requires
            unit > 0,
    ;
    assert((2 * i128::MAX - 1) * unit == 2 * (i128::MAX * unit) - unit) by (nonlinear_arith);
    assert((1 - 2 * i128::MAX) * unit == unit - 2 * (i128::MAX * unit)) by (nonlinear_arith);
    assert(-i128::MAX * unit == -(i128::MAX * unit)) by (nonlinear_arith);
    assert(n >= u64::MAX ==> n * den >= u64::MAX * den) by (nonlinear_arith)
        requires
            den > 0,
    ;
    assert((2 * u64::MAX - 1) * den == 2 * (u64::MAX * den) - den) by (nonlinear_arith);
    assert(num >= 0 ==> frames >= 0) by (nonlinear_arith)
        requires
            frames == f * num,
            f >= 0,
    ;
    assert(num <= 0 ==> frames <= 0) by (nonlinear_arith)
        requires
            frames == f * num,
            f >= 0,
    ;
    time::lemma_round_div(frames, den);
}

/// The time a stretch is said to take is a sixth of what it works on, and a
/// second at least.
pub proof fn law_eta(total_ns: int)
    requires
        total_ns <= u64::MAX,
    ensures
        eta(total_ns) >= 1_000_000_000,
        total_ns >= 6_000_000_000 ==> 6 * eta(total_ns) <= total_ns < 6 * eta(total_ns) + 6,
        total_ns <= 6_000_000_000 ==> eta(total_ns) == 1_000_000_000,
{
}

/// The frames that count as done are the fraction of all, rounded down: none at
/// the start, all at the end.
pub proof fn law_done_frames(expected: int, fraction_ppm: int)
    requires
        0 <= expected,
        0 <= fraction_ppm <= 1_000_000,
    ensures
        1_000_000 * done_frames(expected, fraction_ppm) <= expected * fraction_ppm < 1_000_000
            * done_frames(expected, fraction_ppm) + 1_000_000,
        done_frames(expected, 1_000_000) == expected,
        done_frames(expected, 0) == 0,
{
}

/// A file counts as done once all its frames are; one without frames never does.
pub proof fn law_done_files(done: Seq<u64>, expected: Seq<u64>, n: int)
    requires
        0 <= n < done.len(),
        n < expected.len(),
    ensures
        done[n] >= expected[n] > 0 ==> done_files(done, expected, n + 1) == done_files(
            done,
            expected,
            n,
        ) + 1,
        done[n] < expected[n] || expected[n] == 0 ==> done_files(done, expected, n + 1)
            == done_files(done, expected, n),
        done_files(done, expected, 0) == 0,
{
}

/// The work of several files is that of each, added up.
pub proof fn law_work_adds_up(a: Seq<u64>, x: u64)
    ensures
        sum(Seq::empty()) == 0,
        sum(a.push(x)) == sum(a) + x,
{
    assert(a.push(x).drop_last() =~= a);
}

/// The durations of the files that are stretched add up.
pub proof fn law_durations_add_up(inputs: Seq<StretchInput>, n: int)
    requires
        0 <= n < inputs.len(),
        inputs[n].info.sample_rate > 0,
    ensures
        total_ns(inputs, 0) == 0,
        ({
            let rate = inputs[n].info.sample_rate as int;
            let more = total_ns(inputs, n + 1) - total_ns(inputs, n);
            -rate <= 2 * (more * rate - inputs[n].info.frames * 1_000_000_000) <= rate
        }),
{
    time::law_time_of_samples(inputs[n].info.frames as int, inputs[n].info.sample_rate as int);
}

/// A stretch is announced with the number of its files and their minutes, to a
/// tenth.
pub proof fn law_stretch_is_announced(files: nat, total_ns: int, pal: bool)
    requires
        total_ns >= 0,
    ensures
        exists|t: Seq<char>, q: int|
            #![trigger fixed::reads(t, 1, 0, q)]
            {
                &&& fixed::reads(t, 1, 0, q)
                &&& -6_000_000_000 <= 2 * (q * 6_000_000_000 - total_ns) <= 6_000_000_000
                &&& pal ==> stretch_detail(files, total_ns, pal) == text::decimal(files)
                    + " file(s), "@ + t + " min total"@ + ", with PAL pitch correction"@
                &&& !pal ==> stretch_detail(files, total_ns, pal) == text::decimal(files)
                    + " file(s), "@ + t + " min total"@ + ""@
            },
{
    let q = fixed::round_even(total_ns, 6_000_000_000);
    fixed::law_round_even(total_ns, 6_000_000_000);
    fixed::law_tenths_are_read(q);
    assert(fixed::reads(fixed::fixed(q, 10, 1), 1, 0, q));
}

} // verus!
