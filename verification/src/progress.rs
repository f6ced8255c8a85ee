//! Progress of a run: the events of its phases, and what becomes of them.
use crossbeam_channel::Sender;
use vstd::prelude::*;
use crate::args;
use crate::report::RunSummary;
use crate::text;

verus! {

/// The phases of a run.
#[derive(Clone, Copy, Debug, PartialEq, Eq, Hash, Structural)]
pub enum PhaseId {
    Workspace,
    ExtractAnchors,
    ExtractDubs,
    FpsNormalize,
    Correlate,
    Splice,
    Remux,
}

impl PhaseId {
    pub const TOTAL: usize = 7;

    pub open spec fn number(self) -> nat {
        match self {
            PhaseId::Workspace => 1,
            PhaseId::ExtractAnchors => 2,
            PhaseId::ExtractDubs => 3,
            PhaseId::FpsNormalize => 4,
            PhaseId::Correlate => 5,
            PhaseId::Splice => 6,
            PhaseId::Remux => 7,
        }
    }

    /// The step number, counted from one.
    pub fn ordinal(self) -> (r: usize)
        ensures
            r == self.number(),
    {
        match self {
            PhaseId::Workspace => 1,
            PhaseId::ExtractAnchors => 2,
            PhaseId::ExtractDubs => 3,
            PhaseId::FpsNormalize => 4,
            PhaseId::Correlate => 5,
            PhaseId::Splice => 6,
            PhaseId::Remux => 7,
        }
    }
}

/// Step numbers run from one to the number of phases, and no two phases share
/// one.
pub proof fn law_ordinals(a: PhaseId, b: PhaseId)
    ensures
        1 <= a.number() <= PhaseId::TOTAL,
        a.number() == b.number() ==> a == b,
{
}

/// What happens in a run. Fractions are millionths.
#[derive(Clone, Debug)]
pub enum PipelineEvent {
    PhaseStarted {
        id: PhaseId,
        title: String,
        /// How long the phase is expected to take, in nanoseconds.
        eta_hint_ns: Option<u64>,
        detail: Option<String>,
    },
    PhaseProgress { id: PhaseId, fraction_ppm: u32, detail: Option<String> },
    PhaseFinished { id: PhaseId, summary: Option<String> },
    PhaseFailed { id: PhaseId, error: String },
    /// Once, at the end of a successful run.
    RunSummary(Box<RunSummary>),
}

/// An event with its texts as characters.
pub enum EventView {
    Started {
        id: PhaseId,
        title: Seq<char>,
        eta_hint_ns: Option<u64>,
        detail: Option<Seq<char>>,
    },
    Progress { id: PhaseId, fraction_ppm: u32, detail: Option<Seq<char>> },
    Finished { id: PhaseId, summary: Option<Seq<char>> },
    Failed { id: PhaseId, error: Seq<char> },
    Summary(RunSummary),
}

impl View for PipelineEvent {
    type V = EventView;

    open spec fn view(&self) -> EventView {
        match self {
            PipelineEvent::PhaseStarted { id, title, eta_hint_ns, detail } => EventView::Started {
                id: *id,
                title: title@,
                eta_hint_ns: *eta_hint_ns,
                detail: args::opt_view(*detail),
            },
            PipelineEvent::PhaseProgress { id, fraction_ppm, detail } => EventView::Progress {
                id: *id,
                fraction_ppm: *fraction_ppm,
                detail: args::opt_view(*detail),
            },
            PipelineEvent::PhaseFinished { id, summary } => EventView::Finished {
                id: *id,
                summary: args::opt_view(*summary),
            },
            PipelineEvent::PhaseFailed { id, error } => EventView::Failed {
                id: *id,
                error: error@,
            },
            PipelineEvent::RunSummary(s) => EventView::Summary(**s),
        }
    }
}

/// Whole percent of a fraction in millionths, at most a hundred.
pub open spec fn percent(fraction_ppm: u32) -> int {
    if fraction_ppm >= 1_000_000 {
        100
    } else {
        fraction_ppm as int / 10_000
    }
}

/// Whole percent of a fraction, for updates that are due once per percent.
pub fn percent_of(fraction_ppm: u32) -> (r: i32)
    ensures
        r == percent(fraction_ppm),
        0 <= r <= 100,
{
    if fraction_ppm >= 1_000_000 {
        100
    } else {
        (fraction_ppm / 10_000) as i32
    }
}

/// `done` of `total` in millionths.
pub open spec fn share(done: int, total: int) -> int {
    if done >= total {
        1_000_000
    } else {
        done * 1_000_000 / total
    }
}

pub fn share_of(done: u64, total: u64) -> (r: u32)
    ensures
        r == share(done as int, total as int),
        r <= 1_000_000,
{
    if done >= total {
        return 1_000_000;
    }
    let q: u128 = done as u128 * 1_000_000 / total as u128;
    proof {
        vstd::arithmetic::div_mod::lemma_div_is_ordered(
            done * 1_000_000,
            total * 1_000_000,
            total as int,
        );
        vstd::arithmetic::div_mod::lemma_div_multiples_vanish(1_000_000, total as int);
        assert(total * 1_000_000 == 1_000_000 * total) by (nonlinear_arith);
    }
    q as u32
}

/// Takes the events of a run. What it returns is for standard error.
pub trait ProgressReporter {
    fn emit(&mut self, ev: PipelineEvent) -> String;
}

/// Takes events and does nothing.
pub struct NullReporter;

impl ProgressReporter for NullReporter {
    fn emit(&mut self, ev: PipelineEvent) -> (r: String)
        ensures
            r@.len() == 0,
    {
        String::new()
    }
}

/// Reports on standard error: a line for each phase. On a terminal, progress
/// inside a phase rewrites its line, once per percent; elsewhere it is left
/// out.
pub struct StderrReporter {
    pub is_tty: bool,
    /// The percentage that was last written for the phase; -1 if none was.
    pub last_fraction_pct: i32,
    /// The last write left a line without its end.
    pub pending_newline: bool,
}

/// `5s`, or `2m05s` from a minute on.
pub open spec fn duration_text(total_s: nat) -> Seq<char> {
    if total_s >= 60 {
        text::decimal(total_s / 60) + "m"@ + text::zero_pad(text::decimal(total_s % 60), 2) + "s"@
    } else {
        text::decimal(total_s) + "s"@
    }
}

/// A duration in whole minutes and seconds.
pub fn format_duration(total_s: u64) -> (r: String)
    ensures
        r@ == duration_text(total_s as nat),
{
    let mut r = String::new();
    if total_s >= 60 {
        text::push_decimal(&mut r, total_s / 60);
        r.append("m");
        text::push_padded(&mut r, total_s % 60, 2);
        r.append("s");
    } else {
        text::push_decimal(&mut r, total_s);
        r.append("s");
    }
    assert(r@ =~= duration_text(total_s as nat));
    r
}

/// `[3/7] `
pub open spec fn step_text(id: PhaseId) -> Seq<char> {
    "["@ + text::decimal(id.number()) + "/"@ + text::decimal(PhaseId::TOTAL as nat) + "] "@
}

/// An addition behind a dash.
pub open spec fn addition(s: Option<Seq<char>>) -> Seq<char> {
    match s {
        Some(t) => " — "@ + t,
        None => ""@,
    }
}

/// What an event adds to standard error, an unfinished line not counted.
pub open spec fn event_text(ev: EventView) -> Seq<char> {
    match ev {
        EventView::Started { id, title, eta_hint_ns, detail } => step_text(id) + title + (
        match eta_hint_ns {
            Some(ns) => " (~"@ + duration_text((ns / 1_000_000_000) as nat) + ")"@,
            None => ""@,
        }) + addition(detail) + "\n"@,
        EventView::Progress { id, fraction_ppm, detail } => "\r    "@ + step_text(id)
            + crate::ffprobe::pad_left(text::decimal(percent(fraction_ppm) as nat), 3) + "%"@
            + addition(detail),
        EventView::Finished { id, summary } => "    "@ + step_text(id) + "done"@ + addition(summary)
            + "\n"@,
        EventView::Failed { id, error } => "    "@ + step_text(id) + "FAILED: "@ + error + "\n"@,
        EventView::Summary(s) => "─── run summary ───\n"@ + text::flat(
            summary_line(s),
            s.lines().len() as int,
        ),
    }
}

pub open spec fn summary_line(s: RunSummary) -> spec_fn(int) -> Seq<char> {
    |i: int| "  "@ + s.lines()[i] + "\n"@
}

fn push_step(out: &mut String, id: PhaseId)
    ensures
        final(out)@ == old(out)@ + step_text(id),
{
    let ghost start = out@;
    out.append("[");
    text::push_decimal(out, id.ordinal() as u64);
    out.append("/");
    text::push_decimal(out, PhaseId::TOTAL as u64);
    out.append("] ");
    assert(out@ =~= start + step_text(id));
}

fn push_addition(out: &mut String, s: &Option<String>)
    ensures
        final(out)@ == old(out)@ + addition(args::opt_view(*s)),
{
    match s {
        Some(t) => {
            let a = args::joined(" — ", t.as_str());
            out.append(a.as_str());
        },
        None => {
            out.append("");
        },
    }
}

fn push_summary(out: &mut String, s: &RunSummary)
    ensures
        final(out)@ == old(out)@ + text::flat(summary_line(*s), s.lines().len() as int),
{
    let lines = s.human_lines();
    let ghost start = out@;
    let mut i: usize = 0;
    assert(start =~= start + text::flat(summary_line(*s), 0));
    while i < lines.len()
        invariant
            i <= lines@.len(),
            args::views(lines@) == s.lines(),
            out@ == start + text::flat(summary_line(*s), i as int),
        decreases lines@.len() - i,
    {
        assert(s.lines()[i as int] == lines@[i as int]@);
        let mut l = String::from_str("  ");
        l.append(lines[i].as_str());
        l.append("\n");
        out.append(l.as_str());
        i += 1;
        assert(out@ =~= start + text::flat(summary_line(*s), i as int));
    }
}

/// What an event adds to standard error.
pub fn describe(ev: &PipelineEvent) -> (r: String)
    ensures
        r@ == event_text(ev@),
{
    let mut r = String::new();
    match ev {
        PipelineEvent::PhaseStarted { id, title, eta_hint_ns, detail } => {
            push_step(&mut r, *id);
            r.append(title.as_str());
            match eta_hint_ns {
                Some(ns) => {
                    let mut eta = String::from_str(" (~");
                    eta.append(format_duration(*ns / 1_000_000_000).as_str());
                    eta.append(")");
                    r.append(eta.as_str());
                },
                None => {
                    r.append("");
                },
            }
            push_addition(&mut r, detail);
            r.append("\n");
        },
        PipelineEvent::PhaseProgress { id, fraction_ppm, detail } => {
            r.append("\r    ");
            push_step(&mut r, *id);
            let mut pct = String::new();
            text::push_decimal(&mut pct, percent_of(*fraction_ppm) as u64);
            assert(pct@ =~= text::decimal(percent(*fraction_ppm) as nat));
            crate::ffprobe::push_left_padded(&mut r, pct.as_str(), 3);
            r.append("%");
            push_addition(&mut r, detail);
        },
        PipelineEvent::PhaseFinished { id, summary } => {
            r.append("    ");
            push_step(&mut r, *id);
            r.append("done");
            push_addition(&mut r, summary);
            r.append("\n");
        },
        PipelineEvent::PhaseFailed { id, error } => {
            r.append("    ");
            push_step(&mut r, *id);
            r.append("FAILED: ");
            r.append(error.as_str());
            r.append("\n");
        },
        PipelineEvent::RunSummary(s) => {
            r.append("─── run summary ───\n");
            push_summary(&mut r, &**s);
        },
    }
    assert(r@ =~= event_text(ev@));
    r
}

impl StderrReporter {
    /// Nothing has been written.
    pub fn new(is_tty: bool) -> (r: Self)
        ensures
            r == (StderrReporter {
                is_tty,
                last_fraction_pct: (-1) as i32,
                pending_newline: false,
            }),
    {
        StderrReporter { is_tty, last_fraction_pct: -1, pending_newline: false }
    }

    /// Progress that is written: on a terminal, if the percentage is new.
    pub open spec fn writes_progress(&self, fraction_ppm: u32) -> bool {
        self.is_tty && percent(fraction_ppm) != self.last_fraction_pct
    }

    /// What is written for an event.
    pub open spec fn written(&self, ev: EventView) -> Seq<char> {
        match ev {
            EventView::Progress { id, fraction_ppm, detail } => if self.writes_progress(
                fraction_ppm,
            ) {
                event_text(ev)
            } else {
                Seq::empty()
            },
            _ => if self.pending_newline {
                "\n"@ + event_text(ev)
            } else {
                event_text(ev)
            },
        }
    }

    /// The state after an event.
    pub open spec fn after(&self, ev: EventView) -> StderrReporter {
        match ev {
            EventView::Progress { id, fraction_ppm, detail } => if self.writes_progress(
                fraction_ppm,
            ) {
                StderrReporter {
                    is_tty: self.is_tty,
                    last_fraction_pct: percent(fraction_ppm) as i32,
                    pending_newline: true,
                }
            } else {
                *self
            },
            _ => StderrReporter {
                is_tty: self.is_tty,
                last_fraction_pct: (-1) as i32,
                pending_newline: false,
            },
        }
    }
}

impl ProgressReporter for StderrReporter {
    fn emit(&mut self, ev: PipelineEvent) -> (r: String)
        ensures
            r@ == old(self).written(ev@),
            *final(self) == old(self).after(ev@),
    {
        if let PipelineEvent::PhaseProgress { fraction_ppm, .. } = &ev {
            let pct: i32 = percent_of(*fraction_ppm);
            if !self.is_tty || pct == self.last_fraction_pct {
                return String::new();
            }
            self.last_fraction_pct = pct;
            self.pending_newline = true;
            return describe(&ev);
        }
        let pending = self.pending_newline;
        self.last_fraction_pct = -1;
        self.pending_newline = false;
        if pending {
            args::joined("\n", describe(&ev).as_str())
        } else {
            describe(&ev)
        }
    }
}

/// Off a terminal, progress inside a phase leaves no trace, and no line is ever
/// left without its end.
pub proof fn law_quiet_off_terminal(reporter: StderrReporter, ev: EventView)
    requires
        !reporter.is_tty,
        !reporter.pending_newline,
    ensures
        !reporter.after(ev).is_tty,
        !reporter.after(ev).pending_newline,
        ev is Progress ==> reporter.written(ev).len() == 0 && reporter.after(ev) == reporter,
{
}

/// A second update at the same percentage writes nothing.
pub proof fn law_progress_is_throttled(reporter: StderrReporter, a: EventView, b: EventView)
    requires
        a matches EventView::Progress { fraction_ppm: p, .. } && b matches EventView::Progress {
            fraction_ppm: q,
            ..
        } && percent(p) == percent(q),
    ensures
        reporter.after(a).written(b).len() == 0,
        reporter.after(a).after(b) == reporter.after(a),
{
}

/// The outside type `crossbeam_channel::Sender`: the sending side of a channel.
#[verifier::external_type_specification]
#[verifier::external_body]
#[verifier::reject_recursive_types(T)]
pub struct ExSender<T>(crossbeam_channel::Sender<T>);

/// `crossbeam_channel::Sender::try_send`: puts a message into the channel
/// without waiting, and says whether it went in. Whether it does depends on
/// how full the channel is and on its receivers, so nothing is promised.
#[verifier::external_body]
fn try_send(tx: &Sender<PipelineEvent>, ev: PipelineEvent) -> (sent: bool) {
    tx.try_send(ev).is_ok()
}

/// Hands events to another thread. One that finds the channel full is dropped,
/// so that a slow receiver never holds up the run.
pub struct ChannelReporter {
    pub tx: Sender<PipelineEvent>,
}

impl ChannelReporter {
    pub fn new(tx: Sender<PipelineEvent>) -> (r: Self)
        ensures
            r.tx == tx,
    {
        ChannelReporter { tx }
    }
}

impl ProgressReporter for ChannelReporter {
    fn emit(&mut self, ev: PipelineEvent) -> (r: String)
        ensures
            r@.len() == 0,
            *final(self) == *old(self),
    {
        try_send(&self.tx, ev);
        String::new()
    }
}

/// A percentage is the whole hundredths of the fraction, at most a hundred.
pub proof fn law_percent(fraction_ppm: u32)
    ensures
        fraction_ppm >= 1_000_000 ==> percent(fraction_ppm) == 100,
        fraction_ppm < 1_000_000 ==> 10_000 * percent(fraction_ppm) <= fraction_ppm < 10_000
            * percent(fraction_ppm) + 10_000,
{
}

/// A share is in millionths, rounded down, and whole once everything is done.
pub proof fn law_share(done: int, total: int)
    requires
        0 <= done,
        0 < total,
    ensures
        done >= total ==> share(done, total) == 1_000_000,
        done < total ==> share(done, total) * total <= done * 1_000_000 < share(done, total) * total
            + total,
        done < total ==> 0 <= share(done, total) < 1_000_000,
{
    if done < total {
        let n = done * 1_000_000;
        vstd::arithmetic::div_mod::lemma_fundamental_div_mod(n, total);
        vstd::arithmetic::div_mod::lemma_mod_bound(n, total);
        vstd::arithmetic::div_mod::lemma_div_pos_is_pos(n, total);
        let q = n / total;
        assert(total * q == q * total) by (nonlinear_arith);
        assert(q < 1_000_000) by (nonlinear_arith)
            requires
                q * total <= n,
                n == done * 1_000_000,
                done < total,
                0 < total,
        ;
    }
}

/// A time is told in minutes and seconds, from a minute on with two digits for
/// the seconds.
pub proof fn law_duration_text(minutes: nat, seconds: nat)
    requires
        seconds < 60,
    ensures
        duration_text(60 * minutes + seconds) == if minutes == 0 {
            text::decimal(seconds) + "s"@
        } else {
            text::decimal(minutes) + "m"@ + text::zero_pad(text::decimal(seconds), 2) + "s"@
        },
{
    assert((60 * minutes + seconds) / 60 == minutes);
    assert((60 * minutes + seconds) % 60 == seconds);
}

/// What follows a progress line on a terminal starts a line of its own.
pub proof fn law_progress_line_is_closed(
    reporter: StderrReporter,
    id: PhaseId,
    fraction_ppm: u32,
    detail: Option<Seq<char>>,
    ev: EventView,
)
    requires
        reporter.is_tty,
        reporter.last_fraction_pct != percent(fraction_ppm),
        !(ev is Progress),
    ensures
        ({
            let p = EventView::Progress { id, fraction_ppm, detail };
            let next = reporter.after(p);
            &&& reporter.written(p) == event_text(p)
            &&& next.written(ev) == "\n"@ + event_text(ev)
            &&& next.after(ev).written(ev) == event_text(ev)
        }),
{
}

} // verus!
