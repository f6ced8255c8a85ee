//! The run as a whole: what is extracted, in what order the phases come, and
//! what is reported.
use vstd::prelude::*;
use crate::args;
use crate::cli::{DubCodec, RunConfig};
use crate::error;
use crate::fixed;
use crate::progress;
use crate::progress::{share_of, EventView, PhaseId, PipelineEvent};
use crate::report::RunSummary;
use crate::sync::applier::SpliceConfig;
use crate::text;
pub mod fps;
pub mod summary;
pub mod tracks;

verus! {

/// What a run does next.
#[derive(Clone, Copy, Debug, PartialEq, Eq, Structural)]
pub enum Step {
    Workspace,
    ExtractAnchors,
    ExtractDubs,
    ExtractSubs,
    /// Find out whether the donor has to be stretched.
    PlanFps,
    Stretch,
    Correlate,
    Splice,
    Remux,
    Summarize,
    Done,
    Failed,
}

/// What came of a step.
#[derive(Debug)]
pub enum Outcome {
    Workspace { path: String },
    Anchors,
    Dubs { count: usize },
    Subs { count: usize },
    /// With `skip` there is nothing to stretch, and it says why.
    Fps { title: String, skip: Option<String>, eta_ns: u64, detail: String },
    Stretched { summary: String },
    Mapped { segments: usize, anchors: usize },
    Spliced { count: usize },
    Remuxed,
    Summary(Box<RunSummary>),
    Failed { error: String },
}

/// A run: its next step, and how many dubs it has so far.
#[derive(Clone, Copy, Debug, PartialEq, Eq, Structural)]
pub struct Run {
    pub step: Step,
    pub dubs: usize,
    pub synced: usize,
}

impl Step {
    /// The phase that a step belongs to.
    pub open spec fn phase(self) -> PhaseId {
        match self {
            Step::Workspace => PhaseId::Workspace,
            Step::ExtractAnchors => PhaseId::ExtractAnchors,
            Step::ExtractDubs | Step::ExtractSubs => PhaseId::ExtractDubs,
            Step::PlanFps | Step::Stretch => PhaseId::FpsNormalize,
            Step::Correlate => PhaseId::Correlate,
            Step::Splice => PhaseId::Splice,
            _ => PhaseId::Remux,
        }
    }

    pub fn phase_id(self) -> (r: PhaseId)
        ensures
            r == self.phase(),
    {
        match self {
            Step::Workspace => PhaseId::Workspace,
            Step::ExtractAnchors => PhaseId::ExtractAnchors,
            Step::ExtractDubs | Step::ExtractSubs => PhaseId::ExtractDubs,
            Step::PlanFps | Step::Stretch => PhaseId::FpsNormalize,
            Step::Correlate => PhaseId::Correlate,
            Step::Splice => PhaseId::Splice,
            _ => PhaseId::Remux,
        }
    }

    /// Where a step stands in the order.
    pub open spec fn rank(self) -> int {
        match self {
            Step::Workspace => 0,
            Step::ExtractAnchors => 1,
            Step::ExtractDubs => 2,
            Step::ExtractSubs => 3,
            Step::PlanFps => 4,
            Step::Stretch => 5,
            Step::Correlate => 6,
            Step::Splice => 7,
            Step::Remux => 8,
            Step::Summarize => 9,
            Step::Done => 10,
            Step::Failed => 10,
        }
    }
}

/// The texts of events.
pub open spec fn event_views(v: Seq<PipelineEvent>) -> Seq<EventView> {
    Seq::new(v.len(), |i: int| v[i]@)
}

pub open spec fn upper_name(codec: DubCodec) -> Seq<char> {
    match codec {
        DubCodec::Flac => "FLAC"@,
        DubCodec::Ac3 => "AC3"@,
        DubCodec::Eac3 => "EAC3"@,
        DubCodec::Aac => "AAC"@,
    }
}

fn upper_codec(codec: DubCodec) -> (r: &'static str)
    ensures
        r@ == upper_name(codec),
{
    match codec {
        DubCodec::Flac => "FLAC",
        DubCodec::Ac3 => "AC3",
        DubCodec::Eac3 => "EAC3",
        DubCodec::Aac => "AAC",
    }
}

/// `{n} track(s)`
pub open spec fn tracks_text(n: usize) -> Seq<char> {
    ""@ + text::decimal(n as nat) + " track(s)"@
}

pub open spec fn started(
    id: PhaseId,
    title: Seq<char>,
    eta_hint_ns: Option<u64>,
    detail: Option<Seq<char>>,
) -> EventView {
    EventView::Started { id, title, eta_hint_ns, detail }
}

pub open spec fn finished(id: PhaseId, summary: Option<Seq<char>>) -> EventView {
    EventView::Finished { id, summary }
}

impl Run {
    /// Nothing has been done.
    pub fn new() -> (r: Run)
        ensures
            r == (Run { step: Step::Workspace, dubs: 0, synced: 0 }),
    {
        Run { step: Step::Workspace, dubs: 0, synced: 0 }
    }

    /// What is reported before the work of the step.
    pub open spec fn opened(self, cfg: RunConfig) -> Seq<EventView> {
        match self.step {
            Step::Workspace => seq![
                started(PhaseId::Workspace, "Preparing workspace"@, None, None),
            ],
            Step::ExtractAnchors => seq![
                started(
                    PhaseId::ExtractAnchors,
                    "Extracting anchor tracks"@,
                    None,
                    Some(
                        "master #"@ + text::decimal(cfg.master_anchor_track as nat) + " + donor #"@
                            + text::decimal(cfg.donor_anchor_track as nat),
                    ),
                ),
            ],
            Step::ExtractDubs => seq![
                started(
                    PhaseId::ExtractDubs,
                    "Extracting "@ + text::decimal(cfg.donor_dub_tracks@.len()) + " dub track(s)"@,
                    None,
                    Some("["@ + error::comma_list(cfg.donor_dub_tracks@) + "]"@),
                ),
            ],
            Step::Correlate => seq![
                started(
                    PhaseId::Correlate,
                    "Correlating anchors"@,
                    None,
                    Some(
                        "window "@ + fixed::seconds0(cfg.correlation_window_ns as int)
                            + "s, max-drift "@ + fixed::seconds0(cfg.max_drift_ns as int) + "s"@,
                    ),
                ),
            ],
            Step::Splice => seq![
                started(
                    PhaseId::Splice,
                    "Splicing dubs onto master timeline"@,
                    None,
                    Some(tracks_text(self.dubs)),
                ),
            ],
            Step::Remux => seq![
                started(
                    PhaseId::Remux,
                    "Remuxing final MKV"@,
                    None,
                    Some(
                        "master video copy + "@ + text::decimal(self.synced as nat) + " dub(s) "@
                            + upper_name(cfg.dub_codec),
                    ),
                ),
            ],
            _ => Seq::empty(),
        }
    }

    /// The event before the work of the step, if it has one.
    pub fn opening(&self, cfg: &RunConfig) -> (r: Vec<PipelineEvent>)
        ensures
            event_views(r@) == self.opened(*cfg),
    {
        let mut r: Vec<PipelineEvent> = Vec::new();
        let (title, detail): (String, Option<String>) = match self.step {
            Step::Workspace => (String::from_str("Preparing workspace"), None),
            Step::ExtractAnchors => {
                let mut d = String::from_str("master #");
                text::push_decimal(&mut d, cfg.master_anchor_track as u64);
                d.append(" + donor #");
                text::push_decimal(&mut d, cfg.donor_anchor_track as u64);
                (String::from_str("Extracting anchor tracks"), Some(d))
            },
            Step::ExtractDubs => {
                let mut d = String::from_str("[");
                error::push_comma_list(&mut d, &cfg.donor_dub_tracks);
                d.append("]");
                (
                    args::number_text(
                        "Extracting ",
                        cfg.donor_dub_tracks.len() as u64,
                        " dub track(s)",
                    ),
                    Some(d),
                )
            },
            Step::Correlate => {
                let mut d = String::from_str("window ");
                fixed::push_seconds0(&mut d, cfg.correlation_window_ns);
                d.append("s, max-drift ");
                fixed::push_seconds0(&mut d, cfg.max_drift_ns);
                d.append("s");
                (String::from_str("Correlating anchors"), Some(d))
            },
            Step::Splice => (
                String::from_str("Splicing dubs onto master timeline"),
                Some(args::number_text("", self.dubs as u64, " track(s)")),
            ),
            Step::Remux => {
                let mut d = String::from_str("master video copy + ");
                text::push_decimal(&mut d, self.synced as u64);
                d.append(" dub(s) ");
                d.append(upper_codec(cfg.dub_codec));
                (String::from_str("Remuxing final MKV"), Some(d))
            },
            _ => {
                assert(event_views(r@) =~= self.opened(*cfg));
                return r;
            },
        };
        r.push(
            PipelineEvent::PhaseStarted {
                id: self.step.phase_id(),
                title,
                eta_hint_ns: None,
                detail,
            },
        );
        assert(event_views(r@) =~= self.opened(*cfg));
        r
    }

    /// Whether something can have come of the step.
    pub open spec fn expects(self, o: Outcome) -> bool {
        match (self.step, o) {
            (Step::Done, _) => false,
            (Step::Failed, _) => false,
            (Step::Summarize, Outcome::Failed { .. }) => false,
            (_, Outcome::Failed { .. }) => true,
            (Step::Workspace, Outcome::Workspace { .. }) => true,
            (Step::ExtractAnchors, Outcome::Anchors) => true,
            (Step::ExtractDubs, Outcome::Dubs { .. }) => true,
            (Step::ExtractSubs, Outcome::Subs { .. }) => true,
            (Step::PlanFps, Outcome::Fps { .. }) => true,
            (Step::Stretch, Outcome::Stretched { .. }) => true,
            (Step::Correlate, Outcome::Mapped { .. }) => true,
            (Step::Splice, Outcome::Spliced { .. }) => true,
            (Step::Remux, Outcome::Remuxed) => true,
            (Step::Summarize, Outcome::Summary(_)) => true,
            _ => false,
        }
    }

    /// What is reported about what came of the step.
    pub open spec fn reported(self, cfg: RunConfig, o: Outcome) -> Seq<EventView> {
        let id = self.step.phase();
        match o {
            Outcome::Workspace { path } => seq![finished(id, Some("temp dir: "@ + path@))],
            Outcome::Anchors => seq![finished(id, None)],
            Outcome::Dubs { .. } => Seq::empty(),
            Outcome::Subs { count } => seq![
                finished(
                    id,
                    Some(
                        if count == 0 {
                            tracks_text(self.dubs)
                        } else {
                            tracks_text(self.dubs) + " + "@ + text::decimal(count as nat)
                                + " sub(s)"@
                        },
                    ),
                ),
            ],
            Outcome::Fps { title, skip, eta_ns, detail } => match skip {
                Some(why) => seq![started(id, title@, None, None), finished(id, Some(why@))],
                None => seq![started(id, title@, Some(eta_ns), Some(detail@))],
            },
            Outcome::Stretched { summary } => seq![finished(id, Some(summary@))],
            Outcome::Mapped { segments, anchors } => seq![
                finished(
                    id,
                    Some(
                        ""@ + text::decimal(segments as nat) + " segment(s), "@ + text::decimal(
                            anchors as nat,
                        ) + " anchors kept"@,
                    ),
                ),
            ],
            Outcome::Spliced { count } => seq![finished(id, Some(tracks_text(count)))],
            Outcome::Remuxed => seq![finished(id, Some("wrote "@ + cfg.output_file@))],
            Outcome::Summary(s) => seq![EventView::Summary(*s)],
            Outcome::Failed { error } => seq![EventView::Failed { id, error: error@ }],
        }
    }

    /// Where the output is, once the run is done.
    pub fn output(&self, cfg: &RunConfig) -> (r: Option<String>)
        ensures
            args::opt_view(r) == (if self.step == Step::Done {
                Some(cfg.output_file@)
            } else {
                None
            }),
    {
        if self.step == Step::Done {
            Some(String::from_str(cfg.output_file.as_str()))
        } else {
            None
        }
    }

    /// The run after the step.
    pub open spec fn next(self, o: Outcome) -> Run {
        match o {
            Outcome::Workspace { .. } => Run { step: Step::ExtractAnchors, ..self },
            Outcome::Anchors => Run { step: Step::ExtractDubs, ..self },
            Outcome::Dubs { count } => Run { step: Step::ExtractSubs, dubs: count, ..self },
            Outcome::Subs { .. } => Run { step: Step::PlanFps, ..self },
            Outcome::Fps { skip, .. } => Run {
                step: if skip is Some {
                    Step::Correlate
                } else {
                    Step::Stretch
                },
                ..self
            },
            Outcome::Stretched { .. } => Run { step: Step::Correlate, ..self },
            Outcome::Mapped { .. } => Run { step: Step::Splice, ..self },
            Outcome::Spliced { count } => Run { step: Step::Remux, synced: count, ..self },
            Outcome::Remuxed => Run { step: Step::Summarize, ..self },
            Outcome::Summary(_) => Run { step: Step::Done, ..self },
            Outcome::Failed { .. } => Run { step: Step::Failed, ..self },
        }
    }

    /// Takes what came of the step: goes on to the next, and says what is to be
    /// reported.
    pub fn take(&mut self, cfg: &RunConfig, o: Outcome) -> (r: Vec<PipelineEvent>)
        requires
            old(self).expects(o),
        ensures
            event_views(r@) == old(self).reported(*cfg, o),
            *final(self) == old(self).next(o),
    {
        let id: PhaseId = self.step.phase_id();
        let ghost want = self.reported(*cfg, o);
        let mut r: Vec<PipelineEvent> = Vec::new();
        match o {
            Outcome::Workspace { path } => {
                let s = args::joined("temp dir: ", path.as_str());
                r.push(PipelineEvent::PhaseFinished { id, summary: Some(s) });
                self.step = Step::ExtractAnchors;
            },
            Outcome::Anchors => {
                r.push(PipelineEvent::PhaseFinished { id, summary: None });
                self.step = Step::ExtractDubs;
            },
            Outcome::Dubs { count } => {
                self.dubs = count;
                self.step = Step::ExtractSubs;
            },
            Outcome::Subs { count } => {
                let mut s = args::number_text("", self.dubs as u64, " track(s)");
                if count > 0 {
                    s.append(" + ");
                    text::push_decimal(&mut s, count as u64);
                    s.append(" sub(s)");
                }
                r.push(PipelineEvent::PhaseFinished { id, summary: Some(s) });
                self.step = Step::PlanFps;
            },
            Outcome::Fps { title, skip, eta_ns, detail } => {
                match skip {
                    Some(why) => {
                        r.push(
                            PipelineEvent::PhaseStarted {
                                id,
                                title,
                                eta_hint_ns: None,
                                detail: None,
                            },
                        );
                        r.push(PipelineEvent::PhaseFinished { id, summary: Some(why) });
                        self.step = Step::Correlate;
                    },
                    None => {
                        r.push(
                            PipelineEvent::PhaseStarted {
                                id,
                                title,
                                eta_hint_ns: Some(eta_ns),
                                detail: Some(detail),
                            },
                        );
                        self.step = Step::Stretch;
                    },
                }
            },
            Outcome::Stretched { summary } => {
                r.push(PipelineEvent::PhaseFinished { id, summary: Some(summary) });
                self.step = Step::Correlate;
            },
            Outcome::Mapped { segments, anchors } => {
                let mut s = args::number_text("", segments as u64, " segment(s), ");
                text::push_decimal(&mut s, anchors as u64);
                s.append(" anchors kept");
                r.push(PipelineEvent::PhaseFinished { id, summary: Some(s) });
                self.step = Step::Splice;
            },
            Outcome::Spliced { count } => {
                let s = args::number_text("", count as u64, " track(s)");
                r.push(PipelineEvent::PhaseFinished { id, summary: Some(s) });
                self.synced = count;
                self.step = Step::Remux;
            },
            Outcome::Remuxed => {
                let s = args::joined("wrote ", cfg.output_file.as_str());
                r.push(PipelineEvent::PhaseFinished { id, summary: Some(s) });
                self.step = Step::Summarize;
            },
            Outcome::Summary(s) => {
                r.push(PipelineEvent::RunSummary(s));
                self.step = Step::Done;
            },
            Outcome::Failed { error } => {
                r.push(PipelineEvent::PhaseFailed { id, error });
                self.step = Step::Failed;
            },
        }
        assert(event_views(r@) =~= want);
        r
    }
}

/// The steps come in their order, so a run ends after at most ten of them, and
/// once it has ended or failed nothing more comes of it.
pub proof fn law_steps_advance(run: Run, o: Outcome)
    requires
        run.expects(o),
    ensures
        run.step.rank() < run.next(o).step.rank() <= 10,
        run.step.rank() < 10,
        run.next(o).step.phase().number() >= run.step.phase().number(),
{
}

/// A failure is reported once, for the phase in which it happened, and ends the
/// run.
pub proof fn law_failure_is_final(run: Run, cfg: RunConfig, error: String, later: Outcome)
    requires
        run.expects(Outcome::Failed { error }),
    ensures
        run.reported(cfg, Outcome::Failed { error }) == seq![
            EventView::Failed { id: run.step.phase(), error: error@ },
        ],
        !run.next(Outcome::Failed { error }).expects(later),
        run.next(Outcome::Failed { error }).opened(cfg).len() == 0,
{
}

/// The summary is reported only as the last event of a run that did not fail.
pub proof fn law_summary_ends_the_run(run: Run, cfg: RunConfig, o: Outcome, later: Outcome)
    requires
        run.expects(o),
        exists|i: int|
            0 <= i < run.reported(cfg, o).len() && run.reported(cfg, o)[i] is Summary,
    ensures
        run.step == Step::Summarize,
        run.reported(cfg, o).len() == 1,
        run.next(o).step == Step::Done,
        !run.next(o).expects(later),
        run.next(o).opened(cfg).len() == 0,
{
}

/// The outcomes come from the steps of the run, one after the other.
pub open spec fn runs(run: Run, outcomes: Seq<Outcome>) -> bool
    decreases outcomes.len(),
{
    outcomes.len() == 0 || (run.expects(outcomes[0]) && runs(
        run.next(outcomes[0]),
        outcomes.skip(1),
    ))
}

/// The run after the outcomes.
pub open spec fn ended(run: Run, outcomes: Seq<Outcome>) -> Run
    decreases outcomes.len(),
{
    if outcomes.len() == 0 {
        run
    } else {
        ended(run.next(outcomes[0]), outcomes.skip(1))
    }
}

/// Everything that is reported on the way.
pub open spec fn told(run: Run, cfg: RunConfig, outcomes: Seq<Outcome>) -> Seq<EventView>
    decreases outcomes.len(),
{
    if outcomes.len() == 0 {
        Seq::empty()
    } else {
        run.opened(cfg) + run.reported(cfg, outcomes[0]) + told(
            run.next(outcomes[0]),
            cfg,
            outcomes.skip(1),
        )
    }
}

/// An event that ends a run.
pub open spec fn is_end(ev: EventView) -> bool {
    ev is Summary || ev is Failed
}

/// A run reports how it ended exactly once, as its last event: the summary if
/// every step succeeded, the failure otherwise. A run under way has not yet
/// reported either.
pub proof fn law_end_is_told_once(run: Run, cfg: RunConfig, outcomes: Seq<Outcome>)
    requires
        run.step != Step::Done,
        run.step != Step::Failed,
        runs(run, outcomes),
    ensures
        ({
            let events = told(run, cfg, outcomes);
            let last = ended(run, outcomes).step;
            &&& forall|i: int| 0 <= i < events.len() - 1 ==> !is_end(#[trigger] events[i])
            &&& last == Step::Done <==> events.len() > 0 && events.last() is Summary
            &&& last == Step::Failed <==> events.len() > 0 && events.last() is Failed
        }),
    decreases outcomes.len(),
{
    if outcomes.len() > 0 {
        let o = outcomes[0];
        let rest = outcomes.skip(1);
        let next = run.next(o);
        let head = run.opened(cfg) + run.reported(cfg, o);
        let tail = told(next, cfg, rest);
        assert(forall|i: int| 0 <= i < run.opened(cfg).len() ==> !is_end(run.opened(cfg)[i]));
        if next.step == Step::Done || next.step == Step::Failed {
            assert(rest.len() == 0) by {
                assert(runs(next, rest));
                if rest.len() > 0 {
                    assert(!next.expects(rest[0]));
                }
            }
            assert(ended(next, rest) == next);
            assert(tail.len() == 0);
            assert(told(run, cfg, outcomes) =~= head);
            assert(run.reported(cfg, o).len() == 1);
            assert(head.last() == run.reported(cfg, o)[0]);
        } else {
            law_end_is_told_once(next, cfg, rest);
            assert(forall|i: int| 0 <= i < head.len() ==> !is_end(head[i]));
            let events = told(run, cfg, outcomes);
            assert(ended(run, outcomes) == ended(next, rest));
            assert(events == head + tail);
            assert forall|i: int| 0 <= i < events.len() - 1 implies !is_end(
                #[trigger] events[i],
            ) by {
                if i >= head.len() {
                    assert(events[i] == tail[i - head.len()]);
                } else {
                    assert(events[i] == head[i]);
                }
            }
            if tail.len() > 0 {
                assert(events.last() == tail.last());
            } else if head.len() > 0 {
                assert(events.last() == head[head.len() - 1]);
            }
        }
    }
}

/// The phase that is open after an event, if `open` was open before it; `None`
/// if the event does not fit. A phase may fail before it has started.
pub open spec fn open_after(open: Option<PhaseId>, ev: EventView) -> Option<Option<PhaseId>> {
    match ev {
        EventView::Started { id, .. } => if open is None {
            Some(Some(id))
        } else {
            None
        },
        EventView::Progress { id, .. } => if open == Some(id) {
            Some(open)
        } else {
            None
        },
        EventView::Finished { id, .. } => if open == Some(id) {
            Some(None)
        } else {
            None
        },
        EventView::Failed { id, .. } => if open == Some(id) || open is None {
            Some(None)
        } else {
            None
        },
        EventView::Summary(_) => if open is None {
            Some(None)
        } else {
            None
        },
    }
}

/// The phase that is open after a sequence of events.
pub open spec fn open_after_all(open: Option<PhaseId>, evs: Seq<EventView>) -> Option<
    Option<PhaseId>,
>
    decreases evs.len(),
{
    if evs.len() == 0 {
        Some(open)
    } else {
        match open_after_all(open, evs.drop_last()) {
            Some(o) => open_after(o, evs.last()),
            None => None,
        }
    }
}

impl Step {
    /// The phase that is open when the step begins.
    pub open spec fn open_phase(self) -> Option<PhaseId> {
        match self {
            Step::ExtractSubs => Some(PhaseId::ExtractDubs),
            Step::Stretch => Some(PhaseId::FpsNormalize),
            _ => None,
        }
    }
}

/// Phases do not overlap: every phase that has started finishes or fails before
/// the next one starts.
pub proof fn law_phases_do_not_overlap(run: Run, cfg: RunConfig, o: Outcome)
    requires
        run.expects(o),
    ensures
        open_after_all(run.step.open_phase(), run.opened(cfg) + run.reported(cfg, o)) == Some(
            run.next(o).step.open_phase(),
        ),
{
    let a = run.opened(cfg);
    let b = run.reported(cfg, o);
    let evs = a + b;
    reveal_with_fuel(open_after_all, 4);
    if b.len() == 0 {
        assert(evs =~= a);
        assert(a.drop_last() =~= Seq::empty());
    } else {
        assert(evs.drop_last() =~= a + b.drop_last());
        if b.len() == 1 {
            assert(evs.drop_last() =~= a);
        } else {
            assert(a.len() == 0);
            assert(evs =~= b);
            assert(b.drop_last().drop_last() =~= Seq::empty());
        }
        if a.len() == 1 {
            assert(a.drop_last() =~= Seq::empty());
        } else {
            assert(a =~= Seq::empty());
        }
    }
}

/// The start or the end of a phase.
pub enum Mark {
    Started(PhaseId),
    Finished(PhaseId),
}

/// The starts and ends of phases among the events.
pub open spec fn marks(events: Seq<EventView>) -> Seq<Mark>
    decreases events.len(),
{
    if events.len() == 0 {
        Seq::empty()
    } else {
        let before = marks(events.drop_last());
        match events.last() {
            EventView::Started { id, .. } => before.push(Mark::Started(id)),
            EventView::Finished { id, .. } => before.push(Mark::Finished(id)),
            _ => before,
        }
    }
}

/// Every phase starts once and finishes once, in the order of the phases.
pub open spec fn all_marks() -> Seq<Mark> {
    seq![
        Mark::Started(PhaseId::Workspace),
        Mark::Finished(PhaseId::Workspace),
        Mark::Started(PhaseId::ExtractAnchors),
        Mark::Finished(PhaseId::ExtractAnchors),
        Mark::Started(PhaseId::ExtractDubs),
        Mark::Finished(PhaseId::ExtractDubs),
        Mark::Started(PhaseId::FpsNormalize),
        Mark::Finished(PhaseId::FpsNormalize),
        Mark::Started(PhaseId::Correlate),
        Mark::Finished(PhaseId::Correlate),
        Mark::Started(PhaseId::Splice),
        Mark::Finished(PhaseId::Splice),
        Mark::Started(PhaseId::Remux),
        Mark::Finished(PhaseId::Remux),
    ]
}

impl Step {
    /// How many marks there are when the step begins.
    pub open spec fn marks_before(self) -> int {
        match self {
            Step::Workspace => 0,
            Step::ExtractAnchors => 2,
            Step::ExtractDubs => 4,
            Step::ExtractSubs => 5,
            Step::PlanFps => 6,
            Step::Stretch => 7,
            Step::Correlate => 8,
            Step::Splice => 10,
            Step::Remux => 12,
            _ => 14,
        }
    }
}

proof fn lemma_marks_concat(a: Seq<EventView>, b: Seq<EventView>)
    ensures
        marks(a + b) == marks(a) + marks(b),
    decreases b.len(),
{
    if b.len() == 0 {
        assert(a + b =~= a);
        assert(marks(a) + marks(b) =~= marks(a));
    } else {
        assert((a + b).drop_last() =~= a + b.drop_last());
        lemma_marks_concat(a, b.drop_last());
        assert(marks(a + b) =~= marks(a) + marks(b));
    }
}

/// The marks of one step, if it does not fail, lead up to the next one.
proof fn lemma_step_marks(run: Run, cfg: RunConfig, o: Outcome)
    requires
        run.expects(o),
    ensures
        ({
            let m = marks(run.opened(cfg) + run.reported(cfg, o));
            let from = run.step.marks_before();
            &&& from + m.len() <= 14
            &&& m == all_marks().subrange(from, from + m.len())
            &&& o !is Failed ==> from + m.len() == run.next(o).step.marks_before()
        }),
{
    let a = run.opened(cfg);
    let b = run.reported(cfg, o);
    lemma_marks_concat(a, b);
    reveal_with_fuel(marks, 3);
    if a.len() > 0 {
        assert(a.drop_last() =~= Seq::empty());
    }
    if b.len() > 0 {
        assert(b.drop_last().len() == b.len() - 1);
        if b.len() == 2 {
            assert(b.drop_last().drop_last() =~= Seq::empty());
            assert(b.drop_last().last() == b[0]);
        } else {
            assert(b.drop_last() =~= Seq::empty());
        }
    }
    let from = run.step.marks_before();
    let m = marks(a + b);
    assert(m =~= all_marks().subrange(from, from + m.len()));
}

proof fn lemma_marks_in_order(run: Run, cfg: RunConfig, outcomes: Seq<Outcome>)
    requires
        runs(run, outcomes),
        run.step != Step::Failed,
    ensures
        ({
            let m = marks(told(run, cfg, outcomes));
            let from = run.step.marks_before();
            &&& from + m.len() <= 14
            &&& m == all_marks().subrange(from, from + m.len())
            &&& ended(run, outcomes).step != Step::Failed ==> from + m.len() == ended(
                run,
                outcomes,
            ).step.marks_before()
        }),
    decreases outcomes.len(),
{
    let from = run.step.marks_before();
    let all = all_marks();
    if outcomes.len() == 0 {
        assert(marks(told(run, cfg, outcomes)) =~= all.subrange(from, from));
    } else {
        let o = outcomes[0];
        let rest = outcomes.skip(1);
        let next = run.next(o);
        let head = run.opened(cfg) + run.reported(cfg, o);
        lemma_step_marks(run, cfg, o);
        if o is Failed {
            assert(rest.len() == 0) by {
                assert(runs(next, rest));
                if rest.len() > 0 {
                    assert(!next.expects(rest[0]));
                }
            }
            assert(told(run, cfg, outcomes) =~= head);
            assert(ended(next, rest) == next);
        } else {
            let tail = told(next, cfg, rest);
            lemma_marks_in_order(next, cfg, rest);
            lemma_marks_concat(head, tail);
            let m = marks(told(run, cfg, outcomes));
            assert(m =~= all.subrange(from, from + m.len()));
            assert(ended(run, outcomes) == ended(next, rest));
        }
    }
}

/// In a run that succeeds every phase starts once and finishes once, in the
/// order of the phases. A run that is under way or has failed has reported a
/// part of that, from the start on.
pub proof fn law_phases_in_order(run: Run, cfg: RunConfig, outcomes: Seq<Outcome>)
    requires
        run.step == Step::Workspace,
        runs(run, outcomes),
    ensures
        ({
            let m = marks(told(run, cfg, outcomes));
            &&& m.len() <= all_marks().len()
            &&& m == all_marks().take(m.len() as int)
            &&& ended(run, outcomes).step == Step::Done ==> m == all_marks()
        }),
{
    lemma_marks_in_order(run, cfg, outcomes);
    let m = marks(told(run, cfg, outcomes));
    assert(all_marks().take(m.len() as int) =~= all_marks().subrange(0, m.len() as int));
    assert(all_marks().subrange(0, 14) =~= all_marks());
}

/// `{n}/{total} {what}`
pub open spec fn count_text(n: nat, total: nat, what: Seq<char>) -> Seq<char> {
    text::decimal(n) + "/"@ + text::decimal(total) + what
}

fn count_words(n: usize, total: usize, what: &str) -> (r: String)
    ensures
        r@ == count_text(n as nat, total as nat, what@),
{
    let mut r = String::new();
    text::push_decimal(&mut r, n as u64);
    r.append("/");
    text::push_decimal(&mut r, total as u64);
    r.append(what);
    assert(r@ =~= count_text(n as nat, total as nat, what@));
    r
}

/// Progress of a phase that works track by track.
pub open spec fn tracks_event(id: PhaseId, done: nat, tracks: nat) -> EventView {
    let total = if tracks == 0 {
        1
    } else {
        tracks
    };
    EventView::Progress {
        id,
        fraction_ppm: progress::share(done as int, total as int) as u32,
        detail: Some(count_text(done, total, " tracks"@)),
    }
}

/// Progress of a phase that works track by track.
pub fn tracks_progress(id: PhaseId, done: usize, tracks: usize) -> (r: PipelineEvent)
    ensures
        r@ == tracks_event(id, done as nat, tracks as nat),
{
    let total: usize = if tracks == 0 {
        1
    } else {
        tracks
    };
    PipelineEvent::PhaseProgress {
        id,
        fraction_ppm: share_of(done as u64, total as u64),
        detail: Some(count_words(done, total, " tracks")),
    }
}

/// Progress of the stretch of several files.
pub fn stretch_event(done: &Vec<u64>, expected: &Vec<u64>) -> (r: PipelineEvent)
    requires
        done@.len() == expected@.len() <= 0xffff_ffff,
    ensures
        r@ == (EventView::Progress {
            id: PhaseId::FpsNormalize,
            fraction_ppm: progress::share(
                fps::sum(done@),
                crate::time::max2(fps::sum(expected@), 1),
            ) as u32,
            detail: Some(
                count_text(
                    fps::done_files(done@, expected@, done@.len() as int) as nat,
                    expected@.len(),
                    " files"@,
                ),
            ),
        }),
{
    let (fraction_ppm, files): (u32, usize) = fps::stretch_status(done, expected);
    PipelineEvent::PhaseProgress {
        id: PhaseId::FpsNormalize,
        fraction_ppm,
        detail: Some(count_words(files, expected.len(), " files")),
    }
}

/// Progress of the correlation, once per percent: nothing if `last` was the
/// percentage before.
pub fn correlation_progress(fraction_ppm: u32, last: i32) -> (r: Option<(i32, PipelineEvent)>)
    ensures
        match r {
            Some((pct, ev)) => pct == progress::percent(fraction_ppm) && pct != last && ev@ == (
            EventView::Progress { id: PhaseId::Correlate, fraction_ppm, detail: None }),
            None => last == progress::percent(fraction_ppm),
        },
{
    let pct: i32 = progress::percent_of(fraction_ppm);
    if pct == last {
        None
    } else {
        Some((pct, PipelineEvent::PhaseProgress { id: PhaseId::Correlate, fraction_ppm, detail: None }))
    }
}

/// What governs the splices of a run.
pub open spec fn splices_of(cfg: RunConfig) -> SpliceConfig {
    SpliceConfig {
        silence_udb: cfg.silence_udb,
        silence_min_ms: cfg.silence_min_ms,
        snap_radius_ns: cfg.snap_radius_ns,
        crossfade_ms: cfg.crossfade_ms,
        smooth_gaps: cfg.smooth_gaps,
        gap_fill_margin_ns: cfg.gap_fill_margin_ns,
        speech_udb: cfg.speech_udb,
        gap_fill_max_ratio_ppm: cfg.gap_fill_max_ratio_ppm,
        gap_fill_silence_fade_ms: cfg.gap_fill_silence_fade_ms,
    }
}

/// What governs the splices of a run.
pub fn splice_config(cfg: &RunConfig) -> (r: SpliceConfig)
    ensures
        r == splices_of(*cfg),
{
    SpliceConfig {
        silence_udb: cfg.silence_udb,
        silence_min_ms: cfg.silence_min_ms,
        snap_radius_ns: cfg.snap_radius_ns,
        crossfade_ms: cfg.crossfade_ms,
        smooth_gaps: cfg.smooth_gaps,
        gap_fill_margin_ns: cfg.gap_fill_margin_ns,
        speech_udb: cfg.speech_udb,
        gap_fill_max_ratio_ppm: cfg.gap_fill_max_ratio_ppm,
        gap_fill_silence_fade_ms: cfg.gap_fill_silence_fade_ms,
    }
}

/// The splices of a run go by what was asked for the run.
pub proof fn law_splices_follow_the_run(cfg: RunConfig)
    ensures
        splices_of(cfg).snap_radius_ns == cfg.snap_radius_ns,
        splices_of(cfg).crossfade_ms == cfg.crossfade_ms,
        splices_of(cfg).silence_udb == cfg.silence_udb,
        splices_of(cfg).silence_min_ms == cfg.silence_min_ms,
        splices_of(cfg).speech_udb == cfg.speech_udb,
        splices_of(cfg).smooth_gaps == cfg.smooth_gaps,
        splices_of(cfg).gap_fill_margin_ns == cfg.gap_fill_margin_ns,
        splices_of(cfg).gap_fill_max_ratio_ppm == cfg.gap_fill_max_ratio_ppm,
        splices_of(cfg).gap_fill_silence_fade_ms == cfg.gap_fill_silence_fade_ms,
{
}

/// The progress of a phase is the share of its tracks that are done, and all of
/// it once every track is.
pub proof fn law_tracks_progress(id: PhaseId, done: nat, tracks: nat)
    requires
        done <= tracks,
        0 < tracks,
    ensures
        tracks_event(id, done, tracks) matches EventView::Progress { id: of, fraction_ppm, detail }
            && of == id && fraction_ppm * tracks <= done * 1_000_000 < fraction_ppm * tracks + tracks
            && detail == Some(text::decimal(done) + "/"@ + text::decimal(tracks) + " tracks"@),
{
    progress::law_share(done as int, tracks as int);
    let s = progress::share(done as int, tracks as int);
    if done == tracks {
        assert(s * tracks == 1_000_000 * tracks);
    }
    assert((s as u32) * tracks == s * tracks);
}

} // verus!
