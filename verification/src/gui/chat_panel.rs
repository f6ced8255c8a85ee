//! A timeline of phases: one card for each, kept up to date by the events of a
//! run. Moments are nanoseconds on the caller's clock.
use vstd::prelude::*;
use crate::args;
use crate::fixed;
use crate::progress;
use crate::progress::{EventView, PhaseId, PipelineEvent};
use crate::report::RunSummary;
use crate::text;

verus! {

#[derive(Clone, Copy, Debug, PartialEq, Eq, Structural)]
pub enum CardStatus {
    Running,
    Complete,
    Failed,
}

#[derive(Clone, Debug)]
pub struct PhaseCard {
    pub id: PhaseId,
    pub title: String,
    pub status: CardStatus,
    pub fraction_ppm: Option<u32>,
    pub detail: Option<String>,
    pub summary: Option<String>,
    pub error: Option<String>,
    pub eta_hint_ns: Option<u64>,
    pub started_ns: u64,
    pub finished_ns: Option<u64>,
}

/// A card with its texts as characters.
pub struct CardView {
    pub id: PhaseId,
    pub title: Seq<char>,
    pub status: CardStatus,
    pub fraction_ppm: Option<u32>,
    pub detail: Option<Seq<char>>,
    pub summary: Option<Seq<char>>,
    pub error: Option<Seq<char>>,
    pub eta_hint_ns: Option<u64>,
    pub started_ns: u64,
    pub finished_ns: Option<u64>,
}

impl View for PhaseCard {
    type V = CardView;

    open spec fn view(&self) -> CardView {
        CardView {
            id: self.id,
            title: self.title@,
            status: self.status,
            fraction_ppm: self.fraction_ppm,
            detail: args::opt_view(self.detail),
            summary: args::opt_view(self.summary),
            error: args::opt_view(self.error),
            eta_hint_ns: self.eta_hint_ns,
            started_ns: self.started_ns,
            finished_ns: self.finished_ns,
        }
    }
}

pub open spec fn card_views(v: Seq<PhaseCard>) -> Seq<CardView> {
    Seq::new(v.len(), |i: int| v[i]@)
}

/// `1:05.3`, or `5.3s` below a minute.
pub open spec fn elapsed_text(ns: int) -> Seq<char> {
    if ns >= 60_000_000_000 {
        text::decimal((ns / 60_000_000_000) as nat) + ":"@ + text::zero_pad(
            fixed::fixed(fixed::round_even(ns % 60_000_000_000, 100_000_000), 10, 1),
            4,
        )
    } else {
        fixed::fixed(fixed::round_even(ns, 100_000_000), 10, 1) + "s"@
    }
}

/// A running time.
pub fn format_elapsed(ns: u64) -> (r: String)
    ensures
        r@ == elapsed_text(ns as int),
{
    let mut r = String::new();
    if ns >= 60_000_000_000 {
        text::push_decimal(&mut r, ns / 60_000_000_000);
        r.append(":");
        let ghost before = r@;
        let tenths: u128 = fixed::round_even_of((ns % 60_000_000_000) as u128, 100_000_000);
        let mut s = String::new();
        fixed::push_fixed(&mut s, tenths, 10, 1);
        assert(s@ =~= fixed::fixed(tenths as int, 10, 1));
        let mut n: usize = s.as_str().unicode_len();
        let ghost len = n as int;
        while n < 4
            invariant
                len == s@.len() <= n,
                n <= 4 || n == len,
                r@ == before + Seq::new((n - len) as nat, |i: int| '0'),
            decreases 4 - n,
        {
            r.push('0');
            n += 1;
        }
        r.append(s.as_str());
        assert(r@ =~= before + text::zero_pad(s@, 4));
        assert(r@ =~= elapsed_text(ns as int));
    } else {
        let tenths: u128 = fixed::round_even_of(ns as u128, 100_000_000);
        fixed::push_fixed(&mut r, tenths, 10, 1);
        r.append("s");
        assert(r@ =~= elapsed_text(ns as int));
    }
    r
}

impl CardView {
    /// How long the phase has been running, or ran.
    pub open spec fn elapsed(self, now_ns: u64) -> int {
        let end = match self.finished_ns {
            Some(f) => f,
            None => now_ns,
        };
        if end >= self.started_ns {
            end - self.started_ns
        } else {
            0
        }
    }

    /// The running time, with what is expected while the phase runs.
    pub open spec fn time_text(self, now_ns: u64) -> Seq<char> {
        match (self.status, self.eta_hint_ns) {
            (CardStatus::Running, Some(eta)) => elapsed_text(self.elapsed(now_ns)) + " / ~"@
                + elapsed_text(eta as int),
            _ => elapsed_text(self.elapsed(now_ns)),
        }
    }

    /// The result under the card: the summary of a completed phase, the error
    /// of a failed one.
    pub open spec fn footer(self) -> Option<Seq<char>> {
        match self.status {
            CardStatus::Running => None,
            CardStatus::Complete => self.summary,
            CardStatus::Failed => self.error,
        }
    }
}

impl PhaseCard {
    /// A card for a phase that has just started.
    pub fn new(
        id: PhaseId,
        title: String,
        eta_hint_ns: Option<u64>,
        detail: Option<String>,
        now_ns: u64,
    ) -> (r: Self)
        ensures
            r@ == fresh(id, title@, eta_hint_ns, args::opt_view(detail), now_ns),
    {
        PhaseCard {
            id,
            title,
            status: CardStatus::Running,
            fraction_ppm: None,
            detail,
            summary: None,
            error: None,
            eta_hint_ns,
            started_ns: now_ns,
            finished_ns: None,
        }
    }

    pub fn elapsed(&self, now_ns: u64) -> (r: u64)
        ensures
            r == self@.elapsed(now_ns),
    {
        let end: u64 = match self.finished_ns {
            Some(f) => f,
            None => now_ns,
        };
        if end >= self.started_ns {
            end - self.started_ns
        } else {
            0
        }
    }

    /// `[3/7] Title`
    pub fn heading(&self) -> (r: String)
        ensures
            r@ == progress::step_text(self.id) + self.title@,
    {
        let mut r = String::from_str("[");
        text::push_decimal(&mut r, self.id.ordinal() as u64);
        r.append("/");
        text::push_decimal(&mut r, PhaseId::TOTAL as u64);
        r.append("] ");
        r.append(self.title.as_str());
        r
    }

    pub fn time_text(&self, now_ns: u64) -> (r: String)
        ensures
            r@ == self@.time_text(now_ns),
    {
        let mut r = format_elapsed(self.elapsed(now_ns));
        if let CardStatus::Running = self.status {
            if let Some(eta) = self.eta_hint_ns {
                r.append(" / ~");
                r.append(format_elapsed(eta).as_str());
            }
        }
        r
    }

    pub fn footer(&self) -> (r: Option<&str>)
        ensures
            args::opt_str_view(r) == self@.footer(),
    {
        match self.status {
            CardStatus::Running => None,
            CardStatus::Complete => match &self.summary {
                Some(s) => Some(s.as_str()),
                None => None,
            },
            CardStatus::Failed => match &self.error {
                Some(e) => Some(e.as_str()),
                None => None,
            },
        }
    }
}

/// A card for a phase that has just started.
pub open spec fn fresh(
    id: PhaseId,
    title: Seq<char>,
    eta_hint_ns: Option<u64>,
    detail: Option<Seq<char>>,
    now_ns: u64,
) -> CardView {
    CardView {
        id,
        title,
        status: CardStatus::Running,
        fraction_ppm: None,
        detail,
        summary: None,
        error: None,
        eta_hint_ns,
        started_ns: now_ns,
        finished_ns: None,
    }
}

/// The place of the first card for a phase at or after `i`.
pub open spec fn card_at(cards: Seq<CardView>, id: PhaseId, i: int) -> Option<int>
    decreases cards.len() - i,
{
    if i >= cards.len() {
        None
    } else if cards[i].id == id {
        Some(i)
    } else {
        card_at(cards, id, i + 1)
    }
}

/// The cards after an event. A phase that starts has a new card in the place of
/// an old one; the other events change the card of their phase if there is one.
pub open spec fn cards_after(cards: Seq<CardView>, ev: EventView, now_ns: u64) -> Seq<CardView> {
    match ev {
        EventView::Started { id, title, eta_hint_ns, detail } => {
            let card = fresh(id, title, eta_hint_ns, detail, now_ns);
            match card_at(cards, id, 0) {
                Some(i) => cards.update(i, card),
                None => cards.push(card),
            }
        },
        EventView::Progress { id, fraction_ppm, detail } => match card_at(cards, id, 0) {
            Some(i) => cards.update(
                i,
                CardView {
                    fraction_ppm: Some(fraction_ppm),
                    detail: if detail is Some {
                        detail
                    } else {
                        cards[i].detail
                    },
                    ..cards[i]
                },
            ),
            None => cards,
        },
        EventView::Finished { id, summary } => match card_at(cards, id, 0) {
            Some(i) => cards.update(
                i,
                CardView {
                    status: CardStatus::Complete,
                    fraction_ppm: Some(1_000_000),
                    summary,
                    finished_ns: Some(now_ns),
                    ..cards[i]
                },
            ),
            None => cards,
        },
        EventView::Failed { id, error } => match card_at(cards, id, 0) {
            Some(i) => cards.update(
                i,
                CardView {
                    status: CardStatus::Failed,
                    error: Some(error),
                    finished_ns: Some(now_ns),
                    ..cards[i]
                },
            ),
            None => cards,
        },
        EventView::Summary(_) => cards,
    }
}

/// The summary after an event.
pub open spec fn summary_after(summary: Option<RunSummary>, ev: EventView) -> Option<RunSummary> {
    match ev {
        EventView::Summary(s) => Some(s),
        _ => summary,
    }
}

pub struct ChatPanel {
    pub cards: Vec<PhaseCard>,
    pub summary: Option<RunSummary>,
}

impl ChatPanel {
    pub fn new() -> (r: Self)
        ensures
            r.cards@.len() == 0,
            r.summary is None,
    {
        ChatPanel { cards: Vec::new(), summary: None }
    }

    pub fn reset(&mut self)
        ensures
            final(self).cards@.len() == 0,
            final(self).summary is None,
    {
        self.cards = Vec::new();
        self.summary = None;
    }

    pub fn is_empty(&self) -> (r: bool)
        ensures
            r == (self.cards@.len() == 0 && self.summary is None),
    {
        self.cards.len() == 0 && self.summary.is_none()
    }

    fn find(&self, id: PhaseId) -> (r: Option<usize>)
        ensures
            match r {
                Some(i) => card_at(card_views(self.cards@), id, 0) == Some(i as int) && i
                    < self.cards@.len(),
                None => card_at(card_views(self.cards@), id, 0) is None,
            },
    {
        let ghost cards = card_views(self.cards@);
        let mut i: usize = 0;
        while i < self.cards.len()
            invariant
                i <= self.cards@.len(),
                cards == card_views(self.cards@),
                card_at(cards, id, 0) == card_at(cards, id, i as int),
            decreases self.cards@.len() - i,
        {
            if self.cards[i].id == id {
                return Some(i);
            }
            i += 1;
        }
        None
    }

    /// Applies an event.
    pub fn ingest(&mut self, ev: PipelineEvent, now_ns: u64)
        ensures
            card_views(final(self).cards@) == cards_after(
                card_views(old(self).cards@),
                ev@,
                now_ns,
            ),
            final(self).summary == summary_after(old(self).summary, ev@),
    {
        let ghost before = card_views(self.cards@);
        let ghost want = cards_after(before, ev@, now_ns);
        match ev {
            PipelineEvent::PhaseStarted { id, title, eta_hint_ns, detail } => {
                let slot = self.find(id);
                let card = PhaseCard::new(id, title, eta_hint_ns, detail, now_ns);
                match slot {
                    Some(i) => {
                        self.cards.set(i, card);
                    },
                    None => {
                        self.cards.push(card);
                    },
                }
            },
            PipelineEvent::PhaseProgress { id, fraction_ppm, detail } => {
                if let Some(i) = self.find(id) {
                    self.cards[i].fraction_ppm = Some(fraction_ppm);
                    if detail.is_some() {
                        self.cards[i].detail = detail;
                    }
                }
            },
            PipelineEvent::PhaseFinished { id, summary } => {
                if let Some(i) = self.find(id) {
                    self.cards[i].status = CardStatus::Complete;
                    self.cards[i].fraction_ppm = Some(1_000_000);
                    self.cards[i].summary = summary;
                    self.cards[i].finished_ns = Some(now_ns);
                }
            },
            PipelineEvent::PhaseFailed { id, error } => {
                if let Some(i) = self.find(id) {
                    self.cards[i].status = CardStatus::Failed;
                    self.cards[i].error = Some(error);
                    self.cards[i].finished_ns = Some(now_ns);
                }
            },
            PipelineEvent::RunSummary(summary) => {
                self.summary = Some(*summary);
            },
        }
        assert(card_views(self.cards@) =~= want);
    }

    /// Whether some phase is running.
    pub fn any_running(&self) -> (r: bool)
        ensures
            r == exists|i: int|
                0 <= i < self.cards@.len() && (#[trigger] self.cards@[i]).status
                    == CardStatus::Running,
    {
        let mut i: usize = 0;
        while i < self.cards.len()
            invariant
                i <= self.cards@.len(),
                forall|k: int|
                    0 <= k < i ==> (#[trigger] self.cards@[k]).status != CardStatus::Running,
            decreases self.cards@.len() - i,
        {
            if self.cards[i].status == CardStatus::Running {
                return true;
            }
            i += 1;
        }
        false
    }
}

/// No two cards are for the same phase.
pub open spec fn one_per_phase(cards: Seq<CardView>) -> bool {
    forall|i: int, j: int|
        0 <= i < j < cards.len() ==> (#[trigger] cards[i]).id != (#[trigger] cards[j]).id
}

proof fn lemma_card_at(cards: Seq<CardView>, id: PhaseId, i: int)
    requires
        0 <= i <= cards.len(),
    ensures
        match card_at(cards, id, i) {
            Some(k) => i <= k < cards.len() && cards[k].id == id,
            None => forall|k: int| i <= k < cards.len() ==> (#[trigger] cards[k]).id != id,
        },
    decreases cards.len() - i,
{
    if i < cards.len() && cards[i].id != id {
        lemma_card_at(cards, id, i + 1);
    }
}

/// However often phases run, each has one card at most, and no card is lost.
pub proof fn law_one_card_per_phase(cards: Seq<CardView>, ev: EventView, now_ns: u64)
    requires
        one_per_phase(cards),
    ensures
        one_per_phase(cards_after(cards, ev, now_ns)),
        cards.len() <= cards_after(cards, ev, now_ns).len() <= cards.len() + 1,
        forall|i: int|
            0 <= i < cards.len() ==> cards_after(cards, ev, now_ns)[i].id == (
            #[trigger] cards[i]).id,
{
    let id = match ev {
        EventView::Started { id, .. } => id,
        EventView::Progress { id, .. } => id,
        EventView::Finished { id, .. } => id,
        EventView::Failed { id, .. } => id,
        EventView::Summary(_) => PhaseId::Workspace,
    };
    lemma_card_at(cards, id, 0);
    let after = cards_after(cards, ev, now_ns);
    assert forall|i: int, j: int| 0 <= i < j < after.len() implies (#[trigger] after[i]).id != (
    #[trigger] after[j]).id by {
        if j < cards.len() {
            assert(cards[i].id != cards[j].id);
        } else {
            assert(cards[i].id != id);
        }
    }
}

/// The time on a card runs from its start to its end, or until now.
pub proof fn law_card_time(card: CardView, now_ns: u64)
    ensures
        card.finished_ns matches Some(f) ==> f >= card.started_ns ==> card.elapsed(now_ns)
            + card.started_ns == f,
        card.finished_ns is None && now_ns >= card.started_ns ==> card.elapsed(now_ns)
            + card.started_ns == now_ns,
        card.elapsed(now_ns) >= 0,
{
}

/// A time below a minute is told in seconds, to a tenth; from a minute on it has
/// the whole minutes in front.
pub proof fn law_elapsed_text(ns: int)
    requires
        ns >= 0,
    ensures
        exists|m: nat, t: Seq<char>| #[trigger] is_elapsed(elapsed_text(ns), ns, m, t),
{
    let m = (ns / 60_000_000_000) as nat;
    let rest = ns % 60_000_000_000;
    let q = fixed::round_even(rest, 100_000_000);
    let t = fixed::fixed(q, 10, 1);
    fixed::law_round_even(rest, 100_000_000);
    fixed::law_tenths_are_read(q);
    assert(fixed::reads(t, 1, rest, q));
    assert(is_elapsed(elapsed_text(ns), ns, m, t));
}

/// `s` tells `m` minutes and the seconds that `t` reads as.
pub open spec fn is_elapsed(s: Seq<char>, ns: int, m: nat, t: Seq<char>) -> bool {
    &&& s == if m > 0 {
        text::decimal(m) + ":"@ + text::zero_pad(t, 4)
    } else {
        t + "s"@
    }
    &&& 0 <= ns - 60_000_000_000 * m < 60_000_000_000
    &&& fixed::reads_as(t, 1, ns - 60_000_000_000 * m, 100_000_000)
}

/// A card follows its phase: it runs from the start, shows the progress that was
/// told, and ends complete or failed, with what was said. No other card changes.
pub proof fn law_card_follows_its_phase(cards: Seq<CardView>, ev: EventView, now_ns: u64, i: int)
    requires
        one_per_phase(cards),
        0 <= i < cards.len(),
    ensures
        ({
            let c = cards[i];
            let r = cards_after(cards, ev, now_ns)[i];
            match ev {
                EventView::Started { id, title, eta_hint_ns, detail } => if id == c.id {
                    &&& r.id == id && r.title == title && r.detail == detail
                    &&& r.status == CardStatus::Running && r.fraction_ppm is None
                    &&& r.summary is None && r.error is None
                    &&& r.eta_hint_ns == eta_hint_ns
                    &&& r.started_ns == now_ns && r.finished_ns is None
                } else {
                    r == c
                },
                EventView::Progress { id, fraction_ppm, detail } => if id == c.id {
                    &&& r.fraction_ppm == Some(fraction_ppm)
                    &&& detail is Some ==> r.detail == detail
                    &&& detail is None ==> r.detail == c.detail
                    &&& r.status == c.status && r.title == c.title
                    &&& r.started_ns == c.started_ns && r.finished_ns == c.finished_ns
                } else {
                    r == c
                },
                EventView::Finished { id, summary } => if id == c.id {
                    &&& r.status == CardStatus::Complete
                    &&& r.fraction_ppm == Some(1_000_000u32)
                    &&& r.summary == summary && r.detail == c.detail && r.title == c.title
                    &&& r.started_ns == c.started_ns && r.finished_ns == Some(now_ns)
                    &&& r.footer() == summary
                } else {
                    r == c
                },
                EventView::Failed { id, error } => if id == c.id {
                    &&& r.status == CardStatus::Failed
                    &&& r.error == Some(error) && r.fraction_ppm == c.fraction_ppm
                    &&& r.started_ns == c.started_ns && r.finished_ns == Some(now_ns)
                    &&& r.footer() == Some(error)
                } else {
                    r == c
                },
                EventView::Summary(_) => r == c,
            }
        }),
{
    let id = match ev {
        EventView::Started { id, .. } => id,
        EventView::Progress { id, .. } => id,
        EventView::Finished { id, .. } => id,
        EventView::Failed { id, .. } => id,
        EventView::Summary(_) => PhaseId::Workspace,
    };
    lemma_card_at(cards, id, 0);
    if let Some(k) = card_at(cards, id, 0) {
        if k < i {
            assert(cards[k].id != cards[i].id);
        } else if i < k {
            assert(cards[i].id != cards[k].id);
        }
    }
}

/// A phase that starts without a card gets one, behind the others.
pub proof fn law_new_phase_gets_a_card(
    cards: Seq<CardView>,
    id: PhaseId,
    title: Seq<char>,
    now_ns: u64,
)
    requires
        forall|i: int| 0 <= i < cards.len() ==> (#[trigger] cards[i]).id != id,
    ensures
        ({
            let ev = EventView::Started { id, title, eta_hint_ns: None, detail: None };
            let r = cards_after(cards, ev, now_ns);
            &&& r.len() == cards.len() + 1
            &&& r.last().id == id && r.last().title == title
            &&& r.last().status == CardStatus::Running && r.last().started_ns == now_ns
        }),
{
    lemma_card_at(cards, id, 0);
}

} // verus!
