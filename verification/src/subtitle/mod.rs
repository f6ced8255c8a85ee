//! Subtitles: cues with their times, SubRip text, and the move from donor time
//! to master time.
pub mod round_trip;
pub mod srt;
pub mod tolerance;

use vstd::prelude::*;
use crate::correlation::offset_map::{OffsetMap, Segment};
use crate::sync::applier;
use crate::time;

verus! {

/// One subtitle.
#[derive(Clone, Debug)]
pub struct SubtitleEvent {
    pub index: u32,
    pub start_ns: i128,
    pub end_ns: i128,
    /// Multi-line text, markup kept verbatim.
    pub text: String,
}

/// What a [`SubtitleEvent`] holds.
pub struct Cue {
    pub index: u32,
    pub start_ns: i128,
    pub end_ns: i128,
    pub text: Seq<char>,
}

impl View for SubtitleEvent {
    type V = Cue;

    open spec fn view(&self) -> Cue {
        Cue {
            index: self.index,
            start_ns: self.start_ns,
            end_ns: self.end_ns,
            text: self.text@,
        }
    }
}

/// Times stay below this, so that sums of them are machine integers too.
pub const SUBTITLE_LIMIT: i128 = 40_000_000_000_000_000_000_000_000_000_000_000_000;

pub open spec fn time_fits(t: i128) -> bool {
    -SUBTITLE_LIMIT <= t <= SUBTITLE_LIMIT
}

pub open spec fn times_fit(events: Seq<SubtitleEvent>) -> bool {
    forall|i: int|
        0 <= i < events.len() ==> time_fits((#[trigger] events[i]).start_ns) && time_fits(
            events[i].end_ns,
        )
}

pub open spec fn cues(v: Seq<SubtitleEvent>) -> Seq<Cue> {
    Seq::new(v.len(), |i: int| v[i]@)
}

/// The middle of an event lies in the donor time that a segment covers, both
/// ends included.
pub open spec fn covered_by(c: Cue, s: Segment) -> bool {
    2 * (s.master_start_ns + s.donor_offset_ns) <= c.start_ns + c.end_ns <= 2 * (s.master_end_ns
        + s.donor_offset_ns)
}

/// `i` is the first segment that covers an event.
pub open spec fn is_segment_for(segments: Seq<Segment>, c: Cue, i: int) -> bool {
    &&& 0 <= i < segments.len()
    &&& covered_by(c, segments[i])
    &&& forall|k: int| 0 <= k < i ==> !covered_by(c, #[trigger] segments[k])
}

/// An event moved from donor time to master time.
pub open spec fn shifted(c: Cue, offset: int) -> Cue {
    Cue {
        index: 0,
        start_ns: (c.start_ns - offset) as i128,
        end_ns: (c.end_ns - offset) as i128,
        text: c.text,
    }
}

/// The events that some segment covers, moved by its offset.
pub open spec fn moved(events: Seq<Cue>, segments: Seq<Segment>) -> Seq<Cue>
    decreases events.len(),
{
    if events.len() == 0 {
        events
    } else {
        let rest = moved(events.drop_last(), segments);
        let c = events.last();
        if exists|i: int| is_segment_for(segments, c, i) {
            let i = choose|i: int| is_segment_for(segments, c, i);
            rest.push(shifted(c, segments[i].donor_offset_ns as int))
        } else {
            rest
        }
    }
}

/// Where an event belongs in a list that is in the order of start times: behind
/// all that do not start later.
pub open spec fn place_for(sorted: Seq<Cue>, c: Cue) -> int
    decreases sorted.len(),
{
    if sorted.len() > 0 && sorted.last().start_ns > c.start_ns {
        place_for(sorted.drop_last(), c)
    } else {
        sorted.len() as int
    }
}

/// The events in the order of their start times; those that start together
/// stay in their order.
pub open spec fn in_start_order(events: Seq<Cue>) -> Seq<Cue>
    decreases events.len(),
{
    if events.len() == 0 {
        events
    } else {
        let rest = in_start_order(events.drop_last());
        rest.insert(place_for(rest, events.last()), events.last())
    }
}

/// The events numbered from 1.
pub open spec fn numbered(events: Seq<Cue>) -> Seq<Cue> {
    Seq::new(
        events.len(),
        |i: int| Cue { index: ((i + 1) % 0x1_0000_0000) as u32, ..events[i] },
    )
}

/// What the offset map makes of donor-time events.
pub open spec fn in_master_time(events: Seq<Cue>, segments: Seq<Segment>) -> Seq<Cue> {
    numbered(in_start_order(moved(events, segments)))
}

/// Finds the segment whose donor coverage holds the middle of an event.
fn find_segment_for_event(event: &SubtitleEvent, segments: &Vec<Segment>) -> (r: Option<usize>)
    requires
        applier::segments_in_range(segments@),
        time_fits(event.start_ns),
        time_fits(event.end_ns),
    ensures
        match r {
            Some(i) => is_segment_for(segments@, event@, i as int),
            None => forall|k: int|
                0 <= k < segments@.len() ==> !covered_by(event@, #[trigger] segments@[k]),
        },
{
    let sum: i128 = event.start_ns + event.end_ns;
    let mut i: usize = 0;
    while i < segments.len()
        invariant
            i <= segments@.len(),
            applier::segments_in_range(segments@),
            sum == event.start_ns + event.end_ns,
            forall|k: int| 0 <= k < i ==> !covered_by(event@, #[trigger] segments@[k]),
        decreases segments@.len() - i,
    {
        let s: Segment = segments[i];
        assert(crate::correlation::refine::segment_in_range(segments@[i as int]));
        let lo: i64 = s.master_start_ns + s.donor_offset_ns;
        let hi: i64 = s.master_end_ns + s.donor_offset_ns;
        if 2 * (lo as i128) <= sum && sum <= 2 * (hi as i128) {
            return Some(i);
        }
        i += 1;
    }
    None
}

fn insert_in_order(out: &mut Vec<SubtitleEvent>, event: SubtitleEvent)
    ensures
        cues(final(out)@) == cues(old(out)@).insert(place_for(cues(old(out)@), event@), event@),
{
    let ghost before = cues(out@);
    let mut pos: usize = out.len();
    assert(before.take(pos as int) =~= before);
    while pos > 0 && out[pos - 1].start_ns > event.start_ns
        invariant
            pos <= out@.len(),
            before == cues(out@),
            place_for(before, event@) == place_for(before.take(pos as int), event@),
        decreases pos,
    {
        assert(before.take(pos as int).drop_last() =~= before.take(pos - 1));
        pos -= 1;
    }
    let ghost c = event@;
    out.insert(pos, event);
    assert(cues(out@) =~= before.insert(pos as int, c));
}

/// Converts donor-time events into master-time events.
///
/// Each event takes the offset of the segment whose donor coverage holds its
/// middle; events outside every segment are dropped. What is left is put in
/// the order of start times and numbered from 1.
pub fn apply_offset_map(events: &Vec<SubtitleEvent>, map: &OffsetMap) -> (r: Vec<SubtitleEvent>)
    requires
        applier::segments_in_range(map.segments@),
        times_fit(events@),
    ensures
        cues(r@) == in_master_time(cues(events@), map.segments@),
{
    let ghost all = cues(events@);
    let ghost segments = map.segments@;
    let mut out: Vec<SubtitleEvent> = Vec::new();
    let mut i: usize = 0;
    assert(cues(out@) =~= in_start_order(moved(all.take(0), segments)));
    while i < events.len()
        invariant
            i <= events@.len(),
            all == cues(events@),
            segments == map.segments@,
            applier::segments_in_range(segments),
            times_fit(events@),
            cues(out@) == in_start_order(moved(all.take(i as int), segments)),
        decreases events@.len() - i,
    {
        let ghost c = all[i as int];
        assert(time_fits(events@[i as int].start_ns));
        assert(all.take(i + 1).drop_last() =~= all.take(i as int));
        assert(all.take(i + 1).last() == c);
        match find_segment_for_event(&events[i], &map.segments) {
            Some(k) => {
                proof {
                    assert(is_segment_for(segments, c, k as int));
                    let j = choose|j: int| is_segment_for(segments, c, j);
                    assert(is_segment_for(segments, c, j));
                    assert(j == k) by {
                        if j < k {
                            assert(!covered_by(c, segments[j]));
                        }
                        if k < j {
                            assert(!covered_by(c, segments[k as int]));
                        }
                    }
                    assert(crate::correlation::refine::segment_in_range(segments[k as int]));
                }
                let offset: i64 = map.segments[k].donor_offset_ns;
                let event = SubtitleEvent {
                    index: 0,
                    start_ns: events[i].start_ns - offset as i128,
                    end_ns: events[i].end_ns - offset as i128,
                    text: events[i].text.clone(),
                };
                proof {
                    assert(event@ == shifted(c, offset as int));
                    let m = moved(all.take(i + 1), segments);
                    assert(m.drop_last() =~= moved(all.take(i as int), segments));
                    assert(m.last() == event@);
                }
                insert_in_order(&mut out, event);
            },
            None => {
                assert(!exists|j: int| is_segment_for(segments, c, j));
            },
        }
        i += 1;
    }
    assert(all.take(i as int) =~= all);
    let ghost ordered = cues(out@);
    let mut n: usize = 0;
    while n < out.len()
        invariant
            n <= out@.len(),
            out@.len() == ordered.len(),
            forall|k: int| 0 <= k < n ==> (#[trigger] out@[k])@ == numbered(ordered)[k],
            forall|k: int| n <= k < out@.len() ==> (#[trigger] out@[k])@ == ordered[k],
        decreases out@.len() - n,
    {
        let number: u32 = ((n as u64 + 1) % 0x1_0000_0000) as u32;
        out[n].index = number;
        n += 1;
    }
    assert(cues(out@) =~= numbered(ordered));
    out
}

proof fn lemma_place(sorted: Seq<Cue>, c: Cue)
    ensures
        0 <= place_for(sorted, c) <= sorted.len(),
        place_for(sorted, c) > 0 ==> sorted[place_for(sorted, c) - 1].start_ns <= c.start_ns,
        forall|k: int| place_for(sorted, c) <= k < sorted.len() ==> (#[trigger] sorted[k]).start_ns
            > c.start_ns,
    decreases sorted.len(),
{
    if sorted.len() > 0 && sorted.last().start_ns > c.start_ns {
        let d = sorted.drop_last();
        lemma_place(d, c);
        assert forall|k: int| place_for(sorted, c) <= k < sorted.len() implies (
        #[trigger] sorted[k]).start_ns > c.start_ns by {
            if k < d.len() {
                assert(d[k] == sorted[k]);
            }
        }
    }
}

/// The start times of a list never fall.
pub open spec fn starts_sorted(s: Seq<Cue>) -> bool {
    forall|i: int, j: int|
        0 <= i <= j < s.len() ==> (#[trigger] s[i]).start_ns <= (#[trigger] s[j]).start_ns
}

proof fn lemma_in_start_order(events: Seq<Cue>)
    ensures
        starts_sorted(in_start_order(events)),
        in_start_order(events).to_multiset() == events.to_multiset(),
        in_start_order(events).len() == events.len(),
    decreases events.len(),
{
    if events.len() > 0 {
        let d = events.drop_last();
        let rest = in_start_order(d);
        let c = events.last();
        lemma_in_start_order(d);
        lemma_place(rest, c);
        let p = place_for(rest, c);
        let s = rest.insert(p, c);
        assert forall|i: int, j: int| 0 <= i <= j < s.len() implies (#[trigger] s[i]).start_ns <= (
        #[trigger] s[j]).start_ns by {
            if i < p {
                assert(s[i] == rest[i]);
                if p > 0 {
                    assert(rest[i].start_ns <= rest[p - 1].start_ns);
                }
                if j > p {
                    assert(s[j] == rest[j - 1]);
                }
            } else if i == p {
                if j > p {
                    assert(s[j] == rest[j - 1]);
                }
            } else {
                assert(s[i] == rest[i - 1]);
                assert(s[j] == rest[j - 1]);
            }
        }
        vstd::seq_lib::to_multiset_insert(rest, p, c);
        vstd::seq_lib::to_multiset_build(d, c);
        assert(d.push(c) =~= events);
    }
}

/// What comes out of the offset map is numbered 1, 2, 3, …, is in the order of
/// start times, and is exactly the covered events, each moved by the offset of
/// its segment.
pub proof fn law_master_time_events(events: Seq<Cue>, segments: Seq<Segment>)
    ensures
        ({
            let out = in_master_time(events, segments);
            let kept = in_start_order(moved(events, segments));
            &&& starts_sorted(out)
            &&& out.len() == moved(events, segments).len() <= events.len()
            &&& kept.to_multiset() == moved(events, segments).to_multiset()
            &&& forall|i: int|
                0 <= i < out.len() ==> (#[trigger] out[i]).start_ns == kept[i].start_ns
                    && out[i].end_ns == kept[i].end_ns && out[i].text == kept[i].text
            &&& out.len() <= u32::MAX ==> forall|i: int|
                0 <= i < out.len() ==> (#[trigger] out[i]).index == i + 1
        }),
{
    let m = moved(events, segments);
    lemma_in_start_order(m);
    lemma_moved_len(events, segments);
    let kept = in_start_order(m);
    let out = in_master_time(events, segments);
    assert forall|i: int, j: int| 0 <= i <= j < out.len() implies (#[trigger] out[i]).start_ns <= (
    #[trigger] out[j]).start_ns by {
        assert(kept[i].start_ns <= kept[j].start_ns);
    }
}

proof fn lemma_moved_len(events: Seq<Cue>, segments: Seq<Segment>)
    ensures
        moved(events, segments).len() <= events.len(),
    decreases events.len(),
{
    if events.len() > 0 {
        lemma_moved_len(events.drop_last(), segments);
    }
}

/// A map of one segment at offset zero that covers everything leaves the times
/// and texts of events that are in order as they are.
pub proof fn law_identity_map(events: Seq<Cue>, segment: Segment)
    requires
        segment.donor_offset_ns == 0,
        starts_sorted(events),
        forall|i: int| 0 <= i < events.len() ==> covered_by(#[trigger] events[i], segment),
    ensures
        in_master_time(events, seq![segment]).len() == events.len(),
        forall|i: int|
            0 <= i < events.len() ==> (#[trigger] in_master_time(
                events,
                seq![segment],
            )[i]).start_ns == events[i].start_ns && in_master_time(events, seq![segment])[i].end_ns
                == events[i].end_ns && in_master_time(events, seq![segment])[i].text
                == events[i].text,
    decreases events.len(),
{
    lemma_identity(events, segment);
}

proof fn lemma_identity(events: Seq<Cue>, segment: Segment)
    requires
        segment.donor_offset_ns == 0,
        starts_sorted(events),
        forall|i: int| 0 <= i < events.len() ==> covered_by(#[trigger] events[i], segment),
    ensures
        in_start_order(moved(events, seq![segment])) == Seq::new(
            events.len(),
            |i: int| shifted(events[i], 0),
        ),
        moved(events, seq![segment]) == Seq::new(events.len(), |i: int| shifted(events[i], 0)),
{
    lemma_one_offset(events, segment);
}

/// A map of one segment that covers everything moves every event by its offset
/// and keeps events that are in order as they are.
pub proof fn law_one_offset_keeps_the_order(events: Seq<Cue>, segment: Segment, i: int)
    requires
        applier::segments_in_range(seq![segment]),
        cues_fit(events),
        starts_sorted(events),
        forall|i: int| 0 <= i < events.len() ==> covered_by(#[trigger] events[i], segment),
        0 <= i < events.len(),
    ensures
        ({
            let out = in_master_time(events, seq![segment]);
            &&& out.len() == events.len()
            &&& out[i].start_ns + segment.donor_offset_ns == events[i].start_ns
            &&& out[i].end_ns + segment.donor_offset_ns == events[i].end_ns
            &&& out[i].text == events[i].text
        }),
{
    assert(crate::correlation::refine::segment_in_range(seq![segment][0]));
    lemma_one_offset(events, segment);
}

proof fn lemma_one_offset(events: Seq<Cue>, segment: Segment)
    requires
        segment.donor_offset_ns == 0 || (cues_fit(events) && time::in_range(
            segment.donor_offset_ns,
        )),
        starts_sorted(events),
        forall|i: int| 0 <= i < events.len() ==> covered_by(#[trigger] events[i], segment),
    ensures
        in_start_order(moved(events, seq![segment])) == Seq::new(
            events.len(),
            |i: int| shifted(events[i], segment.donor_offset_ns as int),
        ),
        moved(events, seq![segment]) == Seq::new(
            events.len(),
            |i: int| shifted(events[i], segment.donor_offset_ns as int),
        ),
    decreases events.len(),
{
    let segs = seq![segment];
    let m = moved(events, segs);
    let all = Seq::new(
        events.len(),
        |i: int| shifted(events[i], segment.donor_offset_ns as int),
    );
    if events.len() > 0 {
        let d = events.drop_last();
        assert forall|i: int| 0 <= i < d.len() implies covered_by(#[trigger] d[i], segment) by {
            assert(d[i] == events[i]);
        }
        assert forall|i: int, j: int| 0 <= i <= j < d.len() implies (#[trigger] d[i]).start_ns <= (
        #[trigger] d[j]).start_ns by {
            assert(events[i].start_ns <= events[j].start_ns);
        }
        if segment.donor_offset_ns != 0 {
            assert forall|i: int| 0 <= i < d.len() implies time_fits((#[trigger] d[i]).start_ns)
                && time_fits(d[i].end_ns) by {
                assert(time_fits(events[i].start_ns));
            }
        }
        lemma_one_offset(d, segment);
        let c = events.last();
        assert(covered_by(events[events.len() - 1], segment));
        assert(is_segment_for(segs, c, 0));
        let j = choose|j: int| is_segment_for(segs, c, j);
        assert(j == 0);
        assert(m =~= all);
        let rest = in_start_order(moved(d, segs));
        assert(m.drop_last() =~= moved(d, segs));
        if rest.len() > 0 {
            if segment.donor_offset_ns != 0 {
                assert(time_fits(events[events.len() - 2].start_ns));
                assert(time_fits(events[events.len() - 1].start_ns));
            }
            assert(rest.last() == shifted(
                events[events.len() - 2],
                segment.donor_offset_ns as int,
            ));
            assert(events[events.len() - 2].start_ns <= events[events.len() - 1].start_ns);
        }
        assert(place_for(rest, m.last()) == rest.len());
        assert(in_start_order(m) =~= all);
    } else {
        assert(m =~= all);
        assert(in_start_order(m) =~= all);
    }
}

/// Segment `k` is the first whose donor time holds the middle of event `e`,
/// and `o` is that event on the master: its times plus the segment's offset are
/// the donor times.
pub open spec fn is_on_master(e: Cue, o: Cue, segments: Seq<Segment>, k: int) -> bool {
    let s = segments[k];
    &&& 0 <= k < segments.len()
    &&& o.start_ns + s.donor_offset_ns == e.start_ns
    &&& o.end_ns + s.donor_offset_ns == e.end_ns
    &&& o.text == e.text
    &&& 2 * s.master_start_ns <= o.start_ns + o.end_ns <= 2 * s.master_end_ns
    &&& forall|j: int|
        0 <= j < k ==> 2 * ((#[trigger] segments[j]).master_start_ns + segments[j].donor_offset_ns)
            > e.start_ns + e.end_ns || 2 * (segments[j].master_end_ns + segments[j].donor_offset_ns)
            < e.start_ns + e.end_ns
}

/// Some segment's donor time holds the middle of an event.
pub open spec fn has_segment(e: Cue, segments: Seq<Segment>) -> bool {
    exists|k: int|
        0 <= k < segments.len() && 2 * ((#[trigger] segments[k]).master_start_ns
            + segments[k].donor_offset_ns) <= e.start_ns + e.end_ns <= 2 * (
        segments[k].master_end_ns + segments[k].donor_offset_ns)
}

/// Cues whose times can be moved.
pub open spec fn cues_fit(events: Seq<Cue>) -> bool {
    forall|i: int|
        0 <= i < events.len() ==> time_fits((#[trigger] events[i]).start_ns) && time_fits(
            events[i].end_ns,
        )
}

/// An event that a segment covers has a first one.
proof fn lemma_first_segment(e: Cue, segments: Seq<Segment>, n: int)
    requires
        0 <= n <= segments.len(),
    ensures
        (exists|k: int| is_segment_for(segments, e, k)) || forall|k: int|
            0 <= k < n ==> !covered_by(e, #[trigger] segments[k]),
    decreases n,
{
    if n > 0 {
        lemma_first_segment(e, segments, n - 1);
        if !exists|k: int| is_segment_for(segments, e, k) {
            assert(!is_segment_for(segments, e, n - 1));
        }
    }
}

proof fn lemma_shifted(e: Cue, segments: Seq<Segment>, k: int)
    requires
        applier::segments_in_range(segments),
        time_fits(e.start_ns),
        time_fits(e.end_ns),
        is_segment_for(segments, e, k),
    ensures
        is_on_master(e, shifted(e, segments[k].donor_offset_ns as int), segments, k),
{
    assert(crate::correlation::refine::segment_in_range(segments[k]));
    assert forall|j: int| 0 <= j < k implies 2 * ((#[trigger] segments[j]).master_start_ns
        + segments[j].donor_offset_ns) > e.start_ns + e.end_ns || 2 * (segments[j].master_end_ns
        + segments[j].donor_offset_ns) < e.start_ns + e.end_ns by {
        assert(!covered_by(e, segments[j]));
    }
}

/// What is moved comes from the events, every covered event is moved, and
/// nothing is moved twice.
proof fn lemma_moved(events: Seq<Cue>, segments: Seq<Segment>)
    requires
        applier::segments_in_range(segments),
        cues_fit(events),
    ensures
        forall|j: int|
            0 <= j < moved(events, segments).len() ==> exists|i: int, k: int|
                0 <= i < events.len() && is_on_master(
                    #[trigger] events[i],
                    #[trigger] moved(events, segments)[j],
                    segments,
                    k,
                ) && #[trigger] segments[k] == segments[k],
        forall|i: int|
            0 <= i < events.len() && has_segment(#[trigger] events[i], segments) ==> exists|
                j: int,
                k: int,
            |
                0 <= j < moved(events, segments).len() && is_on_master(
                    events[i],
                    #[trigger] moved(events, segments)[j],
                    segments,
                    k,
                ) && #[trigger] segments[k] == segments[k],
        moved(events, segments).len() == events.filter(|e: Cue| has_segment(e, segments)).len(),
    decreases events.len(),
{
    reveal(Seq::filter);
    let m = moved(events, segments);
    let p = |e: Cue| has_segment(e, segments);
    if events.len() > 0 {
        let d = events.drop_last();
        let md = moved(d, segments);
        assert forall|i: int| 0 <= i < d.len() implies time_fits((#[trigger] d[i]).start_ns)
            && time_fits(d[i].end_ns) by {
            assert(d[i] == events[i]);
        }
        lemma_moved(d, segments);
        let e = events.last();
        assert(e == events[events.len() - 1]);
        lemma_first_segment(e, segments, segments.len() as int);
        if exists|k: int| is_segment_for(segments, e, k) {
            let k = choose|k: int| is_segment_for(segments, e, k);
            assert(covered_by(e, segments[k]));
            assert(has_segment(e, segments));
            lemma_shifted(e, segments, k);
            assert(m == md.push(shifted(e, segments[k].donor_offset_ns as int)));
            assert(is_on_master(e, m[m.len() - 1], segments, k));
        } else {
            assert(!has_segment(e, segments)) by {
                if has_segment(e, segments) {
                    let k = choose|k: int|
                        0 <= k < segments.len() && 2 * ((#[trigger] segments[k]).master_start_ns
                            + segments[k].donor_offset_ns) <= e.start_ns + e.end_ns <= 2 * (
                        segments[k].master_end_ns + segments[k].donor_offset_ns);
                    assert(covered_by(e, segments[k]));
                }
            }
            assert(m == md);
        }
        assert forall|j: int| 0 <= j < m.len() implies exists|i: int, k: int|
            0 <= i < events.len() && is_on_master(
                #[trigger] events[i],
                #[trigger] m[j],
                segments,
                k,
            ) && #[trigger] segments[k] == segments[k] by {
            if j < md.len() {
                assert(m[j] == md[j]);
                let (i, k) = choose|i: int, k: int|
                    0 <= i < d.len() && is_on_master(
                        #[trigger] d[i],
                        md[j],
                        segments,
                        k,
                    ) && #[trigger] segments[k] == segments[k];
                assert(events[i] == d[i]);
                assert(is_on_master(events[i], m[j], segments, k));
            } else {
                let k = choose|k: int| is_segment_for(segments, e, k);
                assert(is_on_master(events[events.len() - 1], m[j], segments, k));
            }
        }
        assert forall|i: int|
            0 <= i < events.len() && has_segment(#[trigger] events[i], segments) implies exists|
            j: int,
            k: int,
        |
            0 <= j < m.len() && is_on_master(
                events[i],
                #[trigger] m[j],
                segments,
                k,
            ) && #[trigger] segments[k] == segments[k] by {
            if i < d.len() {
                assert(d[i] == events[i]);
                let (j, k) = choose|j: int, k: int|
                    0 <= j < md.len() && is_on_master(
                        d[i],
                        #[trigger] md[j],
                        segments,
                        k,
                    ) && #[trigger] segments[k] == segments[k];
                assert(m[j] == md[j]);
                assert(is_on_master(events[i], m[j], segments, k));
            } else {
                let k = choose|k: int| is_segment_for(segments, e, k);
                assert(is_on_master(events[i], m[m.len() - 1], segments, k));
            }
        }
    }
}

/// The events in order are the moved ones.
proof fn lemma_ordered_members(events: Seq<Cue>, c: Cue)
    ensures
        in_start_order(events).contains(c) <==> events.contains(c),
{
    broadcast use vstd::seq_lib::group_to_multiset_ensures;

    lemma_in_start_order(events);
    assert(in_start_order(events).contains(c) <==> in_start_order(events).to_multiset().count(c)
        > 0);
    assert(events.contains(c) <==> events.to_multiset().count(c) > 0);
}

/// Every subtitle on the master is a subtitle of the donor, moved by the offset
/// of the first segment that holds its middle: its master times plus that
/// offset are its donor times, so its middle lies in the segment.
pub proof fn law_subtitles_follow_the_offset(events: Seq<Cue>, segments: Seq<Segment>, j: int)
    requires
        applier::segments_in_range(segments),
        cues_fit(events),
        0 <= j < in_master_time(events, segments).len(),
    ensures
        exists|i: int, k: int|
            0 <= i < events.len() && is_on_master(
                #[trigger] events[i],
                in_master_time(events, segments)[j],
                segments,
                k,
            ) && #[trigger] segments[k] == segments[k],
{
    let m = moved(events, segments);
    let kept = in_start_order(m);
    lemma_moved(events, segments);
    lemma_ordered_members(m, kept[j]);
    assert(kept.contains(kept[j]));
    let x = choose|x: int| 0 <= x < m.len() && m[x] == kept[j];
    let (i, k) = choose|i: int, k: int|
        0 <= i < events.len() && is_on_master(
            #[trigger] events[i],
            m[x],
            segments,
            k,
        ) && #[trigger] segments[k] == segments[k];
    assert(is_on_master(events[i], in_master_time(events, segments)[j], segments, k));
}

/// Every donor subtitle whose middle a segment holds is on the master, and
/// there are as many on the master as there are such.
pub proof fn law_no_subtitle_is_lost(events: Seq<Cue>, segments: Seq<Segment>)
    requires
        applier::segments_in_range(segments),
        cues_fit(events),
    ensures
        forall|i: int|
            0 <= i < events.len() && has_segment(#[trigger] events[i], segments) ==> exists|
                j: int,
                k: int,
            |
                0 <= j < in_master_time(events, segments).len() && is_on_master(
                    events[i],
                    #[trigger] in_master_time(events, segments)[j],
                    segments,
                    k,
                ) && #[trigger] segments[k] == segments[k],
        in_master_time(events, segments).len() == events.filter(
            |e: Cue| has_segment(e, segments),
        ).len(),
{
    let m = moved(events, segments);
    let kept = in_start_order(m);
    let out = in_master_time(events, segments);
    lemma_moved(events, segments);
    lemma_in_start_order(m);
    assert forall|i: int|
        0 <= i < events.len() && has_segment(#[trigger] events[i], segments) implies exists|
        j: int,
        k: int,
    |
        0 <= j < out.len() && is_on_master(
            events[i],
            #[trigger] out[j],
            segments,
            k,
        ) && #[trigger] segments[k] == segments[k] by {
        let (x, k) = choose|x: int, k: int|
            0 <= x < m.len() && is_on_master(
                events[i],
                #[trigger] m[x],
                segments,
                k,
            ) && #[trigger] segments[k] == segments[k];
        lemma_ordered_members(m, m[x]);
        assert(m.contains(m[x]));
        let j = choose|j: int| 0 <= j < kept.len() && kept[j] == m[x];
        assert(is_on_master(events[i], out[j], segments, k));
    }
}

} // verus!
