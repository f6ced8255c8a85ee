//! The two zones that files are dropped on, and the choice of tracks in them.
use vstd::prelude::*;
use crate::args;
use crate::ffprobe;
use crate::ffprobe::{contains_u32, same_text, AudioStream, SubtitleStream};
use crate::interactive;
use crate::interactive::default_output_path;
use crate::pipeline::tracks;

verus! {

/// What a probe of a file found: audio and subtitles may fail independently.
pub struct ProbeResult {
    pub audio: Result<Vec<AudioStream>, String>,
    pub subtitle: Result<Vec<SubtitleStream>, String>,
}

/// One zone: its file, and what is known of it.
pub struct ZoneState {
    pub label: &'static str,
    pub file: Option<String>,
    pub streams: Option<Vec<AudioStream>>,
    pub subtitle_streams: Option<Vec<SubtitleStream>>,
    /// A probe is under way.
    pub probing: bool,
    pub probe_error: Option<String>,
    /// Without subtitles the zone still works.
    pub subtitle_probe_error: Option<String>,
}

impl ZoneState {
    /// A zone without a file.
    pub open spec fn is_empty(&self) -> bool {
        &&& self.file is None
        &&& self.is_unknown()
        &&& !self.probing
    }

    /// Nothing is known of the file.
    pub open spec fn is_unknown(&self) -> bool {
        &&& self.streams is None
        &&& self.subtitle_streams is None
        &&& self.probe_error is None
        &&& self.subtitle_probe_error is None
    }

    pub fn new(label: &'static str) -> (r: Self)
        ensures
            r.label == label,
            r.is_empty(),
    {
        ZoneState {
            label,
            file: None,
            streams: None,
            subtitle_streams: None,
            probing: false,
            probe_error: None,
            subtitle_probe_error: None,
        }
    }

    pub fn clear_file(&mut self)
        ensures
            final(self).label == old(self).label,
            final(self).is_empty(),
    {
        self.file = None;
        self.streams = None;
        self.subtitle_streams = None;
        self.probing = false;
        self.probe_error = None;
        self.subtitle_probe_error = None;
    }

    /// Takes a file; the caller probes it.
    pub fn set_file(&mut self, path: String)
        ensures
            final(self).label == old(self).label,
            final(self).file == Some(path),
            final(self).is_unknown(),
            final(self).probing,
    {
        self.file = Some(path);
        self.streams = None;
        self.subtitle_streams = None;
        self.probe_error = None;
        self.subtitle_probe_error = None;
        self.probing = true;
    }

    /// Takes the result of a probe, if one has come in and is awaited.
    pub fn poll_probe(&mut self, result: Option<ProbeResult>)
        ensures
            final(self).label == old(self).label,
            final(self).file == old(self).file,
            if old(self).probing && result is Some {
                let found = result->0;
                &&& !final(self).probing
                &&& match found.audio {
                    Ok(s) => final(self).streams == Some(s) && final(self).probe_error == old(self).probe_error,
                    Err(e) => final(self).probe_error == Some(e) && final(self).streams == old(self).streams,
                }
                &&& match found.subtitle {
                    Ok(s) => final(self).subtitle_streams == Some(s) && final(self).subtitle_probe_error == old(self).subtitle_probe_error,
                    Err(e) => final(self).subtitle_probe_error == Some(e) && final(self).subtitle_streams == old(self).subtitle_streams,
                }
            } else {
                *final(self) == *old(self)
            },
    {
        if !self.probing {
            return;
        }
        if let Some(found) = result {
            self.probing = false;
            match found.audio {
                Ok(s) => {
                    self.streams = Some(s);
                },
                Err(e) => {
                    self.probe_error = Some(e);
                },
            }
            match found.subtitle {
                Ok(s) => {
                    self.subtitle_streams = Some(s);
                },
                Err(e) => {
                    self.subtitle_probe_error = Some(e);
                },
            }
        }
    }
}

/// Those of `v` that are not `x`.
pub open spec fn without(v: Seq<u32>, x: u32) -> Seq<u32>
    decreases v.len(),
{
    if v.len() == 0 {
        Seq::empty()
    } else if v.last() == x {
        without(v.drop_last(), x)
    } else {
        without(v.drop_last(), x).push(v.last())
    }
}

fn remove_all(v: &Vec<u32>, x: u32) -> (r: Vec<u32>)
    ensures
        r@ == without(v@, x),
{
    let mut r: Vec<u32> = Vec::new();
    let mut i: usize = 0;
    while i < v.len()
        invariant
            i <= v@.len(),
            r@ == without(v@.take(i as int), x),
        decreases v@.len() - i,
    {
        if v[i] != x {
            r.push(v[i]);
        }
        i += 1;
        assert(v@.take(i as int).drop_last() =~= v@.take(i - 1));
    }
    assert(v@.take(i as int) =~= v@);
    r
}

/// The tracks after one was ticked or unticked.
pub open spec fn toggled(v: Seq<u32>, index: u32, chosen: bool) -> Seq<u32> {
    if chosen {
        if v.contains(index) {
            v
        } else {
            v.push(index)
        }
    } else {
        without(v, index)
    }
}

/// Ticks or unticks a track.
pub fn toggle_track(selected: &mut Vec<u32>, index: u32, chosen: bool)
    ensures
        final(selected)@ == toggled(old(selected)@, index, chosen),
{
    if chosen {
        if !contains_u32(selected, index) {
            selected.push(index);
        }
    } else {
        *selected = remove_all(selected, index);
    }
}

/// The dubs once another track is the anchor.
pub open spec fn dubs_beside(dubs: Seq<u32>, anchor: u32, is_donor: bool) -> Seq<u32> {
    if is_donor {
        without(dubs, anchor)
    } else {
        dubs
    }
}

/// Makes a track the anchor. In the donor's zone it is then no dub.
pub fn pick_anchor(anchor: &mut Option<u32>, dubs: &mut Vec<u32>, index: u32, is_donor: bool)
    ensures
        *final(anchor) == Some(index),
        final(dubs)@ == dubs_beside(old(dubs)@, index, is_donor),
{
    *anchor = Some(index);
    if is_donor {
        *dubs = remove_all(dubs, index);
    }
}

/// The label of the chosen anchor.
pub fn anchor_label(streams: &Vec<AudioStream>, anchor: Option<u32>) -> (r: String)
    ensures
        r@ == (match anchor {
            Some(index) => match tracks::audio_at(streams@, index) {
                Some(s) => s.label(),
                None => "(pick one)"@,
            },
            None => "(pick one)"@,
        }),
{
    if let Some(index) = anchor {
        if let Some(s) = tracks::find_audio(streams, index) {
            return s.display_label();
        }
    }
    String::from_str("(pick one)")
}

/// Those of the remembered subtitle tracks among the first `n` that a file has,
/// as text.
pub open spec fn usable_subs(streams: Seq<SubtitleStream>, last: Seq<u32>, n: int) -> Seq<u32>
    decreases n,
{
    if n <= 0 {
        Seq::empty()
    } else {
        let rest = usable_subs(streams, last, n - 1);
        match tracks::sub_at(streams, last[n - 1]) {
            Some(s) => if ffprobe::image_codec(s.codec_name@) {
                rest
            } else {
                rest.push(last[n - 1])
            },
            None => rest,
        }
    }
}

/// Drops remembered subtitle tracks that the file does not have or that hold
/// images.
pub fn reconcile_subs(streams: &Vec<SubtitleStream>, last_subs: &Vec<u32>) -> (r: Vec<u32>)
    ensures
        r@ == usable_subs(streams@, last_subs@, last_subs@.len() as int),
{
    let mut r: Vec<u32> = Vec::new();
    let mut i: usize = 0;
    while i < last_subs.len()
        invariant
            i <= last_subs@.len(),
            r@ == usable_subs(streams@, last_subs@, i as int),
        decreases last_subs@.len() - i,
    {
        let index: u32 = last_subs[i];
        if let Some(s) = tracks::find_sub(streams, index) {
            if !s.is_image_based() {
                r.push(index);
            }
        }
        i += 1;
    }
    r
}

/// Every subtitle track that is kept can be shifted, so that a run accepts it.
pub proof fn law_reconciled_subs_are_valid(streams: Seq<SubtitleStream>, last: Seq<u32>, n: int)
    requires
        0 <= n <= last.len(),
    ensures
        tracks::sub_problem(usable_subs(streams, last, n), streams) is None,
    decreases n,
{
    if n > 0 {
        law_reconciled_subs_are_valid(streams, last, n - 1);
        let rest = usable_subs(streams, last, n - 1);
        if usable_subs(streams, last, n) != rest {
            lemma_sub_problem_push(rest, last[n - 1], streams);
        }
    }
}

proof fn lemma_sub_problem_push(v: Seq<u32>, x: u32, streams: Seq<SubtitleStream>)
    requires
        tracks::sub_problem(v, streams) is None,
        tracks::sub_at(streams, x) matches Some(s) && !ffprobe::image_codec(s.codec_name@),
    ensures
        tracks::sub_problem(v.push(x), streams) is None,
    decreases v.len(),
{
    let w = v.push(x);
    if v.len() == 0 {
        assert(w.skip(1) =~= Seq::empty());
        assert(tracks::sub_problem(w.skip(1), streams) is None);
    } else {
        assert(w.skip(1) =~= v.skip(1).push(x));
        lemma_sub_problem_push(v.skip(1), x, streams);
    }
}

/// The first English track at or after `i`.
pub open spec fn english(streams: Seq<AudioStream>, i: int) -> Option<u32>
    decreases streams.len() - i,
{
    if i >= streams.len() {
        None
    } else if ffprobe::tag_of(streams[i].tags@, "language"@) == Some("eng"@) {
        Some(streams[i].index)
    } else {
        english(streams, i + 1)
    }
}

/// The anchor for a file: the remembered one if the file has it, else the first
/// English track, else the first track.
pub open spec fn anchor_for(streams: Seq<AudioStream>, last: Option<u32>) -> Option<u32> {
    if last is Some && ffprobe::indices(streams).contains(last->0) {
        last
    } else if english(streams, 0) is Some {
        english(streams, 0)
    } else if streams.len() > 0 {
        Some(streams[0].index)
    } else {
        None
    }
}

/// Those of the remembered dubs among the first `n` that a file has, without
/// the anchor.
pub open spec fn dubs_for(available: Seq<u32>, anchor: Option<u32>, last: Seq<u32>, n: int) -> Seq<
    u32,
>
    decreases n,
{
    if n <= 0 {
        Seq::empty()
    } else if available.contains(last[n - 1]) && anchor != Some(last[n - 1]) {
        dubs_for(available, anchor, last, n - 1).push(last[n - 1])
    } else {
        dubs_for(available, anchor, last, n - 1)
    }
}

fn has_index(streams: &Vec<AudioStream>, index: u32) -> (r: bool)
    ensures
        r == ffprobe::indices(streams@).contains(index),
{
    let ghost all = ffprobe::indices(streams@);
    let mut i: usize = 0;
    while i < streams.len()
        invariant
            i <= streams@.len(),
            all == ffprobe::indices(streams@),
            forall|k: int| 0 <= k < i ==> #[trigger] all[k] != index,
        decreases streams@.len() - i,
    {
        if streams[i].index == index {
            assert(all[i as int] == index);
            return true;
        }
        i += 1;
    }
    false
}

fn find_english(streams: &Vec<AudioStream>) -> (r: Option<u32>)
    ensures
        r == english(streams@, 0),
{
    let mut i: usize = 0;
    while i < streams.len()
        invariant
            i <= streams@.len(),
            english(streams@, 0) == english(streams@, i as int),
        decreases streams@.len() - i,
    {
        if let Some(l) = streams[i].language() {
            if same_text(l, "eng") {
                return Some(streams[i].index);
            }
        }
        i += 1;
    }
    None
}

/// Chooses the tracks of a file by what was chosen last.
pub fn auto_select(streams: &Vec<AudioStream>, last_anchor: Option<u32>, last_dubs: &Vec<u32>)
    -> (r: (Option<u32>, Vec<u32>))
    ensures
        r.0 == anchor_for(streams@, last_anchor),
        r.1@ == dubs_for(
            ffprobe::indices(streams@),
            r.0,
            last_dubs@,
            last_dubs@.len() as int,
        ),
{
    let remembered: Option<u32> = match last_anchor {
        Some(index) => if has_index(streams, index) {
            Some(index)
        } else {
            None
        },
        None => None,
    };
    let anchor: Option<u32> = match remembered {
        Some(index) => Some(index),
        None => match find_english(streams) {
            Some(index) => Some(index),
            None => if streams.len() > 0 {
                Some(streams[0].index)
            } else {
                None
            },
        },
    };
    let mut dubs: Vec<u32> = Vec::new();
    let mut i: usize = 0;
    while i < last_dubs.len()
        invariant
            i <= last_dubs@.len(),
            dubs@ == dubs_for(ffprobe::indices(streams@), anchor, last_dubs@, i as int),
        decreases last_dubs@.len() - i,
    {
        let index: u32 = last_dubs[i];
        let is_anchor = match anchor {
            Some(a) => a == index,
            None => false,
        };
        if has_index(streams, index) && !is_anchor {
            dubs.push(index);
        }
        i += 1;
    }
    (anchor, dubs)
}

proof fn lemma_english(streams: Seq<AudioStream>, i: int)
    requires
        0 <= i,
    ensures
        english(streams, i) matches Some(x) ==> ffprobe::indices(streams).contains(x),
    decreases streams.len() - i,
{
    if i < streams.len() {
        if ffprobe::tag_of(streams[i].tags@, "language"@) == Some("eng"@) {
            assert(ffprobe::indices(streams)[i] == streams[i].index);
        } else {
            lemma_english(streams, i + 1);
        }
    }
}

proof fn lemma_dubs_for(available: Seq<u32>, anchor: Option<u32>, last: Seq<u32>, n: int)
    requires
        0 <= n <= last.len(),
    ensures
        forall|k: int|
            0 <= k < dubs_for(available, anchor, last, n).len() ==> available.contains(
                #[trigger] dubs_for(available, anchor, last, n)[k],
            ) && anchor != Some(dubs_for(available, anchor, last, n)[k]),
    decreases n,
{
    if n > 0 {
        lemma_dubs_for(available, anchor, last, n - 1);
        let before = dubs_for(available, anchor, last, n - 1);
        let after = dubs_for(available, anchor, last, n);
        assert forall|k: int| 0 <= k < after.len() implies available.contains(#[trigger] after[k])
            && anchor != Some(after[k]) by {
            if k < before.len() {
                assert(after[k] == before[k]);
            }
        }
    }
}

/// What is chosen exists in the file, a file with tracks always has an anchor,
/// and the anchor is never among the dubs.
pub proof fn law_selection_exists(
    streams: Seq<AudioStream>,
    last_anchor: Option<u32>,
    last_dubs: Seq<u32>,
)
    ensures
        ({
            let available = ffprobe::indices(streams);
            let anchor = anchor_for(streams, last_anchor);
            let dubs = dubs_for(available, anchor, last_dubs, last_dubs.len() as int);
            &&& anchor is Some <==> streams.len() > 0
            &&& anchor matches Some(a) ==> available.contains(a)
            &&& forall|k: int|
                0 <= k < dubs.len() ==> available.contains(#[trigger] dubs[k]) && anchor != Some(
                    dubs[k],
                )
        }),
{
    let available = ffprobe::indices(streams);
    lemma_english(streams, 0);
    if streams.len() > 0 {
        assert(available[0] == streams[0].index);
    }
    lemma_dubs_for(
        available,
        anchor_for(streams, last_anchor),
        last_dubs,
        last_dubs.len() as int,
    );
}

/// Where the output goes: a folder and a name in it.
#[derive(Clone, Debug)]
pub struct OutputPath {
    pub dir: String,
    pub name: String,
}

/// The folder of an output: the preferred one, else that of the master.
pub open spec fn output_dir_for(
    parent: Option<Seq<char>>,
    preferred: Option<Seq<char>>,
) -> Seq<char> {
    match (preferred, parent) {
        (Some(d), _) => d,
        (None, Some(d)) => d,
        (None, None) => ""@,
    }
}

/// The output for a master with a name that starts with `stem` in the folder
/// `parent`: in the preferred folder if there is one, else next to the master,
/// else in the working directory; named after the master.
pub fn output_path_for(stem: Option<&str>, parent: Option<&str>, preferred_dir: Option<&str>)
    -> (r: OutputPath)
    ensures
        r.dir@ == output_dir_for(args::opt_str_view(parent), args::opt_str_view(preferred_dir)),
        r.name@ == interactive::synced_name(args::opt_str_view(stem)),
{
    let dir = match preferred_dir {
        Some(d) => d,
        None => match parent {
            Some(d) => d,
            None => "",
        },
    };
    OutputPath { dir: String::from_str(dir), name: default_output_path(stem) }
}

/// Whether the remembered anchor is missing from a file.
pub open spec fn anchor_missing(streams: Seq<AudioStream>, anchor: Option<u32>) -> bool {
    match anchor {
        Some(a) => !ffprobe::indices(streams).contains(a),
        None => true,
    }
}

fn needs_anchor(streams: &Vec<AudioStream>, anchor: Option<u32>) -> (r: bool)
    ensures
        r == anchor_missing(streams@, anchor),
{
    match anchor {
        Some(a) => !has_index(streams, a),
        None => true,
    }
}

/// Once a file is probed, chooses its anchor anew unless the file has the one
/// that is chosen.
pub fn attach_indices(zone: &ZoneState, last_anchor: &mut Option<u32>)
    ensures
        *final(last_anchor) == (match zone.streams {
            Some(s) => if anchor_missing(s@, *old(last_anchor)) {
                anchor_for(s@, *old(last_anchor))
            } else {
                *old(last_anchor)
            },
            None => *old(last_anchor),
        }),
{
    if let Some(streams) = &zone.streams {
        if needs_anchor(streams, *last_anchor) {
            let none: Vec<u32> = Vec::new();
            let (anchor, _) = auto_select(streams, *last_anchor, &none);
            *last_anchor = anchor;
        }
    }
}

/// Whether the dubs have to be chosen anew: there are none, or one is missing
/// from the file.
pub open spec fn dubs_missing(available: Seq<u32>, dubs: Seq<u32>) -> bool {
    dubs.len() == 0 || exists|k: int|
        0 <= k < dubs.len() && !available.contains(#[trigger] dubs[k])
}

fn needs_dubs(streams: &Vec<AudioStream>, dubs: &Vec<u32>) -> (r: bool)
    ensures
        r == dubs_missing(ffprobe::indices(streams@), dubs@),
{
    if dubs.len() == 0 {
        return true;
    }
    let mut i: usize = 0;
    while i < dubs.len()
        invariant
            i <= dubs@.len(),
            forall|k: int|
                0 <= k < i ==> ffprobe::indices(streams@).contains(#[trigger] dubs@[k]),
        decreases dubs@.len() - i,
    {
        if !has_index(streams, dubs[i]) {
            return true;
        }
        i += 1;
    }
    false
}

/// Once the donor is probed, chooses its anchor and its dubs anew where the
/// file does not have those that are chosen.
pub fn attach_dub_indices(
    zone: &ZoneState,
    last_anchor: &mut Option<u32>,
    last_dubs: &mut Vec<u32>,
)
    ensures
        match zone.streams {
            Some(s) => {
                let available = ffprobe::indices(s@);
                let anchor = anchor_for(s@, *old(last_anchor));
                &&& *final(last_anchor) == if anchor_missing(s@, *old(last_anchor)) {
                    anchor
                } else {
                    *old(last_anchor)
                }
                &&& final(last_dubs)@ == if dubs_missing(available, old(last_dubs)@) {
                    dubs_for(
                        available,
                        anchor,
                        old(last_dubs)@,
                        old(last_dubs)@.len() as int,
                    )
                } else {
                    old(last_dubs)@
                }
            },
            None => *final(last_anchor) == *old(last_anchor) && final(last_dubs)@ == old(last_dubs)@,
        },
{
    if let Some(streams) = &zone.streams {
        let new_anchor = needs_anchor(streams, *last_anchor);
        let new_dubs = needs_dubs(streams, last_dubs);
        if new_anchor || new_dubs {
            let (anchor, dubs) = auto_select(streams, *last_anchor, last_dubs);
            if new_anchor {
                *last_anchor = anchor;
            }
            if new_dubs {
                *last_dubs = dubs;
            }
        }
    }
}

/// Once the donor's subtitles are probed, drops the chosen ones that cannot be
/// used.
pub fn attach_sub_indices(zone: &ZoneState, last_subs: &mut Vec<u32>)
    ensures
        final(last_subs)@ == (match zone.subtitle_streams {
            Some(s) => usable_subs(s@, old(last_subs)@, old(last_subs)@.len() as int),
            None => old(last_subs)@,
        }),
{
    if let Some(streams) = &zone.subtitle_streams {
        *last_subs = reconcile_subs(streams, last_subs);
    }
}

/// Which zone a dropped file goes to: the one under the cursor, else the
/// master's if it is empty.
pub fn drop_goes_to_master(over_master: bool, over_donor: bool, master_is_empty: bool) -> (r: bool)
    ensures
        r == (over_master || (!over_donor && master_is_empty)),
{
    if over_master {
        true
    } else if over_donor {
        false
    } else {
        master_is_empty
    }
}

/// Choosing a track puts it behind the others, once; dropping it takes it away
/// and leaves the others as they were.
pub proof fn law_toggle(v: Seq<u32>, index: u32)
    ensures
        toggled(v, index, true).contains(index),
        v.contains(index) ==> toggled(v, index, true) == v,
        !v.contains(index) ==> toggled(v, index, true) == v.push(index),
        toggled(v, index, false) == v.filter(|x: u32| x != index),
        !toggled(v, index, false).contains(index),
        !v.contains(index) ==> toggled(toggled(v, index, true), index, false) == v,
{
    if !v.contains(index) {
        assert(v.push(index).last() == index);
        assert(v.push(index).drop_last() =~= v);
        lemma_without_absent(v, index);
    }
    lemma_without(v, index);
}

proof fn lemma_without_absent(v: Seq<u32>, x: u32)
    requires
        !v.contains(x),
    ensures
        without(v, x) == v,
    decreases v.len(),
{
    if v.len() > 0 {
        let u = v.drop_last();
        assert(v[v.len() - 1] != x);
        assert forall|i: int| 0 <= i < u.len() implies u[i] != x by {
            assert(v[i] != x);
        }
        lemma_without_absent(u, x);
        assert(u.push(v.last()) =~= v);
    }
}

proof fn lemma_without(v: Seq<u32>, x: u32)
    ensures
        without(v, x) == v.filter(|y: u32| y != x),
        !without(v, x).contains(x),
    decreases v.len(),
{
    reveal(Seq::filter);
    if v.len() > 0 {
        lemma_without(v.drop_last(), x);
        let u = without(v.drop_last(), x);
        if v.last() != x {
            let w = u.push(v.last());
            assert forall|i: int| 0 <= i < w.len() implies w[i] != x by {
                if i < u.len() {
                    assert(w[i] == u[i]);
                    assert(u.contains(u[i]));
                }
            }
        }
    }
}

/// The dubs that are kept for another file are the chosen ones that it has, but
/// for its anchor, in the order in which they were chosen.
pub proof fn law_kept_dubs(available: Seq<u32>, anchor: Option<u32>, last: Seq<u32>, n: int)
    requires
        0 <= n <= last.len(),
    ensures
        dubs_for(available, anchor, last, n) == last.take(n).filter(
            |x: u32| available.contains(x) && anchor != Some(x),
        ),
    decreases n,
{
    reveal(Seq::filter);
    if n > 0 {
        law_kept_dubs(available, anchor, last, n - 1);
        assert(last.take(n).drop_last() =~= last.take(n - 1));
    }
}

/// The subtitles that are kept for another file are the chosen ones that it has
/// as text, in the order in which they were chosen.
pub proof fn law_kept_subtitles(streams: Seq<SubtitleStream>, last: Seq<u32>, n: int)
    requires
        0 <= n <= last.len(),
    ensures
        usable_subs(streams, last, n) == last.take(n).filter(
            |x: u32|
                tracks::sub_at(streams, x) is Some && !ffprobe::image_codec(
                    tracks::sub_at(streams, x)->0.codec_name@,
                ),
        ),
    decreases n,
{
    reveal(Seq::filter);
    if n > 0 {
        law_kept_subtitles(streams, last, n - 1);
        assert(last.take(n).drop_last() =~= last.take(n - 1));
    }
}

/// The anchor is the one from before if the file has it, else the first English
/// track, else the first track.
pub proof fn law_anchor_choice(streams: Seq<AudioStream>, last: Option<u32>, i: int)
    requires
        0 <= i < streams.len(),
        forall|j: int|
            0 <= j < i ==> ffprobe::tag_of((#[trigger] streams[j]).tags@, "language"@) != Some(
                "eng"@,
            ),
    ensures
        last == Some(streams[i].index) ==> anchor_for(streams, last) == last,
        (last is None || forall|j: int|
            0 <= j < streams.len() ==> (#[trigger] streams[j]).index != last->0)
            && ffprobe::tag_of(streams[i].tags@, "language"@) == Some("eng"@) ==> anchor_for(
            streams,
            last,
        ) == Some(streams[i].index),
        (last is None || forall|j: int|
            0 <= j < streams.len() ==> (#[trigger] streams[j]).index != last->0) && i
            == streams.len() - 1 && ffprobe::tag_of(streams[i].tags@, "language"@) != Some("eng"@)
            ==> anchor_for(streams, last) == Some(streams[0].index),
{
    let a = ffprobe::indices(streams);
    assert(a[i] == streams[i].index);
    assert forall|j: int| 0 <= j < streams.len() implies a[j] == (#[trigger] streams[j]).index by {}
    lemma_first_english(streams, i, 0);
    if i == streams.len() - 1 {
        assert(english(streams, i + 1) is None);
    }
}

proof fn lemma_first_english(streams: Seq<AudioStream>, i: int, from: int)
    requires
        0 <= from <= i < streams.len(),
        forall|j: int|
            0 <= j < i ==> ffprobe::tag_of((#[trigger] streams[j]).tags@, "language"@) != Some(
                "eng"@,
            ),
    ensures
        english(streams, from) == english(streams, i),
    decreases i - from,
{
    if from < i {
        lemma_first_english(streams, i, from + 1);
    }
}

/// A track that becomes the donor's anchor is no dub any more; the other dubs
/// stay. The master's anchor does not touch the dubs.
pub proof fn law_anchor_is_no_dub(dubs: Seq<u32>, anchor: u32)
    ensures
        !dubs_beside(dubs, anchor, true).contains(anchor),
        dubs_beside(dubs, anchor, true) == dubs.filter(|x: u32| x != anchor),
        dubs_beside(dubs, anchor, false) == dubs,
{
    lemma_without(dubs, anchor);
}

/// The output goes to the preferred folder, or else beside the master.
pub proof fn law_output_folder(dir: Seq<char>, parent: Option<Seq<char>>)
    ensures
        output_dir_for(parent, Some(dir)) == dir,
        output_dir_for(Some(dir), None) == dir,
        output_dir_for(None, None) == ""@,
{
}

} // verus!
