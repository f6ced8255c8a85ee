//! The form: which files and options are set, and the run that they make.
use vstd::prelude::*;
use crate::args;
use crate::cli::{copy_list, copy_opt, Cli, DubCodec, FpsMode, RunConfig};
use crate::ffprobe::same_text;
use crate::gui::dropzones::{output_path_for, OutputPath, ZoneState};
use crate::gui::persistence;
use crate::gui::persistence::{PersistedOptions, PersistedState};
use crate::gui::run_controller::RunOutcome;
use crate::interactive;
use crate::interactive::{parse_bitrate, trimmed};
use crate::text;

verus! {

pub struct Form {
    pub state: PersistedState,
    pub master: ZoneState,
    pub donor: ZoneState,
    pub output_dir: Option<String>,
    /// The name of the output in its folder, as typed.
    pub output_filename: String,
    pub running: bool,
    pub last_output: Option<String>,
    pub last_error: Option<String>,
}

/// What keeps a run from being started: the error to show, or nothing to show.
pub open spec fn blocker(f: Form) -> Option<Option<Seq<char>>> {
    if f.master.file is None || f.donor.file is None || f.state.last_master_anchor is None
        || f.state.last_donor_anchor is None {
        Some(None)
    } else if !f.state.options.anchor_only_validation && f.state.last_donor_dubs@.len() == 0 {
        Some(Some("Pick at least one dub track on the donor side."@))
    } else if !f.has_output() {
        Some(Some("Set both an output folder and a filename before running."@))
    } else {
        None
    }
}

/// The options of a run that was started from the form.
pub open spec fn follows(c: RunConfig, o: PersistedOptions) -> bool {
    &&& c.keep_temp == o.keep_temp
    &&& c.include_donor_anchor == o.include_donor_anchor
    &&& c.solo_dub == o.solo_dub
    &&& c.temp_dir is None
    &&& c.threads is None
    &&& c.silence_udb == o.silence_udb
    &&& c.silence_min_ms == o.silence_min_ms
    &&& c.anchor_rate == o.anchor_rate
    &&& c.correlation_window_ns == o.correlation_window_ns
    &&& c.max_drift_ns == o.max_drift_ns
    &&& c.max_segment_jump_ns == o.max_segment_jump_ns
    &&& c.snap_radius_ns == o.snap_radius_ns
    &&& c.crossfade_ms == o.crossfade_ms
    &&& c.smooth_gaps == o.smooth_gaps
    &&& c.gap_fill_margin_ns == o.gap_fill_margin_ns
    &&& c.gap_fill_max_ratio_ppm == o.gap_fill_max_ratio_ppm
    &&& c.gap_fill_silence_fade_ms == o.gap_fill_silence_fade_ms
    &&& c.speech_udb == o.speech_udb
    &&& c.pal_pitch_correction == o.pal_pitch_correction
    &&& c.anchor_only_validation == o.anchor_only_validation
    &&& c.dub_codec == DubCodec::of_token(o.dub_codec@)
    &&& c.dub_bitrate_kbps == persistence::bitrate_typed(o.dub_bitrate@)
    &&& c.fps_mode == persistence::mode_typed(o.fps_mode@, o.fps_manual_ratio_nano)
    &&& c.keep_master_subs == o.keep_master_subs
    &&& c.include_donor_forced_subs == o.include_donor_forced_subs
}

/// The files and tracks of a run that was started from the form.
pub open spec fn takes(c: RunConfig, f: Form, output: Option<String>) -> bool {
    &&& Some(c.master_file@) == args::opt_view(f.master.file)
    &&& Some(c.donor_file@) == args::opt_view(f.donor.file)
    &&& Some(c.master_anchor_track) == f.state.last_master_anchor
    &&& Some(c.donor_anchor_track) == f.state.last_donor_anchor
    &&& c.donor_dub_tracks@ == if f.state.options.anchor_only_validation {
        seq![c.donor_anchor_track]
    } else {
        f.state.last_donor_dubs@
    }
    &&& Some(c.output_file@) == args::opt_view(output)
    &&& c.donor_subs_explicit@ == f.state.last_donor_subs@
}

/// The frame-rate policy behind its token.
pub fn fps_mode_of_token(token: &str, ratio: i64) -> (r: FpsMode)
    ensures
        r == persistence::mode_typed(token@, ratio),
{
    if same_text(token, "disabled") {
        FpsMode::Disabled
    } else if same_text(token, "manual") {
        FpsMode::Forced(ratio)
    } else {
        FpsMode::Auto
    }
}

fn same_opt(a: &Option<String>, b: &Option<String>) -> (r: bool)
    ensures
        r == (args::opt_view(*a) == args::opt_view(*b)),
{
    match a {
        Some(x) => match b {
            Some(y) => same_text(x.as_str(), y.as_str()),
            None => false,
        },
        None => b.is_none(),
    }
}

impl Form {
    /// The form of a new session: remembered files come back if they still
    /// exist, and are forgotten otherwise.
    pub fn new(state: PersistedState, master_exists: bool, donor_exists: bool) -> (r: Self)
        ensures
            r.master.label@ == "Master"@,
            r.donor.label@ == "Donor"@,
            match state.master_file {
                Some(p) if master_exists => args::opt_view(r.master.file) == Some(p@)
                    && r.master.probing && r.master.is_unknown() && r.state.master_file
                    == state.master_file,
                _ => r.master.is_empty() && r.state.master_file is None,
            },
            match state.donor_file {
                Some(p) if donor_exists => args::opt_view(r.donor.file) == Some(p@)
                    && r.donor.probing && r.donor.is_unknown() && r.state.donor_file
                    == state.donor_file,
                _ => r.donor.is_empty() && r.state.donor_file is None,
            },
            args::opt_view(r.output_dir) == args::opt_view(state.output_dir),
            r.output_filename@ == state.output_filename@,
            r.state == (PersistedState {
                master_file: r.state.master_file,
                donor_file: r.state.donor_file,
                ..state
            }),
            !r.running,
            r.last_output is None,
            r.last_error is None,
    {
        let mut state = state;
        let mut master = ZoneState::new("Master");
        let mut donor = ZoneState::new("Donor");
        if let Some(p) = copy_opt(&state.master_file) {
            if master_exists {
                master.set_file(p);
            } else {
                state.master_file = None;
            }
        }
        if let Some(p) = copy_opt(&state.donor_file) {
            if donor_exists {
                donor.set_file(p);
            } else {
                state.donor_file = None;
            }
        }
        let output_dir = copy_opt(&state.output_dir);
        let output_filename = String::from_str(state.output_filename.as_str());
        Form {
            state,
            master,
            donor,
            output_dir,
            output_filename,
            running: false,
            last_output: None,
            last_error: None,
        }
    }

    /// A folder and a name for the output are there.
    pub open spec fn has_output(&self) -> bool {
        self.output_dir is Some && text::trim(self.output_filename@).len() > 0
    }

    /// Where the output goes, if folder and name are there.
    pub fn compose_output_path(&self) -> (r: Option<OutputPath>)
        ensures
            match r {
                Some(p) => self.has_output() && Some(p.dir@) == args::opt_view(self.output_dir)
                    && p.name@ == text::trim(self.output_filename@),
                None => !self.has_output(),
            },
    {
        match &self.output_dir {
            Some(dir) => {
                let name = trimmed(self.output_filename.as_str());
                if name.as_str().is_empty() {
                    None
                } else {
                    Some(OutputPath { dir: String::from_str(dir.as_str()), name })
                }
            },
            None => None,
        }
    }

    /// Everything that a run needs is there, and none is under way.
    pub open spec fn ready(&self) -> bool {
        &&& !self.running
        &&& self.master.file is Some
        &&& self.donor.file is Some
        &&& self.master.streams is Some
        &&& self.donor.streams is Some
        &&& self.state.last_master_anchor is Some
        &&& self.state.last_donor_anchor is Some
        &&& self.state.options.anchor_only_validation || self.state.last_donor_dubs@.len() > 0
        &&& self.has_output()
    }

    pub fn is_runnable(&self) -> (r: bool)
        ensures
            r == self.ready(),
    {
        let dubs_ok = self.state.options.anchor_only_validation
            || self.state.last_donor_dubs.len() > 0;
        !self.running && self.master.file.is_some() && self.donor.file.is_some()
            && self.master.streams.is_some() && self.donor.streams.is_some()
            && self.state.last_master_anchor.is_some() && self.state.last_donor_anchor.is_some()
            && dubs_ok && self.compose_output_path().is_some()
    }

    /// Starts a run: makes its configuration, remembers what the form holds,
    /// and clears what the last run left. `output_file` is the composed output
    /// path, `report_path` where a report goes.
    pub fn start_run(&mut self, output_file: Option<String>, report_path: Option<String>) -> (r:
        Option<RunConfig>)
        requires
            output_file is Some <==> old(self).has_output(),
        ensures
            match blocker(*old(self)) {
                Some(why) => {
                    &&& r is None
                    &&& *final(self) == (Form {
                        last_error: final(self).last_error,
                        ..*old(self)
                    })
                    &&& args::opt_view(final(self).last_error) == if why is Some {
                        why
                    } else {
                        args::opt_view(old(self).last_error)
                    }
                },
                None => {
                    &&& r matches Some(c)
                    &&& takes(c, *old(self), output_file)
                    &&& follows(c, old(self).state.options)
                    &&& args::opt_view(c.report_path) == if old(self).state.options.save_report {
                        args::opt_view(report_path)
                    } else {
                        None
                    }
                    &&& final(self).running
                    &&& final(self).last_error is None
                    &&& final(self).last_output is None
                    &&& final(self).remembers(*old(self))
                    &&& final(self).master == old(self).master
                    &&& final(self).donor == old(self).donor
                    &&& final(self).output_dir == old(self).output_dir
                    &&& final(self).output_filename == old(self).output_filename
                },
            },
    {
        let master_file = match &self.master.file {
            Some(f) => String::from_str(f.as_str()),
            None => {
                return None;
            },
        };
        let donor_file = match &self.donor.file {
            Some(f) => String::from_str(f.as_str()),
            None => {
                return None;
            },
        };
        let master_anchor_track: u32 = match self.state.last_master_anchor {
            Some(t) => t,
            None => {
                return None;
            },
        };
        let donor_anchor_track: u32 = match self.state.last_donor_anchor {
            Some(t) => t,
            None => {
                return None;
            },
        };
        let donor_dub_tracks = if self.state.options.anchor_only_validation {
            let only = vec![donor_anchor_track];
            assert(only@ =~= seq![donor_anchor_track]);
            only
        } else {
            if self.state.last_donor_dubs.len() == 0 {
                self.last_error = Some(
                    String::from_str("Pick at least one dub track on the donor side."),
                );
                return None;
            }
            copy_list(&self.state.last_donor_dubs)
        };
        let output_file = match output_file {
            Some(p) => p,
            None => {
                self.last_error = Some(
                    String::from_str("Set both an output folder and a filename before running."),
                );
                return None;
            },
        };
        let o = &self.state.options;
        let cfg = RunConfig {
            master_file,
            donor_file,
            master_anchor_track,
            donor_anchor_track,
            donor_dub_tracks,
            output_file,
            keep_temp: o.keep_temp,
            include_donor_anchor: o.include_donor_anchor,
            solo_dub: o.solo_dub,
            temp_dir: None,
            threads: None,
            silence_udb: o.silence_udb,
            silence_min_ms: o.silence_min_ms,
            anchor_rate: o.anchor_rate,
            correlation_window_ns: o.correlation_window_ns,
            max_drift_ns: o.max_drift_ns,
            max_segment_jump_ns: o.max_segment_jump_ns,
            snap_radius_ns: o.snap_radius_ns,
            crossfade_ms: o.crossfade_ms,
            smooth_gaps: o.smooth_gaps,
            gap_fill_margin_ns: o.gap_fill_margin_ns,
            gap_fill_max_ratio_ppm: o.gap_fill_max_ratio_ppm,
            gap_fill_silence_fade_ms: o.gap_fill_silence_fade_ms,
            speech_udb: o.speech_udb,
            pal_pitch_correction: o.pal_pitch_correction,
            anchor_only_validation: o.anchor_only_validation,
            report_path: if o.save_report {
                report_path
            } else {
                None
            },
            dub_codec: DubCodec::from_token(o.dub_codec.as_str()),
            dub_bitrate_kbps: parse_bitrate(o.dub_bitrate.as_str()),
            fps_mode: fps_mode_of_token(o.fps_mode.as_str(), o.fps_manual_ratio_nano),
            keep_master_subs: o.keep_master_subs,
            include_donor_forced_subs: o.include_donor_forced_subs,
            donor_subs_explicit: copy_list(&self.state.last_donor_subs),
        };
        self.remember();
        self.last_error = None;
        self.last_output = None;
        self.running = true;
        Some(cfg)
    }

    /// The state that is kept holds the files and the output of a form, and
    /// nothing else in it has changed.
    pub open spec fn remembers(&self, f: Form) -> bool {
        &&& args::opt_view(self.state.master_file) == args::opt_view(f.master.file)
        &&& args::opt_view(self.state.donor_file) == args::opt_view(f.donor.file)
        &&& args::opt_view(self.state.output_dir) == args::opt_view(f.output_dir)
        &&& self.state.output_filename@ == f.output_filename@
        &&& self.state == (PersistedState {
            master_file: self.state.master_file,
            donor_file: self.state.donor_file,
            output_dir: self.state.output_dir,
            output_filename: self.state.output_filename,
            ..f.state
        })
    }

    /// Takes files and output over into the state that is kept.
    pub fn remember(&mut self)
        ensures
            final(self).remembers(*old(self)),
            *final(self) == (Form { state: final(self).state, ..*old(self) }),
    {
        self.state.master_file = copy_opt(&self.master.file);
        self.state.donor_file = copy_opt(&self.donor.file);
        self.state.output_dir = copy_opt(&self.output_dir);
        self.state.output_filename = String::from_str(self.output_filename.as_str());
    }

    /// Takes the outcome of a run.
    pub fn finish(&mut self, outcome: RunOutcome)
        ensures
            match outcome {
                RunOutcome::Done(p) => *final(self) == (Form {
                    running: false,
                    last_output: Some(p),
                    last_error: None,
                    ..*old(self)
                }),
                RunOutcome::Failed(e) => *final(self) == (Form {
                    running: false,
                    last_error: Some(e),
                    ..*old(self)
                }),
            },
    {
        match outcome {
            RunOutcome::Done(p) => {
                self.last_output = Some(p);
                self.last_error = None;
            },
            RunOutcome::Failed(e) => {
                self.last_error = Some(e);
            },
        }
        self.running = false;
    }

    /// Forgets the files and the name of the output; tracks, options and the
    /// folder stay.
    pub fn clear_files(&mut self)
        ensures
            final(self).master.is_empty(),
            final(self).donor.is_empty(),
            final(self).master.label == old(self).master.label,
            final(self).donor.label == old(self).donor.label,
            final(self).output_filename@.len() == 0,
            final(self).state.output_filename@.len() == 0,
            final(self).last_output is None,
            final(self).last_error is None,
            final(self).output_dir == old(self).output_dir,
            final(self).running == old(self).running,
            final(self).state == (PersistedState {
                master_file: None,
                donor_file: None,
                output_filename: final(self).state.output_filename,
                ..old(self).state
            }),
    {
        self.master.clear_file();
        self.donor.clear_file();
        self.state.master_file = None;
        self.state.donor_file = None;
        self.output_filename = String::new();
        self.state.output_filename = String::new();
        self.last_output = None;
        self.last_error = None;
    }

    /// The output after the master has changed: its name follows the master's,
    /// and the folder is the master's if none is set.
    pub open spec fn refreshed(
        before: Form,
        after: Form,
        stem: Option<Seq<char>>,
        parent: Option<Seq<char>>,
    ) -> bool {
        &&& after.output_filename@ == interactive::synced_name(stem)
        &&& args::opt_view(after.output_dir) == if before.output_dir is None && parent is Some
            && parent->0.len() > 0 {
            parent
        } else {
            args::opt_view(before.output_dir)
        }
    }

    /// Adapts the output to a new master, with the stem of its name and its
    /// folder.
    pub fn refresh_output_for_master(&mut self, stem: Option<&str>, parent: Option<&str>)
        ensures
            Form::refreshed(
                *old(self),
                *final(self),
                args::opt_str_view(stem),
                args::opt_str_view(parent),
            ),
            *final(self) == (Form {
                output_filename: final(self).output_filename,
                output_dir: final(self).output_dir,
                ..*old(self)
            }),
    {
        if self.output_dir.is_none() {
            if let Some(dir) = parent {
                if !dir.is_empty() {
                    self.output_dir = Some(String::from_str(dir));
                }
            }
        }
        let derived = output_path_for(stem, parent, None);
        self.output_filename = derived.name;
    }

    /// Takes a file that was dropped.
    pub fn take_drop(&mut self, path: String, to_master: bool, stem: Option<&str>, parent: Option<
        &str,
    >)
        ensures
            if to_master {
                &&& args::opt_view(final(self).master.file) == Some(path@)
                &&& final(self).master.is_unknown()
                &&& final(self).master.probing
                &&& args::opt_view(final(self).state.master_file) == Some(path@)
                &&& Form::refreshed(
                    *old(self),
                    *final(self),
                    args::opt_str_view(stem),
                    args::opt_str_view(parent),
                )
                &&& final(self).master.label == old(self).master.label
                &&& *final(self) == (Form {
                    master: final(self).master,
                    output_filename: final(self).output_filename,
                    output_dir: final(self).output_dir,
                    state: PersistedState {
                        master_file: final(self).state.master_file,
                        ..old(self).state
                    },
                    ..*old(self)
                })
            } else {
                &&& args::opt_view(final(self).donor.file) == Some(path@)
                &&& final(self).donor.is_unknown()
                &&& final(self).donor.probing
                &&& args::opt_view(final(self).state.donor_file) == Some(path@)
                &&& final(self).donor.label == old(self).donor.label
                &&& *final(self) == (Form {
                    donor: final(self).donor,
                    state: PersistedState {
                        donor_file: final(self).state.donor_file,
                        ..old(self).state
                    },
                    ..*old(self)
                })
            },
    {
        if to_master {
            self.state.master_file = Some(String::from_str(path.as_str()));
            self.master.set_file(path);
            self.refresh_output_for_master(stem, parent);
        } else {
            self.state.donor_file = Some(String::from_str(path.as_str()));
            self.donor.set_file(path);
        }
    }

    /// Notices files that a zone has changed by itself. A new master renames
    /// the output; `stem` and `parent` are of the master's path.
    pub fn mirror_files(&mut self, stem: Option<&str>, parent: Option<&str>)
        ensures
            args::opt_view(final(self).state.master_file) == args::opt_view(old(self).master.file),
            args::opt_view(final(self).state.donor_file) == args::opt_view(old(self).donor.file),
            *final(self) == (Form {
                output_filename: final(self).output_filename,
                output_dir: final(self).output_dir,
                state: PersistedState {
                    master_file: final(self).state.master_file,
                    donor_file: final(self).state.donor_file,
                    ..old(self).state
                },
                ..*old(self)
            }),
            if args::opt_view(old(self).master.file) != args::opt_view(
                old(self).state.master_file,
            ) && old(self).master.file is Some {
                Form::refreshed(
                    *old(self),
                    *final(self),
                    args::opt_str_view(stem),
                    args::opt_str_view(parent),
                )
            } else {
                final(self).output_filename == old(self).output_filename && final(self).output_dir
                    == old(self).output_dir
            },
    {
        if !same_opt(&self.master.file, &self.state.master_file) {
            self.state.master_file = copy_opt(&self.master.file);
            if self.master.file.is_some() {
                self.refresh_output_for_master(stem, parent);
            }
        }
        if !same_opt(&self.donor.file, &self.state.donor_file) {
            self.state.donor_file = copy_opt(&self.donor.file);
        }
    }
}

/// A form that is ready is never refused.
pub proof fn law_ready_form_starts(f: Form)
    requires
        f.ready(),
    ensures
        blocker(f) is None,
{
}

/// A run that is started from a window whose options mirror a command line does
/// what that command line says.
pub proof fn law_window_runs_as_the_command_line(o: PersistedOptions, c: Cli, cfg: RunConfig)
    requires
        o.mirrors(c),
        follows(cfg, o),
    ensures
        cfg.keep_temp == c.keep_temp,
        cfg.include_donor_anchor == c.include_donor_anchor,
        cfg.solo_dub == c.solo_dub,
        cfg.silence_udb == c.silence_udb,
        cfg.silence_min_ms == c.silence_min_ms,
        cfg.anchor_rate == c.anchor_rate,
        cfg.correlation_window_ns == c.correlation_window_ns,
        cfg.max_drift_ns == c.max_drift_ns,
        cfg.max_segment_jump_ns == c.max_segment_jump_ns,
        cfg.snap_radius_ns == c.snap_radius_ns,
        cfg.crossfade_ms == c.crossfade_ms,
        cfg.smooth_gaps == c.smooth_gaps,
        cfg.gap_fill_margin_ns == c.gap_fill_margin_ns,
        cfg.speech_udb == c.speech_udb,
        cfg.pal_pitch_correction == c.pal_pitch_correction,
        cfg.anchor_only_validation == c.anchor_only_validation,
        cfg.dub_codec == c.dub_codec,
        cfg.dub_bitrate_kbps == c.dub_bitrate,
        cfg.keep_master_subs == !c.no_master_subs,
        cfg.include_donor_forced_subs == c.include_donor_forced_subs,
        cfg.fps_mode is Disabled <==> c.disable_fps_normalize,
        !c.disable_fps_normalize && c.force_fps_ratio is Some ==> cfg.fps_mode
            == FpsMode::Forced(c.force_fps_ratio->0),
        !c.disable_fps_normalize && c.force_fps_ratio is None ==> cfg.fps_mode is Auto,
{
}

/// What stands in the way of a run: a file or an anchor that is missing, then a
/// missing dub unless only the anchors are validated, then a missing output.
pub proof fn law_what_stands_in_the_way(f: Form)
    ensures
        blocker(f) is None <==> f.master.file is Some && f.donor.file is Some
            && f.state.last_master_anchor is Some && f.state.last_donor_anchor is Some && (
        f.state.options.anchor_only_validation || f.state.last_donor_dubs@.len() > 0)
            && f.output_dir is Some && !text::is_blank(f.output_filename@),
{
    text::law_trimming(f.output_filename@);
    let s = f.output_filename@;
    if text::trim(s).len() == 0 {
        let (a, b) = choose|a: Seq<char>, b: Seq<char>|
            #![trigger a + text::trim(s) + b]
            text::is_blank(a) && text::is_blank(b) && a + text::trim(s) + b == s;
        assert forall|i: int| 0 <= i < s.len() implies text::is_white(#[trigger] s[i]) by {
            if i < a.len() {
                assert(s[i] == a[i]);
            } else {
                assert(s[i] == b[i - a.len()]);
            }
        }
    } else if text::is_blank(s) {
        let (a, b) = choose|a: Seq<char>, b: Seq<char>|
            #![trigger a + text::trim(s) + b]
            text::is_blank(a) && text::is_blank(b) && a + text::trim(s) + b == s;
        assert(s[a.len() as int] == text::trim(s)[0]);
    }
}

} // verus!
