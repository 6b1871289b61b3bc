//! What happens from frame to frame: what background tasks delivered is taken
//! over, and files that are dropped or named at the start are opened.

use vstd::prelude::*;

use crate::studio::document;
use crate::studio::document::{Options, Startup};
use crate::studio::state;
use crate::studio::state::{
    Export, ExportSource, JobSpec, JobStatus, Loaded, Mode, QualityOut, Studio,
};
use crate::text;

verus! {

/// What background tasks delivered since the last frame, besides a load.
#[derive(Debug)]
pub struct Delivered<R, Q> {
    /// How saves ended.
    pub saved: Vec<Result<Option<String>, String>>,
    pub quality: Option<QualityOut<Q>>,
    /// The job's version and report.
    pub job: Option<(u64, JobStatus<R>)>,
}

/// The status line after the first `n` saves, where `before` was shown.
pub open spec fn notes_after(
    saved: Seq<Result<Option<String>, String>>,
    before: Option<(Seq<char>, bool)>,
    n: int,
) -> Option<(Seq<char>, bool)>
    decreases n,
{
    if n <= 0 {
        before
    } else {
        state::save_note(saved[n - 1], notes_after(saved, before, n - 1))
    }
}

impl<R, Q> Studio<R, Q> {
    /// Whether `new` and `started` are what a delivered load leads to: it is
    /// opened, and packed if that was asked for.
    pub open spec fn load_taken(
        self,
        new: Studio<R, Q>,
        loaded: Option<Loaded>,
        started: Option<JobSpec>,
    ) -> bool {
        match loaded {
            None => new == self && started is None,
            Some(l) => exists|open: Studio<R, Q>| #[trigger]
                (Studio { loading: None::<String>, pack_after_load: false, ..self }).opened_as(
                    open,
                    l,
                ) && if self.pack_after_load {
                    open.pack_step(new, started)
                } else {
                    new == open && started is None
                },
        }
    }

    /// Whether `new` is this studio after the saves were noted.
    pub open spec fn saves_noted(
        self,
        new: Studio<R, Q>,
        saved: Seq<Result<Option<String>, String>>,
    ) -> bool {
        &&& state::message_view(new.message) == notes_after(
            saved,
            state::message_view(self.message),
            saved.len() as int,
        )
        &&& new == (Studio { message: new.message, ..self })
    }

    /// Whether `new` is this studio after a delivered analysis was taken over.
    pub open spec fn quality_taken(self, new: Studio<R, Q>, quality: Option<QualityOut<Q>>) -> bool {
        match quality {
            None => new == self,
            Some(q) => self.analyzed_as(new, q),
        }
    }

    /// Whether `new` is this studio after a delivered report was picked up.
    pub open spec fn report_taken(
        self,
        new: Studio<R, Q>,
        job: Option<(u64, JobStatus<R>)>,
    ) -> bool {
        match job {
            None => new == self,
            Some((version, st)) => self.job_polled(new, version, st),
        }
    }

    /// Pick up what the pending load produced; what to pack, if that was asked for.
    pub fn poll_load(&mut self, loaded: Option<Loaded>) -> (started: Option<JobSpec>)
        requires
            old(self).well_formed(),
        ensures
            final(self).well_formed(),
            old(self).load_taken(*final(self), loaded, started),
    {
        match loaded {
            Some(l) => {
                let pack = self.load_done(l);
                if pack {
                    self.start_pack()
                } else {
                    None
                }
            },
            None => None,
        }
    }

    /// Pick up other finished background work: first the saves, then the analysis
    /// and the job's report.
    pub fn poll(&mut self, d: Delivered<R, Q>)
        requires
            old(self).well_formed(),
        ensures
            final(self).well_formed(),
            exists|b: Studio<R, Q>, c: Studio<R, Q>|
                #![trigger old(self).saves_noted(b, d.saved@), b.quality_taken(c, d.quality)]
                old(self).saves_noted(b, d.saved@) && b.quality_taken(c, d.quality)
                    && c.report_taken(*final(self), d.job),
    {
        let Delivered { saved, quality, job } = d;
        let ghost a = *self;
        let ghost all = saved@;
        let mut saved = saved;
        let ghost mut k: int = 0;
        assert(all.skip(0) =~= saved@);
        while saved.len() > 0
            invariant
                0 <= k <= all.len(),
                saved@ == all.skip(k),
                state::message_view(self.message) == notes_after(
                    all,
                    state::message_view(a.message),
                    k,
                ),
                *self == (Studio { message: self.message, ..a }),
            decreases saved@.len(),
        {
            let outcome = saved.remove(0);
            self.saved(outcome);
            proof {
                assert(all.skip(k)[0] == all[k]);
                assert(saved@ =~= all.skip(k + 1));
                k = k + 1;
            }
        }
        let ghost b = *self;
        assert(a.saves_noted(b, d.saved@));
        match quality {
            Some(q) => {
                self.analyzed(q);
            },
            None => {},
        }
        let ghost c = *self;
        assert(b.quality_taken(c, d.quality));
        match job {
            Some(j) => {
                self.poll_job(j.0, j.1);
            },
            None => {},
        }
    }

    /// The file name and the source of what is to be saved; an error is shown.
    pub fn save(&mut self, what: Export) -> (out: Option<(String, ExportSource)>)
        ensures
            match state::export_of(*old(self), what) {
                Ok((name, source)) => {
                    &&& out matches Some((n, s)) && n@ == name && s@ == source
                    &&& *final(self) == *old(self)
                },
                Err(m) => {
                    &&& out is None
                    &&& state::message_view(final(self).message) == Some((m, true))
                    &&& *final(self) == (Studio { message: final(self).message, ..*old(self) })
                },
            },
    {
        match self.export(what) {
            Ok(e) => Some(e),
            Err(m) => {
                self.say(m, true);
                None
            },
        }
    }

    /// Open another URDF of the robot's package; whether there is a robot.
    pub fn switch_urdf(&mut self, urdf: &str) -> (open: bool)
        ensures
            open == (old(self).robot is Some),
            !open ==> *final(self) == *old(self),
            open ==> {
                &&& text::opt_text(final(self).loading) == Some(urdf@)
                &&& state::message_view(final(self).message) == Some(
                    ("Loading "@ + urdf@ + "\u{2026}"@, false),
                )
                &&& *final(self) == (Studio {
                    loading: final(self).loading,
                    message: final(self).message,
                    ..*old(self)
                })
            },
    {
        if self.robot.is_some() {
            self.load(urdf);
            true
        } else {
            false
        }
    }

    /// A file or folder called `name` was dropped; whether to open it.
    pub fn dropped_file(&mut self, name: &str) -> (open: bool)
        ensures
            open == !(old(self).loading is Some || old(self).has_job()),
            !open ==> *final(self) == *old(self),
            open ==> {
                &&& text::opt_text(final(self).loading) == Some(name@)
                &&& state::message_view(final(self).message) == Some(
                    ("Loading "@ + name@ + "\u{2026}"@, false),
                )
                &&& *final(self) == (Studio {
                    loading: final(self).loading,
                    message: final(self).message,
                    ..*old(self)
                })
            },
    {
        if self.busy() {
            false
        } else {
            self.load(name);
            true
        }
    }

    /// What is being loaded after the start with the options `o`: the file, or
    /// the example with its label.
    pub open spec fn first_load(self, o: Options, example: Option<Startup>) -> Option<Seq<char>> {
        match o.open {
            Some(path) => Some(path@),
            None => match example {
                Some(Startup::Object(ex)) => Some(ex.label@),
                Some(Startup::Robot(ex)) => Some(ex.label@),
                _ => text::opt_text(self.loading),
            },
        }
    }

    /// Start as the options say, where the folders `bundled` of robots are there;
    /// the example to load, if one is named.
    pub fn startup_options(&mut self, o: &Options, bundled: &[String]) -> (example: Option<Startup>)
        ensures
            (example is Some) == (o.example is Some),
            example matches Some(ex) ==> document::starts_with(
                o.example->0@,
                text::texts(bundled@),
                ex,
            ),
            text::opt_text(final(self).loading) == old(self).first_load(*o, example),
            state::message_view(final(self).message) == (if o.open is Some || (example matches Some(
                ex,
            ) && !(ex is Unknown)) {
                Some(("Loading "@ + old(self).first_load(*o, example)->0 + "\u{2026}"@, false))
            } else {
                state::message_view(old(self).message)
            }),
            *final(self) == (Studio {
                mode: if example matches Some(Startup::Robot(_)) {
                    Mode::Robot
                } else {
                    old(self).mode
                },
                scene_dirty: old(self).scene_dirty || (example matches Some(Startup::Robot(_))
                    && old(self).mode != Mode::Robot),
                loading: final(self).loading,
                message: final(self).message,
                pack_after_load: o.pack,
                ..*old(self)
            }),
    {
        let example = match &o.example {
            Some(name) => Some(document::startup_example(name.as_str(), bundled)),
            None => None,
        };
        match &example {
            Some(Startup::Object(ex)) => {
                self.load(ex.label);
            },
            Some(Startup::Robot(ex)) => {
                self.set_mode(Mode::Robot);
                self.load(ex.label);
            },
            _ => {},
        }
        match &o.open {
            Some(path) => {
                self.load(path.as_str());
            },
            None => {},
        }
        self.pack_after_load = o.pack;
        example
    }
}

} // verus!
