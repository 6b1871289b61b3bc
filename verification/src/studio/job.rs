//! A packing job: one object mesh, or the `pack` items of a robot one after
//! another, and how the user steers it.

use vstd::prelude::*;

use crate::config::{PackParams, Settings};
use crate::inspect::CollisionItem;
use crate::pack;
use crate::text;

verus! {

/// Where a job stands.
#[derive(Clone, Copy, Debug, PartialEq, Eq, Structural)]
pub enum Phase {
    /// Sampling the mesh and placing the first spheres.
    Preparing,
    Running,
    Paused,
    Done,
    Cancelled,
    Failed,
}

impl Default for Phase {
    fn default() -> (out: Phase)
        ensures
            out == Phase::Preparing,
    {
        Phase::Preparing
    }
}

/// Whether a job in this phase is still at work.
pub open spec fn is_active(p: Phase) -> bool {
    !(p is Done || p is Cancelled || p is Failed)
}

/// The job's phase and what the user has asked of it.
#[derive(Clone, Copy, Debug, PartialEq, Eq, Structural)]
pub struct JobControl {
    pub phase: Phase,
    pub cancel: bool,
    pub pause: bool,
    /// Stop iterating the current item and finalize it now.
    pub finish_now: bool,
    /// The item being packed, and how many there are.
    pub item: usize,
    pub items: usize,
}

/// What the job does next.
#[derive(Clone, Copy, Debug, PartialEq, Eq, Structural)]
pub enum JobAction {
    /// Run one iteration.
    Step,
    /// Wait a little and ask again.
    Idle,
    /// Finalize the current item.
    Finalize,
    /// Give the current item up.
    Stop,
}

/// What a job does next, where `done` tells that the current item has no
/// iterations left.
pub open spec fn job_next(c: JobControl, done: bool) -> (JobControl, JobAction) {
    if done {
        (c, JobAction::Finalize)
    } else if c.pause && !c.cancel {
        (JobControl { phase: Phase::Paused, ..c }, JobAction::Idle)
    } else {
        let r = JobControl { phase: Phase::Running, ..c };
        if c.cancel {
            (r, JobAction::Stop)
        } else if c.finish_now {
            (JobControl { finish_now: false, ..r }, JobAction::Finalize)
        } else {
            (r, JobAction::Step)
        }
    }
}

/// The phase in which a job ends, and its error.
pub open spec fn job_end(c: JobControl, outcome: Result<(), Seq<char>>) -> (Phase, Option<Seq<char>>) {
    match outcome {
        Ok(()) => if c.cancel {
            (Phase::Cancelled, None)
        } else {
            (Phase::Done, None)
        },
        Err(e) => (Phase::Failed, Some(e)),
    }
}

/// The control of a job for this many items.
pub open spec fn fresh_control(items: usize) -> JobControl {
    JobControl {
        phase: Phase::Preparing,
        cancel: false,
        pause: false,
        finish_now: false,
        item: 0,
        items,
    }
}

impl JobControl {
    /// A job for this many items.
    pub fn new(items: usize) -> (out: JobControl)
        ensures
            out == fresh_control(items),
    {
        JobControl {
            phase: Phase::Preparing,
            cancel: false,
            pause: false,
            finish_now: false,
            item: 0,
            items,
        }
    }

    /// Whether the job is still at work.
    pub fn is_running(&self) -> (yes: bool)
        ensures
            yes == is_active(self.phase),
    {
        self.phase != Phase::Done && self.phase != Phase::Cancelled && self.phase != Phase::Failed
    }

    /// Start with item `i`; not when the job was cancelled or has no such item.
    pub fn begin(&mut self, i: usize) -> (go: bool)
        ensures
            go == (!old(self).cancel && i < old(self).items),
            *final(self) == (if go {
                JobControl { item: i, phase: Phase::Preparing, ..*old(self) }
            } else {
                *old(self)
            }),
    {
        if self.cancel || i >= self.items {
            false
        } else {
            self.item = i;
            self.phase = Phase::Preparing;
            true
        }
    }

    /// The current item has its first spheres: an earlier wish to finish does
    /// not concern it.
    pub fn ready(&mut self)
        ensures
            *final(self) == (JobControl { phase: Phase::Running, finish_now: false, ..*old(self) }),
    {
        self.phase = Phase::Running;
        self.finish_now = false;
    }

    /// What to do next, where `done` tells that the current item has no
    /// iterations left.
    pub fn pack_one(&mut self, done: bool) -> (out: JobAction)
        ensures
            (*final(self), out) == job_next(*old(self), done),
    {
        if done {
            return JobAction::Finalize;
        }
        if self.pause && !self.cancel {
            self.phase = Phase::Paused;
            return JobAction::Idle;
        }
        self.phase = Phase::Running;
        if self.cancel {
            JobAction::Stop
        } else if self.finish_now {
            self.finish_now = false;
            JobAction::Finalize
        } else {
            JobAction::Step
        }
    }

    /// The job is over; its error, if it failed.
    pub fn finish(&mut self, outcome: Result<(), String>) -> (error: Option<String>)
        ensures
            (final(self).phase, text::opt_text(error)) == job_end(
                *old(self),
                match outcome {
                    Ok(()) => Ok(()),
                    Err(e) => Err(e@),
                },
            ),
            *final(self) == (JobControl { phase: final(self).phase, ..*old(self) }),
    {
        match outcome {
            Ok(()) => {
                self.phase = if self.cancel {
                    Phase::Cancelled
                } else {
                    Phase::Done
                };
                None
            },
            Err(e) => {
                self.phase = Phase::Failed;
                Some(e)
            },
        }
    }

    /// Pause or resume.
    pub fn toggle_pause(&mut self)
        ensures
            *final(self) == (JobControl { pause: !old(self).pause, ..*old(self) }),
    {
        self.pause = !self.pause;
    }

    /// Cancel, also while paused.
    pub fn cancel_job(&mut self)
        ensures
            *final(self) == (JobControl { cancel: true, pause: false, ..*old(self) }),
    {
        self.cancel = true;
        self.pause = false;
    }

    /// Stop iterating the current item and finalize it.
    pub fn finish_item(&mut self)
        ensures
            *final(self) == (JobControl { finish_now: true, ..*old(self) }),
    {
        self.finish_now = true;
    }
}

/// How to pack one item of a robot job.
#[derive(Debug)]
pub struct ItemPlan {
    pub mesh_path: String,
    pub settings: Settings,
}

/// How to pack one item of a robot job; the message when it cannot be packed.
pub fn plan_item(item: &CollisionItem, params: &PackParams, device: &str) -> (res: Result<
    ItemPlan,
    String,
>)
    ensures
        match res {
            Ok(p) => {
                &&& pack::mesh_to_pack(item@) matches Ok(m) && m == p.mesh_path@
                &&& p.settings.is_for(params@, device@, "spheres"@)
                &&& p.settings.output_filename@ == pack::result_name(
                    item@.link_name,
                    item@.collision_index as nat,
                )
            },
            Err(m) => pack::mesh_to_pack(item@) matches Err(e) && m@ == e.message(),
        },
{
    let mesh_path = match pack::pack_mesh_path(item) {
        Ok(p) => p,
        Err(e) => return Err(e.message()),
    };
    let (settings, _) = pack::link_config(item, params, device, "spheres");
    Ok(ItemPlan { mesh_path, settings })
}

/// A cancelled job runs no further iteration: its current item is given up, or
/// finalized if it has no iterations left, and no other item is started.
pub proof fn a_cancelled_job_stops(c: JobControl, done: bool)
    requires
        c.cancel,
    ensures
        job_next(c, done).1 == (if done {
            JobAction::Finalize
        } else {
            JobAction::Stop
        }),
        job_end(c, Ok(())) == (Phase::Cancelled, None::<Seq<char>>),
{
}

/// A paused job waits, however often it is asked, until it is resumed or
/// cancelled; resuming it goes on where it was.
pub proof fn a_paused_job_waits(c: JobControl)
    requires
        c.pause,
        !c.cancel,
    ensures
        job_next(c, false).1 == JobAction::Idle,
        job_next(job_next(c, false).0, false) == job_next(c, false),
        !c.finish_now ==> job_next(JobControl { pause: false, ..job_next(c, false).0 }, false).1
            == JobAction::Step,
{
}

/// A wish to finish ends the current item only: it is used up by it.
pub proof fn finishing_ends_one_item(c: JobControl)
    requires
        c.finish_now,
        !c.pause,
        !c.cancel,
    ensures
        job_next(c, false).1 == JobAction::Finalize,
        job_next(job_next(c, false).0, false).1 == JobAction::Step,
{
}

/// A job that is over is not at work, and fails only with an error.
pub proof fn a_finished_job_is_over(c: JobControl, outcome: Result<(), Seq<char>>)
    ensures
        !is_active(job_end(c, outcome).0),
        job_end(c, outcome).0 is Failed <==> job_end(c, outcome).1 is Some,
{
}

/// A job runs an iteration unless it is done or was told otherwise, and finishes an item
/// where it is done or was told to.
pub proof fn jobs_step_unless_told_otherwise(c: JobControl, done: bool)
    ensures
        job_next(c, done).1 is Step <==> !done && !c.pause && !c.cancel && !c.finish_now,
        job_next(c, done).1 is Finalize <==> done || !c.pause && !c.cancel && c.finish_now,
        job_next(c, done).1 is Stop <==> !done && c.cancel,
        job_next(c, done).1 is Idle <==> !done && c.pause && !c.cancel,
        job_next(c, done).0.cancel == c.cancel,
        job_next(c, done).0.pause == c.pause,
        job_next(c, done).0.item == c.item,
        job_next(c, done).0.items == c.items,
{
}

/// A job that ends well is done, one that was stopped is cancelled, and one that fails says
/// why.
pub proof fn jobs_end_as_they_went(c: JobControl, e: Seq<char>)
    ensures
        job_end(c, Err(e)) == (Phase::Failed, Some(e)),
        c.cancel ==> job_end(c, Ok(())) == (Phase::Cancelled, None::<Seq<char>>),
        !c.cancel ==> job_end(c, Ok(())) == (Phase::Done, None::<Seq<char>>),
        is_active(c.phase) <==> c.phase != Phase::Done && c.phase != Phase::Cancelled && c.phase
            != Phase::Failed,
{
}

} // verus!
