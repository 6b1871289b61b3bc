//! The life of a packing run on one session: what may happen when, and what a
//! cancellation does.

use vstd::prelude::*;

use crate::capi::status::{morphit_status, FfiError, FfiErrorView};

verus! {

/// Where a run stands.
#[derive(Clone, Copy, Debug, PartialEq, Eq, Structural)]
pub enum RunPhase {
    /// No run is active.
    Idle,
    /// The optimizer runs one iteration.
    Stepping,
    /// The progress callback is being called.
    Calling,
    /// The session is being finalized.
    Finalizing,
}

/// The flags of a session.
#[derive(Clone, Copy, Debug, PartialEq, Eq, Structural)]
pub struct RunControl {
    pub phase: RunPhase,
    /// A cancellation is requested; the run that it stops consumes it.
    pub cancel: bool,
}

/// What happened during a run.
#[derive(Debug)]
pub enum RunEvent {
    /// An iteration ran.
    Iterated,
    /// No iterations remain; nothing ran.
    Exhausted,
    /// The progress callback returned; whether it asks to stop.
    Called { stop: bool },
    /// The session was finalized.
    Finalized,
    /// Something failed.
    Failed(FfiError),
}

/// What to do next in a run.
#[derive(Debug)]
pub enum RunAction {
    /// Run one iteration, if any remains.
    Step,
    /// Call the progress callback.
    Call,
    /// Finalize the session.
    Finalize,
    /// The run is over.
    Return(Result<morphit_status, FfiError>),
}

/// The contents of a [`RunEvent`].
pub enum RunEventView {
    Iterated,
    Exhausted,
    Called { stop: bool },
    Finalized,
    Failed(FfiErrorView),
}

/// The contents of a [`RunAction`].
pub enum RunActionView {
    Step,
    Call,
    Finalize,
    Return(Result<morphit_status, FfiErrorView>),
}

impl View for RunEvent {
    type V = RunEventView;

    open spec fn view(&self) -> RunEventView {
        match self {
            RunEvent::Iterated => RunEventView::Iterated,
            RunEvent::Exhausted => RunEventView::Exhausted,
            RunEvent::Called { stop } => RunEventView::Called { stop: *stop },
            RunEvent::Finalized => RunEventView::Finalized,
            RunEvent::Failed(e) => RunEventView::Failed(e@),
        }
    }
}

impl View for RunAction {
    type V = RunActionView;

    open spec fn view(&self) -> RunActionView {
        match self {
            RunAction::Step => RunActionView::Step,
            RunAction::Call => RunActionView::Call,
            RunAction::Finalize => RunActionView::Finalize,
            RunAction::Return(Ok(s)) => RunActionView::Return(Ok(*s)),
            RunAction::Return(Err(e)) => RunActionView::Return(Err(e@)),
        }
    }
}

/// A session on which no run is active and none is to be cancelled.
pub open spec fn at_rest() -> RunControl {
    RunControl { phase: RunPhase::Idle, cancel: false }
}

/// The error for a call that has to wait for the run to end.
pub open spec fn busy_error() -> FfiErrorView {
    FfiErrorView {
        status: morphit_status::MORPHIT_ERR_BUSY,
        message: "morphit_run is active on this session"@,
    }
}

/// The error of a run that was cancelled, and by what.
pub open spec fn cancelled_error(by: Seq<char>) -> FfiErrorView {
    FfiErrorView { status: morphit_status::MORPHIT_ERR_CANCELLED, message: "cancelled by "@ + by }
}

/// The error for a call that has to wait for the run to end.
pub fn busy() -> (out: FfiError)
    ensures
        out@ == busy_error(),
{
    FfiError::new(morphit_status::MORPHIT_ERR_BUSY, "morphit_run is active on this session")
}

/// The error of a session that an earlier internal error left unusable.
pub open spec fn unusable_error() -> FfiErrorView {
    FfiErrorView {
        status: morphit_status::MORPHIT_ERR_STATE,
        message: "session is unusable after an internal error in an earlier call"@,
    }
}

/// The error of a session that an earlier internal error left unusable.
pub fn unusable() -> (out: FfiError)
    ensures
        out@ == unusable_error(),
{
    FfiError::new(
        morphit_status::MORPHIT_ERR_STATE,
        "session is unusable after an internal error in an earlier call",
    )
}

/// The next iteration of a run, or its end when a cancellation is requested.
pub open spec fn next_iteration(c: RunControl) -> (RunControl, RunActionView) {
    if c.cancel {
        (at_rest(), RunActionView::Return(Err(cancelled_error("morphit_cancel"@))))
    } else {
        (RunControl { phase: RunPhase::Stepping, ..c }, RunActionView::Step)
    }
}

/// The start of a run: refused while another is active.
pub open spec fn run_started(c: RunControl) -> (RunControl, RunActionView) {
    if c.phase is Idle {
        next_iteration(c)
    } else {
        (c, RunActionView::Return(Err(busy_error())))
    }
}

/// What follows an event of the active run; `callback` tells whether there is
/// a progress callback.
pub open spec fn run_advanced(c: RunControl, e: RunEventView, callback: bool) -> (
    RunControl,
    RunActionView,
) {
    match e {
        RunEventView::Iterated => if callback {
            (RunControl { phase: RunPhase::Calling, ..c }, RunActionView::Call)
        } else {
            next_iteration(c)
        },
        RunEventView::Exhausted => (
            RunControl { phase: RunPhase::Finalizing, ..c },
            RunActionView::Finalize,
        ),
        RunEventView::Called { stop } => if stop {
            (at_rest(), RunActionView::Return(Err(cancelled_error("the progress callback"@))))
        } else {
            next_iteration(c)
        },
        RunEventView::Finalized => (
            at_rest(),
            RunActionView::Return(Ok(morphit_status::MORPHIT_OK)),
        ),
        RunEventView::Failed(x) => (at_rest(), RunActionView::Return(Err(x))),
    }
}

impl RunControl {
    /// A session on which no run is active.
    pub fn new() -> (out: RunControl)
        ensures
            out == at_rest(),
    {
        RunControl { phase: RunPhase::Idle, cancel: false }
    }

    /// Whether a run is active.
    pub fn is_running(&self) -> (yes: bool)
        ensures
            yes == !(self.phase is Idle),
    {
        self.phase != RunPhase::Idle
    }

    /// Go on with the run, or end it when a cancellation is requested.
    fn iterate(&mut self) -> (out: RunAction)
        ensures
            (*final(self), out@) == next_iteration(*old(self)),
    {
        if self.cancel {
            self.phase = RunPhase::Idle;
            self.cancel = false;
            RunAction::Return(
                Err(
                    {
                        let mut m = String::from_str("cancelled by ");
                        m.append("morphit_cancel");
                        FfiError { status: morphit_status::MORPHIT_ERR_CANCELLED, message: m }
                    },
                ),
            )
        } else {
            self.phase = RunPhase::Stepping;
            RunAction::Step
        }
    }

    /// Start a run. While one is active, the call is refused and changes
    /// nothing.
    pub fn morphit_run(&mut self) -> (out: RunAction)
        ensures
            (*final(self), out@) == run_started(*old(self)),
    {
        if self.is_running() {
            RunAction::Return(Err(busy()))
        } else {
            self.iterate()
        }
    }

    /// Go on after an event of the active run.
    pub fn advance(&mut self, event: RunEvent, callback: bool) -> (out: RunAction)
        ensures
            (*final(self), out@) == run_advanced(*old(self), event@, callback),
    {
        match event {
            RunEvent::Iterated => if callback {
                self.phase = RunPhase::Calling;
                RunAction::Call
            } else {
                self.iterate()
            },
            RunEvent::Exhausted => {
                self.phase = RunPhase::Finalizing;
                RunAction::Finalize
            },
            RunEvent::Called { stop } => if stop {
                self.phase = RunPhase::Idle;
                self.cancel = false;
                let mut m = String::from_str("cancelled by ");
                m.append("the progress callback");
                RunAction::Return(
                    Err(FfiError { status: morphit_status::MORPHIT_ERR_CANCELLED, message: m }),
                )
            } else {
                self.iterate()
            },
            RunEvent::Finalized => {
                self.phase = RunPhase::Idle;
                self.cancel = false;
                RunAction::Return(Ok(morphit_status::MORPHIT_OK))
            },
            RunEvent::Failed(e) => {
                self.phase = RunPhase::Idle;
                self.cancel = false;
                RunAction::Return(Err(e))
            },
        }
    }

    /// Ask the active run (or the next one, if none is active) to stop before
    /// its next iteration.
    pub fn morphit_cancel(&mut self)
        ensures
            *final(self) == (RunControl { cancel: true, ..*old(self) }),
    {
        self.cancel = true;
    }

    /// Whether a call that conflicts with a run may go on: a single step, a
    /// finalization, or freeing the session.
    pub fn conflict(&self) -> (res: Result<(), FfiError>)
        ensures
            match res {
                Ok(()) => self.phase is Idle,
                Err(e) => !(self.phase is Idle) && e@ == busy_error(),
            },
    {
        if self.is_running() {
            Err(busy())
        } else {
            Ok(())
        }
    }

    /// Why a call that needs the session for itself fails, if it does: while a
    /// run is active, or after an internal error made it unusable.
    pub open spec fn claim_error(self, usable: bool) -> Option<FfiErrorView> {
        if !(self.phase is Idle) {
            Some(busy_error())
        } else if !usable {
            Some(unusable_error())
        } else {
            None
        }
    }

    /// What a single step returns, where `remains` tells whether an iteration
    /// remains: done when none does.
    pub fn morphit_step(&self, usable: bool, remains: bool) -> (res: Result<morphit_status, FfiError>)
        ensures
            match res {
                Ok(s) => self.claim_error(usable) is None && s == (if remains {
                    morphit_status::MORPHIT_OK
                } else {
                    morphit_status::MORPHIT_DONE
                }),
                Err(e) => self.claim_error(usable) == Some(e@),
            },
    {
        if self.is_running() {
            Err(busy())
        } else if !usable {
            Err(unusable())
        } else if remains {
            Ok(morphit_status::MORPHIT_OK)
        } else {
            Ok(morphit_status::MORPHIT_DONE)
        }
    }

    /// Whether the session may be finalized.
    pub fn morphit_finalize(&self, usable: bool) -> (res: Result<(), FfiError>)
        ensures
            match res {
                Ok(()) => self.claim_error(usable) is None,
                Err(e) => self.claim_error(usable) == Some(e@),
            },
    {
        if self.is_running() {
            Err(busy())
        } else if !usable {
            Err(unusable())
        } else {
            Ok(())
        }
    }
}

/// A run that is over leaves no run active and no cancellation pending:
/// cancellations that arrived during a run are consumed by it.
pub proof fn a_finished_run_leaves_the_session_at_rest(c: RunControl, e: RunEventView, callback: bool)
    ensures
        run_advanced(c, e, callback).1 is Return ==> run_advanced(c, e, callback).0 == at_rest(),
        c.phase is Idle && run_started(c).1 is Return ==> run_started(c).0 == at_rest(),
{
}

/// A cancellation before a run stops it before its first iteration, and the
/// next run goes on.
pub proof fn a_cancel_before_a_run_stops_it(c: RunControl)
    requires
        c.phase is Idle,
        c.cancel,
    ensures
        run_started(c).1 == RunActionView::Return(Err(cancelled_error("morphit_cancel"@))),
        run_started(run_started(c).0).1 is Step,
{
}

/// Once a cancellation is requested, the active run starts no further
/// iteration: whatever happens next, it calls the callback, finalizes because
/// no iterations remain, or ends.
pub proof fn a_cancelled_run_starts_no_iteration(c: RunControl, e: RunEventView, callback: bool)
    requires
        c.cancel,
    ensures
        !(run_advanced(c, e, callback).1 is Step),
        run_advanced(c, e, callback).1 is Return || run_advanced(c, e, callback).0.cancel,
{
}

/// A run succeeds only after the session was finalized, and it is finalized
/// only when no iterations remain: a cancelled run is not finalized.
pub proof fn only_exhausted_runs_are_finalized(c: RunControl, e: RunEventView, callback: bool)
    ensures
        run_advanced(c, e, callback).1 is Finalize <==> e is Exhausted,
        run_advanced(c, e, callback).1 matches RunActionView::Return(Ok(s)) ==> e is Finalized && s
            == morphit_status::MORPHIT_OK,
        e is Finalized ==> run_advanced(c, e, callback).1 == RunActionView::Return(
            Ok(morphit_status::MORPHIT_OK),
        ),
{
}

/// While a run is active, starting another is refused and changes nothing.
pub proof fn an_active_run_refuses_another(c: RunControl)
    requires
        !(c.phase is Idle),
    ensures
        run_started(c) == (c, RunActionView::Return(Err(busy_error()))),
{
}

/// Whether a session is to be freed: a null handle is ignored, and a session
/// is kept while a run is active on it.
pub fn morphit_session_free(session: Option<RunControl>) -> (res: Result<bool, FfiError>)
    ensures
        match session {
            None => res == Ok::<bool, FfiError>(false),
            Some(c) => if c.phase is Idle {
                res == Ok::<bool, FfiError>(true)
            } else {
                res matches Err(e) && e@ == busy_error()
            },
        },
{
    match session {
        None => Ok(false),
        Some(c) => match c.conflict() {
            Ok(()) => Ok(true),
            Err(e) => Err(e),
        },
    }
}

/// The latest iteration, or the error before the first.
pub fn morphit_get_last_step<T>(last: Option<T>) -> (res: Result<T, FfiError>)
    ensures
        match last {
            Some(t) => res == Ok::<T, FfiError>(t),
            None => res matches Err(e) && e@ == (FfiErrorView {
                status: morphit_status::MORPHIT_ERR_STATE,
                message: "no iteration has run yet"@,
            }),
        },
{
    match last {
        Some(t) => Ok(t),
        None => Err(FfiError::new(morphit_status::MORPHIT_ERR_STATE, "no iteration has run yet")),
    }
}

/// A run goes on with an iteration unless it is told to stop: it calls back after every
/// iteration where there is a callback, ends as cancelled where that asks for it, and ends
/// with the error that it meets.
pub proof fn runs_go_on_unless_told_to_stop(c: RunControl, x: FfiErrorView, callback: bool)
    ensures
        !c.cancel ==> run_advanced(c, RunEventView::Iterated, false).1 is Step,
        run_advanced(c, RunEventView::Iterated, true).1 is Call,
        !c.cancel ==> run_advanced(c, RunEventView::Called { stop: false }, callback).1 is Step,
        run_advanced(c, RunEventView::Called { stop: true }, callback).1
            matches RunActionView::Return(Err(e)) && e.status
            == morphit_status::MORPHIT_ERR_CANCELLED,
        run_advanced(c, RunEventView::Failed(x), callback).1 == RunActionView::Return(Err(x)),
        run_advanced(c, RunEventView::Finalized, callback).1 == RunActionView::Return(
            Ok(morphit_status::MORPHIT_OK),
        ),
{
}

} // verus!
