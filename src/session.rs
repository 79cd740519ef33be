//! Coordination of single steps and watchpoint stops.
//!
//! The engine only offers two kinds of trap: one at every instruction boundary
//! inside a hooked range, and one on every access to a watched memory range.
//! An access trap fires while the instruction is still in flight, so the stop
//! it calls for is reported at the next instruction boundary instead, through a
//! transient boundary hook over the whole address space. A requested single
//! step uses the same transient hook. The engine calls back into this state
//! machine; the caller performs the actions it returns.
use vstd::prelude::*;
use crate::error::AdapterError;

verus! {

/// How the protocol asks the target to go on.
#[derive(Clone, Copy, Debug, PartialEq, Eq, Structural)]
pub enum ResumeAction {
    Continue,
    Step,
    ContinueWithSignal(u8),
    StepWithSignal(u8),
}

/// What the caller does for a resume request.
#[derive(Clone, Copy, Debug, PartialEq, Eq, Structural)]
pub enum ResumePlan {
    /// Run until a breakpoint, a watchpoint or an interrupt stops the engine.
    Run,
    /// Install the transient boundary hook, hand it to `begin_step`, then run.
    ArmStep,
}

pub open spec fn plan_resume_spec(action: ResumeAction) -> Result<ResumePlan, AdapterError> {
    match action {
        ResumeAction::Continue => Ok(ResumePlan::Run),
        ResumeAction::Step => Ok(ResumePlan::ArmStep),
        _ => Err(AdapterError::UnsupportedOperation),
    }
}

/// Resuming with a signal is not supported.
pub fn plan_resume(action: ResumeAction) -> (r: Result<ResumePlan, AdapterError>)
    ensures
        r == plan_resume_spec(action),
{
    match action {
        ResumeAction::Continue => Ok(ResumePlan::Run),
        ResumeAction::Step => Ok(ResumePlan::ArmStep),
        _ => Err(AdapterError::UnsupportedOperation),
    }
}

/// Direction of a watched memory access.
#[derive(Clone, Copy, Debug, PartialEq, Eq, Structural)]
pub enum Access {
    Read,
    Write,
}

/// A watched access: where it touched memory and how.
#[derive(Clone, Copy, Debug, PartialEq, Eq, Structural)]
pub struct WatchHit {
    pub addr: u64,
    pub access: Access,
}

/// What an instruction-boundary firing leads to.
#[derive(Debug, PartialEq, Eq)]
pub enum BoundaryOutcome<H> {
    /// The firing belongs to a requested step that has not yet executed its
    /// instruction: nothing is reported and the transient hook stays armed.
    StepPending,
    /// Execution stops here. The caller removes `disarm` from the engine, if
    /// present, and reports the stop: a watchpoint stop at `watch`, if
    /// present, else a plain stop.
    Stop { disarm: Option<H>, watch: Option<WatchHit> },
}

/// The stop reported to the protocol once the engine has returned.
#[derive(Clone, Copy, Debug, PartialEq, Eq, Structural)]
pub enum StopReport {
    /// A watched access, one instruction back.
    Watch(WatchHit),
    /// A requested single step completed.
    DoneStep,
    /// A breakpoint hook stopped execution.
    Breakpoint,
    /// The engine returned without any hook stopping it.
    Interrupted,
}

pub open spec fn stop_report_spec(stopped: Option<Option<WatchHit>>, stepping: bool) -> StopReport {
    match stopped {
        Some(Some(hit)) => StopReport::Watch(hit),
        Some(None) => if stepping {
            StopReport::DoneStep
        } else {
            StopReport::Breakpoint
        },
        None => StopReport::Interrupted,
    }
}

/// Why execution stopped. `stopped` is the watched access of the boundary
/// firing that stopped the engine (`Some(None)` for a stop without one), or
/// `None` where no firing stopped it; `stepping` tells whether the run was a
/// requested single step.
pub fn stop_report(stopped: Option<Option<WatchHit>>, stepping: bool) -> (r: StopReport)
    ensures
        r == stop_report_spec(stopped, stepping),
{
    match stopped {
        Some(Some(hit)) => StopReport::Watch(hit),
        Some(None) => if stepping {
            StopReport::DoneStep
        } else {
            StopReport::Breakpoint
        },
        None => StopReport::Interrupted,
    }
}

/// Session coordination state, of type `H` for the engine's hook handles.
pub struct Session<H> {
    /// A requested single step has not yet seen its first boundary firing.
    pub awaiting_native_step: bool,
    /// The transient whole-address-space boundary hook, while it is armed.
    pub pending_step_hook: Option<H>,
    /// The watched access (its address and direction) whose stop is due at
    /// the next boundary.
    pub pending_watch: Option<WatchHit>,
}

/// The state after a watched access `hit`, and whether the caller must arm
/// the transient boundary hook. Only the first access since the last stop is
/// recorded, and the hook is armed only where none is.
pub open spec fn after_access<H>(s: Session<H>, hit: WatchHit) -> (Session<H>, bool) {
    if s.pending_watch.is_none() {
        (
            Session {
                awaiting_native_step: s.awaiting_native_step,
                pending_step_hook: s.pending_step_hook,
                pending_watch: Some(hit),
            },
            s.pending_step_hook.is_none(),
        )
    } else {
        (s, false)
    }
}

/// The state once the transient boundary hook `h` has been installed.
pub open spec fn after_arm<H>(s: Session<H>, h: H) -> Session<H> {
    Session {
        awaiting_native_step: s.awaiting_native_step,
        pending_step_hook: Some(h),
        pending_watch: s.pending_watch,
    }
}

/// The state after an instruction-boundary firing, and what it leads to. A
/// pending step absorbs the firing; otherwise the transient hook is disarmed
/// and any pending watch address is reported.
pub open spec fn after_boundary<H>(s: Session<H>) -> (Session<H>, BoundaryOutcome<H>) {
    if s.awaiting_native_step {
        (
            Session {
                awaiting_native_step: false,
                pending_step_hook: s.pending_step_hook,
                pending_watch: s.pending_watch,
            },
            BoundaryOutcome::StepPending,
        )
    } else {
        (
            Session { awaiting_native_step: false, pending_step_hook: None, pending_watch: None },
            BoundaryOutcome::Stop { disarm: s.pending_step_hook, watch: s.pending_watch },
        )
    }
}

/// The state after a step request, where `installed` is the transient hook
/// the engine gave, or `None` where it refused one. The step is marked
/// outstanding together with its hook; a refused hook leaves the state as it was.
pub open spec fn after_step_request<H>(s: Session<H>, installed: Option<H>) -> Session<H> {
    match installed {
        Some(h) => Session {
            awaiting_native_step: true,
            pending_step_hook: Some(h),
            pending_watch: s.pending_watch,
        },
        None => s,
    }
}

impl<H> Session<H> {
    /// The state at the start of a session: nothing outstanding.
    pub fn new() -> (r: Self)
        ensures
            !r.awaiting_native_step,
            r.pending_step_hook.is_none(),
            r.pending_watch.is_none(),
    {
        Session { awaiting_native_step: false, pending_step_hook: None, pending_watch: None }
    }

    /// A watched memory range was accessed (`hit`). Returns whether the
    /// caller must install the transient boundary hook and hand it to `arm`.
    pub fn on_access(&mut self, hit: WatchHit) -> (arm: bool)
        ensures
            (*final(self), arm) == after_access(*old(self), hit),
    {
        if self.pending_watch.is_none() {
            self.pending_watch = Some(hit);
            self.pending_step_hook.is_none()
        } else {
            false
        }
    }

    /// Records the installed transient boundary hook `h`. Returns the handle
    /// it replaces, if any, for the caller to release.
    pub fn arm(&mut self, h: H) -> (displaced: Option<H>)
        ensures
            *final(self) == after_arm(*old(self), h),
            displaced == old(self).pending_step_hook,
    {
        let displaced = self.pending_step_hook.take();
        self.pending_step_hook = Some(h);
        displaced
    }

    /// An instruction boundary was reached under a hook of this session.
    pub fn on_boundary(&mut self) -> (r: BoundaryOutcome<H>)
        ensures
            (*final(self), r) == after_boundary(*old(self)),
    {
        if self.awaiting_native_step {
            self.awaiting_native_step = false;
            BoundaryOutcome::StepPending
        } else {
            let disarm = self.pending_step_hook.take();
            let watch = self.pending_watch.take();
            BoundaryOutcome::Stop { disarm, watch }
        }
    }

    /// A single step was requested; `installed` is the transient boundary hook
    /// the engine gave for it, or `None` if it refused, in which case nothing
    /// changes. Returns the handle that a new hook replaces, if any, for the
    /// caller to release.
    pub fn begin_step(&mut self, installed: Option<H>) -> (displaced: Option<H>)
        ensures
            *final(self) == after_step_request(*old(self), installed),
            displaced == (if installed.is_some() {
                old(self).pending_step_hook
            } else {
                None::<H>
            }),
    {
        match installed {
            Some(h) => {
                self.awaiting_native_step = true;
                let displaced = self.pending_step_hook.take();
                self.pending_step_hook = Some(h);
                displaced
            },
            None => None,
        }
    }
}

/// A watched access with no step pending and nothing armed: the trap asks for
/// exactly one transient hook (a second access before the boundary asks for
/// none); the next boundary firing disarms that hook and reports that access,
/// its address and direction; after it nothing is armed and nothing pending,
/// so a further firing disarms nothing and reports no watched access.
pub proof fn lemma_watch_access_stops_once<H>(s: Session<H>, hit: WatchHit, other: WatchHit, h: H)
    requires
        !s.awaiting_native_step,
        s.pending_step_hook.is_none(),
        s.pending_watch.is_none(),
    ensures
        ({
            let (recorded, arm) = after_access(s, hit);
            let armed = after_arm(recorded, h);
            let (stopped, out) = after_boundary(armed);
            &&& arm
            &&& !after_access(armed, other).1
            &&& after_access(armed, other).0 == armed
            &&& out == (BoundaryOutcome::Stop::<H> { disarm: Some(h), watch: Some(hit) })
            &&& stopped.pending_step_hook.is_none()
            &&& stopped.pending_watch.is_none()
            &&& after_boundary(stopped).1 == (BoundaryOutcome::Stop::<H> { disarm: None, watch: None })
        }),
{
}

/// A requested step marks itself outstanding and arms the transient hook. A
/// watched access during the step is recorded (where none was pending yet)
/// without arming a second hook, and the first boundary firing afterwards goes
/// to the step: it clears the outstanding mark and reports no watchpoint stop,
/// though the access stays recorded.
pub proof fn lemma_step_absorbs_first_boundary<H>(s: Session<H>, h: H, hit: WatchHit)
    ensures
        ({
            let stepping = after_step_request(s, Some(h));
            let (touched, arm) = after_access(stepping, hit);
            let (after, out) = after_boundary(touched);
            &&& stepping.awaiting_native_step
            &&& stepping.pending_step_hook == Some(h)
            &&& !arm
            &&& out == BoundaryOutcome::<H>::StepPending
            &&& !after.awaiting_native_step
            &&& after.pending_watch == touched.pending_watch
            &&& (s.pending_watch.is_none() ==> after.pending_watch == Some(hit))
        }),
{
}

} // verus!
