use udbserver::error::AdapterError;
use udbserver::session::{
    plan_resume, stop_report, Access, BoundaryOutcome, ResumeAction, ResumePlan, Session, StopReport, WatchHit,
};

fn hit(addr: u64, access: Access) -> WatchHit {
    WatchHit { addr, access }
}

#[test]
fn resume_plans() {
    assert_eq!(plan_resume(ResumeAction::Continue), Ok(ResumePlan::Run));
    assert_eq!(plan_resume(ResumeAction::Step), Ok(ResumePlan::ArmStep));
    assert_eq!(plan_resume(ResumeAction::ContinueWithSignal(9)), Err(AdapterError::UnsupportedOperation));
    assert_eq!(plan_resume(ResumeAction::StepWithSignal(2)), Err(AdapterError::UnsupportedOperation));
}

#[test]
fn watch_access_stops_once_at_next_boundary() {
    let mut s: Session<u32> = Session::new();
    assert!(s.on_access(hit(0x4000, Access::Write)));
    assert_eq!(s.arm(77), None);
    assert!(!s.on_access(hit(0x4000, Access::Read)));
    assert_eq!(
        s.on_boundary(),
        BoundaryOutcome::Stop { disarm: Some(77), watch: Some(hit(0x4000, Access::Write)) }
    );
    assert_eq!(s.pending_step_hook, None);
    assert_eq!(s.pending_watch, None);
    assert_eq!(s.on_boundary(), BoundaryOutcome::Stop { disarm: None, watch: None });
}

#[test]
fn step_absorbs_first_boundary_even_with_watch_access() {
    let mut s: Session<u32> = Session::new();
    assert_eq!(s.begin_step(Some(5)), None);
    assert!(s.awaiting_native_step);
    assert!(!s.on_access(hit(0x8000, Access::Read)));
    assert_eq!(s.on_boundary(), BoundaryOutcome::StepPending);
    assert!(!s.awaiting_native_step);
    assert_eq!(s.pending_watch, Some(hit(0x8000, Access::Read)));
    assert_eq!(s.pending_step_hook, Some(5));
}

#[test]
fn plain_step_stops_on_second_boundary() {
    let mut s: Session<u32> = Session::new();
    s.begin_step(Some(3));
    assert_eq!(s.on_boundary(), BoundaryOutcome::StepPending);
    assert_eq!(s.on_boundary(), BoundaryOutcome::Stop { disarm: Some(3), watch: None });
    assert!(!s.awaiting_native_step);
}

#[test]
fn refused_step_hook_changes_nothing() {
    let mut s: Session<u32> = Session::new();
    assert_eq!(s.begin_step(None), None);
    assert!(!s.awaiting_native_step);
    assert_eq!(s.pending_step_hook, None);
    assert_eq!(s.on_boundary(), BoundaryOutcome::Stop { disarm: None, watch: None });
}

#[test]
fn step_over_armed_hook_hands_back_old_handle() {
    let mut s: Session<u32> = Session::new();
    assert!(s.on_access(hit(1, Access::Write)));
    s.arm(10);
    assert_eq!(s.begin_step(Some(11)), Some(10));
    assert_eq!(s.pending_step_hook, Some(11));
}

#[test]
fn stop_reports() {
    let w = hit(0x40, Access::Write);
    assert_eq!(stop_report(Some(Some(w)), false), StopReport::Watch(w));
    assert_eq!(stop_report(Some(Some(w)), true), StopReport::Watch(w));
    assert_eq!(stop_report(Some(None), true), StopReport::DoneStep);
    assert_eq!(stop_report(Some(None), false), StopReport::Breakpoint);
    assert_eq!(stop_report(None, true), StopReport::Interrupted);
}
