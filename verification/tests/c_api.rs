use morphit_robot::capi::log::{is_forwarded, level_number, Line, LogLevel};
use morphit_robot::capi::run::{
    morphit_get_last_step, morphit_session_free, unusable, RunAction, RunControl, RunEvent,
};
use morphit_robot::capi::status::{
    finish_call, morphit_config_get_i64, morphit_config_new, morphit_device_name,
    morphit_get_spheres, morphit_loss_id, morphit_mesh_contains, morphit_mesh_from_arrays,
    morphit_session_state, morphit_set_num_threads, morphit_status, not_a_number, write_slice,
    CallEnd, ConfigValue, DeviceInfo, FfiError, SphereArrays, MORPHIT_LOSS_COUNT,
};
use morphit_robot::{EngineError, Fault};

fn status(a: RunAction) -> (morphit_status, String) {
    match a {
        RunAction::Return(Ok(s)) => (s, String::new()),
        RunAction::Return(Err(e)) => (e.status, e.message),
        _ => panic!("the run goes on: {a:?}"),
    }
}

/// Runs to the end; `left` iterations remain, and `callback` is asked after
/// each whether to stop.
fn run(c: &mut RunControl, left: &mut u32, mut callback: Option<&mut dyn FnMut(&mut RunControl) -> bool>) -> (morphit_status, String) {
    let has = callback.is_some();
    let mut action = c.morphit_run();
    loop {
        let event = match action {
            RunAction::Step if *left > 0 => {
                *left -= 1;
                RunEvent::Iterated
            }
            RunAction::Step => RunEvent::Exhausted,
            RunAction::Call => RunEvent::Called { stop: callback.as_mut().unwrap()(c) },
            RunAction::Finalize => RunEvent::Finalized,
            done => return status(done),
        };
        action = c.advance(event, has);
    }
}

#[test]
fn null_arguments_and_error_messages() {
    let (s, m) = finish_call(CallEnd::Failed(FfiError::null("path")));
    assert_eq!(s, morphit_status::MORPHIT_ERR_NULL_ARG);
    assert!(m.contains("path"), "{m}");
    // A successful call clears the message.
    assert_eq!(finish_call(CallEnd::Status(morphit_status::MORPHIT_OK)), (morphit_status::MORPHIT_OK, String::new()));
    assert_eq!(morphit_config_new(None), "MorphIt-B");
    assert_eq!(morphit_config_new(Some("MorphIt-V")), "MorphIt-V");
    // Freeing NULL is a no-op.
    assert!(matches!(morphit_session_free(None), Ok(false)));
}

#[test]
fn panics_become_status_codes() {
    let (s, m) = finish_call(CallEnd::Panicked(Some("deliberate test panic".into())));
    assert_eq!(s, morphit_status::MORPHIT_ERR_PANIC);
    assert!(m.contains("deliberate test panic"));
    assert_eq!(finish_call(CallEnd::Panicked(None)).0, morphit_status::MORPHIT_ERR_PANIC);
}

#[test]
fn engine_errors_become_status_codes() {
    let of = |fault: Fault| {
        FfiError::from_engine(&EngineError { fault, detail: "d".into(), message: "m".into() })
    };
    assert_eq!(of(Fault::Io).status, morphit_status::MORPHIT_ERR_IO);
    assert_eq!(of(Fault::Mesh).status, morphit_status::MORPHIT_ERR_MESH);
    assert_eq!(of(Fault::Config).status, morphit_status::MORPHIT_ERR_CONFIG);
    assert_eq!(of(Fault::State).status, morphit_status::MORPHIT_ERR_STATE);
    assert_eq!(of(Fault::Cancelled).status, morphit_status::MORPHIT_ERR_CANCELLED);
    assert_eq!(of(Fault::Mesh).message, "m");
    assert_eq!(FfiError::invalid("x").status, morphit_status::MORPHIT_ERR_INVALID_ARG);
    assert_eq!(unusable().status, morphit_status::MORPHIT_ERR_STATE);
}

#[test]
fn run_finalizes_and_reports_progress() {
    let mut c = RunControl::new();
    let mut left = 25;
    let mut calls = 0u64;
    let mut count = |_: &mut RunControl| {
        calls += 1;
        false
    };
    assert_eq!(run(&mut c, &mut left, Some(&mut count)).0, morphit_status::MORPHIT_OK);
    assert_eq!(calls, 25);
    assert!(!c.is_running());
    // Running a finished session is a no-op success.
    assert_eq!(run(&mut c, &mut left, None).0, morphit_status::MORPHIT_OK);
}

#[test]
fn callback_cancel_leaves_session_resumable() {
    let mut c = RunControl::new();
    let mut left = 12;
    let mut iteration = 0;
    let mut stop_at_5 = |_: &mut RunControl| {
        iteration += 1;
        iteration == 5
    };
    let (s, m) = run(&mut c, &mut left, Some(&mut stop_at_5));
    assert_eq!(s, morphit_status::MORPHIT_ERR_CANCELLED);
    assert!(m.contains("callback"));
    assert_eq!((12 - left, c.is_running()), (5, false));
    assert_eq!(run(&mut c, &mut left, None).0, morphit_status::MORPHIT_OK);
    assert_eq!(left, 0);
}

#[test]
fn conflicting_calls_during_a_run_are_busy() {
    let mut c = RunControl::new();
    assert!(matches!(c.morphit_run(), RunAction::Step));
    assert!(c.is_running());
    assert_eq!(c.morphit_step(true, true).unwrap_err().status, morphit_status::MORPHIT_ERR_BUSY);
    assert_eq!(status(c.morphit_run()).0, morphit_status::MORPHIT_ERR_BUSY);
    assert_eq!(c.conflict().unwrap_err().status, morphit_status::MORPHIT_ERR_BUSY);
    assert_eq!(morphit_session_free(Some(c)).unwrap_err().status, morphit_status::MORPHIT_ERR_BUSY);
    c.morphit_cancel();
    assert_eq!(status(c.advance(RunEvent::Iterated, false)).0, morphit_status::MORPHIT_ERR_CANCELLED);
    assert!(matches!(morphit_session_free(Some(c)), Ok(true)));
}

#[test]
fn cancel_before_run_stops_it_before_the_first_iteration() {
    let mut c = RunControl::new();
    c.morphit_cancel();
    let mut left = 100;
    let (s, m) = run(&mut c, &mut left, None);
    assert_eq!((s, m.as_str()), (morphit_status::MORPHIT_ERR_CANCELLED, "cancelled by morphit_cancel"));
    assert_eq!(left, 100);
    // The cancel was consumed: a step works again.
    assert_eq!(c.morphit_step(true, true).unwrap(), morphit_status::MORPHIT_OK);
    assert_eq!(c.morphit_step(true, false).unwrap(), morphit_status::MORPHIT_DONE);
}

#[test]
fn callback_can_read_and_cancel_its_own_session() {
    let mut c = RunControl::new();
    let mut left = 100_000;
    let (mut calls, mut busy_seen) = (0, 0);
    let mut reentrant = |c: &mut RunControl| {
        calls += 1;
        if c.morphit_step(true, true).unwrap_err().status == morphit_status::MORPHIT_ERR_BUSY {
            busy_seen += 1;
        }
        if calls == 7 {
            c.morphit_cancel();
        }
        false
    };
    let (s, _) = run(&mut c, &mut left, Some(&mut reentrant));
    assert_eq!(s, morphit_status::MORPHIT_ERR_CANCELLED);
    assert_eq!((calls, busy_seen), (7, 7));
    assert_eq!(100_000 - left, 7);
}

#[test]
fn a_failed_iteration_ends_the_run() {
    let mut c = RunControl::new();
    assert!(matches!(c.morphit_run(), RunAction::Step));
    c.morphit_cancel();
    let e = FfiError::new(morphit_status::MORPHIT_ERR_STATE, "broken");
    assert_eq!(status(c.advance(RunEvent::Failed(e), true)), (morphit_status::MORPHIT_ERR_STATE, "broken".into()));
    assert!(matches!(c.morphit_run(), RunAction::Step), "the cancel is consumed");
}

#[test]
fn last_steps() {
    assert!(matches!(morphit_get_last_step(Some(29)), Ok(29)));
    let e = morphit_get_last_step::<u64>(None).unwrap_err();
    assert_eq!((e.status, e.message.as_str()), (morphit_status::MORPHIT_ERR_STATE, "no iteration has run yet"));
}

#[test]
fn log_messages_reach_the_callback() {
    let mut l = Line::new();
    l.record("culled", "3");
    l.record("message", "density control re-packed spheres");
    l.record("added", "3");
    let m = l.text();
    assert!(m.contains("density control re-packed spheres") && m.contains("culled="), "{m}");
    assert_eq!(m, "density control re-packed spheres culled=3 added=3");
    assert_eq!(level_number(LogLevel::Info), 3);
    assert!(is_forwarded(LogLevel::Info, 3) && is_forwarded(LogLevel::Error, 3));
    assert!(!is_forwarded(LogLevel::Debug, 3), "debug messages are filtered out");
    // Removing the callback stops forwarding.
    assert!(!is_forwarded(LogLevel::Error, 0));
    let mut l = Line { message: "old".into(), fields: " a=1".into() };
    l.record("b", "2");
    l.record("message", "new");
    assert_eq!((l.message.as_str(), l.fields.as_str()), ("new", " a=1 b=2"));
}

#[test]
fn thread_pool_cannot_be_reconfigured_after_use() {
    assert_eq!(morphit_set_num_threads(0).unwrap_err().status, morphit_status::MORPHIT_ERR_INVALID_ARG);
    assert!(morphit_set_num_threads(2).is_ok());
    assert_eq!(morphit_status::MORPHIT_ERR_THREADPOOL.code(), -11);
}

#[test]
fn buffers() {
    // A size query.
    assert!(matches!(write_slice(6, false, 0), Ok(false)));
    assert!(matches!(write_slice(6, true, 6), Ok(true)));
    let e = write_slice(6, true, 5).unwrap_err();
    assert_eq!(e.status, morphit_status::MORPHIT_ERR_BUFFER_TOO_SMALL);
    let none = SphereArrays { centers: false, radii: false, masses: false };
    let centers = SphereArrays { centers: true, ..none };
    assert!(morphit_get_spheres(4, none, 0).is_ok());
    let e = morphit_get_spheres(4, centers, 0).unwrap_err();
    assert_eq!(e.status, morphit_status::MORPHIT_ERR_BUFFER_TOO_SMALL);
    assert_eq!(e.message, "capacity 0 spheres, 4 needed");
    assert!(morphit_get_spheres(4, centers, 4).unwrap().centers);
}

#[test]
fn mesh_arguments() {
    assert_eq!(morphit_mesh_from_arrays(true, 3, true, 1).unwrap(), (9, 3));
    assert_eq!(morphit_mesh_from_arrays(false, 3, true, 1).unwrap_err().status, morphit_status::MORPHIT_ERR_NULL_ARG);
    assert_eq!(morphit_mesh_from_arrays(true, 3, false, 1).unwrap_err().status, morphit_status::MORPHIT_ERR_NULL_ARG);
    assert_eq!(
        morphit_mesh_from_arrays(true, usize::MAX, true, 1).unwrap_err().status,
        morphit_status::MORPHIT_ERR_INVALID_ARG
    );
    assert_eq!(morphit_mesh_contains(0, false, false).unwrap(), None);
    assert_eq!(morphit_mesh_contains(3, true, true).unwrap(), Some(9));
    assert_eq!(morphit_mesh_contains(3, false, true).unwrap_err().status, morphit_status::MORPHIT_ERR_NULL_ARG);
}

#[test]
fn devices_and_settings() {
    let d = [DeviceInfo { name: "X".into(), kind: "DiscreteGpu".into(), backend: "Vulkan".into() }];
    let name = morphit_device_name(&d, 0).unwrap();
    assert!(name.contains('(') && name.starts_with('X'));
    assert_eq!(morphit_device_name(&d, 1).unwrap_err().status, morphit_status::MORPHIT_ERR_INVALID_ARG);
    assert_eq!(morphit_config_get_i64("k", ConfigValue::Bool(true)).unwrap(), 1);
    assert_eq!(morphit_config_get_i64("k", ConfigValue::Int(12)).unwrap(), 12);
    let e = morphit_config_get_i64("results_dir", ConfigValue::Other).unwrap_err();
    assert!(e.message.contains("results_dir"));
    assert!(not_a_number("k").message.contains("k"));
}

#[test]
fn codes() {
    assert_eq!(morphit_status::MORPHIT_OK.code(), 0);
    assert_eq!(morphit_status::MORPHIT_DONE.code(), 1);
    assert_eq!(morphit_status::MORPHIT_ERR_NULL_ARG.code(), -1);
    assert_eq!(morphit_session_state::MORPHIT_STATE_FINALIZED.code(), 3);
    assert_eq!(morphit_loss_id::MORPHIT_LOSS_COVERAGE.place(), 0);
    assert_eq!(morphit_loss_id::MORPHIT_LOSS_FLATNESS.place() + 1, MORPHIT_LOSS_COUNT);
}
