use snjs_core::modules::ModuleStatus;
use snjs_core::runtime::evaluation_finished;
use snjs_core::error::CoreError;
use snjs_core::rejections::{settle_dyn_import, DynImportQueue, PendingRejections, Settlement};
use snjs_core::runtime::{snapshot_role, termination_plan, HeapLimits, RuntimeOptions, RuntimeState, SnapshotRole};

#[test]
fn handled_rejection_does_not_surface() {
    let mut p: PendingRejections<&str> = PendingRejections::new();
    p.rejected_without_handler(11, "boom");
    assert!(p.contains(11));
    p.handled(11);
    assert!(!p.contains(11));
    assert_eq!(p.take_oldest(), None);
}

#[test]
fn unhandled_rejection_surfaces_once() {
    let mut state: RuntimeState<(), (), (), &str> = RuntimeState::new(
        &RuntimeOptions { will_snapshot: false, startup_snapshot: None, heap_limits: None },
        vec![],
    );
    state.pending_rejections.rejected_without_handler(3, "first");
    state.pending_rejections.rejected_without_handler(4, "second");
    state.pending_rejections.rejected_without_handler(3, "first again");
    assert_eq!(state.pending_rejections.len(), 2);
    assert_eq!(state.end_turn(), Err((3, "first again")));
    assert_eq!(state.end_turn(), Err((4, "second")));
    assert_eq!(state.end_turn(), Ok(()));
}

#[test]
fn dynamic_imports_drain_in_order() {
    let mut q: DynImportQueue<u32> = DynImportQueue::new();
    q.push(1, "./a.js", "/main.js");
    q.push(2, "./b.js", "/main.js");
    let first = q.take_next().unwrap();
    assert_eq!((first.resolver, first.specifier.as_str()), (1, "./a.js"));
    let second = q.take_next().unwrap();
    assert_eq!((second.resolver, second.referrer.as_str()), (2, "/main.js"));
    assert!(q.take_next().is_none());
}

#[test]
fn failed_dynamic_import_is_rejected() {
    let failure = CoreError::UnresolvedImport { specifier: "x".to_owned(), importer: "y".to_owned() };
    match settle_dyn_import::<u8>(Err(failure), None) {
        Settlement::RejectWithError(CoreError::UnresolvedImport { specifier, .. }) => assert_eq!(specifier, "x"),
        _ => panic!("expected a rejection"),
    }
    match settle_dyn_import(Err(CoreError::ExecutionTerminated), Some(5u8)) {
        Settlement::RejectWithException(x) => assert_eq!(x, 5),
        _ => panic!("expected the captured exception"),
    }
    match settle_dyn_import::<u8>(Ok(9), Some(1)) {
        Settlement::Resolve(id) => assert_eq!(id, 9),
        _ => panic!("expected success"),
    }
}

#[test]
fn snapshot_roles() {
    let producer = RuntimeOptions { will_snapshot: true, startup_snapshot: None, heap_limits: None };
    assert_eq!(snapshot_role(&producer), SnapshotRole::Producer);
    let consumer = RuntimeOptions {
        will_snapshot: false,
        startup_snapshot: Some(vec![1, 2, 3]),
        heap_limits: Some(HeapLimits { initial: 1 << 20, max: 1 << 24 }),
    };
    assert_eq!(snapshot_role(&consumer), SnapshotRole::Consumer);
    let mut state: RuntimeState<(), u8, (), ()> = RuntimeState::new(&producer, vec![]);
    state.modules.register(4, "/x.js", true, 0, vec![]);
    state.prepare_snapshot();
    assert!(!state.has_context);
    assert!(state.modules.get_info(4).is_none());
}

#[test]
fn termination_plans() {
    let p = termination_plan(true, true);
    assert!(p.cancel_termination && p.synthesize_error && p.rearm_termination);
    let q = termination_plan(true, false);
    assert!(q.cancel_termination && !q.synthesize_error && q.rearm_termination);
    let r = termination_plan(false, true);
    assert!(!r.cancel_termination && !r.synthesize_error && !r.rearm_termination);
}

#[test]
fn evaluation_end_drops_its_promise_and_sets_status() {
    let opts = RuntimeOptions { will_snapshot: false, startup_snapshot: None, heap_limits: None };
    let mut state: RuntimeState<(), (), (), &str> = RuntimeState::new(&opts, vec![]);
    state.modules.register(3, "/e.js", true, (), vec![]);
    state.modules.advance_status(3, ModuleStatus::Instantiated);
    state.pending_rejections.rejected_without_handler(77, "eval failed");
    state.pending_rejections.rejected_without_handler(78, "other");
    let r = evaluation_finished(&mut state, 3, Some(77), Err(CoreError::ExecutionTerminated));
    assert!(matches!(r, Err(CoreError::ExecutionTerminated)));
    assert!(!state.pending_rejections.contains(77));
    assert!(state.pending_rejections.contains(78));
    assert_eq!(state.modules.get_info(3).unwrap().status, ModuleStatus::Errored);

    state.modules.register(4, "/f.js", false, (), vec![]);
    state.modules.advance_status(4, ModuleStatus::Instantiated);
    assert!(matches!(evaluation_finished(&mut state, 4, None, Ok(())), Ok(4)));
    assert_eq!(state.modules.get_info(4).unwrap().status, ModuleStatus::Evaluated);
    assert_eq!(state.pending_rejections.len(), 1);
}
