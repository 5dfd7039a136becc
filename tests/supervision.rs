use janus_actor::supervision::register_failure;
use janus_actor::{handle_failure, ActorError, ActorId, FailureRecord, SupervisionEvent, SupervisionStrategy, SystemMessage};

#[test]
fn restart_budget_two_then_stop() {
    let w = 60_000u64;
    let r0 = FailureRecord::new();
    let (a1, r1) = register_failure(r0, Some(2), Some(w), 1_000);
    let (a2, r2) = register_failure(r1, Some(2), Some(w), 2_000);
    let (a3, r3) = register_failure(r2, Some(2), Some(w), 3_000);
    assert!(a1);
    assert!(a2);
    assert!(!a3);
    assert_eq!(r3.count, 3);
    assert_eq!(r3.window_start, 1_000);
}

#[test]
fn window_expiry_resets_count() {
    let (_, r1) = register_failure(FailureRecord::new(), Some(1), Some(100), 10);
    let (a2, r2) = register_failure(r1, Some(1), Some(100), 500);
    assert!(a2);
    assert_eq!(r2.count, 1);
    assert_eq!(r2.window_start, 500);
}

#[test]
fn unlimited_restarts_without_max() {
    let mut r = FailureRecord::new();
    for t in 0..10u64 {
        let (allowed, next) = register_failure(r, None, None, t);
        assert!(allowed);
        r = next;
    }
    assert_eq!(r.count, 10);
}

#[test]
fn escalate_sends_one_child_failure_to_grandparent() {
    let sends = handle_failure(
        SupervisionStrategy::Escalate,
        ActorError::Handler("boom".to_string()),
        ActorId(5),
        Some(ActorId(1)),
    );
    assert_eq!(sends.len(), 1);
    assert_eq!(sends[0].0, ActorId(1));
    match &sends[0].1 {
        SystemMessage::Supervision(SupervisionEvent::ChildFailure { child_id, error }) => {
            assert_eq!(*child_id, ActorId(5));
            assert!(matches!(error, ActorError::Handler(s) if s == "boom"));
        }
        _ => panic!("expected a child failure event"),
    }
}

#[test]
fn stop_restart_resume_directives() {
    let e = ActorError::Panic("p".to_string());
    let stop = handle_failure(SupervisionStrategy::Stop, e.clone(), ActorId(3), None);
    assert_eq!(stop.len(), 1);
    assert_eq!(stop[0].0, ActorId(3));
    assert!(matches!(stop[0].1, SystemMessage::Stop));
    let restart = handle_failure(
        SupervisionStrategy::Restart { max_retries: Some(1), reset_window: Some(5) },
        e.clone(),
        ActorId(3),
        None,
    );
    assert_eq!(restart.len(), 1);
    assert!(matches!(restart[0].1, SystemMessage::Restart { max_retries: Some(1), reset_window: Some(5) }));
    assert!(handle_failure(SupervisionStrategy::Resume, e.clone(), ActorId(3), Some(ActorId(0))).is_empty());
    assert!(handle_failure(SupervisionStrategy::Escalate, e, ActorId(3), None).is_empty());
}
