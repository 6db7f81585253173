use orbital::orbital_core::{
    CoreError, ErrorClassification, FaultState, OrbitalCoordinator, TaskId, TaskMetadata, TaskState,
    WatchdogConfig,
};

#[test]
fn test_coordinator_initialization() {
    let coordinator = OrbitalCoordinator::new();
    assert!(!coordinator.is_shutdown());
    assert_eq!(coordinator.get_fault_state(), FaultState::Healthy);
}

#[test]
fn test_create_task() {
    let mut coordinator = OrbitalCoordinator::new();
    let task_id = coordinator.create_task("test_task".to_string(), 128, 3).expect("Task creation failed");

    let metadata = coordinator.get_task(task_id).expect("Task not found");

    assert_eq!(metadata.name, "test_task");
    assert_eq!(metadata.state, TaskState::Created);
    assert_eq!(metadata.priority, 128);
    assert_eq!(metadata.max_retries, 3);
}

#[test]
fn test_task_state_transitions() {
    let mut coordinator = OrbitalCoordinator::new();
    let task_id = coordinator.create_task("test".to_string(), 100, 3).expect("Task creation failed");

    coordinator.transition_task(task_id, TaskState::Queued).expect("Transition failed");
    assert_eq!(coordinator.get_task(task_id).unwrap().state, TaskState::Queued);

    coordinator.transition_task(task_id, TaskState::Running).expect("Transition failed");
    assert_eq!(coordinator.get_task(task_id).unwrap().state, TaskState::Running);

    coordinator.transition_task(task_id, TaskState::Completed).expect("Transition failed");
    assert_eq!(coordinator.get_task(task_id).unwrap().state, TaskState::Completed);
}

#[test]
fn test_invalid_state_transition() {
    let mut coordinator = OrbitalCoordinator::new();
    let task_id = coordinator.create_task("test".to_string(), 100, 3).expect("Task creation failed");

    let result = coordinator.transition_task(task_id, TaskState::Completed);
    assert!(result.is_err());
}

#[test]
fn invalid_transition_names_both_states() {
    let mut coordinator = OrbitalCoordinator::new();
    let task_id = coordinator.create_task_at("t".to_string(), 1, 1, 10).unwrap();
    match coordinator.transition_task_at(task_id, TaskState::Completed, 11) {
        Err(CoreError::InvalidStateTransition { from, to }) => {
            assert_eq!(from, "CREATED");
            assert_eq!(to, "COMPLETED");
        }
        other => panic!("unexpected {:?}", other),
    }
    assert_eq!(coordinator.get_task(task_id).unwrap().last_transition_at, 10);
}

#[test]
fn test_heartbeat_recording() {
    let mut coordinator = OrbitalCoordinator::new();
    let task_id = coordinator.create_task("test".to_string(), 100, 3).expect("Task creation failed");

    let initial_hb = coordinator.get_task(task_id).unwrap().last_heartbeat;

    coordinator.record_heartbeat(task_id).expect("Heartbeat recording failed");

    let new_hb = coordinator.get_task(task_id).unwrap().last_heartbeat;
    assert!(new_hb >= initial_hb);
}

#[test]
fn test_watchdog_timeout() {
    let config = WatchdogConfig { timeout_secs: 1, initial_backoff_ms: 100, max_backoff_ms: 30000, auto_recovery: true };
    let mut coordinator = OrbitalCoordinator::with_config(config);
    let task_id = coordinator.create_task_at("test".to_string(), 100, 3, 0).expect("Task creation failed");

    coordinator.transition_task_at(task_id, TaskState::Queued, 0).expect("Transition failed");
    coordinator.transition_task_at(task_id, TaskState::Running, 0).expect("Transition failed");

    let result = coordinator.check_watchdog(task_id);
    assert!(result.is_err());
    let metadata = coordinator.get_task(task_id).unwrap();
    assert_eq!(metadata.state, TaskState::Failed);
    assert_eq!(metadata.last_error.unwrap(), "Watchdog timeout - automatic recovery triggered");
    assert_eq!(coordinator.get_fault_state(), FaultState::Transient);
}

#[test]
fn watchdog_within_timeout_passes() {
    let mut coordinator = OrbitalCoordinator::new();
    let task_id = coordinator.create_task_at("t".to_string(), 1, 3, 100).unwrap();
    coordinator.transition_task_at(task_id, TaskState::Queued, 100).unwrap();
    coordinator.transition_task_at(task_id, TaskState::Running, 100).unwrap();
    assert_eq!(coordinator.check_watchdog_at(task_id, 130).unwrap(), true);
    match coordinator.check_watchdog_at(task_id, 131) {
        Err(CoreError::WatchdogTimeout { task_id: label, seconds }) => {
            assert_eq!(label, "task_0000000000000001");
            assert_eq!(seconds, 30);
        }
        other => panic!("unexpected {:?}", other),
    }
}

#[test]
fn test_error_recording_and_classification() {
    let mut coordinator = OrbitalCoordinator::new();
    let task_id = coordinator.create_task("test".to_string(), 100, 3).expect("Task creation failed");

    coordinator
        .record_error(task_id, "Test transient error".to_string(), ErrorClassification::Transient)
        .expect("Error recording failed");

    let metadata = coordinator.get_task(task_id).unwrap();
    assert!(metadata.last_error.is_some());
    assert_eq!(metadata.last_error.unwrap(), "Test transient error");
}

#[test]
fn fatal_error_sets_fatal_fault_state() {
    let mut coordinator = OrbitalCoordinator::new();
    let task_id = coordinator.create_task("test".to_string(), 100, 3).unwrap();
    coordinator.record_error(task_id, "boom".to_string(), ErrorClassification::Fatal).unwrap();
    assert_eq!(coordinator.get_fault_state(), FaultState::Fatal);
    assert!(coordinator.set_fault_state(FaultState::Healthy).is_err());
}

#[test]
fn test_task_recovery() {
    let mut coordinator = OrbitalCoordinator::new();
    let task_id = coordinator.create_task("test".to_string(), 100, 3).expect("Task creation failed");

    coordinator.transition_task(task_id, TaskState::Queued).expect("Transition failed");
    coordinator.transition_task(task_id, TaskState::Running).expect("Transition failed");
    coordinator.transition_task(task_id, TaskState::Failed).expect("Transition failed");

    coordinator.recover_task(task_id).expect("Recovery failed");

    assert_eq!(coordinator.get_task(task_id).unwrap().state, TaskState::Queued);
}

#[test]
fn test_exceed_max_retries() {
    let mut coordinator = OrbitalCoordinator::new();
    let task_id = coordinator.create_task("test".to_string(), 100, 1).expect("Task creation failed");

    for _ in 0..2 {
        coordinator.transition_task(task_id, TaskState::Queued).ok();
        coordinator.transition_task(task_id, TaskState::Running).ok();
        coordinator.transition_task(task_id, TaskState::Failed).ok();
    }

    let result = coordinator.recover_task(task_id);
    assert!(result.is_err());
    match result {
        Err(CoreError::TaskExecution { message, classification }) => {
            assert_eq!(message, "Task task_0000000000000001 exceeded maximum retries (1)");
            assert_eq!(classification, ErrorClassification::Fatal);
        }
        other => panic!("unexpected {:?}", other),
    }
}

#[test]
fn test_fault_state_machine() {
    let mut coordinator = OrbitalCoordinator::new();

    assert_eq!(coordinator.get_fault_state(), FaultState::Healthy);

    coordinator.set_fault_state(FaultState::Transient).expect("State transition failed");
    assert_eq!(coordinator.get_fault_state(), FaultState::Transient);

    coordinator.set_fault_state(FaultState::Healthy).expect("State transition failed");
    assert_eq!(coordinator.get_fault_state(), FaultState::Healthy);
}

#[test]
fn invalid_fault_move_is_a_determinism_violation() {
    let mut coordinator = OrbitalCoordinator::new();
    match coordinator.set_fault_state(FaultState::Recovering) {
        Err(CoreError::DeterminismViolation { detail }) => {
            assert_eq!(detail, "Invalid fault state transition: Healthy -> Recovering");
        }
        other => panic!("unexpected {:?}", other),
    }
    assert_eq!(coordinator.get_fault_state(), FaultState::Healthy);
}

#[test]
fn test_audit_trail() {
    let mut coordinator = OrbitalCoordinator::new();
    let task_id = coordinator.create_task("test".to_string(), 100, 3).expect("Task creation failed");

    coordinator.transition_task(task_id, TaskState::Queued).expect("Transition failed");
    coordinator.transition_task(task_id, TaskState::Running).expect("Transition failed");

    let audit = coordinator.get_audit_trail();
    assert!(audit.len() >= 2);
    assert_eq!(audit[0].reason, "CREATED -> QUEUED");
    assert_eq!(audit[1].from_state, TaskState::Queued);
    assert_eq!(audit[1].to_state, TaskState::Running);
}

#[test]
fn test_task_not_found() {
    let coordinator = OrbitalCoordinator::new();
    let fake_id = TaskId::from_raw(999);

    let result = coordinator.get_task(fake_id);
    assert!(result.is_err());
    match result {
        Err(CoreError::TaskNotFound { task_id }) => assert_eq!(task_id, "task_00000000000003e7"),
        other => panic!("unexpected {:?}", other),
    }
}

#[test]
fn test_shutdown_prevents_new_tasks() {
    let mut coordinator = OrbitalCoordinator::new();
    coordinator.shutdown().expect("Shutdown failed");

    let result = coordinator.create_task("test".to_string(), 100, 3);
    assert!(result.is_err());
    assert!(coordinator.is_shutdown());
}

#[test]
fn lib_test_multiple_tasks() {
    let mut coordinator = OrbitalCoordinator::new();

    let task1 = coordinator.create_task("task1".to_string(), 100, 3).unwrap();
    let task2 = coordinator.create_task("task2".to_string(), 50, 2).unwrap();
    let task3 = coordinator.create_task("task3".to_string(), 150, 5).unwrap();

    assert_ne!(task1, task2);
    assert_ne!(task2, task3);

    let m1 = coordinator.get_task(task1).unwrap();
    let m2 = coordinator.get_task(task2).unwrap();
    let m3 = coordinator.get_task(task3).unwrap();

    assert_eq!(m1.priority, 100);
    assert_eq!(m2.priority, 50);
    assert_eq!(m3.priority, 150);
}

#[test]
fn test_task_id_uniqueness() {
    let mut coordinator = OrbitalCoordinator::new();
    let ids: Vec<_> = (0..100).map(|_| coordinator.create_task("test".to_string(), 100, 3).unwrap()).collect();

    for i in 0..ids.len() {
        for j in (i + 1)..ids.len() {
            assert_ne!(ids[i], ids[j]);
        }
    }
}

#[test]
fn test_error_classification() {
    let transient_err = CoreError::WatchdogTimeout { task_id: "t1".to_string(), seconds: 30 };
    assert_eq!(transient_err.classification(), ErrorClassification::Transient);

    let fatal_err = CoreError::DeterminismViolation { detail: "test".to_string() };
    assert_eq!(fatal_err.classification(), ErrorClassification::Fatal);
}

#[test]
fn classification_of_every_error_kind() {
    let recoverable = CoreError::ResourceExhaustion { resource: "mem".to_string() };
    assert_eq!(recoverable.classification(), ErrorClassification::Recoverable);
    let shutdown = CoreError::CoordinatorShutdown { reason: "r".to_string() };
    assert_eq!(shutdown.classification(), ErrorClassification::Fatal);
    let task = CoreError::TaskExecution { message: "m".to_string(), classification: ErrorClassification::Transient };
    assert_eq!(task.classification(), ErrorClassification::Transient);
    let missing = CoreError::TaskNotFound { task_id: "x".to_string() };
    assert_eq!(missing.classification(), ErrorClassification::Recoverable);
}

#[test]
fn test_task_attempt_count_increment() {
    let mut coordinator = OrbitalCoordinator::new();
    let task_id = coordinator.create_task("test".to_string(), 100, 5).expect("Task creation failed");

    assert_eq!(coordinator.get_task(task_id).unwrap().attempt_count, 0);

    coordinator.transition_task(task_id, TaskState::Queued).unwrap();
    coordinator.transition_task(task_id, TaskState::Running).unwrap();
    assert_eq!(coordinator.get_task(task_id).unwrap().attempt_count, 1);

    coordinator.transition_task(task_id, TaskState::Failed).unwrap();
    coordinator.recover_task(task_id).unwrap();
    coordinator.transition_task(task_id, TaskState::Running).unwrap();
    assert_eq!(coordinator.get_task(task_id).unwrap().attempt_count, 2);
}

#[test]
fn task_metadata_timing() {
    let mut coordinator = OrbitalCoordinator::new();
    let task_id = coordinator.create_task_at("t".to_string(), 1, 0, 50).unwrap();
    let m: TaskMetadata = coordinator.get_task(task_id).unwrap();
    assert_eq!(m.elapsed_since_creation(80), 30);
    assert_eq!(m.elapsed_since_creation(10), 0);
    assert!(m.is_watchdog_timeout(29, 80));
    assert!(!m.is_watchdog_timeout(30, 80));
    assert!(!m.exceeded_retries());
    assert_eq!(task_id.as_u64(), 1);
    assert_eq!(task_id.to_string(), "task_0000000000000001");
    assert_eq!(TaskState::Cancelled.to_string(), "CANCELLED");
}

#[test]
fn watchdog_config_defaults() {
    let c = WatchdogConfig::default();
    assert_eq!(c.timeout_secs, 30);
    assert_eq!(c.initial_backoff_ms, 100);
    assert_eq!(c.max_backoff_ms, 30000);
    assert!(c.auto_recovery);
}

#[test]
fn identifiers_grow_across_any_calls() {
    let mut coordinator = OrbitalCoordinator::new();
    let first = coordinator.create_task("a".to_string(), 1, 3).unwrap();
    coordinator.transition_task(first, TaskState::Queued).unwrap();
    coordinator.record_error(first, "boom".to_string(), ErrorClassification::Transient).unwrap();
    let second = coordinator.create_task("b".to_string(), 1, 3).unwrap();
    coordinator.set_fault_state(FaultState::Transient).unwrap();
    let third = coordinator.create_task("c".to_string(), 1, 3).unwrap();
    assert!(first.as_u64() < second.as_u64());
    assert!(second.as_u64() < third.as_u64());
    coordinator.shutdown().unwrap();
    assert!(coordinator.create_task("d".to_string(), 1, 3).is_err());
}
