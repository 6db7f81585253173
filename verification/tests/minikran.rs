use orbital::minikran::{
    authorize, AuthorizationRecord, AuthorizationVerifier, Budget, Kernel, KernelError, LedgerKind,
    TaskId, TaskSpec, TaskState,
};

struct TestVerifier;

impl AuthorizationVerifier for TestVerifier {
    fn accepts(&self, _: AuthorizationRecord) -> bool {
        true
    }

    fn verify(&self, _: &AuthorizationRecord) -> bool {
        true
    }
}

struct RejectingVerifier;

impl AuthorizationVerifier for RejectingVerifier {
    fn accepts(&self, _: AuthorizationRecord) -> bool {
        false
    }

    fn verify(&self, _: &AuthorizationRecord) -> bool {
        false
    }
}

fn spec(id: TaskId) -> TaskSpec {
    TaskSpec {
        task_id: id,
        parent_id: None,
        priority: 1,
        budget: Budget { cpu: 1, memory: 1, storage: 1, power: 1 },
        deadline_tick: 90,
        input_hash: [1; 32],
        code_hash: [2; 32],
        verification_policy: "proof".into(),
        recovery_policy: "restore".into(),
    }
}

fn record() -> AuthorizationRecord {
    AuthorizationRecord {
        workroom_id: "wr-1".into(),
        license_id: "lic-1".into(),
        authorized_scope: "research".into(),
        authorized_node: "node-1".into(),
        expiration_tick: 100,
        public_key: vec![1],
        signature: vec![2],
    }
}

fn kernel() -> Kernel {
    let mut k = Kernel::new(Budget { cpu: 2, memory: 2, storage: 2, power: 2 });
    k.accept_authorization(authorize(&TestVerifier, record(), 1).unwrap());
    k
}

#[test]
fn fails_closed() {
    assert_eq!(
        Kernel::new(Budget { cpu: 1, memory: 1, storage: 1, power: 1 }).spawn(spec(1), 1),
        Err(KernelError::Unauthorized)
    );
}

#[test]
fn verification_and_worm_commit() {
    let mut k = kernel();
    k.spawn(spec(1), 1).unwrap();
    k.schedule(1, 7).unwrap();
    let e = k.dispatch(1, 7).unwrap();
    k.checkpoint(1, e, 3).unwrap();
    k.verify(1, true).unwrap();
    k.commit(1).unwrap();
    assert_eq!(k.task(1).unwrap().state, TaskState::Committed);
    assert!(k.ledger.valid_chain());
    assert!(matches!(k.ledger.events().last().unwrap().kind, LedgerKind::Commit));
}

#[test]
fn recovery_requeues_from_a_bound_checkpoint() {
    let mut k = kernel();
    k.spawn(spec(2), 1).unwrap();
    k.schedule(2, 7).unwrap();
    let e = k.dispatch(2, 7).unwrap();
    k.checkpoint(2, e, 8).unwrap();
    k.fault(2, e).unwrap();
    k.recover(2).unwrap();
    k.restore(2, 8).unwrap();
    k.retry(2, 7).unwrap();
    assert_eq!(k.dispatch(2, 7).unwrap(), e + 1);
}

#[test]
fn authorization_rejects_incomplete_expired_and_unverified_records() {
    let mut incomplete = record();
    incomplete.license_id = String::new();
    assert_eq!(authorize(&TestVerifier, incomplete, 1), Err(KernelError::InvalidAuthorization));
    assert_eq!(authorize(&TestVerifier, record(), 100), Err(KernelError::ExpiredAuthorization));
    assert_eq!(authorize(&RejectingVerifier, record(), 1), Err(KernelError::InvalidAuthorization));
}

#[test]
fn running_task_cannot_commit_directly() {
    let mut k = kernel();
    k.spawn(spec(3), 1).unwrap();
    k.schedule(3, 7).unwrap();
    k.dispatch(3, 7).unwrap();
    assert!(k.commit(3).is_err());
    assert_eq!(k.task(3).unwrap().state, TaskState::Running);
}

#[test]
fn rejected_verification_cannot_commit() {
    let mut k = kernel();
    k.spawn(spec(4), 1).unwrap();
    k.schedule(4, 7).unwrap();
    let e = k.dispatch(4, 7).unwrap();
    k.checkpoint(4, e, 5).unwrap();
    k.verify(4, false).unwrap();
    assert!(k.commit(4).is_err());
    assert_eq!(k.task(4).unwrap().state, TaskState::Rejected);
    k.abort(4).unwrap();
    assert_eq!(k.task(4).unwrap().state, TaskState::Aborted);
}

#[test]
fn stale_epoch_is_refused() {
    let mut k = kernel();
    k.spawn(spec(5), 1).unwrap();
    k.schedule(5, 7).unwrap();
    let e = k.dispatch(5, 7).unwrap();
    assert_eq!(k.checkpoint(5, e + 1, 3), Err(KernelError::LeaseMismatch(5)));
}

#[test]
fn restore_needs_the_bound_checkpoint() {
    let mut k = kernel();
    k.spawn(spec(6), 1).unwrap();
    k.schedule(6, 7).unwrap();
    let e = k.dispatch(6, 7).unwrap();
    k.checkpoint(6, e, 8).unwrap();
    k.fault(6, e).unwrap();
    k.recover(6).unwrap();
    assert!(k.restore(6, 9).is_err());
    assert_eq!(k.task(6).unwrap().state, TaskState::Recovering);
}

#[test]
fn over_budget_task_is_refused() {
    let mut k = kernel();
    let mut big = spec(7);
    big.budget = Budget { cpu: 3, memory: 1, storage: 1, power: 1 };
    assert!(k.spawn(big, 1).is_err());
    assert!(k.task(7).is_none());
}

#[test]
fn ledger_records_every_move_of_a_task() {
    let mut k = kernel();
    k.spawn(spec(8), 1).unwrap();
    k.schedule(8, 7).unwrap();
    let e = k.dispatch(8, 7).unwrap();
    k.checkpoint(8, e, 1).unwrap();
    k.verify(8, false).unwrap();
    let events = k.ledger().events();
    let moves: Vec<(TaskState, TaskState)> = events.iter().map(|ev| (ev.from, ev.to)).collect();
    assert_eq!(
        moves,
        vec![
            (TaskState::Created, TaskState::Validated),
            (TaskState::Validated, TaskState::Queued),
            (TaskState::Queued, TaskState::Running),
            (TaskState::Running, TaskState::Checkpointed),
            (TaskState::Checkpointed, TaskState::Verifying),
            (TaskState::Verifying, TaskState::Rejected),
        ]
    );
    assert!(k.ledger().valid_chain());
}

#[test]
fn committed_task_stays_committed() {
    let mut k = kernel();
    k.spawn(spec(9), 1).unwrap();
    k.schedule(9, 7).unwrap();
    let e = k.dispatch(9, 7).unwrap();
    k.checkpoint(9, e, 2).unwrap();
    k.verify(9, true).unwrap();
    k.commit(9).unwrap();
    let before = k.ledger().events().len();
    assert!(k.abort(9).is_err());
    assert!(k.fault(9, e).is_err());
    assert!(k.recover(9).is_err());
    assert!(k.retry(9, 7).is_err());
    assert_eq!(k.task(9).unwrap().state, TaskState::Committed);
    assert_eq!(k.ledger().events().len(), before);
}

#[test]
fn verifier_verdict_decides_admission() {
    assert!(authorize(&TestVerifier, record(), 1).is_ok());
    assert_eq!(authorize(&RejectingVerifier, record(), 1), Err(KernelError::InvalidAuthorization));
}
