use orbital::orbital_verification::{ExecutionResult, FaultClassification, VerificationEngine, VerificationError};

#[test]
fn test_engine_creation() {
    let engine = VerificationEngine::new();
    let stats = engine.stats();
    assert_eq!(stats.total_verified, 0);
}

#[test]
fn test_result_creation() {
    let result = ExecutionResult::new(1, b"input", b"output");
    assert_eq!(result.id, 1);
    assert!(!result.input_hash.is_empty());
}

#[test]
fn result_digests_are_blake3_hex() {
    let result = ExecutionResult::new_at(1, b"abc", b"", 5);
    assert_eq!(result.input_hash, "6437b3ac38465133ffb63b75273a8db548c558465d79db03fd359c6cd5bd9d85");
    assert_eq!(result.output_hash, "af1349b9f5f9a1a6a0404dea36dcc9499bcb25c9adc112b7cc9a93cae41f3262");
    assert_eq!(result.timestamp, 5);
}

#[test]
fn test_result_verification() {
    let result = ExecutionResult::new(1, b"input", b"output");
    assert!(result.verify_hashes().is_ok());
}

#[test]
fn missing_digest_fails_verification() {
    let mut result = ExecutionResult::new(1, b"input", b"output");
    result.output_hash = String::new();
    match result.verify_hashes() {
        Err(VerificationError::InvalidState { detail }) => assert_eq!(detail, "Hash not computed"),
        other => panic!("unexpected {:?}", other),
    }
}

#[test]
fn test_register_result() {
    let mut engine = VerificationEngine::new();
    let result = ExecutionResult::new(1, b"input", b"output");
    assert!(engine.register_result(result).is_ok());
}

#[test]
fn test_verify_execution() {
    let mut engine = VerificationEngine::new();
    let result = ExecutionResult::new(1, b"input", b"output");
    engine.register_result(result).ok();

    assert!(engine.verify_execution(1).is_ok());
}

#[test]
fn unknown_execution_is_an_invalid_state() {
    let mut engine = VerificationEngine::new();
    match engine.verify_execution(7) {
        Err(VerificationError::InvalidState { detail }) => assert_eq!(detail, "Execution 7 not found"),
        other => panic!("unexpected {:?}", other),
    }
}

#[test]
fn test_promote_result() {
    let mut engine = VerificationEngine::new();
    let result = ExecutionResult::new(1, b"input", b"output");
    engine.register_result(result).ok();

    let promoted = engine.promote_result(1).expect("Promotion failed");
    assert_eq!(promoted.id, 1);
    assert_eq!(engine.stats().pending_results, 0);
    assert_eq!(engine.stats().promoted_results, 1);
    assert!(engine.promote_result(1).is_err());
}

#[test]
fn test_redundant_execution_match() {
    let mut engine = VerificationEngine::new();

    let r1 = ExecutionResult::new(1, b"input", b"output");
    let r2 = ExecutionResult::new(2, b"input", b"output");

    engine.register_result(r1).ok();
    engine.register_result(r2).ok();

    assert!(engine.verify_redundant_execution(&[1, 2]).is_ok());
}

#[test]
fn test_redundant_execution_mismatch() {
    let mut engine = VerificationEngine::new();

    let r1 = ExecutionResult::new(1, b"input", b"output1");
    let r2 = ExecutionResult::new(2, b"input", b"output2");

    engine.register_result(r1).ok();
    engine.register_result(r2).ok();

    assert!(engine.verify_redundant_execution(&[1, 2]).is_err());
    assert!(matches!(engine.detect_fault(2), Err(VerificationError::FaultDetected { classification: FaultClassification::Persistent })));
    assert_eq!(engine.stats().total_faults, 1);
}

#[test]
fn redundant_comparison_needs_executions() {
    let mut engine = VerificationEngine::new();
    assert!(matches!(engine.verify_redundant_execution(&[]), Err(VerificationError::InvalidState { .. })));
    engine.register_result(ExecutionResult::new(1, b"i", b"o")).unwrap();
    match engine.verify_redundant_execution(&[1, 3]) {
        Err(VerificationError::InvalidState { detail }) => assert_eq!(detail, "Execution 3 not found"),
        other => panic!("unexpected {:?}", other),
    }
}

#[test]
fn test_fault_recording() {
    let mut engine = VerificationEngine::new();
    engine.record_fault(1, FaultClassification::Transient).ok();

    let stats = engine.stats();
    assert_eq!(stats.total_faults, 1);
}

#[test]
fn test_fault_detection() {
    let mut engine = VerificationEngine::new();
    engine.record_fault(1, FaultClassification::Persistent).ok();

    let result = engine.detect_fault(1);
    assert!(result.is_err());
    assert_eq!(engine.detect_fault(2).unwrap(), FaultClassification::NoFault);
}

#[test]
fn test_invariant_i1_violation() {
    let mut engine = VerificationEngine::new();
    let mut result = ExecutionResult::new(1, b"", b"output");
    result.input_hash = String::new();

    engine.register_result(result).ok();
    let verify_result = engine.verify_execution(1);
    assert!(verify_result.is_err());
}

#[test]
fn test_invariant_i6_task_completion() {
    let engine = VerificationEngine::new();
    assert!(engine.verify_task_completion(1, true).is_ok());
    assert!(engine.verify_task_completion(1, false).is_err());
}

#[test]
fn test_invariant_i7_ledger_immutability() {
    let engine = VerificationEngine::new();
    let hash = "abc123";

    assert!(engine.verify_ledger_immutability(hash, hash).is_ok());
    assert!(engine.verify_ledger_immutability(hash, "xyz789").is_err());
}

#[test]
fn test_invariant_i8_checkpoint_reproducibility() {
    let engine = VerificationEngine::new();
    let hash = "def456";

    assert!(engine.verify_checkpoint_reproducible(hash, hash).is_ok());
    assert!(engine.verify_checkpoint_reproducible(hash, "other").is_err());
}

#[test]
fn verification_test_deterministic_hashing() {
    let data = b"test data";
    let hash1 = ExecutionResult::new(1, data, b"out").input_hash;
    let hash2 = ExecutionResult::new(2, data, b"out").input_hash;

    assert_eq!(hash1, hash2);
}

#[test]
fn test_trace_addition() {
    let mut result = ExecutionResult::new(1, b"in", b"out");
    result.add_trace("step1".to_string());
    result.add_trace("step2".to_string());

    assert_eq!(result.trace.len(), 2);
}

#[test]
fn test_stats() {
    let mut engine = VerificationEngine::new();

    for i in 0..5 {
        let r = ExecutionResult::new(i, b"input", b"output");
        engine.register_result(r).ok();
        engine.verify_execution(i).ok();
    }

    let stats = engine.stats();
    assert_eq!(stats.total_verified, 5);
}

#[test]
fn test_get_verified_results() {
    let mut engine = VerificationEngine::new();

    for i in 0..3 {
        let r = ExecutionResult::new(i, b"input", b"output");
        engine.register_result(r).ok();
        engine.promote_result(i).ok();
    }

    let verified = engine.get_verified_results();
    assert_eq!(verified.len(), 3);
    assert_eq!(verified[2].id, 2);
}

#[test]
fn test_multiple_faults() {
    let mut engine = VerificationEngine::new();

    engine.record_fault(1, FaultClassification::Transient).ok();
    engine.record_fault(2, FaultClassification::Persistent).ok();
    engine.record_fault(3, FaultClassification::Byzantine).ok();

    let stats = engine.stats();
    assert_eq!(stats.total_faults, 3);
}

#[test]
fn test_result_execution_flow() {
    let mut engine = VerificationEngine::new();

    let r1 = ExecutionResult::new(1, b"inputs", b"outputs");
    let r2 = ExecutionResult::new(2, b"inputs", b"outputs");

    engine.register_result(r1).ok();
    engine.register_result(r2).ok();

    assert!(engine.verify_redundant_execution(&[1, 2]).is_ok());
    assert!(engine.promote_result(1).is_ok());
}
