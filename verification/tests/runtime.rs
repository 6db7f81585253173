use orbital::orbital_runtime::{
    check_filter_fits, check_lengths, AcceleratorController, CryptoEngine, ExecutionContext, ExecutionEngine,
    RuntimeError,
};

#[test]
fn test_execution_context_creation() {
    let ctx = ExecutionContext::new(1, 10000);
    assert_eq!(ctx.get_instruction_count(), 0);
    assert_eq!(ctx.id, 1);
}

#[test]
fn test_instruction_counting() {
    let mut ctx = ExecutionContext::new(1, 10000);
    ctx.record_instructions(100).expect("Recording failed");
    assert_eq!(ctx.get_instruction_count(), 100);

    ctx.record_instructions(9900).expect("Recording failed");
    assert_eq!(ctx.get_instruction_count(), 10000);
}

#[test]
fn test_instruction_limit_exceeded() {
    let mut ctx = ExecutionContext::new(1, 100);
    let result = ctx.record_instructions(101);
    assert!(result.is_err());
    assert!(matches!(result, Err(RuntimeError::InstructionLimitExceeded { limit: 100 })));
    assert_eq!(ctx.get_instruction_count(), 101);
}

#[test]
fn test_blake3_hash() {
    let mut ctx = ExecutionContext::new(1, 10000);
    let data = b"test data";
    let hash1 = CryptoEngine::blake3_hash(&mut ctx, data).expect("Hash failed");
    let hash2 = CryptoEngine::blake3_hash(&mut ctx, data).expect("Hash failed");
    assert_eq!(hash1, hash2);
    assert_eq!(hash1, blake3::hash(data).to_hex().to_string());
    assert_eq!(ctx.get_instruction_count(), 2);
}

#[test]
fn test_verify_blake3() {
    let mut ctx = ExecutionContext::new(1, 10000);
    let data = b"test data";
    let hash = CryptoEngine::blake3_hash(&mut ctx, data).expect("Hash failed");
    let verified = CryptoEngine::verify_blake3(&mut ctx, data, &hash).expect("Verification failed");
    assert!(verified);
    assert!(!CryptoEngine::verify_blake3(&mut ctx, data, "00").unwrap());
}

#[test]
fn test_hmac_blake3() {
    let mut ctx = ExecutionContext::new(1, 100000);
    let key = b"secret_key";
    let data = b"test data";
    let mac = CryptoEngine::hmac_blake3(&mut ctx, key, data).expect("HMAC failed");
    assert!(!mac.is_empty());
    assert_eq!(mac, blake3::hash(b"secret_keytest data").to_hex().to_string());
}

#[test]
fn digest_cost_is_one_per_block_plus_one() {
    let mut ctx = ExecutionContext::new(1, 3);
    CryptoEngine::blake3_hash(&mut ctx, &[0u8; 128]).unwrap();
    assert_eq!(ctx.get_instruction_count(), 3);
    assert!(CryptoEngine::blake3_hash(&mut ctx, &[]).is_err());
    assert_eq!(ctx.get_instruction_count(), 4);
}

#[test]
fn test_accelerator_controller() {
    let controller = AcceleratorController::new();
    assert!(!controller.is_available());
    assert_eq!(controller.name(), "CPU_FALLBACK");
}

#[test]
fn gpu_request_keeps_the_cpu_fallback() {
    let mut controller = AcceleratorController::default();
    assert!(controller.try_enable_gpu(0).is_ok());
    assert!(!controller.is_available());
    assert_eq!(controller.name(), "CPU_FALLBACK");
}

#[test]
fn test_execution_engine() {
    let mut engine = ExecutionEngine::new();
    let ctx1 = engine.create_context(10000);
    let ctx2 = engine.create_context(20000);

    assert_eq!(ctx1.id, 0);
    assert_eq!(ctx2.id, 1);
    assert_eq!(ctx2.max_instructions, 20000);
    assert_eq!(engine.accelerator_status(), "CPU_FALLBACK (available: false)");
}

#[test]
fn test_determinism_verification() {
    let mut ctx = ExecutionContext::new(1, 100000);

    let hash1 = {
        CryptoEngine::blake3_hash(&mut ctx, b"payload").expect("Hash failed");
        ctx.get_state_hash()
    };

    ctx.reset();

    let hash2 = {
        CryptoEngine::blake3_hash(&mut ctx, b"payload").expect("Hash failed");
        ctx.get_state_hash()
    };

    assert_eq!(hash1, hash2);
}

#[test]
fn state_digest_chains_results() {
    let mut ctx = ExecutionContext::new(1, 100);
    ctx.update_state_hash(b"abc");
    let first = blake3::hash(b"abc").to_hex().to_string();
    assert_eq!(ctx.get_state_hash(), first);
    ctx.record_output(b"xyz");
    let mut chained = first.clone().into_bytes();
    chained.extend_from_slice(blake3::hash(b"xyz").as_bytes());
    assert_eq!(ctx.get_state_hash(), blake3::hash(&chained).to_hex().to_string());
}

#[test]
fn test_context_reset() {
    let mut ctx = ExecutionContext::new(1, 10000);
    ctx.record_instructions(100).expect("Recording failed");
    assert_eq!(ctx.get_instruction_count(), 100);

    ctx.reset();
    assert_eq!(ctx.get_instruction_count(), 0);
    assert!(ctx.get_state_hash().is_empty());
}

#[test]
fn operand_lengths_must_match() {
    assert!(check_lengths(3, 3).is_ok());
    match check_lengths(3, 2) {
        Err(RuntimeError::VectorLengthMismatch { got, expected }) => {
            assert_eq!(got, 2);
            assert_eq!(expected, 3);
        }
        other => panic!("unexpected {:?}", other),
    }
}

#[test]
fn filter_must_fit_the_signal() {
    assert!(check_filter_fits(3, 3).is_ok());
    match check_filter_fits(2, 13) {
        Err(RuntimeError::SignalProcessingError { reason }) => {
            assert_eq!(reason, "Signal length 2 < filter length 13");
        }
        other => panic!("unexpected {:?}", other),
    }
}
