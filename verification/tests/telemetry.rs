use orbital::orbital_telemetry::{ReplayBuffer, TelemetryError, TelemetryFrame, TelemetryProcessor};

#[test]
fn test_frame_creation() {
    let frame = TelemetryFrame::new(0, 100, vec![1, 2, 3, 4]);
    assert_eq!(frame.sequence, 0);
    assert_eq!(frame.timestamp, 100);
}

#[test]
fn frame_checksum_is_crc32() {
    let frame = TelemetryFrame::new(0, 100, vec![1, 2, 3, 4]);
    assert_eq!(frame.checksum, 0xB63C_FBCD);
    let check = TelemetryFrame::new(0, 0, b"123456789".to_vec());
    assert_eq!(check.checksum, 0xCBF4_3926);
    assert_eq!(TelemetryFrame::new(0, 0, vec![]).checksum, 0);
}

#[test]
fn frame_digest_covers_its_fields() {
    let frame = TelemetryFrame::new(2, 7, vec![9]);
    let mut bytes = Vec::new();
    bytes.extend_from_slice(&2u64.to_le_bytes());
    bytes.extend_from_slice(&7u64.to_le_bytes());
    bytes.push(9);
    bytes.extend_from_slice(&frame.checksum.to_le_bytes());
    assert_eq!(frame.hash, blake3::hash(&bytes).to_hex().to_string());
}

#[test]
fn test_frame_verification() {
    let frame = TelemetryFrame::new(0, 100, vec![1, 2, 3, 4]);
    assert!(frame.verify().is_ok());
}

#[test]
fn test_crc_mismatch() {
    let mut frame = TelemetryFrame::new(0, 100, vec![1, 2, 3, 4]);
    frame.checksum ^= 0xFFFFFFFF;
    assert!(frame.verify().is_err());
}

#[test]
fn crc_mismatch_reports_both_values() {
    let mut frame = TelemetryFrame::new(0, 100, vec![1, 2, 3, 4]);
    frame.checksum = 5;
    match frame.verify() {
        Err(TelemetryError::CRCMismatch { expected, actual }) => {
            assert_eq!(expected, 5);
            assert_eq!(actual, 0xB63C_FBCD);
        }
        other => panic!("unexpected {:?}", other),
    }
}

#[test]
fn altered_digest_is_malformed() {
    let mut frame = TelemetryFrame::new(0, 100, vec![1, 2, 3, 4]);
    frame.hash = "x".to_string();
    match frame.verify() {
        Err(TelemetryError::MalformedFrame { reason }) => assert_eq!(reason, "Hash mismatch"),
        other => panic!("unexpected {:?}", other),
    }
}

#[test]
fn test_processor_creation() {
    let processor = TelemetryProcessor::new();
    let stats = processor.stats();
    assert_eq!(stats.frames_processed, 0);
}

#[test]
fn test_process_valid_frame() {
    let mut processor = TelemetryProcessor::new();
    let frame = TelemetryFrame::new(0, 100, vec![1, 2, 3]);
    assert!(processor.process_frame(&frame).is_ok());
}

#[test]
fn test_sequence_violation() {
    let mut processor = TelemetryProcessor::new();
    let frame = TelemetryFrame::new(5, 100, vec![1, 2, 3]);
    assert!(processor.process_frame(&frame).is_err());
    assert_eq!(processor.stats().errors, 1);
}

#[test]
fn test_duplicate_detection() {
    let mut processor = TelemetryProcessor::new();
    let frame1 = TelemetryFrame::new(0, 100, vec![1, 2, 3]);
    let frame2 = TelemetryFrame::new(0, 101, vec![4, 5, 6]);

    assert!(processor.process_frame(&frame1).is_ok());
    assert!(processor.process_frame(&frame2).is_err());
}

#[test]
fn test_timestamp_monotonicity() {
    let mut processor = TelemetryProcessor::new();
    let frame1 = TelemetryFrame::new(0, 100, vec![1, 2, 3]);
    let frame2 = TelemetryFrame::new(1, 99, vec![4, 5, 6]);

    assert!(processor.process_frame(&frame1).is_ok());
    assert!(processor.process_frame(&frame2).is_err());
}

#[test]
fn backwards_timestamp_is_explained() {
    let mut processor = TelemetryProcessor::new();
    processor.process_frame(&TelemetryFrame::new(0, 100, vec![1])).unwrap();
    match processor.process_frame(&TelemetryFrame::new(1, 99, vec![2])) {
        Err(TelemetryError::InvalidTimestamp { detail }) => {
            assert_eq!(detail, "Timestamp went backwards: 99 < 100");
        }
        other => panic!("unexpected {:?}", other),
    }
    let stats = processor.stats();
    assert_eq!(stats.next_sequence, 1);
    assert_eq!(stats.errors, 1);
}

#[test]
fn damaged_frame_is_not_counted_as_an_error() {
    let mut processor = TelemetryProcessor::new();
    let mut frame = TelemetryFrame::new(0, 100, vec![1]);
    frame.checksum ^= 1;
    assert!(matches!(processor.process_frame(&frame), Err(TelemetryError::CRCMismatch { .. })));
    assert_eq!(processor.stats().errors, 0);
    assert_eq!(processor.stats().frames_processed, 0);
}

#[test]
fn test_sequence_ordering() {
    let mut processor = TelemetryProcessor::new();

    for i in 0..10 {
        let frame = TelemetryFrame::new(i, 100 + i, vec![i as u8]);
        assert!(processor.process_frame(&frame).is_ok());
    }

    let stats = processor.stats();
    assert_eq!(stats.frames_processed, 10);
}

#[test]
fn test_replay_buffer_creation() {
    let buffer = ReplayBuffer::new(100);
    let stats = buffer.stats();
    assert_eq!(stats.current_size, 0);
    assert_eq!(stats.max_size, 100);
}

#[test]
fn test_replay_buffer_add() {
    let mut buffer = ReplayBuffer::new(100);
    let frame = TelemetryFrame::new(0, 100, vec![1, 2, 3]);
    assert!(buffer.add(frame).is_ok());
}

#[test]
fn test_replay_buffer_full() {
    let mut buffer = ReplayBuffer::new(2);
    buffer.add(TelemetryFrame::new(0, 100, vec![1])).ok();
    buffer.add(TelemetryFrame::new(1, 101, vec![2])).ok();

    let result = buffer.add(TelemetryFrame::new(2, 102, vec![3]));
    assert!(result.is_err());
}

#[test]
fn test_replay_buffer_get() {
    let mut buffer = ReplayBuffer::new(100);
    let frame = TelemetryFrame::new(5, 100, vec![1, 2, 3]);
    buffer.add(frame.clone()).ok();

    let retrieved = buffer.get(5).unwrap();
    assert_eq!(retrieved.sequence, 5);
    assert!(matches!(buffer.get(6), Err(TelemetryError::FrameNotInBuffer { sequence: 6 })));
}

#[test]
fn test_replay_from_sequence() {
    let mut buffer = ReplayBuffer::new(100);

    for i in 0..5 {
        let frame = TelemetryFrame::new(i, 100 + i, vec![i as u8]);
        buffer.add(frame).ok();
    }

    let frames = buffer.replay_from(2).unwrap();
    assert_eq!(frames.len(), 3);
    assert_eq!(frames[0].sequence, 2);
    assert!(buffer.replay_from(5).is_err());
}

#[test]
fn test_frame_size() {
    let frame = TelemetryFrame::new(0, 100, vec![1, 2, 3, 4, 5]);
    let size = frame.size();
    assert!(size > 0);
    assert_eq!(size, 89);
}

#[test]
fn lib_test_deterministic_hashing() {
    let frame1 = TelemetryFrame::new(0, 100, vec![1, 2, 3]);
    let frame2 = TelemetryFrame::new(0, 100, vec![1, 2, 3]);

    assert_eq!(frame1.hash, frame2.hash);
}

#[test]
fn test_processor_stats() {
    let mut processor = TelemetryProcessor::new();

    for i in 0..7 {
        let frame = TelemetryFrame::new(i, 100 + i, vec![i as u8]);
        processor.process_frame(&frame).ok();
    }

    let stats = processor.stats();
    assert_eq!(stats.frames_processed, 7);
    assert_eq!(stats.next_sequence, 7);
}

#[test]
fn lib_test_large_payload() {
    let large_payload = vec![0xFF; 10000];
    let frame = TelemetryFrame::new(0, 100, large_payload);
    assert!(frame.verify().is_ok());
}

#[test]
fn test_replay_buffer_clear() {
    let mut buffer = ReplayBuffer::new(100);
    buffer.add(TelemetryFrame::new(0, 100, vec![1])).ok();
    buffer.clear();

    let stats = buffer.stats();
    assert_eq!(stats.current_size, 0);
    assert_eq!(stats.total_stored, 1);
}

#[test]
fn test_multiple_processors() {
    let mut p1 = TelemetryProcessor::new();
    let mut p2 = TelemetryProcessor::new();

    p1.process_frame(&TelemetryFrame::new(0, 100, vec![1])).ok();
    p2.process_frame(&TelemetryFrame::new(0, 100, vec![2])).ok();

    assert_eq!(p1.stats().frames_processed, 1);
    assert_eq!(p2.stats().frames_processed, 1);
}
