use orbital::orbital_communication::{
    CommunicationError, CommunicationQueue, CompressionCodec, Message, Priority, TransmissionState,
};

#[test]
fn lib_test_priority_ordering() {
    assert!(Priority::critical() > Priority::high());
    assert!(Priority::high() > Priority::normal());
    assert!(Priority::normal() > Priority::low());
}

#[test]
fn test_message_creation() {
    let msg = Message::new(1, vec![1, 2, 3], Priority::normal(), CompressionCodec::Uncompressed);
    assert_eq!(msg.id, 1);
    assert!(!msg.hash.is_empty());
}

#[test]
fn test_message_verification() {
    let msg = Message::new(1, vec![1, 2, 3], Priority::normal(), CompressionCodec::Uncompressed);
    assert!(msg.verify().is_ok());
}

#[test]
fn test_compression_none() {
    let mut msg = Message::new(1, vec![1, 2, 3, 4, 5], Priority::normal(), CompressionCodec::Uncompressed);
    assert!(msg.compress().is_ok());
    assert_eq!(msg.compressed.unwrap(), vec![1, 2, 3, 4, 5]);
}

#[test]
fn test_compression_zstd() {
    let mut msg = Message::new(1, vec![1; 1000], Priority::normal(), CompressionCodec::Zstd);
    assert!(msg.compress().is_ok());
    assert!(msg.compressed.is_some());
    assert!(msg.compressed.as_ref().unwrap().len() < 1000);
}

#[test]
fn test_compression_gzip() {
    let mut msg = Message::new(1, vec![1; 1000], Priority::normal(), CompressionCodec::Gzip);
    assert!(msg.compress().is_ok());
    assert!(msg.compressed.is_some());
    assert!(msg.compressed.as_ref().unwrap().len() < 1000);
}

#[test]
fn test_decompression() {
    let data = vec![42; 500];
    let mut msg = Message::new(1, data.clone(), Priority::normal(), CompressionCodec::Zstd);
    msg.compress().ok();

    let decompressed = msg.decompress().unwrap();
    assert_eq!(decompressed, data);
}

#[test]
fn gzip_round_trip() {
    let data: Vec<u8> = (0..300u32).map(|i| (i % 7) as u8).collect();
    let mut msg = Message::new(9, data.clone(), Priority::low(), CompressionCodec::Gzip);
    msg.compress().unwrap();
    assert_eq!(msg.state, TransmissionState::Compressed);
    assert_ne!(msg.compressed.as_ref().unwrap(), &data);
    assert_eq!(msg.decompress().unwrap(), data);
}

#[test]
fn decompress_without_compressed_data_fails() {
    let msg = Message::new(1, vec![1, 2, 3], Priority::normal(), CompressionCodec::Zstd);
    assert!(matches!(msg.decompress(), Err(CommunicationError::CompressionFailed { .. })));
}

#[test]
fn corrupted_zstd_frame_fails_to_decompress() {
    let mut msg = Message::new(1, vec![1, 2, 3], Priority::normal(), CompressionCodec::Zstd);
    msg.compressed = Some(vec![0, 1, 2, 3]);
    assert!(matches!(msg.decompress(), Err(CommunicationError::DecompressionFailed { .. })));
}

#[test]
fn tampered_payload_fails_verification() {
    let mut msg = Message::new(4, vec![1, 2, 3], Priority::normal(), CompressionCodec::Uncompressed);
    msg.payload[0] = 9;
    assert!(matches!(msg.verify(), Err(CommunicationError::IntegrityViolation { message_id: 4 })));
}

#[test]
fn payload_digest_is_blake3_hex() {
    let msg = Message::new(1, b"abc".to_vec(), Priority::normal(), CompressionCodec::Uncompressed);
    assert_eq!(msg.hash, "6437b3ac38465133ffb63b75273a8db548c558465d79db03fd359c6cd5bd9d85");
    assert_eq!(msg.compressed_size(), 0);
}

#[test]
fn test_queue_creation() {
    let queue = CommunicationQueue::new(100);
    let stats = queue.stats();
    assert_eq!(stats.queued, 0);
}

#[test]
fn test_enqueue_message() {
    let mut queue = CommunicationQueue::new(100);
    let id = queue
        .enqueue(vec![1, 2, 3], Priority::normal(), CompressionCodec::Uncompressed)
        .expect("Enqueue failed");
    assert_eq!(id, 1);
}

#[test]
fn test_dequeue_message() {
    let mut queue = CommunicationQueue::new(100);
    queue.enqueue(vec![1, 2, 3], Priority::normal(), CompressionCodec::Uncompressed).ok();

    let msg = queue.dequeue();
    assert!(msg.is_some());
}

#[test]
fn test_priority_ordering_in_queue() {
    let mut queue = CommunicationQueue::new(100);

    queue.enqueue(vec![1], Priority::low(), CompressionCodec::Uncompressed).ok();
    queue.enqueue(vec![2], Priority::critical(), CompressionCodec::Uncompressed).ok();
    queue.enqueue(vec![3], Priority::normal(), CompressionCodec::Uncompressed).ok();

    assert_eq!(queue.stats().queued, 3);

    assert!(queue.dequeue().is_some());
    assert!(queue.dequeue().is_some());
    assert!(queue.dequeue().is_some());
}

#[test]
fn dequeue_serves_highest_priority_then_first_queued() {
    let mut queue = CommunicationQueue::new(100);
    let low = queue.enqueue(vec![1], Priority::low(), CompressionCodec::Uncompressed).unwrap();
    let normal_a = queue.enqueue(vec![2], Priority::normal(), CompressionCodec::Uncompressed).unwrap();
    let critical = queue.enqueue(vec![3], Priority::critical(), CompressionCodec::Uncompressed).unwrap();
    let normal_b = queue.enqueue(vec![4], Priority::normal(), CompressionCodec::Uncompressed).unwrap();

    assert_eq!(queue.dequeue().unwrap().id, critical);
    assert_eq!(queue.dequeue().unwrap().id, normal_a);
    assert_eq!(queue.dequeue().unwrap().id, normal_b);
    assert_eq!(queue.dequeue().unwrap().id, low);
    assert!(queue.dequeue().is_none());
}

#[test]
fn test_acknowledge_message() {
    let mut queue = CommunicationQueue::new(100);
    let _id = queue.enqueue(vec![1, 2, 3], Priority::normal(), CompressionCodec::Uncompressed).unwrap();
    let _msg = queue.dequeue();

    assert_eq!(queue.stats().queued, 0);
}

#[test]
fn acknowledge_tracks_delivery() {
    let mut queue = CommunicationQueue::new(100);
    let id = queue.enqueue(vec![1, 2, 3], Priority::normal(), CompressionCodec::Uncompressed).unwrap();
    assert!(queue.acknowledge(id).is_ok());
    assert_eq!(queue.acknowledged_count(), 1);
    assert!(matches!(queue.acknowledge(id), Err(CommunicationError::MessageNotFound { .. })));
    assert!(queue.get_message(id).is_err());
}

#[test]
fn test_fail_and_retry() {
    let mut queue = CommunicationQueue::new(100);
    let id = queue.enqueue(vec![1, 2, 3], Priority::normal(), CompressionCodec::Uncompressed).unwrap();

    let should_retry = queue.fail_message(id).unwrap();
    assert!(should_retry);
}

#[test]
fn test_max_retries_exceeded() {
    let mut queue = CommunicationQueue::new(100);
    let id = queue.enqueue(vec![1, 2, 3], Priority::normal(), CompressionCodec::Uncompressed).unwrap();

    for _ in 0..3 {
        queue.fail_message(id).ok();
    }

    assert_eq!(queue.failed_count(), 1);
}

#[test]
fn test_queue_full() {
    let mut queue = CommunicationQueue::new(1);
    queue.enqueue(vec![1], Priority::normal(), CompressionCodec::Uncompressed).ok();

    let result = queue.enqueue(vec![2], Priority::normal(), CompressionCodec::Uncompressed);
    assert!(result.is_err());
}

#[test]
fn test_get_message() {
    let mut queue = CommunicationQueue::new(100);
    let id = queue.enqueue(vec![1, 2, 3], Priority::high(), CompressionCodec::Uncompressed).unwrap();

    let msg = queue.get_message(id).unwrap();
    assert_eq!(msg.id, id);
}

#[test]
fn test_deterministic_hashing() {
    let data = b"test payload";
    let msg1 = Message::new(1, data.to_vec(), Priority::normal(), CompressionCodec::Uncompressed);
    let msg2 = Message::new(2, data.to_vec(), Priority::normal(), CompressionCodec::Uncompressed);

    assert_eq!(msg1.hash, msg2.hash);
}

#[test]
fn test_multiple_messages() {
    let mut queue = CommunicationQueue::new(100);

    for i in 0..10 {
        queue.enqueue(vec![i as u8], Priority::normal(), CompressionCodec::Uncompressed).ok();
    }

    let stats = queue.stats();
    assert_eq!(stats.queued, 10);
}

#[test]
fn test_transmission_states() {
    let msg = Message::new(1, vec![1, 2, 3], Priority::normal(), CompressionCodec::Uncompressed);
    assert_eq!(msg.state, TransmissionState::Queued);
}

#[test]
fn lib_test_stats() {
    let mut queue = CommunicationQueue::new(100);

    for i in 0..5 {
        queue.enqueue(vec![i as u8], Priority::normal(), CompressionCodec::Uncompressed).ok();
    }

    let stats = queue.stats();
    assert_eq!(stats.total_messages, 5);
}

#[test]
fn every_codec_round_trips() {
    for codec in [CompressionCodec::Uncompressed, CompressionCodec::Zstd, CompressionCodec::Gzip] {
        let payload: Vec<u8> = (0..700u32).map(|i| (i % 13) as u8).collect();
        let mut msg = Message::new(1, payload.clone(), Priority::normal(), codec);
        assert!(msg.compress().is_ok());
        assert_eq!(msg.decompress().unwrap(), payload);
        assert_eq!(msg.hash.len(), 64);
    }
}

#[test]
fn messages_are_equal_when_their_ids_are() {
    let a = Message::new_at(3, vec![1, 2], Priority::new(1), CompressionCodec::Zstd, 0);
    let b = Message::new_at(3, vec![9], Priority::new(7), CompressionCodec::Gzip, 5);
    let c = Message::new_at(4, vec![1, 2], Priority::new(1), CompressionCodec::Zstd, 0);
    assert!(a == b);
    assert!(a != c);
}

#[test]
fn corrupted_gzip_stream_fails_to_decompress() {
    let mut m = Message::new(1, b"some payload".to_vec(), Priority::new(1), CompressionCodec::Gzip);
    m.compressed = Some(vec![0x1f, 0x8b, 0, 1, 2, 3]);
    assert!(matches!(m.decompress(), Err(CommunicationError::DecompressionFailed { .. })));
}
