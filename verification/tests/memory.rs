use orbital::orbital_memory::{BoundedBuffer, CheckpointRegion, MemoryError, MemoryManager, RingBuffer};

#[test]
fn test_bounded_buffer_creation() {
    let buffer = BoundedBuffer::new(1024, 1);
    let stats = buffer.stats();
    assert_eq!(stats.capacity, 1024);
    assert_eq!(stats.allocation_count, 0);
}

#[test]
fn test_bounded_buffer_allocation() {
    let mut buffer = BoundedBuffer::new(1024, 1);
    let slice = buffer.allocate(256).expect("Allocation failed");
    assert_eq!(slice.len(), 256);
    assert_eq!(buffer.current_watermark(), 256);
}

#[test]
fn test_bounded_buffer_overflow() {
    let mut buffer = BoundedBuffer::new(256, 1);
    buffer.allocate(200).expect("First allocation failed");
    let result = buffer.allocate(100);
    assert!(result.is_err());
    match result {
        Err(MemoryError::AllocationFailed { requested, available }) => {
            assert_eq!(requested, 100);
            assert_eq!(available, 56);
        }
        other => panic!("unexpected {:?}", other),
    }
}

#[test]
fn test_bounded_buffer_write_read() {
    let mut buffer = BoundedBuffer::new(512, 1);
    let data = b"Hello, World!";
    buffer.write(0, data).expect("Write failed");
    let read = buffer.read(0, data.len()).expect("Read failed");
    assert_eq!(read, data);
}

#[test]
fn write_past_the_end_is_refused() {
    let mut buffer = BoundedBuffer::new(8, 1);
    assert!(buffer.write(4, b"12345").is_err());
    assert!(buffer.read(6, 3).is_err());
    assert_eq!(buffer.read(0, 8).unwrap(), vec![0; 8]);
}

#[test]
fn test_integrity_hash() {
    let buffer = BoundedBuffer::new(512, 1);
    let hash1 = buffer.compute_integrity_hash();
    let hash2 = buffer.compute_integrity_hash();
    assert_eq!(hash1, hash2);
}

#[test]
fn integrity_hash_is_the_digest_of_the_block() {
    let mut buffer = BoundedBuffer::new(4, 1);
    buffer.write(1, &[7, 8]).unwrap();
    let expected = blake3::hash(&[0, 7, 8, 0]).to_hex().to_string();
    assert_eq!(buffer.compute_integrity_hash(), expected);
    assert_eq!(buffer.verify_integrity(&expected).unwrap(), true);
    assert!(buffer.verify_integrity("00").is_err());
    assert_eq!(buffer.stats().integrity_violations, 1);
}

#[test]
fn test_ring_buffer_creation() {
    let rb = RingBuffer::new(256, 1).expect("Creation failed");
    let stats = rb.stats();
    assert_eq!(stats.capacity, 256);
}

#[test]
fn test_ring_buffer_write_read() {
    let mut rb = RingBuffer::new(256, 1).expect("Creation failed");
    let data = b"Test data";
    let written = rb.write(data).expect("Write failed");
    assert_eq!(written, data.len());

    let read = rb.read(10).expect("Read failed");
    assert_eq!(read, data);
}

#[test]
fn test_ring_buffer_wraparound() {
    let mut rb = RingBuffer::new(64, 1).expect("Creation failed");

    let data = [0u8; 50];
    rb.write(&data).expect("First write failed");

    rb.read(30).expect("First read failed");

    rb.write(&data[..30]).expect("Second write failed");

    let read_data = rb.read(100).expect("Final read failed");
    assert!(!read_data.is_empty());
}

#[test]
fn ring_buffer_keeps_order_across_the_wrap() {
    let mut rb = RingBuffer::new(8, 1).unwrap();
    rb.write(&[1, 2, 3, 4, 5, 6]).unwrap();
    assert_eq!(rb.read(4).unwrap(), vec![1, 2, 3, 4]);
    rb.write(&[7, 8, 9, 10, 11]).unwrap();
    assert_eq!(rb.read(100).unwrap(), vec![5, 6, 7, 8, 9, 10, 11]);
    assert!(rb.read(1).unwrap().is_empty());
}

#[test]
fn ring_buffer_writes_what_fits() {
    let mut rb = RingBuffer::new(4, 1).unwrap();
    assert_eq!(rb.write(&[1, 2]).unwrap(), 2);
    assert_eq!(rb.write(&[3, 4, 5]).unwrap(), 1);
    assert_eq!(rb.read(10).unwrap(), vec![1, 2, 3]);
    assert_eq!(rb.write(&[]).unwrap(), 0);
}

#[test]
fn ring_buffer_refuses_what_does_not_fit() {
    let mut rb = RingBuffer::new(4, 1).unwrap();
    rb.write(&[1, 2, 3]).unwrap();
    assert!(rb.write(&[4, 5]).is_err());
    assert_eq!(rb.stats().overflow_count, 1);
    assert_eq!(rb.read(3).unwrap(), vec![1, 2, 3]);
}

#[test]
fn test_ring_buffer_invalid_capacity() {
    let result = RingBuffer::new(100, 1);
    assert!(result.is_err());
}

#[test]
fn test_checkpoint_creation_and_verification() {
    let data = vec![1, 2, 3, 4, 5];
    let cp = CheckpointRegion::create(1, data.clone(), 100);
    assert!(cp.verify().unwrap());
    assert_eq!(cp.sequence, 100);
    assert_eq!(cp.data, data);
}

#[test]
fn test_checkpoint_corruption_detection() {
    let data = vec![1, 2, 3, 4, 5];
    let mut cp = CheckpointRegion::create(1, data, 100);
    cp.hash = "invalid_hash".to_string();
    assert!(cp.verify().is_err());
}

#[test]
fn test_memory_manager_creation() {
    let mm = MemoryManager::new(4096);
    let stats = mm.stats();
    assert_eq!(stats.total_memory, 4096);
    assert_eq!(stats.allocated, 0);
}

#[test]
fn test_memory_manager_add_buffer() {
    let mut mm = MemoryManager::new(4096);
    let _buffer = mm.add_bounded_buffer(1024, 1).expect("Add buffer failed");
    let stats = mm.stats();
    assert_eq!(stats.buffer_count, 1);
}

#[test]
fn test_memory_manager_exhaustion() {
    let mut mm = MemoryManager::new(512);
    mm.add_bounded_buffer(256, 1).expect("First buffer failed");
    mm.add_bounded_buffer(256, 2).expect("Second buffer failed");

    let result = mm.add_bounded_buffer(256, 3);
    assert!(result.is_err());
}

#[test]
fn test_memory_manager_checkpoint() {
    let mut mm = MemoryManager::new(4096);
    let data = vec![42; 256];
    mm.checkpoint(1, data.clone(), 1).expect("Checkpoint failed");

    let restored = mm.restore_checkpoint(1).expect("Restore failed");
    assert_eq!(restored, data);
}

#[test]
fn test_buffer_reset() {
    let mut buffer = BoundedBuffer::new(256, 1);
    buffer.allocate(128).expect("Allocation failed");
    assert_eq!(buffer.current_watermark(), 128);

    buffer.reset();
    assert_eq!(buffer.current_watermark(), 0);
}

#[test]
fn test_ring_buffer_reset() {
    let mut rb = RingBuffer::new(256, 1).expect("Creation failed");
    rb.write(b"test").expect("Write failed");

    rb.reset();
    assert_eq!(rb.available_read(), 0);
}

#[test]
fn test_multiple_bounded_buffers() {
    let mut b1 = BoundedBuffer::new(512, 1);
    let mut b2 = BoundedBuffer::new(512, 2);
    let mut b3 = BoundedBuffer::new(512, 3);

    b1.allocate(256).expect("B1 allocation failed");
    b2.allocate(128).expect("B2 allocation failed");
    b3.allocate(384).expect("B3 allocation failed");

    assert_eq!(b1.current_watermark(), 256);
    assert_eq!(b2.current_watermark(), 128);
    assert_eq!(b3.current_watermark(), 384);
}

#[test]
fn memory_test_deterministic_hashing() {
    let mut buffer = BoundedBuffer::new(512, 1);
    buffer.write(0, b"constant data").expect("Write failed");

    let hash1 = buffer.compute_integrity_hash();
    let hash2 = buffer.compute_integrity_hash();
    let hash3 = buffer.compute_integrity_hash();

    assert_eq!(hash1, hash2);
    assert_eq!(hash2, hash3);
}

#[test]
fn test_ring_buffer_sequential_operations() {
    let mut rb = RingBuffer::new(256, 1).expect("Creation failed");

    for i in 0..5 {
        let data = vec![i as u8; 32];
        rb.write(&data).expect("Write failed");
    }

    for _ in 0..5 {
        let read = rb.read(32).expect("Read failed");
        assert_eq!(read.len(), 32);
    }
}

#[test]
fn test_memory_manager_multiple_ring_buffers() {
    let mut mm = MemoryManager::new(4096);

    let rb1 = mm.add_ring_buffer(512, 1).expect("RB1 creation failed");
    let rb2 = mm.add_ring_buffer(512, 2).expect("RB2 creation failed");
    let rb3 = mm.add_ring_buffer(512, 3).expect("RB3 creation failed");

    mm.write_ring(rb1, b"data1").expect("RB1 write failed");
    mm.write_ring(rb2, b"data2").expect("RB2 write failed");
    mm.write_ring(rb3, b"data3").expect("RB3 write failed");

    assert_eq!(mm.ring_buffer(rb1).available_read(), 5);
    assert_eq!(mm.ring_buffer(rb2).available_read(), 5);
    assert_eq!(mm.ring_buffer(rb3).available_read(), 5);
}

#[test]
fn test_checkpoint_sequence_ordering() {
    let mut mm = MemoryManager::new(4096);

    mm.checkpoint(1, vec![1], 1).expect("CP1 failed");
    mm.checkpoint(2, vec![2], 2).expect("CP2 failed");
    mm.checkpoint(3, vec![3], 3).expect("CP3 failed");

    assert!(mm.restore_checkpoint(1).is_ok());
    assert!(mm.restore_checkpoint(2).is_ok());
    assert!(mm.restore_checkpoint(3).is_ok());
    assert!(mm.restore_checkpoint(999).is_err());
}

#[test]
fn test_bounded_buffer_stats() {
    let mut buffer = BoundedBuffer::new(512, 1);
    buffer.allocate(100).expect("Allocation failed");

    let stats = buffer.stats();
    assert_eq!(stats.capacity, 512);
    assert_eq!(stats.allocation_count, 1);
}

#[test]
fn manager_allocates_through_handles() {
    let mut mm = MemoryManager::new(1024);
    let h = mm.add_bounded_buffer(128, 1).unwrap();
    assert_eq!(mm.allocate(h, 100).unwrap().len(), 100);
    assert!(mm.allocate(h, 29).is_err());
    assert_eq!(mm.bounded_buffer(h).current_watermark(), 100);
    let r = mm.add_ring_buffer(16, 2).unwrap();
    mm.write_ring(r, &[1, 2, 3]).unwrap();
    assert_eq!(mm.read_ring(r, 2).unwrap(), vec![1, 2]);
    assert_eq!(mm.stats().allocated, 100);
    assert_eq!(mm.stats().available, 924);
}

#[test]
fn ring_hands_out_bytes_in_the_order_written() {
    let mut rb = RingBuffer::new(8, 1).unwrap();
    assert_eq!(rb.write(b"abc").unwrap(), 3);
    assert_eq!(rb.write(b"defgh").unwrap(), 4);
    assert_eq!(rb.read(2).unwrap(), b"ab".to_vec());
    assert_eq!(rb.write(b"xyz").unwrap(), 2);
    assert_eq!(rb.read(100).unwrap(), b"cdefgxy".to_vec());
    assert_eq!(rb.write(b"12").unwrap(), 2);
    rb.reset();
    assert_eq!(rb.available_read(), 0);
    assert_eq!(rb.write(b"9").unwrap(), 1);
    assert_eq!(rb.read(5).unwrap(), b"9".to_vec());
}
