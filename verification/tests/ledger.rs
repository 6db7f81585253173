use orbital::orbital_ledger::{Event, EventLedger, LedgerError};
use serde_json::Value;

/// The compact JSON text of `{key: value}`.
fn payload(key: &str, value: Value) -> String {
    let mut map = serde_json::Map::new();
    map.insert(key.to_string(), value);
    serde_json::to_string(&Value::Object(map)).unwrap()
}

fn empty_payload() -> String {
    serde_json::to_string(&Value::Object(serde_json::Map::new())).unwrap()
}

#[test]
fn test_ledger_creation() {
    let ledger = EventLedger::new();
    let stats = ledger.stats();
    assert_eq!(stats.total_events, 0);
    assert!(!stats.corrupted);
}

#[test]
fn test_append_event() {
    let mut ledger = EventLedger::new();
    let event = ledger.append("test_event".to_string(), payload("value", Value::from(42))).expect("Append failed");

    assert_eq!(event.sequence, 0);
    assert_eq!(event.event_type, "test_event");
}

#[test]
fn test_get_event() {
    let mut ledger = EventLedger::new();
    ledger.append("event1".to_string(), payload("data", Value::from("test"))).expect("Append failed");

    let retrieved = ledger.get_event(0).expect("Get failed");
    assert_eq!(retrieved.sequence, 0);
    assert_eq!(retrieved.event_type, "event1");
}

#[test]
fn lib_test_sequence_ordering() {
    let mut ledger = EventLedger::new();

    for i in 0..5 {
        let event = ledger.append("event".to_string(), payload("index", Value::from(i))).expect("Append failed");
        assert_eq!(event.sequence, i as u64);
    }

    let stats = ledger.stats();
    assert_eq!(stats.total_events, 5);
}

#[test]
fn test_hash_chain_verification() {
    let mut ledger = EventLedger::new();

    for i in 0..10 {
        ledger.append("event".to_string(), payload("value", Value::from(i))).ok();
    }

    assert!(ledger.verify_chain().is_ok());
}

#[test]
fn test_checkpoint_creation() {
    let mut ledger = EventLedger::new();

    for i in 0..5 {
        ledger.append("event".to_string(), payload("value", Value::from(i))).ok();
    }

    ledger.checkpoint("cp1".to_string()).expect("Checkpoint failed");
    let stats = ledger.stats();
    assert_eq!(stats.checkpoint_count, 1);
}

#[test]
fn test_checkpoint_restore() {
    let mut ledger = EventLedger::new();

    for i in 0..5 {
        ledger.append("event".to_string(), payload("value", Value::from(i))).ok();
    }

    ledger.checkpoint("cp1".to_string()).ok();
    let sequence = ledger.restore_checkpoint("cp1").expect("Restore failed");
    assert_eq!(sequence, 5);
}

#[test]
fn test_readonly_mode() {
    let mut ledger = EventLedger::new();
    ledger.append("event".to_string(), empty_payload()).ok();

    ledger.set_readonly(true);
    let result = ledger.append("event2".to_string(), empty_payload());
    assert!(result.is_err());
}

#[test]
fn test_replay_to_sequence() {
    let mut ledger = EventLedger::new();

    for i in 0..10 {
        ledger.append("event".to_string(), payload("value", Value::from(i))).ok();
    }

    let replayed = ledger.replay_to(5).expect("Replay failed");
    assert_eq!(replayed.len(), 5);
}

#[test]
fn replay_past_the_end_is_refused() {
    let mut ledger = EventLedger::new();
    for i in 0..3 {
        ledger.append("event".to_string(), payload("value", Value::from(i))).ok();
    }
    match ledger.replay_to(4) {
        Err(LedgerError::ReplayError { reason }) => {
            assert_eq!(reason, "Target sequence 4 exceeds ledger length 3");
        }
        other => panic!("unexpected {:?}", other),
    }
    assert_eq!(ledger.replay_to(3).unwrap().len(), 3);
}

#[test]
fn test_all_events() {
    let mut ledger = EventLedger::new();

    for i in 0..5 {
        ledger.append("event".to_string(), payload("value", Value::from(i))).ok();
    }

    let all = ledger.all_events().expect("All events failed");
    assert_eq!(all.len(), 5);
}

#[test]
fn ledger_test_deterministic_hashing() {
    let mut ledger = EventLedger::new();
    let p = payload("test", Value::from("data"));

    let event1 = ledger.append("event".to_string(), p.clone()).unwrap();
    let hash1 = event1.hash.clone();

    let event2 = ledger.get_event(0).unwrap();
    assert_eq!(hash1, event2.hash);
}

#[test]
fn test_multiple_events_chain() {
    let mut ledger = EventLedger::new();

    let e1 = ledger.append("e1".to_string(), payload("n", Value::from(1))).unwrap();
    let e2 = ledger.append("e2".to_string(), payload("n", Value::from(2))).unwrap();
    let e3 = ledger.append("e3".to_string(), payload("n", Value::from(3))).unwrap();

    assert_eq!(e2.prev_hash, e1.hash);
    assert_eq!(e3.prev_hash, e2.hash);
}

#[test]
fn first_event_links_to_the_genesis_digest() {
    let mut ledger = EventLedger::new();
    let e = ledger.append("e".to_string(), empty_payload()).unwrap();
    assert_eq!(e.prev_hash, blake3::hash(b"genesis").to_hex().to_string());
}

#[test]
fn test_event_hash_verification() {
    let mut ledger = EventLedger::new();
    let event = ledger.append("test".to_string(), payload("data", Value::from("test"))).unwrap();

    assert!(event.verify_hash().is_ok());
}

#[test]
fn tampered_event_fails_verification() {
    let mut ledger = EventLedger::new();
    let mut event = ledger.append("test".to_string(), payload("data", Value::from("test"))).unwrap();
    event.payload = payload("data", Value::from("changed"));
    match event.verify_hash() {
        Err(LedgerError::CorruptionDetected { detail }) => {
            assert_eq!(detail, "Event hash mismatch at sequence 0");
        }
        other => panic!("unexpected {:?}", other),
    }
}

#[test]
fn event_digest_covers_its_fields() {
    let e = Event::new_at(3, "prev".to_string(), "kind".to_string(), "{}".to_string(), 7);
    let mut bytes = Vec::new();
    bytes.extend_from_slice(&3u64.to_le_bytes());
    bytes.extend_from_slice(b"prev");
    bytes.extend_from_slice(&7u64.to_le_bytes());
    bytes.extend_from_slice(b"kind");
    bytes.extend_from_slice(b"{}");
    assert_eq!(e.hash, blake3::hash(&bytes).to_hex().to_string());
    assert_eq!(e.timestamp, 7);
}

#[test]
fn test_ledger_stats() {
    let mut ledger = EventLedger::new();

    for i in 0..7 {
        ledger.append("event".to_string(), payload("n", Value::from(i))).ok();
    }

    let stats = ledger.stats();
    assert_eq!(stats.total_events, 7);
    assert!(!stats.readonly);
    assert!(!stats.corrupted);
}

#[test]
fn test_multiple_checkpoints() {
    let mut ledger = EventLedger::new();

    for i in 0..10 {
        ledger.append("event".to_string(), payload("n", Value::from(i))).ok();
        if i % 3 == 0 {
            ledger.checkpoint(format!("cp{}", i)).ok();
        }
    }

    let stats = ledger.stats();
    assert_eq!(stats.checkpoint_count, 4);
}

#[test]
fn test_event_not_found() {
    let ledger = EventLedger::new();
    let result = ledger.get_event(999);
    assert!(result.is_err());
}

#[test]
fn test_checkpoint_not_found() {
    let ledger = EventLedger::new();
    let result = ledger.restore_checkpoint("nonexistent");
    assert!(result.is_err());
}

#[test]
fn test_large_payload() {
    let mut ledger = EventLedger::new();
    let large_payload = payload("data", Value::from("x".repeat(10000)));

    let event = ledger.append("large".to_string(), large_payload).unwrap();
    assert!(event.verify_hash().is_ok());
}

#[test]
fn test_readonly_prevents_append() {
    let mut ledger = EventLedger::new();
    ledger.set_readonly(true);

    let result = ledger.append("event".to_string(), empty_payload());
    assert!(result.is_err());
}

#[test]
fn import_checks_every_event() {
    let mut ledger = EventLedger::new();
    let e = ledger.append("e".to_string(), empty_payload()).unwrap();
    let mut bad = e.duplicate();
    bad.hash = "00".to_string();
    assert!(ledger.import_parsed(Ok(vec![Ok(e.duplicate())])).is_ok());
    assert!(matches!(
        ledger.import_parsed(Ok(vec![Ok(e.duplicate()), Ok(bad)])),
        Err(LedgerError::CorruptionDetected { .. })
    ));
    assert!(matches!(
        ledger.import_parsed(Err("bad json".to_string())),
        Err(LedgerError::SerializationError { .. })
    ));
    ledger.set_readonly(true);
    assert!(matches!(ledger.import_parsed(Ok(vec![])), Err(LedgerError::LedgerLocked { .. })));
}
