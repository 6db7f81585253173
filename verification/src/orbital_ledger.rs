//! An append-only event ledger whose events are chained by BLAKE3 digests,
//! with checkpoints, replay and verified import.

use crate::bytes::{le_bytes, push_all, push_le};
use crate::clock::unix_time_secs;
use crate::digest::{blake3_digest, blake3_hex, hex_lower};
use crate::text::{decimal, push_decimal};
use vstd::prelude::*;
use vstd::utf8::encode_utf8;

verus! {

#[derive(Clone, Debug)]
pub enum LedgerError {
    SequenceViolation { expected: u64, actual: u64 },
    HashChainBroken { sequence: u64 },
    EventNotFound { sequence: u64 },
    CheckpointNotFound { checkpoint_id: String },
    CorruptionDetected { detail: String },
    ReplayError { reason: String },
    SerializationError { reason: String },
    LedgerLocked { reason: String },
}

/// The bytes an event's digest covers: its sequence and timestamp as
/// little-endian 64-bit integers, and the UTF-8 of its previous hash, type
/// and JSON payload, in the order sequence, previous hash, timestamp, type,
/// payload.
pub open spec fn event_preimage(
    sequence: u64,
    prev_hash: Seq<char>,
    timestamp: u64,
    event_type: Seq<char>,
    payload: Seq<char>,
) -> Seq<u8> {
    le_bytes(sequence as nat, 8) + encode_utf8(prev_hash) + le_bytes(timestamp as nat, 8)
        + encode_utf8(event_type) + encode_utf8(payload)
}

/// The digest an event with these fields carries.
pub open spec fn event_hash(
    sequence: u64,
    prev_hash: Seq<char>,
    timestamp: u64,
    event_type: Seq<char>,
    payload: Seq<char>,
) -> Seq<char> {
    hex_lower(blake3_digest(event_preimage(sequence, prev_hash, timestamp, event_type, payload)))
}

/// The digest the first event links to.
pub open spec fn genesis() -> Seq<char> {
    hex_lower(blake3_digest(encode_utf8("genesis"@)))
}

/// A single event of the ledger.
#[derive(Debug, Clone)]
pub struct Event {
    pub sequence: u64,
    /// Digest of the previous event, or of "genesis" for the first.
    pub prev_hash: String,
    pub timestamp: u64,
    pub event_type: String,
    /// The payload as JSON text.
    pub payload: String,
    /// Digest of this event.
    pub hash: String,
}

impl Event {
    /// Whether the event carries the digest of its own fields.
    pub open spec fn sealed(&self) -> bool {
        self.hash@ == event_hash(
            self.sequence,
            self.prev_hash@,
            self.timestamp,
            self.event_type@,
            self.payload@,
        )
    }

    /// The digest of the fields.
    fn compute_hash(sequence: u64, prev_hash: &str, timestamp: u64, event_type: &str, payload: &str) -> (h: String)
        ensures
            h@ == event_hash(sequence, prev_hash@, timestamp, event_type@, payload@),
    {
        let mut bytes: Vec<u8> = Vec::new();
        push_le(&mut bytes, sequence, 8);
        push_all(&mut bytes, prev_hash.as_bytes());
        push_le(&mut bytes, timestamp, 8);
        push_all(&mut bytes, event_type.as_bytes());
        push_all(&mut bytes, payload.as_bytes());
        proof {
            assert(bytes@ =~= event_preimage(sequence, prev_hash@, timestamp, event_type@, payload@));
        }
        blake3_hex(bytes.as_slice())
    }

    /// An event stamped `now` and sealed with the digest of its fields.
    pub fn new_at(sequence: u64, prev_hash: String, event_type: String, payload: String, now: u64) -> (e: Self)
        ensures
            e.sequence == sequence,
            e.prev_hash@ == prev_hash@,
            e.timestamp == now,
            e.event_type@ == event_type@,
            e.payload@ == payload@,
            e.sealed(),
    {
        let hash = Self::compute_hash(
            sequence,
            prev_hash.as_str(),
            now,
            event_type.as_str(),
            payload.as_str(),
        );
        Event { sequence, prev_hash, timestamp: now, event_type, payload, hash }
    }

    /// An event stamped with the current time and sealed.
    pub fn new(sequence: u64, prev_hash: String, event_type: String, payload: String) -> (e: Self)
        ensures
            e.sequence == sequence,
            e.prev_hash@ == prev_hash@,
            e.event_type@ == event_type@,
            e.payload@ == payload@,
            e.sealed(),
    {
        Self::new_at(sequence, prev_hash, event_type, payload, unix_time_secs())
    }

    /// Checks the event's digest against its fields.
    pub fn verify_hash(&self) -> (r: Result<bool, LedgerError>)
        ensures
            self.sealed() ==> r == Ok::<bool, LedgerError>(true),
            !self.sealed() ==> (r matches Err(LedgerError::CorruptionDetected { detail }) && detail@
                == "Event hash mismatch at sequence "@ + decimal(self.sequence as nat)),
    {
        let computed = Self::compute_hash(
            self.sequence,
            self.prev_hash.as_str(),
            self.timestamp,
            self.event_type.as_str(),
            self.payload.as_str(),
        );
        if computed != self.hash {
            let mut detail = "Event hash mismatch at sequence ".to_owned();
            push_decimal(&mut detail, self.sequence);
            return Err(LedgerError::CorruptionDetected { detail });
        }
        Ok(true)
    }

    /// A copy of the event.
    pub fn duplicate(&self) -> (e: Self)
        ensures
            e.sequence == self.sequence,
            e.prev_hash@ == self.prev_hash@,
            e.timestamp == self.timestamp,
            e.event_type@ == self.event_type@,
            e.payload@ == self.payload@,
            e.hash@ == self.hash@,
    {
        Event {
            sequence: self.sequence,
            prev_hash: self.prev_hash.clone(),
            timestamp: self.timestamp,
            event_type: self.event_type.clone(),
            payload: self.payload.clone(),
            hash: self.hash.clone(),
        }
    }
}

/// The mathematical value of an event.
pub struct EventView {
    pub sequence: u64,
    pub prev_hash: Seq<char>,
    pub timestamp: u64,
    pub event_type: Seq<char>,
    pub payload: Seq<char>,
    pub hash: Seq<char>,
}

impl View for Event {
    type V = EventView;

    open spec fn view(&self) -> EventView {
        EventView {
            sequence: self.sequence,
            prev_hash: self.prev_hash@,
            timestamp: self.timestamp,
            event_type: self.event_type@,
            payload: self.payload@,
            hash: self.hash@,
        }
    }
}

/// A recovery point of the ledger.
#[derive(Debug, Clone)]
pub struct Checkpoint {
    pub id: String,
    pub sequence: u64,
    pub timestamp: u64,
    /// Digest of the last hash followed by the sequence (little-endian).
    pub state_hash: String,
}

/// Ledger statistics.
#[derive(Debug, Clone, Copy)]
pub struct LedgerStats {
    pub total_events: u64,
    pub readonly: bool,
    pub corrupted: bool,
    pub checkpoint_count: usize,
}

/// A well-formed chain: each event carries its index and its own digest,
/// and links to the digest before it, the first to the genesis digest.
pub open spec fn chain_ok(events: Seq<EventView>) -> bool {
    forall|i: int| 0 <= i < events.len() ==> #[trigger] link_ok(events, i)
}

pub open spec fn link_ok(events: Seq<EventView>, i: int) -> bool {
    &&& events[i].sequence == i
    &&& links_back(events, i)
    &&& event_sealed(events[i])
}

/// Event `i` links to the digest before it, the first to the genesis digest.
pub open spec fn links_back(events: Seq<EventView>, i: int) -> bool {
    events[i].prev_hash == (if i == 0 {
        genesis()
    } else {
        events[i - 1].hash
    })
}

/// The event carries the digest of its own fields.
pub open spec fn event_sealed(e: EventView) -> bool {
    e.hash == event_hash(e.sequence, e.prev_hash, e.timestamp, e.event_type, e.payload)
}

/// What walking the chain answers: the first event that does not link back
/// breaks the chain, the first that is not sealed is corrupt.
pub open spec fn chain_verdict(events: Seq<EventView>, i: int, r: Result<bool, LedgerError>) -> bool {
    &&& 0 <= i < events.len()
    &&& forall|j: int| 0 <= j < i ==> #[trigger] links_back(events, j) && event_sealed(events[j])
    &&& if !links_back(events, i) {
        r matches Err(LedgerError::HashChainBroken { sequence }) && sequence == events[i].sequence
    } else {
        &&& !event_sealed(events[i])
        &&& r matches Err(LedgerError::CorruptionDetected { detail })
        &&& detail@ == "Event hash mismatch at sequence "@ + decimal(events[i].sequence as nat)
    }
}

/// The digest the next event links to.
pub open spec fn head_hash(events: Seq<EventView>) -> Seq<char> {
    if events.len() == 0 {
        genesis()
    } else {
        events.last().hash
    }
}

/// The values of a sequence of events.
pub open spec fn views_of(events: Seq<Event>) -> Seq<EventView> {
    Seq::new(events.len(), |i: int| events[i]@)
}

/// The mathematical state of a ledger.
pub struct LedgerView {
    pub events: Seq<EventView>,
    pub checkpoints: Seq<Checkpoint>,
    pub readonly: bool,
    pub corrupted: bool,
}

/// An append-only, hash-chained event ledger.
pub struct EventLedger {
    events: Vec<Event>,
    sequence: u64,
    last_hash: String,
    checkpoints: Vec<Checkpoint>,
    readonly: bool,
    corrupted: bool,
}

impl View for EventLedger {
    type V = LedgerView;

    closed spec fn view(&self) -> LedgerView {
        LedgerView {
            events: views_of(self.events@),
            checkpoints: self.checkpoints@,
            readonly: self.readonly,
            corrupted: self.corrupted,
        }
    }
}

impl EventLedger {
    /// Built by appends: the chain is well formed, the counter and the
    /// last hash follow the events.
    pub closed spec fn wf(&self) -> bool {
        &&& chain_ok(self@.events)
        &&& self.sequence == self.events@.len()
        &&& self.last_hash@ == head_hash(self@.events)
    }

    pub broadcast proof fn lemma_wf(&self)
        requires
            #[trigger] self.wf(),
        ensures
            chain_ok(self@.events),
            self@.events.len() <= u64::MAX,
    {
    }

    /// The digest that the first event links to.
    fn genesis_hash() -> (h: String)
        ensures
            h@ == genesis(),
    {
        blake3_hex("genesis".as_bytes())
    }

    /// An empty, writable ledger.
    pub fn new() -> (l: Self)
        ensures
            l.wf(),
            l@ == (LedgerView {
                events: Seq::empty(),
                checkpoints: Seq::empty(),
                readonly: false,
                corrupted: false,
            }),
    {
        let l = EventLedger {
            events: Vec::new(),
            sequence: 0,
            last_hash: Self::genesis_hash(),
            checkpoints: Vec::new(),
            readonly: false,
            corrupted: false,
        };
        proof {
            assert(l@.events =~= Seq::empty());
        }
        l
    }

    /// Appends an event linked to the last one and answers it. Refused on
    /// a read-only or corrupted ledger.
    pub fn append(&mut self, event_type: String, payload: String) -> (r: Result<Event, LedgerError>)
        requires
            old(self).wf(),
            old(self)@.events.len() < u64::MAX,
        ensures
            final(self).wf(),
            old(self)@.readonly ==> {
                &&& r matches Err(LedgerError::LedgerLocked { reason })
                &&& reason@ == "Ledger is read-only"@
                &&& final(self)@ == old(self)@
            },
            !old(self)@.readonly && old(self)@.corrupted ==> {
                &&& r matches Err(LedgerError::CorruptionDetected { detail })
                &&& detail@ == "Ledger is corrupted"@
                &&& final(self)@ == old(self)@
            },
            !old(self)@.readonly && !old(self)@.corrupted ==> {
                &&& r matches Ok(e)
                &&& e.sequence == old(self)@.events.len()
                &&& e.prev_hash@ == head_hash(old(self)@.events)
                &&& e.event_type@ == event_type@
                &&& e.payload@ == payload@
                &&& e.sealed()
                &&& final(self)@ == (LedgerView {
                    events: old(self)@.events.push(e@),
                    ..old(self)@
                })
            },
    {
        if self.readonly {
            return Err(LedgerError::LedgerLocked { reason: "Ledger is read-only".to_owned() });
        }
        if self.corrupted {
            return Err(LedgerError::CorruptionDetected { detail: "Ledger is corrupted".to_owned() });
        }
        let sequence = self.sequence;
        self.sequence = sequence + 1;
        let prev_hash = self.last_hash.clone();
        let event = Event::new(sequence, prev_hash, event_type, payload);
        if let Err(e) = event.verify_hash() {
            return Err(e);
        }
        let stored = event.duplicate();
        self.events.push(stored);
        self.last_hash = event.hash.clone();
        proof {
            let evs = self@.events;
            assert(evs =~= old(self)@.events.push(event@));
            assert forall|i: int| 0 <= i < evs.len() implies #[trigger] link_ok(evs, i) by {
                if i < evs.len() - 1 {
                    assert(link_ok(old(self)@.events, i));
                }
            }
        }
        Ok(event)
    }

    /// The event at `sequence`, once its digest is confirmed.
    pub fn get_event(&self, sequence: u64) -> (r: Result<Event, LedgerError>)
        requires
            self.wf(),
        ensures
            sequence >= self@.events.len() ==> (r matches Err(LedgerError::EventNotFound { sequence: s })
                && s == sequence),
            sequence < self@.events.len() ==> (r matches Ok(e) && e@ == self@.events[sequence as int]),
    {
        if sequence >= self.events.len() as u64 {
            return Err(LedgerError::EventNotFound { sequence });
        }
        let event = self.events[sequence as usize].duplicate();
        proof {
            assert(link_ok(self@.events, sequence as int));
        }
        if let Err(e) = event.verify_hash() {
            return Err(e);
        }
        Ok(event)
    }

    /// Walks the chain from the genesis digest, checking every link and
    /// every event's digest: passes exactly when every event links back and
    /// is sealed, and otherwise answers the first event that does not; a
    /// well-formed ledger always passes.
    pub fn verify_chain(&self) -> (r: Result<bool, LedgerError>)
        ensures
            (forall|i: int| 0 <= i < self@.events.len() ==> #[trigger] links_back(self@.events, i)
                && event_sealed(self@.events[i])) <==> r == Ok::<bool, LedgerError>(true),
            r is Ok ==> r == Ok::<bool, LedgerError>(true),
            r is Err ==> exists|i: int| chain_verdict(self@.events, i, r),
            chain_ok(self@.events) ==> r == Ok::<bool, LedgerError>(true),
    {
        let mut expected_prev = Self::genesis_hash();
        let mut i: usize = 0;
        while i < self.events.len()
            invariant
                i <= self.events@.len(),
                expected_prev@ == (if i == 0 {
                    genesis()
                } else {
                    self@.events[i - 1].hash
                }),
                forall|j: int| 0 <= j < i ==> #[trigger] links_back(self@.events, j) && event_sealed(self@.events[j]),
            decreases self.events@.len() - i,
        {
            let event = &self.events[i];
            proof {
                assert(self@.events[i as int] == event@);
            }
            if event.prev_hash != expected_prev {
                proof {
                    assert(chain_verdict(self@.events, i as int, Err(LedgerError::HashChainBroken { sequence: event.sequence })));
                    if chain_ok(self@.events) {
                        assert(link_ok(self@.events, i as int));
                    }
                }
                return Err(LedgerError::HashChainBroken { sequence: event.sequence });
            }
            match event.verify_hash() {
                Err(e) => {
                    proof {
                        assert(chain_verdict(self@.events, i as int, Err(e)));
                        if chain_ok(self@.events) {
                            assert(link_ok(self@.events, i as int));
                        }
                    }
                    return Err(e);
                },
                Ok(_) => {
                    proof {
                        assert(event.sealed());
                        assert(event_sealed(self@.events[i as int]));
                        assert(links_back(self@.events, i as int));
                    }
                },
            }
            let ghost at: int = i as int;
            expected_prev = event.hash.clone();
            i = i + 1;
            proof {
                assert(links_back(self@.events, at) && event_sealed(self@.events[at]));
                assert forall|j: int| 0 <= j < i implies #[trigger] links_back(self@.events, j)
                    && event_sealed(self@.events[j]) by {
                    if j < at {
                        assert(links_back(self@.events, j));
                    }
                }
            }
        }
        proof {
            if chain_ok(self@.events) {
                assert forall|j: int| 0 <= j < self@.events.len() implies #[trigger] links_back(self@.events, j)
                    && event_sealed(self@.events[j]) by {
                    assert(link_ok(self@.events, j));
                }
            }
        }
        Ok(true)
    }

    /// Records a checkpoint at the current sequence, sealed with the digest
    /// of the last hash and the sequence, stamped `now`.
    pub fn checkpoint_at(&mut self, checkpoint_id: String, now: u64) -> (r: Result<(), LedgerError>)
        requires
            old(self).wf(),
        ensures
            final(self).wf(),
            r is Ok,
            final(self)@ == (LedgerView {
                checkpoints: old(self)@.checkpoints.push(final(self)@.checkpoints.last()),
                ..old(self)@
            }),
            final(self)@.checkpoints.last().id@ == checkpoint_id@,
            final(self)@.checkpoints.last().sequence == old(self)@.events.len(),
            final(self)@.checkpoints.last().timestamp == now,
            final(self)@.checkpoints.last().state_hash@ == hex_lower(
                blake3_digest(
                    encode_utf8(head_hash(old(self)@.events)) + le_bytes(old(self)@.events.len(), 8),
                ),
            ),
    {
        let sequence = self.sequence;
        let mut bytes: Vec<u8> = Vec::new();
        push_all(&mut bytes, self.last_hash.as_str().as_bytes());
        push_le(&mut bytes, sequence, 8);
        let state_hash = blake3_hex(bytes.as_slice());
        self.checkpoints.push(Checkpoint { id: checkpoint_id, sequence, timestamp: now, state_hash });
        proof {
            assert(self@.checkpoints =~= old(self)@.checkpoints.push(self@.checkpoints.last()));
        }
        Ok(())
    }

    /// Records a checkpoint stamped with the current time.
    pub fn checkpoint(&mut self, checkpoint_id: String) -> (r: Result<(), LedgerError>)
        requires
            old(self).wf(),
        ensures
            final(self).wf(),
            r is Ok,
            final(self)@ == (LedgerView {
                checkpoints: old(self)@.checkpoints.push(final(self)@.checkpoints.last()),
                ..old(self)@
            }),
            final(self)@.checkpoints.last().id@ == checkpoint_id@,
            final(self)@.checkpoints.last().sequence == old(self)@.events.len(),
            final(self)@.checkpoints.last().state_hash@ == hex_lower(
                blake3_digest(
                    encode_utf8(head_hash(old(self)@.events)) + le_bytes(old(self)@.events.len(), 8),
                ),
            ),
    {
        self.checkpoint_at(checkpoint_id, unix_time_secs())
    }

    /// The sequence recorded by the first checkpoint named `checkpoint_id`.
    pub fn restore_checkpoint(&self, checkpoint_id: &str) -> (r: Result<u64, LedgerError>)
        ensures
            (forall|i: int| 0 <= i < self@.checkpoints.len() ==> #[trigger] self@.checkpoints[i].id@ != checkpoint_id@)
                ==> (r matches Err(LedgerError::CheckpointNotFound { checkpoint_id: c }) && c@
                == checkpoint_id@),
            forall|i: int|
                0 <= i < self@.checkpoints.len() && #[trigger] self@.checkpoints[i].id@ == checkpoint_id@
                    && (forall|j: int| 0 <= j < i ==> self@.checkpoints[j].id@ != checkpoint_id@)
                    ==> r == Ok::<u64, LedgerError>(self@.checkpoints[i].sequence),
    {
        let target = checkpoint_id.to_owned();
        let mut i: usize = 0;
        while i < self.checkpoints.len()
            invariant
                i <= self.checkpoints@.len(),
                target@ == checkpoint_id@,
                forall|j: int| 0 <= j < i ==> #[trigger] self.checkpoints@[j].id@ != checkpoint_id@,
            decreases self.checkpoints@.len() - i,
        {
            if self.checkpoints[i].id == target {
                assert(self@.checkpoints[i as int].id@ == checkpoint_id@);
                return Ok(self.checkpoints[i].sequence);
            }
            i = i + 1;
        }
        Err(LedgerError::CheckpointNotFound { checkpoint_id: target })
    }

    /// Copies of the events before `target_sequence`, once the chain is
    /// verified; refused past the end of the ledger.
    pub fn replay_to(&self, target_sequence: u64) -> (r: Result<Vec<Event>, LedgerError>)
        requires
            self.wf(),
        ensures
            target_sequence > self@.events.len() ==> (r matches Err(LedgerError::ReplayError { reason })
                && reason@ == "Target sequence "@ + decimal(target_sequence as nat)
                + " exceeds ledger length "@ + decimal(self@.events.len())),
            target_sequence <= self@.events.len() ==> (r matches Ok(v) && views_of(v@)
                == self@.events.take(target_sequence as int)),
    {
        if let Err(e) = self.verify_chain() {
            return Err(e);
        }
        if target_sequence > self.events.len() as u64 {
            let mut reason = "Target sequence ".to_owned();
            push_decimal(&mut reason, target_sequence);
            reason.append(" exceeds ledger length ");
            push_decimal(&mut reason, self.events.len() as u64);
            return Err(LedgerError::ReplayError { reason });
        }
        Ok(self.copy_events(target_sequence as usize))
    }

    /// Copies of the first `n` events.
    fn copy_events(&self, n: usize) -> (v: Vec<Event>)
        requires
            n <= self.events@.len(),
        ensures
            views_of(v@) == self@.events.take(n as int),
    {
        let mut out: Vec<Event> = Vec::new();
        let mut i: usize = 0;
        while i < n
            invariant
                i <= n <= self.events@.len(),
                views_of(out@) == self@.events.take(i as int),
            decreases n - i,
        {
            let e = self.events[i].duplicate();
            proof {
                assert(self@.events.take(i as int).len() == i);
                assert(views_of(out@).len() == i);
                assert(out@.len() == i);
                assert(e@ == self@.events[i as int]);
            }
            let ghost before = out@;
            out.push(e);
            i = i + 1;
            proof {
                assert(out@ == before.push(e));
                assert(views_of(out@).len() == i);
                assert(views_of(out@)[i - 1] == e@);
                assert(self@.events.take(i as int)[i - 1] == self@.events[i - 1]);
                assert forall|k: int| 0 <= k < i implies #[trigger] views_of(out@)[k] == self@.events.take(i as int)[k] by {
                    if k < i - 1 {
                        assert(out@[k] == before[k]);
                        assert(views_of(out@)[k] == views_of(before)[k]);
                        assert(views_of(before)[k] == self@.events.take(i - 1)[k]);
                    }
                }
                assert(views_of(out@) =~= self@.events.take(i as int));
            }
        }
        out
    }

    /// Copies of all events, once the chain is verified.
    pub fn all_events(&self) -> (r: Result<Vec<Event>, LedgerError>)
        requires
            self.wf(),
        ensures
            r matches Ok(v) && views_of(v@) == self@.events,
    {
        if let Err(e) = self.verify_chain() {
            return Err(e);
        }
        let v = self.copy_events(self.events.len());
        proof {
            assert(self@.events.take(self@.events.len() as int) =~= self@.events);
        }
        Ok(v)
    }

    /// Accepts events parsed from an export: refused on a read-only ledger,
    /// then the parse error or, in order, each event's parse error or digest
    /// mismatch is answered. The ledger itself is not changed.
    pub fn import_parsed(&self, parsed: Result<Vec<Result<Event, String>>, String>) -> (r: Result<(), LedgerError>)
        ensures
            self@.readonly ==> (r matches Err(LedgerError::LedgerLocked { reason }) && reason@
                == "Cannot import to read-only ledger"@),
            !self@.readonly ==> match parsed {
                Err(reason) => r matches Err(LedgerError::SerializationError { reason: got })
                    && got@ == reason@,
                Ok(events) => (r is Ok <==> forall|i: int| 0 <= i < events@.len() ==> (#[trigger] events@[i] matches Ok(e)
                    && e.sealed())),
            },
    {
        if self.readonly {
            return Err(
                LedgerError::LedgerLocked { reason: "Cannot import to read-only ledger".to_owned() },
            );
        }
        let events = match &parsed {
            Ok(events) => events,
            Err(reason) => {
                return Err(LedgerError::SerializationError { reason: reason.clone() });
            },
        };
        let mut i: usize = 0;
        while i < events.len()
            invariant
                !self@.readonly,
                parsed == Ok::<Vec<Result<Event, String>>, String>(*events),
                i <= events@.len(),
                forall|j: int| 0 <= j < i ==> (#[trigger] events@[j] matches Ok(e) && e.sealed()),
            decreases events@.len() - i,
        {
            match &events[i] {
                Ok(event) => {
                    if let Err(e) = event.verify_hash() {
                        proof {
                            assert(!(events@[i as int] matches Ok(e) && e.sealed()));
                        }
                        return Err(e);
                    }
                },
                Err(reason) => {
                    proof {
                        assert(!(events@[i as int] matches Ok(e) && e.sealed()));
                    }
                    return Err(LedgerError::SerializationError { reason: reason.clone() });
                },
            }
            i = i + 1;
        }
        Ok(())
    }

    /// The digest the next event will link to: the last event's, or the
    /// genesis digest while the ledger is empty.
    pub fn last_hash(&self) -> (h: String)
        requires
            self.wf(),
        ensures
            h@ == head_hash(self@.events),
    {
        self.last_hash.clone()
    }

    pub fn set_readonly(&mut self, readonly: bool)
        requires
            old(self).wf(),
        ensures
            final(self).wf(),
            final(self)@ == (LedgerView { readonly, ..old(self)@ }),
    {
        self.readonly = readonly;
    }

    pub fn stats(&self) -> (st: LedgerStats)
        requires
            self.wf(),
        ensures
            st.total_events == self@.events.len(),
            st.readonly == self@.readonly,
            st.corrupted == self@.corrupted,
            st.checkpoint_count == self@.checkpoints.len(),
    {
        LedgerStats {
            total_events: self.sequence,
            readonly: self.readonly,
            corrupted: self.corrupted,
            checkpoint_count: self.checkpoints.len(),
        }
    }
}

impl Default for EventLedger {
    fn default() -> (l: Self)
        ensures
            l.wf(),
            l@.events == Seq::<EventView>::empty(),
            l@.checkpoints == Seq::<Checkpoint>::empty(),
            !l@.readonly,
            !l@.corrupted,
    {
        Self::new()
    }
}

/// Every appended event links to the one before it: appending to a
/// well-formed chain an event that carries the next index, links to the
/// head digest and is sealed keeps the chain well formed.
pub proof fn law_append_keeps_chain(events: Seq<EventView>, e: EventView)
    requires
        chain_ok(events),
        e.sequence == events.len(),
        e.prev_hash == head_hash(events),
        e.hash == event_hash(e.sequence, e.prev_hash, e.timestamp, e.event_type, e.payload),
    ensures
        chain_ok(events.push(e)),
        head_hash(events.push(e)) == e.hash,
{
    let s = events.push(e);
    assert forall|i: int| 0 <= i < s.len() implies #[trigger] link_ok(s, i) by {
        if i < s.len() - 1 {
            assert(link_ok(events, i));
        }
    }
}

} // verus!
