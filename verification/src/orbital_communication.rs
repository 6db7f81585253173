//! Outbound messaging for intermittent links: a priority queue of
//! messages, compressed with zstd or gzip, sealed with a BLAKE3 digest and
//! tracked through acknowledgement, retry and failure.

use crate::bytes::copy_range;
use crate::clock::unix_time_secs;
use crate::codec::{
    gzip_compress, gzip_content, gzip_decompress, gzip_stream, zstd_compress, zstd_content,
    zstd_decompress, zstd_frame,
};
use crate::digest::{blake3_digest, blake3_hex, hex_lower};
use std::collections::BTreeMap;
use vstd::prelude::*;

verus! {

#[derive(Clone, Debug)]
pub enum CommunicationError {
    MessageNotFound { message_id: u64 },
    CompressionFailed { reason: String },
    DecompressionFailed { reason: String },
    IntegrityViolation { message_id: u64 },
    QueueFull { capacity: usize },
    InvalidCodec { codec: String },
    AcknowledgementTimeout { message_id: u64 },
}

#[derive(Debug, Clone, Copy, PartialEq, Eq, Structural)]
pub enum CompressionCodec {
    /// Sent as is.
    Uncompressed,
    Zstd,
    Gzip,
}

/// Message priority (0 = lowest, 255 = highest).
#[derive(Debug, Clone, Copy, PartialEq, Eq, PartialOrd, Ord, Structural)]
pub struct Priority(pub u8);

impl Priority {
    pub fn new(value: u8) -> (p: Self)
        ensures
            p.0 == value,
    {
        Priority(value)
    }

    pub fn critical() -> (p: Self)
        ensures
            p.0 == 255,
    {
        Priority(255)
    }

    pub fn high() -> (p: Self)
        ensures
            p.0 == 192,
    {
        Priority(192)
    }

    pub fn normal() -> (p: Self)
        ensures
            p.0 == 128,
    {
        Priority(128)
    }

    pub fn low() -> (p: Self)
        ensures
            p.0 == 64,
    {
        Priority(64)
    }
}

#[derive(Debug, Clone, Copy, PartialEq, Eq, Structural)]
pub enum TransmissionState {
    Queued,
    Compressing,
    Compressed,
    Transmitting,
    Transmitted,
    Acknowledged,
    Failed,
}

/// A message. Two messages are equal when their ids are.
#[derive(Debug, Clone)]
pub struct Message {
    pub id: u64,
    pub priority: Priority,
    pub payload: Vec<u8>,
    pub compressed: Option<Vec<u8>>,
    pub codec: CompressionCodec,
    /// BLAKE3 digest of the payload, in hexadecimal.
    pub hash: String,
    pub state: TransmissionState,
    pub timestamp: u64,
    pub retries: u32,
    pub max_retries: u32,
}

impl PartialEq for Message {
    fn eq(&self, other: &Self) -> (r: bool) {
        self.id == other.id
    }
}

impl vstd::std_specs::cmp::PartialEqSpecImpl for Message {
    open spec fn obeys_eq_spec() -> bool {
        true
    }

    open spec fn eq_spec(&self, other: &Self) -> bool {
        self.id == other.id
    }
}

impl Eq for Message {}

/// The mathematical value of a message.
pub struct MessageView {
    pub id: u64,
    pub priority: Priority,
    pub payload: Seq<u8>,
    pub compressed: Option<Seq<u8>>,
    pub codec: CompressionCodec,
    pub hash: Seq<char>,
    pub state: TransmissionState,
    pub timestamp: u64,
    pub retries: u32,
    pub max_retries: u32,
}

impl View for Message {
    type V = MessageView;

    open spec fn view(&self) -> MessageView {
        MessageView {
            id: self.id,
            priority: self.priority,
            payload: self.payload@,
            compressed: match self.compressed {
                Some(c) => Some(c@),
                None => None,
            },
            codec: self.codec,
            hash: self.hash@,
            state: self.state,
            timestamp: self.timestamp,
            retries: self.retries,
            max_retries: self.max_retries,
        }
    }
}

/// What a successful compression of `payload` with `codec` produces.
pub open spec fn compressed_form(codec: CompressionCodec, payload: Seq<u8>) -> Seq<u8> {
    match codec {
        CompressionCodec::Uncompressed => payload,
        CompressionCodec::Zstd => zstd_frame(payload),
        CompressionCodec::Gzip => gzip_stream(payload),
    }
}

/// What decompressing `data` with `codec` recovers, or `None` where the
/// codec fails on it.
pub open spec fn decompressed_form(codec: CompressionCodec, data: Seq<u8>) -> Option<Seq<u8>> {
    match codec {
        CompressionCodec::Uncompressed => Some(data),
        CompressionCodec::Zstd => zstd_content(data),
        CompressionCodec::Gzip => gzip_content(data),
    }
}

impl Message {
    /// A queued message created at `now`, sealed with the BLAKE3 digest of
    /// its payload, allowed three retries.
    pub fn new_at(id: u64, payload: Vec<u8>, priority: Priority, codec: CompressionCodec, now: u64) -> (m: Self)
        ensures
            m@ == (MessageView {
                id,
                priority,
                payload: payload@,
                compressed: None,
                codec,
                hash: hex_lower(blake3_digest(payload@)),
                state: TransmissionState::Queued,
                timestamp: now,
                retries: 0,
                max_retries: 3,
            }),
            m@.hash.len() == 64,
    {
        let hash = blake3_hex(payload.as_slice());
        Message {
            id,
            priority,
            payload,
            compressed: None,
            codec,
            hash,
            state: TransmissionState::Queued,
            timestamp: now,
            retries: 0,
            max_retries: 3,
        }
    }

    /// A queued message stamped with the current time.
    pub fn new(id: u64, payload: Vec<u8>, priority: Priority, codec: CompressionCodec) -> (m: Self)
        ensures
            m@ == (MessageView {
                id,
                priority,
                payload: payload@,
                compressed: None,
                codec,
                hash: hex_lower(blake3_digest(payload@)),
                state: TransmissionState::Queued,
                timestamp: m.timestamp,
                retries: 0,
                max_retries: 3,
            }),
            m@.hash.len() == 64,
    {
        Self::new_at(id, payload, priority, codec, unix_time_secs())
    }

    /// A copy of the message.
    pub fn duplicate(&self) -> (m: Self)
        ensures
            m@ == self@,
    {
        let compressed = match &self.compressed {
            Some(c) => Some(copy_range(c.as_slice(), 0, c.len())),
            None => None,
        };
        proof {
            assert(self.payload@.subrange(0, self.payload@.len() as int) =~= self.payload@);
            if self.compressed is Some {
                let c = self.compressed->Some_0;
                assert(c@.subrange(0, c@.len() as int) =~= c@);
            }
        }
        Message {
            id: self.id,
            priority: self.priority,
            payload: copy_range(self.payload.as_slice(), 0, self.payload.len()),
            compressed,
            codec: self.codec,
            hash: self.hash.clone(),
            state: self.state,
            timestamp: self.timestamp,
            retries: self.retries,
            max_retries: self.max_retries,
        }
    }

    /// Compresses the payload with the message's codec. With no codec the
    /// payload itself is kept and the state stays; otherwise the message
    /// passes through `Compressing` to `Compressed`. Compression in memory
    /// always succeeds.
    pub fn compress(&mut self) -> (r: Result<(), CommunicationError>)
        ensures
            r is Ok ==> final(self)@ == (MessageView {
                compressed: Some(compressed_form(old(self)@.codec, old(self)@.payload)),
                state: if old(self)@.codec == CompressionCodec::Uncompressed {
                    old(self)@.state
                } else {
                    TransmissionState::Compressed
                },
                ..old(self)@
            }),
            r is Err ==> {
                &&& old(self)@.codec != CompressionCodec::Uncompressed
                &&& r matches Err(CommunicationError::CompressionFailed { .. })
                &&& final(self)@ == (MessageView {
                    state: TransmissionState::Compressing,
                    ..old(self)@
                })
            },
            r is Ok,
    {
        if self.codec == CompressionCodec::Uncompressed {
            let copy = copy_range(self.payload.as_slice(), 0, self.payload.len());
            proof {
                assert(self.payload@.subrange(0, self.payload@.len() as int) =~= self.payload@);
            }
            self.compressed = Some(copy);
            return Ok(());
        }
        self.state = TransmissionState::Compressing;
        let result = match self.codec {
            CompressionCodec::Zstd => zstd_compress(self.payload.as_slice()),
            _ => gzip_compress(self.payload.as_slice()),
        };
        match result {
            Ok(c) => {
                self.compressed = Some(c);
            },
            Err(reason) => {
                return Err(CommunicationError::CompressionFailed { reason });
            },
        }
        self.state = TransmissionState::Compressed;
        Ok(())
    }

    /// The payload recovered from the compressed data.
    pub fn decompress(&self) -> (r: Result<Vec<u8>, CommunicationError>)
        ensures
            self@.compressed is None ==> (r matches Err(CommunicationError::CompressionFailed { reason })
                && reason@ == "No compressed data"@),
            self@.compressed matches Some(c) ==> match r {
                Ok(d) => decompressed_form(self@.codec, c) == Some(d@),
                Err(e) => decompressed_form(self@.codec, c) is None && e is DecompressionFailed,
            },
            self@.compressed == Some(compressed_form(self@.codec, self@.payload)) ==> (r matches Ok(d)
                && d@ == self@.payload),
    {
        let compressed = match &self.compressed {
            Some(c) => c,
            None => {
                return Err(
                    CommunicationError::CompressionFailed {
                        reason: "No compressed data".to_owned(),
                    },
                );
            },
        };
        match self.codec {
            CompressionCodec::Uncompressed => {
                proof {
                    assert(compressed@.subrange(0, compressed@.len() as int) =~= compressed@);
                }
                Ok(copy_range(compressed.as_slice(), 0, compressed.len()))
            },
            CompressionCodec::Zstd => match zstd_decompress(compressed.as_slice()) {
                Ok(d) => Ok(d),
                Err(reason) => Err(CommunicationError::DecompressionFailed { reason }),
            },
            CompressionCodec::Gzip => match gzip_decompress(compressed.as_slice()) {
                Ok(d) => Ok(d),
                Err(reason) => Err(CommunicationError::DecompressionFailed { reason }),
            },
        }
    }

    /// Checks the payload against the sealed digest.
    pub fn verify(&self) -> (r: Result<(), CommunicationError>)
        ensures
            hex_lower(blake3_digest(self@.payload)) == self@.hash ==> r is Ok,
            hex_lower(blake3_digest(self@.payload)) != self@.hash ==> (r matches Err(
                CommunicationError::IntegrityViolation { message_id },
            ) && message_id == self.id),
    {
        let computed = blake3_hex(self.payload.as_slice());
        if computed != self.hash {
            return Err(CommunicationError::IntegrityViolation { message_id: self.id });
        }
        Ok(())
    }

    /// Length of the compressed data, 0 before compression.
    pub fn compressed_size(&self) -> (r: usize)
        ensures
            r == match self@.compressed {
                Some(c) => c.len(),
                None => 0,
            },
    {
        match &self.compressed {
            Some(c) => c.len(),
            None => 0,
        }
    }
}

/// Communication statistics.
#[derive(Debug, Clone, Copy)]
pub struct CommunicationStats {
    pub queued: usize,
    pub total_messages: usize,
    pub acknowledged: usize,
    pub failed: usize,
}

/// Message `a` goes out before message `b`: a strictly higher priority.
pub open spec fn sent_before(a: MessageView, b: MessageView) -> bool {
    a.priority.0 > b.priority.0
}

/// Index `i` holds the message dequeued next from `q`: no message has a
/// higher priority, and every message queued before it has a lower one.
pub open spec fn is_next_message(q: Seq<MessageView>, i: int) -> bool {
    &&& 0 <= i < q.len()
    &&& forall|j: int| 0 <= j < i ==> #[trigger] sent_before(q[i], q[j])
    &&& forall|j: int| i < j < q.len() ==> !#[trigger] sent_before(q[j], q[i])
}

/// The mathematical state of a communication queue.
pub struct QueueView {
    /// Entries waiting to go out, in the order they were queued.
    pub queue: Seq<MessageView>,
    /// Messages tracked by id.
    pub messages: Map<u64, MessageView>,
    pub acknowledged: Seq<u64>,
    pub failed: Seq<u64>,
    /// The id the next message receives.
    pub next_id: u64,
    pub max_size: usize,
}

pub open spec fn messages_view(m: Map<u64, Message>) -> Map<u64, MessageView> {
    m.map_values(|x: Message| x@)
}

/// An outbound priority queue with delivery tracking.
pub struct CommunicationQueue {
    queue: Vec<Message>,
    messages: BTreeMap<u64, Message>,
    acknowledged: Vec<u64>,
    failed: Vec<u64>,
    message_counter: u64,
    max_size: usize,
}

impl View for CommunicationQueue {
    type V = QueueView;

    closed spec fn view(&self) -> QueueView {
        QueueView {
            queue: self.queue@.map_values(|m: Message| m@),
            messages: messages_view(self.messages@),
            acknowledged: self.acknowledged@,
            failed: self.failed@,
            next_id: self.message_counter,
            max_size: self.max_size,
        }
    }
}

impl CommunicationQueue {
    /// An empty queue that holds at most `max_size` entries; ids start at 1.
    pub fn new(max_size: usize) -> (q: Self)
        ensures
            q@ == (QueueView {
                queue: Seq::empty(),
                messages: Map::empty(),
                acknowledged: Seq::empty(),
                failed: Seq::empty(),
                next_id: 1,
                max_size,
            }),
    {
        let q = CommunicationQueue {
            queue: Vec::new(),
            messages: BTreeMap::new(),
            acknowledged: Vec::new(),
            failed: Vec::new(),
            message_counter: 1,
            max_size,
        };
        proof {
            assert(q@.queue =~= Seq::empty());
            assert(q@.messages =~= Map::empty());
        }
        q
    }

    /// Queues a new message and compresses it; answers its id. Refused when
    /// the queue is full; a codec failure is answered after the id is used.
    pub fn enqueue(&mut self, payload: Vec<u8>, priority: Priority, codec: CompressionCodec) -> (r: Result<u64, CommunicationError>)
        requires
            old(self)@.next_id < u64::MAX,
        ensures
            old(self)@.queue.len() >= old(self)@.max_size ==> {
                &&& r matches Err(CommunicationError::QueueFull { capacity })
                &&& capacity == old(self)@.max_size
                &&& final(self)@ == old(self)@
            },
            old(self)@.queue.len() < old(self)@.max_size ==> r is Ok,
            old(self)@.queue.len() < old(self)@.max_size ==> match r {
                Ok(id) => {
                    let m = final(self)@.messages[id];
                    &&& id == old(self)@.next_id
                    &&& m.id == id && m.priority == priority && m.codec == codec
                    &&& m.payload == payload@
                    &&& m.hash == hex_lower(blake3_digest(payload@))
                    &&& m.compressed == Some(compressed_form(codec, payload@))
                    &&& m.state == (if codec == CompressionCodec::Uncompressed {
                        TransmissionState::Queued
                    } else {
                        TransmissionState::Compressed
                    })
                    &&& m.retries == 0 && m.max_retries == 3
                    &&& final(self)@ == (QueueView {
                        queue: old(self)@.queue.push(m),
                        messages: old(self)@.messages.insert(id, m),
                        next_id: (old(self)@.next_id + 1) as u64,
                        ..old(self)@
                    })
                },
                Err(e) => {
                    &&& codec != CompressionCodec::Uncompressed
                    &&& e is CompressionFailed
                    &&& final(self)@ == (QueueView {
                        next_id: (old(self)@.next_id + 1) as u64,
                        ..old(self)@
                    })
                },
            },
    {
        if self.queue.len() >= self.max_size {
            return Err(CommunicationError::QueueFull { capacity: self.max_size });
        }
        let id = self.message_counter;
        self.message_counter = id + 1;
        let mut message = Message::new(id, payload, priority, codec);
        if let Err(e) = message.compress() {
            proof {
                assert(self@.queue =~= old(self)@.queue);
            }
            return Err(e);
        }
        let copy = message.duplicate();
        self.queue.push(copy);
        self.messages.insert(id, message);
        proof {
            assert(self@.queue =~= old(self)@.queue.push(message@));
            assert(self@.messages =~= old(self)@.messages.insert(id, message@));
        }
        Ok(id)
    }

    /// Takes the next entry off the queue, highest priority first and
    /// first queued among equals, and stops tracking its message.
    pub fn dequeue(&mut self) -> (r: Option<Message>)
        ensures
            old(self)@.queue.len() == 0 ==> r is None && final(self)@ == old(self)@,
            old(self)@.queue.len() > 0 ==> exists|i: int|
                {
                    &&& is_next_message(old(self)@.queue, i)
                    &&& r matches Some(m) && m@ == old(self)@.queue[i]
                    &&& final(self)@ == (QueueView {
                        queue: old(self)@.queue.remove(i),
                        messages: old(self)@.messages.remove(old(self)@.queue[i].id),
                        ..old(self)@
                    })
                },
    {
        if self.queue.len() == 0 {
            return None;
        }
        let ghost q = self@.queue;
        let mut best: usize = 0;
        let mut i: usize = 1;
        while i < self.queue.len()
            invariant
                self == old(self),
                q == self@.queue,
                q.len() == self.queue@.len(),
                0 <= best < i <= q.len(),
                forall|j: int| 0 <= j < best ==> #[trigger] sent_before(q[best as int], q[j]),
                forall|j: int| best < j < i ==> !#[trigger] sent_before(q[j], q[best as int]),
            decreases q.len() - i,
        {
            proof {
                assert(q[i as int] == self.queue@[i as int]@);
                assert(q[best as int] == self.queue@[best as int]@);
            }
            if self.queue[i].priority.0 > self.queue[best].priority.0 {
                proof {
                    assert forall|j: int| 0 <= j < i implies #[trigger] sent_before(q[i as int], q[j]) by {
                        if j < best {
                            assert(sent_before(q[best as int], q[j]));
                        } else if j > best {
                            assert(!sent_before(q[j], q[best as int]));
                        }
                    }
                }
                best = i;
            }
            i = i + 1;
        }
        let m = self.queue.remove(best);
        self.messages.remove(&m.id);
        proof {
            assert(self@.queue =~= q.remove(best as int));
            assert(self@.messages =~= old(self)@.messages.remove(m.id));
            assert(is_next_message(q, best as int));
        }
        Some(m)
    }

    /// Stops tracking a message as delivered and records its acknowledgement.
    pub fn acknowledge(&mut self, message_id: u64) -> (r: Result<(), CommunicationError>)
        ensures
            old(self)@.messages.contains_key(message_id) ==> {
                &&& r is Ok
                &&& final(self)@ == (QueueView {
                    messages: old(self)@.messages.remove(message_id),
                    acknowledged: old(self)@.acknowledged.push(message_id),
                    ..old(self)@
                })
            },
            !old(self)@.messages.contains_key(message_id) ==> {
                &&& r matches Err(CommunicationError::MessageNotFound { message_id: id })
                &&& id == message_id
                &&& final(self)@ == old(self)@
            },
    {
        match self.messages.remove(&message_id) {
            Some(_) => {
                self.acknowledged.push(message_id);
                proof {
                    assert(self@.messages =~= old(self)@.messages.remove(message_id));
                }
                Ok(())
            },
            None => {
                proof {
                    assert(self@.messages =~= old(self)@.messages);
                }
                Err(CommunicationError::MessageNotFound { message_id })
            },
        }
    }

    /// Counts a failed delivery. Answers whether the message is retried: it
    /// is queued again until its retries reach its limit, when it is marked
    /// failed and recorded as such.
    pub fn fail_message(&mut self, message_id: u64) -> (r: Result<bool, CommunicationError>)
        requires
            old(self)@.messages.contains_key(message_id) ==> old(self)@.messages[message_id].retries
                < u32::MAX,
        ensures
            !old(self)@.messages.contains_key(message_id) ==> {
                &&& r matches Err(CommunicationError::MessageNotFound { message_id: id })
                &&& id == message_id
                &&& final(self)@ == old(self)@
            },
            old(self)@.messages.contains_key(message_id) ==> {
                let m = old(self)@.messages[message_id];
                let retries = (m.retries + 1) as u32;
                if retries >= m.max_retries {
                    let failed = MessageView { retries, state: TransmissionState::Failed, ..m };
                    &&& r == Ok::<bool, CommunicationError>(false)
                    &&& final(self)@ == (QueueView {
                        messages: old(self)@.messages.insert(message_id, failed),
                        failed: old(self)@.failed.push(message_id),
                        ..old(self)@
                    })
                } else {
                    let retried = MessageView { retries, state: TransmissionState::Queued, ..m };
                    &&& r == Ok::<bool, CommunicationError>(true)
                    &&& final(self)@ == (QueueView {
                        queue: old(self)@.queue.push(retried),
                        messages: old(self)@.messages.insert(message_id, retried),
                        ..old(self)@
                    })
                }
            },
    {
        let mut msg = match self.messages.remove(&message_id) {
            Some(m) => m,
            None => {
                proof {
                    assert(self@.messages =~= old(self)@.messages);
                }
                return Err(CommunicationError::MessageNotFound { message_id });
            },
        };
        msg.retries = msg.retries + 1;
        if msg.retries >= msg.max_retries {
            msg.state = TransmissionState::Failed;
            self.failed.push(message_id);
            self.messages.insert(message_id, msg);
            proof {
                assert(self@.messages =~= old(self)@.messages.insert(message_id, msg@));
            }
            return Ok(false);
        }
        msg.state = TransmissionState::Queued;
        let copy = msg.duplicate();
        self.messages.insert(message_id, msg);
        self.queue.push(copy);
        proof {
            assert(self@.messages =~= old(self)@.messages.insert(message_id, msg@));
            assert(self@.queue =~= old(self)@.queue.push(msg@));
        }
        Ok(true)
    }

    /// A copy of the tracked message with `message_id`.
    pub fn get_message(&self, message_id: u64) -> (r: Result<Message, CommunicationError>)
        ensures
            self@.messages.contains_key(message_id) ==> (r matches Ok(m) && m@
                == self@.messages[message_id]),
            !self@.messages.contains_key(message_id) ==> (r matches Err(
                CommunicationError::MessageNotFound { message_id: id },
            ) && id == message_id),
    {
        match self.messages.get(&message_id) {
            Some(m) => Ok(m.duplicate()),
            None => Err(CommunicationError::MessageNotFound { message_id }),
        }
    }

    pub fn stats(&self) -> (st: CommunicationStats)
        ensures
            st.queued == self@.queue.len(),
            st.total_messages == self@.messages.len(),
            st.acknowledged == self@.acknowledged.len(),
            st.failed == self@.failed.len(),
    {
        proof {
            assert(self@.messages.dom() =~= self.messages@.dom());
        }
        CommunicationStats {
            queued: self.queue.len(),
            total_messages: self.messages.len(),
            acknowledged: self.acknowledged.len(),
            failed: self.failed.len(),
        }
    }

    pub fn acknowledged_count(&self) -> (r: usize)
        ensures
            r == self@.acknowledged.len(),
    {
        self.acknowledged.len()
    }

    pub fn failed_count(&self) -> (r: usize)
        ensures
            r == self@.failed.len(),
    {
        self.failed.len()
    }
}

impl Default for CommunicationQueue {
    fn default() -> (q: Self)
        ensures
            q@ == (QueueView {
                queue: Seq::empty(),
                messages: Map::empty(),
                acknowledged: Seq::empty(),
                failed: Seq::empty(),
                next_id: 1,
                max_size: 1000,
            }),
    {
        Self::new(1000)
    }
}

/// The entry dequeued next has the highest priority waiting, and among
/// entries of that priority it was queued first.
pub proof fn law_dequeue_order(q: Seq<MessageView>, i: int)
    requires
        is_next_message(q, i),
    ensures
        forall|j: int| 0 <= j < q.len() ==> #[trigger] q[j].priority.0 <= q[i].priority.0,
        forall|j: int| 0 <= j < i ==> #[trigger] q[j].priority.0 < q[i].priority.0,
{
    assert forall|j: int| 0 <= j < q.len() implies #[trigger] q[j].priority.0 <= q[i].priority.0 by {
        if j < i {
            assert(sent_before(q[i], q[j]));
        } else if j > i {
            assert(!sent_before(q[j], q[i]));
        }
    }
    assert forall|j: int| 0 <= j < i implies #[trigger] q[j].priority.0 < q[i].priority.0 by {
        assert(sent_before(q[i], q[j]));
    }
}

} // verus!
