//! Telemetry frames sealed by a CRC-32 of their payload and a BLAKE3 digest,
//! a processor that accepts them strictly in sequence, and a bounded replay
//! buffer.

use crate::bytes::{le_bytes, push_all, push_le};
use crate::digest::{blake3_digest, blake3_hex, hex_lower};
use crate::text::{decimal, push_decimal};
use vstd::prelude::*;

verus! {

#[derive(Clone, Debug)]
pub enum TelemetryError {
    MalformedFrame { reason: String },
    SequenceViolation { expected: u64, actual: u64 },
    InvalidTimestamp { detail: String },
    CRCMismatch { expected: u32, actual: u32 },
    DuplicateFrame { sequence: u64 },
    ReplayBufferFull,
    FrameNotInBuffer { sequence: u64 },
}

/// One shift of the reflected CRC-32 register (polynomial 0xEDB88320).
pub open spec fn crc_step(c: u32) -> u32 {
    if c & 1 != 0 {
        (c >> 1) ^ 0xEDB88320u32
    } else {
        c >> 1
    }
}

/// `k` shifts of the register.
pub open spec fn crc_shifts(c: u32, k: nat) -> u32
    decreases k,
{
    if k == 0 {
        c
    } else {
        crc_step(crc_shifts(c, (k - 1) as nat))
    }
}

/// The register after feeding `data`, starting from all ones.
pub open spec fn crc_register(data: Seq<u8>) -> u32
    decreases data.len(),
{
    if data.len() == 0 {
        0xFFFF_FFFFu32
    } else {
        crc_shifts(crc_register(data.drop_last()) ^ (data.last() as u32), 8)
    }
}

/// The CRC-32 (IEEE) of `data`.
pub open spec fn crc32(data: Seq<u8>) -> u32 {
    crc_register(data) ^ 0xFFFF_FFFFu32
}

/// The bytes a frame's digest covers: sequence and timestamp as 64-bit
/// little-endian integers, the payload, and the checksum as a 32-bit
/// little-endian integer.
pub open spec fn frame_preimage(sequence: u64, timestamp: u64, payload: Seq<u8>, checksum: u32) -> Seq<u8> {
    le_bytes(sequence as nat, 8) + le_bytes(timestamp as nat, 8) + payload + le_bytes(checksum as nat, 4)
}

/// The digest a frame with these fields carries.
pub open spec fn frame_hash(sequence: u64, timestamp: u64, payload: Seq<u8>, checksum: u32) -> Seq<char> {
    hex_lower(blake3_digest(frame_preimage(sequence, timestamp, payload, checksum)))
}

/// A telemetry frame.
#[derive(Debug, Clone)]
pub struct TelemetryFrame {
    pub sequence: u64,
    /// Seconds since the Unix epoch.
    pub timestamp: u64,
    pub payload: Vec<u8>,
    /// CRC-32 of the payload.
    pub checksum: u32,
    /// Digest of the whole frame.
    pub hash: String,
}

/// The mathematical value of a frame.
pub struct FrameView {
    pub sequence: u64,
    pub timestamp: u64,
    pub payload: Seq<u8>,
    pub checksum: u32,
    pub hash: Seq<char>,
}

impl View for TelemetryFrame {
    type V = FrameView;

    open spec fn view(&self) -> FrameView {
        FrameView {
            sequence: self.sequence,
            timestamp: self.timestamp,
            payload: self.payload@,
            checksum: self.checksum,
            hash: self.hash@,
        }
    }
}

/// The frame carries the checksum of its payload and the digest of its fields.
pub open spec fn frame_sealed(f: FrameView) -> bool {
    &&& f.checksum == crc32(f.payload)
    &&& f.hash == frame_hash(f.sequence, f.timestamp, f.payload, f.checksum)
}

/// What checking a frame answers: a wrong checksum first, then a wrong digest.
pub open spec fn integrity_verdict(f: FrameView, r: Result<(), TelemetryError>) -> bool {
    if f.checksum != crc32(f.payload) {
        r matches Err(TelemetryError::CRCMismatch { expected, actual }) && expected == f.checksum
            && actual == crc32(f.payload)
    } else if f.hash != frame_hash(f.sequence, f.timestamp, f.payload, f.checksum) {
        r matches Err(TelemetryError::MalformedFrame { reason }) && reason@ == "Hash mismatch"@
    } else {
        r is Ok
    }
}

impl TelemetryFrame {
    /// A frame over `payload`, sealed with its checksum and digest.
    pub fn new(sequence: u64, timestamp: u64, payload: Vec<u8>) -> (f: Self)
        ensures
            f.sequence == sequence,
            f.timestamp == timestamp,
            f.payload@ == payload@,
            f.checksum == crc32(payload@),
            f.hash@ == frame_hash(sequence, timestamp, payload@, f.checksum),
            frame_sealed(f@),
    {
        let checksum = Self::compute_crc32(payload.as_slice());
        let hash = Self::compute_blake3(sequence, timestamp, payload.as_slice(), checksum);
        TelemetryFrame { sequence, timestamp, payload, checksum, hash }
    }

    /// The CRC-32 of `data`, bit by bit.
    fn compute_crc32(data: &[u8]) -> (c: u32)
        ensures
            c == crc32(data@),
    {
        let mut crc: u32 = 0xFFFF_FFFF;
        let mut i: usize = 0;
        while i < data.len()
            invariant
                i <= data@.len(),
                crc == crc_register(data@.take(i as int)),
            decreases data@.len() - i,
        {
            let fed: u32 = crc ^ (data[i] as u32);
            crc = fed;
            let mut k: u32 = 0;
            while k < 8
                invariant
                    k <= 8,
                    crc == crc_shifts(fed, k as nat),
                decreases 8 - k,
            {
                crc = if (crc & 1) != 0 {
                    (crc >> 1) ^ 0xEDB88320
                } else {
                    crc >> 1
                };
                k = k + 1;
            }
            proof {
                let next = data@.take(i + 1);
                assert(next.drop_last() =~= data@.take(i as int));
                assert(next.last() == data@[i as int]);
            }
            i = i + 1;
        }
        proof {
            assert(data@.take(i as int) =~= data@);
        }
        crc ^ 0xFFFF_FFFF
    }

    /// The digest of the fields.
    fn compute_blake3(sequence: u64, timestamp: u64, payload: &[u8], checksum: u32) -> (h: String)
        ensures
            h@ == frame_hash(sequence, timestamp, payload@, checksum),
    {
        let mut bytes: Vec<u8> = Vec::new();
        push_le(&mut bytes, sequence, 8);
        push_le(&mut bytes, timestamp, 8);
        push_all(&mut bytes, payload);
        push_le(&mut bytes, checksum as u64, 4);
        proof {
            assert(bytes@ =~= frame_preimage(sequence, timestamp, payload@, checksum));
        }
        blake3_hex(bytes.as_slice())
    }

    /// Checks the checksum, then the digest.
    pub fn verify(&self) -> (r: Result<(), TelemetryError>)
        ensures
            integrity_verdict(self@, r),
            r is Ok <==> frame_sealed(self@),
    {
        let computed_crc = Self::compute_crc32(self.payload.as_slice());
        if computed_crc != self.checksum {
            return Err(TelemetryError::CRCMismatch { expected: self.checksum, actual: computed_crc });
        }
        let computed_hash = Self::compute_blake3(
            self.sequence,
            self.timestamp,
            self.payload.as_slice(),
            self.checksum,
        );
        if computed_hash != self.hash {
            return Err(TelemetryError::MalformedFrame { reason: "Hash mismatch".to_owned() });
        }
        Ok(())
    }

    /// The frame's size on the wire: sequence, timestamp, payload, checksum
    /// and a 64-character digest.
    pub fn size(&self) -> (n: usize)
        requires
            self.payload@.len() + 84 <= usize::MAX,
        ensures
            n == 84 + self.payload@.len(),
    {
        8 + 8 + self.payload.len() + 4 + 64
    }

    /// A copy of the frame.
    pub fn duplicate(&self) -> (f: Self)
        ensures
            f@ == self@,
    {
        TelemetryFrame {
            sequence: self.sequence,
            timestamp: self.timestamp,
            payload: self.payload.clone(),
            checksum: self.checksum,
            hash: self.hash.clone(),
        }
    }
}

/// The counter after one more event, wrapping at the top.
pub open spec fn wrapping_inc(n: u64) -> u64 {
    if n == u64::MAX {
        0
    } else {
        (n + 1) as u64
    }
}

fn inc_wrapping(n: u64) -> (m: u64)
    ensures
        m == wrapping_inc(n),
{
    if n == u64::MAX {
        0
    } else {
        n + 1
    }
}

/// Processor statistics.
#[derive(Debug, Clone, Copy)]
pub struct TelemetryStats {
    pub frames_processed: u64,
    pub errors: u64,
    pub next_sequence: u64,
    pub sequences_seen: usize,
}

/// The mathematical state of a processor.
pub struct ProcessorView {
    pub next_sequence: u64,
    pub last_timestamp: u64,
    pub seen: Seq<u64>,
    pub frame_count: u64,
    pub error_count: u64,
}

/// Accepts frames strictly in sequence, with timestamps that never go back.
pub struct TelemetryProcessor {
    next_sequence: u64,
    last_timestamp: u64,
    seen_sequences: Vec<u64>,
    frame_count: u64,
    error_count: u64,
}

impl View for TelemetryProcessor {
    type V = ProcessorView;

    closed spec fn view(&self) -> ProcessorView {
        ProcessorView {
            next_sequence: self.next_sequence,
            last_timestamp: self.last_timestamp,
            seen: self.seen_sequences@,
            frame_count: self.frame_count,
            error_count: self.error_count,
        }
    }
}

/// The sequences `0, 1, .., n - 1`.
pub open spec fn first_sequences(n: nat) -> Seq<u64> {
    Seq::new(n, |i: int| i as u64)
}

/// A processor's state after it accepted `frame`.
pub open spec fn after_accept(p: ProcessorView, frame: FrameView) -> ProcessorView {
    ProcessorView {
        next_sequence: (frame.sequence + 1) as u64,
        last_timestamp: frame.timestamp,
        seen: p.seen.push(frame.sequence),
        frame_count: (p.frame_count + 1) as u64,
        ..p
    }
}

/// A processor's state after it refused a frame that was intact.
pub open spec fn after_refusal(p: ProcessorView) -> ProcessorView {
    ProcessorView { error_count: wrapping_inc(p.error_count), ..p }
}

/// What processing `frame` in state `p` answers and leaves: a damaged frame
/// is refused as checking it answers and counts as nothing; an intact one
/// out of sequence, with a timestamp that goes back, or seen before is
/// refused and counted as an error; any other is accepted.
pub open spec fn processing(p: ProcessorView, frame: FrameView, r: Result<(), TelemetryError>, q: ProcessorView) -> bool {
    if !frame_sealed(frame) {
        integrity_verdict(frame, r) && q == p
    } else if frame.sequence != p.next_sequence {
        &&& r matches Err(TelemetryError::SequenceViolation { expected, actual })
        &&& expected == p.next_sequence && actual == frame.sequence
        &&& q == after_refusal(p)
    } else if frame.timestamp < p.last_timestamp {
        &&& r matches Err(TelemetryError::InvalidTimestamp { detail })
        &&& detail@ == "Timestamp went backwards: "@ + decimal(frame.timestamp as nat) + " < "@ + decimal(
            p.last_timestamp as nat,
        )
        &&& q == after_refusal(p)
    } else if p.seen.contains(frame.sequence) {
        r matches Err(TelemetryError::DuplicateFrame { sequence }) && sequence == frame.sequence
            && q == after_refusal(p)
    } else {
        r is Ok && q == after_accept(p, frame)
    }
}

impl TelemetryProcessor {
    /// The sequences seen are exactly those accepted so far, in order, and
    /// their number is the count of accepted frames.
    pub closed spec fn wf(&self) -> bool {
        &&& self.seen_sequences@ == first_sequences(self.next_sequence as nat)
        &&& self.frame_count == self.next_sequence
    }

    pub proof fn lemma_wf(&self)
        requires
            self.wf(),
        ensures
            self@.seen == first_sequences(self@.next_sequence as nat),
            self@.frame_count == self@.next_sequence,
    {
    }

    /// A processor that expects sequence 0.
    pub fn new() -> (p: Self)
        ensures
            p.wf(),
            p@ == (ProcessorView {
                next_sequence: 0,
                last_timestamp: 0,
                seen: Seq::empty(),
                frame_count: 0,
                error_count: 0,
            }),
    {
        let p = TelemetryProcessor {
            next_sequence: 0,
            last_timestamp: 0,
            seen_sequences: Vec::new(),
            frame_count: 0,
            error_count: 0,
        };
        proof {
            assert(p.seen_sequences@ =~= first_sequences(0));
        }
        p
    }

    /// Checks `frame` and, if it is the next one in sequence, records it.
    pub fn process_frame(&mut self, frame: &TelemetryFrame) -> (r: Result<(), TelemetryError>)
        requires
            old(self).wf(),
            frame.sequence == old(self)@.next_sequence ==> old(self)@.next_sequence < u64::MAX,
        ensures
            final(self).wf(),
            processing(old(self)@, frame@, r, final(self)@),
    {
        match frame.verify() {
            Err(e) => {
                return Err(e);
            },
            Ok(()) => {},
        }
        let expected = self.next_sequence;
        if frame.sequence != expected {
            self.error_count = inc_wrapping(self.error_count);
            return Err(TelemetryError::SequenceViolation { expected, actual: frame.sequence });
        }
        let last_ts = self.last_timestamp;
        if frame.timestamp < last_ts {
            self.error_count = inc_wrapping(self.error_count);
            let mut detail = "Timestamp went backwards: ".to_owned();
            push_decimal(&mut detail, frame.timestamp);
            detail.append(" < ");
            push_decimal(&mut detail, last_ts);
            return Err(TelemetryError::InvalidTimestamp { detail });
        }
        if self.has_seen(frame.sequence) {
            self.error_count = inc_wrapping(self.error_count);
            return Err(TelemetryError::DuplicateFrame { sequence: frame.sequence });
        }
        self.next_sequence = frame.sequence + 1;
        self.last_timestamp = frame.timestamp;
        self.seen_sequences.push(frame.sequence);
        self.frame_count = self.frame_count + 1;
        proof {
            assert(self.seen_sequences@ =~= first_sequences(self.next_sequence as nat));
        }
        Ok(())
    }

    /// Whether `sequence` was accepted before.
    fn has_seen(&self, sequence: u64) -> (b: bool)
        ensures
            b == self@.seen.contains(sequence),
    {
        let mut i: usize = 0;
        while i < self.seen_sequences.len()
            invariant
                i <= self.seen_sequences@.len(),
                forall|j: int| 0 <= j < i ==> self.seen_sequences@[j] != sequence,
            decreases self.seen_sequences@.len() - i,
        {
            if self.seen_sequences[i] == sequence {
                assert(self@.seen[i as int] == sequence);
                return true;
            }
            i = i + 1;
        }
        false
    }

    pub fn stats(&self) -> (st: TelemetryStats)
        ensures
            st.frames_processed == self@.frame_count,
            st.errors == self@.error_count,
            st.next_sequence == self@.next_sequence,
            st.sequences_seen == self@.seen.len(),
    {
        TelemetryStats {
            frames_processed: self.frame_count,
            errors: self.error_count,
            next_sequence: self.next_sequence,
            sequences_seen: self.seen_sequences.len(),
        }
    }
}

impl Default for TelemetryProcessor {
    fn default() -> (p: Self)
        ensures
            p.wf(),
            p@.next_sequence == 0,
            p@.last_timestamp == 0,
            p@.seen == Seq::<u64>::empty(),
            p@.frame_count == 0,
            p@.error_count == 0,
    {
        Self::new()
    }
}

/// Frames are accepted strictly in sequence: a well-formed processor accepts
/// a frame only if it is intact, carries the count of frames accepted before
/// it and a timestamp no earlier than the last, and no sequence is ever
/// accepted twice.
pub proof fn law_in_sequence(p: ProcessorView, frame: FrameView, r: Result<(), TelemetryError>, q: ProcessorView)
    requires
        p.seen == first_sequences(p.next_sequence as nat),
        p.frame_count == p.next_sequence,
        frame.sequence == p.next_sequence ==> p.next_sequence < u64::MAX,
        processing(p, frame, r, q),
    ensures
        r is Ok <==> (frame_sealed(frame) && frame.sequence == p.frame_count && frame.timestamp
            >= p.last_timestamp),
        r is Ok ==> !p.seen.contains(frame.sequence) && q.seen == p.seen.push(frame.sequence),
        r is Ok ==> q.seen == first_sequences(q.next_sequence as nat) && q.frame_count == q.next_sequence,
        !(r matches Err(TelemetryError::DuplicateFrame { .. })),
{
    if p.seen.contains(frame.sequence) {
        let k = choose|k: int| 0 <= k < p.seen.len() && p.seen[k] == frame.sequence;
        assert(p.seen[k] == k as u64);
    }
    if r is Ok {
        assert(q.seen =~= first_sequences(q.next_sequence as nat));
    }
}

/// Replay buffer statistics.
#[derive(Debug, Clone, Copy)]
pub struct ReplayBufferStats {
    pub current_size: usize,
    pub max_size: usize,
    pub total_stored: u64,
}

/// The frames of `frames` whose sequence is at least `start`, in order.
pub open spec fn frames_from(frames: Seq<FrameView>, start: u64) -> Seq<FrameView>
    decreases frames.len(),
{
    if frames.len() == 0 {
        Seq::empty()
    } else {
        let earlier = frames_from(frames.drop_last(), start);
        if frames.last().sequence >= start {
            earlier.push(frames.last())
        } else {
            earlier
        }
    }
}

/// The values of a sequence of frames.
pub open spec fn frame_views(frames: Seq<TelemetryFrame>) -> Seq<FrameView> {
    Seq::new(frames.len(), |i: int| frames[i]@)
}

/// Frame `i` is the first of `frames` that carries `sequence`.
pub open spec fn found_at(frames: Seq<FrameView>, sequence: u64, i: int) -> bool {
    &&& 0 <= i < frames.len()
    &&& frames[i].sequence == sequence
    &&& forall|j: int| 0 <= j < i ==> frames[j].sequence != sequence
}

/// The mathematical state of a replay buffer.
pub struct ReplayView {
    pub frames: Seq<FrameView>,
    pub max_size: usize,
    pub total_stored: u64,
}

/// A bounded buffer of frames kept for recovery.
pub struct ReplayBuffer {
    buffer: Vec<TelemetryFrame>,
    max_size: usize,
    total_stored: u64,
}

impl View for ReplayBuffer {
    type V = ReplayView;

    closed spec fn view(&self) -> ReplayView {
        ReplayView {
            frames: frame_views(self.buffer@),
            max_size: self.max_size,
            total_stored: self.total_stored,
        }
    }
}

impl ReplayBuffer {
    /// The buffer never holds more than its bound.
    pub closed spec fn wf(&self) -> bool {
        self.buffer@.len() <= self.max_size
    }

    pub proof fn lemma_wf(&self)
        requires
            self.wf(),
        ensures
            self@.frames.len() <= self@.max_size,
    {
    }

    /// An empty buffer that holds at most `max_size` frames.
    pub fn new(max_size: usize) -> (b: Self)
        ensures
            b.wf(),
            b@ == (ReplayView { frames: Seq::empty(), max_size, total_stored: 0 }),
    {
        let b = ReplayBuffer { buffer: Vec::with_capacity(max_size), max_size, total_stored: 0 };
        proof {
            assert(b@.frames =~= Seq::<FrameView>::empty());
        }
        b
    }

    /// Appends `frame`, refused once the buffer is full.
    pub fn add(&mut self, frame: TelemetryFrame) -> (r: Result<(), TelemetryError>)
        requires
            old(self).wf(),
        ensures
            final(self).wf(),
            old(self)@.frames.len() >= old(self)@.max_size ==> (r matches Err(
                TelemetryError::ReplayBufferFull,
            ) && final(self)@ == old(self)@),
            old(self)@.frames.len() < old(self)@.max_size ==> (r is Ok && final(self)@ == (ReplayView {
                frames: old(self)@.frames.push(frame@),
                max_size: old(self)@.max_size,
                total_stored: wrapping_inc(old(self)@.total_stored),
            })),
    {
        if self.buffer.len() >= self.max_size {
            return Err(TelemetryError::ReplayBufferFull);
        }
        let ghost before = self.buffer@;
        self.buffer.push(frame);
        self.total_stored = inc_wrapping(self.total_stored);
        proof {
            assert(frame_views(self.buffer@) =~= frame_views(before).push(frame@));
        }
        Ok(())
    }

    /// The first buffered frame with `sequence`.
    pub fn get(&self, sequence: u64) -> (r: Result<TelemetryFrame, TelemetryError>)
        ensures
            (forall|i: int| 0 <= i < self@.frames.len() ==> #[trigger] self@.frames[i].sequence != sequence)
                ==> (r matches Err(TelemetryError::FrameNotInBuffer { sequence: s }) && s == sequence),
            forall|i: int| #[trigger] found_at(self@.frames, sequence, i) ==> (r matches Ok(f) && f@
                == self@.frames[i]),
    {
        let mut i: usize = 0;
        while i < self.buffer.len()
            invariant
                i <= self.buffer@.len(),
                forall|j: int| 0 <= j < i ==> #[trigger] self@.frames[j].sequence != sequence,
            decreases self.buffer@.len() - i,
        {
            if self.buffer[i].sequence == sequence {
                let f = self.buffer[i].duplicate();
                proof {
                    assert(self@.frames[i as int] == self.buffer@[i as int]@);
                    assert(self@.frames[i as int].sequence == sequence);
                    assert forall|k: int| #[trigger] found_at(self@.frames, sequence, k) implies k == i by {
                        if k < i {
                        } else if k > i {
                            assert(self@.frames[i as int].sequence == sequence);
                        }
                    }
                }
                return Ok(f);
            }
            proof {
                assert(self@.frames[i as int] == self.buffer@[i as int]@);
            }
            i = i + 1;
        }
        Err(TelemetryError::FrameNotInBuffer { sequence })
    }

    /// The buffered frames from `start_sequence` on, in the order they were
    /// added; refused when there are none.
    pub fn replay_from(&self, start_sequence: u64) -> (r: Result<Vec<TelemetryFrame>, TelemetryError>)
        ensures
            frames_from(self@.frames, start_sequence).len() == 0 ==> (r matches Err(
                TelemetryError::FrameNotInBuffer { sequence },
            ) && sequence == start_sequence),
            frames_from(self@.frames, start_sequence).len() > 0 ==> (r matches Ok(v) && frame_views(v@)
                == frames_from(self@.frames, start_sequence)),
    {
        let mut out: Vec<TelemetryFrame> = Vec::new();
        let mut i: usize = 0;
        while i < self.buffer.len()
            invariant
                i <= self.buffer@.len(),
                frame_views(out@) == frames_from(self@.frames.take(i as int), start_sequence),
            decreases self.buffer@.len() - i,
        {
            let ghost taken = self@.frames.take(i + 1);
            proof {
                assert(taken.drop_last() =~= self@.frames.take(i as int));
                assert(taken.last() == self.buffer@[i as int]@);
            }
            if self.buffer[i].sequence >= start_sequence {
                let ghost before = out@;
                out.push(self.buffer[i].duplicate());
                proof {
                    assert(frame_views(out@) =~= frame_views(before).push(self.buffer@[i as int]@));
                }
            }
            i = i + 1;
        }
        proof {
            assert(self@.frames.take(i as int) =~= self@.frames);
        }
        if out.len() == 0 {
            return Err(TelemetryError::FrameNotInBuffer { sequence: start_sequence });
        }
        Ok(out)
    }

    /// Drops every buffered frame; the bound and the count of frames ever
    /// stored stay.
    pub fn clear(&mut self)
        requires
            old(self).wf(),
        ensures
            final(self).wf(),
            final(self)@ == (ReplayView { frames: Seq::empty(), ..old(self)@ }),
    {
        self.buffer.clear();
        proof {
            assert(frame_views(self.buffer@) =~= Seq::<FrameView>::empty());
        }
    }

    pub fn stats(&self) -> (st: ReplayBufferStats)
        ensures
            st.current_size == self@.frames.len(),
            st.max_size == self@.max_size,
            st.total_stored == self@.total_stored,
    {
        ReplayBufferStats {
            current_size: self.buffer.len(),
            max_size: self.max_size,
            total_stored: self.total_stored,
        }
    }
}

/// What is added is found again: after a frame whose sequence no buffered
/// frame carries is added to a buffer with room, the buffer stays within its
/// bound and looking that sequence up finds the new frame.
pub proof fn law_add_then_get(b: ReplayView, frame: FrameView)
    requires
        b.frames.len() < b.max_size,
        forall|i: int| 0 <= i < b.frames.len() ==> #[trigger] b.frames[i].sequence != frame.sequence,
    ensures
        b.frames.push(frame).len() <= b.max_size,
        found_at(b.frames.push(frame), frame.sequence, b.frames.len() as int),
        b.frames.push(frame)[b.frames.len() as int] == frame,
{
    let after = b.frames.push(frame);
    assert forall|j: int| 0 <= j < b.frames.len() implies after[j].sequence != frame.sequence by {
        assert(after[j] == b.frames[j]);
    }
}

} // verus!
