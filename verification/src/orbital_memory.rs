//! Deterministic memory management: bounded buffers with a watermark,
//! power-of-two ring buffers for streaming, hashed checkpoint regions and a
//! manager that keeps the total within a budget.

use crate::bytes::{copy_range, zeroed};
use crate::clock::unix_time_secs;
use crate::digest::{blake3_hex, hex_lower, blake3_digest};
use crate::text::{decimal, push_decimal};
use vstd::arithmetic::div_mod::{lemma_fundamental_div_mod_converse_mod, lemma_small_mod};
use vstd::arithmetic::power::lemma_pow0;
use vstd::arithmetic::power2::{lemma_pow2_pos, lemma_pow2_strictly_increases, lemma_pow2_unfold, pow2};
use vstd::bits::lemma_usize_low_bits_mask_is_mod;
use vstd::layout::unsigned_int_max_values;
use vstd::prelude::*;

verus! {

#[derive(Clone, Debug)]
pub enum MemoryError {
    AllocationFailed { requested: usize, available: usize },
    InvalidBuffer { detail: String },
    BufferOverflow { requested: usize, capacity: usize },
    CorruptionDetected { detail: String },
    CheckpointError { reason: String },
    DMAError { detail: String },
    AlignmentError { requested: usize, actual: usize },
}

/// Memory region metadata.
#[derive(Clone, Debug)]
pub struct MemoryRegion {
    pub address: u64,
    pub size: usize,
    pub id: u32,
    pub watermark: usize,
    pub integrity_hash: Option<String>,
    pub locked: bool,
}

impl MemoryRegion {
    /// Bytes left above the watermark.
    pub fn available(&self) -> (r: usize)
        ensures
            r == (if self.watermark <= self.size {
                self.size - self.watermark
            } else {
                0
            }),
    {
        self.size.saturating_sub(self.watermark)
    }

    pub fn is_full(&self) -> (r: bool)
        ensures
            r == (self.watermark >= self.size),
    {
        self.available() == 0
    }

    /// Whether `data` hashes to the stored integrity hash; a region without
    /// one accepts any data.
    pub fn verify_integrity(&self, data: &[u8]) -> (r: Result<bool, MemoryError>)
        ensures
            r matches Ok(ok) && ok == match self.integrity_hash {
                Some(h) => h@ == hex_lower(blake3_digest(data@)),
                None => true,
            },
    {
        match &self.integrity_hash {
            Some(stored) => {
                let computed = blake3_hex(data);
                Ok(computed == *stored)
            },
            None => Ok(true),
        }
    }
}

/// Whether `n` is a power of two.
pub open spec fn is_power_of_two(n: nat) -> bool {
    exists|k: nat| pow2(k) == n
}

/// Slot arithmetic of a ring of `cap` slots: stepping `i < cap` slots past `a`.
proof fn lemma_slot_step(cap: int, a: int, i: int)
    requires
        cap > 0,
        a >= 0,
        0 <= i < cap,
    ensures
        (a + i) % cap == (if a % cap + i < cap {
            a % cap + i
        } else {
            a % cap + i - cap
        }),
{
    let q = a / cap;
    let r = a % cap;
    assert(a == q * cap + r) by (nonlinear_arith)
        requires
            cap > 0,
            q == a / cap,
            r == a % cap,
    ;
    if r + i < cap {
        assert(a + i == q * cap + (r + i));
        lemma_fundamental_div_mod_converse_mod(a + i, cap, q, r + i);
    } else {
        assert(a + i == (q + 1) * cap + (r + i - cap)) by (nonlinear_arith)
            requires
                a == q * cap + r,
        ;
        lemma_fundamental_div_mod_converse_mod(a + i, cap, q + 1, r + i - cap);
    }
}

/// Fewer than `cap` positions apart, two positions occupy different slots.
proof fn lemma_slot_distinct(cap: int, x: int, y: int)
    requires
        cap > 0,
        0 <= x < y < x + cap,
    ensures
        x % cap != y % cap,
{
    lemma_slot_step(cap, x, y - x);
    assert(0 <= x % cap < cap);
}

/// Checks whether `n` is a power of two.
pub fn check_power_of_two(n: usize) -> (r: bool)
    ensures
        r == is_power_of_two(n as nat),
{
    let mut p: usize = 1;
    let ghost mut k: nat = 0;
    proof {
        lemma_pow0(2);
    }
    while p < n
        invariant
            p == pow2(k),
            p >= 1,
            k == 0 || pow2((k - 1) as nat) < n,
        decreases usize::MAX - p,
    {
        if p > usize::MAX / 2 {
            proof {
                assert forall|j: nat| pow2(j) != n by {
                    if j < k {
                        lemma_pow2_strictly_increases(j, k);
                    } else if j > k {
                        lemma_pow2_unfold(k + 1);
                        if j > k + 1 {
                            lemma_pow2_strictly_increases(k + 1, j);
                        }
                    }
                }
            }
            return false;
        }
        p = p * 2;
        proof {
            lemma_pow2_unfold(k + 1);
            k = k + 1;
        }
    }
    if p == n {
        true
    } else {
        proof {
            assert forall|j: nat| pow2(j) != n by {
                lemma_pow2_pos(j);
                if j + 1 < k {
                    lemma_pow2_strictly_increases(j, (k - 1) as nat);
                } else if j > k {
                    lemma_pow2_strictly_increases(k, j);
                }
            }
        }
        false
    }
}


/// Metadata for a ring buffer.
#[derive(Clone, Copy, Debug)]
pub struct RingBufferMetadata {
    pub id: u32,
    pub capacity: usize,
    pub write_count: u64,
    pub read_count: u64,
    pub overflow_count: u64,
}

/// The bytes written to a ring and not yet read, oldest first: position
/// `p` lives in slot `p % capacity` of `storage`.
pub open spec fn ring_contents(storage: Seq<u8>, capacity: nat, read_pos: nat, write_pos: nat) -> Seq<u8> {
    Seq::new((write_pos - read_pos) as nat, |i: int| ring_at(storage, capacity as int, read_pos as int, i))
}

/// The byte in the slot of position `base + k`.
pub open spec fn ring_at(storage: Seq<u8>, capacity: int, base: int, k: int) -> u8 {
    storage[(base + k) % capacity]
}

/// The mathematical state of a ring buffer.
pub struct RingBufferView {
    pub capacity: nat,
    pub write_pos: nat,
    pub read_pos: nat,
    /// Bytes written and not yet read, oldest first.
    pub contents: Seq<u8>,
    pub metadata: RingBufferMetadata,
}

/// A ring buffer of a power-of-two capacity that holds at most
/// `capacity - 1` unread bytes.
pub struct RingBuffer {
    buffer: Vec<u8>,
    write_pos: usize,
    read_pos: usize,
    capacity: usize,
    metadata: RingBufferMetadata,
    log2_capacity: Ghost<nat>,
}

impl View for RingBuffer {
    type V = RingBufferView;

    closed spec fn view(&self) -> RingBufferView {
        RingBufferView {
            capacity: self.capacity as nat,
            write_pos: self.write_pos as nat,
            read_pos: self.read_pos as nat,
            contents: ring_contents(
                self.buffer@,
                self.capacity as nat,
                self.read_pos as nat,
                self.write_pos as nat,
            ),
            metadata: self.metadata,
        }
    }
}

/// Space left for writing: one slot always stays free.
pub open spec fn ring_free(v: RingBufferView) -> nat {
    (v.capacity - 1 - v.contents.len()) as nat
}

/// How many bytes of a write of `len` bytes fit.
pub open spec fn ring_accepts(v: RingBufferView, len: nat) -> nat {
    if len <= ring_free(v) {
        len
    } else {
        ring_free(v)
    }
}

/// The ring after a successful write of `data`: what fits is appended.
pub open spec fn ring_written(v: RingBufferView, data: Seq<u8>) -> RingBufferView {
    let n = ring_accepts(v, data.len());
    RingBufferView {
        write_pos: v.write_pos + n,
        contents: v.contents + data.take(n as int),
        metadata: RingBufferMetadata { write_count: (v.metadata.write_count + 1) as u64, ..v.metadata },
        ..v
    }
}

/// What a write of `data` answers.
pub open spec fn ring_write_result(v: RingBufferView, data: Seq<u8>) -> Result<usize, MemoryError> {
    if data.len() == 0 {
        Ok(0)
    } else if ring_accepts(v, data.len()) == 0 {
        Err(MemoryError::BufferOverflow { requested: data.len() as usize, capacity: 0 })
    } else {
        Ok(ring_accepts(v, data.len()) as usize)
    }
}

/// The ring after a write of `data`: unchanged for empty data, a counted
/// overflow when nothing fits, else what fits is appended.
pub open spec fn ring_after_write(v: RingBufferView, data: Seq<u8>) -> RingBufferView {
    if data.len() == 0 {
        v
    } else if ring_accepts(v, data.len()) == 0 {
        RingBufferView {
            metadata: RingBufferMetadata {
                overflow_count: (v.metadata.overflow_count + 1) as u64,
                ..v.metadata
            },
            ..v
        }
    } else {
        ring_written(v, data)
    }
}

/// How many bytes a read of at most `max_len` bytes takes.
pub open spec fn ring_takes(v: RingBufferView, max_len: nat) -> nat {
    if max_len <= v.contents.len() {
        max_len
    } else {
        v.contents.len()
    }
}

/// The bytes a read of at most `max_len` bytes answers: the oldest unread ones.
pub open spec fn ring_read_bytes(v: RingBufferView, max_len: nat) -> Seq<u8> {
    v.contents.take(ring_takes(v, max_len) as int)
}

/// The ring after a read of at most `max_len` bytes.
pub open spec fn ring_after_read(v: RingBufferView, max_len: nat) -> RingBufferView {
    if v.contents.len() == 0 {
        v
    } else {
        let n = ring_takes(v, max_len);
        RingBufferView {
            read_pos: v.read_pos + n,
            contents: v.contents.skip(n as int),
            metadata: RingBufferMetadata { read_count: (v.metadata.read_count + 1) as u64, ..v.metadata },
            ..v
        }
    }
}

/// First in, first out: what a ring holds is read back in the order it was
/// written, and bytes written into an empty ring are read back unchanged
/// when the write fits and the read asks for at least as many.
pub proof fn law_ring_fifo(v: RingBufferView, data: Seq<u8>, max_len: nat)
    requires
        data.len() > 0,
        ring_accepts(v, data.len()) > 0,
    ensures
        ring_read_bytes(ring_written(v, data), max_len) == (v.contents + data.take(
            ring_accepts(v, data.len()) as int,
        )).take(ring_takes(ring_written(v, data), max_len) as int),
        v.contents.len() == 0 && data.len() <= ring_free(v) && data.len() <= max_len
            ==> ring_read_bytes(ring_written(v, data), max_len) == data,
        v.contents.len() == 0 && data.len() <= ring_free(v) && data.len() <= max_len
            ==> ring_after_read(ring_written(v, data), max_len).contents.len() == 0,
{
    if v.contents.len() == 0 && data.len() <= ring_free(v) && data.len() <= max_len {
        let w = ring_written(v, data);
        assert(w.contents =~= data);
        assert(ring_read_bytes(w, max_len) =~= data);
        assert(ring_after_read(w, max_len).contents =~= Seq::<u8>::empty());
    }
}

/// One operation on a ring buffer, with its argument.
pub enum RingOp {
    Write(Seq<u8>),
    Read(nat),
    Reset,
}

/// The ring after `op`.
pub open spec fn ring_step(v: RingBufferView, op: RingOp) -> RingBufferView {
    match op {
        RingOp::Write(data) => ring_after_write(v, data),
        RingOp::Read(max_len) => ring_after_read(v, max_len),
        RingOp::Reset => RingBufferView { write_pos: 0, read_pos: 0, contents: Seq::empty(), ..v },
    }
}

/// The ring after `ops`, in order, starting from `v`.
pub open spec fn ring_run(v: RingBufferView, ops: Seq<RingOp>) -> RingBufferView
    decreases ops.len(),
{
    if ops.len() == 0 {
        v
    } else {
        ring_step(ring_run(v, ops.drop_last()), ops.last())
    }
}

/// The bytes that `op` puts into the ring: what a write accepts.
pub open spec fn ring_op_in(v: RingBufferView, op: RingOp) -> Seq<u8> {
    match op {
        RingOp::Write(data) => data.take(ring_accepts(v, data.len()) as int),
        _ => Seq::empty(),
    }
}

/// The bytes that `op` takes out of the ring: what a read answers, or what a
/// reset discards.
pub open spec fn ring_op_out(v: RingBufferView, op: RingOp) -> Seq<u8> {
    match op {
        RingOp::Read(max_len) => ring_read_bytes(v, max_len),
        RingOp::Reset => v.contents,
        RingOp::Write(_) => Seq::empty(),
    }
}

/// Everything that `ops` put into the ring, in order.
pub open spec fn ring_in(v: RingBufferView, ops: Seq<RingOp>) -> Seq<u8>
    decreases ops.len(),
{
    if ops.len() == 0 {
        Seq::empty()
    } else {
        ring_in(v, ops.drop_last()) + ring_op_in(ring_run(v, ops.drop_last()), ops.last())
    }
}

/// Everything that `ops` took out of the ring, in order.
pub open spec fn ring_out(v: RingBufferView, ops: Seq<RingOp>) -> Seq<u8>
    decreases ops.len(),
{
    if ops.len() == 0 {
        Seq::empty()
    } else {
        ring_out(v, ops.drop_last()) + ring_op_out(ring_run(v, ops.drop_last()), ops.last())
    }
}

proof fn lemma_ring_step(v: RingBufferView, op: RingOp)
    ensures
        v.contents + ring_op_in(v, op) == ring_op_out(v, op) + ring_step(v, op).contents,
        ring_step(v, op).capacity == v.capacity,
{
    match op {
        RingOp::Write(data) => {
            if data.len() == 0 || ring_accepts(v, data.len()) == 0 {
                assert(data.take(ring_accepts(v, data.len()) as int) =~= Seq::<u8>::empty());
            }
            assert(v.contents + ring_op_in(v, op) =~= ring_op_out(v, op) + ring_step(v, op).contents);
        },
        RingOp::Read(max_len) => {
            let k = ring_takes(v, max_len) as int;
            if v.contents.len() == 0 {
                assert(v.contents.take(k) =~= Seq::<u8>::empty());
            }
            assert(v.contents + ring_op_in(v, op) =~= ring_op_out(v, op) + ring_step(v, op).contents);
        },
        RingOp::Reset => {
            assert(v.contents + ring_op_in(v, op) =~= ring_op_out(v, op) + ring_step(v, op).contents);
        },
    }
}

/// First in, first out, over any history: starting from a ring `v`, the
/// unread bytes followed by everything the writes accepted are exactly
/// everything the reads answered and the resets discarded, in order,
/// followed by the bytes still unread. So reads hand out accepted bytes in
/// the order they were written, none twice and none skipped, and a read
/// answers the oldest unread bytes. The capacity never changes.
pub proof fn law_ring_history(v: RingBufferView, ops: Seq<RingOp>)
    ensures
        v.contents + ring_in(v, ops) == ring_out(v, ops) + ring_run(v, ops).contents,
        ring_run(v, ops).capacity == v.capacity,
    decreases ops.len(),
{
    if ops.len() == 0 {
        assert(v.contents + ring_in(v, ops) =~= ring_out(v, ops) + ring_run(v, ops).contents);
    } else {
        let p = ops.drop_last();
        let m = ring_run(v, p);
        law_ring_history(v, p);
        lemma_ring_step(m, ops.last());
        let a = ring_op_in(m, ops.last());
        let b = ring_op_out(m, ops.last());
        assert(v.contents + ring_in(v, p) + a =~= v.contents + ring_in(v, ops));
        assert(ring_out(v, p) + m.contents + a =~= ring_out(v, p) + (m.contents + a));
        assert(ring_out(v, p) + (b + ring_run(v, ops).contents) =~= ring_out(v, ops) + ring_run(
            v,
            ops,
        ).contents);
    }
}

impl RingBuffer {
    pub closed spec fn wf(&self) -> bool {
        &&& self.buffer@.len() == self.capacity
        &&& self.capacity > 0
        &&& pow2(self.log2_capacity@) == self.capacity
        &&& self.log2_capacity@ < usize::BITS
        &&& self.capacity + 1 <= usize::MAX
        &&& self.read_pos <= self.write_pos
        &&& self.write_pos - self.read_pos < self.capacity
        &&& self.metadata.capacity == self.capacity
    }

    pub broadcast proof fn lemma_wf_view(&self)
        requires
            #[trigger] self.wf(),
        ensures
            self@.capacity > 0,
            is_power_of_two(self@.capacity),
            self@.read_pos <= self@.write_pos,
            self@.contents.len() == self@.write_pos - self@.read_pos,
            self@.contents.len() < self@.capacity,
            self@.metadata.capacity == self@.capacity,
    {
    }

    /// An empty ring of `capacity` bytes; refused unless `capacity` is a
    /// power of two.
    pub fn new(capacity: usize, id: u32) -> (r: Result<Self, MemoryError>)
        ensures
            match r {
                Ok(rb) => {
                    &&& is_power_of_two(capacity as nat)
                    &&& rb.wf()
                    &&& rb@ == (RingBufferView {
                        capacity: capacity as nat,
                        write_pos: 0,
                        read_pos: 0,
                        contents: Seq::empty(),
                        metadata: RingBufferMetadata {
                            id,
                            capacity,
                            write_count: 0,
                            read_count: 0,
                            overflow_count: 0,
                        },
                    })
                },
                Err(MemoryError::InvalidBuffer { detail }) => {
                    &&& !is_power_of_two(capacity as nat)
                    &&& detail@ == "Ring buffer capacity must be power of 2, got "@ + decimal(
                        capacity as nat,
                    )
                },
                Err(_) => false,
            },
    {
        if capacity == 0 || !check_power_of_two(capacity) {
            proof {
                if capacity == 0 {
                    assert forall|j: nat| pow2(j) != 0 by {
                        lemma_pow2_pos(j);
                    }
                }
            }
            let mut detail = "Ring buffer capacity must be power of 2, got ".to_owned();
            push_decimal(&mut detail, capacity as u64);
            return Err(MemoryError::InvalidBuffer { detail });
        }
        let ghost k = choose|k: nat| pow2(k) == capacity as nat;
        proof {
            unsigned_int_max_values();
            if k >= usize::BITS {
                if k > usize::BITS {
                    lemma_pow2_strictly_increases(usize::BITS as nat, k);
                }
            }
            assert(k < usize::BITS);
            lemma_pow2_unfold(usize::BITS as nat);
            if k + 1 < usize::BITS {
                lemma_pow2_strictly_increases(k, (usize::BITS - 1) as nat);
            }
            assert(usize::BITS == 32 || usize::BITS == 64);
        }
        let rb = RingBuffer {
            buffer: zeroed(capacity),
            write_pos: 0,
            read_pos: 0,
            capacity,
            metadata: RingBufferMetadata {
                id,
                capacity,
                write_count: 0,
                read_count: 0,
                overflow_count: 0,
            },
            log2_capacity: Ghost(k),
        };
        proof {
            assert(rb@.contents =~= Seq::empty());
        }
        Ok(rb)
    }

    /// `write_pos & (capacity - 1)` is the slot of `write_pos`.
    proof fn lemma_mask_slot(&self, pos: usize)
        requires
            self.wf(),
        ensures
            pos & ((self.capacity - 1) as usize) == pos % self.capacity,
    {
        lemma_usize_low_bits_mask_is_mod(pos, self.log2_capacity@);
    }

    /// Space left for writing, from the two positions.
    fn available_write(&self, write_pos: usize, read_pos: usize) -> (r: usize)
        requires
            self.wf(),
            write_pos == self.write_pos,
            read_pos == self.read_pos,
        ensures
            r == ring_free(self@),
    {
        proof {
            lemma_small_mod((write_pos - read_pos) as nat, (self.capacity + 1) as nat);
        }
        let available = self.capacity - (write_pos.saturating_sub(read_pos) % (self.capacity + 1));
        if available == 0 {
            0
        } else {
            available - 1
        }
    }

    /// Writes as much of `data` as fits and answers how much that was; a
    /// full ring refuses a non-empty write.
    pub fn write(&mut self, data: &[u8]) -> (r: Result<usize, MemoryError>)
        requires
            old(self).wf(),
            old(self)@.write_pos + ring_accepts(old(self)@, data@.len()) <= usize::MAX,
            data@.len() > 0 && ring_accepts(old(self)@, data@.len()) > 0 ==> old(self)@.metadata.write_count
                < u64::MAX,
            data@.len() > 0 && ring_accepts(old(self)@, data@.len()) == 0 ==> old(self)@.metadata.overflow_count
                < u64::MAX,
        ensures
            final(self).wf(),
            r == ring_write_result(old(self)@, data@),
            final(self)@ == ring_after_write(old(self)@, data@),
    {
        if data.len() == 0 {
            return Ok(0);
        }
        let write_pos = self.write_pos;
        let read_pos = self.read_pos;
        let available = self.available_write(write_pos, read_pos);
        let to_write = if data.len() < available {
            data.len()
        } else {
            available
        };
        if to_write == 0 {
            self.metadata.overflow_count = self.metadata.overflow_count + 1;
            return Err(MemoryError::BufferOverflow { requested: data.len(), capacity: available });
        }
        let cap = self.capacity;
        let mask = cap - 1;
        let write_idx = write_pos & mask;
        proof {
            self.lemma_mask_slot(write_pos);
        }
        let bytes_to_end = cap - write_idx;
        let ghost old_buf = self.buffer@;
        let mut i: usize = 0;
        while i < to_write
            invariant
                self.wf(),
                self.capacity == cap,
                self.write_pos == write_pos,
                self.read_pos == read_pos,
                self.metadata == old(self).metadata,
                write_idx == write_pos % cap,
                bytes_to_end == cap - write_idx,
                to_write <= data@.len(),
                write_pos - read_pos + to_write < cap,
                i <= to_write,
                forall|j: int|
                    0 <= j < i ==> #[trigger] ring_at(self.buffer@, cap as int, write_pos as int, j) == data@[j],
                forall|k: int|
                    0 <= k < write_pos - read_pos ==> #[trigger] ring_at(self.buffer@, cap as int, read_pos as int, k)
                        == ring_at(old_buf, cap as int, read_pos as int, k),
            decreases to_write - i,
        {
            let idx = if i < bytes_to_end {
                write_idx + i
            } else {
                i - bytes_to_end
            };
            proof {
                lemma_slot_step(cap as int, write_pos as int, i as int);
                assert(idx == (write_pos + i) % (cap as int));
            }
            let ghost before = self.buffer@;
            self.buffer.set(idx, data[i]);
            proof {
                assert forall|j: int| 0 <= j < i + 1 implies #[trigger] ring_at(self.buffer@, cap as int, write_pos as int, j)
                    == data@[j] by {
                    if j < i {
                        lemma_slot_distinct(cap as int, write_pos + j, write_pos + i);
                        assert(ring_at(before, cap as int, write_pos as int, j) == data@[j]);
                    }
                }
                assert forall|k: int| 0 <= k < write_pos - read_pos implies #[trigger] ring_at(self.buffer@, cap as int, read_pos as int, k)
                    == ring_at(old_buf, cap as int, read_pos as int, k) by {
                    lemma_slot_distinct(cap as int, read_pos + k, write_pos + i);
                    assert(ring_at(before, cap as int, read_pos as int, k) == ring_at(old_buf, cap as int, read_pos as int, k));
                }
            }
            i = i + 1;
        }
        self.write_pos = write_pos + to_write;
        self.metadata.write_count = self.metadata.write_count + 1;
        proof {
            let before = old(self)@;
            let c = ring_contents(self.buffer@, cap as nat, read_pos as nat, self.write_pos as nat);
            let expect = before.contents + data@.take(to_write as int);
            assert forall|x: int| 0 <= x < c.len() implies c[x] == expect[x] by {
                if x >= write_pos - read_pos {
                    let j = x - (write_pos - read_pos);
                    assert(read_pos + x == write_pos + j);
                    assert(ring_at(self.buffer@, cap as int, write_pos as int, j) == data@[j]);
                } else {
                    assert(ring_at(self.buffer@, cap as int, read_pos as int, x) == ring_at(old_buf, cap as int, read_pos as int, x));
                }
            }
            assert(c =~= expect);
        }
        Ok(to_write)
    }

    /// Reads up to `max_len` unread bytes, oldest first.
    pub fn read(&mut self, max_len: usize) -> (r: Result<Vec<u8>, MemoryError>)
        requires
            old(self).wf(),
            old(self)@.metadata.read_count < u64::MAX,
        ensures
            final(self).wf(),
            r matches Ok(bytes) && bytes@ == ring_read_bytes(old(self)@, max_len as nat),
            final(self)@ == ring_after_read(old(self)@, max_len as nat),
    {
        let read_pos = self.read_pos;
        let write_pos = self.write_pos;
        let available = write_pos.saturating_sub(read_pos);
        if available == 0 {
            proof {
                assert(old(self)@.contents.take(0) =~= Seq::<u8>::empty());
            }
            return Ok(Vec::new());
        }
        let to_read = if max_len < available {
            max_len
        } else {
            available
        };
        let cap = self.capacity;
        let mask = cap - 1;
        let read_idx = read_pos & mask;
        proof {
            self.lemma_mask_slot(read_pos);
        }
        let bytes_to_end = cap - read_idx;
        let mut result: Vec<u8> = Vec::with_capacity(to_read);
        let mut i: usize = 0;
        while i < to_read
            invariant
                self == old(self),
                self.wf(),
                cap == self.capacity,
                read_pos == self.read_pos,
                write_pos == self.write_pos,
                read_idx == read_pos % cap,
                bytes_to_end == cap - read_idx,
                to_read <= write_pos - read_pos,
                i <= to_read,
                result@ == self@.contents.take(i as int),
            decreases to_read - i,
        {
            let idx = if i < bytes_to_end {
                read_idx + i
            } else {
                i - bytes_to_end
            };
            proof {
                lemma_slot_step(cap as int, read_pos as int, i as int);
            }
            result.push(self.buffer[idx]);
            i = i + 1;
            proof {
                assert(result@ =~= self@.contents.take(i as int));
            }
        }
        self.read_pos = read_pos + to_read;
        self.metadata.read_count = self.metadata.read_count + 1;
        proof {
            let c = ring_contents(self.buffer@, cap as nat, self.read_pos as nat, write_pos as nat);
            assert(c =~= old(self)@.contents.skip(to_read as int));
        }
        Ok(result)
    }

    /// Unread bytes.
    pub fn available_read(&self) -> (r: usize)
        requires
            self.wf(),
        ensures
            r == self@.contents.len(),
    {
        self.write_pos.saturating_sub(self.read_pos)
    }

    /// Empties the ring and zeroes its storage; the metadata stays.
    pub fn reset(&mut self)
        requires
            old(self).wf(),
        ensures
            final(self).wf(),
            final(self)@ == (RingBufferView {
                write_pos: 0,
                read_pos: 0,
                contents: Seq::empty(),
                ..old(self)@
            }),
    {
        self.write_pos = 0;
        self.read_pos = 0;
        let mut i: usize = 0;
        while i < self.buffer.len()
            invariant
                self.wf(),
                self.write_pos == 0,
                self.read_pos == 0,
                self.capacity == old(self).capacity,
                self.metadata == old(self).metadata,
            decreases self.buffer@.len() - i,
        {
            self.buffer.set(i, 0);
            i = i + 1;
        }
        proof {
            assert(self@.contents =~= Seq::empty());
        }
    }

    pub fn stats(&self) -> (r: RingBufferMetadata)
        ensures
            r == self@.metadata,
    {
        self.metadata
    }
}

/// Metadata of a bounded buffer.
#[derive(Clone, Copy, Debug)]
pub struct BufferMetadata {
    pub id: u32,
    pub capacity: usize,
    pub allocation_count: u64,
    pub deallocation_count: u64,
    pub peak_watermark: usize,
    pub integrity_violations: u64,
    pub created_at: u64,
}

/// The mathematical state of a bounded buffer.
pub struct BoundedBufferView {
    pub bytes: Seq<u8>,
    pub watermark: nat,
    pub metadata: BufferMetadata,
}

/// A fixed block of bytes from which allocations are carved in order.
pub struct BoundedBuffer {
    buffer: Vec<u8>,
    metadata: BufferMetadata,
    watermark: usize,
}

impl View for BoundedBuffer {
    type V = BoundedBufferView;

    closed spec fn view(&self) -> BoundedBufferView {
        BoundedBufferView {
            bytes: self.buffer@,
            watermark: self.watermark as nat,
            metadata: self.metadata,
        }
    }
}

/// What an allocation of `size` bytes answers: `size` zero bytes, or the
/// refusal with what was asked and what was left.
pub open spec fn allocation_result(v: BoundedBufferView, size: usize, r: Result<Vec<u8>, MemoryError>) -> bool {
    let end = v.watermark + size;
    if end > usize::MAX {
        r matches Err(MemoryError::AllocationFailed { requested, available }) && requested == size
            && available == 0
    } else if end > v.bytes.len() {
        r matches Err(MemoryError::AllocationFailed { requested, available }) && requested == size
            && available == v.bytes.len() - v.watermark
    } else {
        r matches Ok(z) && z@ == Seq::new(size as nat, |i: int| 0u8)
    }
}

/// The buffer after an allocation of `size` bytes: the watermark rises when
/// the bytes are there, and the peak follows it.
pub open spec fn after_allocation(v: BoundedBufferView, size: usize) -> BoundedBufferView {
    let end = v.watermark + size;
    if end > v.bytes.len() {
        v
    } else {
        BoundedBufferView {
            watermark: end as nat,
            metadata: BufferMetadata {
                allocation_count: (v.metadata.allocation_count + 1) as u64,
                peak_watermark: if v.metadata.peak_watermark >= end {
                    v.metadata.peak_watermark
                } else {
                    end as usize
                },
                ..v.metadata
            },
            ..v
        }
    }
}

/// The buffer with `data` written at `offset`.
pub open spec fn overwrite(bytes: Seq<u8>, offset: int, data: Seq<u8>) -> Seq<u8> {
    bytes.subrange(0, offset) + data + bytes.subrange(offset + data.len(), bytes.len() as int)
}

impl BoundedBuffer {
    pub closed spec fn wf(&self) -> bool {
        &&& self.buffer@.len() == self.metadata.capacity
        &&& self.watermark <= self.metadata.capacity
        &&& self.metadata.peak_watermark <= self.metadata.capacity
    }

    pub broadcast proof fn lemma_wf_view(&self)
        requires
            #[trigger] self.wf(),
        ensures
            self@.bytes.len() == self@.metadata.capacity,
            self@.watermark <= self@.metadata.capacity,
    {
    }

    /// A zeroed buffer of `capacity` bytes created at `now`.
    pub fn new_at(capacity: usize, id: u32, now: u64) -> (b: Self)
        ensures
            b.wf(),
            b@ == (BoundedBufferView {
                bytes: Seq::new(capacity as nat, |i: int| 0u8),
                watermark: 0,
                metadata: BufferMetadata {
                    id,
                    capacity,
                    allocation_count: 0,
                    deallocation_count: 0,
                    peak_watermark: 0,
                    integrity_violations: 0,
                    created_at: now,
                },
            }),
    {
        BoundedBuffer {
            buffer: zeroed(capacity),
            metadata: BufferMetadata {
                id,
                capacity,
                allocation_count: 0,
                deallocation_count: 0,
                peak_watermark: 0,
                integrity_violations: 0,
                created_at: now,
            },
            watermark: 0,
        }
    }

    /// A zeroed buffer of `capacity` bytes, stamped with the current time.
    pub fn new(capacity: usize, id: u32) -> (b: Self)
        ensures
            b.wf(),
            b@ == (BoundedBufferView {
                bytes: Seq::new(capacity as nat, |i: int| 0u8),
                watermark: 0,
                metadata: BufferMetadata {
                    id,
                    capacity,
                    allocation_count: 0,
                    deallocation_count: 0,
                    peak_watermark: 0,
                    integrity_violations: 0,
                    created_at: b@.metadata.created_at,
                },
            }),
    {
        Self::new_at(capacity, id, unix_time_secs())
    }

    /// Raises the watermark by `size` and answers `size` zero bytes; refused
    /// when the buffer has fewer than `size` bytes left.
    pub fn allocate(&mut self, size: usize) -> (r: Result<Vec<u8>, MemoryError>)
        requires
            old(self).wf(),
            old(self)@.metadata.allocation_count < u64::MAX,
        ensures
            final(self).wf(),
            allocation_result(old(self)@, size, r),
            final(self)@ == after_allocation(old(self)@, size),
    {
        let current = self.watermark;
        let new_watermark = match current.checked_add(size) {
            Some(w) => w,
            None => {
                return Err(MemoryError::AllocationFailed { requested: size, available: 0 });
            },
        };
        if new_watermark > self.buffer.len() {
            return Err(
                MemoryError::AllocationFailed {
                    requested: size,
                    available: self.buffer.len().saturating_sub(current),
                },
            );
        }
        self.watermark = new_watermark;
        self.metadata.allocation_count = self.metadata.allocation_count + 1;
        if self.metadata.peak_watermark < new_watermark {
            self.metadata.peak_watermark = new_watermark;
        }
        Ok(zeroed(size))
    }

    /// Copies `data` into the buffer at `offset`; refused when it would run
    /// past the end.
    pub fn write(&mut self, offset: usize, data: &[u8]) -> (r: Result<(), MemoryError>)
        requires
            old(self).wf(),
            offset + data@.len() <= usize::MAX,
        ensures
            final(self).wf(),
            offset + data@.len() > old(self)@.bytes.len() ==> {
                &&& r matches Err(MemoryError::BufferOverflow { requested, capacity })
                &&& requested == data@.len()
                &&& capacity == (if offset <= old(self)@.bytes.len() {
                    old(self)@.bytes.len() - offset
                } else {
                    0
                })
                &&& final(self)@ == old(self)@
            },
            offset + data@.len() <= old(self)@.bytes.len() ==> {
                &&& r is Ok
                &&& final(self)@ == (BoundedBufferView {
                    bytes: overwrite(old(self)@.bytes, offset as int, data@),
                    ..old(self)@
                })
            },
    {
        if offset + data.len() > self.buffer.len() {
            return Err(
                MemoryError::BufferOverflow {
                    requested: data.len(),
                    capacity: self.buffer.len().saturating_sub(offset),
                },
            );
        }
        let mut i: usize = 0;
        while i < data.len()
            invariant
                self.wf(),
                self.metadata == old(self).metadata,
                self.watermark == old(self).watermark,
                offset + data@.len() <= self.buffer@.len(),
                i <= data@.len(),
                self.buffer@.len() == old(self).buffer@.len(),
                forall|x: int|
                    0 <= x < self.buffer@.len() ==> #[trigger] self.buffer@[x] == (if offset <= x < offset + i {
                        data@[x - offset]
                    } else {
                        old(self).buffer@[x]
                    }),
            decreases data@.len() - i,
        {
            self.buffer.set(offset + i, data[i]);
            i = i + 1;
        }
        proof {
            let expect = overwrite(old(self).buffer@, offset as int, data@);
            assert forall|x: int| 0 <= x < self.buffer@.len() implies self.buffer@[x] == expect[x] by {
                if x < offset {
                } else if x < offset + data@.len() {
                } else {
                }
            }
            assert(self.buffer@ =~= expect);
        }
        Ok(())
    }

    /// The `len` bytes at `offset`; refused when they run past the end.
    pub fn read(&self, offset: usize, len: usize) -> (r: Result<Vec<u8>, MemoryError>)
        requires
            self.wf(),
            offset + len <= usize::MAX,
        ensures
            offset + len > self@.bytes.len() ==> (r matches Err(MemoryError::InvalidBuffer { detail })
                && detail@ == "Read out of bounds: offset="@ + decimal(offset as nat) + ", len="@
                + decimal(len as nat) + ", capacity="@ + decimal(self@.bytes.len())),
            offset + len <= self@.bytes.len() ==> (r matches Ok(v) && v@ == self@.bytes.subrange(
                offset as int,
                offset + len,
            )),
    {
        if offset + len > self.buffer.len() {
            let mut detail = "Read out of bounds: offset=".to_owned();
            push_decimal(&mut detail, offset as u64);
            detail.append(", len=");
            push_decimal(&mut detail, len as u64);
            detail.append(", capacity=");
            push_decimal(&mut detail, self.buffer.len() as u64);
            return Err(MemoryError::InvalidBuffer { detail });
        }
        Ok(copy_range(self.buffer.as_slice(), offset, offset + len))
    }

    /// The BLAKE3 digest of the whole buffer, in hexadecimal.
    pub fn compute_integrity_hash(&self) -> (h: String)
        ensures
            h@ == hex_lower(blake3_digest(self@.bytes)),
    {
        blake3_hex(self.buffer.as_slice())
    }

    /// Compares the buffer's digest with `expected_hash`; a mismatch is
    /// counted as an integrity violation and answered as corruption.
    pub fn verify_integrity(&mut self, expected_hash: &str) -> (r: Result<bool, MemoryError>)
        requires
            old(self).wf(),
            old(self)@.metadata.integrity_violations < u64::MAX,
        ensures
            final(self).wf(),
            ({
                let computed = hex_lower(blake3_digest(old(self)@.bytes));
                if computed == expected_hash@ {
                    r == Ok::<bool, MemoryError>(true) && final(self)@ == old(self)@
                } else {
                    &&& r matches Err(MemoryError::CorruptionDetected { detail })
                    &&& detail@ == "Hash mismatch: expected "@ + expected_hash@ + ", got "@ + computed
                    &&& final(self)@ == (BoundedBufferView {
                        metadata: BufferMetadata {
                            integrity_violations: (old(self)@.metadata.integrity_violations
                                + 1) as u64,
                            ..old(self)@.metadata
                        },
                        ..old(self)@
                    })
                }
            }),
    {
        let computed = self.compute_integrity_hash();
        if computed != expected_hash.to_owned() {
            self.metadata.integrity_violations = self.metadata.integrity_violations + 1;
            let mut detail = "Hash mismatch: expected ".to_owned();
            detail.append(expected_hash);
            detail.append(", got ");
            detail.append(computed.as_str());
            Err(MemoryError::CorruptionDetected { detail })
        } else {
            Ok(true)
        }
    }

    pub fn stats(&self) -> (r: BufferMetadata)
        ensures
            r == self@.metadata,
    {
        self.metadata
    }

    pub fn current_watermark(&self) -> (r: usize)
        ensures
            r == self@.watermark,
    {
        self.watermark
    }

    /// Clears the watermark and zeroes the bytes; the metadata stays.
    pub fn reset(&mut self)
        requires
            old(self).wf(),
        ensures
            final(self).wf(),
            final(self)@ == (BoundedBufferView {
                bytes: Seq::new(old(self)@.bytes.len(), |i: int| 0u8),
                watermark: 0,
                ..old(self)@
            }),
    {
        self.watermark = 0;
        let mut i: usize = 0;
        while i < self.buffer.len()
            invariant
                self.wf(),
                self.watermark == 0,
                self.metadata == old(self).metadata,
                i <= self.buffer@.len(),
                forall|j: int| 0 <= j < i ==> self.buffer@[j] == 0u8,
            decreases self.buffer@.len() - i,
        {
            self.buffer.set(i, 0);
            i = i + 1;
        }
        proof {
            assert(self.buffer@ =~= Seq::new(old(self)@.bytes.len(), |i: int| 0u8));
        }
    }
}

/// A hashed snapshot of some bytes.
#[derive(Clone, Debug)]
pub struct CheckpointRegion {
    pub id: u32,
    pub data: Vec<u8>,
    pub hash: String,
    pub sequence: u64,
    pub timestamp: u64,
}

impl CheckpointRegion {
    /// A checkpoint of `data` taken at `now`, sealed with its BLAKE3 digest.
    pub fn create_at(id: u32, data: Vec<u8>, sequence: u64, now: u64) -> (cp: Self)
        ensures
            cp.id == id,
            cp.data@ == data@,
            cp.hash@ == hex_lower(blake3_digest(data@)),
            cp.sequence == sequence,
            cp.timestamp == now,
    {
        let hash = blake3_hex(data.as_slice());
        CheckpointRegion { id, hash, data, sequence, timestamp: now }
    }

    /// A checkpoint of `data` stamped with the current time.
    pub fn create(id: u32, data: Vec<u8>, sequence: u64) -> (cp: Self)
        ensures
            cp.id == id,
            cp.data@ == data@,
            cp.hash@ == hex_lower(blake3_digest(data@)),
            cp.sequence == sequence,
    {
        Self::create_at(id, data, sequence, unix_time_secs())
    }

    /// Whether the data still hashes to the sealed digest.
    pub fn verify(&self) -> (r: Result<bool, MemoryError>)
        ensures
            hex_lower(blake3_digest(self.data@)) == self.hash@ ==> r == Ok::<bool, MemoryError>(true),
            hex_lower(blake3_digest(self.data@)) != self.hash@ ==> (r matches Err(
                MemoryError::CorruptionDetected { detail },
            ) && detail@ == "Checkpoint "@ + decimal(self.id as nat) + " hash mismatch"@),
    {
        let computed = blake3_hex(self.data.as_slice());
        if computed != self.hash {
            let mut detail = "Checkpoint ".to_owned();
            push_decimal(&mut detail, self.id as u64);
            detail.append(" hash mismatch");
            return Err(MemoryError::CorruptionDetected { detail });
        }
        Ok(true)
    }
}

/// What a write at `offset` puts into a bounded buffer is what a read of the
/// same range gives back, and the bytes around it stay as they were.
pub proof fn law_bounded_write_then_read(bytes: Seq<u8>, offset: int, data: Seq<u8>)
    requires
        0 <= offset,
        offset + data.len() <= bytes.len(),
    ensures
        overwrite(bytes, offset, data).len() == bytes.len(),
        overwrite(bytes, offset, data).subrange(offset, offset + data.len()) == data,
        overwrite(bytes, offset, data).subrange(0, offset) == bytes.subrange(0, offset),
        overwrite(bytes, offset, data).subrange(offset + data.len(), bytes.len() as int)
            == bytes.subrange(offset + data.len(), bytes.len() as int),
{
    let o = overwrite(bytes, offset, data);
    assert(o.subrange(offset, offset + data.len()) =~= data);
    assert(o.subrange(0, offset) =~= bytes.subrange(0, offset));
    assert(o.subrange(offset + data.len(), bytes.len() as int) =~= bytes.subrange(
        offset + data.len(),
        bytes.len() as int,
    ));
}

/// Memory statistics.
#[derive(Clone, Copy, Debug)]
pub struct MemoryStats {
    pub total_memory: u64,
    pub allocated: u64,
    pub available: u64,
    pub buffer_count: usize,
    pub ring_buffer_count: usize,
    pub checkpoint_count: usize,
}

/// The sum of the capacities of some bounded buffers.
pub open spec fn bounded_capacity(buffers: Seq<BoundedBufferView>) -> nat
    decreases buffers.len(),
{
    if buffers.len() == 0 {
        0
    } else {
        bounded_capacity(buffers.drop_last()) + buffers.last().metadata.capacity as nat
    }
}

/// The sum of the watermarks of some bounded buffers.
pub open spec fn allocated_bytes(buffers: Seq<BoundedBufferView>) -> nat
    decreases buffers.len(),
{
    if buffers.len() == 0 {
        0
    } else {
        allocated_bytes(buffers.drop_last()) + buffers.last().watermark
    }
}

/// The sum of the capacities of some ring buffers.
pub open spec fn ring_capacity(rings: Seq<RingBufferView>) -> nat
    decreases rings.len(),
{
    if rings.len() == 0 {
        0
    } else {
        ring_capacity(rings.drop_last()) + rings.last().capacity
    }
}

/// The mathematical state of a memory manager.
pub struct MemoryManagerView {
    pub buffers: Seq<BoundedBufferView>,
    pub rings: Seq<RingBufferView>,
    pub checkpoints: Seq<CheckpointRegion>,
    /// The capacity handed out so far.
    pub total_memory: u64,
    pub max_memory: u64,
}

/// Coordinates bounded buffers, ring buffers and checkpoints within a
/// memory budget. Buffers are reached through the handles it hands out.
pub struct MemoryManager {
    buffers: Vec<BoundedBuffer>,
    ring_buffers: Vec<RingBuffer>,
    checkpoints: Vec<CheckpointRegion>,
    total_memory: u64,
    max_memory: u64,
}

impl View for MemoryManager {
    type V = MemoryManagerView;

    closed spec fn view(&self) -> MemoryManagerView {
        MemoryManagerView {
            buffers: self.buffers@.map_values(|b: BoundedBuffer| b@),
            rings: self.ring_buffers@.map_values(|r: RingBuffer| r@),
            checkpoints: self.checkpoints@,
            total_memory: self.total_memory,
            max_memory: self.max_memory,
        }
    }
}

proof fn lemma_allocated_within_capacity(buffers: Seq<BoundedBufferView>)
    requires
        forall|i: int| 0 <= i < buffers.len() ==> #[trigger] buffers[i].watermark <= buffers[i].metadata.capacity,
    ensures
        allocated_bytes(buffers) <= bounded_capacity(buffers),
    decreases buffers.len(),
{
    if buffers.len() > 0 {
        lemma_allocated_within_capacity(buffers.drop_last());
        assert(buffers.last().watermark <= buffers.last().metadata.capacity);
    }
}

impl MemoryManager {
    pub closed spec fn wf(&self) -> bool {
        &&& forall|i: int| 0 <= i < self.buffers@.len() ==> #[trigger] self.buffers@[i].wf()
        &&& forall|i: int| 0 <= i < self.ring_buffers@.len() ==> #[trigger] self.ring_buffers@[i].wf()
        &&& bounded_capacity(self@.buffers) + ring_capacity(self@.rings) == self.total_memory
        &&& self.total_memory <= self.max_memory
    }

    pub broadcast proof fn lemma_wf_view(&self)
        requires
            #[trigger] self.wf(),
        ensures
            bounded_capacity(self@.buffers) + ring_capacity(self@.rings) == self@.total_memory,
            self@.total_memory <= self@.max_memory,
            forall|i: int| 0 <= i < self@.buffers.len() ==> #[trigger] self@.buffers[i].watermark <= self@.buffers[i].metadata.capacity,
    {
        assert forall|i: int| 0 <= i < self@.buffers.len() implies #[trigger] self@.buffers[i].watermark <= self@.buffers[i].metadata.capacity by {
            assert(self.buffers@[i].wf());
        }
    }

    /// A manager of `max_memory` bytes that has handed out nothing.
    pub fn new(max_memory: u64) -> (mm: Self)
        ensures
            mm.wf(),
            mm@ == (MemoryManagerView {
                buffers: Seq::empty(),
                rings: Seq::empty(),
                checkpoints: Seq::empty(),
                total_memory: 0,
                max_memory,
            }),
    {
        let mm = MemoryManager {
            buffers: Vec::new(),
            ring_buffers: Vec::new(),
            checkpoints: Vec::new(),
            total_memory: 0,
            max_memory,
        };
        proof {
            assert(mm@.buffers =~= Seq::empty());
            assert(mm@.rings =~= Seq::empty());
        }
        mm
    }

    /// Adds a bounded buffer of `capacity` bytes and answers its handle;
    /// refused when it would take the total past the budget.
    pub fn add_bounded_buffer(&mut self, capacity: usize, id: u32) -> (r: Result<usize, MemoryError>)
        requires
            old(self).wf(),
            old(self)@.total_memory + capacity <= usize::MAX,
        ensures
            final(self).wf(),
            old(self)@.total_memory + capacity > old(self)@.max_memory ==> {
                &&& r matches Err(MemoryError::AllocationFailed { requested, available })
                &&& requested == capacity
                &&& available == (old(self)@.max_memory - old(self)@.total_memory) as usize
                &&& final(self)@ == old(self)@
            },
            old(self)@.total_memory + capacity <= old(self)@.max_memory ==> {
                &&& r == Ok::<usize, MemoryError>(old(self)@.buffers.len() as usize)
                &&& final(self)@.buffers.len() == old(self)@.buffers.len() + 1
                &&& final(self)@.buffers.drop_last() == old(self)@.buffers
                &&& final(self)@.buffers.last() == (BoundedBufferView {
                    bytes: Seq::new(capacity as nat, |i: int| 0u8),
                    watermark: 0,
                    metadata: BufferMetadata {
                        id,
                        capacity,
                        allocation_count: 0,
                        deallocation_count: 0,
                        peak_watermark: 0,
                        integrity_violations: 0,
                        created_at: final(self)@.buffers.last().metadata.created_at,
                    },
                })
                &&& final(self)@.rings == old(self)@.rings
                &&& final(self)@.checkpoints == old(self)@.checkpoints
                &&& final(self)@.total_memory == old(self)@.total_memory + capacity
                &&& final(self)@.max_memory == old(self)@.max_memory
            },
    {
        let current = self.total_memory;
        if current as u128 + capacity as u128 > self.max_memory as u128 {
            return Err(
                MemoryError::AllocationFailed {
                    requested: capacity,
                    available: (self.max_memory - current) as usize,
                },
            );
        }
        let buffer = BoundedBuffer::new(capacity, id);
        let handle = self.buffers.len();
        self.buffers.push(buffer);
        self.total_memory = current + capacity as u64;
        proof {
            assert(self@.buffers.drop_last() =~= old(self)@.buffers);
            assert(self@.rings =~= old(self)@.rings);
        }
        Ok(handle)
    }

    /// Adds a ring buffer of `capacity` bytes and answers its handle;
    /// refused over budget or when `capacity` is not a power of two.
    pub fn add_ring_buffer(&mut self, capacity: usize, id: u32) -> (r: Result<usize, MemoryError>)
        requires
            old(self).wf(),
            old(self)@.total_memory + capacity <= usize::MAX,
        ensures
            final(self).wf(),
            old(self)@.total_memory + capacity > old(self)@.max_memory ==> {
                &&& r matches Err(MemoryError::AllocationFailed { requested, available })
                &&& requested == capacity
                &&& available == (old(self)@.max_memory - old(self)@.total_memory) as usize
                &&& final(self)@ == old(self)@
            },
            old(self)@.total_memory + capacity <= old(self)@.max_memory && !is_power_of_two(
                capacity as nat,
            ) ==> {
                &&& r matches Err(MemoryError::InvalidBuffer { detail })
                &&& detail@ == "Ring buffer capacity must be power of 2, got "@ + decimal(
                    capacity as nat,
                )
                &&& final(self)@ == old(self)@
            },
            old(self)@.total_memory + capacity <= old(self)@.max_memory && is_power_of_two(
                capacity as nat,
            ) ==> {
                &&& r == Ok::<usize, MemoryError>(old(self)@.rings.len() as usize)
                &&& final(self)@.rings == old(self)@.rings.push(
                    RingBufferView {
                        capacity: capacity as nat,
                        write_pos: 0,
                        read_pos: 0,
                        contents: Seq::empty(),
                        metadata: RingBufferMetadata {
                            id,
                            capacity,
                            write_count: 0,
                            read_count: 0,
                            overflow_count: 0,
                        },
                    },
                )
                &&& final(self)@.buffers == old(self)@.buffers
                &&& final(self)@.checkpoints == old(self)@.checkpoints
                &&& final(self)@.total_memory == old(self)@.total_memory + capacity
                &&& final(self)@.max_memory == old(self)@.max_memory
            },
    {
        let current = self.total_memory;
        if current as u128 + capacity as u128 > self.max_memory as u128 {
            return Err(
                MemoryError::AllocationFailed {
                    requested: capacity,
                    available: (self.max_memory - current) as usize,
                },
            );
        }
        let ring = match RingBuffer::new(capacity, id) {
            Ok(ring) => ring,
            Err(e) => {
                return Err(e);
            },
        };
        let handle = self.ring_buffers.len();
        self.ring_buffers.push(ring);
        self.total_memory = current + capacity as u64;
        proof {
            assert(self@.rings =~= old(self)@.rings.push(ring@));
            assert(self@.rings.drop_last() =~= old(self)@.rings);
            assert(self@.buffers =~= old(self)@.buffers);
        }
        Ok(handle)
    }

    /// The bounded buffer behind `handle`.
    pub fn bounded_buffer(&self, handle: usize) -> (b: &BoundedBuffer)
        requires
            self.wf(),
            handle < self@.buffers.len(),
        ensures
            b@ == self@.buffers[handle as int],
            b.wf(),
    {
        &self.buffers[handle]
    }

    /// The ring buffer behind `handle`.
    pub fn ring_buffer(&self, handle: usize) -> (b: &RingBuffer)
        requires
            self.wf(),
            handle < self@.rings.len(),
        ensures
            b@ == self@.rings[handle as int],
            b.wf(),
    {
        &self.ring_buffers[handle]
    }

    /// Writes `data` into the ring buffer behind `handle`, as
    /// `RingBuffer::write` does.
    pub fn write_ring(&mut self, handle: usize, data: &[u8]) -> (r: Result<usize, MemoryError>)
        requires
            old(self).wf(),
            handle < old(self)@.rings.len(),
            old(self)@.rings[handle as int].write_pos + ring_accepts(old(self)@.rings[handle as int], data@.len())
                <= usize::MAX,
            data@.len() > 0 && ring_accepts(old(self)@.rings[handle as int], data@.len()) > 0
                ==> old(self)@.rings[handle as int].metadata.write_count < u64::MAX,
            data@.len() > 0 && ring_accepts(old(self)@.rings[handle as int], data@.len()) == 0
                ==> old(self)@.rings[handle as int].metadata.overflow_count < u64::MAX,
        ensures
            final(self).wf(),
            r == ring_write_result(old(self)@.rings[handle as int], data@),
            final(self)@ == (MemoryManagerView {
                rings: old(self)@.rings.update(
                    handle as int,
                    ring_after_write(old(self)@.rings[handle as int], data@),
                ),
                ..old(self)@
            }),
    {
        let ghost before = self.ring_buffers@;
        let r = self.ring_buffers[handle].write(data);
        proof {
            assert(self.ring_buffers@ =~= before.update(handle as int, self.ring_buffers@[handle as int]));
            assert(self@.rings =~= old(self)@.rings.update(handle as int, self.ring_buffers@[handle as int]@));
            lemma_ring_capacity_update(old(self)@.rings, handle as int, self.ring_buffers@[handle as int]@);
            assert(self@.buffers =~= old(self)@.buffers);
        }
        r
    }

    /// Reads up to `max_len` bytes from the ring buffer behind `handle`, as
    /// `RingBuffer::read` does.
    pub fn read_ring(&mut self, handle: usize, max_len: usize) -> (r: Result<Vec<u8>, MemoryError>)
        requires
            old(self).wf(),
            handle < old(self)@.rings.len(),
            old(self)@.rings[handle as int].metadata.read_count < u64::MAX,
        ensures
            final(self).wf(),
            r matches Ok(bytes) && bytes@ == ring_read_bytes(old(self)@.rings[handle as int], max_len as nat),
            final(self)@ == (MemoryManagerView {
                rings: old(self)@.rings.update(
                    handle as int,
                    ring_after_read(old(self)@.rings[handle as int], max_len as nat),
                ),
                ..old(self)@
            }),
    {
        let ghost before = self.ring_buffers@;
        let r = self.ring_buffers[handle].read(max_len);
        proof {
            assert(self.ring_buffers@ =~= before.update(handle as int, self.ring_buffers@[handle as int]));
            assert(self@.rings =~= old(self)@.rings.update(handle as int, self.ring_buffers@[handle as int]@));
            lemma_ring_capacity_update(old(self)@.rings, handle as int, self.ring_buffers@[handle as int]@);
            assert(self@.buffers =~= old(self)@.buffers);
        }
        r
    }

    /// Allocates `size` bytes from the bounded buffer behind `handle`, as
    /// `BoundedBuffer::allocate` does.
    pub fn allocate(&mut self, handle: usize, size: usize) -> (r: Result<Vec<u8>, MemoryError>)
        requires
            old(self).wf(),
            handle < old(self)@.buffers.len(),
            old(self)@.buffers[handle as int].metadata.allocation_count < u64::MAX,
        ensures
            final(self).wf(),
            allocation_result(old(self)@.buffers[handle as int], size, r),
            final(self)@ == (MemoryManagerView {
                buffers: old(self)@.buffers.update(
                    handle as int,
                    after_allocation(old(self)@.buffers[handle as int], size),
                ),
                ..old(self)@
            }),
    {
        let ghost before = self.buffers@;
        let r = self.buffers[handle].allocate(size);
        proof {
            assert(self.buffers@ =~= before.update(handle as int, self.buffers@[handle as int]));
            assert(self@.buffers =~= old(self)@.buffers.update(handle as int, self.buffers@[handle as int]@));
            lemma_bounded_capacity_update(old(self)@.buffers, handle as int, self.buffers@[handle as int]@);
            assert(self@.rings =~= old(self)@.rings);
        }
        r
    }

    /// Records a checkpoint of `data` under `sequence`.
    pub fn checkpoint(&mut self, id: u32, data: Vec<u8>, sequence: u64) -> (r: Result<(), MemoryError>)
        requires
            old(self).wf(),
        ensures
            final(self).wf(),
            r is Ok,
            final(self)@.checkpoints.len() == old(self)@.checkpoints.len() + 1,
            final(self)@.checkpoints.drop_last() == old(self)@.checkpoints,
            final(self)@.checkpoints.last().id == id,
            final(self)@.checkpoints.last().data@ == data@,
            final(self)@.checkpoints.last().hash@ == hex_lower(blake3_digest(data@)),
            final(self)@.checkpoints.last().sequence == sequence,
            final(self)@.buffers == old(self)@.buffers,
            final(self)@.rings == old(self)@.rings,
            final(self)@.total_memory == old(self)@.total_memory,
            final(self)@.max_memory == old(self)@.max_memory,
    {
        let cp = CheckpointRegion::create(id, data, sequence);
        self.checkpoints.push(cp);
        proof {
            assert(self@.checkpoints.drop_last() =~= old(self)@.checkpoints);
        }
        Ok(())
    }

    /// The data of the first checkpoint recorded under `sequence`, once its
    /// digest is confirmed.
    pub fn restore_checkpoint(&self, sequence: u64) -> (r: Result<Vec<u8>, MemoryError>)
        ensures
            (forall|i: int| 0 <= i < self@.checkpoints.len() ==> #[trigger] self@.checkpoints[i].sequence != sequence)
                ==> (r matches Err(MemoryError::CheckpointError { reason }) && reason@
                == "Checkpoint "@ + decimal(sequence as nat) + " not found"@),
            forall|i: int|
                0 <= i < self@.checkpoints.len() && #[trigger] self@.checkpoints[i].sequence == sequence
                    && (forall|j: int| 0 <= j < i ==> self@.checkpoints[j].sequence != sequence)
                    ==> {
                    let cp = self@.checkpoints[i];
                    if hex_lower(blake3_digest(cp.data@)) == cp.hash@ {
                        r matches Ok(d) && d@ == cp.data@
                    } else {
                        r matches Err(MemoryError::CorruptionDetected { detail }) && detail@
                            == "Checkpoint "@ + decimal(cp.id as nat) + " hash mismatch"@
                    }
                },
    {
        let mut i: usize = 0;
        while i < self.checkpoints.len()
            invariant
                i <= self.checkpoints@.len(),
                forall|j: int| 0 <= j < i ==> #[trigger] self.checkpoints@[j].sequence != sequence,
            decreases self.checkpoints@.len() - i,
        {
            if self.checkpoints[i].sequence == sequence {
                let cp = &self.checkpoints[i];
                assert(self@.checkpoints[i as int].sequence == sequence);
                if let Err(e) = cp.verify() {
                    return Err(e);
                }
                return Ok(copy_range(cp.data.as_slice(), 0, cp.data.len()));
            }
            i = i + 1;
        }
        let mut reason = "Checkpoint ".to_owned();
        push_decimal(&mut reason, sequence);
        reason.append(" not found");
        Err(MemoryError::CheckpointError { reason })
    }

    /// Totals: the budget, the bytes allocated from bounded buffers, what
    /// is left of the budget, and the counts.
    pub fn stats(&self) -> (st: MemoryStats)
        requires
            self.wf(),
        ensures
            st.total_memory == self@.max_memory,
            st.allocated == allocated_bytes(self@.buffers),
            st.available == (if allocated_bytes(self@.buffers) <= self@.max_memory {
                self@.max_memory - allocated_bytes(self@.buffers)
            } else {
                0
            }),
            st.buffer_count == self@.buffers.len(),
            st.ring_buffer_count == self@.rings.len(),
            st.checkpoint_count == self@.checkpoints.len(),
    {
        let mut total_allocated: u64 = 0;
        let mut i: usize = 0;
        proof {
            self.lemma_wf_view();
            lemma_allocated_within_capacity(self@.buffers);
        }
        while i < self.buffers.len()
            invariant
                self.wf(),
                i <= self.buffers@.len(),
                total_allocated == allocated_bytes(self@.buffers.take(i as int)),
                allocated_bytes(self@.buffers) <= self@.total_memory,
            decreases self.buffers@.len() - i,
        {
            proof {
                assert(self@.buffers.take(i + 1).drop_last() =~= self@.buffers.take(i as int));
                lemma_allocated_prefix(self@.buffers, i as int + 1);
            }
            total_allocated = total_allocated + self.buffers[i].current_watermark() as u64;
            i = i + 1;
        }
        proof {
            assert(self@.buffers.take(i as int) =~= self@.buffers);
        }
        MemoryStats {
            total_memory: self.max_memory,
            allocated: total_allocated,
            available: self.max_memory.saturating_sub(total_allocated),
            buffer_count: self.buffers.len(),
            ring_buffer_count: self.ring_buffers.len(),
            checkpoint_count: self.checkpoints.len(),
        }
    }
}

proof fn lemma_bounded_capacity_update(buffers: Seq<BoundedBufferView>, i: int, v: BoundedBufferView)
    requires
        0 <= i < buffers.len(),
        v.metadata.capacity == buffers[i].metadata.capacity,
    ensures
        bounded_capacity(buffers.update(i, v)) == bounded_capacity(buffers),
    decreases buffers.len(),
{
    if i < buffers.len() - 1 {
        assert(buffers.update(i, v).drop_last() =~= buffers.drop_last().update(i, v));
        lemma_bounded_capacity_update(buffers.drop_last(), i, v);
    } else {
        assert(buffers.update(i, v).drop_last() =~= buffers.drop_last());
    }
}

proof fn lemma_ring_capacity_update(rings: Seq<RingBufferView>, i: int, v: RingBufferView)
    requires
        0 <= i < rings.len(),
        v.capacity == rings[i].capacity,
    ensures
        ring_capacity(rings.update(i, v)) == ring_capacity(rings),
    decreases rings.len(),
{
    if i < rings.len() - 1 {
        assert(rings.update(i, v).drop_last() =~= rings.drop_last().update(i, v));
        lemma_ring_capacity_update(rings.drop_last(), i, v);
    } else {
        assert(rings.update(i, v).drop_last() =~= rings.drop_last());
    }
}

proof fn lemma_allocated_prefix(buffers: Seq<BoundedBufferView>, n: int)
    requires
        0 <= n <= buffers.len(),
    ensures
        allocated_bytes(buffers.take(n)) <= allocated_bytes(buffers),
    decreases buffers.len(),
{
    if n < buffers.len() {
        assert(buffers.drop_last().take(n) =~= buffers.take(n));
        lemma_allocated_prefix(buffers.drop_last(), n);
    } else {
        assert(buffers.take(n) =~= buffers);
    }
}
} // verus!
