//! Execution contexts that meter instructions and chain a BLAKE3 digest of
//! everything they compute, the cryptographic kernels, and the accelerator
//! selection with its CPU fallback.

use crate::digest::{blake3_bytes, blake3_digest, blake3_hex, hex_lower};
use crate::text::{decimal, push_decimal, with_decimal};
use vstd::prelude::*;
use vstd::string::StringExecFns;
use vstd::utf8::encode_utf8;

verus! {

#[derive(Debug, Clone)]
pub enum RuntimeError {
    ComputationFailed { detail: String },
    DimensionMismatch { rows: usize, cols: usize, expected_rows: usize, expected_cols: usize },
    VectorLengthMismatch { got: usize, expected: usize },
    SignalProcessingError { reason: String },
    DeterminismViolation { detail: String },
    AcceleratorUnavailable { detail: String },
    InstructionLimitExceeded { limit: u64 },
    CryptoError { detail: String },
}

/// The state digest after absorbing `data`: the digest of the current
/// digest's text followed by `data`.
pub open spec fn chained(state: Seq<char>, data: Seq<u8>) -> Seq<char> {
    hex_lower(blake3_digest(encode_utf8(state) + data))
}

/// A metered execution context.
#[derive(Debug, Clone)]
pub struct ExecutionContext {
    pub id: u64,
    /// Instructions charged so far.
    pub instruction_count: u64,
    pub max_instructions: u64,
    /// Chained digest of what the context computed; empty at the start.
    pub state_hash: String,
    /// Whether results are chained into the state digest.
    pub verify_determinism: bool,
}

/// The mathematical value of a context.
pub struct ContextView {
    pub id: u64,
    pub instruction_count: u64,
    pub max_instructions: u64,
    pub state_hash: Seq<char>,
    pub verify_determinism: bool,
}

impl View for ExecutionContext {
    type V = ContextView;

    open spec fn view(&self) -> ContextView {
        ContextView {
            id: self.id,
            instruction_count: self.instruction_count,
            max_instructions: self.max_instructions,
            state_hash: self.state_hash@,
            verify_determinism: self.verify_determinism,
        }
    }
}

/// The context after `data` is absorbed, when it chains its results.
pub open spec fn absorbed(c: ContextView, data: Seq<u8>) -> ContextView {
    if c.verify_determinism {
        ContextView { state_hash: chained(c.state_hash, data), ..c }
    } else {
        c
    }
}

/// What charging `count` instructions answers and leaves: the count is
/// charged in any case, and refused when it takes the total past the limit.
pub open spec fn charged(c: ContextView, count: u64, r: Result<(), RuntimeError>, q: ContextView) -> bool {
    &&& q == ContextView { instruction_count: (c.instruction_count + count) as u64, ..c }
    &&& c.instruction_count + count > c.max_instructions ==> (r matches Err(
        RuntimeError::InstructionLimitExceeded { limit },
    ) && limit == c.max_instructions)
    &&& c.instruction_count + count <= c.max_instructions ==> r is Ok
}

impl ExecutionContext {
    /// A context with nothing charged and an empty state digest.
    pub fn new(id: u64, max_instructions: u64) -> (c: Self)
        ensures
            c@ == (ContextView {
                id,
                instruction_count: 0,
                max_instructions,
                state_hash: Seq::empty(),
                verify_determinism: true,
            }),
    {
        ExecutionContext {
            id,
            instruction_count: 0,
            max_instructions,
            state_hash: String::new(),
            verify_determinism: true,
        }
    }

    /// Charges `count` instructions.
    pub fn record_instructions(&mut self, count: u64) -> (r: Result<(), RuntimeError>)
        requires
            old(self)@.instruction_count + count <= u64::MAX,
        ensures
            charged(old(self)@, count, r, final(self)@),
    {
        let current = self.instruction_count;
        self.instruction_count = current + count;
        if current + count > self.max_instructions {
            return Err(RuntimeError::InstructionLimitExceeded { limit: self.max_instructions });
        }
        Ok(())
    }

    pub fn get_instruction_count(&self) -> (n: u64)
        ensures
            n == self@.instruction_count,
    {
        self.instruction_count
    }

    /// Chains `data` into the state digest.
    pub fn update_state_hash(&mut self, data: &[u8])
        ensures
            final(self)@ == absorbed(old(self)@, data@),
    {
        if self.verify_determinism {
            let mut bytes: Vec<u8> = Vec::new();
            let current = self.state_hash.clone();
            push_bytes(&mut bytes, current.as_str().as_bytes());
            push_bytes(&mut bytes, data);
            proof {
                assert(bytes@ =~= encode_utf8(old(self)@.state_hash) + data@);
            }
            self.state_hash = blake3_hex(bytes.as_slice());
        }
    }

    /// Chains the BLAKE3 digest of a computation's output bytes into the
    /// state digest.
    pub fn record_output(&mut self, output: &[u8])
        ensures
            final(self)@ == absorbed(old(self)@, blake3_digest(output@)),
    {
        let digest = blake3_bytes(output);
        self.update_state_hash(digest.as_slice());
    }

    pub fn get_state_hash(&self) -> (h: String)
        ensures
            h@ == self@.state_hash,
    {
        self.state_hash.clone()
    }

    /// Clears the instruction count and the state digest.
    pub fn reset(&mut self)
        ensures
            final(self)@ == (ContextView { instruction_count: 0, state_hash: Seq::empty(), ..old(self)@ }),
    {
        self.instruction_count = 0;
        self.state_hash = String::new();
    }

    /// A copy of the context.
    pub fn duplicate(&self) -> (c: Self)
        ensures
            c@ == self@,
    {
        ExecutionContext {
            id: self.id,
            instruction_count: self.instruction_count,
            max_instructions: self.max_instructions,
            state_hash: self.state_hash.clone(),
            verify_determinism: self.verify_determinism,
        }
    }
}

/// Appends `src` to `out`.
fn push_bytes(out: &mut Vec<u8>, src: &[u8])
    ensures
        final(out)@ == old(out)@ + src@,
{
    crate::bytes::push_all(out, src);
}

/// Charging the instructions of a digest over `n` bytes: one per 64-byte
/// block, plus one.
pub open spec fn digest_cost(n: nat) -> nat {
    n / 64 + 1
}

/// What a metered digest of `data` answers and leaves: the instructions are
/// charged; past the limit that is the answer, otherwise the digest's text,
/// which is chained into the state.
pub open spec fn digest_outcome(c: ContextView, data: Seq<u8>, r: Result<String, RuntimeError>, q: ContextView) -> bool {
    let after_charge = ContextView {
        instruction_count: (c.instruction_count + digest_cost(data.len())) as u64,
        ..c
    };
    if c.instruction_count + digest_cost(data.len()) > c.max_instructions {
        r matches Err(RuntimeError::InstructionLimitExceeded { limit }) && limit == c.max_instructions
            && q == after_charge
    } else {
        &&& r matches Ok(h) && h@ == hex_lower(blake3_digest(data))
        &&& q == absorbed(after_charge, encode_utf8(hex_lower(blake3_digest(data))))
    }
}

/// Metered BLAKE3 digests.
/// Checks that an operand has the length of the first one: a vector kernel
/// refuses operands of different lengths.
pub fn check_lengths(expected: usize, got: usize) -> (r: Result<(), RuntimeError>)
    ensures
        r is Ok <==> got == expected,
        got != expected ==> (r matches Err(RuntimeError::VectorLengthMismatch { got: g, expected: e })
            && g == got && e == expected),
{
    if got != expected {
        return Err(RuntimeError::VectorLengthMismatch { got, expected });
    }
    Ok(())
}

/// Checks that a signal is at least as long as the filter run over it.
pub fn check_filter_fits(signal_len: usize, filter_len: usize) -> (r: Result<(), RuntimeError>)
    ensures
        r is Ok <==> filter_len <= signal_len,
        signal_len < filter_len ==> (r matches Err(RuntimeError::SignalProcessingError { reason })
            && reason@ == "Signal length "@ + decimal(signal_len as nat) + " < filter length "@
            + decimal(filter_len as nat)),
{
    if signal_len < filter_len {
        let mut reason = with_decimal("Signal length ", signal_len as u64);
        reason.append(" < filter length ");
        push_decimal(&mut reason, filter_len as u64);
        return Err(RuntimeError::SignalProcessingError { reason });
    }
    Ok(())
}

pub struct CryptoEngine;

impl CryptoEngine {
    /// The lowercase hex BLAKE3 digest of `data`, charged and chained.
    pub fn blake3_hash(ctx: &mut ExecutionContext, data: &[u8]) -> (r: Result<String, RuntimeError>)
        requires
            old(ctx)@.instruction_count + digest_cost(data@.len()) <= u64::MAX,
        ensures
            digest_outcome(old(ctx)@, data@, r, final(ctx)@),
    {
        let cost = (data.len() / 64) as u64 + 1;
        if let Err(e) = ctx.record_instructions(cost) {
            return Err(e);
        }
        let hash = blake3_hex(data);
        ctx.update_state_hash(hash.as_str().as_bytes());
        Ok(hash)
    }

    /// Whether the digest of `data` is `expected`.
    pub fn verify_blake3(ctx: &mut ExecutionContext, data: &[u8], expected: &str) -> (r: Result<bool, RuntimeError>)
        requires
            old(ctx)@.instruction_count + digest_cost(data@.len()) <= u64::MAX,
        ensures
            exists|h: Result<String, RuntimeError>| #[trigger] digest_outcome(old(ctx)@, data@, h, final(ctx)@)
                && match h {
                Ok(d) => r == Ok::<bool, RuntimeError>(d@ == expected@),
                Err(_) => r is Err,
            },
            r matches Ok(b) ==> (b <==> hex_lower(blake3_digest(data@)) == expected@),
    {
        let computed = Self::blake3_hash(ctx, data);
        match computed {
            Ok(h) => {
                let same = h == expected.to_owned();
                let ghost hv = Ok::<String, RuntimeError>(h);
                assert(digest_outcome(old(ctx)@, data@, hv, ctx@));
                Ok(same)
            },
            Err(e) => {
                let ghost ev = Err::<String, RuntimeError>(e);
                assert(digest_outcome(old(ctx)@, data@, ev, ctx@));
                Err(e)
            },
        }
    }

    /// A keyed digest: the BLAKE3 digest of `key` followed by `data`,
    /// charged and chained.
    pub fn hmac_blake3(ctx: &mut ExecutionContext, key: &[u8], data: &[u8]) -> (r: Result<String, RuntimeError>)
        requires
            key@.len() + data@.len() <= usize::MAX,
            old(ctx)@.instruction_count + digest_cost(key@.len() + data@.len()) <= u64::MAX,
        ensures
            digest_outcome(old(ctx)@, key@ + data@, r, final(ctx)@),
    {
        let cost = ((key.len() + data.len()) / 64) as u64 + 1;
        if let Err(e) = ctx.record_instructions(cost) {
            return Err(e);
        }
        let mut bytes: Vec<u8> = Vec::new();
        push_bytes(&mut bytes, key);
        push_bytes(&mut bytes, data);
        let hash = blake3_hex(bytes.as_slice());
        ctx.update_state_hash(hash.as_str().as_bytes());
        Ok(hash)
    }
}

/// The accelerator in use; without one, the CPU.
pub struct AcceleratorController {
    available: bool,
    name: String,
}

impl View for AcceleratorController {
    type V = (bool, Seq<char>);

    closed spec fn view(&self) -> (bool, Seq<char>) {
        (self.available, self.name@)
    }
}

impl AcceleratorController {
    /// The CPU fallback: no accelerator available.
    pub fn new() -> (a: Self)
        ensures
            a@ == (false, "CPU_FALLBACK"@),
    {
        AcceleratorController { available: false, name: "CPU_FALLBACK".to_owned() }
    }

    /// Asks for a GPU; none is supported, so the CPU fallback stays.
    pub fn try_enable_gpu(&mut self, device: u32) -> (r: Result<(), RuntimeError>)
        ensures
            r is Ok,
            final(self)@ == old(self)@,
    {
        Ok(())
    }

    pub fn is_available(&self) -> (b: bool)
        ensures
            b == self@.0,
    {
        self.available
    }

    pub fn name(&self) -> (n: &str)
        ensures
            n@ == self@.1,
    {
        self.name.as_str()
    }
}

impl Default for AcceleratorController {
    fn default() -> (a: Self)
        ensures
            a@ == (false, "CPU_FALLBACK"@),
    {
        Self::new()
    }
}

/// `true` or `false`.
pub open spec fn bool_text(b: bool) -> Seq<char> {
    if b {
        "true"@
    } else {
        "false"@
    }
}

/// The mathematical state of an execution engine.
pub struct EngineView {
    pub available: bool,
    pub name: Seq<char>,
    pub contexts: Seq<ContextView>,
}

pub open spec fn contexts_view(v: Seq<ExecutionContext>) -> Seq<ContextView> {
    Seq::new(v.len(), |i: int| v[i]@)
}

/// Hands out numbered execution contexts.
pub struct ExecutionEngine {
    accelerator: AcceleratorController,
    contexts: Vec<ExecutionContext>,
}

impl View for ExecutionEngine {
    type V = EngineView;

    closed spec fn view(&self) -> EngineView {
        EngineView {
            available: self.accelerator@.0,
            name: self.accelerator@.1,
            contexts: contexts_view(self.contexts@),
        }
    }
}

impl ExecutionEngine {
    /// An engine on the CPU fallback, without contexts.
    pub fn new() -> (e: Self)
        ensures
            e@ == (EngineView { available: false, name: "CPU_FALLBACK"@, contexts: Seq::empty() }),
    {
        let e = ExecutionEngine { accelerator: AcceleratorController::new(), contexts: Vec::new() };
        proof {
            assert(e@.contexts =~= Seq::<ContextView>::empty());
        }
        e
    }

    /// A fresh context numbered by the count of contexts made before it.
    pub fn create_context(&mut self, max_instructions: u64) -> (c: ExecutionContext)
        requires
            old(self)@.contexts.len() < u64::MAX,
        ensures
            c@ == (ContextView {
                id: old(self)@.contexts.len() as u64,
                instruction_count: 0,
                max_instructions,
                state_hash: Seq::empty(),
                verify_determinism: true,
            }),
            final(self)@ == (EngineView { contexts: old(self)@.contexts.push(c@), ..old(self)@ }),
    {
        let id = self.contexts.len() as u64;
        let ctx = ExecutionContext::new(id, max_instructions);
        let ghost before = self.contexts@;
        self.contexts.push(ctx.duplicate());
        proof {
            assert(contexts_view(self.contexts@) =~= contexts_view(before).push(ctx@));
        }
        ctx
    }

    /// The accelerator's name and whether it is available.
    pub fn accelerator_status(&self) -> (s: String)
        ensures
            s@ == self@.name + " (available: "@ + bool_text(self@.available) + ")"@,
    {
        let mut s = self.accelerator.name().to_owned();
        s.append(" (available: ");
        if self.accelerator.is_available() {
            s.append("true");
        } else {
            s.append("false");
        }
        s.append(")");
        s
    }
}

impl Default for ExecutionEngine {
    fn default() -> (e: Self)
        ensures
            e@ == (EngineView { available: false, name: "CPU_FALLBACK"@, contexts: Seq::empty() }),
    {
        Self::new()
    }
}

/// A reset context absorbs as a fresh one does: after a reset, absorbing
/// the same bytes gives the digest a new context reaches.
pub proof fn law_reset_replays(c: ContextView, data: Seq<u8>)
    requires
        c.verify_determinism,
    ensures
        absorbed(ContextView { instruction_count: 0, state_hash: Seq::empty(), ..c }, data).state_hash
            == absorbed(
            ContextView {
                id: c.id,
                instruction_count: 0,
                max_instructions: c.max_instructions,
                state_hash: Seq::empty(),
                verify_determinism: true,
            },
            data,
        ).state_hash,
        absorbed(ContextView { instruction_count: 0, state_hash: Seq::empty(), ..c }, data).state_hash
            == hex_lower(blake3_digest(data)),
{
    assert(encode_utf8(Seq::<char>::empty()) =~= Seq::<u8>::empty());
    assert(Seq::<u8>::empty() + data =~= data);
}

} // verus!
