//! Verification of executions: hashed inputs and outputs, invariant checks,
//! comparison of redundant executions, promotion of verified results and
//! a fault history.

use crate::clock::unix_time_secs;
use crate::digest::{blake3_hex, blake3_hex_spec};
use crate::text::{decimal, push_decimal, with_decimal};
use std::collections::BTreeMap;
use vstd::prelude::*;

verus! {

/// How a fault shows itself.
#[derive(Debug, Clone, Copy, PartialEq, Eq, Structural)]
pub enum FaultClassification {
    NoFault,
    Transient,
    Persistent,
    Byzantine,
}

#[derive(Debug, Clone)]
pub enum VerificationError {
    HashMismatch { expected: String, actual: String },
    InvariantViolation { invariant: String, detail: String },
    RedundantExecutionMismatch { execution_id: u64 },
    FaultDetected { classification: FaultClassification },
    VerificationTimeout,
    InvalidState { detail: String },
}

/// The result of one execution, identified by the digests of what went in
/// and what came out.
#[derive(Debug, Clone)]
pub struct ExecutionResult {
    pub id: u64,
    /// Lowercase hex BLAKE3 digest of the inputs.
    pub input_hash: String,
    /// Lowercase hex BLAKE3 digest of the outputs.
    pub output_hash: String,
    pub trace: Vec<String>,
    /// Seconds since the Unix epoch.
    pub timestamp: u64,
}

/// The mathematical value of an execution result.
pub struct ResultView {
    pub id: u64,
    pub input_hash: Seq<char>,
    pub output_hash: Seq<char>,
    pub trace: Seq<Seq<char>>,
    pub timestamp: u64,
}

pub open spec fn strings_view(v: Seq<String>) -> Seq<Seq<char>> {
    Seq::new(v.len(), |i: int| v[i]@)
}

impl View for ExecutionResult {
    type V = ResultView;

    open spec fn view(&self) -> ResultView {
        ResultView {
            id: self.id,
            input_hash: self.input_hash@,
            output_hash: self.output_hash@,
            trace: strings_view(self.trace@),
            timestamp: self.timestamp,
        }
    }
}

/// Both digests are present.
pub open spec fn hashes_present(r: ResultView) -> bool {
    r.input_hash.len() > 0 && r.output_hash.len() > 0
}

/// What checking the digests of `r` answers.
pub open spec fn hashes_verdict(r: ResultView, out: Result<(), VerificationError>) -> bool {
    if hashes_present(r) {
        out is Ok
    } else {
        out matches Err(VerificationError::InvalidState { detail }) && detail@ == "Hash not computed"@
    }
}

impl ExecutionResult {
    /// A result over `inputs` and `outputs`, stamped `now`, without trace.
    pub fn new_at(id: u64, inputs: &[u8], outputs: &[u8], now: u64) -> (r: Self)
        ensures
            r@ == (ResultView {
                id,
                input_hash: blake3_hex_spec(inputs@),
                output_hash: blake3_hex_spec(outputs@),
                trace: Seq::empty(),
                timestamp: now,
            }),
    {
        let input_hash = Self::hash_data(inputs);
        let output_hash = Self::hash_data(outputs);
        let r = ExecutionResult { id, input_hash, output_hash, trace: Vec::new(), timestamp: now };
        proof {
            assert(r@.trace =~= Seq::<Seq<char>>::empty());
        }
        r
    }

    /// A result stamped with the current time.
    pub fn new(id: u64, inputs: &[u8], outputs: &[u8]) -> (r: Self)
        ensures
            r@.id == id,
            r@.input_hash == blake3_hex_spec(inputs@),
            r@.output_hash == blake3_hex_spec(outputs@),
            r@.trace == Seq::<Seq<char>>::empty(),
    {
        Self::new_at(id, inputs, outputs, unix_time_secs())
    }

    fn hash_data(data: &[u8]) -> (h: String)
        ensures
            h@ == blake3_hex_spec(data@),
            h@.len() == 64,
    {
        blake3_hex(data)
    }

    /// Appends `entry` to the trace.
    pub fn add_trace(&mut self, entry: String)
        ensures
            final(self)@ == (ResultView { trace: old(self)@.trace.push(entry@), ..old(self)@ }),
    {
        let ghost before = self.trace@;
        self.trace.push(entry);
        proof {
            assert(strings_view(self.trace@) =~= strings_view(before).push(entry@));
        }
    }

    /// Refuses a result without both digests.
    pub fn verify_hashes(&self) -> (r: Result<(), VerificationError>)
        ensures
            hashes_verdict(self@, r),
    {
        if self.input_hash.as_str().is_empty() || self.output_hash.as_str().is_empty() {
            return Err(VerificationError::InvalidState { detail: "Hash not computed".to_owned() });
        }
        Ok(())
    }

    /// A copy of the result.
    pub fn duplicate(&self) -> (r: Self)
        ensures
            r@ == self@,
    {
        let mut trace: Vec<String> = Vec::new();
        let mut i: usize = 0;
        while i < self.trace.len()
            invariant
                i <= self.trace@.len(),
                strings_view(trace@) == strings_view(self.trace@.take(i as int)),
            decreases self.trace@.len() - i,
        {
            let ghost before = trace@;
            trace.push(self.trace[i].clone());
            i = i + 1;
            proof {
                let goal = strings_view(self.trace@.take(i as int));
                assert(strings_view(before).len() == i - 1);
                assert forall|k: int| 0 <= k < i implies #[trigger] strings_view(trace@)[k] == goal[k] by {
                    if k < i - 1 {
                        assert(trace@[k] == before[k]);
                        assert(strings_view(before)[k] == strings_view(self.trace@.take(i - 1))[k]);
                    }
                }
                assert(strings_view(trace@) =~= goal);
            }
        }
        proof {
            assert(self.trace@.take(i as int) =~= self.trace@);
        }
        ExecutionResult {
            id: self.id,
            input_hash: self.input_hash.clone(),
            output_hash: self.output_hash.clone(),
            trace,
            timestamp: self.timestamp,
        }
    }
}

/// Engine statistics.
#[derive(Debug, Clone, Copy)]
pub struct VerificationStats {
    pub total_verified: u64,
    pub total_faults: u64,
    pub promoted_results: usize,
    pub pending_results: usize,
}

/// The mathematical state of an engine.
pub struct EngineView {
    pub results: Map<u64, ResultView>,
    pub verified: Seq<ResultView>,
    pub faults: Seq<(u64, FaultClassification)>,
    pub verification_count: u64,
    pub fault_count: u64,
}

/// The counter after one more event, wrapping at the top.
pub open spec fn bumped(n: u64) -> u64 {
    if n == u64::MAX {
        0
    } else {
        (n + 1) as u64
    }
}

fn bump(n: u64) -> (m: u64)
    ensures
        m == bumped(n),
{
    if n == u64::MAX {
        0
    } else {
        n + 1
    }
}

/// The message for an execution the engine does not hold.
pub open spec fn missing(id: u64) -> Seq<char> {
    "Execution "@ + decimal(id as nat) + " not found"@
}

/// What verifying execution `id` answers and leaves: an unknown execution
/// is an invalid state; a missing input digest breaks I1, a missing output
/// digest I2; otherwise the verification is counted.
pub open spec fn verification_outcome(p: EngineView, id: u64, r: Result<(), VerificationError>, q: EngineView) -> bool {
    if !p.results.contains_key(id) {
        r matches Err(VerificationError::InvalidState { detail }) && detail@ == missing(id) && q == p
    } else if p.results[id].input_hash.len() == 0 {
        &&& r matches Err(VerificationError::InvariantViolation { invariant: inv, detail })
        &&& inv@ == "I1"@ && detail@ == "Input not deterministically hashed"@
        &&& q == p
    } else if p.results[id].output_hash.len() == 0 {
        &&& r matches Err(VerificationError::InvariantViolation { invariant: inv, detail })
        &&& inv@ == "I2"@ && detail@ == "Output not verified"@
        &&& q == p
    } else {
        r is Ok && q == EngineView { verification_count: bumped(p.verification_count), ..p }
    }
}

/// Execution `ids[j]` breaks agreement with `ids[0]`: it is unknown or its
/// output digest differs.
pub open spec fn disagrees(p: EngineView, ids: Seq<u64>, j: int) -> bool {
    !p.results.contains_key(ids[j]) || p.results[ids[j]].output_hash != p.results[ids[0]].output_hash
}

/// `j` is the first execution after the first that breaks agreement.
pub open spec fn first_disagreement(p: EngineView, ids: Seq<u64>, j: int) -> bool {
    &&& 1 <= j < ids.len()
    &&& disagrees(p, ids, j)
    &&& forall|m: int| 1 <= m < j ==> !disagrees(p, ids, m)
}

/// What comparing the executions `ids` answers and leaves: all must be
/// known and agree with the first on the output digest; the first one
/// that differs is recorded as a persistent fault.
pub open spec fn redundancy_outcome(p: EngineView, ids: Seq<u64>, r: Result<(), VerificationError>, q: EngineView) -> bool {
    if ids.len() == 0 {
        r matches Err(VerificationError::InvalidState { detail }) && detail@ == "No executions to compare"@
            && q == p
    } else if !p.results.contains_key(ids[0]) {
        r matches Err(VerificationError::InvalidState { detail }) && detail@ == missing(ids[0]) && q == p
    } else if forall|j: int| 1 <= j < ids.len() ==> !#[trigger] disagrees(p, ids, j) {
        r is Ok && q == p
    } else {
        exists|j: int|
            #[trigger] first_disagreement(p, ids, j) && if !p.results.contains_key(ids[j]) {
                r matches Err(VerificationError::InvalidState { detail }) && detail@ == missing(ids[j]) && q == p
            } else {
                &&& r matches Err(VerificationError::RedundantExecutionMismatch { execution_id })
                &&& execution_id == ids[j]
                &&& q == EngineView {
                    faults: p.faults.push((ids[j], FaultClassification::Persistent)),
                    fault_count: bumped(p.fault_count),
                    ..p
                }
            }
    }
}

/// `k` is the first recorded fault of execution `id`.
pub open spec fn first_fault(faults: Seq<(u64, FaultClassification)>, id: u64, k: int) -> bool {
    &&& 0 <= k < faults.len()
    &&& faults[k].0 == id
    &&& forall|m: int| 0 <= m < k ==> faults[m].0 != id
}

/// The classification of the first fault recorded for `id`, `NoFault` if none.
pub open spec fn fault_of(faults: Seq<(u64, FaultClassification)>, id: u64) -> FaultClassification
    decreases faults.len(),
{
    if faults.len() == 0 {
        FaultClassification::NoFault
    } else if faults[0].0 == id {
        faults[0].1
    } else {
        fault_of(faults.drop_first(), id)
    }
}

pub open spec fn results_view(m: Map<u64, ExecutionResult>) -> Map<u64, ResultView> {
    m.map_values(|x: ExecutionResult| x@)
}

pub open spec fn result_views(v: Seq<ExecutionResult>) -> Seq<ResultView> {
    Seq::new(v.len(), |i: int| v[i]@)
}

/// Verifies, compares and promotes execution results.
pub struct VerificationEngine {
    results: BTreeMap<u64, ExecutionResult>,
    verified: Vec<ExecutionResult>,
    faults: Vec<(u64, FaultClassification)>,
    verification_count: u64,
    fault_count: u64,
}

impl View for VerificationEngine {
    type V = EngineView;

    closed spec fn view(&self) -> EngineView {
        EngineView {
            results: results_view(self.results@),
            verified: result_views(self.verified@),
            faults: self.faults@,
            verification_count: self.verification_count,
            fault_count: self.fault_count,
        }
    }
}

impl VerificationEngine {
    /// An engine without results or faults.
    pub fn new() -> (e: Self)
        ensures
            e@ == (EngineView {
                results: Map::empty(),
                verified: Seq::empty(),
                faults: Seq::empty(),
                verification_count: 0,
                fault_count: 0,
            }),
    {
        let e = VerificationEngine {
            results: BTreeMap::new(),
            verified: Vec::new(),
            faults: Vec::new(),
            verification_count: 0,
            fault_count: 0,
        };
        proof {
            assert(e@.results =~= Map::empty());
            assert(e@.verified =~= Seq::empty());
        }
        e
    }

    /// Keeps `result` under its id, replacing any earlier one; refused
    /// without both digests.
    pub fn register_result(&mut self, result: ExecutionResult) -> (r: Result<(), VerificationError>)
        ensures
            hashes_verdict(result@, r),
            r is Err ==> final(self)@ == old(self)@,
            r is Ok ==> final(self)@ == (EngineView {
                results: old(self)@.results.insert(result@.id, result@),
                ..old(self)@
            }),
    {
        if let Err(e) = result.verify_hashes() {
            return Err(e);
        }
        let exec_id = result.id;
        let ghost v = result@;
        self.results.insert(exec_id, result);
        proof {
            assert(self@.results =~= old(self)@.results.insert(exec_id, v));
        }
        Ok(())
    }

    /// Checks invariants I1 and I2 on execution `execution_id`.
    pub fn verify_execution(&mut self, execution_id: u64) -> (r: Result<(), VerificationError>)
        ensures
            verification_outcome(old(self)@, execution_id, r, final(self)@),
    {
        let (input_empty, output_empty) = match self.results.get(&execution_id) {
            Some(result) => (result.input_hash.as_str().is_empty(), result.output_hash.as_str().is_empty()),
            None => {
                return Err(
                    VerificationError::InvalidState { detail: Self::missing_message(execution_id) },
                );
            },
        };
        if input_empty {
            return Err(
                VerificationError::InvariantViolation {
                    invariant: "I1".to_owned(),
                    detail: "Input not deterministically hashed".to_owned(),
                },
            );
        }
        if output_empty {
            return Err(
                VerificationError::InvariantViolation {
                    invariant: "I2".to_owned(),
                    detail: "Output not verified".to_owned(),
                },
            );
        }
        self.verification_count = bump(self.verification_count);
        Ok(())
    }

    fn missing_message(id: u64) -> (s: String)
        ensures
            s@ == missing(id),
    {
        let mut s = with_decimal("Execution ", id);
        s.append(" not found");
        s
    }

    /// The output digest of execution `id`, if the engine holds it.
    fn output_of(&self, id: u64) -> (o: Option<String>)
        ensures
            o is None <==> !self@.results.contains_key(id),
            o matches Some(h) ==> h@ == self@.results[id].output_hash,
    {
        match self.results.get(&id) {
            Some(result) => Some(result.output_hash.clone()),
            None => None,
        }
    }

    /// Compares the output digests of redundant executions (I3).
    pub fn verify_redundant_execution(&mut self, execution_ids: &[u64]) -> (r: Result<(), VerificationError>)
        ensures
            redundancy_outcome(old(self)@, execution_ids@, r, final(self)@),
    {
        if execution_ids.len() == 0 {
            return Err(VerificationError::InvalidState { detail: "No executions to compare".to_owned() });
        }
        let first_hash = match self.output_of(execution_ids[0]) {
            Some(h) => h,
            None => {
                return Err(
                    VerificationError::InvalidState { detail: Self::missing_message(execution_ids[0]) },
                );
            },
        };
        let ghost ids = execution_ids@;
        let ghost p = self@;
        let mut i: usize = 1;
        while i < execution_ids.len()
            invariant
                1 <= i <= ids.len(),
                ids == execution_ids@,
                self@ == p,
                p == old(self)@,
                p.results.contains_key(ids[0]),
                first_hash@ == p.results[ids[0]].output_hash,
                forall|m: int| 1 <= m < i ==> !#[trigger] disagrees(p, ids, m),
            decreases ids.len() - i,
        {
            let exec_id = execution_ids[i];
            let hash = match self.output_of(exec_id) {
                Some(h) => h,
                None => {
                    let detail = Self::missing_message(exec_id);
                    let r = Err(VerificationError::InvalidState { detail });
                    proof {
                        assert(first_disagreement(p, ids, i as int));
                        assert(!p.results.contains_key(ids[i as int]));
                        assert(r matches Err(VerificationError::InvalidState { detail }) && detail@ == missing(ids[i as int]));
                        assert(redundancy_outcome(p, ids, r, self@));
                    }
                    return r;
                },
            };
            if hash != first_hash {
                self.fault_count = bump(self.fault_count);
                self.faults.push((exec_id, FaultClassification::Persistent));
                let r = Err(VerificationError::RedundantExecutionMismatch { execution_id: exec_id });
                proof {
                    assert(first_disagreement(p, ids, i as int));
                    assert(self@ == (EngineView {
                        faults: p.faults.push((ids[i as int], FaultClassification::Persistent)),
                        fault_count: bumped(p.fault_count),
                        ..p
                    }));
                    assert(redundancy_outcome(p, ids, r, self@));
                }
                return r;
            }
            i = i + 1;
        }
        Ok(())
    }

    /// Verifies execution `execution_id` and moves it to the promoted results.
    pub fn promote_result(&mut self, execution_id: u64) -> (r: Result<ExecutionResult, VerificationError>)
        ensures
            old(self)@.results.contains_key(execution_id) && hashes_present(old(self)@.results[execution_id])
                ==> {
                let res = old(self)@.results[execution_id];
                &&& r matches Ok(v) && v@ == res
                &&& final(self)@ == (EngineView {
                    results: old(self)@.results.remove(execution_id),
                    verified: old(self)@.verified.push(res),
                    verification_count: bumped(old(self)@.verification_count),
                    ..old(self)@
                })
            },
            !(old(self)@.results.contains_key(execution_id) && hashes_present(old(self)@.results[execution_id]))
                ==> r is Err && final(self)@ == old(self)@,
            r is Err ==> verification_outcome(
                old(self)@,
                execution_id,
                match r {
                    Err(e) => Err(e),
                    Ok(_) => Ok(()),
                },
                final(self)@,
            ),
    {
        if let Err(e) = self.verify_execution(execution_id) {
            return Err(e);
        }
        let result = match self.results.remove(&execution_id) {
            Some(result) => result,
            None => {
                return Err(
                    VerificationError::InvalidState { detail: Self::missing_message(execution_id) },
                );
            },
        };
        let copy = result.duplicate();
        let ghost before = self.verified@;
        self.verified.push(copy);
        proof {
            assert(self@.results =~= old(self)@.results.remove(execution_id));
            assert(result_views(self.verified@) =~= result_views(before).push(result@));
        }
        Ok(result)
    }

    /// The classification of the first fault recorded for `execution_id`;
    /// any fault other than `NoFault` is answered as detected.
    pub fn detect_fault(&self, execution_id: u64) -> (r: Result<FaultClassification, VerificationError>)
        ensures
            fault_of(self@.faults, execution_id) == FaultClassification::NoFault ==> r
                == Ok::<FaultClassification, VerificationError>(FaultClassification::NoFault),
            fault_of(self@.faults, execution_id) != FaultClassification::NoFault ==> (r matches Err(
                VerificationError::FaultDetected { classification },
            ) && classification == fault_of(self@.faults, execution_id)),
    {
        let ghost faults = self@.faults;
        let mut i: usize = 0;
        proof {
            assert(faults.skip(0) =~= faults);
        }
        while i < self.faults.len()
            invariant
                faults == self.faults@,
                i <= faults.len(),
                fault_of(faults, execution_id) == fault_of(faults.skip(i as int), execution_id),
            decreases faults.len() - i,
        {
            let (id, class) = self.faults[i];
            proof {
                assert(faults.skip(i as int)[0] == faults[i as int]);
                assert(faults.skip(i as int).drop_first() =~= faults.skip(i + 1));
            }
            if id == execution_id {
                if class != FaultClassification::NoFault {
                    return Err(VerificationError::FaultDetected { classification: class });
                }
                return Ok(class);
            }
            i = i + 1;
        }
        proof {
            assert(faults.skip(i as int).len() == 0);
        }
        Ok(FaultClassification::NoFault)
    }

    /// Records a fault of `execution_id`.
    pub fn record_fault(&mut self, execution_id: u64, classification: FaultClassification) -> (r: Result<(), VerificationError>)
        ensures
            r is Ok,
            final(self)@ == (EngineView {
                faults: old(self)@.faults.push((execution_id, classification)),
                fault_count: bumped(old(self)@.fault_count),
                ..old(self)@
            }),
    {
        self.faults.push((execution_id, classification));
        self.fault_count = bump(self.fault_count);
        Ok(())
    }

    /// Invariant I6: a task must be completed.
    pub fn verify_task_completion(&self, task_id: u64, completed: bool) -> (r: Result<(), VerificationError>)
        ensures
            completed ==> r is Ok,
            !completed ==> (r matches Err(VerificationError::InvariantViolation { invariant: inv, detail })
                && inv@ == "I6"@ && detail@ == "Task "@ + decimal(task_id as nat) + " not completed"@),
    {
        if !completed {
            let mut detail = "Task ".to_owned();
            push_decimal(&mut detail, task_id);
            detail.append(" not completed");
            return Err(VerificationError::InvariantViolation { invariant: "I6".to_owned(), detail });
        }
        Ok(())
    }

    /// Invariant I7: a ledger entry keeps its digest.
    pub fn verify_ledger_immutability(&self, hash1: &str, hash2: &str) -> (r: Result<(), VerificationError>)
        ensures
            hash1@ == hash2@ ==> r is Ok,
            hash1@ != hash2@ ==> (r matches Err(VerificationError::InvariantViolation { invariant: inv, detail })
                && inv@ == "I7"@ && detail@ == "Ledger entry was modified"@),
    {
        if hash1.to_owned() != hash2.to_owned() {
            return Err(
                VerificationError::InvariantViolation {
                    invariant: "I7".to_owned(),
                    detail: "Ledger entry was modified".to_owned(),
                },
            );
        }
        Ok(())
    }

    /// Invariant I8: a checkpoint reproduces its digest.
    pub fn verify_checkpoint_reproducible(&self, hash1: &str, hash2: &str) -> (r: Result<(), VerificationError>)
        ensures
            hash1@ == hash2@ ==> r is Ok,
            hash1@ != hash2@ ==> (r matches Err(VerificationError::InvariantViolation { invariant: inv, detail })
                && inv@ == "I8"@ && detail@ == "Checkpoint not reproducible"@),
    {
        if hash1.to_owned() != hash2.to_owned() {
            return Err(
                VerificationError::InvariantViolation {
                    invariant: "I8".to_owned(),
                    detail: "Checkpoint not reproducible".to_owned(),
                },
            );
        }
        Ok(())
    }

    /// Copies of the promoted results, in the order they were promoted.
    pub fn get_verified_results(&self) -> (v: Vec<ExecutionResult>)
        ensures
            result_views(v@) == self@.verified,
    {
        let mut out: Vec<ExecutionResult> = Vec::new();
        let mut i: usize = 0;
        while i < self.verified.len()
            invariant
                i <= self.verified@.len(),
                result_views(out@) == result_views(self.verified@.take(i as int)),
            decreases self.verified@.len() - i,
        {
            let ghost before = out@;
            out.push(self.verified[i].duplicate());
            i = i + 1;
            proof {
                let goal = result_views(self.verified@.take(i as int));
                assert(result_views(before).len() == i - 1);
                assert forall|k: int| 0 <= k < i implies #[trigger] result_views(out@)[k] == goal[k] by {
                    if k < i - 1 {
                        assert(out@[k] == before[k]);
                        assert(result_views(before)[k] == result_views(self.verified@.take(i - 1))[k]);
                    }
                }
                assert(result_views(out@) =~= goal);
            }
        }
        proof {
            assert(self.verified@.take(i as int) =~= self.verified@);
        }
        out
    }

    pub fn stats(&self) -> (st: VerificationStats)
        ensures
            st.total_verified == self@.verification_count,
            st.total_faults == self@.fault_count,
            st.promoted_results == self@.verified.len(),
            st.pending_results == self@.results.len(),
    {
        proof {
            assert(self@.results.dom() =~= self.results@.dom());
        }
        VerificationStats {
            total_verified: self.verification_count,
            total_faults: self.fault_count,
            promoted_results: self.verified.len(),
            pending_results: self.results.len(),
        }
    }
}

impl Default for VerificationEngine {
    fn default() -> (e: Self)
        ensures
            e@.results == Map::<u64, ResultView>::empty(),
            e@.verified == Seq::<ResultView>::empty(),
            e@.faults == Seq::<(u64, FaultClassification)>::empty(),
            e@.verification_count == 0,
            e@.fault_count == 0,
    {
        Self::new()
    }
}

/// What is registered can be promoted: after a result with both digests is
/// registered, the engine holds it under its id with both digests, which is
/// what promotion asks.
pub proof fn law_registered_result_promotes(p: EngineView, res: ResultView, r: Result<(), VerificationError>, q: EngineView)
    requires
        hashes_present(res),
        hashes_verdict(res, r),
        r is Ok ==> q == (EngineView { results: p.results.insert(res.id, res), ..p }),
    ensures
        r is Ok,
        q.results.contains_key(res.id),
        q.results[res.id] == res,
        hashes_present(q.results[res.id]),
{
}

/// Redundant executions that all agree pass (I3): when every listed
/// execution is known and has the first one's output digest, the
/// comparison succeeds and records no fault.
pub proof fn law_agreeing_executions_pass(p: EngineView, ids: Seq<u64>, r: Result<(), VerificationError>, q: EngineView)
    requires
        ids.len() > 0,
        forall|j: int| 0 <= j < ids.len() ==> #[trigger] p.results.contains_key(ids[j]),
        forall|j: int| 0 <= j < ids.len() ==> #[trigger] p.results[ids[j]].output_hash == p.results[ids[0]].output_hash,
        redundancy_outcome(p, ids, r, q),
    ensures
        r is Ok,
        q == p,
{
    assert(p.results.contains_key(ids[0]));
    assert forall|j: int| 1 <= j < ids.len() implies !#[trigger] disagrees(p, ids, j) by {
        assert(p.results.contains_key(ids[j]));
        assert(p.results[ids[j]].output_hash == p.results[ids[0]].output_hash);
    }
}

/// A recorded fault is detected: once a fault is recorded for an execution
/// that had none, looking it up answers that fault's classification.
pub proof fn law_recorded_fault_found(faults: Seq<(u64, FaultClassification)>, id: u64, c: FaultClassification)
    requires
        forall|k: int| 0 <= k < faults.len() ==> #[trigger] faults[k].0 != id,
    ensures
        fault_of(faults.push((id, c)), id) == c,
    decreases faults.len(),
{
    let pushed = faults.push((id, c));
    if faults.len() == 0 {
        assert(pushed[0] == (id, c));
    } else {
        assert(faults[0].0 != id);
        assert(pushed.drop_first() =~= faults.drop_first().push((id, c)));
        assert forall|k: int| 0 <= k < faults.drop_first().len() implies #[trigger] faults.drop_first()[k].0 != id by {
            assert(faults.drop_first()[k] == faults[k + 1]);
        }
        law_recorded_fault_found(faults.drop_first(), id, c);
    }
}

} // verus!
