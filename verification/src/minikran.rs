//! A fail-closed orchestration kernel for sealed workrooms.
//!
//! Every operation first checks that the kernel was admitted with an
//! authorization; task states move only along the declared transition
//! relation, and every state change is sealed into an append-only ledger.

use std::collections::{BTreeMap, VecDeque};
use vstd::prelude::*;

verus! {

pub type TaskId = u64;

pub type NodeId = u32;

pub type CheckpointId = u64;

pub type Epoch = u64;

#[derive(Clone, Copy, Debug, PartialEq, Eq, Structural)]
pub enum TaskState {
    Created,
    Validated,
    Queued,
    Running,
    Checkpointed,
    Verifying,
    Committed,
    Fault,
    Recovering,
    Restored,
    Retrying,
    Rejected,
    Aborted,
}

/// Resource budget of a task, or the ceiling a kernel admits.
#[derive(Clone, Copy, Debug, PartialEq, Eq, Structural)]
pub struct Budget {
    pub cpu: u64,
    pub memory: u64,
    pub storage: u64,
    pub power: u64,
}

impl Budget {
    /// Every component of `self` is at most the matching component of `limit`.
    pub open spec fn fits_spec(self, limit: Budget) -> bool {
        &&& self.cpu <= limit.cpu
        &&& self.memory <= limit.memory
        &&& self.storage <= limit.storage
        &&& self.power <= limit.power
    }

    pub fn fits(self, limit: Self) -> (r: bool)
        ensures
            r == self.fits_spec(limit),
    {
        self.cpu <= limit.cpu && self.memory <= limit.memory && self.storage <= limit.storage
            && self.power <= limit.power
    }
}

#[derive(Clone, Debug, PartialEq, Eq)]
pub struct TaskSpec {
    pub task_id: TaskId,
    pub parent_id: Option<TaskId>,
    pub priority: u8,
    pub budget: Budget,
    pub deadline_tick: u64,
    pub input_hash: [u8; 32],
    pub code_hash: [u8; 32],
    pub verification_policy: String,
    pub recovery_policy: String,
}

#[derive(Clone, Debug, PartialEq, Eq)]
pub struct Task {
    pub spec: TaskSpec,
    pub state: TaskState,
    pub epoch: Epoch,
    pub checkpoint_id: Option<CheckpointId>,
    pub assigned_node: Option<NodeId>,
    pub suspended: bool,
    verified: bool,
}

/// The mathematical value of a task: every field, the verification flag included.
pub struct TaskView {
    pub spec: TaskSpec,
    pub state: TaskState,
    pub epoch: Epoch,
    pub checkpoint_id: Option<CheckpointId>,
    pub assigned_node: Option<NodeId>,
    pub suspended: bool,
    /// Whether the task's last verification accepted its result.
    pub verified: bool,
}

impl View for Task {
    type V = TaskView;

    closed spec fn view(&self) -> TaskView {
        TaskView {
            spec: self.spec,
            state: self.state,
            epoch: self.epoch,
            checkpoint_id: self.checkpoint_id,
            assigned_node: self.assigned_node,
            suspended: self.suspended,
            verified: self.verified,
        }
    }
}

/// A task freshly created from `spec`.
pub open spec fn fresh_task(spec: TaskSpec) -> TaskView {
    TaskView {
        spec,
        state: TaskState::Created,
        epoch: 0,
        checkpoint_id: None,
        assigned_node: None,
        suspended: false,
        verified: false,
    }
}

#[derive(Clone, Debug, PartialEq, Eq)]
pub struct AuthorizationRecord {
    pub workroom_id: String,
    pub license_id: String,
    pub authorized_scope: String,
    pub authorized_node: String,
    pub expiration_tick: u64,
    pub public_key: Vec<u8>,
    pub signature: Vec<u8>,
}

/// Checks the signature of an authorization record. Implemented by the
/// application; the kernel ships no cryptographic verifier.
pub trait AuthorizationVerifier {
    /// Whether this verifier accepts the record.
    spec fn accepts(&self, record: AuthorizationRecord) -> bool;

    fn verify(&self, record: &AuthorizationRecord) -> (b: bool)
        ensures
            b == self.accepts(*record),
    ;
}

/// An accepted authorization: made by `authorize` from a verifier's verdict,
/// or by `conclude_authorization` from a verdict the caller obtained itself.
#[derive(Clone, Debug, PartialEq, Eq)]
pub struct Authorization {
    workroom_id: String,
    authorized_node: String,
}

impl View for Authorization {
    /// The workroom and the node that the authorization names.
    type V = (Seq<char>, Seq<char>);

    closed spec fn view(&self) -> (Seq<char>, Seq<char>) {
        (self.workroom_id@, self.authorized_node@)
    }
}

#[derive(Clone, Debug, PartialEq, Eq)]
pub enum KernelError {
    Unauthorized,
    InvalidAuthorization,
    ExpiredAuthorization,
    DuplicateTask(TaskId),
    MissingTask(TaskId),
    InvalidState { task_id: TaskId, state: TaskState, operation: &'static str },
    BudgetExceeded(TaskId),
    DeadlineElapsed(TaskId),
    LeaseMismatch(TaskId),
}

/// Every field of the record that must be present is non-empty.
pub open spec fn record_complete(record: AuthorizationRecord) -> bool {
    &&& record.workroom_id@.len() > 0
    &&& record.license_id@.len() > 0
    &&& record.authorized_scope@.len() > 0
    &&& record.authorized_node@.len() > 0
    &&& record.public_key@.len() > 0
    &&& record.signature@.len() > 0
}

/// What `authorize` answers when the verifier's verdict on the record is
/// `accepted`: the workroom and node of the authorization, or the error.
pub open spec fn authorization_outcome(
    record: AuthorizationRecord,
    now_tick: u64,
    accepted: bool,
) -> Result<(Seq<char>, Seq<char>), KernelError> {
    if !record_complete(record) {
        Err(KernelError::InvalidAuthorization)
    } else if record.expiration_tick <= now_tick {
        Err(KernelError::ExpiredAuthorization)
    } else if !accepted {
        Err(KernelError::InvalidAuthorization)
    } else {
        Ok((record.workroom_id@, record.authorized_node@))
    }
}

/// The view of an authorization result.
pub open spec fn outcome_view(r: Result<Authorization, KernelError>) -> Result<
    (Seq<char>, Seq<char>),
    KernelError,
> {
    match r {
        Ok(a) => Ok(a@),
        Err(e) => Err(e),
    }
}

/// Turns a record into an authorization, given the verifier's verdict on it.
pub fn conclude_authorization(record: AuthorizationRecord, now_tick: u64, accepted: bool) -> (r:
    Result<Authorization, KernelError>)
    ensures
        outcome_view(r) == authorization_outcome(record, now_tick, accepted),
{
    if record.workroom_id.as_str().is_empty() || record.license_id.as_str().is_empty()
        || record.authorized_scope.as_str().is_empty()
        || record.authorized_node.as_str().is_empty() || record.public_key.len() == 0
        || record.signature.len() == 0 {
        return Err(KernelError::InvalidAuthorization);
    }
    if record.expiration_tick <= now_tick {
        return Err(KernelError::ExpiredAuthorization);
    }
    if !accepted {
        return Err(KernelError::InvalidAuthorization);
    }
    Ok(Authorization { workroom_id: record.workroom_id, authorized_node: record.authorized_node })
}

/// Checks a record for completeness and expiry, then asks `verifier`.
/// The verifier is consulted only for complete, unexpired records.
pub fn authorize<V: AuthorizationVerifier>(verifier: &V, record: AuthorizationRecord, now_tick: u64) -> (r:
    Result<Authorization, KernelError>)
    ensures
        outcome_view(r) == authorization_outcome(record, now_tick, verifier.accepts(record)),
{
    if record.workroom_id.as_str().is_empty() || record.license_id.as_str().is_empty()
        || record.authorized_scope.as_str().is_empty()
        || record.authorized_node.as_str().is_empty() || record.public_key.len() == 0
        || record.signature.len() == 0 {
        return Err(KernelError::InvalidAuthorization);
    }
    if record.expiration_tick <= now_tick {
        return Err(KernelError::ExpiredAuthorization);
    }
    let accepted = verifier.verify(&record);
    conclude_authorization(record, now_tick, accepted)
}

#[derive(Clone, Copy, Debug, PartialEq, Eq, Structural)]
pub enum LedgerKind {
    Transition,
    Commit,
}

#[derive(Clone, Copy, Debug, PartialEq, Eq, Structural)]
pub struct LedgerEvent {
    pub sequence: u64,
    pub task_id: TaskId,
    pub epoch: Epoch,
    pub kind: LedgerKind,
    pub from: TaskState,
    pub to: TaskState,
    pub previous_seal: u64,
    pub seal: u64,
}

/// The number the seal mixes in for a state (its position in the declaration).
pub open spec fn state_code_spec(s: TaskState) -> u64 {
    match s {
        TaskState::Created => 0,
        TaskState::Validated => 1,
        TaskState::Queued => 2,
        TaskState::Running => 3,
        TaskState::Checkpointed => 4,
        TaskState::Verifying => 5,
        TaskState::Committed => 6,
        TaskState::Fault => 7,
        TaskState::Recovering => 8,
        TaskState::Restored => 9,
        TaskState::Retrying => 10,
        TaskState::Rejected => 11,
        TaskState::Aborted => 12,
    }
}

fn state_code(s: TaskState) -> (c: u64)
    ensures
        c == state_code_spec(s),
{
    match s {
        TaskState::Created => 0,
        TaskState::Validated => 1,
        TaskState::Queued => 2,
        TaskState::Running => 3,
        TaskState::Checkpointed => 4,
        TaskState::Verifying => 5,
        TaskState::Committed => 6,
        TaskState::Fault => 7,
        TaskState::Recovering => 8,
        TaskState::Restored => 9,
        TaskState::Retrying => 10,
        TaskState::Rejected => 11,
        TaskState::Aborted => 12,
    }
}

/// The 64-bit finalizer that seals ledger events.
pub open spec fn mix_spec(value: u64) -> u64 {
    let v1 = value ^ (value >> 30u64);
    let v2 = v1.wrapping_mul(0xbf58_476d_1ce4_e5b9u64);
    let v3 = v2 ^ (v2 >> 27u64);
    let v4 = v3.wrapping_mul(0x94d0_49bb_1331_11ebu64);
    v4 ^ (v4 >> 31u64)
}

fn mix(value: u64) -> (r: u64)
    ensures
        r == mix_spec(value),
{
    let mut value = value;
    value ^= value >> 30;
    value = value.wrapping_mul(0xbf58_476d_1ce4_e5b9);
    value ^= value >> 27;
    value = value.wrapping_mul(0x94d0_49bb_1331_11eb);
    value ^ value >> 31
}

/// The seal of the event that follows `ledger`.
pub open spec fn last_seal(ledger: Seq<LedgerEvent>) -> u64 {
    if ledger.len() == 0 {
        0
    } else {
        ledger.last().seal
    }
}

/// The event appended to `ledger` for a move of task `task_id` at `epoch`
/// from `from` to `to`.
pub open spec fn next_event(
    ledger: Seq<LedgerEvent>,
    task_id: TaskId,
    epoch: Epoch,
    kind: LedgerKind,
    from: TaskState,
    to: TaskState,
) -> LedgerEvent {
    let sequence = ledger.len() as u64;
    let previous_seal = last_seal(ledger);
    LedgerEvent {
        sequence,
        task_id,
        epoch,
        kind,
        from,
        to,
        previous_seal,
        seal: mix_spec(sequence ^ task_id ^ epoch ^ previous_seal ^ state_code_spec(to)),
    }
}

/// Event `i` carries its own index and the seal of the event before it.
pub open spec fn link_valid(events: Seq<LedgerEvent>, i: int) -> bool {
    &&& events[i].sequence == i
    &&& events[i].previous_seal == (if i == 0 {
        0u64
    } else {
        events[i - 1].seal
    })
}

/// Every event of the ledger is linked to its predecessor.
pub open spec fn chain_valid(events: Seq<LedgerEvent>) -> bool {
    forall|i: int| 0 <= i < events.len() ==> #[trigger] link_valid(events, i)
}

/// A ledger whose chain is valid and whose every event is an allowed move.
pub open spec fn ledger_wf(events: Seq<LedgerEvent>) -> bool {
    &&& chain_valid(events)
    &&& forall|i: int| 0 <= i < events.len() ==> allowed_spec(#[trigger] events[i].from, events[i].to)
    &&& events.len() < u64::MAX
}

/// An append-only ledger of task state changes.
#[derive(Debug)]
pub struct WormLedger {
    events: Vec<LedgerEvent>,
}

impl View for WormLedger {
    type V = Seq<LedgerEvent>;

    closed spec fn view(&self) -> Seq<LedgerEvent> {
        self.events@
    }
}

impl Default for WormLedger {
    fn default() -> (r: Self)
        ensures
            r@ == Seq::<LedgerEvent>::empty(),
    {
        WormLedger { events: Vec::new() }
    }
}

impl WormLedger {
    pub open spec fn wf(&self) -> bool {
        ledger_wf(self@)
    }

    pub fn events(&self) -> (r: &[LedgerEvent])
        ensures
            r@ == self@,
    {
        self.events.as_slice()
    }

    /// Whether every event carries its index and the previous event's seal.
    pub fn valid_chain(&self) -> (r: bool)
        ensures
            r == chain_valid(self@),
    {
        let mut prior: u64 = 0;
        let mut index: usize = 0;
        while index < self.events.len()
            invariant
                index <= self.events@.len(),
                prior == (if index == 0 {
                    0u64
                } else {
                    self.events@[index - 1].seal
                }),
                forall|j: int| 0 <= j < index ==> #[trigger] link_valid(self.events@, j),
            decreases self.events@.len() - index,
        {
            let e = &self.events[index];
            if !(e.sequence == index as u64 && e.previous_seal == prior) {
                assert(!link_valid(self.events@, index as int));
                return false;
            }
            prior = e.seal;
            index = index + 1;
        }
        true
    }

    fn append(&mut self, task_id: TaskId, epoch: Epoch, kind: LedgerKind, from: TaskState, to: TaskState)
        requires
            old(self).wf(),
            old(self)@.len() + 1 < u64::MAX,
            allowed_spec(from, to),
        ensures
            final(self)@ == old(self)@.push(next_event(old(self)@, task_id, epoch, kind, from, to)),
            final(self).wf(),
    {
        let previous_seal = if self.events.len() == 0 {
            0
        } else {
            self.events[self.events.len() - 1].seal
        };
        let sequence = self.events.len() as u64;
        let seal = mix(sequence ^ task_id ^ epoch ^ previous_seal ^ state_code(to));
        self.events.push(
            LedgerEvent { sequence, task_id, epoch, kind, from, to, previous_seal, seal },
        );
        proof {
            let s = self.events@;
            assert forall|i: int| 0 <= i < s.len() implies #[trigger] link_valid(s, i) by {
                if i < s.len() - 1 {
                    assert(link_valid(old(self).events@, i));
                }
            }
            assert forall|i: int| 0 <= i < s.len() implies allowed_spec(
                #[trigger] s[i].from,
                s[i].to,
            ) by {
                if i < s.len() - 1 {
                    assert(s[i] == old(self).events@[i]);
                }
            }
        }
    }
}

/// The declared task-state transition relation.
pub open spec fn allowed_spec(from: TaskState, to: TaskState) -> bool {
    match (from, to) {
        (TaskState::Created, TaskState::Validated) => true,
        (TaskState::Validated, TaskState::Queued) => true,
        (TaskState::Queued, TaskState::Running) => true,
        (TaskState::Running, TaskState::Checkpointed) => true,
        (TaskState::Checkpointed, TaskState::Verifying) => true,
        (TaskState::Verifying, TaskState::Committed) => true,
        (TaskState::Verifying, TaskState::Rejected) => true,
        (TaskState::Rejected, TaskState::Aborted) => true,
        (TaskState::Running, TaskState::Fault) => true,
        (TaskState::Checkpointed, TaskState::Fault) => true,
        (TaskState::Fault, TaskState::Recovering) => true,
        (TaskState::Recovering, TaskState::Restored) => true,
        (TaskState::Restored, TaskState::Retrying) => true,
        (TaskState::Retrying, TaskState::Queued) => true,
        (TaskState::Fault, TaskState::Aborted) => true,
        _ => false,
    }
}

fn allowed(from: TaskState, to: TaskState) -> (r: bool)
    ensures
        r == allowed_spec(from, to),
{
    match (from, to) {
        (TaskState::Created, TaskState::Validated) => true,
        (TaskState::Validated, TaskState::Queued) => true,
        (TaskState::Queued, TaskState::Running) => true,
        (TaskState::Running, TaskState::Checkpointed) => true,
        (TaskState::Checkpointed, TaskState::Verifying) => true,
        (TaskState::Verifying, TaskState::Committed) => true,
        (TaskState::Verifying, TaskState::Rejected) => true,
        (TaskState::Rejected, TaskState::Aborted) => true,
        (TaskState::Running, TaskState::Fault) => true,
        (TaskState::Checkpointed, TaskState::Fault) => true,
        (TaskState::Fault, TaskState::Recovering) => true,
        (TaskState::Recovering, TaskState::Restored) => true,
        (TaskState::Restored, TaskState::Retrying) => true,
        (TaskState::Retrying, TaskState::Queued) => true,
        (TaskState::Fault, TaskState::Aborted) => true,
        _ => false,
    }
}


/// A verified task is verifying or committed, and a committed task is verified.
pub open spec fn verification_consistent(t: TaskView) -> bool {
    &&& t.verified ==> (t.state == TaskState::Verifying || t.state == TaskState::Committed)
    &&& t.state == TaskState::Committed ==> t.verified
}

/// A task between operations: past creation, not caught in the middle of a
/// retry, and under verification only with an accepted result (a refused
/// one is rejected at once).
pub open spec fn at_rest(t: TaskView) -> bool {
    &&& t.state != TaskState::Created
    &&& t.state != TaskState::Retrying
    &&& t.state == TaskState::Verifying ==> t.verified
}

/// Where the events of one task have led it.
pub enum Trail {
    /// No event of the task.
    Untouched,
    /// The events form a path from `Created` that ends in this state.
    At(TaskState),
    /// An event does not start where the previous one ended.
    Broken,
}

/// The trail of task `k` after one more event `e`.
pub open spec fn trail_step(before: Trail, e: LedgerEvent, k: TaskId) -> Trail {
    if e.task_id != k {
        before
    } else {
        match before {
            Trail::Untouched => if e.from == TaskState::Created {
                Trail::At(e.to)
            } else {
                Trail::Broken
            },
            Trail::At(s) => if e.from == s {
                Trail::At(e.to)
            } else {
                Trail::Broken
            },
            Trail::Broken => Trail::Broken,
        }
    }
}

/// The trail of task `k` through `events`, oldest first.
pub open spec fn trail(events: Seq<LedgerEvent>, k: TaskId) -> Trail
    decreases events.len(),
{
    if events.len() == 0 {
        Trail::Untouched
    } else {
        trail_step(trail(events.drop_last(), k), events.last(), k)
    }
}

/// The ledger agrees with task `k`: a held task's events lead to its state
/// (a task just created has none yet), and a task not held has no events.
pub open spec fn trail_matches(m: KernelModel, k: TaskId) -> bool {
    if m.tasks.contains_key(k) {
        trail(m.ledger, k) == Trail::At(m.tasks[k].state) || (trail(m.ledger, k) == Trail::Untouched
            && m.tasks[k].state == TaskState::Created)
    } else {
        trail(m.ledger, k) == Trail::Untouched
    }
}

/// The mathematical state of a kernel.
#[verifier::ext_equal]
pub struct KernelModel {
    /// The workroom and node of the admitted authorization, if any.
    pub authorization: Option<(Seq<char>, Seq<char>)>,
    pub ceiling: Budget,
    pub tasks: Map<TaskId, TaskView>,
    /// The dispatch queue of each node that has one, front first.
    pub queues: Map<NodeId, Seq<TaskId>>,
    pub ledger: Seq<LedgerEvent>,
}

impl KernelModel {
    pub open spec fn authorized(self) -> bool {
        self.authorization is Some
    }

    /// Every task is stored under its own id, only tasks under or past an
    /// accepted verification are marked verified, every committed task is
    /// verified, and the ledger is well formed.
    pub open spec fn structured(self) -> bool {
        &&& forall|id: TaskId| #[trigger] self.tasks.contains_key(id) ==> self.tasks[id].spec.task_id == id
        &&& forall|id: TaskId| #[trigger] self.tasks.contains_key(id) ==> verification_consistent(self.tasks[id])
        &&& ledger_wf(self.ledger)
    }

    /// Structured, and the ledger tells each task's history: the events of
    /// a task lead from `Created` to its state, and there are no events of
    /// tasks the kernel does not hold.
    pub open spec fn consistent(self) -> bool {
        &&& self.structured()
        &&& forall|k: TaskId|
            #![trigger trail(self.ledger, k)]
            #![trigger self.tasks.contains_key(k)]
            trail_matches(self, k)
    }

    /// The state between operations: consistent, and every task at rest.
    pub open spec fn wf(self) -> bool {
        &&& self.consistent()
        &&& forall|id: TaskId| #[trigger] self.tasks.contains_key(id) ==> at_rest(self.tasks[id])
    }

    /// The queue of `node`; a node without one has an empty queue.
    pub open spec fn queue_of(self, node: NodeId) -> Seq<TaskId> {
        if self.queues.contains_key(node) {
            self.queues[node]
        } else {
            Seq::empty()
        }
    }

    /// The kernel with `task` stored under `id`.
    pub open spec fn with_task(self, id: TaskId, task: TaskView) -> KernelModel {
        KernelModel { tasks: self.tasks.insert(id, task), ..self }
    }

    /// The kernel with `id` appended to the queue of `node`.
    pub open spec fn enqueued(self, node: NodeId, id: TaskId) -> KernelModel {
        KernelModel { queues: self.queues.insert(node, self.queue_of(node).push(id)), ..self }
    }

    /// Moves task `id` to `next`, sealing the move into the ledger, if the
    /// move is allowed; otherwise answers the error and changes nothing.
    pub open spec fn transition(self, id: TaskId, next: TaskState, kind: LedgerKind, operation: &'static str) -> (Result<(), KernelError>, KernelModel) {
        if !self.tasks.contains_key(id) {
            (Err(KernelError::MissingTask(id)), self)
        } else if !allowed_spec(self.tasks[id].state, next) {
            (
                Err(
                    KernelError::InvalidState {
                        task_id: id,
                        state: self.tasks[id].state,
                        operation,
                    },
                ),
                self,
            )
        } else {
            let t = self.tasks[id];
            (
                Ok(()),
                KernelModel {
                    tasks: self.tasks.insert(id, TaskView { state: next, ..t }),
                    ledger: self.ledger.push(
                        next_event(self.ledger, t.spec.task_id, t.epoch, kind, t.state, next),
                    ),
                    ..self
                },
            )
        }
    }

    /// The lease check of a running task at `epoch`.
    pub open spec fn lease(self, id: TaskId, epoch: Epoch, operation: &'static str) -> Result<(), KernelError> {
        if !self.tasks.contains_key(id) {
            Err(KernelError::MissingTask(id))
        } else if self.tasks[id].state != TaskState::Running {
            Err(KernelError::InvalidState { task_id: id, state: self.tasks[id].state, operation })
        } else if self.tasks[id].epoch != epoch {
            Err(KernelError::LeaseMismatch(id))
        } else {
            Ok(())
        }
    }

    pub open spec fn spawn(self, spec: TaskSpec, now: u64) -> (Result<(), KernelError>, KernelModel) {
        let id = spec.task_id;
        if !self.authorized() {
            (Err(KernelError::Unauthorized), self)
        } else if self.tasks.contains_key(id) {
            (Err(KernelError::DuplicateTask(id)), self)
        } else if !spec.budget.fits_spec(self.ceiling) {
            (Err(KernelError::BudgetExceeded(id)), self)
        } else if spec.deadline_tick <= now {
            (Err(KernelError::DeadlineElapsed(id)), self)
        } else {
            self.with_task(id, fresh_task(spec)).transition(
                id,
                TaskState::Validated,
                LedgerKind::Transition,
                "validate",
            )
        }
    }

    pub open spec fn schedule(self, id: TaskId, node: NodeId) -> (Result<(), KernelError>, KernelModel) {
        if !self.authorized() {
            (Err(KernelError::Unauthorized), self)
        } else {
            let (r, m) = self.transition(id, TaskState::Queued, LedgerKind::Transition, "schedule");
            if r is Err {
                (r, m)
            } else {
                (
                    Ok(()),
                    m.enqueued(node, id).with_task(
                        id,
                        TaskView { assigned_node: Some(node), ..m.tasks[id] },
                    ),
                )
            }
        }
    }

    /// The kernel after the front of `node`'s queue is taken off.
    pub open spec fn popped(self, node: NodeId) -> KernelModel {
        if self.queue_of(node).len() > 0 {
            KernelModel { queues: self.queues.insert(node, self.queue_of(node).drop_first()), ..self }
        } else {
            self
        }
    }

    pub open spec fn dispatch(self, id: TaskId, node: NodeId) -> (Result<Epoch, KernelError>, KernelModel) {
        if !self.authorized() {
            (Err(KernelError::Unauthorized), self)
        } else {
            let q = self.queue_of(node);
            let m0 = self.popped(node);
            if !(q.len() > 0 && q[0] == id) {
                (Err(KernelError::LeaseMismatch(id)), m0)
            } else {
                let (r, m1) = m0.transition(id, TaskState::Running, LedgerKind::Transition, "dispatch");
                match r {
                    Err(e) => (Err(e), m1),
                    Ok(_) => {
                        let t = m1.tasks[id];
                        let e = (t.epoch + 1) as u64;
                        (Ok(e), m1.with_task(id, TaskView { epoch: e, ..t }))
                    },
                }
            }
        }
    }

    /// Sets the suspension flag of a leased task.
    pub open spec fn set_suspended(self, id: TaskId, epoch: Epoch, suspended: bool, operation: &'static str) -> (Result<(), KernelError>, KernelModel) {
        if !self.authorized() {
            (Err(KernelError::Unauthorized), self)
        } else {
            match self.lease(id, epoch, operation) {
                Err(e) => (Err(e), self),
                Ok(_) => (Ok(()), self.with_task(id, TaskView { suspended, ..self.tasks[id] })),
            }
        }
    }

    pub open spec fn checkpoint(self, id: TaskId, epoch: Epoch, checkpoint: CheckpointId) -> (Result<(), KernelError>, KernelModel) {
        if !self.authorized() {
            (Err(KernelError::Unauthorized), self)
        } else {
            match self.lease(id, epoch, "checkpoint") {
                Err(e) => (Err(e), self),
                Ok(_) => if self.tasks[id].suspended {
                    (
                        Err(
                            KernelError::InvalidState {
                                task_id: id,
                                state: TaskState::Running,
                                operation: "checkpoint",
                            },
                        ),
                        self,
                    )
                } else {
                    let (r, m) = self.transition(
                        id,
                        TaskState::Checkpointed,
                        LedgerKind::Transition,
                        "checkpoint",
                    );
                    (r, m.with_task(id, TaskView { checkpoint_id: Some(checkpoint), ..m.tasks[id] }))
                },
            }
        }
    }

    pub open spec fn verify(self, id: TaskId, accepted: bool) -> (Result<(), KernelError>, KernelModel) {
        if !self.authorized() {
            (Err(KernelError::Unauthorized), self)
        } else {
            let (r, m) = self.transition(id, TaskState::Verifying, LedgerKind::Transition, "verify");
            if r is Err {
                (r, m)
            } else if accepted {
                (Ok(()), m.with_task(id, TaskView { verified: true, ..m.tasks[id] }))
            } else {
                m.transition(id, TaskState::Rejected, LedgerKind::Transition, "reject")
            }
        }
    }

    pub open spec fn commit(self, id: TaskId) -> (Result<(), KernelError>, KernelModel) {
        if !self.authorized() {
            (Err(KernelError::Unauthorized), self)
        } else if !self.tasks.contains_key(id) {
            (Err(KernelError::MissingTask(id)), self)
        } else if self.tasks[id].state != TaskState::Verifying || !self.tasks[id].verified {
            (
                Err(
                    KernelError::InvalidState {
                        task_id: id,
                        state: self.tasks[id].state,
                        operation: "commit",
                    },
                ),
                self,
            )
        } else {
            self.transition(id, TaskState::Committed, LedgerKind::Commit, "commit")
        }
    }

    /// An operation that is a single guarded transition.
    pub open spec fn guarded(self, id: TaskId, next: TaskState, operation: &'static str) -> (Result<(), KernelError>, KernelModel) {
        if !self.authorized() {
            (Err(KernelError::Unauthorized), self)
        } else {
            self.transition(id, next, LedgerKind::Transition, operation)
        }
    }

    pub open spec fn fault(self, id: TaskId, epoch: Epoch) -> (Result<(), KernelError>, KernelModel) {
        if !self.authorized() {
            (Err(KernelError::Unauthorized), self)
        } else if !self.tasks.contains_key(id) {
            (Err(KernelError::MissingTask(id)), self)
        } else if !(self.tasks[id].state == TaskState::Running || self.tasks[id].state
            == TaskState::Checkpointed) {
            (
                Err(
                    KernelError::InvalidState {
                        task_id: id,
                        state: self.tasks[id].state,
                        operation: "fault",
                    },
                ),
                self,
            )
        } else if self.tasks[id].epoch != epoch {
            (Err(KernelError::LeaseMismatch(id)), self)
        } else {
            self.transition(id, TaskState::Fault, LedgerKind::Transition, "fault")
        }
    }

    pub open spec fn restore(self, id: TaskId, checkpoint: CheckpointId) -> (Result<(), KernelError>, KernelModel) {
        if !self.authorized() {
            (Err(KernelError::Unauthorized), self)
        } else if !self.tasks.contains_key(id) {
            (Err(KernelError::MissingTask(id)), self)
        } else if self.tasks[id].checkpoint_id != Some(checkpoint) {
            (Err(KernelError::LeaseMismatch(id)), self)
        } else {
            self.transition(id, TaskState::Restored, LedgerKind::Transition, "restore")
        }
    }

    pub open spec fn retry(self, id: TaskId, node: NodeId) -> (Result<(), KernelError>, KernelModel) {
        if !self.authorized() {
            (Err(KernelError::Unauthorized), self)
        } else {
            let (r1, m1) = self.transition(id, TaskState::Retrying, LedgerKind::Transition, "retry");
            if r1 is Err {
                (r1, m1)
            } else {
                let (r2, m2) = m1.transition(id, TaskState::Queued, LedgerKind::Transition, "schedule");
                if r2 is Err {
                    (r2, m2)
                } else {
                    (Ok(()), m2.enqueued(node, id))
                }
            }
        }
    }
}

proof fn lemma_trail_push(events: Seq<LedgerEvent>, e: LedgerEvent, k: TaskId)
    ensures
        trail(events.push(e), k) == trail_step(trail(events, k), e, k),
{
    assert(events.push(e).drop_last() =~= events);
}

proof fn lemma_append_ledger_wf(
    events: Seq<LedgerEvent>,
    task_id: TaskId,
    epoch: Epoch,
    kind: LedgerKind,
    from: TaskState,
    to: TaskState,
)
    requires
        ledger_wf(events),
        events.len() + 1 < u64::MAX,
        allowed_spec(from, to),
    ensures
        ledger_wf(events.push(next_event(events, task_id, epoch, kind, from, to))),
{
    let s = events.push(next_event(events, task_id, epoch, kind, from, to));
    assert forall|i: int| 0 <= i < s.len() implies #[trigger] link_valid(s, i) by {
        if i < s.len() - 1 {
            assert(link_valid(events, i));
        }
    }
    assert forall|i: int| 0 <= i < s.len() implies allowed_spec(#[trigger] s[i].from, s[i].to) by {
        if i < s.len() - 1 {
            assert(s[i] == events[i]);
        }
    }
}

/// One operation's effect on what lasts: the old ledger is a prefix of the
/// new one, at most two events longer, and every held task is still held
/// with the same specification.
pub open spec fn grows(m: KernelModel, q: KernelModel) -> bool {
    &&& m.ledger.is_prefix_of(q.ledger)
    &&& q.ledger.len() <= m.ledger.len() + 2
    &&& forall|k: TaskId| #[trigger] m.tasks.contains_key(k) ==> q.tasks.contains_key(k) && q.tasks[k].spec
        == m.tasks[k].spec
}

/// An operation other than spawning left a well-formed kernel that grew from
/// `m` and holds the same tasks.
pub open spec fn settled(m: KernelModel, q: KernelModel) -> bool {
    &&& q.wf()
    &&& grows(m, q)
    &&& q.tasks.dom() == m.tasks.dom()
}

proof fn lemma_settled_refl(m: KernelModel)
    requires
        m.wf(),
    ensures
        settled(m, m),
{
    assert(m.ledger.subrange(0, m.ledger.len() as int) =~= m.ledger);
}

proof fn lemma_prefix_trans(a: Seq<LedgerEvent>, b: Seq<LedgerEvent>, c: Seq<LedgerEvent>)
    requires
        a.is_prefix_of(b),
        b.is_prefix_of(c),
    ensures
        a.is_prefix_of(c),
{
    assert forall|i: int| 0 <= i < a.len() implies a[i] == c.subrange(0, a.len() as int)[i] by {
        assert(a[i] == b.subrange(0, a.len() as int)[i]);
        assert(b[i] == c.subrange(0, b.len() as int)[i]);
    }
    assert(a =~= c.subrange(0, a.len() as int));
}

/// A transition keeps the kernel consistent, changes only task `id`,
/// appends at most its event, and changes nothing when refused.
proof fn lemma_transition(m: KernelModel, id: TaskId, next: TaskState, kind: LedgerKind, operation: &'static str)
    requires
        m.consistent(),
        m.ledger.len() + 1 < u64::MAX,
        m.tasks.contains_key(id) && allowed_spec(m.tasks[id].state, next) ==> verification_consistent(
            TaskView { state: next, ..m.tasks[id] },
        ),
    ensures
        m.transition(id, next, kind, operation).1.consistent(),
        m.transition(id, next, kind, operation).1.tasks.dom() == m.tasks.dom(),
        forall|k: TaskId|
            k != id && #[trigger] m.tasks.contains_key(k) ==> m.transition(id, next, kind, operation).1.tasks[k]
                == m.tasks[k],
        forall|k: TaskId|
            #[trigger] m.tasks.contains_key(k) ==> m.transition(id, next, kind, operation).1.tasks[k].spec
                == m.tasks[k].spec,
        m.ledger.is_prefix_of(m.transition(id, next, kind, operation).1.ledger),
        m.transition(id, next, kind, operation).1.ledger.len() <= m.ledger.len() + 1,
        m.transition(id, next, kind, operation).1.queues == m.queues,
        m.transition(id, next, kind, operation).1.authorization == m.authorization,
        m.transition(id, next, kind, operation).1.ceiling == m.ceiling,
        m.transition(id, next, kind, operation).0 is Err ==> m.transition(id, next, kind, operation).1 == m,
{
    if m.tasks.contains_key(id) && allowed_spec(m.tasks[id].state, next) {
        let t = m.tasks[id];
        let q = m.transition(id, next, kind, operation).1;
        let e = next_event(m.ledger, t.spec.task_id, t.epoch, kind, t.state, next);
        lemma_append_ledger_wf(m.ledger, t.spec.task_id, t.epoch, kind, t.state, next);
        assert(q.ledger == m.ledger.push(e));
        assert(m.ledger =~= q.ledger.subrange(0, m.ledger.len() as int));
        assert forall|k: TaskId| #[trigger] q.tasks.contains_key(k) implies q.tasks[k].spec.task_id == k && verification_consistent(q.tasks[k]) by {
            if k != id {
                assert(m.tasks.contains_key(k));
            }
        }
        assert forall|k: TaskId| trail_matches(q, k) by {
            lemma_trail_push(m.ledger, e, k);
            assert(trail_matches(m, k));
        }
        assert(q.tasks.dom() =~= m.tasks.dom());
    } else {
        assert(m.ledger =~= m.ledger.subrange(0, m.ledger.len() as int));
    }
}

/// Replacing a held task's record without changing its identity or state
/// keeps the kernel consistent.
proof fn lemma_with_task(m: KernelModel, id: TaskId, t: TaskView)
    requires
        m.consistent(),
        m.tasks.contains_key(id),
        t.state == m.tasks[id].state,
        t.spec == m.tasks[id].spec,
        verification_consistent(t),
    ensures
        m.with_task(id, t).consistent(),
        m.with_task(id, t).tasks.dom() == m.tasks.dom(),
{
    let q = m.with_task(id, t);
    assert forall|k: TaskId| #[trigger] q.tasks.contains_key(k) implies q.tasks[k].spec.task_id == k && verification_consistent(q.tasks[k]) by {
        if k != id {
            assert(m.tasks.contains_key(k));
        }
    }
    assert forall|k: TaskId| trail_matches(q, k) by {
        assert(trail_matches(m, k));
    }
    assert(q.tasks.dom() =~= m.tasks.dom());
}

/// Registering a new task keeps the kernel consistent.
proof fn lemma_fresh(m: KernelModel, spec: TaskSpec)
    requires
        m.consistent(),
        !m.tasks.contains_key(spec.task_id),
    ensures
        m.with_task(spec.task_id, fresh_task(spec)).consistent(),
{
    let q = m.with_task(spec.task_id, fresh_task(spec));
    assert forall|k: TaskId| #[trigger] q.tasks.contains_key(k) implies q.tasks[k].spec.task_id == k && verification_consistent(q.tasks[k]) by {
        if k != spec.task_id {
            assert(m.tasks.contains_key(k));
        }
    }
    assert forall|k: TaskId| trail_matches(q, k) by {
        assert(trail_matches(m, k));
    }
}

/// A change of the queues alone keeps the kernel well formed.
proof fn lemma_same_tasks(m: KernelModel, q: KernelModel)
    requires
        m.consistent(),
        q.tasks == m.tasks,
        q.ledger == m.ledger,
    ensures
        q.consistent(),
        m.wf() ==> q.wf(),
{
    assert forall|k: TaskId| trail_matches(q, k) by {
        assert(trail_matches(m, k));
    }
}

/// After an operation that moved only task `id`, every task is at rest when
/// `id` is.
proof fn lemma_rest(m: KernelModel, q: KernelModel, id: TaskId)
    requires
        m.wf(),
        q.consistent(),
        q.tasks.dom() == m.tasks.dom(),
        forall|k: TaskId| k != id && #[trigger] m.tasks.contains_key(k) ==> q.tasks[k] == m.tasks[k],
        q.tasks.contains_key(id) ==> at_rest(q.tasks[id]),
    ensures
        q.wf(),
{
    assert forall|k: TaskId| #[trigger] q.tasks.contains_key(k) implies at_rest(q.tasks[k]) by {
        if k != id {
            assert(m.tasks.contains_key(k));
        }
    }
}

proof fn lemma_spawn_wf(m: KernelModel, spec: TaskSpec, now: u64)
    requires
        m.wf(),
        m.ledger.len() + 2 < u64::MAX,
    ensures
        m.spawn(spec, now).1.wf(),
        grows(m, m.spawn(spec, now).1),
        m.spawn(spec, now).0 is Err ==> m.spawn(spec, now).1 == m,
        m.spawn(spec, now).0 is Ok ==> {
            &&& !m.tasks.contains_key(spec.task_id)
            &&& m.spawn(spec, now).1.tasks.dom() == m.tasks.dom().insert(spec.task_id)
            &&& m.spawn(spec, now).1.tasks[spec.task_id].spec == spec
        },
{
    let id = spec.task_id;
    if m.authorized() && !m.tasks.contains_key(id) && spec.budget.fits_spec(m.ceiling) && spec.deadline_tick > now {
        let m1 = m.with_task(id, fresh_task(spec));
        lemma_fresh(m, spec);
        lemma_transition(m1, id, TaskState::Validated, LedgerKind::Transition, "validate");
        let q = m1.transition(id, TaskState::Validated, LedgerKind::Transition, "validate").1;
        assert(q.tasks.dom() =~= m.tasks.dom().insert(id));
        assert forall|k: TaskId| #[trigger] q.tasks.contains_key(k) implies at_rest(q.tasks[k]) by {
            if k != id {
                assert(m.tasks.contains_key(k));
                assert(m1.tasks.contains_key(k));
            }
        }
        assert forall|k: TaskId| #[trigger] m.tasks.contains_key(k) implies q.tasks.contains_key(k) && q.tasks[k].spec == m.tasks[k].spec by {
            assert(m1.tasks.contains_key(k));
        }
    } else {
        lemma_settled_refl(m);
    }
}

proof fn lemma_schedule_wf(m: KernelModel, id: TaskId, node: NodeId)
    requires
        m.wf(),
        m.ledger.len() + 2 < u64::MAX,
    ensures
        settled(m, m.schedule(id, node).1),
{
    lemma_settled_refl(m);
    if m.authorized() {
        lemma_transition(m, id, TaskState::Queued, LedgerKind::Transition, "schedule");
        let (r, m1) = m.transition(id, TaskState::Queued, LedgerKind::Transition, "schedule");
        if r is Ok {
            let m2 = m1.enqueued(node, id);
            lemma_same_tasks(m1, m2);
            let t = TaskView { assigned_node: Some(node), ..m1.tasks[id] };
            lemma_with_task(m2, id, t);
            lemma_rest(m, m2.with_task(id, t), id);
        }
    }
}

proof fn lemma_dispatch_wf(m: KernelModel, id: TaskId, node: NodeId)
    requires
        m.wf(),
        m.ledger.len() + 2 < u64::MAX,
    ensures
        settled(m, m.dispatch(id, node).1),
{
    lemma_settled_refl(m);
    if m.authorized() {
        let m0 = m.popped(node);
        lemma_same_tasks(m, m0);
        let q = m.queue_of(node);
        if q.len() > 0 && q[0] == id {
            lemma_transition(m0, id, TaskState::Running, LedgerKind::Transition, "dispatch");
            let (r, m1) = m0.transition(id, TaskState::Running, LedgerKind::Transition, "dispatch");
            if r is Ok {
                let t = m1.tasks[id];
                let u = TaskView { epoch: (t.epoch + 1) as u64, ..t };
                lemma_with_task(m1, id, u);
                lemma_rest(m0, m1.with_task(id, u), id);
            } else {
                lemma_rest(m0, m1, id);
            }
        }
    }
}

proof fn lemma_set_suspended_wf(m: KernelModel, id: TaskId, epoch: Epoch, suspended: bool, operation: &'static str)
    requires
        m.wf(),
    ensures
        settled(m, m.set_suspended(id, epoch, suspended, operation).1),
{
    lemma_settled_refl(m);
    if m.authorized() && m.lease(id, epoch, operation) is Ok {
        let t = TaskView { suspended, ..m.tasks[id] };
        lemma_with_task(m, id, t);
        lemma_rest(m, m.with_task(id, t), id);
    }
}

proof fn lemma_checkpoint_wf(m: KernelModel, id: TaskId, epoch: Epoch, checkpoint: CheckpointId)
    requires
        m.wf(),
        m.ledger.len() + 2 < u64::MAX,
    ensures
        settled(m, m.checkpoint(id, epoch, checkpoint).1),
{
    lemma_settled_refl(m);
    if m.authorized() && m.lease(id, epoch, "checkpoint") is Ok && !m.tasks[id].suspended {
        lemma_transition(m, id, TaskState::Checkpointed, LedgerKind::Transition, "checkpoint");
        let m1 = m.transition(id, TaskState::Checkpointed, LedgerKind::Transition, "checkpoint").1;
        let t = TaskView { checkpoint_id: Some(checkpoint), ..m1.tasks[id] };
        lemma_with_task(m1, id, t);
        lemma_rest(m, m1.with_task(id, t), id);
    }
}

proof fn lemma_verify_wf(m: KernelModel, id: TaskId, accepted: bool)
    requires
        m.wf(),
        m.ledger.len() + 2 < u64::MAX,
    ensures
        settled(m, m.verify(id, accepted).1),
{
    lemma_settled_refl(m);
    if m.authorized() {
        lemma_transition(m, id, TaskState::Verifying, LedgerKind::Transition, "verify");
        let (r, m1) = m.transition(id, TaskState::Verifying, LedgerKind::Transition, "verify");
        if r is Ok {
            if accepted {
                let t = TaskView { verified: true, ..m1.tasks[id] };
                lemma_with_task(m1, id, t);
                lemma_rest(m, m1.with_task(id, t), id);
            } else {
                lemma_transition(m1, id, TaskState::Rejected, LedgerKind::Transition, "reject");
                let m2 = m1.transition(id, TaskState::Rejected, LedgerKind::Transition, "reject").1;
                lemma_prefix_trans(m.ledger, m1.ledger, m2.ledger);
                lemma_rest(m, m2, id);
            }
        }
    }
}

proof fn lemma_guarded_wf(m: KernelModel, id: TaskId, next: TaskState, kind: LedgerKind, operation: &'static str)
    requires
        m.wf(),
        m.ledger.len() + 2 < u64::MAX,
        next != TaskState::Created && next != TaskState::Retrying && next != TaskState::Verifying
            && next != TaskState::Rejected,
        next == TaskState::Committed ==> m.tasks.contains_key(id) && m.tasks[id].verified,
    ensures
        settled(m, m.transition(id, next, kind, operation).1),
{
    lemma_transition(m, id, next, kind, operation);
    lemma_rest(m, m.transition(id, next, kind, operation).1, id);
}

proof fn lemma_retry_wf(m: KernelModel, id: TaskId, node: NodeId)
    requires
        m.wf(),
        m.ledger.len() + 2 < u64::MAX,
    ensures
        settled(m, m.retry(id, node).1),
{
    lemma_settled_refl(m);
    if m.authorized() {
        lemma_transition(m, id, TaskState::Retrying, LedgerKind::Transition, "retry");
        let (r1, m1) = m.transition(id, TaskState::Retrying, LedgerKind::Transition, "retry");
        if r1 is Ok {
            lemma_transition(m1, id, TaskState::Queued, LedgerKind::Transition, "schedule");
            let m2 = m1.transition(id, TaskState::Queued, LedgerKind::Transition, "schedule").1;
            let m3 = m2.enqueued(node, id);
            lemma_same_tasks(m2, m3);
            lemma_prefix_trans(m.ledger, m1.ledger, m2.ledger);
            lemma_rest(m, m3, id);
        }
    }
}

/// The task orchestration kernel.
pub struct Kernel {
    authorization: Option<Authorization>,
    ceiling: Budget,
    tasks: BTreeMap<TaskId, Task>,
    queues: BTreeMap<NodeId, VecDeque<TaskId>>,
    pub ledger: WormLedger,
}

pub open spec fn authorization_view(a: Option<Authorization>) -> Option<(Seq<char>, Seq<char>)> {
    match a {
        Some(x) => Some(x@),
        None => None,
    }
}

pub open spec fn tasks_view(m: Map<TaskId, Task>) -> Map<TaskId, TaskView> {
    m.map_values(|t: Task| t@)
}

pub open spec fn queues_view(m: Map<NodeId, VecDeque<TaskId>>) -> Map<NodeId, Seq<TaskId>> {
    m.map_values(|q: VecDeque<TaskId>| q@)
}

impl View for Kernel {
    type V = KernelModel;

    closed spec fn view(&self) -> KernelModel {
        KernelModel {
            authorization: authorization_view(self.authorization),
            ceiling: self.ceiling,
            tasks: tasks_view(self.tasks@),
            queues: queues_view(self.queues@),
            ledger: self.ledger@,
        }
    }
}

impl Kernel {
    /// The kernel's state is well formed.
    pub open spec fn wf(&self) -> bool {
        self@.wf()
    }

    /// The ledger has room for the events of one more operation; a ledger
    /// cannot hold anywhere near 2^64 events in memory.
    pub open spec fn has_room(&self) -> bool {
        self@.ledger.len() + 2 < u64::MAX
    }

    /// A kernel with no authorization, no tasks and an empty ledger.
    pub fn new(ceiling: Budget) -> (k: Self)
        ensures
            k@ == (KernelModel {
                authorization: None,
                ceiling,
                tasks: Map::empty(),
                queues: Map::empty(),
                ledger: Seq::empty(),
            }),
            k.wf(),
    {
        let k = Kernel {
            authorization: None,
            ceiling,
            tasks: BTreeMap::new(),
            queues: BTreeMap::new(),
            ledger: WormLedger::default(),
        };
        proof {
            assert(tasks_view(k.tasks@) =~= Map::empty());
            assert(queues_view(k.queues@) =~= Map::empty());
        }
        k
    }

    pub fn accept_authorization(&mut self, authorization: Authorization)
        ensures
            final(self)@ == (KernelModel { authorization: Some(authorization@), ..old(self)@ }),
            old(self).wf() ==> final(self).wf(),
    {
        self.authorization = Some(authorization);
        proof {
            if old(self).wf() {
                lemma_same_tasks(old(self)@, self@);
            }
        }
    }

    /// The kernel's ledger.
    pub fn ledger(&self) -> (l: &WormLedger)
        ensures
            l@ == self@.ledger,
    {
        &self.ledger
    }

    pub fn task(&self, id: TaskId) -> (r: Option<&Task>)
        ensures
            match r {
                Some(t) => self@.tasks.contains_key(id) && t@ == self@.tasks[id],
                None => !self@.tasks.contains_key(id),
            },
    {
        self.tasks.get(&id)
    }

    fn guard(&self) -> (r: Result<(), KernelError>)
        ensures
            r is Ok <==> self@.authorized(),
            r is Err ==> r == Err::<(), KernelError>(KernelError::Unauthorized),
    {
        match &self.authorization {
            Some(_) => Ok(()),
            None => Err(KernelError::Unauthorized),
        }
    }

    /// Takes task `id` out of the task map.
    fn take_task(&mut self, id: TaskId) -> (t: Task)
        requires
            old(self)@.tasks.contains_key(id),
            old(self)@.structured(),
        ensures
            t@ == old(self)@.tasks[id],
            t@.spec.task_id == id,
            final(self)@.structured(),
            final(self)@ == (KernelModel { tasks: old(self)@.tasks.remove(id), ..old(self)@ }),
    {
        let t = self.tasks.remove(&id);
        proof {
            assert(tasks_view(self.tasks@) =~= tasks_view(old(self).tasks@).remove(id));
        }
        t.unwrap()
    }

    /// Stores `t` under `id`.
    fn put_task(&mut self, id: TaskId, t: Task)
        requires
            old(self)@.structured(),
            t@.spec.task_id == id,
            verification_consistent(t@),
        ensures
            final(self)@.structured(),
            final(self)@ == old(self)@.with_task(id, t@),
    {
        self.tasks.insert(id, t);
        proof {
            assert(tasks_view(self.tasks@) =~= tasks_view(old(self).tasks@).insert(id, t@));
        }
    }

    /// Appends `id` to the queue of `node`.
    fn enqueue(&mut self, node: NodeId, id: TaskId)
        requires
            old(self)@.structured(),
        ensures
            final(self)@.structured(),
            final(self)@ == old(self)@.enqueued(node, id),
    {
        let mut q = match self.queues.remove(&node) {
            Some(q) => q,
            None => VecDeque::new(),
        };
        q.push_back(id);
        self.queues.insert(node, q);
        proof {
            assert(queues_view(self.queues@) =~= old(self)@.queues.insert(
                node,
                old(self)@.queue_of(node).push(id),
            ));
        }
    }

    fn lease(&self, id: TaskId, epoch: Epoch, operation: &'static str) -> (r: Result<(), KernelError>)
        ensures
            r == self@.lease(id, epoch, operation),
    {
        match self.tasks.get(&id) {
            None => Err(KernelError::MissingTask(id)),
            Some(task) => {
                if task.state != TaskState::Running {
                    Err(KernelError::InvalidState { task_id: id, state: task.state, operation })
                } else if task.epoch != epoch {
                    Err(KernelError::LeaseMismatch(id))
                } else {
                    Ok(())
                }
            },
        }
    }

    fn transition(&mut self, id: TaskId, next: TaskState, kind: LedgerKind, operation: &'static str) -> (r: Result<(), KernelError>)
        requires
            old(self)@.structured(),
            old(self)@.ledger.len() + 1 < u64::MAX,
            old(self)@.tasks.contains_key(id) ==> verification_consistent(
                TaskView { state: next, ..old(self)@.tasks[id] },
            ) || !allowed_spec(old(self)@.tasks[id].state, next),
        ensures
            (r, final(self)@) == old(self)@.transition(id, next, kind, operation),
            final(self)@.structured(),
    {
        let (prior, task_id, epoch) = match self.tasks.get(&id) {
            None => return Err(KernelError::MissingTask(id)),
            Some(task) => (task.state, task.spec.task_id, task.epoch),
        };
        if !allowed(prior, next) {
            return Err(KernelError::InvalidState { task_id: id, state: prior, operation });
        }
        self.ledger.append(task_id, epoch, kind, prior, next);
        let mut t = self.take_task(id);
        t.state = next;
        self.put_task(id, t);
        Ok(())
    }

    /// Takes the front of `node`'s queue off, if there is one.
    fn pop_queue(&mut self, node: NodeId) -> (r: Option<TaskId>)
        requires
            old(self)@.structured(),
        ensures
            final(self)@ == old(self)@.popped(node),
            final(self)@.structured(),
            r == (if old(self)@.queue_of(node).len() > 0 {
                Some(old(self)@.queue_of(node)[0])
            } else {
                None
            }),
    {
        match self.queues.remove(&node) {
            None => {
                proof {
                    assert(queues_view(self.queues@) =~= old(self)@.queues);
                }
                None
            },
            Some(mut q) => {
                let p = q.pop_front();
                self.queues.insert(node, q);
                proof {
                    if old(self)@.queue_of(node).len() > 0 {
                        assert(queues_view(self.queues@) =~= old(self)@.queues.insert(
                            node,
                            old(self)@.queue_of(node).drop_first(),
                        ));
                    } else {
                        assert(queues_view(self.queues@) =~= old(self)@.queues);
                    }
                }
                p
            },
        }
    }

    /// Registers task `spec` and validates it; refused when unauthorized,
    /// duplicate, over the ceiling, or past its deadline at `now`.
    pub fn spawn(&mut self, spec: TaskSpec, now: u64) -> (r: Result<(), KernelError>)
        requires
            old(self).wf(),
            old(self).has_room(),
        ensures
            (r, final(self)@) == old(self)@.spawn(spec, now),
            final(self).wf(),
            old(self)@.ledger.is_prefix_of(final(self)@.ledger),
    {
        proof {
            lemma_spawn_wf(old(self)@, spec, now);
        }
        if let Err(e) = self.guard() {
            return Err(e);
        }
        let id = spec.task_id;
        if self.tasks.contains_key(&id) {
            return Err(KernelError::DuplicateTask(id));
        }
        if !spec.budget.fits(self.ceiling) {
            return Err(KernelError::BudgetExceeded(id));
        }
        if spec.deadline_tick <= now {
            return Err(KernelError::DeadlineElapsed(id));
        }
        let task = Task {
            spec,
            state: TaskState::Created,
            epoch: 0,
            checkpoint_id: None,
            assigned_node: None,
            suspended: false,
            verified: false,
        };
        self.put_task(id, task);
        self.transition(id, TaskState::Validated, LedgerKind::Transition, "validate")
    }

    /// Queues a validated task on `node`.
    pub fn schedule(&mut self, id: TaskId, node: NodeId) -> (r: Result<(), KernelError>)
        requires
            old(self).wf(),
            old(self).has_room(),
        ensures
            (r, final(self)@) == old(self)@.schedule(id, node),
            final(self).wf(),
            old(self)@.ledger.is_prefix_of(final(self)@.ledger),
    {
        proof {
            lemma_schedule_wf(old(self)@, id, node);
        }
        if let Err(e) = self.guard() {
            return Err(e);
        }
        let r = self.transition(id, TaskState::Queued, LedgerKind::Transition, "schedule");
        if r.is_err() {
            return r;
        }
        self.enqueue(node, id);
        let mut t = self.take_task(id);
        t.assigned_node = Some(node);
        self.put_task(id, t);
        Ok(())
    }

    /// Takes the front of `node`'s queue, which must be `id`, and runs it;
    /// answers the task's new epoch.
    pub fn dispatch(&mut self, id: TaskId, node: NodeId) -> (r: Result<Epoch, KernelError>)
        requires
            old(self).wf(),
            old(self).has_room(),
            old(self)@.tasks.contains_key(id) ==> old(self)@.tasks[id].epoch < u64::MAX,
        ensures
            (r, final(self)@) == old(self)@.dispatch(id, node),
            final(self).wf(),
            old(self)@.ledger.is_prefix_of(final(self)@.ledger),
    {
        proof {
            lemma_dispatch_wf(old(self)@, id, node);
        }
        if let Err(e) = self.guard() {
            return Err(e);
        }
        let popped = self.pop_queue(node);
        match popped {
            Some(p) => {
                if p != id {
                    return Err(KernelError::LeaseMismatch(id));
                }
            },
            None => {
                return Err(KernelError::LeaseMismatch(id));
            },
        }
        if let Err(e) = self.transition(id, TaskState::Running, LedgerKind::Transition, "dispatch") {
            return Err(e);
        }
        let mut t = self.take_task(id);
        t.epoch = t.epoch + 1;
        let epoch = t.epoch;
        self.put_task(id, t);
        Ok(epoch)
    }

    fn set_suspended(&mut self, id: TaskId, epoch: Epoch, suspended: bool, operation: &'static str) -> (r: Result<(), KernelError>)
        requires
            old(self).wf(),
        ensures
            (r, final(self)@) == old(self)@.set_suspended(id, epoch, suspended, operation),
            final(self).wf(),
    {
        proof {
            lemma_set_suspended_wf(old(self)@, id, epoch, suspended, operation);
        }
        if let Err(e) = self.guard() {
            return Err(e);
        }
        if let Err(e) = self.lease(id, epoch, operation) {
            return Err(e);
        }
        let mut t = self.take_task(id);
        t.suspended = suspended;
        self.put_task(id, t);
        Ok(())
    }

    /// Marks a running task, leased at `epoch`, as suspended.
    pub fn suspend(&mut self, id: TaskId, epoch: Epoch) -> (r: Result<(), KernelError>)
        requires
            old(self).wf(),
        ensures
            (r, final(self)@) == old(self)@.set_suspended(id, epoch, true, "suspend"),
            final(self).wf(),
            final(self)@.ledger == old(self)@.ledger,
    {
        self.set_suspended(id, epoch, true, "suspend")
    }

    /// Clears the suspension of a running task leased at `epoch`.
    pub fn resume(&mut self, id: TaskId, epoch: Epoch) -> (r: Result<(), KernelError>)
        requires
            old(self).wf(),
        ensures
            (r, final(self)@) == old(self)@.set_suspended(id, epoch, false, "resume"),
            final(self).wf(),
            final(self)@.ledger == old(self)@.ledger,
    {
        self.set_suspended(id, epoch, false, "resume")
    }

    /// Checkpoints a running, unsuspended task leased at `epoch` and binds
    /// it to `checkpoint`.
    pub fn checkpoint(&mut self, id: TaskId, epoch: Epoch, checkpoint: CheckpointId) -> (r: Result<(), KernelError>)
        requires
            old(self).wf(),
            old(self).has_room(),
        ensures
            (r, final(self)@) == old(self)@.checkpoint(id, epoch, checkpoint),
            final(self).wf(),
            old(self)@.ledger.is_prefix_of(final(self)@.ledger),
    {
        proof {
            lemma_checkpoint_wf(old(self)@, id, epoch, checkpoint);
        }
        if let Err(e) = self.guard() {
            return Err(e);
        }
        if let Err(e) = self.lease(id, epoch, "checkpoint") {
            return Err(e);
        }
        let suspended = match self.tasks.get(&id) {
            Some(t) => t.suspended,
            None => false,
        };
        if suspended {
            return Err(
                KernelError::InvalidState {
                    task_id: id,
                    state: TaskState::Running,
                    operation: "checkpoint",
                },
            );
        }
        if let Err(e) = self.transition(id, TaskState::Checkpointed, LedgerKind::Transition, "checkpoint") {
            return Err(e);
        }
        let mut t = self.take_task(id);
        t.checkpoint_id = Some(checkpoint);
        self.put_task(id, t);
        Ok(())
    }

    /// Moves a checkpointed task to verification; an accepted result marks
    /// it verified, a refused one rejects it.
    pub fn verify(&mut self, id: TaskId, accepted: bool) -> (r: Result<(), KernelError>)
        requires
            old(self).wf(),
            old(self).has_room(),
        ensures
            (r, final(self)@) == old(self)@.verify(id, accepted),
            final(self).wf(),
            old(self)@.ledger.is_prefix_of(final(self)@.ledger),
    {
        proof {
            lemma_verify_wf(old(self)@, id, accepted);
        }
        if let Err(e) = self.guard() {
            return Err(e);
        }
        if let Err(e) = self.transition(id, TaskState::Verifying, LedgerKind::Transition, "verify") {
            return Err(e);
        }
        if accepted {
            let mut t = self.take_task(id);
            t.verified = true;
            self.put_task(id, t);
            Ok(())
        } else {
            self.transition(id, TaskState::Rejected, LedgerKind::Transition, "reject")
        }
    }

    /// Commits a verified task; the ledger receives a commit event.
    pub fn commit(&mut self, id: TaskId) -> (r: Result<(), KernelError>)
        requires
            old(self).wf(),
            old(self).has_room(),
        ensures
            (r, final(self)@) == old(self)@.commit(id),
            final(self).wf(),
            old(self)@.ledger.is_prefix_of(final(self)@.ledger),
    {
        if let Err(e) = self.guard() {
            return Err(e);
        }
        let (state, verified) = match self.tasks.get(&id) {
            None => {
                return Err(KernelError::MissingTask(id));
            },
            Some(t) => (t.state, t.verified),
        };
        if state != TaskState::Verifying || !verified {
            return Err(KernelError::InvalidState { task_id: id, state, operation: "commit" });
        }
        proof {
            lemma_guarded_wf(self@, id, TaskState::Committed, LedgerKind::Commit, "commit");
        }
        self.transition(id, TaskState::Committed, LedgerKind::Commit, "commit")
    }

    pub fn abort(&mut self, id: TaskId) -> (r: Result<(), KernelError>)
        requires
            old(self).wf(),
            old(self).has_room(),
        ensures
            (r, final(self)@) == old(self)@.guarded(id, TaskState::Aborted, "abort"),
            final(self).wf(),
            old(self)@.ledger.is_prefix_of(final(self)@.ledger),
    {
        if let Err(e) = self.guard() {
            return Err(e);
        }
        proof {
            lemma_guarded_wf(self@, id, TaskState::Aborted, LedgerKind::Transition, "abort");
        }
        self.transition(id, TaskState::Aborted, LedgerKind::Transition, "abort")
    }

    /// Records a fault of a running or checkpointed task leased at `epoch`.
    pub fn fault(&mut self, id: TaskId, epoch: Epoch) -> (r: Result<(), KernelError>)
        requires
            old(self).wf(),
            old(self).has_room(),
        ensures
            (r, final(self)@) == old(self)@.fault(id, epoch),
            final(self).wf(),
            old(self)@.ledger.is_prefix_of(final(self)@.ledger),
    {
        if let Err(e) = self.guard() {
            return Err(e);
        }
        let (state, task_epoch) = match self.tasks.get(&id) {
            None => {
                return Err(KernelError::MissingTask(id));
            },
            Some(t) => (t.state, t.epoch),
        };
        if !(state == TaskState::Running || state == TaskState::Checkpointed) {
            return Err(KernelError::InvalidState { task_id: id, state, operation: "fault" });
        }
        if task_epoch != epoch {
            return Err(KernelError::LeaseMismatch(id));
        }
        proof {
            lemma_guarded_wf(self@, id, TaskState::Fault, LedgerKind::Transition, "fault");
        }
        self.transition(id, TaskState::Fault, LedgerKind::Transition, "fault")
    }

    pub fn recover(&mut self, id: TaskId) -> (r: Result<(), KernelError>)
        requires
            old(self).wf(),
            old(self).has_room(),
        ensures
            (r, final(self)@) == old(self)@.guarded(id, TaskState::Recovering, "recover"),
            final(self).wf(),
            old(self)@.ledger.is_prefix_of(final(self)@.ledger),
    {
        if let Err(e) = self.guard() {
            return Err(e);
        }
        proof {
            lemma_guarded_wf(self@, id, TaskState::Recovering, LedgerKind::Transition, "recover");
        }
        self.transition(id, TaskState::Recovering, LedgerKind::Transition, "recover")
    }

    /// Restores a recovering task from the checkpoint it is bound to.
    pub fn restore(&mut self, id: TaskId, checkpoint: CheckpointId) -> (r: Result<(), KernelError>)
        requires
            old(self).wf(),
            old(self).has_room(),
        ensures
            (r, final(self)@) == old(self)@.restore(id, checkpoint),
            final(self).wf(),
            old(self)@.ledger.is_prefix_of(final(self)@.ledger),
    {
        if let Err(e) = self.guard() {
            return Err(e);
        }
        let bound = match self.tasks.get(&id) {
            None => {
                return Err(KernelError::MissingTask(id));
            },
            Some(t) => t.checkpoint_id,
        };
        match bound {
            Some(c) => {
                if c != checkpoint {
                    return Err(KernelError::LeaseMismatch(id));
                }
            },
            None => {
                return Err(KernelError::LeaseMismatch(id));
            },
        }
        proof {
            lemma_guarded_wf(self@, id, TaskState::Restored, LedgerKind::Transition, "restore");
        }
        self.transition(id, TaskState::Restored, LedgerKind::Transition, "restore")
    }

    /// Retries a restored task: it is queued again on `node`.
    pub fn retry(&mut self, id: TaskId, node: NodeId) -> (r: Result<(), KernelError>)
        requires
            old(self).wf(),
            old(self).has_room(),
        ensures
            (r, final(self)@) == old(self)@.retry(id, node),
            final(self).wf(),
            old(self)@.ledger.is_prefix_of(final(self)@.ledger),
    {
        proof {
            lemma_retry_wf(old(self)@, id, node);
        }
        if let Err(e) = self.guard() {
            return Err(e);
        }
        if let Err(e) = self.transition(id, TaskState::Retrying, LedgerKind::Transition, "retry") {
            return Err(e);
        }
        if let Err(e) = self.transition(id, TaskState::Queued, LedgerKind::Transition, "schedule") {
            return Err(e);
        }
        self.enqueue(node, id);
        Ok(())
    }
}


/// A running task never moves straight to committed.
pub proof fn law_no_direct_running_to_committed()
    ensures
        !allowed_spec(TaskState::Running, TaskState::Committed),
{
}

/// The only way into `Committed` is from `Verifying`.
pub proof fn law_committed_only_from_verifying(from: TaskState)
    ensures
        allowed_spec(from, TaskState::Committed) ==> from == TaskState::Verifying,
{
}

/// Nothing leaves a terminal state: committed and aborted tasks stay put.
pub proof fn law_terminal_states(to: TaskState)
    ensures
        !allowed_spec(TaskState::Committed, to),
        !allowed_spec(TaskState::Aborted, to),
{
}

/// Fail-closed: a kernel without an authorization refuses every operation
/// with `Unauthorized` and changes nothing.
pub proof fn law_fail_closed(
    m: KernelModel,
    spec: TaskSpec,
    now: u64,
    id: TaskId,
    node: NodeId,
    epoch: Epoch,
    checkpoint: CheckpointId,
    accepted: bool,
)
    requires
        !m.authorized(),
    ensures
        m.spawn(spec, now) == (Err::<(), KernelError>(KernelError::Unauthorized), m),
        m.schedule(id, node) == (Err::<(), KernelError>(KernelError::Unauthorized), m),
        m.dispatch(id, node) == (Err::<Epoch, KernelError>(KernelError::Unauthorized), m),
        m.set_suspended(id, epoch, true, "suspend") == (Err::<(), KernelError>(KernelError::Unauthorized), m),
        m.set_suspended(id, epoch, false, "resume") == (Err::<(), KernelError>(KernelError::Unauthorized), m),
        m.checkpoint(id, epoch, checkpoint) == (Err::<(), KernelError>(KernelError::Unauthorized), m),
        m.verify(id, accepted) == (Err::<(), KernelError>(KernelError::Unauthorized), m),
        m.commit(id) == (Err::<(), KernelError>(KernelError::Unauthorized), m),
        m.guarded(id, TaskState::Aborted, "abort") == (Err::<(), KernelError>(KernelError::Unauthorized), m),
        m.fault(id, epoch) == (Err::<(), KernelError>(KernelError::Unauthorized), m),
        m.guarded(id, TaskState::Recovering, "recover") == (Err::<(), KernelError>(KernelError::Unauthorized), m),
        m.restore(id, checkpoint) == (Err::<(), KernelError>(KernelError::Unauthorized), m),
        m.retry(id, node) == (Err::<(), KernelError>(KernelError::Unauthorized), m),
{
}

/// A commit succeeds only for a task under verification whose result was
/// accepted; it leaves the task committed and ends the ledger with a commit
/// event for it.
pub proof fn law_commit_requires_accepted_verification(m: KernelModel, id: TaskId)
    requires
        m.wf(),
        m.commit(id).0 is Ok,
    ensures
        m.tasks.contains_key(id),
        m.tasks[id].state == TaskState::Verifying,
        m.tasks[id].verified,
        m.commit(id).1.tasks[id].state == TaskState::Committed,
        m.commit(id).1.ledger.last().kind == LedgerKind::Commit,
        m.commit(id).1.ledger.last().task_id == id,
        m.commit(id).1.ledger.last().from == TaskState::Verifying,
{
}

/// In a well-formed kernel every committed task carries an accepted
/// verification, and every event of the ledger is linked to its predecessor
/// and records an allowed move.
pub proof fn law_well_formed_kernel(m: KernelModel, id: TaskId)
    requires
        m.wf(),
        m.tasks.contains_key(id),
    ensures
        m.tasks[id].state == TaskState::Committed ==> m.tasks[id].verified,
        chain_valid(m.ledger),
        forall|i: int| 0 <= i < m.ledger.len() ==> allowed_spec(#[trigger] m.ledger[i].from, m.ledger[i].to),
{
}

/// A successful transition appends exactly one event, which records the
/// move it made.
pub proof fn law_transition_records_move(m: KernelModel, id: TaskId, next: TaskState, kind: LedgerKind, operation: &'static str)
    requires
        m.wf(),
        m.transition(id, next, kind, operation).0 is Ok,
    ensures
        m.tasks.contains_key(id),
        m.transition(id, next, kind, operation).1.ledger == m.ledger.push(
            next_event(m.ledger, id, m.tasks[id].epoch, kind, m.tasks[id].state, next),
        ),
        m.transition(id, next, kind, operation).1.tasks[id].state == next,
{
}

/// Dispatching takes the task at the front of the node's queue, runs it and
/// advances its epoch by one.
pub proof fn law_dispatch_advances_epoch(m: KernelModel, id: TaskId, node: NodeId)
    requires
        m.dispatch(id, node).0 is Ok,
        m.tasks.contains_key(id) ==> m.tasks[id].epoch < u64::MAX,
    ensures
        m.queue_of(node).len() > 0,
        m.queue_of(node)[0] == id,
        m.dispatch(id, node).0 == Ok::<Epoch, KernelError>((m.tasks[id].epoch + 1) as Epoch),
        m.dispatch(id, node).1.tasks[id].epoch == m.tasks[id].epoch + 1,
        m.dispatch(id, node).1.tasks[id].state == TaskState::Running,
        m.dispatch(id, node).1.queue_of(node) == m.queue_of(node).drop_first(),
{
}

/// A task is restored only from the checkpoint it is bound to, and a retry
/// puts it back at the end of the node's queue.
pub proof fn law_recovery_uses_bound_checkpoint(m: KernelModel, id: TaskId, checkpoint: CheckpointId, node: NodeId)
    ensures
        m.restore(id, checkpoint).0 is Ok ==> m.tasks[id].checkpoint_id == Some(checkpoint)
            && m.tasks[id].state == TaskState::Recovering,
        m.retry(id, node).0 is Ok ==> m.tasks[id].state == TaskState::Restored && m.retry(
            id,
            node,
        ).1.tasks[id].state == TaskState::Queued && m.retry(id, node).1.queue_of(node) == m.queue_of(
            node,
        ).push(id),
{
}
/// Only a validated task is scheduled: in a well-formed, authorized kernel
/// scheduling a held task succeeds exactly when it is validated, and a
/// refusal changes nothing.
pub proof fn law_schedule_only_validated(m: KernelModel, id: TaskId, node: NodeId)
    requires
        m.wf(),
        m.authorized(),
    ensures
        m.schedule(id, node).0 is Ok <==> m.tasks.contains_key(id) && m.tasks[id].state
            == TaskState::Validated,
        m.schedule(id, node).0 is Err ==> m.schedule(id, node).1 == m,
        !m.tasks.contains_key(id) ==> m.schedule(id, node).0 == Err::<(), KernelError>(
            KernelError::MissingTask(id),
        ),
{
}

/// Commit follows verification: in a well-formed, authorized kernel a held
/// task commits exactly when it is under verification (which, at rest,
/// means its result was accepted); a refusal changes nothing.
pub proof fn law_commit_iff_verifying(m: KernelModel, id: TaskId)
    requires
        m.wf(),
        m.authorized(),
        m.tasks.contains_key(id),
    ensures
        m.commit(id).0 is Ok <==> m.tasks[id].state == TaskState::Verifying,
        m.commit(id).0 is Err ==> m.commit(id).1 == m,
{
}

/// The ledger is each task's history: in a well-formed kernel the events of
/// a held task, in order, form a path of allowed moves from `Created` to
/// its present state, and a task the kernel does not hold has no events.
pub proof fn law_task_trail(m: KernelModel, id: TaskId)
    requires
        m.wf(),
    ensures
        m.tasks.contains_key(id) ==> trail(m.ledger, id) == Trail::At(m.tasks[id].state),
        !m.tasks.contains_key(id) ==> trail(m.ledger, id) == Trail::Untouched,
        forall|i: int| 0 <= i < m.ledger.len() ==> allowed_spec(#[trigger] m.ledger[i].from, m.ledger[i].to),
{
    assert(trail_matches(m, id));
}
/// One call of the kernel's interface, with its arguments.
pub enum KernelCall {
    AcceptAuthorization(Authorization),
    Spawn(TaskSpec, u64),
    Schedule(TaskId, NodeId),
    Dispatch(TaskId, NodeId),
    Suspend(TaskId, Epoch),
    Resume(TaskId, Epoch),
    Checkpoint(TaskId, Epoch, CheckpointId),
    Verify(TaskId, bool),
    Commit(TaskId),
    Abort(TaskId),
    Fault(TaskId, Epoch),
    Recover(TaskId),
    Restore(TaskId, CheckpointId),
    Retry(TaskId, NodeId),
}

/// Whether `call` succeeds on a kernel in state `m`, and the state it leaves.
pub open spec fn step(m: KernelModel, call: KernelCall) -> (bool, KernelModel) {
    match call {
        KernelCall::AcceptAuthorization(a) => (true, KernelModel { authorization: Some(a@), ..m }),
        KernelCall::Spawn(spec, now) => (m.spawn(spec, now).0 is Ok, m.spawn(spec, now).1),
        KernelCall::Schedule(id, node) => (m.schedule(id, node).0 is Ok, m.schedule(id, node).1),
        KernelCall::Dispatch(id, node) => (m.dispatch(id, node).0 is Ok, m.dispatch(id, node).1),
        KernelCall::Suspend(id, epoch) => (
            m.set_suspended(id, epoch, true, "suspend").0 is Ok,
            m.set_suspended(id, epoch, true, "suspend").1,
        ),
        KernelCall::Resume(id, epoch) => (
            m.set_suspended(id, epoch, false, "resume").0 is Ok,
            m.set_suspended(id, epoch, false, "resume").1,
        ),
        KernelCall::Checkpoint(id, epoch, c) => (
            m.checkpoint(id, epoch, c).0 is Ok,
            m.checkpoint(id, epoch, c).1,
        ),
        KernelCall::Verify(id, accepted) => (m.verify(id, accepted).0 is Ok, m.verify(id, accepted).1),
        KernelCall::Commit(id) => (m.commit(id).0 is Ok, m.commit(id).1),
        KernelCall::Abort(id) => (
            m.guarded(id, TaskState::Aborted, "abort").0 is Ok,
            m.guarded(id, TaskState::Aborted, "abort").1,
        ),
        KernelCall::Fault(id, epoch) => (m.fault(id, epoch).0 is Ok, m.fault(id, epoch).1),
        KernelCall::Recover(id) => (
            m.guarded(id, TaskState::Recovering, "recover").0 is Ok,
            m.guarded(id, TaskState::Recovering, "recover").1,
        ),
        KernelCall::Restore(id, c) => (m.restore(id, c).0 is Ok, m.restore(id, c).1),
        KernelCall::Retry(id, node) => (m.retry(id, node).0 is Ok, m.retry(id, node).1),
    }
}

/// The state of a new kernel with `ceiling`.
pub open spec fn new_kernel(ceiling: Budget) -> KernelModel {
    KernelModel {
        authorization: None,
        ceiling,
        tasks: Map::empty(),
        queues: Map::empty(),
        ledger: Seq::empty(),
    }
}

/// The state after `calls`, in order, starting from `m`.
pub open spec fn run(m: KernelModel, calls: Seq<KernelCall>) -> KernelModel
    decreases calls.len(),
{
    if calls.len() == 0 {
        m
    } else {
        step(run(m, calls.drop_last()), calls.last()).1
    }
}

/// Call `i` of `calls`, made from a new kernel with `ceiling`, is a spawn of
/// task `id` that succeeded.
pub open spec fn spawned_at(ceiling: Budget, calls: Seq<KernelCall>, i: int, id: TaskId) -> bool {
    &&& 0 <= i < calls.len()
    &&& calls[i] matches KernelCall::Spawn(spec, _) && spec.task_id == id
    &&& step(run(new_kernel(ceiling), calls.take(i)), calls[i]).0
}

proof fn lemma_step(m: KernelModel, call: KernelCall)
    requires
        m.wf(),
        m.ledger.len() + 2 < u64::MAX,
    ensures
        step(m, call).1.wf(),
        grows(m, step(m, call).1),
        !(call is Spawn) ==> step(m, call).1.tasks.dom() == m.tasks.dom(),
        call matches KernelCall::Spawn(spec, now) ==> if step(m, call).0 {
            &&& !m.tasks.contains_key(spec.task_id)
            &&& step(m, call).1.tasks.dom() == m.tasks.dom().insert(spec.task_id)
            &&& step(m, call).1.tasks[spec.task_id].spec == spec
        } else {
            step(m, call).1 == m
        },
{
    lemma_settled_refl(m);
    match call {
        KernelCall::AcceptAuthorization(a) => {
            lemma_same_tasks(m, KernelModel { authorization: Some(a@), ..m });
        },
        KernelCall::Spawn(spec, now) => {
            lemma_spawn_wf(m, spec, now);
        },
        KernelCall::Schedule(id, node) => {
            lemma_schedule_wf(m, id, node);
        },
        KernelCall::Dispatch(id, node) => {
            lemma_dispatch_wf(m, id, node);
        },
        KernelCall::Suspend(id, epoch) => {
            lemma_set_suspended_wf(m, id, epoch, true, "suspend");
        },
        KernelCall::Resume(id, epoch) => {
            lemma_set_suspended_wf(m, id, epoch, false, "resume");
        },
        KernelCall::Checkpoint(id, epoch, c) => {
            lemma_checkpoint_wf(m, id, epoch, c);
        },
        KernelCall::Verify(id, accepted) => {
            lemma_verify_wf(m, id, accepted);
        },
        KernelCall::Commit(id) => {
            if m.authorized() && m.tasks.contains_key(id) && m.tasks[id].state == TaskState::Verifying
                && m.tasks[id].verified {
                lemma_guarded_wf(m, id, TaskState::Committed, LedgerKind::Commit, "commit");
            }
        },
        KernelCall::Abort(id) => {
            if m.authorized() {
                lemma_guarded_wf(m, id, TaskState::Aborted, LedgerKind::Transition, "abort");
            }
        },
        KernelCall::Fault(id, epoch) => {
            if m.authorized() && m.tasks.contains_key(id) {
                lemma_guarded_wf(m, id, TaskState::Fault, LedgerKind::Transition, "fault");
            }
        },
        KernelCall::Recover(id) => {
            if m.authorized() {
                lemma_guarded_wf(m, id, TaskState::Recovering, LedgerKind::Transition, "recover");
            }
        },
        KernelCall::Restore(id, c) => {
            if m.authorized() && m.tasks.contains_key(id) {
                lemma_guarded_wf(m, id, TaskState::Restored, LedgerKind::Transition, "restore");
            }
        },
        KernelCall::Retry(id, node) => {
            lemma_retry_wf(m, id, node);
        },
    }
}

/// A task in a terminal state: nothing moves it any more.
pub open spec fn terminal(s: TaskState) -> bool {
    s == TaskState::Committed || s == TaskState::Aborted
}

proof fn lemma_trail_from_terminal(events: Seq<LedgerEvent>, n: int, k: TaskId, t: TaskState)
    requires
        0 <= n <= events.len(),
        terminal(t),
        forall|i: int| 0 <= i < events.len() ==> allowed_spec(#[trigger] events[i].from, events[i].to),
        trail(events.subrange(0, n), k) == Trail::At(t) || trail(events.subrange(0, n), k)
            == Trail::Broken,
    ensures
        trail(events, k) == Trail::At(t) || trail(events, k) == Trail::Broken,
    decreases events.len() - n,
{
    if n == events.len() {
        assert(events.subrange(0, n) =~= events);
    } else {
        let s = events.subrange(0, n + 1);
        assert(s.drop_last() =~= events.subrange(0, n));
        assert(trail(s, k) == trail_step(trail(events.subrange(0, n), k), s.last(), k));
        assert(allowed_spec(events[n].from, events[n].to));
        lemma_trail_from_terminal(events, n + 1, k, t);
    }
}

proof fn lemma_terminal_kept(m: KernelModel, q: KernelModel, k: TaskId)
    requires
        m.wf(),
        q.wf(),
        grows(m, q),
        m.tasks.contains_key(k),
        terminal(m.tasks[k].state),
    ensures
        q.tasks.contains_key(k),
        q.tasks[k].state == m.tasks[k].state,
{
    assert(trail_matches(m, k));
    assert(trail_matches(q, k));
    law_task_trail(q, k);
    assert(q.ledger.subrange(0, m.ledger.len() as int) =~= m.ledger);
    lemma_trail_from_terminal(q.ledger, m.ledger.len() as int, k, m.tasks[k].state);
}

/// Write once, read many: from a new kernel, whatever calls are made and
/// whatever they answer, the kernel stays well formed (its ledger chain
/// valid, every event an allowed move) and the ledger only grows: the
/// ledger after any prefix of the calls is a prefix of the final one.
#[verifier::rlimit(60)]
#[verifier::spinoff_prover]
pub proof fn law_worm_ledger(ceiling: Budget, calls: Seq<KernelCall>)
    requires
        2 * calls.len() + 2 < u64::MAX,
    ensures
        run(new_kernel(ceiling), calls).wf(),
        chain_valid(run(new_kernel(ceiling), calls).ledger),
        run(new_kernel(ceiling), calls).ledger.len() <= 2 * calls.len(),
        forall|i: int|
            0 <= i <= calls.len() ==> #[trigger] run(new_kernel(ceiling), calls.take(i)).ledger.is_prefix_of(
                run(new_kernel(ceiling), calls).ledger,
            ),
    decreases calls.len(),
{
    let m0 = new_kernel(ceiling);
    if calls.len() == 0 {
        assert(m0.ledger =~= Seq::<LedgerEvent>::empty());
        assert forall|k: TaskId| trail_matches(m0, k) by {}
        assert forall|i: int| 0 <= i <= calls.len() implies #[trigger] run(m0, calls.take(i)).ledger.is_prefix_of(
            run(m0, calls).ledger,
        ) by {
            assert(calls.take(i) =~= calls);
            assert(run(m0, calls).ledger.subrange(0, 0) =~= run(m0, calls).ledger);
        }
    } else {
        let p = calls.drop_last();
        law_worm_ledger(ceiling, p);
        let m = run(m0, p);
        lemma_step(m, calls.last());
        let q = run(m0, calls);
        assert(q == step(m, calls.last()).1);
        assert forall|i: int| 0 <= i <= calls.len() implies #[trigger] run(m0, calls.take(i)).ledger.is_prefix_of(
            q.ledger,
        ) by {
            if i == calls.len() {
                assert(calls.take(i) =~= calls);
                assert(q.ledger.subrange(0, q.ledger.len() as int) =~= q.ledger);
            } else {
                assert(calls.take(i) =~= p.take(i));
                assert(run(m0, p.take(i)).ledger.is_prefix_of(m.ledger));
                lemma_prefix_trans(run(m0, p.take(i)).ledger, m.ledger, q.ledger);
            }
        }
    }
}

/// Tasks come only from spawning and keep their specification: from a new
/// kernel, after any calls, the kernel holds task `id` exactly when some
/// call was a successful spawn of `id`, and the task's specification is the
/// one that call gave.
#[verifier::rlimit(60)]
#[verifier::spinoff_prover]
pub proof fn law_tasks_come_from_spawn(ceiling: Budget, calls: Seq<KernelCall>, id: TaskId)
    requires
        2 * calls.len() + 2 < u64::MAX,
    ensures
        run(new_kernel(ceiling), calls).tasks.contains_key(id) <==> exists|i: int| #[trigger]
            spawned_at(ceiling, calls, i, id),
        forall|i: int|
            #[trigger] spawned_at(ceiling, calls, i, id) ==> (calls[i] matches KernelCall::Spawn(spec, _)
                && run(new_kernel(ceiling), calls).tasks[id].spec == spec),
    decreases calls.len(),
{
    let m0 = new_kernel(ceiling);
    if calls.len() > 0 {
        let p = calls.drop_last();
        let n = p.len() as int;
        law_tasks_come_from_spawn(ceiling, p, id);
        law_worm_ledger(ceiling, p);
        let m = run(m0, p);
        let c = calls.last();
        lemma_step(m, c);
        let q = run(m0, calls);
        assert(q == step(m, c).1);
        assert(calls.take(n) =~= p);
        assert forall|i: int| 0 <= i < n implies #[trigger] spawned_at(ceiling, calls, i, id) == spawned_at(
            ceiling,
            p,
            i,
            id,
        ) by {
            assert(calls.take(i) =~= p.take(i));
            assert(calls[i] == p[i]);
        }
        if q.tasks.contains_key(id) {
            if m.tasks.contains_key(id) {
                let i = choose|i: int| #[trigger] spawned_at(ceiling, p, i, id);
                assert(spawned_at(ceiling, calls, i, id));
            } else {
                assert(spawned_at(ceiling, calls, n, id));
            }
        }
        assert forall|i: int| #[trigger] spawned_at(ceiling, calls, i, id) implies q.tasks.contains_key(id)
            && (calls[i] matches KernelCall::Spawn(spec, _) && q.tasks[id].spec == spec) by {
            if i < n {
                assert(spawned_at(ceiling, p, i, id));
                assert(m.tasks.contains_key(id));
            }
        }
    }
}

/// Each task's history, over any calls from a new kernel: the ledger's
/// events are allowed moves; the events of a held task, in order, form a
/// path from `Created` to its present state, and a task never held has
/// none; and once a task is committed or aborted, no later call changes its
/// state.
#[verifier::rlimit(60)]
#[verifier::spinoff_prover]
pub proof fn law_task_history(ceiling: Budget, calls: Seq<KernelCall>, id: TaskId)
    requires
        2 * calls.len() + 2 < u64::MAX,
    ensures
        forall|i: int|
            0 <= i < run(new_kernel(ceiling), calls).ledger.len() ==> allowed_spec(
                #[trigger] run(new_kernel(ceiling), calls).ledger[i].from,
                run(new_kernel(ceiling), calls).ledger[i].to,
            ),
        run(new_kernel(ceiling), calls).tasks.contains_key(id) ==> trail(
            run(new_kernel(ceiling), calls).ledger,
            id,
        ) == Trail::At(run(new_kernel(ceiling), calls).tasks[id].state),
        !run(new_kernel(ceiling), calls).tasks.contains_key(id) ==> trail(
            run(new_kernel(ceiling), calls).ledger,
            id,
        ) == Trail::Untouched,
        forall|i: int, j: int|
            #![trigger run(new_kernel(ceiling), calls.take(i)), run(new_kernel(ceiling), calls.take(j))]
            0 <= i <= j <= calls.len() && run(new_kernel(ceiling), calls.take(i)).tasks.contains_key(id)
                && terminal(run(new_kernel(ceiling), calls.take(i)).tasks[id].state) ==> run(
                new_kernel(ceiling),
                calls.take(j),
            ).tasks.contains_key(id) && run(new_kernel(ceiling), calls.take(j)).tasks[id].state == run(
                new_kernel(ceiling),
                calls.take(i),
            ).tasks[id].state,
    decreases calls.len(),
{
    let m0 = new_kernel(ceiling);
    law_worm_ledger(ceiling, calls);
    law_task_trail(run(m0, calls), id);
    if calls.len() > 0 {
        let p = calls.drop_last();
        let n = p.len() as int;
        law_task_history(ceiling, p, id);
        law_worm_ledger(ceiling, p);
        let m = run(m0, p);
        lemma_step(m, calls.last());
        let q = run(m0, calls);
        assert(q == step(m, calls.last()).1);
        assert(calls.take(n) =~= p);
        assert(calls.take(n + 1) =~= calls);
        assert forall|i: int, j: int|
            #![trigger run(m0, calls.take(i)), run(m0, calls.take(j))]
            0 <= i <= j <= calls.len() && run(m0, calls.take(i)).tasks.contains_key(id) && terminal(
                run(m0, calls.take(i)).tasks[id].state,
            ) implies run(m0, calls.take(j)).tasks.contains_key(id) && run(m0, calls.take(j)).tasks[id].state
            == run(m0, calls.take(i)).tasks[id].state by {
            if i <= n {
                assert(calls.take(i) =~= p.take(i));
                assert(p.take(n) =~= p);
                assert(run(m0, p.take(i)) == run(m0, calls.take(i)));
                assert(run(m0, p.take(n)) == m);
                if j <= n {
                    assert(calls.take(j) =~= p.take(j));
                    assert(run(m0, p.take(j)) == run(m0, calls.take(j)));
                } else {
                    assert(m.tasks.contains_key(id) && m.tasks[id].state == run(m0, calls.take(i)).tasks[id].state);
                    lemma_terminal_kept(m, q, id);
                }
            }
        }
    }
}

/// A budget fits a ceiling component by component: it fits exactly when
/// none of its cpu, memory, storage and power exceeds the ceiling's, so a
/// single component over the ceiling, whichever it is, makes it not fit.
pub proof fn law_budget_fits_componentwise(b: Budget, limit: Budget)
    ensures
        b.cpu > limit.cpu ==> !b.fits_spec(limit),
        b.memory > limit.memory ==> !b.fits_spec(limit),
        b.storage > limit.storage ==> !b.fits_spec(limit),
        b.power > limit.power ==> !b.fits_spec(limit),
        b.cpu <= limit.cpu && b.memory <= limit.memory && b.storage <= limit.storage && b.power
            <= limit.power ==> b.fits_spec(limit),
{
}

/// Spawning respects the kernel's ceiling: on an authorized kernel, a new
/// task with any budget component above the ceiling is refused with
/// `BudgetExceeded` and nothing changes; one within the ceiling in every
/// component, with its deadline ahead, is admitted and validated, with
/// exactly one sealed event, `Created` to `Validated`.
pub proof fn law_spawn_within_ceiling(m: KernelModel, spec: TaskSpec, now: u64)
    requires
        m.authorized(),
        !m.tasks.contains_key(spec.task_id),
    ensures
        spec.budget.cpu > m.ceiling.cpu || spec.budget.memory > m.ceiling.memory || spec.budget.storage
            > m.ceiling.storage || spec.budget.power > m.ceiling.power ==> m.spawn(spec, now) == (
            Err::<(), KernelError>(KernelError::BudgetExceeded(spec.task_id)),
            m,
        ),
        spec.budget.cpu <= m.ceiling.cpu && spec.budget.memory <= m.ceiling.memory && spec.budget.storage
            <= m.ceiling.storage && spec.budget.power <= m.ceiling.power && now < spec.deadline_tick ==> {
            let (r, q) = m.spawn(spec, now);
            &&& r is Ok
            &&& q.tasks.contains_key(spec.task_id)
            &&& q.tasks[spec.task_id].spec == spec
            &&& q.tasks[spec.task_id].state == TaskState::Validated
            &&& q.ledger.len() == m.ledger.len() + 1
            &&& q.ledger.last().from == TaskState::Created
            &&& q.ledger.last().to == TaskState::Validated
        },
{
}

/// Scheduling and dispatch, for a task the authorized kernel holds:
/// scheduling takes a validated task (or one caught midway through a retry,
/// which no operation leaves behind), and a refusal changes nothing; a
/// dispatch from the front of the node's queue takes a queued task.
pub proof fn law_queue_moves(m: KernelModel, id: TaskId, node: NodeId)
    requires
        m.authorized(),
        m.tasks.contains_key(id),
    ensures
        m.schedule(id, node).0 is Ok <==> m.tasks[id].state == TaskState::Validated || m.tasks[id].state
            == TaskState::Retrying,
        m.schedule(id, node).0 is Err ==> m.schedule(id, node).1 == m,
        m.queue_of(node).len() > 0 && m.queue_of(node)[0] == id ==> (m.dispatch(id, node).0 is Ok
            <==> m.tasks[id].state == TaskState::Queued),
{
    let s = m.tasks[id].state;
    assert(m.schedule(id, node).0 is Ok <==> s == TaskState::Validated || s == TaskState::Retrying) by {
        assert(allowed_spec(s, TaskState::Queued) <==> s == TaskState::Validated || s == TaskState::Retrying);
        assert(m.schedule(id, node).0 == m.transition(id, TaskState::Queued, LedgerKind::Transition, "schedule").0);
    }
    if m.queue_of(node).len() > 0 && m.queue_of(node)[0] == id {
        assert(m.dispatch(id, node).0 is Ok <==> s == TaskState::Queued) by {
            assert(allowed_spec(s, TaskState::Running) <==> s == TaskState::Queued);
            let m0 = m.popped(node);
            assert(m0.tasks == m.tasks);
            assert(m.dispatch(id, node).0 is Ok <==> m0.transition(id, TaskState::Running, LedgerKind::Transition, "dispatch").0 is Ok);
        }
    }
}

/// The moves of a task at work, for a task the authorized kernel holds: a
/// checkpoint takes a running, unsuspended task at its epoch; verification
/// takes a checkpointed one, whether the result is accepted or not; commit
/// takes a verifying one whose result was accepted. A refusal changes
/// nothing.
#[verifier::rlimit(30)]
pub proof fn law_work_moves(m: KernelModel, id: TaskId, epoch: Epoch, c: CheckpointId, accepted: bool)
    requires
        m.authorized(),
        m.tasks.contains_key(id),
    ensures
        m.checkpoint(id, epoch, c).0 is Ok <==> m.tasks[id].state == TaskState::Running
            && m.tasks[id].epoch == epoch && !m.tasks[id].suspended,
        m.checkpoint(id, epoch, c).0 is Err ==> m.checkpoint(id, epoch, c).1 == m,
        m.verify(id, accepted).0 is Ok <==> m.tasks[id].state == TaskState::Checkpointed,
        m.verify(id, accepted).0 is Err ==> m.verify(id, accepted).1 == m,
        m.commit(id).0 is Ok <==> m.tasks[id].state == TaskState::Verifying && m.tasks[id].verified,
        m.commit(id).0 is Err ==> m.commit(id).1 == m,
{
    let s = m.tasks[id].state;
    assert(allowed_spec(s, TaskState::Checkpointed) <==> s == TaskState::Running);
    assert(allowed_spec(s, TaskState::Verifying) <==> s == TaskState::Checkpointed);
    assert(allowed_spec(TaskState::Verifying, TaskState::Rejected));
    assert(allowed_spec(TaskState::Verifying, TaskState::Committed));
}

/// What the lifecycle operations of failure and recovery accept, for a
/// task the authorized kernel holds: fault takes a running or checkpointed
/// task at its epoch; recovery a faulted one; restore a recovering one at
/// its bound checkpoint; retry a restored one; and abort a rejected or a
/// faulted one. A refusal changes nothing.
pub proof fn law_recovery_moves(m: KernelModel, id: TaskId, node: NodeId, epoch: Epoch, c: CheckpointId)
    requires
        m.authorized(),
        m.tasks.contains_key(id),
    ensures
        m.fault(id, epoch).0 is Ok <==> (m.tasks[id].state == TaskState::Running || m.tasks[id].state
            == TaskState::Checkpointed) && m.tasks[id].epoch == epoch,
        m.guarded(id, TaskState::Recovering, "recover").0 is Ok <==> m.tasks[id].state
            == TaskState::Fault,
        m.restore(id, c).0 is Ok <==> m.tasks[id].state == TaskState::Recovering
            && m.tasks[id].checkpoint_id == Some(c),
        m.retry(id, node).0 is Ok <==> m.tasks[id].state == TaskState::Restored,
        m.guarded(id, TaskState::Aborted, "abort").0 is Ok <==> m.tasks[id].state == TaskState::Rejected
            || m.tasks[id].state == TaskState::Fault,
        m.fault(id, epoch).0 is Err ==> m.fault(id, epoch).1 == m,
        m.guarded(id, TaskState::Recovering, "recover").0 is Err ==> m.guarded(
            id,
            TaskState::Recovering,
            "recover",
        ).1 == m,
        m.restore(id, c).0 is Err ==> m.restore(id, c).1 == m,
        m.retry(id, node).0 is Err ==> m.retry(id, node).1 == m,
        m.guarded(id, TaskState::Aborted, "abort").0 is Err ==> m.guarded(id, TaskState::Aborted, "abort").1
            == m,
{
    let s = m.tasks[id].state;
    assert(allowed_spec(s, TaskState::Fault) <==> s == TaskState::Running || s == TaskState::Checkpointed);
    assert(allowed_spec(s, TaskState::Recovering) <==> s == TaskState::Fault);
    assert(allowed_spec(s, TaskState::Restored) <==> s == TaskState::Recovering);
    assert(allowed_spec(s, TaskState::Retrying) <==> s == TaskState::Restored);
    assert(allowed_spec(TaskState::Retrying, TaskState::Queued));
    assert(allowed_spec(s, TaskState::Aborted) <==> s == TaskState::Rejected || s == TaskState::Fault);
}

/// Aborting a faulted or rejected task ends it: the task is aborted, and
/// the move, from its state to `Aborted`, is sealed as one more event of
/// the ledger; nothing else about the task changes.
pub proof fn law_abort_ends_task(m: KernelModel, id: TaskId)
    requires
        m.authorized(),
        m.tasks.contains_key(id),
        m.tasks[id].state == TaskState::Fault || m.tasks[id].state == TaskState::Rejected,
    ensures
        ({
            let (r, q) = m.guarded(id, TaskState::Aborted, "abort");
            &&& r is Ok
            &&& q.tasks[id] == (TaskView { state: TaskState::Aborted, ..m.tasks[id] })
            &&& q.tasks.dom() == m.tasks.dom()
            &&& m.ledger.is_prefix_of(q.ledger)
            &&& q.ledger.len() == m.ledger.len() + 1
            &&& q.ledger.last().task_id == m.tasks[id].spec.task_id
            &&& q.ledger.last().from == m.tasks[id].state
            &&& q.ledger.last().to == TaskState::Aborted
        }),
{
    let q = m.guarded(id, TaskState::Aborted, "abort").1;
    assert(q.ledger.subrange(0, m.ledger.len() as int) =~= m.ledger);
    assert(q.tasks.dom() =~= m.tasks.dom());
}

/// The other refusals of a spawn on an authorized kernel: an id the kernel
/// already holds is refused as a duplicate, and a task within the ceiling
/// whose deadline is not ahead of `now` is refused as elapsed; neither
/// changes anything.
pub proof fn law_spawn_refusals(m: KernelModel, spec: TaskSpec, now: u64)
    requires
        m.authorized(),
    ensures
        m.tasks.contains_key(spec.task_id) ==> m.spawn(spec, now) == (
            Err::<(), KernelError>(KernelError::DuplicateTask(spec.task_id)),
            m,
        ),
        !m.tasks.contains_key(spec.task_id) && spec.budget.cpu <= m.ceiling.cpu && spec.budget.memory
            <= m.ceiling.memory && spec.budget.storage <= m.ceiling.storage && spec.budget.power
            <= m.ceiling.power && spec.deadline_tick <= now ==> m.spawn(spec, now) == (
            Err::<(), KernelError>(KernelError::DeadlineElapsed(spec.task_id)),
            m,
        ),
{
}
} // verus!
