//! The coordinator of the stack: task lifecycle, error classification,
//! watchdog checks, a fault state machine and an audit trail.

use crate::clock::unix_time_secs;
use crate::text::{decimal, hex_fixed, push_decimal, push_hex_fixed};
use vstd::prelude::*;

verus! {

/// A task identifier.
#[derive(Debug, Clone, Copy, PartialEq, Eq, Hash, Structural)]
pub struct TaskId(u64);

impl View for TaskId {
    type V = u64;

    closed spec fn view(&self) -> u64 {
        self.0
    }
}

/// `task_` followed by the identifier in sixteen lowercase hex digits.
pub open spec fn task_label(id: u64) -> Seq<char> {
    "task_"@ + hex_fixed(id as nat, 16)
}

impl TaskId {
    pub proof fn lemma_view_determines(a: TaskId, b: TaskId)
        ensures
            a@ == b@ <==> a == b,
    {
    }

    pub fn from_raw(id: u64) -> (t: Self)
        ensures
            t@ == id,
    {
        TaskId(id)
    }

    pub fn as_u64(self) -> (id: u64)
        ensures
            id == self@,
    {
        self.0
    }

    /// The identifier as `task_` and sixteen hex digits.
    pub fn to_string(&self) -> (s: String)
        ensures
            s@ == task_label(self@),
    {
        let mut s = "task_".to_owned();
        push_hex_fixed(&mut s, self.0, 16);
        s
    }
}

/// Where a task is in its lifecycle.
#[derive(Debug, Clone, Copy, PartialEq, Eq, Structural)]
pub enum TaskState {
    Created,
    Queued,
    Running,
    Completed,
    Failed,
    Cancelled,
}

/// The upper-case name of a task state.
pub open spec fn state_name(s: TaskState) -> Seq<char> {
    match s {
        TaskState::Created => "CREATED"@,
        TaskState::Queued => "QUEUED"@,
        TaskState::Running => "RUNNING"@,
        TaskState::Completed => "COMPLETED"@,
        TaskState::Failed => "FAILED"@,
        TaskState::Cancelled => "CANCELLED"@,
    }
}

impl TaskState {
    /// The upper-case name of the state.
    pub fn to_string(&self) -> (s: String)
        ensures
            s@ == state_name(*self),
    {
        let s = match self {
            TaskState::Created => "CREATED",
            TaskState::Queued => "QUEUED",
            TaskState::Running => "RUNNING",
            TaskState::Completed => "COMPLETED",
            TaskState::Failed => "FAILED",
            TaskState::Cancelled => "CANCELLED",
        };
        proof {
            reveal_strlit("CREATED");
            reveal_strlit("QUEUED");
            reveal_strlit("RUNNING");
            reveal_strlit("COMPLETED");
            reveal_strlit("FAILED");
            reveal_strlit("CANCELLED");
        }
        s.to_owned()
    }
}

/// How an error is to be recovered from.
#[derive(Debug, Clone, Copy, PartialEq, Eq, Structural)]
pub enum ErrorClassification {
    /// Retry with backoff.
    Transient,
    /// Recoverable with intervention.
    Recoverable,
    /// No recovery.
    Fatal,
}

#[derive(Debug, Clone)]
pub enum CoreError {
    TaskNotFound { task_id: String },
    InvalidStateTransition { from: String, to: String },
    WatchdogTimeout { task_id: String, seconds: u64 },
    CoordinatorShutdown { reason: String },
    ResourceExhaustion { resource: String },
    DeterminismViolation { detail: String },
    TaskExecution { message: String, classification: ErrorClassification },
    ConfigError { detail: String },
}

/// The recovery strategy an error calls for.
pub open spec fn classification_of(e: CoreError) -> ErrorClassification {
    match e {
        CoreError::WatchdogTimeout { .. } => ErrorClassification::Transient,
        CoreError::ResourceExhaustion { .. } => ErrorClassification::Recoverable,
        CoreError::DeterminismViolation { .. } => ErrorClassification::Fatal,
        CoreError::CoordinatorShutdown { .. } => ErrorClassification::Fatal,
        CoreError::TaskExecution { classification, .. } => classification,
        _ => ErrorClassification::Recoverable,
    }
}

impl CoreError {
    /// The recovery strategy this error calls for.
    pub fn classification(&self) -> (c: ErrorClassification)
        ensures
            c == classification_of(*self),
    {
        match self {
            CoreError::WatchdogTimeout { .. } => ErrorClassification::Transient,
            CoreError::ResourceExhaustion { .. } => ErrorClassification::Recoverable,
            CoreError::DeterminismViolation { .. } => ErrorClassification::Fatal,
            CoreError::CoordinatorShutdown { .. } => ErrorClassification::Fatal,
            CoreError::TaskExecution { classification, .. } => *classification,
            _ => ErrorClassification::Recoverable,
        }
    }
}

/// A task's record.
#[derive(Debug, Clone)]
pub struct TaskMetadata {
    pub id: TaskId,
    pub name: String,
    pub state: TaskState,
    /// Seconds since the Unix epoch.
    pub created_at: u64,
    pub last_transition_at: u64,
    pub last_heartbeat: u64,
    /// Times the task entered `Running`.
    pub attempt_count: u32,
    pub max_retries: u32,
    pub last_error: Option<String>,
    /// 0 is the lowest, 255 the highest.
    pub priority: u8,
}

/// The mathematical value of a task's record.
pub struct TaskView {
    pub id: u64,
    pub name: Seq<char>,
    pub state: TaskState,
    pub created_at: u64,
    pub last_transition_at: u64,
    pub last_heartbeat: u64,
    pub attempt_count: u32,
    pub max_retries: u32,
    pub last_error: Option<Seq<char>>,
    pub priority: u8,
}

pub open spec fn error_view(e: Option<String>) -> Option<Seq<char>> {
    match e {
        Some(s) => Some(s@),
        None => None,
    }
}

impl View for TaskMetadata {
    type V = TaskView;

    open spec fn view(&self) -> TaskView {
        TaskView {
            id: self.id@,
            name: self.name@,
            state: self.state,
            created_at: self.created_at,
            last_transition_at: self.last_transition_at,
            last_heartbeat: self.last_heartbeat,
            attempt_count: self.attempt_count,
            max_retries: self.max_retries,
            last_error: error_view(self.last_error),
            priority: self.priority,
        }
    }
}

/// `now - then`, or 0 when `then` is later.
pub open spec fn elapsed(now: u64, then: u64) -> u64 {
    if now >= then {
        (now - then) as u64
    } else {
        0
    }
}

impl TaskMetadata {
    /// Whether the task has run more often than its retries allow.
    pub fn exceeded_retries(&self) -> (b: bool)
        ensures
            b == (self.attempt_count > self.max_retries),
    {
        self.attempt_count > self.max_retries
    }

    /// Whether more than `timeout_secs` seconds passed since the last heartbeat.
    pub fn is_watchdog_timeout(&self, timeout_secs: u64, now: u64) -> (b: bool)
        ensures
            b == (elapsed(now, self.last_heartbeat) > timeout_secs),
    {
        let elapsed = now.saturating_sub(self.last_heartbeat);
        elapsed > timeout_secs
    }

    /// Seconds since the task was created, 0 if `now` is earlier.
    pub fn elapsed_since_creation(&self, now: u64) -> (secs: u64)
        ensures
            secs == elapsed(now, self.created_at),
    {
        now.saturating_sub(self.created_at)
    }

    /// A copy of the record.
    pub fn duplicate(&self) -> (m: Self)
        ensures
            m@ == self@,
    {
        let last_error = match &self.last_error {
            Some(e) => Some(e.clone()),
            None => None,
        };
        TaskMetadata {
            id: self.id,
            name: self.name.clone(),
            state: self.state,
            created_at: self.created_at,
            last_transition_at: self.last_transition_at,
            last_heartbeat: self.last_heartbeat,
            attempt_count: self.attempt_count,
            max_retries: self.max_retries,
            last_error,
            priority: self.priority,
        }
    }
}

/// Watchdog settings.
#[derive(Debug, Clone)]
pub struct WatchdogConfig {
    /// Heartbeat timeout in seconds.
    pub timeout_secs: u64,
    pub initial_backoff_ms: u64,
    pub max_backoff_ms: u64,
    /// Fail a timed-out task and enter the transient fault state.
    pub auto_recovery: bool,
}

impl Default for WatchdogConfig {
    fn default() -> (c: Self)
        ensures
            c.timeout_secs == 30,
            c.initial_backoff_ms == 100,
            c.max_backoff_ms == 30000,
            c.auto_recovery,
    {
        WatchdogConfig { timeout_secs: 30, initial_backoff_ms: 100, max_backoff_ms: 30000, auto_recovery: true }
    }
}

/// The fault state machine's states.
#[derive(Debug, Clone, Copy, PartialEq, Eq, Structural)]
pub enum FaultState {
    Healthy,
    Transient,
    Recoverable,
    Fatal,
    Recovering,
}

/// The name of a fault state as its `Debug` rendering writes it.
pub open spec fn fault_name(s: FaultState) -> Seq<char> {
    match s {
        FaultState::Healthy => "Healthy"@,
        FaultState::Transient => "Transient"@,
        FaultState::Recoverable => "Recoverable"@,
        FaultState::Fatal => "Fatal"@,
        FaultState::Recovering => "Recovering"@,
    }
}

fn fault_label(s: FaultState) -> (r: &'static str)
    ensures
        r@ == fault_name(s),
{
    proof {
        reveal_strlit("Healthy");
        reveal_strlit("Transient");
        reveal_strlit("Recoverable");
        reveal_strlit("Fatal");
        reveal_strlit("Recovering");
    }
    match s {
        FaultState::Healthy => "Healthy",
        FaultState::Transient => "Transient",
        FaultState::Recoverable => "Recoverable",
        FaultState::Fatal => "Fatal",
        FaultState::Recovering => "Recovering",
    }
}

/// The moves of the fault state machine; nothing leaves `Fatal`.
pub open spec fn fault_move(from: FaultState, to: FaultState) -> bool {
    match (from, to) {
        (FaultState::Healthy, FaultState::Transient) => true,
        (FaultState::Healthy, FaultState::Fatal) => true,
        (FaultState::Transient, FaultState::Healthy) => true,
        (FaultState::Transient, FaultState::Recoverable) => true,
        (FaultState::Transient, FaultState::Fatal) => true,
        (FaultState::Recoverable, FaultState::Recovering) => true,
        (FaultState::Recovering, FaultState::Healthy) => true,
        (FaultState::Recovering, FaultState::Fatal) => true,
        _ => false,
    }
}

/// The moves of a task's lifecycle: Created → Queued → Running →
/// Completed or Failed; Queued or Failed → Cancelled; Failed → Queued.
pub open spec fn task_move(from: TaskState, to: TaskState) -> bool {
    match (from, to) {
        (TaskState::Created, TaskState::Queued) => true,
        (TaskState::Queued, TaskState::Running) => true,
        (TaskState::Queued, TaskState::Cancelled) => true,
        (TaskState::Running, TaskState::Completed) => true,
        (TaskState::Running, TaskState::Failed) => true,
        (TaskState::Failed, TaskState::Queued) => true,
        (TaskState::Failed, TaskState::Cancelled) => true,
        _ => false,
    }
}

/// A recorded state transition.
#[derive(Debug, Clone)]
pub struct AuditEntry {
    pub timestamp: u64,
    pub task_id: TaskId,
    pub from_state: TaskState,
    pub to_state: TaskState,
    pub reason: String,
}

pub struct AuditView {
    pub timestamp: u64,
    pub task_id: u64,
    pub from_state: TaskState,
    pub to_state: TaskState,
    pub reason: Seq<char>,
}

impl View for AuditEntry {
    type V = AuditView;

    open spec fn view(&self) -> AuditView {
        AuditView {
            timestamp: self.timestamp,
            task_id: self.task_id@,
            from_state: self.from_state,
            to_state: self.to_state,
            reason: self.reason@,
        }
    }
}

impl AuditEntry {
    /// A copy of the entry.
    pub fn duplicate(&self) -> (a: Self)
        ensures
            a@ == self@,
    {
        AuditEntry {
            timestamp: self.timestamp,
            task_id: self.task_id,
            from_state: self.from_state,
            to_state: self.to_state,
            reason: self.reason.clone(),
        }
    }
}

/// The mathematical state of a coordinator. Task `k` is `tasks[k - 1]`.
pub struct CoordinatorView {
    pub tasks: Seq<TaskView>,
    pub fault_state: FaultState,
    pub next_id: u64,
    pub timeout_secs: u64,
    pub auto_recovery: bool,
    pub audit: Seq<AuditView>,
    pub shutdown: bool,
}

/// The coordinator holds task `id`.
pub open spec fn holds(p: CoordinatorView, id: u64) -> bool {
    1 <= id <= p.tasks.len()
}

/// The record of task `id`.
pub open spec fn task_of(p: CoordinatorView, id: u64) -> TaskView {
    p.tasks[id - 1]
}

/// `p` with the record of task `id` replaced.
pub open spec fn with_task(p: CoordinatorView, id: u64, t: TaskView) -> CoordinatorView {
    CoordinatorView { tasks: p.tasks.update(id - 1, t), ..p }
}

/// The answer for a task the coordinator does not hold.
pub open spec fn not_found(id: u64, r: Result<(), CoreError>) -> bool {
    r matches Err(CoreError::TaskNotFound { task_id }) && task_id@ == task_label(id)
}

/// A task's record once it moved to `to` at `now`: entering `Running`
/// counts an attempt and counts as a heartbeat.
pub open spec fn moved(t: TaskView, to: TaskState, now: u64) -> TaskView {
    TaskView {
        state: to,
        last_transition_at: now,
        last_heartbeat: if to == TaskState::Running {
            now
        } else {
            t.last_heartbeat
        },
        attempt_count: if to == TaskState::Running {
            (t.attempt_count + 1) as u32
        } else {
            t.attempt_count
        },
        ..t
    }
}

/// The audit entry of task `id` moving from `from` to `to` at `now`.
pub open spec fn audit_of(id: u64, from: TaskState, to: TaskState, now: u64) -> AuditView {
    AuditView {
        timestamp: now,
        task_id: id,
        from_state: from,
        to_state: to,
        reason: state_name(from) + " -> "@ + state_name(to),
    }
}

/// What moving task `id` to `to` at `now` answers and leaves.
pub open spec fn transition_outcome(
    p: CoordinatorView,
    id: u64,
    to: TaskState,
    now: u64,
    r: Result<(), CoreError>,
    q: CoordinatorView,
) -> bool {
    if !holds(p, id) {
        not_found(id, r) && q == p
    } else if !task_move(task_of(p, id).state, to) {
        &&& r matches Err(CoreError::InvalidStateTransition { from, to: target })
        &&& from@ == state_name(task_of(p, id).state)
        &&& target@ == state_name(to)
        &&& q == p
    } else {
        &&& r is Ok
        &&& q == CoordinatorView {
            audit: p.audit.push(audit_of(id, task_of(p, id).state, to, now)),
            ..with_task(p, id, moved(task_of(p, id), to, now))
        }
    }
}

/// What a heartbeat of task `id` at `now` answers and leaves.
pub open spec fn heartbeat_outcome(
    p: CoordinatorView,
    id: u64,
    now: u64,
    r: Result<(), CoreError>,
    q: CoordinatorView,
) -> bool {
    if !holds(p, id) {
        not_found(id, r) && q == p
    } else {
        r is Ok && q == with_task(p, id, TaskView { last_heartbeat: now, ..task_of(p, id) })
    }
}

/// The record of a task created at `now` with identifier `id`.
pub open spec fn fresh_task(id: u64, name: Seq<char>, priority: u8, max_retries: u32, now: u64) -> TaskView {
    TaskView {
        id,
        name,
        state: TaskState::Created,
        created_at: now,
        last_transition_at: now,
        last_heartbeat: now,
        attempt_count: 0,
        max_retries,
        last_error: None,
        priority,
    }
}

/// What creating a task at `now` answers and leaves.
pub open spec fn creation_outcome(
    p: CoordinatorView,
    name: Seq<char>,
    priority: u8,
    max_retries: u32,
    now: u64,
    r: Result<TaskId, CoreError>,
    q: CoordinatorView,
) -> bool {
    if p.shutdown {
        &&& r matches Err(CoreError::CoordinatorShutdown { reason })
        &&& reason@ == "Cannot create task on shutdown coordinator"@
        &&& q == p
    } else {
        &&& r matches Ok(id) && id@ == p.next_id
        &&& q == CoordinatorView {
            tasks: p.tasks.push(fresh_task(p.next_id, name, priority, max_retries, now)),
            next_id: (p.next_id + 1) as u64,
            ..p
        }
    }
}

/// The message of a task that ran out of retries.
pub open spec fn retries_message(id: u64, max_retries: u32) -> Seq<char> {
    "Task "@ + task_label(id) + " exceeded maximum retries ("@ + decimal(max_retries as nat) + ")"@
}

/// What recovering task `id` at `now` answers and leaves: a task that ran
/// out of retries is refused as fatal, any other is queued again.
pub open spec fn recovery_outcome(
    p: CoordinatorView,
    id: u64,
    now: u64,
    r: Result<(), CoreError>,
    q: CoordinatorView,
) -> bool {
    if holds(p, id) && task_of(p, id).attempt_count > task_of(p, id).max_retries {
        &&& r matches Err(CoreError::TaskExecution { message, classification })
        &&& message@ == retries_message(id, task_of(p, id).max_retries)
        &&& classification == ErrorClassification::Fatal
        &&& q == p
    } else {
        transition_outcome(p, id, TaskState::Queued, now, r, q)
    }
}

/// The error a timed-out task records.
pub open spec fn watchdog_error() -> Seq<char> {
    "Watchdog timeout - automatic recovery triggered"@
}

/// What a watchdog check of task `id` at `now` answers and leaves: a
/// running task silent for longer than the timeout is reported, and with
/// automatic recovery failed, with the fault state set to transient.
pub open spec fn watchdog_outcome(
    p: CoordinatorView,
    id: u64,
    now: u64,
    r: Result<bool, CoreError>,
    q: CoordinatorView,
) -> bool {
    if !holds(p, id) {
        r matches Err(CoreError::TaskNotFound { task_id }) && task_id@ == task_label(id) && q == p
    } else if task_of(p, id).state != TaskState::Running || elapsed(now, task_of(p, id).last_heartbeat)
        <= p.timeout_secs {
        r == Ok::<bool, CoreError>(true) && q == p
    } else {
        &&& r matches Err(CoreError::WatchdogTimeout { task_id, seconds })
        &&& task_id@ == task_label(id) && seconds == p.timeout_secs
        &&& q == if p.auto_recovery {
            CoordinatorView {
                fault_state: FaultState::Transient,
                audit: p.audit.push(audit_of(id, TaskState::Running, TaskState::Failed, now)),
                ..with_task(
                    p,
                    id,
                    TaskView {
                        last_error: Some(watchdog_error()),
                        ..moved(task_of(p, id), TaskState::Failed, now)
                    },
                )
            }
        } else {
            p
        }
    }
}

/// What recording `error` against task `id` answers and leaves: the error
/// is kept on the task, and a fatal one makes the fault state fatal.
pub open spec fn error_outcome(
    p: CoordinatorView,
    id: u64,
    error: Seq<char>,
    classification: ErrorClassification,
    r: Result<(), CoreError>,
    q: CoordinatorView,
) -> bool {
    if !holds(p, id) {
        not_found(id, r) && q == p
    } else {
        r is Ok && q == CoordinatorView {
            fault_state: if classification == ErrorClassification::Fatal {
                FaultState::Fatal
            } else {
                p.fault_state
            },
            ..with_task(p, id, TaskView { last_error: Some(error), ..task_of(p, id) })
        }
    }
}

/// What setting the fault state to `state` answers and leaves.
pub open spec fn fault_outcome(p: CoordinatorView, state: FaultState, r: Result<(), CoreError>, q: CoordinatorView) -> bool {
    if fault_move(p.fault_state, state) {
        r is Ok && q == CoordinatorView { fault_state: state, ..p }
    } else {
        &&& r matches Err(CoreError::DeterminismViolation { detail })
        &&& detail@ == "Invalid fault state transition: "@ + fault_name(p.fault_state) + " -> "@
            + fault_name(state)
        &&& q == p
    }
}

/// Coordinates the lifecycle of tasks.
pub struct OrbitalCoordinator {
    tasks: Vec<TaskMetadata>,
    fault_state: FaultState,
    task_id_counter: u64,
    watchdog_config: WatchdogConfig,
    audit_trail: Vec<AuditEntry>,
    is_shutdown: bool,
}

pub open spec fn tasks_view(tasks: Seq<TaskMetadata>) -> Seq<TaskView> {
    Seq::new(tasks.len(), |i: int| tasks[i]@)
}

pub open spec fn audit_view(entries: Seq<AuditEntry>) -> Seq<AuditView> {
    Seq::new(entries.len(), |i: int| entries[i]@)
}

impl View for OrbitalCoordinator {
    type V = CoordinatorView;

    closed spec fn view(&self) -> CoordinatorView {
        CoordinatorView {
            tasks: tasks_view(self.tasks@),
            fault_state: self.fault_state,
            next_id: self.task_id_counter,
            timeout_secs: self.watchdog_config.timeout_secs,
            auto_recovery: self.watchdog_config.auto_recovery,
            audit: audit_view(self.audit_trail@),
            shutdown: self.is_shutdown,
        }
    }
}

/// Identifiers are handed out from 1 in order and task `k` sits at `k - 1`.
pub open spec fn coordinator_wf(p: CoordinatorView) -> bool {
    &&& p.next_id == p.tasks.len() + 1
    &&& forall|i: int| 0 <= i < p.tasks.len() ==> #[trigger] p.tasks[i].id == i + 1
}

/// Replacing a task's record by one with the same identifier keeps the
/// coordinator well formed.
proof fn lemma_replace_keeps_wf(p: CoordinatorView, id: u64, t: TaskView)
    requires
        coordinator_wf(p),
        holds(p, id),
        t.id == task_of(p, id).id,
    ensures
        coordinator_wf(with_task(p, id, t)),
        task_of(with_task(p, id, t), id) == t,
        with_task(p, id, t).tasks.len() == p.tasks.len(),
{
    let q = with_task(p, id, t);
    assert(p.tasks[id - 1].id == id);
    assert forall|i: int| 0 <= i < q.tasks.len() implies #[trigger] q.tasks[i].id == i + 1 by {
        if i != id - 1 {
            assert(q.tasks[i] == p.tasks[i]);
        }
    }
}

impl OrbitalCoordinator {
    pub closed spec fn wf(&self) -> bool {
        coordinator_wf(self@)
    }

    pub proof fn lemma_wf(&self)
        requires
            self.wf(),
        ensures
            coordinator_wf(self@),
    {
    }

    /// A coordinator with the default watchdog settings.
    pub fn new() -> (c: Self)
        ensures
            c.wf(),
            c@ == (CoordinatorView {
                tasks: Seq::empty(),
                fault_state: FaultState::Healthy,
                next_id: 1,
                timeout_secs: 30,
                auto_recovery: true,
                audit: Seq::empty(),
                shutdown: false,
            }),
    {
        Self::with_config(WatchdogConfig::default())
    }

    /// A healthy coordinator without tasks.
    pub fn with_config(watchdog_config: WatchdogConfig) -> (c: Self)
        ensures
            c.wf(),
            c@ == (CoordinatorView {
                tasks: Seq::empty(),
                fault_state: FaultState::Healthy,
                next_id: 1,
                timeout_secs: watchdog_config.timeout_secs,
                auto_recovery: watchdog_config.auto_recovery,
                audit: Seq::empty(),
                shutdown: false,
            }),
    {
        let c = OrbitalCoordinator {
            tasks: Vec::new(),
            fault_state: FaultState::Healthy,
            task_id_counter: 1,
            watchdog_config,
            audit_trail: Vec::new(),
            is_shutdown: false,
        };
        proof {
            assert(c@.tasks =~= Seq::<TaskView>::empty());
            assert(c@.audit =~= Seq::<AuditView>::empty());
        }
        c
    }

    /// Creates a task stamped `now`; refused once the coordinator is shut down.
    pub fn create_task_at(&mut self, name: String, priority: u8, max_retries: u32, now: u64) -> (r: Result<TaskId, CoreError>)
        requires
            old(self).wf(),
            old(self)@.next_id < u64::MAX,
        ensures
            final(self).wf(),
            creation_outcome(old(self)@, name@, priority, max_retries, now, r, final(self)@),
    {
        if self.is_shutdown {
            return Err(
                CoreError::CoordinatorShutdown { reason: "Cannot create task on shutdown coordinator".to_owned() },
            );
        }
        let task_id = TaskId(self.task_id_counter);
        self.task_id_counter = self.task_id_counter + 1;
        let metadata = TaskMetadata {
            id: task_id,
            name,
            state: TaskState::Created,
            created_at: now,
            last_transition_at: now,
            last_heartbeat: now,
            attempt_count: 0,
            max_retries,
            last_error: None,
            priority,
        };
        let ghost before = self.tasks@;
        self.tasks.push(metadata);
        proof {
            assert(tasks_view(self.tasks@) =~= tasks_view(before).push(metadata@));
        }
        Ok(task_id)
    }

    /// Creates a task stamped with the current time.
    pub fn create_task(&mut self, name: String, priority: u8, max_retries: u32) -> (r: Result<TaskId, CoreError>)
        requires
            old(self).wf(),
            old(self)@.next_id < u64::MAX,
        ensures
            final(self).wf(),
            exists|now: u64| creation_outcome(old(self)@, name@, priority, max_retries, now, r, final(self)@),
    {
        let now = unix_time_secs();
        self.create_task_at(name, priority, max_retries, now)
    }

    /// The slot of task `task_id`, if the coordinator holds it.
    fn slot(&self, task_id: TaskId) -> (s: Option<usize>)
        requires
            self.wf(),
        ensures
            s is None <==> !holds(self@, task_id@),
            s matches Some(k) ==> k == task_id@ - 1 && k < self.tasks@.len(),
    {
        if task_id.0 >= 1 && task_id.0 <= self.tasks.len() as u64 {
            Some((task_id.0 - 1) as usize)
        } else {
            None
        }
    }

    /// Moves task `task_id` to `new_state` at `now` and records the move;
    /// refused for an unknown task or a move the lifecycle does not allow.
    pub fn transition_task_at(&mut self, task_id: TaskId, new_state: TaskState, now: u64) -> (r: Result<(), CoreError>)
        requires
            old(self).wf(),
            new_state == TaskState::Running && holds(old(self)@, task_id@) ==> task_of(old(self)@, task_id@).attempt_count < u32::MAX,
        ensures
            final(self).wf(),
            transition_outcome(old(self)@, task_id@, new_state, now, r, final(self)@),
    {
        let k = match self.slot(task_id) {
            Some(k) => k,
            None => {
                return Err(CoreError::TaskNotFound { task_id: task_id.to_string() });
            },
        };
        let old_state = self.tasks[k].state;
        if !Self::is_valid_transition(old_state, new_state) {
            return Err(
                CoreError::InvalidStateTransition { from: old_state.to_string(), to: new_state.to_string() },
            );
        }
        let mut metadata = self.tasks[k].duplicate();
        metadata.state = new_state;
        metadata.last_transition_at = now;
        if new_state == TaskState::Running {
            metadata.last_heartbeat = now;
            metadata.attempt_count = metadata.attempt_count + 1;
        }
        let ghost before = self.tasks@;
        self.tasks.set(k, metadata);
        let mut reason = old_state.to_string();
        reason.append(" -> ");
        let target = new_state.to_string();
        reason.append(target.as_str());
        let entry = AuditEntry { timestamp: now, task_id, from_state: old_state, to_state: new_state, reason };
        let ghost trail = self.audit_trail@;
        self.audit_trail.push(entry);
        proof {
            assert(tasks_view(before)[k as int] == task_of(old(self)@, task_id@));
            assert(tasks_view(self.tasks@) =~= tasks_view(before).update(k as int, metadata@));
            lemma_replace_keeps_wf(old(self)@, task_id@, metadata@);
            assert(audit_view(self.audit_trail@) =~= audit_view(trail).push(entry@));
            assert(entry@ == audit_of(task_id@, old_state, new_state, now));
        }
        Ok(())
    }

    /// Moves a task at the current time.
    pub fn transition_task(&mut self, task_id: TaskId, new_state: TaskState) -> (r: Result<(), CoreError>)
        requires
            old(self).wf(),
            new_state == TaskState::Running && holds(old(self)@, task_id@) ==> task_of(old(self)@, task_id@).attempt_count < u32::MAX,
        ensures
            final(self).wf(),
            exists|now: u64| transition_outcome(old(self)@, task_id@, new_state, now, r, final(self)@),
    {
        let now = unix_time_secs();
        self.transition_task_at(task_id, new_state, now)
    }

    /// Records a heartbeat of task `task_id` at `now`.
    pub fn record_heartbeat_at(&mut self, task_id: TaskId, now: u64) -> (r: Result<(), CoreError>)
        requires
            old(self).wf(),
        ensures
            final(self).wf(),
            heartbeat_outcome(old(self)@, task_id@, now, r, final(self)@),
    {
        let k = match self.slot(task_id) {
            Some(k) => k,
            None => {
                return Err(CoreError::TaskNotFound { task_id: task_id.to_string() });
            },
        };
        let mut metadata = self.tasks[k].duplicate();
        metadata.last_heartbeat = now;
        let ghost before = self.tasks@;
        self.tasks.set(k, metadata);
        proof {
            assert(tasks_view(before)[k as int] == task_of(old(self)@, task_id@));
            assert(tasks_view(self.tasks@) =~= tasks_view(before).update(k as int, metadata@));
            lemma_replace_keeps_wf(old(self)@, task_id@, metadata@);
        }
        Ok(())
    }

    /// Records a heartbeat at the current time.
    pub fn record_heartbeat(&mut self, task_id: TaskId) -> (r: Result<(), CoreError>)
        requires
            old(self).wf(),
        ensures
            final(self).wf(),
            exists|now: u64| heartbeat_outcome(old(self)@, task_id@, now, r, final(self)@),
    {
        let now = unix_time_secs();
        self.record_heartbeat_at(task_id, now)
    }

    /// Checks the watchdog of task `task_id` at `now`.
    pub fn check_watchdog_at(&mut self, task_id: TaskId, now: u64) -> (r: Result<bool, CoreError>)
        requires
            old(self).wf(),
        ensures
            final(self).wf(),
            watchdog_outcome(old(self)@, task_id@, now, r, final(self)@),
    {
        let k = match self.slot(task_id) {
            Some(k) => k,
            None => {
                return Err(CoreError::TaskNotFound { task_id: task_id.to_string() });
            },
        };
        if self.tasks[k].state != TaskState::Running {
            return Ok(true);
        }
        let is_timeout = self.tasks[k].is_watchdog_timeout(self.watchdog_config.timeout_secs, now);
        if is_timeout {
            if self.watchdog_config.auto_recovery {
                self.fault_state = FaultState::Transient;
                let ghost mid = self@;
                let failed = self.transition_task_at(task_id, TaskState::Failed, now);
                if let Err(e) = failed {
                    return Err(e);
                }
                let mut metadata = self.tasks[k].duplicate();
                metadata.last_error = Some("Watchdog timeout - automatic recovery triggered".to_owned());
                let ghost before = self.tasks@;
                let ghost after_move = self@;
                self.tasks.set(k, metadata);
                proof {
                    reveal_strlit("Watchdog timeout - automatic recovery triggered");
                    assert(tasks_view(before)[k as int] == task_of(after_move, task_id@));
                    assert(tasks_view(self.tasks@) =~= tasks_view(before).update(k as int, metadata@));
                    lemma_replace_keeps_wf(after_move, task_id@, metadata@);
                    assert(metadata@ == (TaskView {
                        last_error: Some(watchdog_error()),
                        ..moved(task_of(old(self)@, task_id@), TaskState::Failed, now)
                    }));
                    assert(self@.tasks =~= with_task(old(self)@, task_id@, metadata@).tasks);
                }
            }
            return Err(
                CoreError::WatchdogTimeout {
                    task_id: task_id.to_string(),
                    seconds: self.watchdog_config.timeout_secs,
                },
            );
        }
        Ok(true)
    }

    /// Checks the watchdog of a task at the current time.
    pub fn check_watchdog(&mut self, task_id: TaskId) -> (r: Result<bool, CoreError>)
        requires
            old(self).wf(),
        ensures
            final(self).wf(),
            exists|now: u64| watchdog_outcome(old(self)@, task_id@, now, r, final(self)@),
    {
        let now = unix_time_secs();
        self.check_watchdog_at(task_id, now)
    }

    /// A copy of task `task_id`'s record.
    pub fn get_task(&self, task_id: TaskId) -> (r: Result<TaskMetadata, CoreError>)
        requires
            self.wf(),
        ensures
            !holds(self@, task_id@) ==> (r matches Err(CoreError::TaskNotFound { task_id: t }) && t@
                == task_label(task_id@)),
            holds(self@, task_id@) ==> (r matches Ok(m) && m@ == task_of(self@, task_id@)),
    {
        match self.slot(task_id) {
            Some(k) => Ok(self.tasks[k].duplicate()),
            None => Err(CoreError::TaskNotFound { task_id: task_id.to_string() }),
        }
    }

    /// Records `error` as the task's last error; a fatal one puts the
    /// coordinator in the fatal fault state.
    pub fn record_error(&mut self, task_id: TaskId, error: String, classification: ErrorClassification) -> (r: Result<(), CoreError>)
        requires
            old(self).wf(),
        ensures
            final(self).wf(),
            error_outcome(old(self)@, task_id@, error@, classification, r, final(self)@),
    {
        let k = match self.slot(task_id) {
            Some(k) => k,
            None => {
                return Err(CoreError::TaskNotFound { task_id: task_id.to_string() });
            },
        };
        let mut metadata = self.tasks[k].duplicate();
        metadata.last_error = Some(error);
        let ghost before = self.tasks@;
        self.tasks.set(k, metadata);
        proof {
            assert(tasks_view(before)[k as int] == task_of(old(self)@, task_id@));
            assert(tasks_view(self.tasks@) =~= tasks_view(before).update(k as int, metadata@));
            lemma_replace_keeps_wf(old(self)@, task_id@, metadata@);
        }
        match classification {
            ErrorClassification::Fatal => {
                self.fault_state = FaultState::Fatal;
            },
            _ => {},
        }
        Ok(())
    }

    /// Queues a failed task again at `now`, refused as fatal once it ran out
    /// of retries.
    pub fn recover_task_at(&mut self, task_id: TaskId, now: u64) -> (r: Result<(), CoreError>)
        requires
            old(self).wf(),
        ensures
            final(self).wf(),
            recovery_outcome(old(self)@, task_id@, now, r, final(self)@),
    {
        let metadata = match self.get_task(task_id) {
            Ok(m) => m,
            Err(e) => {
                return Err(e);
            },
        };
        if metadata.exceeded_retries() {
            let mut message = "Task ".to_owned();
            let label = task_id.to_string();
            message.append(label.as_str());
            message.append(" exceeded maximum retries (");
            push_decimal(&mut message, metadata.max_retries as u64);
            message.append(")");
            return Err(CoreError::TaskExecution { message, classification: ErrorClassification::Fatal });
        }
        self.transition_task_at(task_id, TaskState::Queued, now)
    }

    /// Queues a failed task again at the current time.
    pub fn recover_task(&mut self, task_id: TaskId) -> (r: Result<(), CoreError>)
        requires
            old(self).wf(),
        ensures
            final(self).wf(),
            exists|now: u64| recovery_outcome(old(self)@, task_id@, now, r, final(self)@),
    {
        let now = unix_time_secs();
        self.recover_task_at(task_id, now)
    }

    pub fn get_fault_state(&self) -> (s: FaultState)
        ensures
            s == self@.fault_state,
    {
        self.fault_state
    }

    /// Moves the fault state machine; a move it does not allow is refused
    /// as a determinism violation.
    pub fn set_fault_state(&mut self, state: FaultState) -> (r: Result<(), CoreError>)
        requires
            old(self).wf(),
        ensures
            final(self).wf(),
            fault_outcome(old(self)@, state, r, final(self)@),
    {
        let current = self.fault_state;
        let valid = match (current, state) {
            (FaultState::Healthy, FaultState::Transient) => true,
            (FaultState::Healthy, FaultState::Fatal) => true,
            (FaultState::Transient, FaultState::Healthy) => true,
            (FaultState::Transient, FaultState::Recoverable) => true,
            (FaultState::Transient, FaultState::Fatal) => true,
            (FaultState::Recoverable, FaultState::Recovering) => true,
            (FaultState::Recovering, FaultState::Healthy) => true,
            (FaultState::Recovering, FaultState::Fatal) => true,
            _ => false,
        };
        if !valid {
            let mut detail = "Invalid fault state transition: ".to_owned();
            detail.append(fault_label(current));
            detail.append(" -> ");
            detail.append(fault_label(state));
            return Err(CoreError::DeterminismViolation { detail });
        }
        self.fault_state = state;
        Ok(())
    }

    /// Copies of the audit entries, oldest first.
    pub fn get_audit_trail(&self) -> (v: Vec<AuditEntry>)
        ensures
            audit_view(v@) == self@.audit,
    {
        let mut out: Vec<AuditEntry> = Vec::new();
        let mut i: usize = 0;
        while i < self.audit_trail.len()
            invariant
                i <= self.audit_trail@.len(),
                audit_view(out@) == audit_view(self.audit_trail@.take(i as int)),
            decreases self.audit_trail@.len() - i,
        {
            let e = self.audit_trail[i].duplicate();
            let ghost before = out@;
            out.push(e);
            i = i + 1;
            proof {
                let goal = audit_view(self.audit_trail@.take(i as int));
                assert(out@ == before.push(e));
                assert(audit_view(before).len() == i - 1);
                assert forall|k: int| 0 <= k < i implies #[trigger] audit_view(out@)[k] == goal[k] by {
                    if k < i - 1 {
                        assert(out@[k] == before[k]);
                        assert(audit_view(before)[k] == audit_view(self.audit_trail@.take(i - 1))[k]);
                    }
                }
                assert(audit_view(out@) =~= goal);
            }
        }
        proof {
            assert(self.audit_trail@.take(i as int) =~= self.audit_trail@);
        }
        out
    }

    /// Stops the creation of tasks.
    pub fn shutdown(&mut self) -> (r: Result<(), CoreError>)
        requires
            old(self).wf(),
        ensures
            final(self).wf(),
            r is Ok,
            final(self)@ == (CoordinatorView { shutdown: true, ..old(self)@ }),
    {
        self.is_shutdown = true;
        Ok(())
    }

    pub fn is_shutdown(&self) -> (b: bool)
        ensures
            b == self@.shutdown,
    {
        self.is_shutdown
    }

    fn is_valid_transition(from: TaskState, to: TaskState) -> (b: bool)
        ensures
            b == task_move(from, to),
    {
        match (from, to) {
            (TaskState::Created, TaskState::Queued) => true,
            (TaskState::Queued, TaskState::Running) => true,
            (TaskState::Queued, TaskState::Cancelled) => true,
            (TaskState::Running, TaskState::Completed) => true,
            (TaskState::Running, TaskState::Failed) => true,
            (TaskState::Failed, TaskState::Queued) => true,
            (TaskState::Failed, TaskState::Cancelled) => true,
            _ => false,
        }
    }
}

impl Default for OrbitalCoordinator {
    fn default() -> (c: Self)
        ensures
            c.wf(),
            c@.tasks == Seq::<TaskView>::empty(),
            c@.fault_state == FaultState::Healthy,
            c@.next_id == 1,
            c@.audit == Seq::<AuditView>::empty(),
            !c@.shutdown,
    {
        Self::new()
    }
}

/// Completed and cancelled tasks are final: no move leaves them, so any
/// transition of such a task is refused and changes nothing.
pub proof fn law_terminal_task_states(p: CoordinatorView, id: u64, to: TaskState, now: u64, r: Result<(), CoreError>, q: CoordinatorView)
    requires
        holds(p, id),
        task_of(p, id).state == TaskState::Completed || task_of(p, id).state == TaskState::Cancelled,
        transition_outcome(p, id, to, now, r, q),
    ensures
        r matches Err(CoreError::InvalidStateTransition { .. }),
        q == p,
{
}

/// Nothing leaves the fatal fault state through the state machine.
pub proof fn law_fatal_is_final(to: FaultState)
    ensures
        !fault_move(FaultState::Fatal, to),
{
}

/// A successful move records exactly one audit entry naming the task and
/// both states, and counts an attempt exactly when the task enters
/// `Running`; a refused move records nothing.
pub proof fn law_moves_are_audited(p: CoordinatorView, id: u64, to: TaskState, now: u64, r: Result<(), CoreError>, q: CoordinatorView)
    requires
        coordinator_wf(p),
        to == TaskState::Running && holds(p, id) ==> task_of(p, id).attempt_count < u32::MAX,
        transition_outcome(p, id, to, now, r, q),
    ensures
        r is Ok ==> {
            &&& q.audit.len() == p.audit.len() + 1
            &&& q.audit.last().task_id == id
            &&& q.audit.last().from_state == task_of(p, id).state
            &&& q.audit.last().to_state == to
            &&& task_of(q, id).state == to
            &&& task_of(q, id).attempt_count == if to == TaskState::Running {
                task_of(p, id).attempt_count + 1
            } else {
                task_of(p, id).attempt_count as int
            }
        },
        r is Err ==> q == p,
{
    if r is Ok {
        assert(task_of(q, id) == moved(task_of(p, id), to, now));
    }
}

/// Identifiers are never handed out twice: two tasks created one after the
/// other get different identifiers, the later one larger.
pub proof fn law_fresh_identifiers(
    p: CoordinatorView,
    name1: Seq<char>,
    priority1: u8,
    retries1: u32,
    now1: u64,
    r1: Result<TaskId, CoreError>,
    q1: CoordinatorView,
    name2: Seq<char>,
    priority2: u8,
    retries2: u32,
    now2: u64,
    r2: Result<TaskId, CoreError>,
    q2: CoordinatorView,
)
    requires
        p.next_id < u64::MAX - 1,
        creation_outcome(p, name1, priority1, retries1, now1, r1, q1),
        creation_outcome(q1, name2, priority2, retries2, now2, r2, q2),
        r1 is Ok,
        r2 is Ok,
    ensures
        r1->Ok_0@ < r2->Ok_0@,
        r1->Ok_0 != r2->Ok_0,
{
}

/// A shut-down coordinator creates no task and stays as it is.
pub proof fn law_shutdown_refuses_tasks(
    p: CoordinatorView,
    name: Seq<char>,
    priority: u8,
    max_retries: u32,
    now: u64,
    r: Result<TaskId, CoreError>,
    q: CoordinatorView,
)
    requires
        p.shutdown,
        creation_outcome(p, name, priority, max_retries, now, r, q),
    ensures
        r matches Err(e) && classification_of(e) == ErrorClassification::Fatal,
        q == p,
{
}

/// A task that ran out of retries is not queued again: recovering it is
/// refused with a fatal error and changes nothing.
pub proof fn law_retries_exhausted(p: CoordinatorView, id: u64, now: u64, r: Result<(), CoreError>, q: CoordinatorView)
    requires
        holds(p, id),
        task_of(p, id).attempt_count > task_of(p, id).max_retries,
        recovery_outcome(p, id, now, r, q),
    ensures
        r matches Err(e) && classification_of(e) == ErrorClassification::Fatal,
        q == p,
{
}


/// One call of the coordinator's interface that may change it, with its
/// arguments and the time at which it is made.
pub enum CoordinatorCall {
    Create { name: Seq<char>, priority: u8, max_retries: u32, now: u64 },
    Transition { id: u64, to: TaskState, now: u64 },
    Heartbeat { id: u64, now: u64 },
    Watchdog { id: u64, now: u64 },
    RecordError { id: u64, error: Seq<char>, classification: ErrorClassification },
    Recover { id: u64, now: u64 },
    SetFaultState(FaultState),
    Shutdown,
}

/// `call`, made on a coordinator in state `p`, can leave it in state `q`,
/// whatever it answers.
pub open spec fn coordinator_step(p: CoordinatorView, call: CoordinatorCall, q: CoordinatorView) -> bool {
    match call {
        CoordinatorCall::Create { name, priority, max_retries, now } => exists|r: Result<TaskId, CoreError>|
            creation_outcome(p, name, priority, max_retries, now, r, q),
        CoordinatorCall::Transition { id, to, now } => exists|r: Result<(), CoreError>|
            transition_outcome(p, id, to, now, r, q),
        CoordinatorCall::Heartbeat { id, now } => exists|r: Result<(), CoreError>| heartbeat_outcome(p, id, now, r, q),
        CoordinatorCall::Watchdog { id, now } => exists|r: Result<bool, CoreError>| watchdog_outcome(p, id, now, r, q),
        CoordinatorCall::RecordError { id, error, classification } => exists|r: Result<(), CoreError>|
            error_outcome(p, id, error, classification, r, q),
        CoordinatorCall::Recover { id, now } => exists|r: Result<(), CoreError>| recovery_outcome(p, id, now, r, q),
        CoordinatorCall::SetFaultState(state) => exists|r: Result<(), CoreError>| fault_outcome(p, state, r, q),
        CoordinatorCall::Shutdown => q == CoordinatorView { shutdown: true, ..p },
    }
}

/// The identifier that `call` hands out on a coordinator in state `p`: a
/// creation on a coordinator that is not shut down gets the next one.
pub open spec fn handed_out(p: CoordinatorView, call: CoordinatorCall) -> Option<u64> {
    if call is Create && !p.shutdown {
        Some(p.next_id)
    } else {
        None
    }
}

proof fn lemma_coordinator_step(p: CoordinatorView, call: CoordinatorCall, q: CoordinatorView)
    requires
        coordinator_wf(p),
        coordinator_step(p, call, q),
        call is Create ==> p.next_id < u64::MAX,
    ensures
        coordinator_wf(q),
        handed_out(p, call) is Some ==> q.next_id == p.next_id + 1,
        handed_out(p, call) is None ==> q.next_id == p.next_id,
{
    match call {
        CoordinatorCall::Create { name, priority, max_retries, now } => {
            let r = choose|r: Result<TaskId, CoreError>| creation_outcome(p, name, priority, max_retries, now, r, q);
            if !p.shutdown {
                assert forall|i: int| 0 <= i < q.tasks.len() implies #[trigger] q.tasks[i].id == i + 1 by {
                    if i < p.tasks.len() {
                        assert(q.tasks[i] == p.tasks[i]);
                    }
                }
            }
        },
        CoordinatorCall::Transition { id, to, now } => {
            let r = choose|r: Result<(), CoreError>| transition_outcome(p, id, to, now, r, q);
            if holds(p, id) && task_move(task_of(p, id).state, to) {
                lemma_replace_keeps_wf(p, id, moved(task_of(p, id), to, now));
            }
        },
        CoordinatorCall::Heartbeat { id, now } => {
            let r = choose|r: Result<(), CoreError>| heartbeat_outcome(p, id, now, r, q);
            if holds(p, id) {
                lemma_replace_keeps_wf(p, id, TaskView { last_heartbeat: now, ..task_of(p, id) });
            }
        },
        CoordinatorCall::Watchdog { id, now } => {
            let r = choose|r: Result<bool, CoreError>| watchdog_outcome(p, id, now, r, q);
            if holds(p, id) {
                lemma_replace_keeps_wf(
                    p,
                    id,
                    TaskView { last_error: Some(watchdog_error()), ..moved(task_of(p, id), TaskState::Failed, now) },
                );
            }
        },
        CoordinatorCall::RecordError { id, error, classification } => {
            let r = choose|r: Result<(), CoreError>| error_outcome(p, id, error, classification, r, q);
            if holds(p, id) {
                lemma_replace_keeps_wf(p, id, TaskView { last_error: Some(error), ..task_of(p, id) });
            }
        },
        CoordinatorCall::Recover { id, now } => {
            let r = choose|r: Result<(), CoreError>| recovery_outcome(p, id, now, r, q);
            if holds(p, id) && task_move(task_of(p, id).state, TaskState::Queued) {
                lemma_replace_keeps_wf(p, id, moved(task_of(p, id), TaskState::Queued, now));
            }
        },
        CoordinatorCall::SetFaultState(state) => {
            let r = choose|r: Result<(), CoreError>| fault_outcome(p, state, r, q);
        },
        CoordinatorCall::Shutdown => {},
    }
}

/// Call `i` of `calls` took `states[i]` to `states[i + 1]`.
pub open spec fn step_at(states: Seq<CoordinatorView>, calls: Seq<CoordinatorCall>, i: int) -> bool {
    coordinator_step(states[i], calls[i], states[i + 1])
}

/// A history of calls: `states[i + 1]` is what call `i` left of
/// `states[i]`, starting from a well-formed coordinator, with room for the
/// identifier of each creation.
pub open spec fn coordinator_history(states: Seq<CoordinatorView>, calls: Seq<CoordinatorCall>) -> bool {
    &&& states.len() == calls.len() + 1
    &&& coordinator_wf(states[0])
    &&& forall|i: int| 0 <= i < calls.len() ==> #[trigger] step_at(states, calls, i)
    &&& forall|i: int| 0 <= i < calls.len() && #[trigger] calls[i] is Create ==> states[i].next_id < u64::MAX
}

proof fn lemma_history_prefix(states: Seq<CoordinatorView>, calls: Seq<CoordinatorCall>, k: int)
    requires
        coordinator_history(states, calls),
        0 <= k <= calls.len(),
    ensures
        coordinator_wf(states[k]),
        forall|i: int|
            0 <= i < k && #[trigger] handed_out(states[i], calls[i]) is Some ==> handed_out(states[i], calls[i])
                ->Some_0 < states[k].next_id,
        forall|i: int| 0 <= i <= k ==> #[trigger] states[i].next_id <= states[k].next_id,
    decreases k,
{
    if k > 0 {
        lemma_history_prefix(states, calls, k - 1);
        assert(step_at(states, calls, k - 1));
        lemma_coordinator_step(states[k - 1], calls[k - 1], states[k]);
    }
}

/// Identifiers are never handed out twice: over any history of calls, each
/// creation that succeeds gets the coordinator's next identifier, and every
/// later creation gets a larger one.
pub proof fn law_identifiers_never_repeat(states: Seq<CoordinatorView>, calls: Seq<CoordinatorCall>)
    requires
        coordinator_history(states, calls),
    ensures
        forall|i: int, j: int|
            0 <= i < j < calls.len() && #[trigger] handed_out(states[i], calls[i]) is Some
                && #[trigger] handed_out(states[j], calls[j]) is Some ==> handed_out(states[i], calls[i])->Some_0
                < handed_out(states[j], calls[j])->Some_0,
{
    assert forall|i: int, j: int|
        0 <= i < j < calls.len() && #[trigger] handed_out(states[i], calls[i]) is Some
            && #[trigger] handed_out(states[j], calls[j]) is Some implies handed_out(states[i], calls[i])->Some_0
        < handed_out(states[j], calls[j])->Some_0 by {
        lemma_history_prefix(states, calls, j);
    }
}

/// A successful creation answers the identifier that `handed_out` names.
pub proof fn law_creation_answers_handed_out(
    p: CoordinatorView,
    name: Seq<char>,
    priority: u8,
    max_retries: u32,
    now: u64,
    r: Result<TaskId, CoreError>,
    q: CoordinatorView,
)
    requires
        creation_outcome(p, name, priority, max_retries, now, r, q),
    ensures
        r is Ok <==> handed_out(p, CoordinatorCall::Create { name, priority, max_retries, now }) is Some,
        r matches Ok(id) ==> handed_out(p, CoordinatorCall::Create { name, priority, max_retries, now })
            == Some(id@),
{
}

/// The lifecycle a held task moves through, target by target: it is
/// queued from `Created` or, to retry, from `Failed`; it runs only from
/// `Queued`; it completes or fails only from `Running`; it is cancelled
/// while queued or after failing; nothing returns to `Created`. A move that
/// succeeds leaves the task in the target state.
pub proof fn law_task_lifecycle(p: CoordinatorView, id: u64, to: TaskState, now: u64, r: Result<(), CoreError>, q: CoordinatorView)
    requires
        holds(p, id),
        transition_outcome(p, id, to, now, r, q),
    ensures
        to == TaskState::Queued ==> (r is Ok <==> task_of(p, id).state == TaskState::Created || task_of(p, id).state
            == TaskState::Failed),
        to == TaskState::Running ==> (r is Ok <==> task_of(p, id).state == TaskState::Queued),
        to == TaskState::Completed ==> (r is Ok <==> task_of(p, id).state == TaskState::Running),
        to == TaskState::Failed ==> (r is Ok <==> task_of(p, id).state == TaskState::Running),
        to == TaskState::Cancelled ==> (r is Ok <==> task_of(p, id).state == TaskState::Queued || task_of(p, id).state
            == TaskState::Failed),
        to == TaskState::Created ==> r is Err,
        r is Ok ==> q.tasks.len() == p.tasks.len() && task_of(q, id).state == to,
        r is Err ==> q == p,
{
}

/// The fault state machine, target by target: the node returns to
/// `Healthy` from a transient fault or at the end of a recovery; a
/// transient fault arises only while healthy; a transient fault may be
/// found recoverable; recovery starts only from a recoverable fault; and a
/// fault may turn fatal from any state but `Recoverable` and `Fatal`. A
/// move that succeeds sets the state and changes nothing else; a refused
/// one changes nothing.
pub proof fn law_fault_machine(p: CoordinatorView, state: FaultState, r: Result<(), CoreError>, q: CoordinatorView)
    requires
        fault_outcome(p, state, r, q),
    ensures
        state == FaultState::Healthy ==> (r is Ok <==> p.fault_state == FaultState::Transient || p.fault_state
            == FaultState::Recovering),
        state == FaultState::Transient ==> (r is Ok <==> p.fault_state == FaultState::Healthy),
        state == FaultState::Recoverable ==> (r is Ok <==> p.fault_state == FaultState::Transient),
        state == FaultState::Recovering ==> (r is Ok <==> p.fault_state == FaultState::Recoverable),
        state == FaultState::Fatal ==> (r is Ok <==> p.fault_state == FaultState::Healthy || p.fault_state
            == FaultState::Transient || p.fault_state == FaultState::Recovering),
        r is Ok ==> q == (CoordinatorView { fault_state: state, ..p }),
        r is Err ==> q == p,
{
}

/// The fault state `s` leads back to `Healthy` through at most `steps`
/// moves of the fault state machine.
pub open spec fn heals(s: FaultState, steps: nat) -> bool
    decreases steps,
{
    s == FaultState::Healthy || (steps > 0 && exists|t: FaultState| #[trigger] fault_move(s, t) && heals(t, (steps - 1) as nat))
}

/// Every fault short of fatal can be healed: from each non-fatal state a
/// path of at most two moves leads back to `Healthy`, and from `Fatal` none
/// does.
pub proof fn law_faults_heal(s: FaultState)
    ensures
        heals(s, 2) <==> s != FaultState::Fatal,
{
    assert(heals(FaultState::Healthy, 0));
    assert(heals(FaultState::Healthy, 1));
    assert(fault_move(FaultState::Recovering, FaultState::Healthy) && heals(FaultState::Healthy, 0));
    assert(heals(FaultState::Recovering, 1));
    match s {
        FaultState::Healthy => {},
        FaultState::Transient => {
            assert(fault_move(FaultState::Transient, FaultState::Healthy) && heals(FaultState::Healthy, 1));
        },
        FaultState::Recovering => {
            assert(fault_move(FaultState::Recovering, FaultState::Healthy) && heals(FaultState::Healthy, 1));
        },
        FaultState::Recoverable => {
            assert(fault_move(FaultState::Recoverable, FaultState::Recovering) && heals(FaultState::Recovering, 1));
        },
        FaultState::Fatal => {
            assert(!exists|t: FaultState| #[trigger] fault_move(FaultState::Fatal, t) && heals(t, 1));
        },
    }
}

/// How errors classify for recovery: fatal exactly for a determinism
/// violation, a shutdown coordinator, or a task failure classified fatal;
/// transient exactly for a watchdog timeout or a task failure classified
/// transient; every other error, a missing task, a refused state
/// transition, an exhausted resource or a configuration error among them,
/// is recoverable.
pub proof fn law_error_classification(e: CoreError)
    ensures
        classification_of(e) == ErrorClassification::Fatal <==> (e is DeterminismViolation
            || e is CoordinatorShutdown || (e matches CoreError::TaskExecution { classification, .. }
            && classification == ErrorClassification::Fatal)),
        classification_of(e) == ErrorClassification::Transient <==> (e is WatchdogTimeout || (
        e matches CoreError::TaskExecution { classification, .. } && classification
            == ErrorClassification::Transient)),
        e is TaskNotFound || e is InvalidStateTransition || e is ResourceExhaustion || e is ConfigError
            ==> classification_of(e) == ErrorClassification::Recoverable,
{
}

/// The watchdog, for a held task: a task that is not running always
/// passes; a running task passes while its last heartbeat is at most the
/// timeout old (a heartbeat in the future counts as fresh), and one silent
/// for longer is reported as timed out with the configured timeout. With
/// automatic recovery, the timed-out task is failed with the watchdog error
/// and the fault state becomes transient; without it nothing changes.
pub proof fn law_watchdog(p: CoordinatorView, id: u64, now: u64, r: Result<bool, CoreError>, q: CoordinatorView)
    requires
        holds(p, id),
        watchdog_outcome(p, id, now, r, q),
    ensures
        task_of(p, id).state != TaskState::Running ==> r == Ok::<bool, CoreError>(true) && q == p,
        task_of(p, id).state == TaskState::Running ==> (r is Ok <==> now <= task_of(p, id).last_heartbeat
            || now - task_of(p, id).last_heartbeat <= p.timeout_secs),
        r is Ok ==> q == p,
        r is Err ==> (r matches Err(CoreError::WatchdogTimeout { seconds, .. }) && seconds == p.timeout_secs),
        r is Err && p.auto_recovery ==> q.fault_state == FaultState::Transient && task_of(q, id).state
            == TaskState::Failed && task_of(q, id).last_error == Some(watchdog_error())
            && q.tasks.len() == p.tasks.len(),
        r is Err && !p.auto_recovery ==> q == p,
{
}
} // verus!
