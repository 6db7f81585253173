//! Task scheduling under power and thermal constraints: a priority queue
//! that serves the highest priority first and the earliest deadline among
//! equals, with resource validation and deadline-miss accounting.

use crate::clock::unix_time_millis;
use std::collections::BTreeMap;
use vstd::prelude::*;

verus! {

#[derive(Clone, Debug)]
pub enum SchedulerError {
    TaskNotFound { task_id: u64 },
    BudgetExceeded { resource: String, used: u64, limit: u64 },
    DeadlineMissed { task_id: u64, deadline: u64, actual: u64 },
    ThermalThrottle { temp: u64, threshold: u64 },
    InvalidPowerState { reason: String },
    SchedulerError { detail: String },
}

/// Task priority (0 = lowest, 255 = highest).
#[derive(Debug, Clone, Copy, PartialEq, Eq, PartialOrd, Ord, Structural)]
pub struct Priority(pub u8);

impl Priority {
    pub fn new(value: u8) -> (p: Self)
        ensures
            p.0 == value,
    {
        Priority(value)
    }
}

/// Resource budget constraints.
#[derive(Debug, Clone, Copy, PartialEq, Eq, Structural)]
pub struct ResourceBudget {
    pub cpu_cycles: u64,
    pub memory_bytes: u64,
    pub power_milliwatts: u64,
    pub thermal_joules: u64,
}

impl ResourceBudget {
    pub fn new(cpu: u64, memory: u64, power: u64, thermal: u64) -> (b: Self)
        ensures
            b == (ResourceBudget {
                cpu_cycles: cpu,
                memory_bytes: memory,
                power_milliwatts: power,
                thermal_joules: thermal,
            }),
    {
        ResourceBudget {
            cpu_cycles: cpu,
            memory_bytes: memory,
            power_milliwatts: power,
            thermal_joules: thermal,
        }
    }
}

/// A task in the scheduler. Two tasks are equal when their ids are.
#[derive(Debug, Clone, Copy)]
pub struct ScheduledTask {
    pub id: u64,
    pub priority: Priority,
    pub deadline_ms: u64,
    pub budget: ResourceBudget,
    pub created_at: u64,
}

impl PartialEq for ScheduledTask {
    fn eq(&self, other: &Self) -> (r: bool) {
        self.id == other.id
    }
}

impl vstd::std_specs::cmp::PartialEqSpecImpl for ScheduledTask {
    open spec fn obeys_eq_spec() -> bool {
        true
    }

    open spec fn eq_spec(&self, other: &Self) -> bool {
        self.id == other.id
    }
}

impl Eq for ScheduledTask {}

/// `a` is served before `b`: a higher priority, or the same priority and an
/// earlier deadline.
pub open spec fn outranks(a: ScheduledTask, b: ScheduledTask) -> bool {
    a.priority.0 > b.priority.0 || (a.priority.0 == b.priority.0 && a.deadline_ms < b.deadline_ms)
}

fn outranks_exec(a: &ScheduledTask, b: &ScheduledTask) -> (r: bool)
    ensures
        r == outranks(*a, *b),
{
    a.priority.0 > b.priority.0 || (a.priority.0 == b.priority.0 && a.deadline_ms < b.deadline_ms)
}

/// Index `i` holds the task served next from `q`: it outranks every task
/// queued before it and no task queued after it outranks it.
pub open spec fn is_next(q: Seq<ScheduledTask>, i: int) -> bool {
    &&& 0 <= i < q.len()
    &&& forall|j: int| 0 <= j < i ==> #[trigger] outranks(q[i], q[j])
    &&& forall|j: int| i < j < q.len() ==> !#[trigger] outranks(q[j], q[i])
}

#[derive(Debug, Clone, Copy, PartialEq, Eq, Structural)]
pub enum PowerState {
    Active,
    Idle,
    Sleep,
    DeepSleep,
}

impl PowerState {
    pub open spec fn consumption(self) -> u64 {
        match self {
            PowerState::Active => 500,
            PowerState::Idle => 100,
            PowerState::Sleep => 10,
            PowerState::DeepSleep => 1,
        }
    }

    /// Power drawn in this state, in milliwatts.
    pub fn power_consumption_mw(&self) -> (r: u64)
        ensures
            r == self.consumption(),
    {
        match self {
            PowerState::Active => 500,
            PowerState::Idle => 100,
            PowerState::Sleep => 10,
            PowerState::DeepSleep => 1,
        }
    }
}

#[derive(Debug, Clone, Copy, PartialEq, Eq, Structural)]
pub enum ThermalState {
    Normal,
    Warm,
    Hot,
    Critical,
}

impl ThermalState {
    /// The thermal state at `temp` degrees: up to 50 normal, up to 70 warm,
    /// up to 85 hot, above that critical.
    pub open spec fn of(temp: u64) -> ThermalState {
        if temp <= 50 {
            ThermalState::Normal
        } else if temp <= 70 {
            ThermalState::Warm
        } else if temp <= 85 {
            ThermalState::Hot
        } else {
            ThermalState::Critical
        }
    }

    pub fn from_temperature(temp: u64) -> (t: Self)
        ensures
            t == ThermalState::of(temp),
    {
        if temp <= 50 {
            ThermalState::Normal
        } else if temp <= 70 {
            ThermalState::Warm
        } else if temp <= 85 {
            ThermalState::Hot
        } else {
            ThermalState::Critical
        }
    }

    /// Tasks may run in every state but the critical one.
    pub fn can_execute(&self) -> (r: bool)
        ensures
            r == (*self != ThermalState::Critical),
    {
        match self {
            ThermalState::Critical => false,
            _ => true,
        }
    }
}

/// The power limit a task's budget must respect, in milliwatts.
pub const POWER_LIMIT_MW: u64 = 1000;

/// The temperature above which no task is served.
pub const THERMAL_THRESHOLD: u64 = 85;

/// Scheduler statistics.
#[derive(Debug, Clone, Copy)]
pub struct SchedulerStats {
    pub queue_size: usize,
    pub completed: usize,
    pub deadline_misses: usize,
    pub power_state: PowerState,
    pub thermal_state: ThermalState,
    pub temperature: u64,
}

/// The mathematical state of a scheduler.
pub struct SchedulerView {
    /// Tasks waiting to be served, in the order they were queued.
    pub queue: Seq<ScheduledTask>,
    /// Tasks served from the queue and not yet completed, in serving order.
    pub dispatched: Seq<ScheduledTask>,
    pub current_task: Option<u64>,
    pub used_resources: Map<u64, ResourceBudget>,
    pub power_state: PowerState,
    pub thermal_state: ThermalState,
    pub temperature: u64,
    pub completed: Seq<u64>,
    /// (task, deadline, elapsed) for each completion past its deadline.
    pub deadline_misses: Seq<(u64, u64, u64)>,
}

impl SchedulerView {
    /// The first task with `id`, among the queued and then the dispatched.
    pub open spec fn find(self, id: u64) -> Option<ScheduledTask> {
        if exists|i: int| 0 <= i < self.queue.len() && #[trigger] self.queue[i].id == id {
            Some(self.queue[first_with_id(self.queue, id)])
        } else if exists|i: int| 0 <= i < self.dispatched.len() && #[trigger] self.dispatched[i].id == id {
            Some(self.dispatched[first_with_id(self.dispatched, id)])
        } else {
            None
        }
    }
}

/// The index of the first task with `id` in `s`.
pub open spec fn first_with_id(s: Seq<ScheduledTask>, id: u64) -> int {
    choose|i: int|
        0 <= i < s.len() && s[i].id == id && forall|j: int| 0 <= j < i ==> #[trigger] s[j].id != id
}

proof fn lemma_first_with_id(s: Seq<ScheduledTask>, id: u64, i: int)
    requires
        0 <= i < s.len(),
        s[i].id == id,
        forall|j: int| 0 <= j < i ==> #[trigger] s[j].id != id,
    ensures
        first_with_id(s, id) == i,
{
    let k = first_with_id(s, id);
    assert(0 <= k < s.len() && s[k].id == id && forall|j: int| 0 <= j < k ==> #[trigger] s[j].id != id);
    if k < i {
        assert(s[k].id != id);
    } else if k > i {
        assert(s[i].id != id);
    }
}

/// The task scheduler.
pub struct TaskScheduler {
    queue: Vec<ScheduledTask>,
    dispatched: Vec<ScheduledTask>,
    current_task: Option<u64>,
    used_resources: BTreeMap<u64, ResourceBudget>,
    power_state: PowerState,
    thermal_state: ThermalState,
    temperature: u64,
    completed: Vec<u64>,
    deadline_misses: Vec<(u64, u64, u64)>,
}

impl View for TaskScheduler {
    type V = SchedulerView;

    closed spec fn view(&self) -> SchedulerView {
        SchedulerView {
            queue: self.queue@,
            dispatched: self.dispatched@,
            current_task: self.current_task,
            used_resources: self.used_resources@,
            power_state: self.power_state,
            thermal_state: self.thermal_state,
            temperature: self.temperature,
            completed: self.completed@,
            deadline_misses: self.deadline_misses@,
        }
    }
}

impl TaskScheduler {
    /// An idle scheduler at 25 degrees in the active power state.
    pub fn new() -> (s: Self)
        ensures
            s@ == (SchedulerView {
                queue: Seq::empty(),
                dispatched: Seq::empty(),
                current_task: None,
                used_resources: Map::empty(),
                power_state: PowerState::Active,
                thermal_state: ThermalState::Normal,
                temperature: 25,
                completed: Seq::empty(),
                deadline_misses: Seq::empty(),
            }),
    {
        TaskScheduler {
            queue: Vec::new(),
            dispatched: Vec::new(),
            current_task: None,
            used_resources: BTreeMap::new(),
            power_state: PowerState::Active,
            thermal_state: ThermalState::Normal,
            temperature: 25,
            completed: Vec::new(),
            deadline_misses: Vec::new(),
        }
    }

    /// Queues a task created at `now` milliseconds.
    pub fn queue_task_at(&mut self, task_id: u64, priority: u8, deadline_ms: u64, budget: ResourceBudget, now: u64) -> (r: Result<(), SchedulerError>)
        ensures
            r is Ok,
            final(self)@ == (SchedulerView {
                queue: old(self)@.queue.push(
                    ScheduledTask {
                        id: task_id,
                        priority: Priority(priority),
                        deadline_ms,
                        budget,
                        created_at: now,
                    },
                ),
                ..old(self)@
            }),
    {
        let task = ScheduledTask {
            id: task_id,
            priority: Priority::new(priority),
            deadline_ms,
            budget,
            created_at: now,
        };
        self.queue.push(task);
        Ok(())
    }

    /// Queues a task stamped with the current time in milliseconds.
    pub fn queue_task(&mut self, task_id: u64, priority: u8, deadline_ms: u64, budget: ResourceBudget) -> (r: Result<(), SchedulerError>)
        ensures
            r is Ok,
            final(self)@ == (SchedulerView {
                queue: old(self)@.queue.push(
                    ScheduledTask {
                        id: task_id,
                        priority: Priority(priority),
                        deadline_ms,
                        budget,
                        created_at: final(self)@.queue.last().created_at,
                    },
                ),
                ..old(self)@
            }),
    {
        let now = unix_time_millis();
        self.queue_task_at(task_id, priority, deadline_ms, budget, now)
    }

    /// Serves the next task: refused while the thermal state is critical,
    /// `None` when nothing waits, else the task that `is_next` names, which
    /// moves from the queue to the dispatched tasks.
    pub fn next_task(&mut self) -> (r: Result<Option<ScheduledTask>, SchedulerError>)
        ensures
            old(self)@.thermal_state == ThermalState::Critical ==> {
                &&& r matches Err(SchedulerError::ThermalThrottle { temp, threshold })
                &&& temp == old(self)@.temperature && threshold == THERMAL_THRESHOLD
                &&& final(self)@ == old(self)@
            },
            old(self)@.thermal_state != ThermalState::Critical && old(self)@.queue.len() == 0 ==> {
                &&& r matches Ok(None)
                &&& final(self)@ == old(self)@
            },
            old(self)@.thermal_state != ThermalState::Critical && old(self)@.queue.len() > 0 ==> {
                exists|i: int|
                    {
                        &&& is_next(old(self)@.queue, i)
                        &&& r == Ok::<Option<ScheduledTask>, SchedulerError>(Some(old(self)@.queue[i]))
                        &&& final(self)@ == (SchedulerView {
                            queue: old(self)@.queue.remove(i),
                            dispatched: old(self)@.dispatched.push(old(self)@.queue[i]),
                            ..old(self)@
                        })
                    }
            },
    {
        if !self.thermal_state.can_execute() {
            return Err(
                SchedulerError::ThermalThrottle {
                    temp: self.temperature,
                    threshold: THERMAL_THRESHOLD,
                },
            );
        }
        if self.queue.len() == 0 {
            return Ok(None);
        }
        let mut best: usize = 0;
        let mut i: usize = 1;
        while i < self.queue.len()
            invariant
                self == old(self),
                0 <= best < i <= self.queue@.len(),
                forall|j: int| 0 <= j < best ==> #[trigger] outranks(self.queue@[best as int], self.queue@[j]),
                forall|j: int| best < j < i ==> !#[trigger] outranks(self.queue@[j], self.queue@[best as int]),
            decreases self.queue@.len() - i,
        {
            if outranks_exec(&self.queue[i], &self.queue[best]) {
                proof {
                    let q = self.queue@;
                    assert forall|j: int| 0 <= j < i implies #[trigger] outranks(q[i as int], q[j]) by {
                        if j < best {
                            assert(outranks(q[best as int], q[j]));
                        } else if j > best {
                            assert(!outranks(q[j], q[best as int]));
                        }
                    }
                }
                best = i;
            }
            i = i + 1;
        }
        let task = self.queue.remove(best);
        self.dispatched.push(task);
        proof {
            assert(is_next(old(self)@.queue, best as int));
        }
        Ok(Some(task))
    }

    /// Finds the task with `task_id` among the queued, then the dispatched.
    fn find(&self, task_id: u64) -> (r: Option<ScheduledTask>)
        ensures
            r == self@.find(task_id),
    {
        let mut i: usize = 0;
        while i < self.queue.len()
            invariant
                i <= self.queue@.len(),
                forall|j: int| 0 <= j < i ==> #[trigger] self.queue@[j].id != task_id,
            decreases self.queue@.len() - i,
        {
            if self.queue[i].id == task_id {
                proof {
                    lemma_first_with_id(self.queue@, task_id, i as int);
                    assert(self@.queue[i as int].id == task_id);
                }
                return Some(self.queue[i]);
            }
            i = i + 1;
        }
        let mut k: usize = 0;
        while k < self.dispatched.len()
            invariant
                k <= self.dispatched@.len(),
                forall|j: int| 0 <= j < self.queue@.len() ==> #[trigger] self.queue@[j].id != task_id,
                forall|j: int| 0 <= j < k ==> #[trigger] self.dispatched@[j].id != task_id,
            decreases self.dispatched@.len() - k,
        {
            if self.dispatched[k].id == task_id {
                proof {
                    lemma_first_with_id(self.dispatched@, task_id, k as int);
                    assert(self@.dispatched[k as int].id == task_id);
                }
                return Some(self.dispatched[k]);
            }
            k = k + 1;
        }
        None
    }

    /// Starts a known task once its budget passes validation.
    pub fn start_task(&mut self, task_id: u64) -> (r: Result<(), SchedulerError>)
        ensures
            old(self)@.find(task_id) is None ==> {
                &&& r matches Err(SchedulerError::TaskNotFound { task_id: t }) && t == task_id
                &&& final(self)@ == old(self)@
            },
            old(self)@.find(task_id) matches Some(task) ==> if task.budget.power_milliwatts
                > POWER_LIMIT_MW {
                &&& r matches Err(SchedulerError::BudgetExceeded { resource, used, limit })
                &&& resource@ == "power"@ && used == task.budget.power_milliwatts && limit
                    == POWER_LIMIT_MW
                &&& final(self)@ == old(self)@
            } else {
                &&& r is Ok
                &&& final(self)@ == (SchedulerView {
                    current_task: Some(task_id),
                    used_resources: old(self)@.used_resources.insert(task_id, task.budget),
                    ..old(self)@
                })
            },
    {
        match self.find(task_id) {
            Some(task) => {
                if let Err(e) = Self::validate_resources(&task.budget) {
                    return Err(e);
                }
                self.current_task = Some(task_id);
                self.used_resources.insert(task_id, task.budget);
                Ok(())
            },
            None => Err(SchedulerError::TaskNotFound { task_id }),
        }
    }

    /// Completes a task after `elapsed_ms`: a known task past its deadline
    /// is recorded as a miss; a dispatched task leaves the dispatched ones.
    pub fn complete_task(&mut self, task_id: u64, elapsed_ms: u64) -> (r: Result<(), SchedulerError>)
        ensures
            r is Ok,
            ({
                let before = old(self)@;
                let misses = match before.find(task_id) {
                    Some(t) => if elapsed_ms > t.deadline_ms {
                        before.deadline_misses.push((task_id, t.deadline_ms, elapsed_ms))
                    } else {
                        before.deadline_misses
                    },
                    None => before.deadline_misses,
                };
                final(self)@ == (SchedulerView {
                    dispatched: before.dispatched.filter(|t: ScheduledTask| t.id != task_id),
                    current_task: None,
                    used_resources: before.used_resources.remove(task_id),
                    completed: before.completed.push(task_id),
                    deadline_misses: misses,
                    ..before
                })
            }),
    {
        if let Some(task) = self.find(task_id) {
            if elapsed_ms > task.deadline_ms {
                self.deadline_misses.push((task_id, task.deadline_ms, elapsed_ms));
            }
        }
        let mut kept: Vec<ScheduledTask> = Vec::new();
        let mut i: usize = 0;
        while i < self.dispatched.len()
            invariant
                i <= self.dispatched@.len(),
                self.dispatched@ == old(self)@.dispatched,
                kept@ == self.dispatched@.take(i as int).filter(|t: ScheduledTask| t.id != task_id),
            decreases self.dispatched@.len() - i,
        {
            let t = self.dispatched[i];
            proof {
                reveal_with_fuel(Seq::filter, 1);
                assert(self.dispatched@.take(i + 1).drop_last() =~= self.dispatched@.take(i as int));
            }
            if t.id != task_id {
                kept.push(t);
            }
            i = i + 1;
        }
        proof {
            assert(self.dispatched@.take(i as int) =~= self.dispatched@);
        }
        self.dispatched = kept;
        self.current_task = None;
        self.used_resources.remove(&task_id);
        self.completed.push(task_id);
        Ok(())
    }

    /// Sets the temperature and the thermal state it implies.
    pub fn set_temperature(&mut self, temp: u64)
        ensures
            final(self)@ == (SchedulerView {
                temperature: temp,
                thermal_state: ThermalState::of(temp),
                ..old(self)@
            }),
    {
        self.temperature = temp;
        self.thermal_state = ThermalState::from_temperature(temp);
    }

    pub fn get_temperature(&self) -> (r: u64)
        ensures
            r == self@.temperature,
    {
        self.temperature
    }

    pub fn get_thermal_state(&self) -> (r: ThermalState)
        ensures
            r == self@.thermal_state,
    {
        self.thermal_state
    }

    pub fn set_power_state(&mut self, state: PowerState) -> (r: Result<(), SchedulerError>)
        ensures
            r is Ok,
            final(self)@ == (SchedulerView { power_state: state, ..old(self)@ }),
    {
        self.power_state = state;
        Ok(())
    }

    pub fn get_power_state(&self) -> (r: PowerState)
        ensures
            r == self@.power_state,
    {
        self.power_state
    }

    /// Tasks waiting in the queue.
    pub fn queue_size(&self) -> (r: usize)
        ensures
            r == self@.queue.len(),
    {
        self.queue.len()
    }

    pub fn completed_count(&self) -> (r: usize)
        ensures
            r == self@.completed.len(),
    {
        self.completed.len()
    }

    pub fn deadline_miss_count(&self) -> (r: usize)
        ensures
            r == self@.deadline_misses.len(),
    {
        self.deadline_misses.len()
    }

    pub fn get_deadline_misses(&self) -> (r: Vec<(u64, u64, u64)>)
        ensures
            r@ == self@.deadline_misses,
    {
        let mut out: Vec<(u64, u64, u64)> = Vec::new();
        let mut i: usize = 0;
        while i < self.deadline_misses.len()
            invariant
                i <= self.deadline_misses@.len(),
                out@ == self.deadline_misses@.take(i as int),
            decreases self.deadline_misses@.len() - i,
        {
            out.push(self.deadline_misses[i]);
            i = i + 1;
            proof {
                assert(out@ =~= self.deadline_misses@.take(i as int));
            }
        }
        proof {
            assert(out@ =~= self.deadline_misses@);
        }
        out
    }

    /// A budget may draw at most `POWER_LIMIT_MW` milliwatts.
    fn validate_resources(budget: &ResourceBudget) -> (r: Result<(), SchedulerError>)
        ensures
            budget.power_milliwatts <= POWER_LIMIT_MW ==> r is Ok,
            budget.power_milliwatts > POWER_LIMIT_MW ==> (r matches Err(
                SchedulerError::BudgetExceeded { resource, used, limit },
            ) && resource@ == "power"@ && used == budget.power_milliwatts && limit
                == POWER_LIMIT_MW),
    {
        if budget.power_milliwatts > POWER_LIMIT_MW {
            return Err(
                SchedulerError::BudgetExceeded {
                    resource: "power".to_owned(),
                    used: budget.power_milliwatts,
                    limit: POWER_LIMIT_MW,
                },
            );
        }
        Ok(())
    }

    pub fn stats(&self) -> (st: SchedulerStats)
        ensures
            st.queue_size == self@.queue.len(),
            st.completed == self@.completed.len(),
            st.deadline_misses == self@.deadline_misses.len(),
            st.power_state == self@.power_state,
            st.thermal_state == self@.thermal_state,
            st.temperature == self@.temperature,
    {
        SchedulerStats {
            queue_size: self.queue.len(),
            completed: self.completed.len(),
            deadline_misses: self.deadline_misses.len(),
            power_state: self.power_state,
            thermal_state: self.thermal_state,
            temperature: self.temperature,
        }
    }
}


/// The task served next has the highest priority in the queue and, among
/// tasks of that priority, the earliest deadline; among tasks equal in both
/// it was queued first.
pub proof fn law_next_task_order(q: Seq<ScheduledTask>, i: int)
    requires
        is_next(q, i),
    ensures
        forall|j: int| 0 <= j < q.len() ==> #[trigger] q[j].priority.0 <= q[i].priority.0,
        forall|j: int|
            0 <= j < q.len() && #[trigger] q[j].priority.0 == q[i].priority.0 ==> q[i].deadline_ms
                <= q[j].deadline_ms,
        forall|j: int|
            0 <= j < i ==> !(#[trigger] q[j].priority.0 == q[i].priority.0 && q[j].deadline_ms
                == q[i].deadline_ms),
{
    assert forall|j: int| 0 <= j < q.len() implies #[trigger] q[j].priority.0 <= q[i].priority.0 by {
        if j < i {
            assert(outranks(q[i], q[j]));
        } else if j > i {
            assert(!outranks(q[j], q[i]));
        }
    }
    assert forall|j: int|
        0 <= j < q.len() && #[trigger] q[j].priority.0 == q[i].priority.0 implies q[i].deadline_ms
            <= q[j].deadline_ms by {
        if j < i {
            assert(outranks(q[i], q[j]));
        } else if j > i {
            assert(!outranks(q[j], q[i]));
        }
    }
    assert forall|j: int| 0 <= j < i implies !(#[trigger] q[j].priority.0 == q[i].priority.0
        && q[j].deadline_ms == q[i].deadline_ms) by {
        assert(outranks(q[i], q[j]));
    }
}

/// Only a critical thermal state, above `THERMAL_THRESHOLD` degrees, stops
/// tasks from being served.
pub proof fn law_thermal_threshold(temp: u64)
    ensures
        (ThermalState::of(temp) == ThermalState::Critical) == (temp > THERMAL_THRESHOLD),
{
}
} // verus!
