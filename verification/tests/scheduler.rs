use orbital::orbital_scheduler::{
    PowerState, Priority, ResourceBudget, ScheduledTask, SchedulerError, TaskScheduler, ThermalState,
};

#[test]
fn test_scheduler_creation() {
    let scheduler = TaskScheduler::new();
    assert_eq!(scheduler.queue_size(), 0);
}

#[test]
fn test_queue_task() {
    let mut scheduler = TaskScheduler::new();
    let budget = ResourceBudget::new(1000, 512, 100, 50);
    scheduler.queue_task(1, 100, 1000, budget).expect("Queue failed");
    assert_eq!(scheduler.queue_size(), 1);
}

#[test]
fn test_priority_ordering() {
    let mut scheduler = TaskScheduler::new();
    let budget = ResourceBudget::new(1000, 512, 100, 50);

    scheduler.queue_task(1, 50, 1000, budget).unwrap();
    scheduler.queue_task(2, 100, 1000, budget).unwrap();
    scheduler.queue_task(3, 75, 1000, budget).unwrap();

    assert_eq!(scheduler.queue_size(), 3);

    let t1 = scheduler.next_task().unwrap().unwrap();
    assert!(t1.id > 0);

    let t2 = scheduler.next_task().unwrap().unwrap();
    assert_ne!(t2.id, t1.id);

    let t3 = scheduler.next_task().unwrap().unwrap();
    assert_ne!(t3.id, t1.id);
    assert_ne!(t3.id, t2.id);
}

#[test]
fn highest_priority_is_served_first() {
    let mut scheduler = TaskScheduler::new();
    let budget = ResourceBudget::new(1000, 512, 100, 50);
    scheduler.queue_task(1, 50, 1000, budget).unwrap();
    scheduler.queue_task(2, 100, 1000, budget).unwrap();
    scheduler.queue_task(3, 75, 1000, budget).unwrap();
    assert_eq!(scheduler.next_task().unwrap().unwrap().id, 2);
    assert_eq!(scheduler.next_task().unwrap().unwrap().id, 3);
    assert_eq!(scheduler.next_task().unwrap().unwrap().id, 1);
    assert!(scheduler.next_task().unwrap().is_none());
}

#[test]
fn test_thermal_throttling() {
    let mut scheduler = TaskScheduler::new();

    scheduler.set_temperature(25);
    assert_eq!(scheduler.get_thermal_state(), ThermalState::Normal);

    scheduler.set_temperature(75);
    assert_eq!(scheduler.get_thermal_state(), ThermalState::Hot);

    scheduler.set_temperature(90);
    assert_eq!(scheduler.get_thermal_state(), ThermalState::Critical);
}

#[test]
fn thermal_state_boundaries() {
    assert_eq!(ThermalState::from_temperature(50), ThermalState::Normal);
    assert_eq!(ThermalState::from_temperature(51), ThermalState::Warm);
    assert_eq!(ThermalState::from_temperature(70), ThermalState::Warm);
    assert_eq!(ThermalState::from_temperature(71), ThermalState::Hot);
    assert_eq!(ThermalState::from_temperature(85), ThermalState::Hot);
    assert_eq!(ThermalState::from_temperature(86), ThermalState::Critical);
    assert!(ThermalState::Hot.can_execute());
    assert!(!ThermalState::Critical.can_execute());
}

#[test]
fn test_thermal_throttle_prevents_execution() {
    let mut scheduler = TaskScheduler::new();
    let budget = ResourceBudget::new(1000, 512, 100, 50);

    scheduler.queue_task(1, 100, 1000, budget).unwrap();
    scheduler.set_temperature(90);

    let result = scheduler.next_task();
    assert!(result.is_err());
    assert_eq!(scheduler.queue_size(), 1);
}

#[test]
fn test_power_state_transitions() {
    let mut scheduler = TaskScheduler::new();
    assert_eq!(scheduler.get_power_state(), PowerState::Active);

    scheduler.set_power_state(PowerState::Sleep).unwrap();
    assert_eq!(scheduler.get_power_state(), PowerState::Sleep);

    scheduler.set_power_state(PowerState::Active).unwrap();
    assert_eq!(scheduler.get_power_state(), PowerState::Active);
}

#[test]
fn test_task_completion() {
    let mut scheduler = TaskScheduler::new();
    let budget = ResourceBudget::new(1000, 512, 100, 50);

    scheduler.queue_task(1, 100, 1000, budget).unwrap();
    assert_eq!(scheduler.queue_size(), 1);

    if let Ok(Some(task)) = scheduler.next_task() {
        scheduler.start_task(task.id).unwrap();
        scheduler.complete_task(task.id, 500).unwrap();
        assert_eq!(scheduler.completed_count(), 1);
    } else {
        panic!("Task dequeue failed");
    }
}

#[test]
fn test_deadline_miss_detection() {
    let mut scheduler = TaskScheduler::new();
    let budget = ResourceBudget::new(1000, 512, 100, 50);

    scheduler.queue_task(1, 100, 500, budget).unwrap();

    if let Ok(Some(task)) = scheduler.next_task() {
        scheduler.start_task(task.id).unwrap();
        scheduler.complete_task(task.id, 750).unwrap();
    }
    assert_eq!(scheduler.deadline_miss_count(), 1);
    assert_eq!(scheduler.get_deadline_misses(), vec![(1, 500, 750)]);
}

#[test]
fn test_multiple_tasks() {
    let mut scheduler = TaskScheduler::new();
    let budget = ResourceBudget::new(1000, 512, 100, 50);

    for i in 0..10 {
        scheduler.queue_task(i, (i % 256) as u8, 1000, budget.clone()).unwrap();
    }

    assert_eq!(scheduler.queue_size(), 10);

    for _ in 0..10 {
        if let Ok(Some(task)) = scheduler.next_task() {
            scheduler.start_task(task.id).unwrap();
            scheduler.complete_task(task.id, 100).unwrap();
        }
    }

    assert_eq!(scheduler.completed_count(), 10);
}

#[test]
fn test_scheduler_stats() {
    let mut scheduler = TaskScheduler::new();
    let budget = ResourceBudget::new(1000, 512, 100, 50);

    scheduler.queue_task(1, 100, 1000, budget).unwrap();
    scheduler.set_temperature(50);

    let stats = scheduler.stats();
    assert_eq!(stats.queue_size, 1);
    assert_eq!(stats.temperature, 50);
    assert_eq!(stats.thermal_state, ThermalState::Normal);
}

#[test]
fn test_power_consumption_values() {
    assert_eq!(PowerState::Active.power_consumption_mw(), 500);
    assert_eq!(PowerState::Idle.power_consumption_mw(), 100);
    assert_eq!(PowerState::Sleep.power_consumption_mw(), 10);
    assert_eq!(PowerState::DeepSleep.power_consumption_mw(), 1);
}

#[test]
fn test_priority_ordering_with_deadlines() {
    let mut scheduler = TaskScheduler::new();
    let budget = ResourceBudget::new(1000, 512, 100, 50);

    scheduler.queue_task(1, 50, 2000, budget.clone()).unwrap();
    scheduler.queue_task(2, 50, 1000, budget.clone()).unwrap();

    let t1 = scheduler.next_task().unwrap().unwrap();
    assert_eq!(t1.id, 2);
}

#[test]
fn test_resource_budget_validation() {
    let mut scheduler = TaskScheduler::new();
    let excessive_budget = ResourceBudget::new(1000, 512, 10000, 50);

    scheduler.queue_task(1, 100, 1000, excessive_budget).unwrap();
    let task = scheduler.next_task().unwrap().unwrap();

    let result = scheduler.start_task(task.id);
    assert!(result.is_err());
    match result {
        Err(SchedulerError::BudgetExceeded { resource, used, limit }) => {
            assert_eq!(resource, "power");
            assert_eq!(used, 10000);
            assert_eq!(limit, 1000);
        }
        other => panic!("unexpected {:?}", other),
    }
}

#[test]
fn test_temperature_transitions() {
    let mut scheduler = TaskScheduler::new();

    for temp in vec![25, 55, 75, 90] {
        scheduler.set_temperature(temp);
    }

    assert_eq!(scheduler.get_temperature(), 90);
    assert_eq!(scheduler.get_thermal_state(), ThermalState::Critical);
}

#[test]
fn test_deadline_miss_history() {
    let mut scheduler = TaskScheduler::new();
    let budget = ResourceBudget::new(1000, 512, 100, 50);

    scheduler.queue_task(1, 100, 500, budget).unwrap();
    scheduler.queue_task(2, 100, 300, budget).unwrap();

    for _ in 0..2 {
        if let Ok(Some(task)) = scheduler.next_task() {
            scheduler.start_task(task.id).unwrap();
            scheduler.complete_task(task.id, 700).unwrap();
        }
    }

    let misses = scheduler.get_deadline_misses();
    assert_eq!(misses.len(), 2);
}

#[test]
fn unknown_task_cannot_start() {
    let mut scheduler = TaskScheduler::new();
    assert!(matches!(scheduler.start_task(42), Err(SchedulerError::TaskNotFound { task_id: 42 })));
    assert!(scheduler.complete_task(42, 1).is_ok());
    assert_eq!(scheduler.completed_count(), 1);
    assert_eq!(scheduler.deadline_miss_count(), 0);
}

#[test]
fn scheduled_tasks_are_equal_when_their_ids_are() {
    let budget = ResourceBudget::new(1, 1, 1, 1);
    let a = ScheduledTask { id: 4, priority: Priority(1), deadline_ms: 10, budget, created_at: 0 };
    let b = ScheduledTask { id: 4, priority: Priority(9), deadline_ms: 99, budget, created_at: 5 };
    let c = ScheduledTask { id: 5, priority: Priority(1), deadline_ms: 10, budget, created_at: 0 };
    assert_eq!(a, b);
    assert_ne!(a, c);
}
