use kambo_hive::scheduler::{DistributionStrategy, NotAssigned, TaskManager, TaskStatus};
use kambo_hive::task::Task;

fn task(id: u128, run: u32) -> Task {
    Task { id, graph_id: "g".to_string(), run_number: run, ag_config: "cfg".to_string() }
}

#[test]
fn new_task_keeps_its_fields_and_gets_a_v4_id() {
    let t = Task::new("graph".to_string(), 7, "{\"pop\":10}".to_string());
    assert_eq!(t.graph_id, "graph");
    assert_eq!(t.run_number, 7);
    assert_eq!(t.ag_config, "{\"pop\":10}");
    let id = uuid::Uuid::from_u128(t.id);
    assert_eq!(id.get_version_num(), 4);
    assert_eq!(t.id & 0x0000_0000_0000_F000_C000_0000_0000_0000, 0x0000_0000_0000_4000_8000_0000_0000_0000);
}

#[test]
fn new_tasks_get_different_ids() {
    let a = Task::new("g".to_string(), 0, String::new());
    let b = Task::new("g".to_string(), 0, String::new());
    assert_ne!(a.id, b.id);
}

#[test]
fn cloned_task_is_the_same_task() {
    let t = task(5, 2);
    let c = t.clone();
    assert_eq!(c.id, 5);
    assert_eq!(c.graph_id, "g");
    assert_eq!(c.run_number, 2);
    assert_eq!(c.ag_config, "cfg");
}

#[test]
fn empty_scheduler_has_nothing() {
    let mut tm = TaskManager::new(DistributionStrategy::Fifo);
    assert_eq!(tm.get_total_tasks(), 0);
    assert_eq!(tm.get_completed_tasks_count(), 0);
    assert!(tm.get_tasks_status().is_empty());
    assert!(tm.get_next_task(1).is_none());
}

#[test]
fn zero_runs_is_a_no_op() {
    let mut tm = TaskManager::new(DistributionStrategy::Fifo);
    tm.add_new_graph_tasks("g1", 0, "c");
    assert_eq!(tm.get_total_tasks(), 0);
    assert!(tm.get_next_task(1).is_none());
}

#[test]
fn graph_tasks_are_numbered_and_pending() {
    let mut tm = TaskManager::new(DistributionStrategy::Fifo);
    tm.add_new_graph_tasks("g1", 4, "conf");
    assert_eq!(tm.get_total_tasks(), 4);
    assert_eq!(tm.count_with_status(TaskStatus::Pending), 4);
    assert_eq!(tm.count_with_status(TaskStatus::Assigned), 0);
    for expected in 0..4u32 {
        let t = tm.get_next_task(9).unwrap();
        assert_eq!(t.run_number, expected);
        assert_eq!(t.graph_id, "g1");
        assert_eq!(t.ag_config, "conf");
        assert_eq!(tm.get_tasks_status()[&t.id], TaskStatus::Assigned);
    }
    assert!(tm.get_next_task(9).is_none());
    assert_eq!(tm.count_with_status(TaskStatus::Assigned), 4);
    assert_eq!(tm.count_with_status(TaskStatus::Pending), 0);
}

#[test]
fn fifo_hands_out_oldest_first() {
    let mut tm = TaskManager::new(DistributionStrategy::Fifo);
    tm.enqueue_task(task(1, 0));
    tm.enqueue_task(task(2, 1));
    tm.enqueue_task(task(3, 2));
    assert_eq!(tm.get_next_task(7).unwrap().id, 1);
    assert_eq!(tm.get_next_task(7).unwrap().id, 2);
    assert_eq!(tm.get_next_task(7).unwrap().id, 3);
    assert!(tm.get_next_task(7).is_none());
}

#[test]
fn lifo_hands_out_newest_first() {
    let mut tm = TaskManager::new(DistributionStrategy::Lifo);
    tm.enqueue_task(task(1, 0));
    tm.enqueue_task(task(2, 1));
    tm.enqueue_task(task(3, 2));
    assert_eq!(tm.get_next_task(7).unwrap().id, 3);
    assert_eq!(tm.get_next_task(7).unwrap().id, 2);
    assert_eq!(tm.get_next_task(7).unwrap().id, 1);
    assert!(tm.get_next_task(7).is_none());
}

#[test]
fn random_hands_out_every_task_once() {
    let mut tm = TaskManager::new(DistributionStrategy::Random);
    for id in 0..50u128 {
        tm.enqueue_task(task(id, id as u32));
    }
    let mut seen = vec![false; 50];
    for _ in 0..50 {
        let t = tm.get_next_task(1).unwrap();
        assert!(!seen[t.id as usize]);
        seen[t.id as usize] = true;
    }
    assert!(seen.iter().all(|s| *s));
    assert!(tm.get_next_task(1).is_none());
}

#[test]
fn random_first_pick_is_spread_evenly() {
    let trials = 4000;
    let mut hits = [0u32; 4];
    for _ in 0..trials {
        let mut tm = TaskManager::new(DistributionStrategy::Random);
        for id in 0..4u128 {
            tm.enqueue_task(task(id, id as u32));
        }
        let t = tm.get_next_task(1).unwrap();
        hits[t.id as usize] += 1;
    }
    for h in hits {
        let share = h as f64 / trials as f64;
        assert!(share > 0.15 && share < 0.35, "share {share}");
    }
}

#[test]
fn assign_pending_at_takes_the_named_position() {
    let mut tm = TaskManager::new(DistributionStrategy::Fifo);
    tm.enqueue_task(task(10, 0));
    tm.enqueue_task(task(20, 1));
    tm.enqueue_task(task(30, 2));
    assert!(tm.assign_pending_at(3, 1).is_none());
    assert_eq!(tm.count_with_status(TaskStatus::Pending), 3);
    assert_eq!(tm.assign_pending_at(1, 1).unwrap().id, 20);
    assert_eq!(tm.get_tasks_status()[&20], TaskStatus::Assigned);
    assert_eq!(tm.get_next_task(1).unwrap().id, 10);
    assert_eq!(tm.get_next_task(1).unwrap().id, 30);
}

#[test]
fn interleaved_callers_never_share_a_task() {
    let mut tm = TaskManager::new(DistributionStrategy::Fifo);
    tm.add_new_graph_tasks("g", 6, "c");
    let mut ids = Vec::new();
    for turn in 0..6u128 {
        let t = tm.get_next_task(turn % 2).unwrap();
        assert!(!ids.contains(&t.id));
        ids.push(t.id);
    }
    assert!(tm.get_next_task(0).is_none());
}

#[test]
fn completion_succeeds_exactly_once() {
    let mut tm = TaskManager::new(DistributionStrategy::Fifo);
    tm.enqueue_task(task(1, 0));
    let t = tm.get_next_task(7).unwrap();
    assert_eq!(tm.mark_task_completed(t.id), Ok(()));
    assert_eq!(tm.get_tasks_status()[&1], TaskStatus::Completed);
    assert_eq!(tm.get_completed_tasks_count(), 1);
    assert_eq!(tm.mark_task_completed(t.id), Err(NotAssigned { task_id: 1 }));
    assert_eq!(tm.get_tasks_status()[&1], TaskStatus::Completed);
    assert_eq!(tm.get_completed_tasks_count(), 1);
}

#[test]
fn completion_of_unknown_or_pending_task_is_refused() {
    let mut tm = TaskManager::new(DistributionStrategy::Fifo);
    tm.enqueue_task(task(1, 0));
    assert_eq!(tm.mark_task_completed(99), Err(NotAssigned { task_id: 99 }));
    assert_eq!(tm.mark_task_completed(1), Err(NotAssigned { task_id: 1 }));
    assert_eq!(tm.get_tasks_status()[&1], TaskStatus::Pending);
    assert_eq!(tm.get_total_tasks(), 1);
}

#[test]
fn failed_task_is_retried_first_under_fifo() {
    let mut tm = TaskManager::new(DistributionStrategy::Fifo);
    tm.enqueue_task(task(1, 0));
    tm.enqueue_task(task(2, 1));
    tm.enqueue_task(task(3, 2));
    let t = tm.get_next_task(7).unwrap();
    assert_eq!(t.id, 1);
    tm.mark_task_failed(1);
    assert_eq!(tm.get_tasks_status()[&1], TaskStatus::Failed);
    let again = tm.get_next_task(8).unwrap();
    assert_eq!(again.id, 1);
    assert_eq!(again.run_number, 0);
    assert_eq!(tm.get_next_task(8).unwrap().id, 2);
}

#[test]
fn failed_task_goes_to_the_front_under_lifo() {
    let mut tm = TaskManager::new(DistributionStrategy::Lifo);
    tm.enqueue_task(task(1, 0));
    let t = tm.get_next_task(7).unwrap();
    tm.mark_task_failed(t.id);
    assert_eq!(tm.get_next_task(7).unwrap().id, 1);

    let mut tm = TaskManager::new(DistributionStrategy::Lifo);
    tm.enqueue_task(task(1, 0));
    tm.enqueue_task(task(2, 1));
    let t = tm.get_next_task(7).unwrap();
    assert_eq!(t.id, 2);
    tm.mark_task_failed(2);
    assert_eq!(tm.get_next_task(7).unwrap().id, 1);
    assert_eq!(tm.get_next_task(7).unwrap().id, 2);
}

#[test]
fn failing_a_task_nobody_holds_changes_nothing() {
    let mut tm = TaskManager::new(DistributionStrategy::Fifo);
    tm.enqueue_task(task(1, 0));
    tm.mark_task_failed(1);
    tm.mark_task_failed(42);
    assert_eq!(tm.get_total_tasks(), 1);
    assert_eq!(tm.get_tasks_status()[&1], TaskStatus::Pending);
    assert_eq!(tm.get_next_task(3).unwrap().id, 1);
    assert!(tm.get_next_task(3).is_none());
}

#[test]
fn dropped_worker_keeps_its_task_until_failed() {
    let mut tm = TaskManager::new(DistributionStrategy::Fifo);
    tm.add_new_graph_tasks("g1", 1, "c");
    let t = tm.get_next_task(5).unwrap();
    assert_eq!(tm.get_tasks_status()[&t.id], TaskStatus::Assigned);
    assert!(tm.get_next_task(6).is_none());
    assert_eq!(tm.get_tasks_status()[&t.id], TaskStatus::Assigned);
    tm.mark_task_failed(t.id);
    let again = tm.get_next_task(6).unwrap();
    assert_eq!(again.id, t.id);
    assert_eq!(tm.get_tasks_status()[&t.id], TaskStatus::Assigned);
}

#[test]
fn live_tasks_are_the_uncompleted_ones() {
    let mut tm = TaskManager::new(DistributionStrategy::Fifo);
    tm.add_new_graph_tasks("a", 3, "c");
    tm.add_new_graph_tasks("b", 2, "c");
    let t1 = tm.get_next_task(1).unwrap();
    let t2 = tm.get_next_task(2).unwrap();
    tm.mark_task_completed(t1.id).unwrap();
    tm.mark_task_failed(t2.id);
    assert_eq!(tm.get_total_tasks(), 5);
    assert_eq!(tm.count_with_status(TaskStatus::Completed), 1);
    assert_eq!(tm.count_with_status(TaskStatus::Failed), 1);
    assert_eq!(tm.count_with_status(TaskStatus::Pending), 3);
    assert_eq!(tm.count_with_status(TaskStatus::Assigned), 0);
    let mut handed = 0;
    while let Some(t) = tm.get_next_task(3) {
        assert_ne!(t.id, t1.id);
        handed += 1;
    }
    assert_eq!(handed, 4);
    assert_eq!(tm.count_with_status(TaskStatus::Assigned), 4);
}
