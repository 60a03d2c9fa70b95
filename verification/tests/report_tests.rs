use kambo_hive::report::{summarize_tasks, total_processing_time, worker_totals, StatusSummary, WorkerTotals};
use kambo_hive::results::ResultAggregator;
use kambo_hive::scheduler::{DistributionStrategy, TaskManager};
use kambo_hive::task::TaskResult;

fn result(task_id: u128, graph: &str, worker_id: u128, time: u64) -> TaskResult {
    TaskResult {
        task_id,
        graph_id: graph.to_string(),
        worker_id,
        fitness_bits: 2.0f64.to_bits(),
        solution_data: Vec::new(),
        interations_run: 1,
        processing_time_ms: time,
    }
}

#[test]
fn summary_counts_each_status() {
    let mut tm = TaskManager::new(DistributionStrategy::Fifo);
    tm.add_new_graph_tasks("g", 6, "c");
    let a = tm.get_next_task(1).unwrap();
    let b = tm.get_next_task(1).unwrap();
    let c = tm.get_next_task(2).unwrap();
    let _d = tm.get_next_task(2).unwrap();
    tm.mark_task_completed(a.id).unwrap();
    tm.mark_task_completed(b.id).unwrap();
    tm.mark_task_failed(c.id);
    assert_eq!(
        summarize_tasks(&tm),
        StatusSummary { total: 6, completed: 2, failed: 1, pending: 2, assigned: 1 }
    );
}

#[test]
fn summary_of_an_empty_scheduler_is_all_zero() {
    let tm = TaskManager::new(DistributionStrategy::Random);
    assert_eq!(
        summarize_tasks(&tm),
        StatusSummary { total: 0, completed: 0, failed: 0, pending: 0, assigned: 0 }
    );
}

#[test]
fn processing_times_add_up() {
    let results = vec![result(1, "g", 1, 10), result(2, "g", 1, 25), result(3, "g", 2, 7)];
    assert_eq!(total_processing_time(&results), Some(42));
    assert_eq!(total_processing_time(&Vec::new()), Some(0));
}

#[test]
fn processing_time_that_outgrows_its_number_is_none() {
    let results = vec![result(1, "g", 1, u64::MAX), result(2, "g", 1, 0)];
    assert_eq!(total_processing_time(&results), Some(u64::MAX));
    let results = vec![result(1, "g", 1, u64::MAX - 1), result(2, "g", 1, 1), result(3, "g", 1, 1)];
    assert_eq!(total_processing_time(&results), None);
}

#[test]
fn workers_are_tallied_across_graphs() {
    let mut store = ResultAggregator::new();
    store.add_result(result(1, "g", 100, 10)).unwrap();
    store.add_result(result(2, "h", 200, 5)).unwrap();
    store.add_result(result(3, "g", 200, 6)).unwrap();
    store.add_result(result(4, "h", 100, 20)).unwrap();
    store.add_result(result(5, "g", 100, 30)).unwrap();
    let mut totals = worker_totals(store.get_all_results()).unwrap();
    totals.sort_by_key(|w| w.worker_id);
    assert_eq!(
        totals,
        vec![
            WorkerTotals { worker_id: 100, tasks_completed: 3, total_processing_time_ms: 60 },
            WorkerTotals { worker_id: 200, tasks_completed: 2, total_processing_time_ms: 11 },
        ]
    );
}

#[test]
fn no_results_no_workers() {
    let store = ResultAggregator::new();
    assert_eq!(worker_totals(store.get_all_results()), Some(Vec::new()));
}

#[test]
fn worker_time_that_outgrows_its_number_is_none() {
    let mut store = ResultAggregator::new();
    store.add_result(result(1, "g", 100, u64::MAX)).unwrap();
    store.add_result(result(2, "h", 200, 5)).unwrap();
    assert!(worker_totals(store.get_all_results()).is_some());
    store.add_result(result(3, "h", 100, 1)).unwrap();
    assert_eq!(worker_totals(store.get_all_results()), None);
}
