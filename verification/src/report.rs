//! The figures of the final report: how many tasks stand in each status, and
//! what each graph and each worker has to show.

use vstd::prelude::*;
use crate::results::all_results;
use crate::results::GraphResults;
use crate::scheduler::TaskManager;
use crate::scheduler::TaskStatus;
use crate::task::TaskResult;

verus! {

/// How many tasks there are, and how many in each status.
#[derive(Debug, PartialEq, Eq, Clone, Copy, Structural)]
pub struct StatusSummary {
    pub total: usize,
    pub completed: usize,
    pub failed: usize,
    pub pending: usize,
    pub assigned: usize,
}

/// What one worker has delivered.
#[derive(Debug, PartialEq, Eq, Clone, Copy, Structural)]
pub struct WorkerTotals {
    pub worker_id: u128,
    pub tasks_completed: u32,
    pub total_processing_time_ms: u64,
}

/// The processing times of `results`, added up.
pub open spec fn time_sum(results: Seq<TaskResult>) -> nat
    decreases results.len(),
{
    if results.len() == 0 {
        0
    } else {
        time_sum(results.drop_last()) + results.last().processing_time_ms as nat
    }
}

/// The test for a result of the worker `worker_id`.
pub open spec fn done_by(worker_id: u128) -> spec_fn(TaskResult) -> bool {
    |r: TaskResult| r.worker_id == worker_id
}

/// Those of `results` that the worker `worker_id` delivered.
pub open spec fn results_of(results: Seq<TaskResult>, worker_id: u128) -> Seq<TaskResult> {
    results.filter(done_by(worker_id))
}

/// Whether the figures of the worker `worker_id` over `results` outgrow the
/// numbers that hold them.
pub open spec fn outgrows(results: Seq<TaskResult>, worker_id: u128) -> bool {
    results_of(results, worker_id).len() > u32::MAX || time_sum(results_of(results, worker_id)) > u64::MAX
}

/// Whether `totals` are the figures of `results`: one entry for each worker
/// that delivered any of them, with the number of its results and the sum of
/// their processing times.
pub open spec fn tallies(totals: Seq<WorkerTotals>, results: Seq<TaskResult>) -> bool {
    &&& forall|i: int, j: int|
        0 <= i < j < totals.len() ==> (#[trigger] totals[i]).worker_id != (#[trigger] totals[j]).worker_id
    &&& forall|i: int|
        0 <= i < totals.len() ==> {
            let of_worker = results_of(results, (#[trigger] totals[i]).worker_id);
            &&& totals[i].tasks_completed > 0
            &&& totals[i].tasks_completed == of_worker.len()
            &&& totals[i].total_processing_time_ms == time_sum(of_worker)
        }
    &&& forall|k: int|
        0 <= k < results.len() ==> exists|i: int|
            0 <= i < totals.len() && (#[trigger] totals[i]).worker_id == (#[trigger] results[k]).worker_id
}

/// One more result adds its time to the sum.
pub proof fn lemma_time_sum_push(results: Seq<TaskResult>, next: TaskResult)
    ensures
        time_sum(results.push(next)) == time_sum(results) + next.processing_time_ms,
{
    assert(results.push(next).drop_last() =~= results);
}

/// One more result is one more for its worker and changes nothing for the
/// others.
pub proof fn lemma_results_of_push(results: Seq<TaskResult>, next: TaskResult, worker_id: u128)
    ensures
        results_of(results.push(next), worker_id) == if next.worker_id == worker_id {
            results_of(results, worker_id).push(next)
        } else {
            results_of(results, worker_id)
        },
{
    results.lemma_filter_push(next, done_by(worker_id));
}

/// The figures of a worker over the first `k` results do not exceed its
/// figures over all of them.
pub proof fn lemma_figures_grow(results: Seq<TaskResult>, k: int, worker_id: u128)
    requires
        0 <= k <= results.len(),
    ensures
        results_of(results.take(k), worker_id).len() <= results_of(results, worker_id).len(),
        time_sum(results_of(results.take(k), worker_id)) <= time_sum(results_of(results, worker_id)),
        time_sum(results.take(k)) <= time_sum(results),
    decreases results.len(),
{
    if k == results.len() {
        assert(results.take(k) =~= results);
    } else {
        let front = results.drop_last();
        assert(front.take(k) =~= results.take(k));
        lemma_figures_grow(front, k, worker_id);
        assert(front.push(results.last()) =~= results);
        lemma_results_of_push(front, results.last(), worker_id);
        lemma_time_sum_push(results_of(front, worker_id), results.last());
    }
}

/// The results of a group and of those before it are the first of all results.
pub proof fn lemma_all_results_prefix(groups: Seq<GraphResults>, g: int, r: int)
    requires
        0 <= g < groups.len(),
        0 <= r <= groups[g].results@.len(),
    ensures
        all_results(groups.take(g)).len() + r <= all_results(groups).len(),
        all_results(groups).take(all_results(groups.take(g)).len() + r) == all_results(groups.take(g))
            + groups[g].results@.take(r),
    decreases groups.len(),
{
    let front = groups.drop_last();
    if g == groups.len() - 1 {
        assert(groups.take(g) =~= front);
        assert((all_results(front) + groups.last().results@).take(all_results(front).len() + r) =~= all_results(
            front,
        ) + groups[g].results@.take(r));
    } else {
        assert(front.take(g) =~= groups.take(g));
        lemma_all_results_prefix(front, g, r);
        let cut = all_results(groups.take(g)).len() + r;
        assert((all_results(front) + groups.last().results@).take(cut) =~= all_results(front).take(cut));
    }
}

/// The number of tasks on record and of those in each status.
pub fn summarize_tasks(scheduler: &TaskManager) -> (summary: StatusSummary)
    ensures
        summary.total == scheduler@.status.dom().len(),
        summary.completed == scheduler@.ids_with(TaskStatus::Completed).len(),
        summary.failed == scheduler@.ids_with(TaskStatus::Failed).len(),
        summary.pending == scheduler@.ids_with(TaskStatus::Pending).len(),
        summary.assigned == scheduler@.ids_with(TaskStatus::Assigned).len(),
{
    StatusSummary {
        total: scheduler.get_total_tasks(),
        completed: scheduler.get_completed_tasks_count(),
        failed: scheduler.count_with_status(TaskStatus::Failed),
        pending: scheduler.count_with_status(TaskStatus::Pending),
        assigned: scheduler.count_with_status(TaskStatus::Assigned),
    }
}

/// The processing times of `results` added up, unless the sum outgrows 64
/// bits.
pub fn total_processing_time(results: &Vec<TaskResult>) -> (total: Option<u64>)
    ensures
        total == if time_sum(results@) <= u64::MAX {
            Some(time_sum(results@) as u64)
        } else {
            None
        },
{
    let mut total: u64 = 0;
    let mut at: usize = 0;
    while at < results.len()
        invariant
            at <= results@.len(),
            total == time_sum(results@.take(at as int)),
        decreases results@.len() - at,
    {
        proof {
            assert(results@.take(at as int).push(results@[at as int]) =~= results@.take(at + 1));
            lemma_time_sum_push(results@.take(at as int), results@[at as int]);
            lemma_figures_grow(results@, at + 1, 0);
        }
        match total.checked_add(results[at].processing_time_ms) {
            Some(more) => {
                total = more;
            },
            None => {
                return None;
            },
        }
        at += 1;
    }
    assert(results@.take(at as int) =~= results@);
    Some(total)
}

/// Counts one more result into the figures kept so far. Where a figure would
/// outgrow its number, nothing is counted.
fn tally_one(totals: &mut Vec<WorkerTotals>, result: &TaskResult, Ghost(counted): Ghost<Seq<TaskResult>>) -> (fits:
    bool)
    requires
        tallies(old(totals)@, counted),
    ensures
        fits ==> tallies(final(totals)@, counted.push(*result)),
        !fits ==> outgrows(counted.push(*result), result.worker_id),
{
    let ghost before = totals@;
    let ghost after_results = counted.push(*result);
    let worker_id = result.worker_id;
    let mut at: usize = 0;
    while at < totals.len() && totals[at].worker_id != worker_id
        invariant
            at <= totals@.len(),
            totals@ == before,
            forall|i: int| 0 <= i < at ==> (#[trigger] before[i]).worker_id != worker_id,
        decreases totals@.len() - at,
    {
        at += 1;
    }
    proof {
        lemma_results_of_push(counted, *result, worker_id);
        lemma_time_sum_push(results_of(counted, worker_id), *result);
    }
    if at < totals.len() {
        let entry = totals[at];
        if entry.tasks_completed == u32::MAX {
            return false;
        }
        match entry.total_processing_time_ms.checked_add(result.processing_time_ms) {
            None => {
                return false;
            },
            Some(time) => {
                totals.set(
                    at,
                    WorkerTotals {
                        worker_id,
                        tasks_completed: entry.tasks_completed + 1,
                        total_processing_time_ms: time,
                    },
                );
            },
        }
    } else {
        proof {
            if results_of(counted, worker_id).len() > 0 {
                let found = results_of(counted, worker_id)[0];
                assert(results_of(counted, worker_id).contains(found));
                counted.lemma_filter_contains_rev(done_by(worker_id), found);
                assert(counted.contains(found));
                let k = choose|k: int| 0 <= k < counted.len() && counted[k] == found;
                assert(counted[k].worker_id == worker_id);
            }
        }
        totals.push(
            WorkerTotals {
                worker_id,
                tasks_completed: 1,
                total_processing_time_ms: result.processing_time_ms,
            },
        );
    }
    proof {
        let after = totals@;
        let slot = at as int;
        assert(after[slot].worker_id == worker_id);
        assert forall|i: int| 0 <= i < after.len() && i != slot implies #[trigger] after[i] == before[i] by {}
        assert forall|i: int| 0 <= i < after.len() implies {
            let of_worker = results_of(after_results, (#[trigger] after[i]).worker_id);
            &&& after[i].tasks_completed > 0
            &&& after[i].tasks_completed == of_worker.len()
            &&& after[i].total_processing_time_ms == time_sum(of_worker)
        } by {
            if i != slot {
                assert(after[i] == before[i]);
                assert(before[i].worker_id != worker_id);
                lemma_results_of_push(counted, *result, after[i].worker_id);
            }
        }
        assert forall|k: int| 0 <= k < after_results.len() implies exists|i: int|
            0 <= i < after.len() && (#[trigger] after[i]).worker_id == (#[trigger] after_results[k]).worker_id by {
            if k < counted.len() {
                assert(after_results[k] == counted[k]);
                let i = choose|i: int| 0 <= i < before.len() && (#[trigger] before[i]).worker_id == counted[k].worker_id;
                assert(after[i].worker_id == before[i].worker_id);
            } else {
                assert(after[slot].worker_id == after_results[k].worker_id);
            }
        }
    }
    true
}

/// The figures of every worker over the results of all `groups`. There are
/// none where a worker's count or time outgrows its number.
pub fn worker_totals(groups: &Vec<GraphResults>) -> (totals: Option<Vec<WorkerTotals>>)
    ensures
        match totals {
            Some(figures) => tallies(figures@, all_results(groups@)),
            None => exists|worker_id: u128| outgrows(all_results(groups@), worker_id),
        },
{
    let mut totals: Vec<WorkerTotals> = Vec::new();
    let mut g: usize = 0;
    while g < groups.len()
        invariant
            g <= groups@.len(),
            tallies(totals@, all_results(groups@.take(g as int))),
        decreases groups@.len() - g,
    {
        let results = &groups[g].results;
        let ghost earlier = all_results(groups@.take(g as int));
        let mut r: usize = 0;
        while r < results.len()
            invariant
                g < groups@.len(),
                *results == groups@[g as int].results,
                r <= results@.len(),
                earlier == all_results(groups@.take(g as int)),
                tallies(totals@, earlier + results@.take(r as int)),
            decreases results@.len() - r,
        {
            let ghost counted = earlier + results@.take(r as int);
            let fits = tally_one(&mut totals, &results[r], Ghost(counted));
            proof {
                assert(counted.push(results@[r as int]) =~= earlier + results@.take(r + 1));
                if !fits {
                    let all = all_results(groups@);
                    let worker_id = results@[r as int].worker_id;
                    lemma_all_results_prefix(groups@, g as int, r + 1);
                    assert(all.take(earlier.len() + r + 1) == counted.push(results@[r as int]));
                    lemma_figures_grow(all, earlier.len() + r + 1, worker_id);
                    assert(outgrows(all, worker_id));
                }
            }
            if !fits {
                return None;
            }
            r += 1;
        }
        proof {
            assert(results@.take(r as int) =~= results@);
            assert(groups@.take(g + 1).drop_last() =~= groups@.take(g as int));
            assert(groups@.take(g + 1).last() == groups@[g as int]);
        }
        g += 1;
    }
    assert(groups@.take(g as int) =~= groups@);
    Some(totals)
}

} // verus!
