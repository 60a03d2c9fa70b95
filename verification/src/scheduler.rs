//! The task scheduler: a queue of pending tasks, the tasks handed out, and the
//! status of every task ever created.

use std::collections::HashMap;
use std::collections::VecDeque;
use rand::seq::IndexedRandom;
use vstd::prelude::*;
use vstd::std_specs::iter::IteratorSpec;
use crate::task::Task;

verus! {

broadcast use {
    vstd::std_specs::hash::group_hash_axioms,
    vstd::std_specs::vecdeque::group_vec_dequeue_axioms,
};

#[derive(Debug, PartialEq, Eq, Clone, Copy, Structural)]
pub enum TaskStatus {
    Pending,
    Assigned,
    Completed,
    Failed,
}

/// The order in which pending tasks are handed out.
#[derive(Debug, Clone, Copy)]
pub enum DistributionStrategy {
    /// Oldest first.
    Fifo,
    /// Newest first.
    Lifo,
    /// Any pending task, drawn uniformly.
    Random,
}

/// The refusal of `mark_task_completed`: no worker holds `task_id`.
#[derive(Debug, PartialEq, Eq, Clone, Copy, Structural)]
pub struct NotAssigned {
    pub task_id: u128,
}

/// The scheduler as mathematics: the queue front to back, who holds what, and
/// the status on record for each id.
pub struct SchedulerState {
    pub pending: Seq<Task>,
    pub assigned: Map<u128, (Task, u128)>,
    pub status: Map<u128, TaskStatus>,
    pub strategy: DistributionStrategy,
}

impl SchedulerState {
    /// A scheduler that has seen no task.
    pub open spec fn empty(strategy: DistributionStrategy) -> SchedulerState {
        SchedulerState { pending: Seq::empty(), assigned: Map::empty(), status: Map::empty(), strategy }
    }

    /// `task` joins the back of the queue as `Pending`.
    pub open spec fn enqueue(self, task: Task) -> SchedulerState {
        SchedulerState {
            pending: self.pending.push(task),
            status: self.status.insert(task.id, TaskStatus::Pending),
            ..self
        }
    }

    /// The task at position `index` of the queue leaves it and is held by
    /// `worker_id`.
    pub open spec fn assign_at(self, index: int, worker_id: u128) -> SchedulerState
        recommends
            0 <= index < self.pending.len(),
    {
        let task = self.pending[index];
        SchedulerState {
            pending: self.pending.remove(index),
            assigned: self.assigned.insert(task.id, (task, worker_id)),
            status: self.status.insert(task.id, TaskStatus::Assigned),
            ..self
        }
    }

    /// The task held under `task_id`, if any, is done for good.
    pub open spec fn complete(self, task_id: u128) -> SchedulerState {
        if self.assigned.contains_key(task_id) {
            SchedulerState {
                assigned: self.assigned.remove(task_id),
                status: self.status.insert(task_id, TaskStatus::Completed),
                ..self
            }
        } else {
            self
        }
    }

    /// The task held under `task_id`, if any, goes back to the front of the
    /// queue.
    pub open spec fn fail(self, task_id: u128) -> SchedulerState {
        if self.assigned.contains_key(task_id) {
            SchedulerState {
                pending: seq![self.assigned[task_id].0] + self.pending,
                assigned: self.assigned.remove(task_id),
                status: self.status.insert(task_id, TaskStatus::Failed),
                ..self
            }
        } else {
            self
        }
    }

    /// `tasks` join the back of the queue one after the other.
    pub open spec fn enqueue_all(self, tasks: Seq<Task>) -> SchedulerState
        decreases tasks.len(),
    {
        if tasks.len() == 0 {
            self
        } else {
            self.enqueue_all(tasks.drop_last()).enqueue(tasks.last())
        }
    }

    /// The ids of the tasks that wait in the queue.
    pub open spec fn pending_ids(self) -> Set<u128> {
        Set::new(|id: u128| exists|i: int| 0 <= i < self.pending.len() && (#[trigger] self.pending[i]).id == id)
    }

    /// The ids of the tasks that wait or are held by a worker.
    pub open spec fn live_ids(self) -> Set<u128> {
        self.pending_ids().union(self.assigned.dom())
    }

    /// The ids on record whose status is `wanted`.
    pub open spec fn ids_with(self, wanted: TaskStatus) -> Set<u128> {
        self.status.dom().filter(|id: u128| self.status[id] == wanted)
    }

    /// The ids on record that are not `Completed`.
    pub open spec fn uncompleted_ids(self) -> Set<u128> {
        self.status.dom().filter(|id: u128| self.status[id] != TaskStatus::Completed)
    }

    /// Whether none of `tasks` bears an id that is on record here or that
    /// another of them bears.
    pub open spec fn fresh(self, tasks: Seq<Task>) -> bool {
        &&& forall|i: int| 0 <= i < tasks.len() ==> !self.status.contains_key((#[trigger] tasks[i]).id)
        &&& forall|i: int, j: int| 0 <= i < j < tasks.len() ==> (#[trigger] tasks[i]).id != (#[trigger] tasks[j]).id
    }

    /// The queue, the held tasks and the record agree: no id waits twice or
    /// waits while held, a waiting task is on record as `Pending` or `Failed`,
    /// a held one as `Assigned` under its own id, and whatever is on record
    /// as one of these waits or is held accordingly.
    pub open spec fn consistent(self) -> bool {
        &&& forall|i: int, j: int|
            0 <= i < j < self.pending.len() ==> (#[trigger] self.pending[i]).id != (#[trigger] self.pending[j]).id
        &&& forall|i: int|
            0 <= i < self.pending.len() ==> {
                let id = (#[trigger] self.pending[i]).id;
                &&& !self.assigned.contains_key(id)
                &&& self.status.contains_key(id)
                &&& (self.status[id] == TaskStatus::Pending || self.status[id] == TaskStatus::Failed)
            }
        &&& forall|id: u128| #[trigger]
            self.assigned.contains_key(id) ==> {
                &&& self.assigned[id].0.id == id
                &&& self.status.contains_key(id)
                &&& self.status[id] == TaskStatus::Assigned
            }
        &&& forall|id: u128| #[trigger]
            self.status.contains_key(id) ==> match self.status[id] {
                TaskStatus::Pending | TaskStatus::Failed => self.pending_ids().contains(id),
                TaskStatus::Assigned => self.assigned.contains_key(id),
                TaskStatus::Completed => true,
            }
    }

    /// Whether the strategy allows position `index` of the queue to be handed
    /// out next: the front under `Fifo`, the back under `Lifo`, any position
    /// under `Random`.
    pub open spec fn may_pick(self, index: int) -> bool {
        &&& 0 <= index < self.pending.len()
        &&& match self.strategy {
            DistributionStrategy::Fifo => index == 0,
            DistributionStrategy::Lifo => index == self.pending.len() - 1,
            DistributionStrategy::Random => true,
        }
    }
}

pub struct TaskManager {
    pending_tasks: VecDeque<Task>,
    assigned_tasks: HashMap<u128, (Task, u128)>,
    all_tasks_status: HashMap<u128, TaskStatus>,
    distribution_strategy: DistributionStrategy,
}

impl View for TaskManager {
    type V = SchedulerState;

    closed spec fn view(&self) -> SchedulerState {
        SchedulerState {
            pending: self.pending_tasks@,
            assigned: self.assigned_tasks@,
            status: self.all_tasks_status@,
            strategy: self.distribution_strategy,
        }
    }
}

/// The positions `0, 1, .., len - 1`, in order.
fn positions(len: usize) -> (all: Vec<usize>)
    ensures
        all@.len() == len,
        forall|i: int| 0 <= i < len ==> all@[i] == i,
{
    let mut all: Vec<usize> = Vec::new();
    let mut next: usize = 0;
    while next < len
        invariant
            next <= len,
            all@.len() == next,
            forall|i: int| 0 <= i < next ==> all@[i] == i,
        decreases len - next,
    {
        all.push(next);
        next += 1;
    }
    all
}

/// Draws one element of `candidates` with `rand`'s
/// `IndexedRandom::choose`, on the thread's generator `rand::rng()`. Which
/// element comes back is up to the generator; `choose` returns `Some` of an
/// element of the slice whenever the slice is not empty.
#[verifier::external_body]
fn choose_uniformly(candidates: &Vec<usize>) -> (picked: usize)
    requires
        candidates@.len() > 0,
    ensures
        candidates@.contains(picked),
{
    let mut rng = rand::rng();
    *candidates.choose(&mut rng).unwrap()
}

impl TaskManager {
    pub fn new(distribution_strategy: DistributionStrategy) -> (manager: TaskManager)
        ensures
            manager@ == SchedulerState::empty(distribution_strategy),
            manager@.consistent(),
    {
        TaskManager {
            pending_tasks: VecDeque::new(),
            assigned_tasks: HashMap::new(),
            all_tasks_status: HashMap::new(),
            distribution_strategy,
        }
    }

    /// Puts one task at the back of the queue and records it as `Pending`.
    pub fn enqueue_task(&mut self, task: Task)
        ensures
            final(self)@ == old(self)@.enqueue(task),
            old(self)@.consistent() && !old(self)@.status.contains_key(task.id) ==> final(self)@.consistent(),
    {
        proof {
            if old(self)@.consistent() && !old(self)@.status.contains_key(task.id) {
                lemma_enqueue_consistent(old(self)@, task);
            }
        }
        let id = task.id;
        self.pending_tasks.push_back(task);
        self.all_tasks_status.insert(id, TaskStatus::Pending);
    }

    /// Creates `num_runs` tasks for `graph_id`, numbered from zero, each
    /// under a freshly drawn id, and queues them in that order.
    pub fn add_new_graph_tasks(&mut self, graph_id: &str, num_runs: u32, ag_config: &str)
        ensures
            exists|created: Seq<Task>|
                {
                    &&& created.len() == num_runs
                    &&& forall|i: int|
                        0 <= i < created.len() ==> (#[trigger] created[i]).describes(graph_id@, i, ag_config@)
                            && crate::task::is_v4_uuid(created[i].id)
                    &&& #[trigger] old(self)@.enqueue_all(created) == final(self)@
                    &&& old(self)@.consistent() && old(self)@.fresh(created) ==> final(self)@.consistent()
                },
    {
        let ghost mut created: Seq<Task> = Seq::empty();
        let mut run: u32 = 0;
        while run < num_runs
            invariant
                run <= num_runs,
                created.len() == run,
                forall|i: int|
                    0 <= i < created.len() ==> (#[trigger] created[i]).describes(graph_id@, i, ag_config@)
                        && crate::task::is_v4_uuid(created[i].id),
                old(self)@.enqueue_all(created) == self@,
            decreases num_runs - run,
        {
            let task = Task::new(graph_id.to_owned(), run, ag_config.to_owned());
            proof {
                assert(created.push(task).drop_last() =~= created);
                created = created.push(task);
            }
            self.enqueue_task(task);
            run += 1;
        }
        proof {
            if old(self)@.consistent() && old(self)@.fresh(created) {
                lemma_enqueue_all_consistent(old(self)@, created);
            }
        }
    }

    /// Hands the task at position `index` of the queue to `worker_id`. With
    /// no such position nothing changes.
    pub fn assign_pending_at(&mut self, index: usize, worker_id: u128) -> (handed: Option<Task>)
        ensures
            index < old(self)@.pending.len() ==> handed == Some(old(self)@.pending[index as int])
                && final(self)@ == old(self)@.assign_at(index as int, worker_id),
            index >= old(self)@.pending.len() ==> handed is None && final(self)@ == old(self)@,
            old(self)@.consistent() ==> final(self)@.consistent(),
    {
        proof {
            if old(self)@.consistent() && index < old(self)@.pending.len() {
                lemma_assign_consistent(old(self)@, index as int, worker_id);
            }
        }
        match self.pending_tasks.remove(index) {
            Some(task) => {
                self.assigned_tasks.insert(task.id, (task.clone(), worker_id));
                self.all_tasks_status.insert(task.id, TaskStatus::Assigned);
                Some(task)
            },
            None => None,
        }
    }

    /// Hands out the next pending task, chosen as the strategy says.
    pub fn get_next_task(&mut self, worker_id: u128) -> (handed: Option<Task>)
        ensures
            old(self)@.pending.len() == 0 ==> handed is None && final(self)@ == old(self)@,
            old(self)@.pending.len() > 0 ==> handed is Some && exists|index: int|
                #![trigger old(self)@.may_pick(index)]
                old(self)@.may_pick(index) && handed == Some(old(self)@.pending[index])
                    && final(self)@ == old(self)@.assign_at(index, worker_id),
            old(self)@.consistent() ==> final(self)@.consistent(),
    {
        let len = self.pending_tasks.len();
        if len == 0 {
            return None;
        }
        let index: usize = match self.distribution_strategy {
            DistributionStrategy::Fifo => 0,
            DistributionStrategy::Lifo => len - 1,
            DistributionStrategy::Random => {
                let candidates = positions(len);
                let picked = choose_uniformly(&candidates);
                proof {
                    let at = choose|i: int| 0 <= i < candidates@.len() && candidates@[i] == picked;
                    assert(candidates@[at] == at);
                }
                picked
            },
        };
        let handed = self.assign_pending_at(index, worker_id);
        assert(old(self)@.may_pick(index as int));
        handed
    }

    /// Marks the task held under `task_id` as completed; an id that no worker
    /// holds is refused and leaves everything as it was.
    pub fn mark_task_completed(&mut self, task_id: u128) -> (outcome: Result<(), NotAssigned>)
        ensures
            outcome is Ok <==> old(self)@.assigned.contains_key(task_id),
            outcome is Err ==> outcome == Err::<(), NotAssigned>(NotAssigned { task_id }),
            final(self)@ == old(self)@.complete(task_id),
            old(self)@.consistent() ==> final(self)@.consistent(),
    {
        proof {
            if old(self)@.consistent() {
                lemma_complete_consistent(old(self)@, task_id);
            }
        }
        match self.assigned_tasks.remove(&task_id) {
            Some(_) => {
                self.all_tasks_status.insert(task_id, TaskStatus::Completed);
                Ok(())
            },
            None => {
                assert(self.assigned_tasks@ =~= old(self).assigned_tasks@);
                Err(NotAssigned { task_id })
            },
        }
    }

    /// Takes the task held under `task_id` back and queues it in front of
    /// every other pending task; an id that no worker holds changes nothing.
    pub fn mark_task_failed(&mut self, task_id: u128)
        ensures
            final(self)@ == old(self)@.fail(task_id),
            old(self)@.consistent() ==> final(self)@.consistent(),
    {
        proof {
            if old(self)@.consistent() {
                lemma_fail_consistent(old(self)@, task_id);
            }
        }
        match self.assigned_tasks.remove(&task_id) {
            Some(held) => {
                self.pending_tasks.push_front(held.0);
                self.all_tasks_status.insert(task_id, TaskStatus::Failed);
            },
            None => {
                assert(self.assigned_tasks@ =~= old(self).assigned_tasks@);
            },
        }
    }

    pub fn get_total_tasks(&self) -> (total: usize)
        ensures
            total == self@.status.dom().len(),
    {
        self.all_tasks_status.len()
    }

    /// How many tasks are on record with status `wanted`.
    pub fn count_with_status(&self, wanted: TaskStatus) -> (count: usize)
        ensures
            count == self@.ids_with(wanted).len(),
    {
        let ghost record = self.all_tasks_status@;
        let ghost entries = vstd::std_specs::hash::spec_hash_map_iter(&self.all_tasks_status).remaining();
        let ghost mut seen: Set<u128> = Set::empty();
        let ghost mut visited: int = 0;
        let total = self.all_tasks_status.len();
        let mut count: usize = 0;
        for entry in walk: self.all_tasks_status.iter()
            invariant
                entries.len() == total,
                record == self.all_tasks_status@,
                walk.seq() == entries,
                visited == walk.index(),
                walk.seq().len() == record.dom().len(),
                walk.seq().no_duplicates(),
                forall|i: int| 0 <= i < walk.seq().len() ==> record.contains_key(*(#[trigger] walk.seq()[i]).0)
                    && record[*walk.seq()[i].0] == *walk.seq()[i].1,
                count <= walk.index(),
                seen.finite(),
                seen.len() == count,
                forall|id: u128| seen.contains(id) <==> exists|i: int| 0 <= i < walk.index() && *(#[trigger] walk.seq()[i]).0 == id && *walk.seq()[i].1 == wanted,
        {
            assert(walk.index() < entries.len());
            if *entry.1 == wanted {
                proof {
                    let here = walk.index();
                    if seen.contains(*entry.0) {
                        let i = choose|i: int| 0 <= i < walk.index() && *(#[trigger] walk.seq()[i]).0 == *entry.0 && *walk.seq()[i].1 == wanted;
                        assert(walk.seq()[i] == walk.seq()[here]);
                    }
                    seen = seen.insert(*entry.0);
                }
                count += 1;
            }
            proof {
                visited = visited + 1;
            }
        }
        proof {
            assert(visited == entries.len());
            assert forall|id: u128| seen.contains(id) <==> self@.ids_with(wanted).contains(id) by {
                if self@.ids_with(wanted).contains(id) {
                    assert(record.contains_key(id));
                    assert(entries.contains((&id, &record[id])));
                }
            }
            assert(seen =~= self@.ids_with(wanted));
        }
        count
    }

    pub fn get_completed_tasks_count(&self) -> (count: usize)
        ensures
            count == self@.ids_with(TaskStatus::Completed).len(),
    {
        self.count_with_status(TaskStatus::Completed)
    }

    pub fn get_tasks_status(&self) -> (statuses: &HashMap<u128, TaskStatus>)
        ensures
            statuses@ == self@.status,
    {
        &self.all_tasks_status
    }
}

/// A scheduler that has seen no task is consistent.
pub proof fn lemma_empty_consistent(strategy: DistributionStrategy)
    ensures
        SchedulerState::empty(strategy).consistent(),
{
}

/// Queueing a task under an id that is not on record keeps the scheduler
/// consistent.
pub proof fn lemma_enqueue_consistent(s: SchedulerState, task: Task)
    requires
        s.consistent(),
        !s.status.contains_key(task.id),
    ensures
        s.enqueue(task).consistent(),
{
    let t = s.enqueue(task);
    assert forall|id: u128| #[trigger] t.status.contains_key(id) implies match t.status[id] {
        TaskStatus::Pending | TaskStatus::Failed => t.pending_ids().contains(id),
        TaskStatus::Assigned => t.assigned.contains_key(id),
        TaskStatus::Completed => true,
    } by {
        if id == task.id {
            assert(t.pending[s.pending.len() as int].id == id);
        } else if s.status[id] == TaskStatus::Pending || s.status[id] == TaskStatus::Failed {
            assert(s.pending_ids().contains(id));
            let i = choose|i: int| 0 <= i < s.pending.len() && (#[trigger] s.pending[i]).id == id;
            assert(t.pending[i].id == id);
        }
    }
}

/// Queueing tasks under ids that are new to the record and differ from each
/// other keeps the scheduler consistent.
pub proof fn lemma_enqueue_all_consistent(s: SchedulerState, tasks: Seq<Task>)
    requires
        s.consistent(),
        s.fresh(tasks),
    ensures
        s.enqueue_all(tasks).consistent(),
        s.enqueue_all(tasks).status.dom() =~= s.status.dom().union(Set::new(|id: u128| exists|i: int| 0 <= i < tasks.len() && (#[trigger] tasks[i]).id == id)),
    decreases tasks.len(),
{
    if tasks.len() > 0 {
        let front = tasks.drop_last();
        assert(s.fresh(front));
        lemma_enqueue_all_consistent(s, front);
        let mid = s.enqueue_all(front);
        let last = tasks.last();
        if mid.status.contains_key(last.id) {
            let i = choose|i: int| 0 <= i < front.len() && (#[trigger] front[i]).id == last.id;
            assert(tasks[i].id == tasks[tasks.len() - 1].id);
        }
        lemma_enqueue_consistent(mid, last);
        let news = Set::new(|id: u128| exists|i: int| 0 <= i < tasks.len() && (#[trigger] tasks[i]).id == id);
        assert forall|id: u128| mid.enqueue(last).status.contains_key(id) <==> s.status.dom().union(news).contains(id) by {
            if mid.enqueue(last).status.contains_key(id) {
                if id == last.id {
                    assert(tasks[tasks.len() - 1].id == id);
                } else if !s.status.contains_key(id) {
                    let i = choose|i: int| 0 <= i < front.len() && (#[trigger] front[i]).id == id;
                    assert(tasks[i].id == id);
                }
            }
            if news.contains(id) {
                let i = choose|i: int| 0 <= i < tasks.len() && (#[trigger] tasks[i]).id == id;
                if i < front.len() {
                    assert(front[i].id == id);
                }
            }
        }
    }
}

/// Handing out a pending task keeps the scheduler consistent.
pub proof fn lemma_assign_consistent(s: SchedulerState, index: int, worker_id: u128)
    requires
        s.consistent(),
        0 <= index < s.pending.len(),
    ensures
        s.assign_at(index, worker_id).consistent(),
{
    let t = s.assign_at(index, worker_id);
    let task = s.pending[index];
    assert forall|i: int| 0 <= i < t.pending.len() implies (#[trigger] t.pending[i]).id != task.id by {
        if i < index {
            assert(t.pending[i] == s.pending[i]);
        } else {
            assert(t.pending[i] == s.pending[i + 1]);
        }
    }
    assert forall|i: int, j: int| 0 <= i < j < t.pending.len() implies (#[trigger] t.pending[i]).id != (#[trigger] t.pending[j]).id by {
        let si = if i < index { i } else { i + 1 };
        let sj = if j < index { j } else { j + 1 };
        assert(t.pending[i] == s.pending[si] && t.pending[j] == s.pending[sj]);
    }
    assert forall|i: int| 0 <= i < t.pending.len() implies {
        let id = (#[trigger] t.pending[i]).id;
        &&& !t.assigned.contains_key(id)
        &&& t.status.contains_key(id)
        &&& (t.status[id] == TaskStatus::Pending || t.status[id] == TaskStatus::Failed)
    } by {
        let si = if i < index { i } else { i + 1 };
        assert(t.pending[i] == s.pending[si]);
    }
    assert forall|id: u128| #[trigger] t.status.contains_key(id) implies match t.status[id] {
        TaskStatus::Pending | TaskStatus::Failed => t.pending_ids().contains(id),
        TaskStatus::Assigned => t.assigned.contains_key(id),
        TaskStatus::Completed => true,
    } by {
        if id != task.id && (s.status[id] == TaskStatus::Pending || s.status[id] == TaskStatus::Failed) {
            assert(s.pending_ids().contains(id));
            let i = choose|i: int| 0 <= i < s.pending.len() && (#[trigger] s.pending[i]).id == id;
            let ti = if i < index { i } else { i - 1 };
            assert(t.pending[ti] == s.pending[i]);
        }
    }
}

/// Completing a task, held or not, keeps the scheduler consistent.
pub proof fn lemma_complete_consistent(s: SchedulerState, task_id: u128)
    requires
        s.consistent(),
    ensures
        s.complete(task_id).consistent(),
{
    let t = s.complete(task_id);
    if s.assigned.contains_key(task_id) {
        assert(t.pending == s.pending);
        assert forall|id: u128| #[trigger] t.status.contains_key(id) implies match t.status[id] {
            TaskStatus::Pending | TaskStatus::Failed => t.pending_ids().contains(id),
            TaskStatus::Assigned => t.assigned.contains_key(id),
            TaskStatus::Completed => true,
        } by {
            if id != task_id && (s.status[id] == TaskStatus::Pending || s.status[id] == TaskStatus::Failed) {
                assert(s.pending_ids().contains(id));
            }
        }
    }
}

/// Failing a task, held or not, keeps the scheduler consistent.
pub proof fn lemma_fail_consistent(s: SchedulerState, task_id: u128)
    requires
        s.consistent(),
    ensures
        s.fail(task_id).consistent(),
{
    let t = s.fail(task_id);
    if s.assigned.contains_key(task_id) {
        assert(t.pending[0].id == task_id);
        assert forall|i: int| 1 <= i < t.pending.len() implies #[trigger] t.pending[i] == s.pending[i - 1] by {}
        assert forall|i: int, j: int| 0 <= i < j < t.pending.len() implies (#[trigger] t.pending[i]).id != (#[trigger] t.pending[j]).id by {
            assert(t.pending[j] == s.pending[j - 1]);
            if i > 0 {
                assert(t.pending[i] == s.pending[i - 1]);
            }
        }
        assert forall|i: int| 0 <= i < t.pending.len() implies {
            let id = (#[trigger] t.pending[i]).id;
            &&& !t.assigned.contains_key(id)
            &&& t.status.contains_key(id)
            &&& (t.status[id] == TaskStatus::Pending || t.status[id] == TaskStatus::Failed)
        } by {
            if i > 0 {
                assert(t.pending[i] == s.pending[i - 1]);
            }
        }
        assert forall|id: u128| #[trigger] t.status.contains_key(id) implies match t.status[id] {
            TaskStatus::Pending | TaskStatus::Failed => t.pending_ids().contains(id),
            TaskStatus::Assigned => t.assigned.contains_key(id),
            TaskStatus::Completed => true,
        } by {
            if id == task_id {
                assert(t.pending[0].id == id);
            } else if s.status[id] == TaskStatus::Pending || s.status[id] == TaskStatus::Failed {
                assert(s.pending_ids().contains(id));
                let i = choose|i: int| 0 <= i < s.pending.len() && (#[trigger] s.pending[i]).id == id;
                assert(t.pending[i + 1] == s.pending[i]);
            }
        }
    }
}

/// In a consistent scheduler the tasks that wait or are held are exactly the
/// tasks on record that are not completed, and none both waits and is held.
pub proof fn lemma_live_are_uncompleted(s: SchedulerState)
    requires
        s.consistent(),
    ensures
        s.live_ids() == s.uncompleted_ids(),
        s.pending_ids().disjoint(s.assigned.dom()),
{
    assert forall|id: u128| s.live_ids().contains(id) <==> s.uncompleted_ids().contains(id) by {
        if s.pending_ids().contains(id) {
            let i = choose|i: int| 0 <= i < s.pending.len() && (#[trigger] s.pending[i]).id == id;
        }
        if s.uncompleted_ids().contains(id) {
            assert(s.status.contains_key(id));
        }
    }
    assert(s.live_ids() =~= s.uncompleted_ids());
    assert forall|id: u128| !(s.pending_ids().contains(id) && s.assigned.dom().contains(id)) by {
        if s.pending_ids().contains(id) {
            let i = choose|i: int| 0 <= i < s.pending.len() && (#[trigger] s.pending[i]).id == id;
        }
    }
}

/// One operation on the scheduler.
pub enum SchedulerOp {
    Enqueue { task: Task },
    Assign { index: int, worker_id: u128 },
    Complete { task_id: u128 },
    Fail { task_id: u128 },
}

impl SchedulerState {
    /// Whether `op` can be carried out here: a task is queued under an id
    /// that is not on record, and a hand-out names a position of the queue.
    pub open spec fn admits(self, op: SchedulerOp) -> bool {
        match op {
            SchedulerOp::Enqueue { task } => !self.status.contains_key(task.id),
            SchedulerOp::Assign { index, worker_id } => 0 <= index < self.pending.len(),
            SchedulerOp::Complete { task_id } => true,
            SchedulerOp::Fail { task_id } => true,
        }
    }

    /// The scheduler after `op`.
    pub open spec fn step(self, op: SchedulerOp) -> SchedulerState {
        match op {
            SchedulerOp::Enqueue { task } => self.enqueue(task),
            SchedulerOp::Assign { index, worker_id } => self.assign_at(index, worker_id),
            SchedulerOp::Complete { task_id } => self.complete(task_id),
            SchedulerOp::Fail { task_id } => self.fail(task_id),
        }
    }

    /// The scheduler after `ops`, one after the other.
    pub open spec fn run(self, ops: Seq<SchedulerOp>) -> SchedulerState
        decreases ops.len(),
    {
        if ops.len() == 0 {
            self
        } else {
            self.run(ops.drop_last()).step(ops.last())
        }
    }

    /// Whether each of `ops` can be carried out when its turn comes.
    pub open spec fn admits_all(self, ops: Seq<SchedulerOp>) -> bool
        decreases ops.len(),
    {
        ops.len() > 0 ==> self.admits_all(ops.drop_last()) && self.run(ops.drop_last()).admits(ops.last())
    }

    /// Whether a task may go from status `from` to status `to` in one
    /// operation.
    pub open spec fn may_become(from: TaskStatus, to: TaskStatus) -> bool {
        ||| from == to
        ||| (from == TaskStatus::Pending && to == TaskStatus::Assigned)
        ||| (from == TaskStatus::Failed && to == TaskStatus::Assigned)
        ||| (from == TaskStatus::Assigned && to == TaskStatus::Completed)
        ||| (from == TaskStatus::Assigned && to == TaskStatus::Failed)
    }
}

/// One operation keeps a consistent scheduler consistent.
pub proof fn lemma_step_consistent(s: SchedulerState, op: SchedulerOp)
    requires
        s.consistent(),
        s.admits(op),
    ensures
        s.step(op).consistent(),
{
    match op {
        SchedulerOp::Enqueue { task } => lemma_enqueue_consistent(s, task),
        SchedulerOp::Assign { index, worker_id } => lemma_assign_consistent(s, index, worker_id),
        SchedulerOp::Complete { task_id } => lemma_complete_consistent(s, task_id),
        SchedulerOp::Fail { task_id } => lemma_fail_consistent(s, task_id),
    }
}

/// Whatever is done to a scheduler from its creation on, the tasks that wait
/// or are held are at every point exactly the tasks created and not yet
/// completed, and the strategy is the one it was created with.
pub proof fn lemma_run_consistent(strategy: DistributionStrategy, ops: Seq<SchedulerOp>)
    requires
        SchedulerState::empty(strategy).admits_all(ops),
    ensures
        SchedulerState::empty(strategy).run(ops).strategy == strategy,
        SchedulerState::empty(strategy).run(ops).consistent(),
        SchedulerState::empty(strategy).run(ops).live_ids() == SchedulerState::empty(strategy).run(
            ops,
        ).uncompleted_ids(),
    decreases ops.len(),
{
    let start = SchedulerState::empty(strategy);
    if ops.len() > 0 {
        lemma_run_consistent(strategy, ops.drop_last());
        lemma_step_consistent(start.run(ops.drop_last()), ops.last());
    }
    lemma_live_are_uncompleted(start.run(ops));
}

/// In a consistent scheduler a task on record keeps its id on record, and
/// its status changes only from `Pending` or `Failed` to `Assigned` and from
/// `Assigned` to `Completed` or `Failed`: a completed task stays completed.
pub proof fn lemma_status_moves_forward(s: SchedulerState, op: SchedulerOp, task_id: u128)
    requires
        s.consistent(),
        s.admits(op),
        s.status.contains_key(task_id),
    ensures
        s.step(op).status.contains_key(task_id),
        SchedulerState::may_become(s.status[task_id], s.step(op).status[task_id]),
        s.status[task_id] == TaskStatus::Completed ==> s.step(op).status[task_id] == TaskStatus::Completed,
{
}

/// While a worker holds a task, no hand-out returns a task under its id, and
/// the hand-out leaves it held.
pub proof fn lemma_held_task_not_handed_out(s: SchedulerState, task_id: u128, index: int, worker_id: u128)
    requires
        s.consistent(),
        s.assigned.contains_key(task_id),
        0 <= index < s.pending.len(),
    ensures
        s.pending[index].id != task_id,
        s.assign_at(index, worker_id).assigned.contains_key(task_id),
        s.assign_at(index, worker_id).assigned[task_id] == s.assigned[task_id],
{
}

/// A task that was just handed out is held, so its completion is accepted;
/// after that it is no longer held, so a second completion is refused and
/// changes nothing.
pub proof fn lemma_completes_once(s: SchedulerState, index: int, worker_id: u128)
    requires
        0 <= index < s.pending.len(),
    ensures
        ({
            let id = s.pending[index].id;
            let held = s.assign_at(index, worker_id);
            let done = held.complete(id);
            &&& held.assigned.contains_key(id)
            &&& done.status[id] == TaskStatus::Completed
            &&& !done.assigned.contains_key(id)
            &&& done.complete(id) == done
        }),
{
}

/// Under `Fifo` a failed task is the very next to be handed out, ahead of
/// everything that was waiting. Under `Lifo` the same holds when nothing
/// else waits.
pub proof fn lemma_failed_task_is_next(s: SchedulerState, task_id: u128)
    requires
        s.assigned.contains_key(task_id),
        s.strategy is Fifo || (s.strategy is Lifo && s.pending.len() == 0),
    ensures
        s.fail(task_id).may_pick(0),
        forall|index: int| #[trigger] s.fail(task_id).may_pick(index) ==> index == 0,
        s.fail(task_id).pending[0] == s.assigned[task_id].0,
        s.fail(task_id).status[task_id] == TaskStatus::Failed,
{
}

} // verus!
