//! The result store: every reported result, grouped by graph in the order of
//! arrival, and a count of all of them.

use vstd::prelude::*;
use crate::task::TaskResult;

verus! {

/// The results of one graph, oldest first.
#[derive(Debug)]
pub struct GraphResults {
    pub graph_id: String,
    pub results: Vec<TaskResult>,
}

/// The store as mathematics: the results of each graph that has any, oldest
/// first, and the number of results ever recorded.
pub struct ResultStoreState {
    pub by_graph: Map<Seq<char>, Seq<TaskResult>>,
    pub total: nat,
}

impl ResultStoreState {
    /// A store that has seen no result.
    pub open spec fn empty() -> ResultStoreState {
        ResultStoreState { by_graph: Map::empty(), total: 0 }
    }

    /// What is recorded for `graph_id`: nothing, where the graph is unknown.
    pub open spec fn results_for(self, graph_id: Seq<char>) -> Seq<TaskResult> {
        if self.by_graph.contains_key(graph_id) {
            self.by_graph[graph_id]
        } else {
            Seq::empty()
        }
    }

    /// `result` is appended to the results of its graph and counted.
    pub open spec fn record(self, result: TaskResult) -> ResultStoreState {
        ResultStoreState {
            by_graph: self.by_graph.insert(result.graph_id@, self.results_for(result.graph_id@).push(result)),
            total: self.total + 1,
        }
    }

    /// `results` are recorded one after the other.
    pub open spec fn record_all(self, results: Seq<TaskResult>) -> ResultStoreState
        decreases results.len(),
    {
        if results.len() == 0 {
            self
        } else {
            self.record_all(results.drop_last()).record(results.last())
        }
    }
}

/// The results of all `groups`, group after group.
pub open spec fn all_results(groups: Seq<GraphResults>) -> Seq<TaskResult>
    decreases groups.len(),
{
    if groups.len() == 0 {
        Seq::empty()
    } else {
        all_results(groups.drop_last()) + groups.last().results@
    }
}

/// One more result in one group is one more result in all.
pub proof fn lemma_all_results_grow(before: Seq<GraphResults>, after: Seq<GraphResults>, at: int)
    requires
        0 <= at < before.len(),
        after.len() == before.len(),
        forall|i: int| 0 <= i < before.len() && i != at ==> after[i] == before[i],
        after[at].results@.len() == before[at].results@.len() + 1,
    ensures
        all_results(after).len() == all_results(before).len() + 1,
    decreases before.len(),
{
    if at == before.len() - 1 {
        assert(after.drop_last() =~= before.drop_last());
    } else {
        lemma_all_results_grow(before.drop_last(), after.drop_last(), at);
    }
}

/// Whether one of `groups` belongs to `graph_id`.
pub open spec fn has_group(groups: Seq<GraphResults>, graph_id: Seq<char>) -> bool {
    exists|i: int| 0 <= i < groups.len() && (#[trigger] groups[i]).graph_id@ == graph_id
}

/// The position in `groups` of a group that belongs to `graph_id`.
pub open spec fn group_of(groups: Seq<GraphResults>, graph_id: Seq<char>) -> int {
    choose|i: int| 0 <= i < groups.len() && (#[trigger] groups[i]).graph_id@ == graph_id
}

/// Whether no two of `groups` belong to the same graph.
pub open spec fn distinct_groups(groups: Seq<GraphResults>) -> bool {
    forall|i: int, j: int|
        0 <= i < j < groups.len() ==> (#[trigger] groups[i]).graph_id@ != (#[trigger] groups[j]).graph_id@
}

/// The grouping that `groups` stands for.
pub open spec fn grouping(groups: Seq<GraphResults>) -> Map<Seq<char>, Seq<TaskResult>> {
    Map::new(
        |graph_id: Seq<char>| has_group(groups, graph_id),
        |graph_id: Seq<char>| groups[group_of(groups, graph_id)].results@,
    )
}

/// The store only grows: recording a result raises the count by one, leaves
/// what was recorded for every other graph as it was, and puts the result
/// behind what was recorded for its own graph.
pub proof fn lemma_record_appends(s: ResultStoreState, result: TaskResult, graph_id: Seq<char>)
    ensures
        s.record(result).total == s.total + 1,
        graph_id != result.graph_id@ ==> s.record(result).results_for(graph_id) == s.results_for(graph_id),
        s.record(result).results_for(result.graph_id@) == s.results_for(result.graph_id@).push(result),
        s.results_for(graph_id).is_prefix_of(s.record(result).results_for(graph_id)),
{
}

/// Recording `results` one after the other raises the count by their number
/// and appends to each graph exactly its own results, in the order given.
pub proof fn lemma_record_all(s: ResultStoreState, results: Seq<TaskResult>, graph_id: Seq<char>)
    ensures
        s.record_all(results).total == s.total + results.len(),
        s.record_all(results).results_for(graph_id) == s.results_for(graph_id) + results.filter(
            |r: TaskResult| r.graph_id@ == graph_id,
        ),
    decreases results.len(),
{
    let of_graph = |r: TaskResult| r.graph_id@ == graph_id;
    if results.len() == 0 {
        reveal(Seq::filter);
        assert(s.results_for(graph_id) + results.filter(of_graph) =~= s.results_for(graph_id));
    } else {
        let front = results.drop_last();
        let last = results.last();
        lemma_record_all(s, front, graph_id);
        front.lemma_filter_push(last, of_graph);
        assert(front.push(last) =~= results);
        let mid = s.record_all(front);
        if last.graph_id@ == graph_id {
            assert(mid.record(last).results_for(graph_id) =~= s.results_for(graph_id) + front.filter(of_graph).push(last));
        }
    }
}

/// Why a result could not be recorded.
#[derive(Debug, PartialEq, Eq, Clone, Copy, Structural)]
pub enum StoreError {
    /// The count of results has reached the largest number it can hold.
    CountExhausted,
}

pub struct ResultAggregator {
    results_by_graph: Vec<GraphResults>,
    total_results_collected: usize,
}

impl View for ResultAggregator {
    type V = ResultStoreState;

    closed spec fn view(&self) -> ResultStoreState {
        ResultStoreState {
            by_graph: grouping(self.results_by_graph@),
            total: self.total_results_collected as nat,
        }
    }
}

impl ResultAggregator {
    /// The store's invariant: no graph has two groups, and the count is the
    /// number of results held.
    pub closed spec fn wf(&self) -> bool {
        &&& distinct_groups(self.results_by_graph@)
        &&& self.total_results_collected == all_results(self.results_by_graph@).len()
    }

    #[must_use]
    pub fn new() -> (store: ResultAggregator)
        ensures
            store.wf(),
            store@ == ResultStoreState::empty(),
    {
        let store = ResultAggregator { results_by_graph: Vec::new(), total_results_collected: 0 };
        assert(store@.by_graph =~= Map::empty());
        store
    }

    /// Appends `result` to the results of its graph and counts it. Refused,
    /// with nothing changed, only when the count cannot grow any more.
    pub fn add_result(&mut self, result: TaskResult) -> (outcome: Result<(), StoreError>)
        requires
            old(self).wf(),
        ensures
            final(self).wf(),
            outcome is Ok <==> old(self)@.total < usize::MAX,
            outcome is Ok ==> final(self)@ == old(self)@.record(result),
            outcome is Err ==> outcome == Err::<(), StoreError>(StoreError::CountExhausted)
                && final(self)@ == old(self)@,
    {
        if self.total_results_collected == usize::MAX {
            return Err(StoreError::CountExhausted);
        }
        let ghost before = self.results_by_graph@;
        let ghost key = result.graph_id@;
        let count = self.results_by_graph.len();
        let mut at: usize = 0;
        while at < count && self.results_by_graph[at].graph_id != result.graph_id
            invariant
                at <= count,
                count == self.results_by_graph@.len(),
                self.results_by_graph@ == before,
                forall|i: int| 0 <= i < at ==> (#[trigger] before[i]).graph_id@ != result.graph_id@,
            decreases count - at,
        {
            at += 1;
        }
        if at < count {
            self.results_by_graph[at].results.push(result);
        } else {
            let graph_id = result.graph_id.clone();
            let mut results: Vec<TaskResult> = Vec::new();
            results.push(result);
            self.results_by_graph.push(GraphResults { graph_id, results });
        }
        self.total_results_collected += 1;
        proof {
            let after = self.results_by_graph@;
            let slot: int = at as int;
            assert(after[slot].graph_id@ == key);
            assert(after[slot].results@ == old(self)@.results_for(key).push(result)) by {
                if at < count {
                    assert(before[slot].graph_id@ == key);
                    assert(has_group(before, key));
                    assert(group_of(before, key) == slot);
                } else {
                    assert(!has_group(before, key));
                    assert(after[slot].results@ =~= Seq::<TaskResult>::empty().push(result));
                }
            }
            assert forall|i: int| 0 <= i < after.len() && i != slot implies #[trigger] after[i] == before[i] by {}
            assert(distinct_groups(after));
            if at < count {
                lemma_all_results_grow(before, after, slot);
            } else {
                assert(after.drop_last() =~= before);
            }
            assert forall|g: Seq<char>| has_group(after, g) <==> (g == key || has_group(before, g)) by {
                if has_group(after, g) && g != key {
                    let i = group_of(after, g);
                    assert(before[i].graph_id@ == g);
                }
                if has_group(before, g) {
                    let i = group_of(before, g);
                    assert(after[i].graph_id@ == g);
                }
            }
            assert forall|g: Seq<char>| has_group(after, g) implies #[trigger] grouping(after)[g] == old(self)@.record(result).by_graph[g] by {
                let i = group_of(after, g);
                if g == key {
                    assert(i == slot);
                } else {
                    assert(before[i].graph_id@ == g);
                    assert(group_of(before, g) == i);
                }
            }
            assert(self@.by_graph =~= old(self)@.record(result).by_graph);
        }
        Ok(())
    }

    #[must_use]
    pub fn get_results_collected(&self) -> (total: usize)
        ensures
            total == self@.total,
    {
        self.total_results_collected
    }

    /// Whether anything has been recorded yet.
    pub fn has_results(&self) -> (any: bool)
        ensures
            any == (self@.total > 0),
    {
        self.total_results_collected > 0
    }

    /// The results recorded for `graph_id`, oldest first, if there are any.
    pub fn results_for(&self, graph_id: &str) -> (found: Option<&Vec<TaskResult>>)
        requires
            self.wf(),
        ensures
            found is Some <==> self@.by_graph.contains_key(graph_id@),
            found is Some ==> found->0@ == self@.by_graph[graph_id@],
    {
        let wanted = graph_id.to_owned();
        let mut at: usize = 0;
        while at < self.results_by_graph.len()
            invariant
                self.wf(),
                wanted@ == graph_id@,
                at <= self.results_by_graph@.len(),
                forall|i: int| 0 <= i < at ==> (#[trigger] self.results_by_graph@[i]).graph_id@ != graph_id@,
            decreases self.results_by_graph@.len() - at,
        {
            if self.results_by_graph[at].graph_id == wanted {
                proof {
                    let groups = self.results_by_graph@;
                    assert(groups[at as int].graph_id@ == graph_id@);
                    assert(has_group(groups, graph_id@));
                    assert(group_of(groups, graph_id@) == at);
                }
                return Some(&self.results_by_graph[at].results);
            }
            at += 1;
        }
        None
    }

    /// The groups, one per graph that has results.
    #[must_use]
    pub fn get_all_results(&self) -> (groups: &Vec<GraphResults>)
        requires
            self.wf(),
        ensures
            distinct_groups(groups@),
            grouping(groups@) == self@.by_graph,
            all_results(groups@).len() == self@.total,
    {
        &self.results_by_graph
    }
}

impl Default for ResultAggregator {
    fn default() -> (store: ResultAggregator)
        ensures
            store.wf(),
            store@ == ResultStoreState::empty(),
    {
        ResultAggregator::new()
    }
}

} // verus!
