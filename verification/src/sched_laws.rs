//! What holds of every scheduler state and of every step between states.

use crate::prio_queue::{
    first_index, first_nonempty, lemma_first_index, lemma_first_nonempty,
    lemma_first_queue_with, SchedulerModel, PRIO_NUM,
};
use vstd::prelude::*;

verus! {

/// In a well-formed state `highest_prio` is the least priority with a
/// waiting task, or `PRIO_NUM` when no task waits.
pub proof fn lemma_highest_prio_is_least(s: SchedulerModel)
    requires
        s.wf(),
    ensures
        0 <= s.highest_prio <= PRIO_NUM,
        forall|p: int| 0 <= p < s.highest_prio ==> (#[trigger] s.queues[p]).len() == 0,
        s.highest_prio < PRIO_NUM ==> s.queues[s.highest_prio].len() > 0,
        s.highest_prio == PRIO_NUM <==> forall|p: int|
            0 <= p < PRIO_NUM ==> (#[trigger] s.queues[p]).len() == 0,
{
    lemma_first_nonempty(s.queues, 0, s.highest_prio);
}

/// The empty scheduler is well formed and holds no task twice.
pub proof fn lemma_empty_wf()
    ensures
        SchedulerModel::empty().wf(),
        SchedulerModel::empty().distinct(),
{
    lemma_first_nonempty(SchedulerModel::empty().queues, 0, PRIO_NUM as int);
}

/// Adding a task keeps the state well formed.
pub proof fn lemma_add_task_wf(s: SchedulerModel, task: usize, prio: int)
    requires
        s.wf(),
        0 <= prio < PRIO_NUM,
    ensures
        s.add_task(task, prio).wf(),
{
    let t = s.add_task(task, prio);
    lemma_first_nonempty(s.queues, 0, s.highest_prio);
    lemma_first_nonempty(t.queues, 0, t.highest_prio);
}

/// Picking a task keeps the state well formed.
pub proof fn lemma_pick_next_task_wf(s: SchedulerModel)
    requires
        s.wf(),
    ensures
        s.pick_next_task().wf(),
{
    let t = s.pick_next_task();
    lemma_first_nonempty(s.queues, 0, s.highest_prio);
    if s.highest_prio < PRIO_NUM {
        lemma_first_nonempty(t.queues, s.highest_prio, t.highest_prio);
        lemma_first_nonempty(t.queues, 0, t.highest_prio);
    }
}

/// Giving up the current task keeps the state well formed.
pub proof fn lemma_clear_current_wf(s: SchedulerModel)
    requires
        s.wf(),
    ensures
        s.clear_current().wf(),
{
}

/// Changing a task's priority keeps the state well formed.
pub proof fn lemma_set_priority_wf(s: SchedulerModel, task: usize, prio: int)
    requires
        s.wf(),
        0 <= prio < PRIO_NUM,
    ensures
        s.set_priority(task, prio).wf(),
{
    if s.contains(task) {
        lemma_first_queue_with(s.queues, task, 0, s.prio_of(task));
    }
}

/// A state that holds no task twice holds each task in one queue at most.
pub proof fn lemma_distinct_one_queue(s: SchedulerModel, task: usize, p: int, q: int)
    requires
        s.distinct(),
        0 <= p < s.queues.len(),
        0 <= q < s.queues.len(),
        s.queues[p].contains(task),
        s.queues[q].contains(task),
    ensures
        p == q,
{
    let i = choose|i: int| 0 <= i < s.queues[p].len() && s.queues[p][i] == task;
    let j = choose|j: int| 0 <= j < s.queues[q].len() && s.queues[q][j] == task;
    assert(s.queues[p][i] == s.queues[q][j]);
}

/// Adding a task that does not wait yet keeps every task single.
pub proof fn lemma_add_task_distinct(s: SchedulerModel, task: usize, prio: int)
    requires
        s.wf(),
        s.distinct(),
        !s.contains(task),
        0 <= prio < PRIO_NUM,
    ensures
        s.add_task(task, prio).distinct(),
{
    let t = s.add_task(task, prio);
    assert forall|p: int, i: int, q: int, j: int|
        0 <= p < t.queues.len() && 0 <= i < t.queues[p].len() && 0 <= q < t.queues.len() && 0 <= j
            < t.queues[q].len() && #[trigger] t.queues[p][i] == #[trigger] t.queues[q][j] implies p
        == q && i == j by {
        let new_p = p == prio && i == s.queues[prio].len();
        let new_q = q == prio && j == s.queues[prio].len();
        if !new_p {
            assert(t.queues[p][i] == s.queues[p][i]);
            assert(s.queues[p].contains(s.queues[p][i]));
        }
        if !new_q {
            assert(t.queues[q][j] == s.queues[q][j]);
            assert(s.queues[q].contains(s.queues[q][j]));
        }
    }
}

/// Picking a task keeps every task single.
pub proof fn lemma_pick_next_task_distinct(s: SchedulerModel)
    requires
        s.wf(),
        s.distinct(),
    ensures
        s.pick_next_task().distinct(),
{
    let t = s.pick_next_task();
    let h = s.highest_prio;
    lemma_first_nonempty(s.queues, 0, h);
    if h < PRIO_NUM {
        assert forall|p: int, i: int, q: int, j: int|
            0 <= p < t.queues.len() && 0 <= i < t.queues[p].len() && 0 <= q < t.queues.len() && 0
                <= j < t.queues[q].len() && #[trigger] t.queues[p][i] == #[trigger] t.queues[q][j] implies p
            == q && i == j by {
            let si = if p == h {
                i + 1
            } else {
                i
            };
            let sj = if q == h {
                j + 1
            } else {
                j
            };
            assert(t.queues[p][i] == s.queues[p][si]);
            assert(t.queues[q][j] == s.queues[q][sj]);
        }
    }
}

/// Giving up the current task keeps every task single.
pub proof fn lemma_clear_current_distinct(s: SchedulerModel)
    requires
        s.distinct(),
    ensures
        s.clear_current().distinct(),
{
}

/// Changing a task's priority keeps every task single.
pub proof fn lemma_set_priority_distinct(s: SchedulerModel, task: usize, prio: int)
    requires
        s.wf(),
        s.distinct(),
        0 <= prio < PRIO_NUM,
    ensures
        s.set_priority(task, prio).distinct(),
{
    if s.contains(task) {
        let t = s.set_priority(task, prio);
        let from = s.prio_of(task);
        let at = first_index(s.queues[from], task);
        lemma_first_queue_with(s.queues, task, 0, from);
        lemma_first_index(s.queues[from], task, at);
        assert(0 <= at < s.queues[from].len()) by {
            let k = choose|k: int| 0 <= k < s.queues[from].len() && s.queues[from][k] == task;
            if at >= s.queues[from].len() {
                assert(s.queues[from][k] != task);
            }
        }
        let removed = s.queues.update(from, s.queues[from].remove(at));
        // where an element of the new state sat in the old one; the moved task itself has no such place
        let back = |p: int, i: int|
            if p == from && i >= at {
                i + 1
            } else {
                i
            };
        assert forall|p: int, i: int|
            0 <= p < removed.len() && 0 <= i < removed[p].len() implies #[trigger] removed[p][i]
            == s.queues[p][back(p, i)] && 0 <= back(p, i) < s.queues[p].len() && removed[p][i]
            != task by {
            if removed[p][i] == task {
                assert(s.queues[p][back(p, i)] == s.queues[from][at]);
            }
        }
        assert forall|p: int, i: int, q: int, j: int|
            0 <= p < t.queues.len() && 0 <= i < t.queues[p].len() && 0 <= q < t.queues.len() && 0
                <= j < t.queues[q].len() && #[trigger] t.queues[p][i] == #[trigger] t.queues[q][j] implies p
            == q && i == j by {
            let new_p = p == prio && i == removed[prio].len();
            let new_q = q == prio && j == removed[prio].len();
            if !new_p {
                assert(t.queues[p][i] == removed[p][i]);
            }
            if !new_q {
                assert(t.queues[q][j] == removed[q][j]);
            }
            if !new_p && !new_q {
                assert(s.queues[p][back(p, i)] == s.queues[q][back(q, j)]);
            }
        }
    }
}

/// A task that is added waits afterwards, and every task that waited
/// still does.
pub proof fn lemma_add_task_contains(s: SchedulerModel, task: usize, prio: int, other: usize)
    requires
        s.wf(),
        0 <= prio < PRIO_NUM,
    ensures
        s.add_task(task, prio).contains(task),
        s.add_task(task, prio).contains(other) <==> other == task || s.contains(other),
{
    let t = s.add_task(task, prio);
    assert(t.queues[prio][s.queues[prio].len() as int] == task);
    assert(t.queues[prio].contains(task));
    if s.contains(other) {
        let p = choose|p: int| 0 <= p < s.queues.len() && #[trigger] s.queues[p].contains(other);
        let i = choose|i: int| 0 <= i < s.queues[p].len() && s.queues[p][i] == other;
        assert(t.queues[p][i] == other);
        assert(t.queues[p].contains(other));
    }
    if t.contains(other) && other != task {
        let p = choose|p: int| 0 <= p < t.queues.len() && #[trigger] t.queues[p].contains(other);
        let i = choose|i: int| 0 <= i < t.queues[p].len() && t.queues[p][i] == other;
        assert(s.queues[p][i] == other);
        assert(s.queues[p].contains(other));
    }
}

/// The task that a pick takes waited before, and where no task waits
/// twice it waits no longer afterwards.
pub proof fn lemma_picked_task_leaves(s: SchedulerModel)
    requires
        s.wf(),
        s.next_task() is Some,
    ensures
        s.contains(s.next_task()->0),
        s.distinct() ==> !s.pick_next_task().contains(s.next_task()->0),
{
    let task = s.next_task()->0;
    let h = s.highest_prio;
    let t = s.pick_next_task();
    lemma_first_nonempty(s.queues, 0, h);
    assert(s.queues[h][0] == task);
    assert(s.queues[h].contains(task));
    if s.distinct() && t.contains(task) {
        let p = choose|p: int| 0 <= p < t.queues.len() && #[trigger] t.queues[p].contains(task);
        let i = choose|i: int| 0 <= i < t.queues[p].len() && t.queues[p][i] == task;
        let si = if p == h {
            i + 1
        } else {
            i
        };
        assert(s.queues[p][si] == s.queues[h][0]);
    }
}

/// `first` waits in the same queue as `second` and nearer to its front.
pub open spec fn ahead_of(s: SchedulerModel, first: usize, second: usize) -> bool {
    exists|p: int, i: int, j: int|
        #![trigger s.queues[p][i], s.queues[p][j]]
        0 <= p < s.queues.len() && 0 <= i < j < s.queues[p].len() && s.queues[p][i] == first
            && s.queues[p][j] == second
}

/// A task that is added waits behind every task of its priority.
pub proof fn lemma_add_task_goes_last(s: SchedulerModel, task: usize, prio: int, earlier: usize)
    requires
        s.wf(),
        0 <= prio < PRIO_NUM,
        s.queues[prio].contains(earlier),
    ensures
        ahead_of(s.add_task(task, prio), earlier, task),
{
    let t = s.add_task(task, prio);
    let i = choose|i: int| 0 <= i < s.queues[prio].len() && s.queues[prio][i] == earlier;
    let j = s.queues[prio].len() as int;
    assert(t.queues[prio][i] == earlier && t.queues[prio][j] == task);
}

/// Adding a task leaves the order of the waiting tasks as it was.
pub proof fn lemma_add_task_keeps_order(
    s: SchedulerModel,
    task: usize,
    prio: int,
    first: usize,
    second: usize,
)
    requires
        s.wf(),
        0 <= prio < PRIO_NUM,
        ahead_of(s, first, second),
    ensures
        ahead_of(s.add_task(task, prio), first, second),
{
    let t = s.add_task(task, prio);
    let (p, i, j) = choose|p: int, i: int, j: int|
        #![trigger s.queues[p][i], s.queues[p][j]]
        0 <= p < s.queues.len() && 0 <= i < j < s.queues[p].len() && s.queues[p][i] == first
            && s.queues[p][j] == second;
    assert(t.queues[p][i] == first && t.queues[p][j] == second);
}

/// First in, first out: of two tasks in one queue the pick never takes the
/// later one, and it leaves the two in their order unless it takes the
/// earlier one.
pub proof fn lemma_pick_next_task_keeps_order(s: SchedulerModel, first: usize, second: usize)
    requires
        s.wf(),
        s.distinct(),
        ahead_of(s, first, second),
    ensures
        s.next_task() != Some(second),
        s.next_task() == Some(first) || ahead_of(s.pick_next_task(), first, second),
{
    let t = s.pick_next_task();
    let h = s.highest_prio;
    let (p, i, j) = choose|p: int, i: int, j: int|
        #![trigger s.queues[p][i], s.queues[p][j]]
        0 <= p < s.queues.len() && 0 <= i < j < s.queues[p].len() && s.queues[p][i] == first
            && s.queues[p][j] == second;
    lemma_first_nonempty(s.queues, 0, h);
    assert(s.queues[p].len() > 0);
    assert(h < PRIO_NUM);
    if s.next_task() == Some(second) {
        assert(s.queues[h][0] == s.queues[p][j]);
    }
    if s.next_task() != Some(first) {
        if p == h {
            assert(i != 0);
            assert(t.queues[p][i - 1] == first && t.queues[p][j - 1] == second);
        } else {
            assert(t.queues[p][i] == first && t.queues[p][j] == second);
        }
    }
}

/// Changing the priority of another task leaves two waiting tasks in their
/// order.
pub proof fn lemma_set_priority_keeps_order(
    s: SchedulerModel,
    task: usize,
    prio: int,
    first: usize,
    second: usize,
)
    requires
        s.wf(),
        0 <= prio < PRIO_NUM,
        task != first,
        task != second,
        ahead_of(s, first, second),
    ensures
        ahead_of(s.set_priority(task, prio), first, second),
{
    if s.contains(task) {
        let t = s.set_priority(task, prio);
        let from = s.prio_of(task);
        let at = first_index(s.queues[from], task);
        lemma_first_queue_with(s.queues, task, 0, from);
        lemma_first_index(s.queues[from], task, at);
        let (p, i, j) = choose|p: int, i: int, j: int|
            #![trigger s.queues[p][i], s.queues[p][j]]
            0 <= p < s.queues.len() && 0 <= i < j < s.queues[p].len() && s.queues[p][i] == first
                && s.queues[p][j] == second;
        let removed = s.queues.update(from, s.queues[from].remove(at));
        let ni = if p == from && i > at {
            i - 1
        } else {
            i
        };
        let nj = if p == from && j > at {
            j - 1
        } else {
            j
        };
        assert(removed[p][ni] == first && removed[p][nj] == second);
        assert(t.queues[p][ni] == first && t.queues[p][nj] == second);
    }
}

/// Giving up the current task leaves two waiting tasks in their order.
pub proof fn lemma_clear_current_keeps_order(s: SchedulerModel, first: usize, second: usize)
    requires
        ahead_of(s, first, second),
    ensures
        ahead_of(s.clear_current(), first, second),
{
    let t = s.clear_current();
    let (p, i, j) = choose|p: int, i: int, j: int|
        #![trigger s.queues[p][i], s.queues[p][j]]
        0 <= p < s.queues.len() && 0 <= i < j < s.queues[p].len() && s.queues[p][i] == first
            && s.queues[p][j] == second;
    assert(t.queues[p][i] == first && t.queues[p][j] == second);
}

/// Two tasks that are added one after the other at one priority, and that
/// did not wait before, wait in the order in which they were added.
pub proof fn lemma_added_in_order(s: SchedulerModel, first: usize, second: usize, prio: int)
    requires
        s.wf(),
        s.distinct(),
        0 <= prio < PRIO_NUM,
        !s.contains(first),
        !s.contains(second),
        first != second,
    ensures
        s.add_task(first, prio).add_task(second, prio).wf(),
        s.add_task(first, prio).add_task(second, prio).distinct(),
        ahead_of(s.add_task(first, prio).add_task(second, prio), first, second),
{
    let one = s.add_task(first, prio);
    lemma_add_task_wf(s, first, prio);
    lemma_add_task_distinct(s, first, prio);
    assert(one.queues[prio][s.queues[prio].len() as int] == first);
    assert(one.queues[prio].contains(first));
    assert(!one.contains(second)) by {
        assert forall|p: int| 0 <= p < one.queues.len() implies !(#[trigger] one.queues[p]).contains(
            second,
        ) by {
            if one.queues[p].contains(second) {
                let i = choose|i: int| 0 <= i < one.queues[p].len() && one.queues[p][i] == second;
                assert(s.queues[p][i] == second);
                assert(s.queues[p].contains(second));
            }
        }
    }
    lemma_add_task_wf(one, second, prio);
    lemma_add_task_distinct(one, second, prio);
    lemma_add_task_goes_last(one, second, prio, first);
}

/// Giving up the current task and then picking makes the priority of the
/// picked task the current one.
pub proof fn lemma_pick_after_clear_sets_current(s: SchedulerModel)
    requires
        s.wf(),
    ensures
        s.clear_current().next_task() == s.next_task(),
        s.next_task() is Some ==> {
            let task = s.next_task()->0;
            let picked = s.clear_current().pick_next_task();
            &&& picked.current_prio == s.prio_of(task)
            &&& picked.current_prio == s.highest_prio
            &&& s.queues[picked.current_prio][0] == task
        },
        s.next_task() is None ==> s.clear_current().pick_next_task().current_prio == PRIO_NUM,
{
    lemma_first_nonempty(s.queues, 0, s.highest_prio);
    if s.next_task() is Some {
        let task = s.next_task()->0;
        let h = s.highest_prio;
        assert(s.queues[h][0] == task);
        assert(s.queues[h].contains(task));
        assert forall|p: int| 0 <= p < h implies !(#[trigger] s.queues[p]).contains(task) by {
            assert(s.queues[p].len() == 0);
        }
        lemma_first_queue_with(s.queues, task, 0, h);
    }
}

/// Adding a task asks for a reschedule exactly when, with the task in its
/// queue, the best waiting priority is strictly better than the current one.
pub proof fn lemma_add_task_resched(s: SchedulerModel, task: usize, prio: int)
    requires
        s.wf(),
        0 <= prio < PRIO_NUM,
    ensures
        s.add_task(task, prio).needs_resched() <==> first_nonempty(s.add_task(task, prio).queues, 0)
            < s.current_prio,
        s.add_task(task, prio).needs_resched() <==> (prio < s.current_prio || s.needs_resched()),
{
    lemma_add_task_wf(s, task, prio);
}

/// One operation on a scheduler.
pub enum Step {
    AddTask { task: usize, prio: int },
    PickNextTask,
    ClearCurrent,
    SetPriority { task: usize, prio: int },
}

impl Step {
    /// The state after the operation.
    pub open spec fn apply(self, s: SchedulerModel) -> SchedulerModel {
        match self {
            Step::AddTask { task, prio } => s.add_task(task, prio),
            Step::PickNextTask => s.pick_next_task(),
            Step::ClearCurrent => s.clear_current(),
            Step::SetPriority { task, prio } => s.set_priority(task, prio),
        }
    }

    /// The task that the operation hands out: that of a pick, if it finds
    /// one.
    pub open spec fn picks(self, s: SchedulerModel) -> Option<usize> {
        match self {
            Step::PickNextTask => s.next_task(),
            _ => None,
        }
    }

    /// Whether the operation may be made in the state `s`: its priority
    /// names a queue, and a task that is added does not wait already.
    pub open spec fn allowed(self, s: SchedulerModel) -> bool {
        match self {
            Step::AddTask { task, prio } => 0 <= prio < PRIO_NUM && !s.contains(task),
            Step::SetPriority { task, prio } => 0 <= prio < PRIO_NUM,
            _ => true,
        }
    }

    /// Whether the operation changes the priority of `task`.
    pub open spec fn reprioritizes(self, task: usize) -> bool {
        self matches Step::SetPriority { task: moved, .. } && moved == task
    }
}

/// The state after the operations `steps`, made one after the other from
/// the state `s`.
pub open spec fn run(s: SchedulerModel, steps: Seq<Step>) -> SchedulerModel
    decreases steps.len(),
{
    if steps.len() == 0 {
        s
    } else {
        steps.last().apply(run(s, steps.drop_last()))
    }
}

/// The task that the operation `steps[k]` hands out when the operations
/// are made one after the other from the state `s`.
pub open spec fn picked_at(s: SchedulerModel, steps: Seq<Step>, k: int) -> Option<usize> {
    steps[k].picks(run(s, steps.take(k)))
}

/// Whether the operation `steps[k]` may be made in the state in which it is
/// made when the operations are made one after the other from the state `s`.
pub open spec fn allowed_at(s: SchedulerModel, steps: Seq<Step>, k: int) -> bool {
    steps[k].allowed(run(s, steps.take(k)))
}

/// Whether each of the operations may be made in the state in which it is
/// made.
pub open spec fn all_allowed(s: SchedulerModel, steps: Seq<Step>) -> bool {
    forall|k: int| 0 <= k < steps.len() ==> #[trigger] allowed_at(s, steps, k)
}

/// Whether one of the operations before `steps[k]` hands out `task`.
pub open spec fn picked_before(s: SchedulerModel, steps: Seq<Step>, k: int, task: usize) -> bool {
    exists|j: int| 0 <= j < k && #[trigger] picked_at(s, steps, j) == Some(task)
}

/// An allowed operation keeps a state well formed, so that `highest_prio`
/// names the first non-empty queue after it, and it keeps every task
/// single where every task was.
pub proof fn lemma_step_keeps_invariants(s: SchedulerModel, step: Step)
    requires
        s.wf(),
        step.allowed(s),
    ensures
        step.apply(s).wf(),
        step.apply(s).highest_prio == first_nonempty(step.apply(s).queues, 0),
        s.distinct() ==> step.apply(s).distinct(),
{
    match step {
        Step::AddTask { task, prio } => {
            lemma_add_task_wf(s, task, prio);
            if s.distinct() {
                lemma_add_task_distinct(s, task, prio);
            }
        },
        Step::PickNextTask => {
            lemma_pick_next_task_wf(s);
            if s.distinct() {
                lemma_pick_next_task_distinct(s);
            }
        },
        Step::ClearCurrent => {},
        Step::SetPriority { task, prio } => {
            lemma_set_priority_wf(s, task, prio);
            if s.distinct() {
                lemma_set_priority_distinct(s, task, prio);
            }
        },
    }
}

/// After every one of the operations of a run the state is well formed,
/// and it holds every task once at most if the first state did.
pub proof fn lemma_run_keeps_invariants(s: SchedulerModel, steps: Seq<Step>, k: int)
    requires
        s.wf(),
        all_allowed(s, steps),
        0 <= k <= steps.len(),
    ensures
        run(s, steps.take(k)).wf(),
        s.distinct() ==> run(s, steps.take(k)).distinct(),
    decreases k,
{
    if k == 0 {
        assert(steps.take(0) =~= Seq::<Step>::empty());
    } else {
        lemma_run_keeps_invariants(s, steps, k - 1);
        let before = run(s, steps.take(k - 1));
        assert(steps.take(k).drop_last() =~= steps.take(k - 1));
        assert(steps.take(k).last() == steps[k - 1]);
        assert(allowed_at(s, steps, k - 1));
        lemma_step_keeps_invariants(before, steps[k - 1]);
    }
}

/// One allowed operation keeps the state well formed and every task
/// single. If it does not change the priority of two tasks of which one
/// waits ahead of the other, it does not hand out the later one, and it
/// leaves the two in their order unless it hands out the earlier one.
pub proof fn lemma_step_keeps_order(s: SchedulerModel, step: Step, first: usize, second: usize)
    requires
        s.wf(),
        s.distinct(),
        step.allowed(s),
        !step.reprioritizes(first),
        !step.reprioritizes(second),
    ensures
        step.apply(s).wf(),
        step.apply(s).distinct(),
        ahead_of(s, first, second) ==> step.picks(s) != Some(second) && (step.picks(s) == Some(first)
            || ahead_of(step.apply(s), first, second)),
{
    let ordered = ahead_of(s, first, second);
    match step {
        Step::AddTask { task, prio } => {
            lemma_add_task_wf(s, task, prio);
            lemma_add_task_distinct(s, task, prio);
            if ordered {
                lemma_add_task_keeps_order(s, task, prio, first, second);
            }
        },
        Step::PickNextTask => {
            lemma_pick_next_task_wf(s);
            lemma_pick_next_task_distinct(s);
            if ordered {
                lemma_pick_next_task_keeps_order(s, first, second);
            }
        },
        Step::ClearCurrent => {
            if ordered {
                lemma_clear_current_keeps_order(s, first, second);
            }
        },
        Step::SetPriority { task, prio } => {
            lemma_set_priority_wf(s, task, prio);
            lemma_set_priority_distinct(s, task, prio);
            if ordered {
                lemma_set_priority_keeps_order(s, task, prio, first, second);
            }
        },
    }
}

/// The first `k` operations keep the state well formed and every task
/// single; they leave `first` ahead of `second` until `first` is picked,
/// and pick `second` only after `first`.
proof fn lemma_fifo_prefix(s: SchedulerModel, steps: Seq<Step>, first: usize, second: usize, k: int)
    requires
        s.wf(),
        s.distinct(),
        ahead_of(s, first, second),
        all_allowed(s, steps),
        forall|j: int|
            0 <= j < steps.len() ==> !(#[trigger] steps[j]).reprioritizes(first) && !steps[j].reprioritizes(
                second,
            ),
        0 <= k <= steps.len(),
    ensures
        run(s, steps.take(k)).wf(),
        run(s, steps.take(k)).distinct(),
        ahead_of(run(s, steps.take(k)), first, second) || picked_before(s, steps, k, first),
        forall|j: int|
            0 <= j < k && #[trigger] picked_at(s, steps, j) == Some(second) ==> picked_before(
                s,
                steps,
                j,
                first,
            ),
    decreases k,
{
    if k == 0 {
        assert(steps.take(0) =~= Seq::<Step>::empty());
    } else {
        lemma_fifo_prefix(s, steps, first, second, k - 1);
        let before = run(s, steps.take(k - 1));
        let step = steps[k - 1];
        assert(steps.take(k).drop_last() =~= steps.take(k - 1));
        assert(steps.take(k).last() == step);
        assert(run(s, steps.take(k)) == step.apply(before));
        assert(allowed_at(s, steps, k - 1));
        assert(step.allowed(before));
        assert(!step.reprioritizes(first) && !step.reprioritizes(second));
        lemma_step_keeps_order(before, step, first, second);
        assert(picked_at(s, steps, k - 1) == step.picks(before));
        if ahead_of(before, first, second) {
            if step.picks(before) == Some(first) {
                assert(picked_before(s, steps, k, first));
            }
        } else {
            let j = choose|j: int| 0 <= j < k - 1 && #[trigger] picked_at(s, steps, j) == Some(first);
            assert(picked_at(s, steps, j) == Some(first));
            assert(picked_before(s, steps, k, first));
            assert(picked_before(s, steps, k - 1, first));
        }
    }
}

/// First in, first out, over any run of operations: where `first` waits
/// ahead of `second` in one queue, and no operation changes the priority of
/// either, a pick hands out `second` only after an earlier pick has handed
/// out `first`.
pub proof fn lemma_fifo(s: SchedulerModel, steps: Seq<Step>, first: usize, second: usize)
    requires
        s.wf(),
        s.distinct(),
        ahead_of(s, first, second),
        all_allowed(s, steps),
        forall|j: int|
            0 <= j < steps.len() ==> !(#[trigger] steps[j]).reprioritizes(first) && !steps[j].reprioritizes(
                second,
            ),
    ensures
        forall|k: int|
            0 <= k < steps.len() && #[trigger] picked_at(s, steps, k) == Some(second) ==> picked_before(
                s,
                steps,
                k,
                first,
            ),
        run(s, steps).wf(),
        run(s, steps).distinct(),
{
    lemma_fifo_prefix(s, steps, first, second, steps.len() as int);
    assert(steps.take(steps.len() as int) =~= steps);
}

} // verus!
