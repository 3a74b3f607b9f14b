//! The priority scheduler: `PRIO_NUM` FIFO run queues, the priority of the
//! task picked last, and the highest priority that has a task waiting.

use std::collections::VecDeque;
use vstd::prelude::*;

verus! {

/// Number of priority levels. A lower number is a higher priority; the value
/// `PRIO_NUM` itself stands for "no task".
pub const PRIO_NUM: usize = 4;

/// Index of the first non-empty queue at or after `from`, or `queues.len()`
/// when every queue from `from` on is empty.
pub open spec fn first_nonempty(queues: Seq<Seq<usize>>, from: int) -> int
    decreases queues.len() - from,
{
    if from < 0 || from >= queues.len() {
        queues.len() as int
    } else if queues[from].len() > 0 {
        from
    } else {
        first_nonempty(queues, from + 1)
    }
}

/// Index of the first queue at or after `from` that holds `task`, or
/// `queues.len()` when none does.
pub open spec fn first_queue_with(queues: Seq<Seq<usize>>, task: usize, from: int) -> int
    decreases queues.len() - from,
{
    if from < 0 || from >= queues.len() {
        queues.len() as int
    } else if queues[from].contains(task) {
        from
    } else {
        first_queue_with(queues, task, from + 1)
    }
}

/// Position of the first occurrence of `task` in `queue`, or `queue.len()`
/// when it does not occur.
pub open spec fn first_index(queue: Seq<usize>, task: usize) -> int
    decreases queue.len(),
{
    if queue.len() == 0 {
        0
    } else if queue[0] == task {
        0
    } else {
        1 + first_index(queue.drop_first(), task)
    }
}

/// What a scheduler holds, as mathematical values.
pub struct SchedulerModel {
    /// The run queues, indexed by priority; the front of each is index 0.
    pub queues: Seq<Seq<usize>>,
    /// Priority of the task picked last, `PRIO_NUM` when there is none.
    pub current_prio: int,
    /// Lowest index of a non-empty queue, `PRIO_NUM` when all are empty.
    pub highest_prio: int,
}

impl SchedulerModel {
    /// The empty scheduler.
    pub open spec fn empty() -> SchedulerModel {
        SchedulerModel {
            queues: Seq::new(PRIO_NUM as nat, |p: int| Seq::<usize>::empty()),
            current_prio: PRIO_NUM as int,
            highest_prio: PRIO_NUM as int,
        }
    }

    /// The invariant of a scheduler: one queue per priority, a current
    /// priority within range, and `highest_prio` naming the first non-empty
    /// queue.
    pub open spec fn wf(self) -> bool {
        &&& self.queues.len() == PRIO_NUM
        &&& 0 <= self.current_prio <= PRIO_NUM
        &&& self.highest_prio == first_nonempty(self.queues, 0)
    }

    /// Whether `task` waits in some queue.
    pub open spec fn contains(self, task: usize) -> bool {
        exists|p: int| 0 <= p < self.queues.len() && #[trigger] self.queues[p].contains(task)
    }

    /// Priority of the queue in which `task` waits: the first one that holds
    /// it, `queues.len()` when none does.
    pub open spec fn prio_of(self, task: usize) -> int {
        first_queue_with(self.queues, task, 0)
    }

    /// No task waits twice, neither in two queues nor twice in one.
    pub open spec fn distinct(self) -> bool {
        forall|p: int, i: int, q: int, j: int|
            0 <= p < self.queues.len() && 0 <= i < self.queues[p].len() && 0 <= q
                < self.queues.len() && 0 <= j < self.queues[q].len() && #[trigger] self.queues[p][i]
                == #[trigger] self.queues[q][j] ==> p == q && i == j
    }

    /// The priority that a scheduler shows to the outside: that of its
    /// current task or of its best waiting task, whichever is higher.
    pub open spec fn effective_prio(self) -> int {
        if self.current_prio <= self.highest_prio {
            self.current_prio
        } else {
            self.highest_prio
        }
    }

    /// Whether a strictly better task waits than the one picked last.
    pub open spec fn needs_resched(self) -> bool {
        self.highest_prio < self.current_prio
    }

    /// The state after `task` was appended to the queue of priority `prio`.
    pub open spec fn add_task(self, task: usize, prio: int) -> SchedulerModel {
        SchedulerModel {
            queues: self.queues.update(prio, self.queues[prio].push(task)),
            current_prio: self.current_prio,
            highest_prio: if prio < self.highest_prio {
                prio
            } else {
                self.highest_prio
            },
        }
    }

    /// The task that the next pick takes: the front of the first non-empty
    /// queue.
    pub open spec fn next_task(self) -> Option<usize> {
        if 0 <= self.highest_prio < self.queues.len() {
            Some(self.queues[self.highest_prio][0])
        } else {
            None
        }
    }

    /// The state after a pick: the front of the first non-empty queue is
    /// gone and its priority is the current one. With nothing to pick the
    /// state stays as it is.
    pub open spec fn pick_next_task(self) -> SchedulerModel {
        if 0 <= self.highest_prio < self.queues.len() {
            let h = self.highest_prio;
            let queues = self.queues.update(h, self.queues[h].drop_first());
            SchedulerModel {
                queues,
                current_prio: h,
                highest_prio: first_nonempty(queues, h),
            }
        } else {
            self
        }
    }

    /// The state after the current task was given up.
    pub open spec fn clear_current(self) -> SchedulerModel {
        SchedulerModel { current_prio: PRIO_NUM as int, ..self }
    }

    /// The state after the first occurrence of `task` moved to the back of
    /// the queue of priority `prio`. Without such a task the state stays as
    /// it is.
    pub open spec fn set_priority(self, task: usize, prio: int) -> SchedulerModel {
        if self.contains(task) {
            let p = self.prio_of(task);
            let removed = self.queues.update(p, self.queues[p].remove(first_index(self.queues[p], task)));
            let queues = removed.update(prio, removed[prio].push(task));
            SchedulerModel {
                queues,
                current_prio: self.current_prio,
                highest_prio: first_nonempty(queues, 0),
            }
        } else {
            self
        }
    }
}

/// `first_nonempty` is the one index at or after `from` that has only empty
/// queues between `from` and itself and is non-empty unless it is the end.
pub proof fn lemma_first_nonempty(queues: Seq<Seq<usize>>, from: int, h: int)
    requires
        0 <= from <= queues.len(),
    ensures
        first_nonempty(queues, from) == h <==> {
            &&& from <= h <= queues.len()
            &&& forall|p: int| from <= p < h ==> (#[trigger] queues[p]).len() == 0
            &&& h < queues.len() ==> queues[h].len() > 0
        },
    decreases queues.len() - from,
{
    if from < queues.len() && queues[from].len() == 0 {
        lemma_first_nonempty(queues, from + 1, h);
        lemma_first_nonempty(queues, from + 1, first_nonempty(queues, from + 1));
    }
}

/// `first_queue_with` is the one index at or after `from` before which no
/// queue holds `task` and which holds it unless it is the end.
pub proof fn lemma_first_queue_with(queues: Seq<Seq<usize>>, task: usize, from: int, h: int)
    requires
        0 <= from <= queues.len(),
    ensures
        first_queue_with(queues, task, from) == h <==> {
            &&& from <= h <= queues.len()
            &&& forall|p: int| from <= p < h ==> !(#[trigger] queues[p]).contains(task)
            &&& h < queues.len() ==> queues[h].contains(task)
        },
    decreases queues.len() - from,
{
    if from < queues.len() && !queues[from].contains(task) {
        lemma_first_queue_with(queues, task, from + 1, h);
        lemma_first_queue_with(queues, task, from + 1, first_queue_with(queues, task, from + 1));
    }
}

/// `first_index` is the one position before which `task` does not occur and
/// at which it occurs unless it is the end.
pub proof fn lemma_first_index(queue: Seq<usize>, task: usize, i: int)
    ensures
        first_index(queue, task) == i <==> {
            &&& 0 <= i <= queue.len()
            &&& forall|j: int| 0 <= j < i ==> #[trigger] queue[j] != task
            &&& i < queue.len() ==> queue[i] == task
        },
    decreases queue.len(),
{
    if queue.len() > 0 && queue[0] != task {
        let rest = queue.drop_first();
        lemma_first_index(rest, task, i - 1);
        lemma_first_index(rest, task, first_index(rest, task));
        assert forall|j: int| 0 <= j < rest.len() implies #[trigger] rest[j] == queue[j + 1] by {}
        if first_index(queue, task) == i {
            assert forall|j: int| 0 <= j < i implies #[trigger] queue[j] != task by {
                if j > 0 {
                    assert(rest[j - 1] == queue[j]);
                }
            }
        }
        if 0 < i <= queue.len() && (forall|j: int| 0 <= j < i ==> #[trigger] queue[j] != task) && (i
            < queue.len() ==> queue[i] == task) {
            assert forall|j: int| 0 <= j < i - 1 implies #[trigger] rest[j] != task by {
                assert(queue[j + 1] != task);
            }
        }
    }
}

/// A scheduler: one FIFO queue of task handles per priority.
pub struct Scheduler {
    queues: [VecDeque<usize>; PRIO_NUM],
    current_prio: usize,
    highest_prio: usize,
}

impl View for Scheduler {
    type V = SchedulerModel;

    closed spec fn view(&self) -> SchedulerModel {
        SchedulerModel {
            queues: Seq::new(PRIO_NUM as nat, |p: int| self.queues[p]@),
            current_prio: self.current_prio as int,
            highest_prio: self.highest_prio as int,
        }
    }
}

impl Scheduler {
    /// The invariant that every operation keeps.
    pub open spec fn wf(&self) -> bool {
        self@.wf()
    }

    /// An empty scheduler with no current task.
    pub fn new() -> (s: Self)
        ensures
            s.wf(),
            s@ == SchedulerModel::empty(),
    {
        let s = Scheduler {
            queues: [VecDeque::new(), VecDeque::new(), VecDeque::new(), VecDeque::new()],
            current_prio: PRIO_NUM,
            highest_prio: PRIO_NUM,
        };
        proof {
            assert(s@.queues =~= SchedulerModel::empty().queues);
            lemma_first_nonempty(s@.queues, 0, PRIO_NUM as int);
        }
        s
    }

    /// Appends `task_ptr` to the queue of priority `task_prio`. The result
    /// says whether a strictly better task now waits than the current one.
    pub fn add_task(&mut self, task_ptr: usize, task_prio: usize) -> (resched: bool)
        requires
            old(self).wf(),
            task_prio < PRIO_NUM,
        ensures
            final(self).wf(),
            final(self)@ == old(self)@.add_task(task_ptr, task_prio as int),
            resched == final(self)@.needs_resched(),
    {
        if self.highest_prio > task_prio {
            self.highest_prio = task_prio;
        }
        self.queues[task_prio].push_back(task_ptr);
        proof {
            let before = old(self)@;
            let after = before.add_task(task_ptr, task_prio as int);
            assert(self@.queues =~= after.queues);
            lemma_first_nonempty(before.queues, 0, before.highest_prio);
            lemma_first_nonempty(after.queues, 0, after.highest_prio);
        }
        self.highest_prio < self.current_prio
    }

    /// Gives up the current task: no priority is current any more.
    pub fn clear_current(&mut self)
        requires
            old(self).wf(),
        ensures
            final(self).wf(),
            final(self)@ == old(self)@.clear_current(),
    {
        self.current_prio = PRIO_NUM;
        proof {
            assert(self@.queues =~= old(self)@.queues);
        }
    }

    /// Takes the front task of the first non-empty queue and makes its
    /// priority the current one. With no task waiting nothing changes and
    /// the result is `None`.
    pub fn pick_next_task(&mut self) -> (picked: Option<usize>)
        requires
            old(self).wf(),
        ensures
            final(self).wf(),
            picked == old(self)@.next_task(),
            final(self)@ == old(self)@.pick_next_task(),
    {
        let ghost before = self@;
        proof {
            lemma_first_nonempty(before.queues, 0, before.highest_prio);
        }
        let mut picked_task: Option<usize> = None;
        let mut prio: usize = 0;
        loop
            invariant_except_break
                prio < PRIO_NUM,
                picked_task is None,
                self@ == before,
                forall|p: int| 0 <= p < prio ==> (#[trigger] before.queues[p]).len() == 0,
            invariant
                before.wf(),
            ensures
                prio <= PRIO_NUM,
                before.highest_prio == prio,
                match picked_task {
                    Some(t) => {
                        &&& prio < PRIO_NUM
                        &&& t == before.queues[prio as int][0]
                        &&& self@.queues == before.queues.update(
                            prio as int,
                            before.queues[prio as int].drop_first(),
                        )
                        &&& self@.current_prio == prio
                    },
                    None => prio == PRIO_NUM && self@ == before,
                },
            decreases PRIO_NUM - prio,
        {
            picked_task = self.queues[prio].pop_front();
            if picked_task.is_some() {
                self.current_prio = prio;
                proof {
                    assert(self@.queues =~= before.queues.update(
                        prio as int,
                        before.queues[prio as int].drop_first(),
                    ));
                    lemma_first_nonempty(before.queues, 0, prio as int);
                }
                break ;
            }
            proof {
                assert(self@.queues =~= before.queues);
            }
            prio += 1;
            if prio == PRIO_NUM {
                proof {
                    lemma_first_nonempty(before.queues, 0, prio as int);
                }
                break ;
            }
        }
        let ghost start = prio as int;
        let ghost taken = self@;
        loop
            invariant_except_break
                0 <= start <= prio <= PRIO_NUM,
                self@ == taken,
                taken.queues.len() == PRIO_NUM,
                forall|p: int| start <= p < prio ==> (#[trigger] taken.queues[p]).len() == 0,
            ensures
                self@.queues == taken.queues,
                self@.current_prio == taken.current_prio,
                self@.highest_prio == first_nonempty(taken.queues, start),
            decreases PRIO_NUM - prio,
        {
            if prio == PRIO_NUM || !(self.queues[prio].len() == 0) {
                self.highest_prio = prio;
                proof {
                    assert(self@.queues =~= taken.queues);
                    lemma_first_nonempty(taken.queues, start, prio as int);
                }
                break ;
            }
            prio += 1;
        }
        proof {
            if picked_task is Some {
                lemma_first_nonempty(self@.queues, 0, self@.highest_prio);
                lemma_first_nonempty(self@.queues, start, self@.highest_prio);
            }
        }
        picked_task
    }

    /// Position of the first occurrence of `task_ptr` in the queue of
    /// priority `prio`.
    fn position(&self, prio: usize, task_ptr: usize) -> (found: Option<usize>)
        requires
            prio < PRIO_NUM,
        ensures
            match found {
                Some(i) => {
                    &&& i < self@.queues[prio as int].len()
                    &&& i == first_index(self@.queues[prio as int], task_ptr)
                    &&& self@.queues[prio as int].contains(task_ptr)
                },
                None => !self@.queues[prio as int].contains(task_ptr),
            },
    {
        let ghost queue = self@.queues[prio as int];
        let len = self.queues[prio].len();
        let mut i: usize = 0;
        while i < len
            invariant
                prio < PRIO_NUM,
                queue == self@.queues[prio as int],
                queue == self.queues[prio as int]@,
                len == queue.len(),
                i <= len,
                forall|j: int| 0 <= j < i ==> #[trigger] queue[j] != task_ptr,
            decreases len - i,
        {
            if self.queues[prio][i] == task_ptr {
                proof {
                    lemma_first_index(queue, task_ptr, i as int);
                    assert(queue[i as int] == task_ptr);
                }
                return Some(i);
            }
            i += 1;
        }
        None
    }

    /// Moves the first waiting occurrence of `task_ptr` to the back of the
    /// queue of priority `task_prio`. The result says whether a strictly
    /// better task now waits than the current one; a task that does not wait
    /// in any queue gives `Err` and changes nothing.
    pub fn set_priority(&mut self, task_ptr: usize, task_prio: usize) -> (res: Result<bool, ()>)
        requires
            old(self).wf(),
            task_prio < PRIO_NUM,
        ensures
            final(self).wf(),
            final(self)@ == old(self)@.set_priority(task_ptr, task_prio as int),
            match res {
                Ok(resched) => old(self)@.contains(task_ptr) && resched == final(self)@.needs_resched(),
                Err(_) => !old(self)@.contains(task_ptr),
            },
    {
        let ghost before = self@;
        proof {
            lemma_first_nonempty(before.queues, 0, before.highest_prio);
        }
        let mut task: Option<usize> = None;
        let mut prio = self.highest_prio;
        while prio < PRIO_NUM
            invariant_except_break
                self@ == before,
                task is None,
                forall|p: int| 0 <= p < prio ==> !(#[trigger] before.queues[p]).contains(task_ptr),
            invariant
                before.wf(),
                prio <= PRIO_NUM,
            ensures
                match task {
                    Some(t) => {
                        &&& t == task_ptr
                        &&& prio < PRIO_NUM
                        &&& prio == before.prio_of(task_ptr)
                        &&& before.queues[prio as int].contains(task_ptr)
                        &&& self@.queues == before.queues.update(
                            prio as int,
                            before.queues[prio as int].remove(
                                first_index(before.queues[prio as int], task_ptr),
                            ),
                        )
                        &&& self@.current_prio == before.current_prio
                        &&& self@.highest_prio == before.highest_prio
                    },
                    None => self@ == before && !before.contains(task_ptr),
                },
            decreases PRIO_NUM - prio,
        {
            let task_index = self.position(prio, task_ptr);
            if let Some(task_index) = task_index {
                task = self.queues[prio].remove(task_index);
                proof {
                    lemma_first_queue_with(before.queues, task_ptr, 0, prio as int);
                    lemma_first_index(before.queues[prio as int], task_ptr, task_index as int);
                    assert(self@.queues =~= before.queues.update(
                        prio as int,
                        before.queues[prio as int].remove(task_index as int),
                    ));
                }
                break ;
            }
            prio += 1;
        }
        if let Some(task) = task {
            let ghost removed = self@.queues;
            self.queues[task_prio].push_back(task_ptr);
            let ghost queues = removed.update(task_prio as int, removed[task_prio as int].push(task_ptr));
            proof {
                assert(self@.queues =~= queues);
            }
            let highest_possible_prio = if self.highest_prio < task_prio {
                self.highest_prio
            } else {
                task_prio
            };
            let lowest_possible_prio = task_prio;
            let mut prio = highest_possible_prio;
            while prio < lowest_possible_prio && self.queues[prio].len() == 0
                invariant
                    self@.queues == queues,
                    queues.len() == PRIO_NUM,
                    highest_possible_prio <= prio <= lowest_possible_prio < PRIO_NUM,
                    forall|p: int| highest_possible_prio <= p < prio ==> (#[trigger] queues[p]).len() == 0,
                decreases lowest_possible_prio - prio,
            {
                prio += 1;
            }
            self.highest_prio = prio;
            proof {
                assert(self@.queues =~= queues);
                assert forall|p: int| 0 <= p < prio implies (#[trigger] queues[p]).len() == 0 by {
                    if p < highest_possible_prio {
                        assert(before.queues[p].len() == 0);
                    }
                }
                lemma_first_nonempty(queues, 0, prio as int);
            }
            Ok(self.highest_prio < self.current_prio)
        } else {
            Err(())
        }
    }

    /// The tasks that wait at priority `prio`, the front first.
    pub fn tasks(&self, prio: usize) -> (tasks: Vec<usize>)
        requires
            prio < PRIO_NUM,
        ensures
            tasks@ == self@.queues[prio as int],
    {
        let len = self.queues[prio].len();
        let mut tasks: Vec<usize> = Vec::new();
        let mut i: usize = 0;
        while i < len
            invariant
                prio < PRIO_NUM,
                len == self.queues[prio as int]@.len(),
                i <= len,
                tasks@ == self.queues[prio as int]@.take(i as int),
            decreases len - i,
        {
            tasks.push(self.queues[prio][i]);
            proof {
                assert(tasks@ =~= self.queues[prio as int]@.take(i + 1));
            }
            i += 1;
        }
        proof {
            assert(tasks@ =~= self@.queues[prio as int]);
        }
        tasks
    }

    /// Priority of the task picked last, `PRIO_NUM` when there is none.
    pub fn current_prio(&self) -> (p: usize)
        ensures
            p == self@.current_prio,
    {
        self.current_prio
    }

    /// Priority of the best waiting task, `PRIO_NUM` when none waits.
    pub fn highest_prio(&self) -> (p: usize)
        ensures
            p == self@.highest_prio,
    {
        self.highest_prio
    }
}

/// The kernel task that stands for a user scheduler, and the kernel
/// scheduler in which that task runs.
pub struct KtaskInfo {
    pub ktask_ptr: usize,
    pub cpu_id: usize,
}

impl KtaskInfo {
    pub fn new(ktask_ptr: usize, cpu_id: usize) -> (info: Self)
        ensures
            info.ktask_ptr == ktask_ptr,
            info.cpu_id == cpu_id,
    {
        Self { ktask_ptr, cpu_id }
    }
}

} // verus!
