//! The ready queue of one CPU: tasks in the order in which they came,
//! without priorities.

use crate::id::TaskId;
use vstd::prelude::*;

verus! {

/// `queue::Queue`, a first-in first-out queue that may have a capacity.
#[verifier::external_type_specification]
#[verifier::external_body]
#[verifier::reject_recursive_types(T)]
pub struct ExQueue<T>(queue::Queue<T>);

/// The items that a queue holds, the one that leaves next at index 0.
pub uninterp spec fn queue_items(q: queue::Queue<TaskId>) -> Seq<TaskId>;

/// The capacity that a queue was made with, `None` for a queue without one.
pub uninterp spec fn queue_capacity(q: queue::Queue<TaskId>) -> Option<usize>;

/// `queue::Queue::new`: an empty queue without a capacity.
#[verifier::external_body]
fn queue_new() -> (q: queue::Queue<TaskId>)
    ensures
        queue_items(q) == Seq::<TaskId>::empty(),
        queue_capacity(q) is None,
{
    queue::Queue::new()
}

/// `queue::Queue::queue`: appends `item` and gives the new length, unless
/// the queue has a capacity and is full; then it gives `Err` and the queue
/// stays as it is. The capacity does not change.
#[verifier::external_body]
fn queue_push(q: &mut queue::Queue<TaskId>, item: TaskId) -> (r: Result<usize, ()>)
    ensures
        queue_capacity(*final(q)) == queue_capacity(*old(q)),
        match queue_capacity(*old(q)) {
            Some(cap) if queue_items(*old(q)).len() >= cap => r is Err && queue_items(*final(q))
                == queue_items(*old(q)),
            _ => r == Ok::<usize, ()>(queue_items(*final(q)).len() as usize) && queue_items(*final(q))
                == queue_items(*old(q)).push(item),
        },
{
    q.queue(item)
}

/// `queue::Queue::dequeue`: takes the item at the front, `None` from an
/// empty queue. The capacity does not change.
#[verifier::external_body]
fn queue_pop(q: &mut queue::Queue<TaskId>) -> (r: Option<TaskId>)
    ensures
        queue_capacity(*final(q)) == queue_capacity(*old(q)),
        match r {
            Some(item) => {
                &&& queue_items(*old(q)).len() > 0
                &&& item == queue_items(*old(q))[0]
                &&& queue_items(*final(q)) == queue_items(*old(q)).drop_first()
            },
            None => queue_items(*old(q)).len() == 0 && queue_items(*final(q)) == queue_items(*old(q)),
        },
{
    q.dequeue()
}

/// `queue::Queue::len`: the number of items.
#[verifier::external_body]
fn queue_len(q: &queue::Queue<TaskId>) -> (len: usize)
    ensures
        len == queue_items(*q).len(),
{
    q.len()
}

/// The ready queue of one CPU.
pub struct Processor {
    ready_queue: queue::Queue<TaskId>,
}

impl View for Processor {
    type V = Seq<TaskId>;

    /// The ready tasks, the one to run next at index 0.
    closed spec fn view(&self) -> Seq<TaskId> {
        queue_items(self.ready_queue)
    }
}

impl Processor {
    /// The invariant of a processor: its queue takes any number of tasks.
    pub closed spec fn wf(&self) -> bool {
        queue_capacity(self.ready_queue) is None
    }

    /// A processor without ready tasks.
    pub fn new() -> (p: Self)
        ensures
            p.wf(),
            p@ == Seq::<TaskId>::empty(),
    {
        Processor { ready_queue: queue_new() }
    }

    /// Number of ready tasks.
    pub fn len(&self) -> (len: usize)
        ensures
            len == self@.len(),
    {
        queue_len(&self.ready_queue)
    }

    /// Takes the task that has been ready longest, `None` if none is ready.
    pub fn pick_next_task(&mut self) -> (picked: Option<TaskId>)
        requires
            old(self).wf(),
        ensures
            final(self).wf(),
            match picked {
                Some(task) => old(self)@.len() > 0 && task == old(self)@[0] && final(self)@ == old(
                    self,
                )@.drop_first(),
                None => old(self)@.len() == 0 && final(self)@ == old(self)@,
            },
    {
        queue_pop(&mut self.ready_queue)
    }

    /// Puts the task that ran back behind the ready tasks.
    pub fn put_prev_task(&mut self, task: TaskId, _front: bool)
        requires
            old(self).wf(),
        ensures
            final(self).wf(),
            final(self)@ == old(self)@.push(task),
    {
        let _ = queue_push(&mut self.ready_queue, task);
    }

    /// Puts `task` behind the ready tasks.
    pub fn add_task(&mut self, task: TaskId)
        requires
            old(self).wf(),
        ensures
            final(self).wf(),
            final(self)@ == old(self)@.push(task),
    {
        let _ = queue_push(&mut self.ready_queue, task);
    }

    /// Index of the processor with the fewest ready tasks, the first of them
    /// where several have as few.
    pub fn select_processor(processors: &Vec<Processor>) -> (chosen: usize)
        requires
            processors.len() > 0,
        ensures
            is_least_loaded(processors@, chosen as int),
    {
        let mut loads: Vec<usize> = Vec::new();
        let mut i: usize = 0;
        while i < processors.len()
            invariant
                i <= processors.len(),
                loads.len() == i,
                forall|j: int| 0 <= j < i ==> #[trigger] loads[j] == processors@[j]@.len(),
            decreases processors.len() - i,
        {
            loads.push(processors[i].len());
            i += 1;
        }
        let chosen = select_least_loaded(&loads);
        proof {
            assert forall|j: int| 0 <= j < processors@.len() implies processors@[chosen as int]@.len() <= (
            #[trigger] processors@[j])@.len() by {
                assert(loads[chosen as int] <= loads[j]);
            }
            assert forall|j: int| 0 <= j < chosen implies processors@[chosen as int]@.len() < (
            #[trigger] processors@[j])@.len() by {
                assert(loads[chosen as int] < loads[j]);
            }
        }
        chosen
    }

    /// Puts a task that is new behind the ready tasks of the least loaded
    /// processor.
    pub fn first_add_task(processors: &mut Vec<Processor>, task: TaskId)
        requires
            old(processors).len() > 0,
            forall|j: int| 0 <= j < old(processors).len() ==> (#[trigger] old(processors)[j]).wf(),
        ensures
            final(processors).len() == old(processors).len(),
            forall|j: int| 0 <= j < final(processors).len() ==> (#[trigger] final(processors)[j]).wf(),
            forall|j: int|
                0 <= j < final(processors).len() ==> (#[trigger] final(processors)[j])@ == if is_least_loaded(
                    old(processors)@,
                    j,
                ) {
                    old(processors)[j]@.push(task)
                } else {
                    old(processors)[j]@
                },
    {
        let chosen = Processor::select_processor(processors);
        processors[chosen].add_task(task);
    }
}

/// Whether `chosen` is the place of the least of `loads`, and the first
/// place of it.
pub open spec fn is_first_least(loads: Seq<usize>, chosen: int) -> bool {
    &&& 0 <= chosen < loads.len()
    &&& forall|j: int| 0 <= j < loads.len() ==> loads[chosen] <= #[trigger] loads[j]
    &&& forall|j: int| 0 <= j < chosen ==> loads[chosen] < #[trigger] loads[j]
}

/// The place of the least of `loads`, the first one where several are as
/// low.
pub fn select_least_loaded(loads: &Vec<usize>) -> (chosen: usize)
    requires
        loads.len() > 0,
    ensures
        is_first_least(loads@, chosen as int),
{
    let mut chosen: usize = 0;
    let mut i: usize = 1;
    while i < loads.len()
        invariant
            1 <= i <= loads.len(),
            chosen < i,
            forall|j: int| 0 <= j < i ==> loads[chosen as int] <= #[trigger] loads[j],
            forall|j: int| 0 <= j < chosen ==> loads[chosen as int] < #[trigger] loads[j],
        decreases loads.len() - i,
    {
        if loads[i] < loads[chosen] {
            chosen = i;
        }
        i += 1;
    }
    chosen
}

/// Whether `chosen` is the processor with the fewest ready tasks, and the
/// first of those that have as few.
pub open spec fn is_least_loaded(processors: Seq<Processor>, chosen: int) -> bool {
    &&& 0 <= chosen < processors.len()
    &&& forall|j: int| 0 <= j < processors.len() ==> processors[chosen]@.len() <= (#[trigger] processors[j])@.len()
    &&& forall|j: int| 0 <= j < chosen ==> processors[chosen]@.len() < (#[trigger] processors[j])@.len()
}

} // verus!
