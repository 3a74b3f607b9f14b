//! Task identifiers.

use vstd::prelude::*;

verus! {

/// Identifier of a task: the operating system, the process and the task
/// within the process.
#[derive(Debug, Clone, Copy, PartialEq, Eq, PartialOrd, Ord, Structural)]
pub struct TaskId {
    os_id: usize,
    process_id: usize,
    task_id: usize,
}

impl TaskId {
    /// The identifier that names no task: all three parts are zero.
    pub fn null() -> (id: Self)
        ensures
            id == Self::spec_new(0, 0, 0),
            id.spec_os_id() == 0,
            id.spec_process_id() == 0,
            id.spec_task_id() == 0,
    {
        Self { os_id: 0, process_id: 0, task_id: 0 }
    }

    /// The identifier with the given parts.
    pub closed spec fn spec_new(os_id: usize, process_id: usize, task_id: usize) -> Self {
        Self { os_id, process_id, task_id }
    }

    #[verifier::when_used_as_spec(spec_new)]
    pub fn new(os_id: usize, process_id: usize, task_id: usize) -> (id: Self)
        ensures
            id == Self::spec_new(os_id, process_id, task_id),
            id.spec_os_id() == os_id,
            id.spec_process_id() == process_id,
            id.spec_task_id() == task_id,
    {
        Self { os_id, process_id, task_id }
    }

    pub closed spec fn spec_os_id(&self) -> usize {
        self.os_id
    }

    pub closed spec fn spec_process_id(&self) -> usize {
        self.process_id
    }

    pub closed spec fn spec_task_id(&self) -> usize {
        self.task_id
    }

    #[verifier::when_used_as_spec(spec_os_id)]
    pub fn os_id(&self) -> (r: usize)
        ensures
            r == self.spec_os_id(),
    {
        self.os_id
    }

    #[verifier::when_used_as_spec(spec_process_id)]
    pub fn process_id(&self) -> (r: usize)
        ensures
            r == self.spec_process_id(),
    {
        self.process_id
    }

    #[verifier::when_used_as_spec(spec_task_id)]
    pub fn task_id(&self) -> (r: usize)
        ensures
            r == self.spec_task_id(),
    {
        self.task_id
    }

    /// The priority that the task identifier carries in its five lowest
    /// bits.
    pub fn get_priority(&self) -> (prio: isize)
        ensures
            prio == self.spec_task_id() % 32,
    {
        let id = self.task_id;
        let low = id & 0x1f;
        assert(low == id % 32) by (bit_vector)
            requires
                low == id & 0x1f,
        ;
        low as isize
    }
}

/// An identifier is made of its three parts and of nothing else.
pub proof fn lemma_task_id_parts(id: TaskId, os_id: usize, process_id: usize, task_id: usize)
    ensures
        id == TaskId::spec_new(os_id, process_id, task_id) <==> id.spec_os_id() == os_id
            && id.spec_process_id() == process_id && id.spec_task_id() == task_id,
{
}

} // verus!
