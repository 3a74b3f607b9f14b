//! A shared task-scheduling core: priority run queues per scheduler, a
//! registry of kernel and user schedulers with priority propagation from a
//! user scheduler to its kernel proxy task, address arithmetic for a heap
//! that is mapped at different places, and a plain per-CPU ready queue.

pub mod allocator;
pub mod data;
pub mod data_laws;
pub mod id;
pub mod percpu;
pub mod prio_queue;
pub mod processor;
pub mod sched_laws;
