//! What holds of the shared data across its operations.

use crate::data::{is_user_id, lowest_at_most, VdsoModel};
use crate::prio_queue::{
    first_index, lemma_first_queue_with, SchedulerModel, PRIO_NUM,
};
use crate::sched_laws::{
    lemma_add_task_wf, lemma_distinct_one_queue, lemma_empty_wf, lemma_highest_prio_is_least,
    lemma_set_priority_distinct,
};
use vstd::prelude::*;

verus! {

/// Registering a scheduler and taking it out again gives back the shared
/// data as it was.
pub proof fn lemma_add_delete_round_trip(s: VdsoModel, id: usize, ktask_info: Option<(usize, usize)>)
    requires
        s.wf(),
        !s.schedulers.contains_key(id),
    ensures
        s.add_scheduler(id, ktask_info).wf(),
        s.add_scheduler(id, ktask_info).delete_scheduler(id) == s,
{
    let added = s.add_scheduler(id, ktask_info);
    let back = added.delete_scheduler(id);
    lemma_empty_wf();
    assert(back.schedulers =~= s.schedulers);
    assert(back.ktasks =~= s.ktasks);
}

/// Among the user schedulers that name `task` as their proxy task there
/// is one with the least identifier.
pub proof fn lemma_first_proxy_exists(s: VdsoModel, task: usize, uid: usize)
    requires
        s.is_proxy_of(task, uid),
    ensures
        exists|first: usize| s.is_first_proxy_of(task, first),
    decreases uid,
{
    if s.is_first_proxy_of(task, uid) {
    } else {
        let lower = choose|other: usize| s.is_proxy_of(task, other) && !(uid <= other);
        lemma_first_proxy_exists(s, task, lower);
    }
}

/// A task stands for a user scheduler exactly when some user scheduler
/// names it as its proxy task, and then for the one with the least
/// identifier.
pub proof fn lemma_uscheduler_of(s: VdsoModel, task: usize)
    ensures
        s.uscheduler_of(task) is None <==> forall|uid: usize| !s.is_proxy_of(task, uid),
        s.uscheduler_of(task) is Some ==> s.is_first_proxy_of(task, s.uscheduler_of(task)->0),
{
    if exists|uid: usize| s.is_proxy_of(task, uid) {
        let uid = choose|uid: usize| s.is_proxy_of(task, uid);
        lemma_first_proxy_exists(s, task, uid);
    }
}

/// A task whose priority is set waits at that priority afterwards, and in a
/// scheduler that holds no task twice at no other.
pub proof fn lemma_set_priority_places_task(s: SchedulerModel, task: usize, prio: int)
    requires
        s.wf(),
        0 <= prio < PRIO_NUM,
        s.contains(task),
    ensures
        s.set_priority(task, prio).queues[prio].contains(task),
        s.set_priority(task, prio).contains(task),
        s.distinct() ==> s.set_priority(task, prio).prio_of(task) == prio,
{
    let t = s.set_priority(task, prio);
    let from = s.prio_of(task);
    lemma_first_queue_with(s.queues, task, 0, from);
    let removed = s.queues.update(from, s.queues[from].remove(first_index(s.queues[from], task)));
    let last = removed[prio].len() as int;
    assert(t.queues[prio][last] == task);
    if s.distinct() {
        lemma_set_priority_distinct(s, task, prio);
        assert forall|p: int| 0 <= p < prio implies !(#[trigger] t.queues[p]).contains(task) by {
            if t.queues[p].contains(task) {
                lemma_distinct_one_queue(t, task, p, prio);
            }
        }
        lemma_first_queue_with(t.queues, task, 0, prio);
    }
}

/// Propagation: once the proxy task of a user scheduler has been moved, it
/// waits in its kernel scheduler, if it waited there at all, at the
/// effective priority of the user scheduler, which is the lowest priority
/// for a user scheduler that has neither a current nor a waiting task.
pub proof fn lemma_update_places_proxy(s: VdsoModel, uid: usize)
    requires
        s.wf(),
        s.can_propagate(uid),
        s.schedulers[s.ktasks[uid].cpu_id].contains(s.ktasks[uid].ktask_ptr),
    ensures
        ({
            let info = s.ktasks[uid];
            let kernel = s.update_ktask_priority(uid).schedulers[info.cpu_id];
            let effective = s.schedulers[uid].effective_prio();
            &&& s.proxy_prio(uid) == lowest_at_most(effective)
            &&& effective < PRIO_NUM ==> s.proxy_prio(uid) == effective
            &&& kernel.queues[s.proxy_prio(uid)].contains(info.ktask_ptr)
            &&& s.schedulers[info.cpu_id].distinct() ==> kernel.prio_of(info.ktask_ptr) == s.proxy_prio(uid)
            &&& info.cpu_id != uid ==> s.update_ktask_priority(uid).proxy_prio(uid) == s.proxy_prio(uid)
        }),
{
    let info = s.ktasks[uid];
    lemma_highest_prio_is_least(s.schedulers[uid]);
    lemma_set_priority_places_task(s.schedulers[info.cpu_id], info.ktask_ptr, s.proxy_prio(uid));
}

/// Propagation after `add_task`: when a task is added to a user scheduler
/// whose proxy task waits in another, registered scheduler, the proxy task
/// waits there afterwards at the effective priority that the user scheduler
/// has with the new task.
pub proof fn lemma_add_task_propagates(s: VdsoModel, uid: usize, task: usize, default_prio: int)
    requires
        s.wf(),
        is_user_id(uid),
        s.can_propagate(uid),
        0 <= default_prio < PRIO_NUM,
        s.ktasks[uid].cpu_id != uid,
        s.schedulers[s.ktasks[uid].cpu_id].contains(s.ktasks[uid].ktask_ptr),
    ensures
        ({
            let info = s.ktasks[uid];
            let after = s.add_task(uid, task, default_prio);
            let effective = after.schedulers[uid].effective_prio();
            &&& after.schedulers[uid] == s.schedulers[uid].add_task(task, default_prio)
            &&& effective < PRIO_NUM
            &&& after.schedulers[info.cpu_id].queues[effective].contains(info.ktask_ptr)
            &&& s.schedulers[info.cpu_id].distinct() ==> after.schedulers[info.cpu_id].prio_of(
                info.ktask_ptr,
            ) == effective
        }),
{
    let info = s.ktasks[uid];
    let added = s.with_scheduler(
        uid,
        s.schedulers[uid].add_task(task, s.admission_prio(uid, task, default_prio)),
    );
    lemma_add_task_wf(s.schedulers[uid], task, default_prio);
    lemma_highest_prio_is_least(s.schedulers[uid].add_task(task, default_prio));
    assert(added.wf());
    assert(added.can_propagate(uid));
    lemma_update_places_proxy(added, uid);
}

/// Propagation after `clear_current`: when a user scheduler whose proxy
/// task waits in another, registered scheduler gives up its current task,
/// the proxy task waits there afterwards at the best waiting priority of the
/// user scheduler, and at the lowest priority if nothing waits.
pub proof fn lemma_clear_current_propagates(s: VdsoModel, uid: usize)
    requires
        s.wf(),
        is_user_id(uid),
        s.can_propagate(uid),
        s.ktasks[uid].cpu_id != uid,
        s.schedulers[s.ktasks[uid].cpu_id].contains(s.ktasks[uid].ktask_ptr),
    ensures
        ({
            let info = s.ktasks[uid];
            let after = s.clear_current(uid);
            let user = after.schedulers[uid];
            let target = lowest_at_most(user.effective_prio());
            &&& user == s.schedulers[uid].clear_current()
            &&& user.effective_prio() == s.schedulers[uid].highest_prio
            &&& after.schedulers[info.cpu_id].queues[target].contains(info.ktask_ptr)
            &&& s.schedulers[info.cpu_id].distinct() ==> after.schedulers[info.cpu_id].prio_of(
                info.ktask_ptr,
            ) == target
        }),
{
    let cleared = s.with_scheduler(uid, s.schedulers[uid].clear_current());
    lemma_highest_prio_is_least(s.schedulers[uid]);
    assert(cleared.wf());
    assert(cleared.can_propagate(uid));
    lemma_update_places_proxy(cleared, uid);
}

} // verus!
