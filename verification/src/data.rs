//! The shared data: every scheduler by its identifier, and for each user
//! scheduler the kernel task that stands for it.

use crate::prio_queue::{KtaskInfo, Scheduler, SchedulerModel, PRIO_NUM};
use std::collections::BTreeMap;
use vstd::prelude::*;
use vstd::std_specs::cmp::OrdSpec;

verus! {

broadcast use vstd::laws_cmp::group_laws_cmp;

/// Identifiers from this value on name user schedulers, those below it
/// kernel schedulers.
pub const USER_TAG: usize = 0x8000_0000;

/// Whether `id` names a user scheduler.
pub open spec fn is_user_id(id: usize) -> bool {
    id >= USER_TAG
}

/// `prio`, or the lowest priority where `prio` is `PRIO_NUM`, which names
/// no queue.
pub open spec fn lowest_at_most(prio: int) -> int {
    if prio < PRIO_NUM - 1 {
        prio
    } else {
        PRIO_NUM - 1
    }
}

/// What the shared data holds, as mathematical values.
pub struct VdsoModel {
    /// The schedulers by identifier.
    pub schedulers: Map<usize, SchedulerModel>,
    /// The kernel proxy task of each user scheduler that has one.
    pub ktasks: Map<usize, KtaskInfo>,
}

impl VdsoModel {
    /// The invariant of the shared data: every scheduler is well formed and
    /// only registered schedulers have a proxy task.
    pub open spec fn wf(self) -> bool {
        &&& forall|id: usize| #[trigger] self.schedulers.contains_key(id) ==> self.schedulers[id].wf()
        &&& forall|id: usize| #[trigger] self.ktasks.contains_key(id) ==> self.schedulers.contains_key(id)
    }

    /// The state after `id` was registered, with its proxy task if one is
    /// given. An identifier that is registered already changes nothing.
    pub open spec fn add_scheduler(self, id: usize, ktask_info: Option<(usize, usize)>) -> VdsoModel {
        if self.schedulers.contains_key(id) {
            self
        } else {
            VdsoModel {
                schedulers: self.schedulers.insert(id, SchedulerModel::empty()),
                ktasks: match ktask_info {
                    Some((ktask_ptr, cpu_id)) => self.ktasks.insert(id, KtaskInfo { ktask_ptr, cpu_id }),
                    None => self.ktasks,
                },
            }
        }
    }

    /// Whether the user scheduler `uid` names `task` as its proxy task.
    pub open spec fn is_proxy_of(self, task: usize, uid: usize) -> bool {
        self.ktasks.contains_key(uid) && self.ktasks[uid].ktask_ptr == task
    }

    /// Whether `uid` is the least identifier of a user scheduler that names
    /// `task` as its proxy task.
    pub open spec fn is_first_proxy_of(self, task: usize, uid: usize) -> bool {
        &&& self.is_proxy_of(task, uid)
        &&& forall|other: usize| self.is_proxy_of(task, other) ==> uid <= other
    }

    /// The user scheduler for which `task` stands, if there is one: the one
    /// with the least identifier.
    pub open spec fn uscheduler_of(self, task: usize) -> Option<usize> {
        if exists|uid: usize| self.is_first_proxy_of(task, uid) {
            Some(choose|uid: usize| self.is_first_proxy_of(task, uid))
        } else {
            None
        }
    }

    /// The state with `scheduler` in the place of the scheduler `id`.
    pub open spec fn with_scheduler(self, id: usize, scheduler: SchedulerModel) -> VdsoModel {
        VdsoModel { schedulers: self.schedulers.insert(id, scheduler), ktasks: self.ktasks }
    }

    /// Whether the user scheduler `uid` has a proxy task and the kernel
    /// scheduler of that task is registered.
    pub open spec fn can_propagate(self, uid: usize) -> bool {
        &&& self.schedulers.contains_key(uid)
        &&& self.ktasks.contains_key(uid)
        &&& self.schedulers.contains_key(self.ktasks[uid].cpu_id)
    }

    /// The priority at which the proxy task of `uid` is to wait: the
    /// effective priority of `uid`, and the lowest priority when `uid` has
    /// neither a current nor a waiting task.
    pub open spec fn proxy_prio(self, uid: usize) -> int {
        lowest_at_most(self.schedulers[uid].effective_prio())
    }

    /// The state after the proxy task of `uid` was moved to `proxy_prio` in
    /// its kernel scheduler. A proxy task that does not wait there changes
    /// nothing.
    pub open spec fn update_ktask_priority(self, uid: usize) -> VdsoModel {
        let info = self.ktasks[uid];
        self.with_scheduler(
            info.cpu_id,
            self.schedulers[info.cpu_id].set_priority(info.ktask_ptr, self.proxy_prio(uid)),
        )
    }

    /// Whether moving the proxy task of `uid` leaves its kernel scheduler
    /// with a strictly better waiting task than its current one. A proxy
    /// task that does not wait there asks for nothing.
    pub open spec fn kernel_resched(self, uid: usize) -> bool {
        let info = self.ktasks[uid];
        &&& self.schedulers[info.cpu_id].contains(info.ktask_ptr)
        &&& self.update_ktask_priority(uid).schedulers[info.cpu_id].needs_resched()
    }

    /// The priority at which `task` enters the scheduler `id`. A proxy task
    /// that enters a kernel scheduler takes the best waiting priority of its
    /// user scheduler, the lowest priority if nothing waits there; every
    /// other task takes `default_prio`.
    pub open spec fn admission_prio(self, id: usize, task: usize, default_prio: int) -> int {
        match self.uscheduler_of(task) {
            Some(uid) if !is_user_id(id) => lowest_at_most(self.schedulers[uid].highest_prio),
            _ => default_prio,
        }
    }

    /// Whether adding `task` to the scheduler `id` leaves `id` with a
    /// strictly better waiting task than its current one.
    pub open spec fn add_task_resched(self, id: usize, task: usize, default_prio: int) -> bool {
        self.schedulers[id].add_task(task, self.admission_prio(id, task, default_prio)).needs_resched()
    }

    /// The state after `task` was added to the scheduler `id`. A user
    /// scheduler that can do so then moves its proxy task.
    pub open spec fn add_task(self, id: usize, task: usize, default_prio: int) -> VdsoModel {
        let added = self.with_scheduler(
            id,
            self.schedulers[id].add_task(task, self.admission_prio(id, task, default_prio)),
        );
        if is_user_id(id) && added.can_propagate(id) {
            added.update_ktask_priority(id)
        } else {
            added
        }
    }

    /// The state after the scheduler `id` gave up its current task. A user
    /// scheduler that can do so then moves its proxy task.
    pub open spec fn clear_current(self, id: usize) -> VdsoModel {
        let cleared = self.with_scheduler(id, self.schedulers[id].clear_current());
        if is_user_id(id) && cleared.can_propagate(id) {
            cleared.update_ktask_priority(id)
        } else {
            cleared
        }
    }

    /// Whether the kernel has to reschedule after the scheduler `id` gave up
    /// its current task: never for a kernel scheduler.
    pub open spec fn clear_current_resched(self, id: usize) -> bool {
        let cleared = self.with_scheduler(id, self.schedulers[id].clear_current());
        is_user_id(id) && cleared.can_propagate(id) && cleared.kernel_resched(id)
    }

    /// The state after the scheduler `id` picked its next task.
    pub open spec fn pick_next_task(self, id: usize) -> VdsoModel {
        self.with_scheduler(id, self.schedulers[id].pick_next_task())
    }

    /// The state after `id` was taken out, with its proxy task.
    pub open spec fn delete_scheduler(self, id: usize) -> VdsoModel {
        VdsoModel { schedulers: self.schedulers.remove(id), ktasks: self.ktasks.remove(id) }
    }
}

/// The shared data.
pub struct VdsoData {
    schedulers: BTreeMap<usize, Scheduler>,
    uscheduler_ktask: BTreeMap<usize, KtaskInfo>,
}

impl View for VdsoData {
    type V = VdsoModel;

    closed spec fn view(&self) -> VdsoModel {
        VdsoModel {
            schedulers: Map::new(
                |id: usize| self.schedulers@.contains_key(id),
                |id: usize| self.schedulers@[id]@,
            ),
            ktasks: self.uscheduler_ktask@,
        }
    }
}

impl VdsoData {
    /// The invariant that every operation keeps.
    pub open spec fn wf(&self) -> bool {
        self@.wf()
    }

    /// Shared data without any scheduler.
    pub fn new() -> (data: Self)
        ensures
            data.wf(),
            data@.schedulers == Map::<usize, SchedulerModel>::empty(),
            data@.ktasks == Map::<usize, KtaskInfo>::empty(),
    {
        let data = VdsoData { schedulers: BTreeMap::new(), uscheduler_ktask: BTreeMap::new() };
        proof {
            assert(data@.schedulers =~= Map::<usize, SchedulerModel>::empty());
        }
        data
    }

    /// Whether a scheduler is registered under `id`.
    pub fn has_scheduler(&self, id: usize) -> (found: bool)
        ensures
            found == self@.schedulers.contains_key(id),
    {
        self.schedulers.contains_key(&id)
    }

    /// Registers an empty scheduler under `id`, and with it the kernel task
    /// `(ktask_ptr, cpu_id)` that stands for it, if one is given. The result
    /// is `false`, and nothing changes, when `id` is registered already.
    pub fn add_scheduler(&mut self, id: usize, ktask_info: Option<(usize, usize)>) -> (added: bool)
        requires
            old(self).wf(),
        ensures
            final(self).wf(),
            added == !old(self)@.schedulers.contains_key(id),
            final(self)@ == old(self)@.add_scheduler(id, ktask_info),
    {
        if self.schedulers.contains_key(&id) {
            return false;
        }
        self.schedulers.insert(id, Scheduler::new());
        if let Some((ktask_ptr, cpu_id)) = ktask_info {
            self.uscheduler_ktask.insert(id, KtaskInfo::new(ktask_ptr, cpu_id));
        }
        proof {
            let after = old(self)@.add_scheduler(id, ktask_info);
            assert(self@.schedulers =~= after.schedulers);
            assert(self@.ktasks =~= after.ktasks);
        }
        true
    }

    /// The scheduler that is registered under `id`.
    pub fn scheduler(&self, id: usize) -> (found: Option<&Scheduler>)
        ensures
            match found {
                Some(s) => self@.schedulers.contains_key(id) && s@ == self@.schedulers[id] && (self.wf()
                    ==> s.wf()),
                None => !self@.schedulers.contains_key(id),
            },
    {
        self.schedulers.get(&id)
    }

    /// The proxy task of the user scheduler `uid`.
    pub fn ktask_info(&self, uid: usize) -> (found: Option<&KtaskInfo>)
        ensures
            match found {
                Some(info) => self@.ktasks.contains_key(uid) && *info == self@.ktasks[uid],
                None => !self@.ktasks.contains_key(uid),
            },
    {
        self.uscheduler_ktask.get(&uid)
    }

    /// Whether the user scheduler `uid` has a proxy task whose kernel
    /// scheduler is registered.
    pub fn can_propagate(&self, uid: usize) -> (ok: bool)
        ensures
            ok == self@.can_propagate(uid),
    {
        if !self.schedulers.contains_key(&uid) {
            return false;
        }
        match self.uscheduler_ktask.get(&uid) {
            Some(info) => self.schedulers.contains_key(&info.cpu_id),
            None => false,
        }
    }

    /// Adds `task_ptr` to the scheduler `scheduler_id` at `default_prio`, or,
    /// where a kernel scheduler takes in the proxy task of a user scheduler,
    /// at the best waiting priority of that user scheduler. A user scheduler
    /// then moves its own proxy task. The result says whether
    /// `scheduler_id` has to reschedule.
    pub fn add_task(&mut self, scheduler_id: usize, task_ptr: usize, default_prio: usize) -> (resched: bool)
        requires
            old(self).wf(),
            old(self)@.schedulers.contains_key(scheduler_id),
            default_prio < PRIO_NUM,
        ensures
            final(self).wf(),
            final(self)@ == old(self)@.add_task(scheduler_id, task_ptr, default_prio as int),
            resched == old(self)@.add_task_resched(scheduler_id, task_ptr, default_prio as int),
    {
        let mut task_prio = default_prio;
        if scheduler_id < USER_TAG {
            if let Some(uid) = get_uscheduler_from_task(self, task_ptr) {
                let uscheduler = self.schedulers.get(&uid).unwrap();
                task_prio = lowest_usable(uscheduler.highest_prio());
            }
        }
        let mut scheduler = self.schedulers.remove(&scheduler_id).unwrap();
        let resched = scheduler.add_task(task_ptr, task_prio);
        self.schedulers.insert(scheduler_id, scheduler);
        proof {
            let added = old(self)@.with_scheduler(
                scheduler_id,
                old(self)@.schedulers[scheduler_id].add_task(task_ptr, task_prio as int),
            );
            assert(self@.schedulers =~= added.schedulers);
        }
        if scheduler_id >= USER_TAG && self.can_propagate(scheduler_id) {
            update_ktask_priority(self, scheduler_id);
        }
        resched
    }

    /// The scheduler `scheduler_id` gives up its current task. A user
    /// scheduler then moves its proxy task, and the result says whether the
    /// kernel has to reschedule; for a kernel scheduler it is `false`.
    pub fn clear_current(&mut self, scheduler_id: usize) -> (resched: bool)
        requires
            old(self).wf(),
            old(self)@.schedulers.contains_key(scheduler_id),
        ensures
            final(self).wf(),
            final(self)@ == old(self)@.clear_current(scheduler_id),
            resched == old(self)@.clear_current_resched(scheduler_id),
    {
        let mut scheduler = self.schedulers.remove(&scheduler_id).unwrap();
        scheduler.clear_current();
        self.schedulers.insert(scheduler_id, scheduler);
        proof {
            let cleared = old(self)@.with_scheduler(
                scheduler_id,
                old(self)@.schedulers[scheduler_id].clear_current(),
            );
            assert(self@.schedulers =~= cleared.schedulers);
        }
        if scheduler_id >= USER_TAG && self.can_propagate(scheduler_id) {
            update_ktask_priority(self, scheduler_id)
        } else {
            false
        }
    }

    /// The scheduler `scheduler_id` picks its next task: the front of its
    /// first non-empty queue, `None` when all are empty.
    pub fn pick_next_task(&mut self, scheduler_id: usize) -> (picked: Option<usize>)
        requires
            old(self).wf(),
            old(self)@.schedulers.contains_key(scheduler_id),
        ensures
            final(self).wf(),
            final(self)@ == old(self)@.pick_next_task(scheduler_id),
            picked == old(self)@.schedulers[scheduler_id].next_task(),
    {
        let mut scheduler = self.schedulers.remove(&scheduler_id).unwrap();
        let picked = scheduler.pick_next_task();
        self.schedulers.insert(scheduler_id, scheduler);
        proof {
            let after = old(self)@.pick_next_task(scheduler_id);
            assert(self@.schedulers =~= after.schedulers);
        }
        picked
    }

    /// Takes the scheduler `id` out, with its proxy task and with whatever
    /// still waits in its queues. The result says whether there was one.
    pub fn delete_scheduler(&mut self, id: usize) -> (removed: bool)
        requires
            old(self).wf(),
        ensures
            final(self).wf(),
            removed == old(self)@.schedulers.contains_key(id),
            final(self)@ == old(self)@.delete_scheduler(id),
    {
        let removed = self.schedulers.remove(&id);
        self.uscheduler_ktask.remove(&id);
        proof {
            let after = old(self)@.delete_scheduler(id);
            assert(self@.schedulers =~= after.schedulers);
            assert(self@.ktasks =~= after.ktasks);
        }
        removed.is_some()
    }
}

/// `prio`, or the lowest priority where `prio` is `PRIO_NUM`.
fn lowest_usable(prio: usize) -> (usable: usize)
    ensures
        usable == lowest_at_most(prio as int),
{
    if prio < PRIO_NUM - 1 {
        prio
    } else {
        PRIO_NUM - 1
    }
}

/// Moves the proxy task of the user scheduler `uscheduler_id` to the
/// effective priority of that scheduler. The result says whether the kernel
/// scheduler of the proxy task has to reschedule; a proxy task that does not
/// wait there, because it runs or is held elsewhere, asks for nothing.
pub fn update_ktask_priority(data: &mut VdsoData, uscheduler_id: usize) -> (resched: bool)
    requires
        old(data).wf(),
        old(data)@.can_propagate(uscheduler_id),
    ensures
        final(data).wf(),
        final(data)@ == old(data)@.update_ktask_priority(uscheduler_id),
        resched == old(data)@.kernel_resched(uscheduler_id),
{
    let uscheduler = data.schedulers.get(&uscheduler_id).unwrap();
    let effective = if uscheduler.current_prio() < uscheduler.highest_prio() {
        uscheduler.current_prio()
    } else {
        uscheduler.highest_prio()
    };
    let ktask_prio = lowest_usable(effective);
    let ktask_info = data.uscheduler_ktask.get(&uscheduler_id).unwrap();
    let ktask_ptr = ktask_info.ktask_ptr;
    let cpu_id = ktask_info.cpu_id;
    let mut kscheduler = data.schedulers.remove(&cpu_id).unwrap();
    let moved = kscheduler.set_priority(ktask_ptr, ktask_prio);
    data.schedulers.insert(cpu_id, kscheduler);
    proof {
        let after = old(data)@.update_ktask_priority(uscheduler_id);
        assert(data@.schedulers =~= after.schedulers);
    }
    match moved {
        Ok(resched) => resched,
        Err(_) => false,
    }
}

/// The keys of a sequence of borrowed map entries.
spec fn keys_of<K, V>(entries: Seq<(&K, &V)>) -> Seq<K> {
    entries.map_values(|kv: (&K, &V)| *kv.0)
}

/// The user scheduler for which `task_ptr` stands: of those that name it
/// as their proxy task, the one with the least identifier.
pub fn get_uscheduler_from_task(data: &VdsoData, task_ptr: usize) -> (owner: Option<usize>)
    ensures
        owner == data@.uscheduler_of(task_ptr),
        match owner {
            Some(uid) => data@.is_first_proxy_of(task_ptr, uid),
            None => forall|uid: usize| !data@.is_proxy_of(task_ptr, uid),
        },
{
    let ghost m = data.uscheduler_ktask@;
    for item in it: data.uscheduler_ktask.iter()
        invariant
            m == data.uscheduler_ktask@,
            m == data@.ktasks,
            forall|j: int| 0 <= j < it.index() ==> (#[trigger] it.seq()[j]).1.ktask_ptr != task_ptr,
            it.index() == it.seq().len() ==> forall|uid: usize| !data@.is_proxy_of(task_ptr, uid),
            vstd::std_specs::btree::increasing_seq(keys_of(it.seq())),
    {
        assert(it.index() + 1 == it.seq().len() && item.1.ktask_ptr != task_ptr ==> forall|uid: usize|
            !data@.is_proxy_of(task_ptr, uid)) by {
            assert forall|uid: usize|
                it.index() + 1 == it.seq().len() && item.1.ktask_ptr != task_ptr implies !data@.is_proxy_of(
                task_ptr,
                uid,
            ) by {
                if data@.is_proxy_of(task_ptr, uid) {
                    assert(it.seq().contains((&uid, &m[uid])));
                    let j = choose|j: int| 0 <= j < it.seq().len() && it.seq()[j] == (&uid, &m[uid]);
                    assert(it.seq()[j].1.ktask_ptr == task_ptr);
                }
            }
        }
        if item.1.ktask_ptr == task_ptr {
            let uid = *item.0;
            assert(data@.is_first_proxy_of(task_ptr, uid)) by {
                assert forall|other: usize| data@.is_proxy_of(task_ptr, other) implies uid <= other by {
                    assert(it.seq().contains((&other, &m[other])));
                    let j = choose|j: int| 0 <= j < it.seq().len() && it.seq()[j] == (&other, &m[other]);
                    assert(it.seq()[j].1.ktask_ptr == task_ptr);
                    if j > it.index() {
                        let keys = keys_of(it.seq());
                        assert(keys[it.index()] == uid && keys[j] == other);
                        assert(keys[it.index()].cmp_spec(&keys[j]) is Less);
                    }
                }
            }
            return Some(uid);
        }
    }
    None
}

} // verus!
