use vsched::data::{get_uscheduler_from_task, update_ktask_priority, VdsoData, USER_TAG};
use vsched::prio_queue::PRIO_NUM;

const T1: usize = 0x1000;
const T2: usize = 0x2000;
const U1: usize = 0x5000;
const K: usize = 0x9000;
const USER: usize = 0x8000_0001;

fn queues(data: &VdsoData, id: usize) -> Vec<Vec<usize>> {
    let s = data.scheduler(id).unwrap();
    (0..PRIO_NUM).map(|p| s.tasks(p)).collect()
}

#[test]
fn single_kernel_scheduler_basic_fifo() {
    let mut data = VdsoData::new();
    assert!(data.add_scheduler(0, None));
    // nothing was picked yet, so any waiting task is better than the current one
    assert!(data.add_task(0, T1, 2));
    assert!(data.add_task(0, T2, 2));
    assert_eq!(data.pick_next_task(0), Some(T1));
    assert_eq!(data.pick_next_task(0), Some(T2));
    assert_eq!(data.pick_next_task(0), None);
}

#[test]
fn basic_fifo_with_a_current_task_asks_for_nothing() {
    let mut data = VdsoData::new();
    assert!(data.add_scheduler(0, None));
    data.add_task(0, K, 2);
    assert_eq!(data.pick_next_task(0), Some(K));
    assert!(!data.add_task(0, T1, 2));
    assert!(!data.add_task(0, T2, 2));
    assert_eq!(data.pick_next_task(0), Some(T1));
    assert_eq!(data.pick_next_task(0), Some(T2));
    assert_eq!(data.pick_next_task(0), None);
}

#[test]
fn priority_preemption_signal() {
    let mut data = VdsoData::new();
    data.add_scheduler(0, None);
    // no task is current yet, so the first task is better than the current one
    assert!(data.add_task(0, T1, 3));
    assert_eq!(data.pick_next_task(0), Some(T1));
    assert_eq!(data.scheduler(0).unwrap().current_prio(), 3);
    assert!(data.add_task(0, T2, 1));
}

#[test]
fn equal_priority_sends_no_preemption_signal() {
    let mut data = VdsoData::new();
    data.add_scheduler(0, None);
    data.add_task(0, T1, 3);
    assert_eq!(data.pick_next_task(0), Some(T1));
    assert!(!data.add_task(0, U1, 3));
    assert!(data.add_task(0, T2, 1));
    assert!(data.add_task(0, K, 2));
}

#[test]
fn add_scheduler_twice_is_refused() {
    let mut data = VdsoData::new();
    assert!(data.add_scheduler(3, None));
    data.add_task(3, T1, 1);
    assert!(!data.add_scheduler(3, Some((K, 0))));
    assert!(data.ktask_info(3).is_none());
    assert_eq!(queues(&data, 3), vec![vec![], vec![T1], vec![], vec![]]);
}

#[test]
fn delete_scheduler_removes_both_entries() {
    let mut data = VdsoData::new();
    assert!(!data.delete_scheduler(USER));
    assert!(data.add_scheduler(USER, Some((K, 0))));
    assert!(data.has_scheduler(USER));
    assert_eq!(data.ktask_info(USER).unwrap().ktask_ptr, K);
    assert_eq!(data.ktask_info(USER).unwrap().cpu_id, 0);
    assert!(data.delete_scheduler(USER));
    assert!(!data.has_scheduler(USER));
    assert!(data.ktask_info(USER).is_none());
    assert!(!data.delete_scheduler(USER));
    assert_eq!(get_uscheduler_from_task(&data, K), None);
}

#[test]
fn add_then_delete_restores_the_registry() {
    let mut data = VdsoData::new();
    data.add_scheduler(0, None);
    data.add_task(0, T1, 1);
    assert!(data.add_scheduler(USER, Some((K, 0))));
    assert!(data.delete_scheduler(USER));
    assert!(data.has_scheduler(0));
    assert!(!data.has_scheduler(USER));
    assert!(data.ktask_info(USER).is_none());
    assert_eq!(queues(&data, 0), vec![vec![], vec![T1], vec![], vec![]]);
    // a scheduler that is registered again starts empty
    assert!(data.add_scheduler(USER, None));
    assert_eq!(queues(&data, USER), vec![Vec::<usize>::new(); 4]);
    assert_eq!(data.scheduler(USER).unwrap().highest_prio(), PRIO_NUM);
}

#[test]
fn user_tag_splits_the_identifiers() {
    assert_eq!(USER_TAG, 0x8000_0000);
    let mut data = VdsoData::new();
    data.add_scheduler(0, None);
    data.add_scheduler(USER_TAG - 1, Some((K, 0)));
    data.add_task(0, K, 0);
    data.add_task(USER_TAG - 1, U1, 1);
    // a kernel scheduler moves no proxy task, and its clear_current asks for nothing
    assert_eq!(queues(&data, 0), vec![vec![], vec![], vec![], vec![K]]);
    assert!(!data.clear_current(USER_TAG - 1));
}

#[test]
fn proxy_task_enters_at_priority_of_its_user_scheduler() {
    let mut data = VdsoData::new();
    data.add_scheduler(0, None);
    data.add_scheduler(USER, Some((K, 0)));
    data.add_task(USER, U1, 2);
    // K does not wait in scheduler 0 yet: nothing moved
    assert_eq!(queues(&data, 0), vec![Vec::<usize>::new(); 4]);
    data.add_task(0, K, 0);
    assert_eq!(queues(&data, 0), vec![vec![], vec![], vec![K], vec![]]);
    // another task keeps the priority that the caller gave
    data.add_task(0, T1, 0);
    assert_eq!(queues(&data, 0), vec![vec![T1], vec![], vec![K], vec![]]);
}

#[test]
fn user_kernel_propagation_on_clear_current() {
    let mut data = VdsoData::new();
    assert!(data.add_scheduler(0, None));
    assert!(data.add_scheduler(USER, Some((K, 0))));
    // the user scheduler is empty: its proxy enters at the lowest priority
    data.add_task(0, K, 3);
    assert_eq!(queues(&data, 0), vec![vec![], vec![], vec![], vec![K]]);
    // a task for the user scheduler lifts its proxy
    assert!(data.add_task(USER, U1, 1));
    assert_eq!(data.scheduler(USER).unwrap().highest_prio(), 1);
    assert_eq!(queues(&data, 0), vec![vec![], vec![K], vec![], vec![]]);
    assert_eq!(data.scheduler(0).unwrap().highest_prio(), 1);
    // moving the proxy to priority 1 tells the kernel to reschedule
    assert!(update_ktask_priority(&mut data, USER));
    assert!(data.clear_current(USER));
    assert_eq!(data.scheduler(USER).unwrap().highest_prio(), 1);
    assert_eq!(queues(&data, 0), vec![vec![], vec![K], vec![], vec![]]);
}

#[test]
fn proxy_enters_at_lowest_priority_whatever_the_caller_gives() {
    let mut data = VdsoData::new();
    data.add_scheduler(0, None);
    data.add_scheduler(USER, Some((K, 0)));
    data.add_task(0, K, 0);
    assert_eq!(queues(&data, 0), vec![vec![], vec![], vec![], vec![K]]);
}

#[test]
fn propagation_reports_what_the_kernel_scheduler_needs() {
    let mut data = VdsoData::new();
    data.add_scheduler(0, None);
    data.add_scheduler(USER, Some((K, 0)));
    data.add_task(0, K, 3);
    data.add_task(0, T1, 0);
    assert_eq!(data.pick_next_task(0), Some(T1));
    data.add_task(0, T2, 3);
    assert_eq!(data.scheduler(0).unwrap().current_prio(), 0);
    data.add_task(USER, U1, 1);
    assert_eq!(queues(&data, 0), vec![vec![], vec![K], vec![], vec![T2]]);
    // priority 1 is no better than the current priority 0
    assert!(!update_ktask_priority(&mut data, USER));
    assert!(!data.clear_current(USER));
    data.clear_current(0);
    assert!(update_ktask_priority(&mut data, USER));
    // the proxy went behind the tasks of its priority each time
    data.add_task(0, T1, 1);
    assert!(data.clear_current(USER));
    assert_eq!(queues(&data, 0), vec![vec![], vec![T1, K], vec![], vec![T2]]);
}

#[test]
fn clear_current_lowers_the_proxy() {
    let mut data = VdsoData::new();
    data.add_scheduler(1, None);
    data.add_scheduler(USER, Some((K, 1)));
    data.add_task(USER, U1, 0);
    data.add_task(USER, T1, 2);
    data.add_task(1, K, 3);
    assert_eq!(queues(&data, 1), vec![vec![K], vec![], vec![], vec![]]);
    assert_eq!(data.pick_next_task(USER), Some(U1));
    // the current task of the user scheduler still counts
    assert_eq!(queues(&data, 1), vec![vec![K], vec![], vec![], vec![]]);
    assert!(data.clear_current(USER));
    assert_eq!(queues(&data, 1), vec![vec![], vec![], vec![K], vec![]]);
    assert_eq!(data.pick_next_task(USER), Some(T1));
    assert!(data.clear_current(USER));
    // an idle user scheduler leaves its proxy at the lowest priority
    assert_eq!(queues(&data, 1), vec![vec![], vec![], vec![], vec![K]]);
}

#[test]
fn unknown_task_is_not_found() {
    let mut data = VdsoData::new();
    data.add_scheduler(0, None);
    data.add_scheduler(USER, Some((K, 0)));
    data.add_task(0, T1, 1);
    // K was never added to scheduler 0
    assert!(!update_ktask_priority(&mut data, USER));
    assert_eq!(queues(&data, 0), vec![vec![], vec![T1], vec![], vec![]]);
}

#[test]
fn proxy_not_resident() {
    let mut data = VdsoData::new();
    data.add_scheduler(0, None);
    data.add_scheduler(USER, Some((K, 0)));
    data.add_task(0, K, 3);
    assert_eq!(data.pick_next_task(0), Some(K));
    data.add_task(USER, U1, 1);
    assert!(!update_ktask_priority(&mut data, USER));
    assert!(!data.clear_current(USER));
    assert_eq!(queues(&data, 0), vec![Vec::<usize>::new(); 4]);
    assert_eq!(data.scheduler(0).unwrap().current_prio(), 3);
    assert_eq!(data.scheduler(0).unwrap().highest_prio(), PRIO_NUM);
    assert_eq!(queues(&data, USER), vec![vec![], vec![U1], vec![], vec![]]);
}

#[test]
fn user_scheduler_without_proxy_moves_nothing() {
    let mut data = VdsoData::new();
    data.add_scheduler(0, None);
    data.add_scheduler(USER, None);
    assert!(!data.can_propagate(USER));
    assert!(data.add_task(USER, U1, 1));
    assert!(!data.clear_current(USER));
    assert_eq!(data.pick_next_task(USER), Some(U1));
    // a proxy whose kernel scheduler is not registered moves nothing either
    data.add_scheduler(USER + 1, Some((K, 5)));
    assert!(!data.can_propagate(USER + 1));
    assert!(data.add_task(USER + 1, T1, 0));
    assert!(!data.clear_current(USER + 1));
    data.add_scheduler(5, None);
    assert!(data.can_propagate(USER + 1));
}

#[test]
fn proxy_is_found_by_least_identifier() {
    let mut data = VdsoData::new();
    assert_eq!(get_uscheduler_from_task(&data, K), None);
    data.add_scheduler(USER + 7, Some((K, 0)));
    data.add_scheduler(USER + 2, Some((K, 1)));
    data.add_scheduler(USER + 4, Some((T1, 0)));
    assert_eq!(get_uscheduler_from_task(&data, K), Some(USER + 2));
    assert_eq!(get_uscheduler_from_task(&data, T1), Some(USER + 4));
    assert_eq!(get_uscheduler_from_task(&data, T2), None);
    data.delete_scheduler(USER + 2);
    assert_eq!(get_uscheduler_from_task(&data, K), Some(USER + 7));
}
