use vsched::prio_queue::{KtaskInfo, Scheduler, PRIO_NUM};

const T1: usize = 0x1000;
const T2: usize = 0x2000;
const T3: usize = 0x3000;
const T4: usize = 0x4000;

fn queues(s: &Scheduler) -> Vec<Vec<usize>> {
    (0..PRIO_NUM).map(|p| s.tasks(p)).collect()
}

fn first_nonempty(s: &Scheduler) -> usize {
    (0..PRIO_NUM).find(|&p| !s.tasks(p).is_empty()).unwrap_or(PRIO_NUM)
}

#[test]
fn new_scheduler_is_empty() {
    let s = Scheduler::new();
    assert_eq!(s.current_prio(), PRIO_NUM);
    assert_eq!(s.highest_prio(), PRIO_NUM);
    assert_eq!(queues(&s), vec![Vec::<usize>::new(); 4]);
    assert_eq!(PRIO_NUM, 4);
}

#[test]
fn add_task_appends_and_tracks_highest() {
    let mut s = Scheduler::new();
    assert!(s.add_task(T1, 2));
    assert_eq!(s.highest_prio(), 2);
    assert!(s.add_task(T2, 3));
    assert_eq!(s.highest_prio(), 2);
    assert!(s.add_task(T3, 0));
    assert_eq!(s.highest_prio(), 0);
    assert!(s.add_task(T4, 2));
    assert_eq!(queues(&s), vec![vec![T3], vec![], vec![T1, T4], vec![T2]]);
    assert_eq!(s.current_prio(), PRIO_NUM);
}

#[test]
fn pick_takes_front_of_best_queue() {
    let mut s = Scheduler::new();
    s.add_task(T1, 2);
    s.add_task(T2, 1);
    s.add_task(T3, 1);
    assert_eq!(s.pick_next_task(), Some(T2));
    assert_eq!(s.current_prio(), 1);
    assert_eq!(s.highest_prio(), 1);
    assert_eq!(s.pick_next_task(), Some(T3));
    assert_eq!(s.current_prio(), 1);
    assert_eq!(s.highest_prio(), 2);
    assert_eq!(s.pick_next_task(), Some(T1));
    assert_eq!(s.current_prio(), 2);
    assert_eq!(s.highest_prio(), PRIO_NUM);
}

#[test]
fn pick_from_empty_changes_nothing() {
    let mut s = Scheduler::new();
    assert_eq!(s.pick_next_task(), None);
    assert_eq!(s.current_prio(), PRIO_NUM);
    assert_eq!(s.highest_prio(), PRIO_NUM);
    s.add_task(T1, 3);
    assert_eq!(s.pick_next_task(), Some(T1));
    assert_eq!(s.pick_next_task(), None);
    assert_eq!(s.current_prio(), 3);
    assert_eq!(s.highest_prio(), PRIO_NUM);
}

#[test]
fn highest_prio_is_first_nonempty_after_every_step() {
    let mut s = Scheduler::new();
    assert_eq!(s.highest_prio(), first_nonempty(&s));
    s.add_task(T1, 3);
    assert_eq!(s.highest_prio(), first_nonempty(&s));
    s.add_task(T2, 1);
    assert_eq!(s.highest_prio(), first_nonempty(&s));
    s.add_task(T3, 2);
    assert_eq!(s.highest_prio(), first_nonempty(&s));
    assert_eq!(s.set_priority(T2, 3), Ok(true));
    assert_eq!(s.highest_prio(), 2);
    assert_eq!(s.highest_prio(), first_nonempty(&s));
    assert_eq!(s.pick_next_task(), Some(T3));
    assert_eq!(s.highest_prio(), 3);
    assert_eq!(s.highest_prio(), first_nonempty(&s));
    s.clear_current();
    assert_eq!(s.highest_prio(), first_nonempty(&s));
    assert_eq!(s.pick_next_task(), Some(T1));
    assert_eq!(s.pick_next_task(), Some(T2));
    assert_eq!(s.highest_prio(), PRIO_NUM);
    assert_eq!(s.highest_prio(), first_nonempty(&s));
}

#[test]
fn each_task_waits_in_one_queue() {
    let mut s = Scheduler::new();
    s.add_task(T1, 0);
    s.add_task(T2, 1);
    s.add_task(T3, 1);
    s.set_priority(T1, 1).unwrap();
    s.set_priority(T3, 3).unwrap();
    s.pick_next_task();
    s.add_task(T4, 2);
    let all: Vec<usize> = queues(&s).concat();
    for t in [T1, T3, T4] {
        assert_eq!(all.iter().filter(|&&x| x == t).count(), 1);
    }
    assert_eq!(all.iter().filter(|&&x| x == T2).count(), 0);
    assert_eq!(queues(&s), vec![vec![], vec![T1], vec![T4], vec![T3]]);
}

#[test]
fn equal_priority_is_first_in_first_out() {
    let mut s = Scheduler::new();
    s.add_task(T1, 2);
    s.add_task(T2, 2);
    s.add_task(T4, 3);
    s.add_task(T3, 2);
    s.set_priority(T4, 0).unwrap();
    assert_eq!(s.pick_next_task(), Some(T4));
    assert_eq!(s.pick_next_task(), Some(T1));
    s.add_task(T4, 2);
    assert_eq!(s.pick_next_task(), Some(T2));
    assert_eq!(s.pick_next_task(), Some(T3));
    assert_eq!(s.pick_next_task(), Some(T4));
    assert_eq!(s.pick_next_task(), None);
}

#[test]
fn pick_after_clear_sets_current_to_picked_priority() {
    let mut s = Scheduler::new();
    s.add_task(T1, 0);
    s.add_task(T2, 3);
    assert_eq!(s.pick_next_task(), Some(T1));
    assert_eq!(s.current_prio(), 0);
    s.clear_current();
    assert_eq!(s.current_prio(), PRIO_NUM);
    assert_eq!(s.highest_prio(), 3);
    assert_eq!(s.pick_next_task(), Some(T2));
    assert_eq!(s.current_prio(), 3);
}

#[test]
fn add_task_reports_strictly_better_priority() {
    let mut s = Scheduler::new();
    s.add_task(T1, 2);
    assert_eq!(s.pick_next_task(), Some(T1));
    // current is 2: an equal or worse priority asks for nothing
    assert!(!s.add_task(T2, 2));
    assert!(!(s.highest_prio() < s.current_prio()));
    let mut s = Scheduler::new();
    s.add_task(T1, 2);
    s.pick_next_task();
    assert!(!s.add_task(T2, 3));
    assert!(s.add_task(T3, 1));
    assert!(s.highest_prio() < s.current_prio());
    // a worse task after a better one still reports the better one
    assert!(s.add_task(T4, 3));
}

#[test]
fn set_priority_moves_task_up() {
    let mut s = Scheduler::new();
    s.add_task(T1, 2);
    assert_eq!(queues(&s), vec![vec![], vec![], vec![T1], vec![]]);
    assert_eq!(s.set_priority(T1, 0), Ok(true));
    assert_eq!(queues(&s), vec![vec![T1], vec![], vec![], vec![]]);
    assert_eq!(s.highest_prio(), 0);
}

#[test]
fn set_priority_moves_task_down() {
    let mut s = Scheduler::new();
    s.add_task(T1, 0);
    s.add_task(T2, 2);
    assert_eq!(s.pick_next_task(), Some(T1));
    s.add_task(T3, 0);
    assert_eq!(s.set_priority(T3, 3), Ok(false));
    assert_eq!(queues(&s), vec![vec![], vec![], vec![T2], vec![T3]]);
    assert_eq!(s.highest_prio(), 2);
    assert_eq!(s.current_prio(), 0);
}

#[test]
fn set_priority_to_same_priority_moves_to_back() {
    let mut s = Scheduler::new();
    s.add_task(T1, 1);
    s.add_task(T2, 1);
    s.add_task(T3, 1);
    assert_eq!(s.set_priority(T1, 1), Ok(true));
    assert_eq!(queues(&s), vec![vec![], vec![T2, T3, T1], vec![], vec![]]);
    assert_eq!(s.set_priority(T3, 1), Ok(true));
    assert_eq!(queues(&s), vec![vec![], vec![T2, T1, T3], vec![], vec![]]);
    assert_eq!(s.highest_prio(), 1);
}

#[test]
fn set_priority_takes_first_occurrence() {
    let mut s = Scheduler::new();
    s.add_task(T1, 1);
    s.add_task(T2, 1);
    s.add_task(T1, 1);
    s.add_task(T1, 3);
    assert_eq!(s.set_priority(T1, 2), Ok(true));
    assert_eq!(queues(&s), vec![vec![], vec![T2, T1], vec![T1], vec![T1]]);
}

#[test]
fn set_priority_not_found() {
    let mut s = Scheduler::new();
    assert_eq!(s.set_priority(T1, 0), Err(()));
    s.add_task(T2, 1);
    assert_eq!(s.set_priority(T1, 0), Err(()));
    assert_eq!(queues(&s), vec![vec![], vec![T2], vec![], vec![]]);
    assert_eq!(s.highest_prio(), 1);
    assert_eq!(s.current_prio(), PRIO_NUM);
    // a task that was picked waits no longer
    assert_eq!(s.pick_next_task(), Some(T2));
    assert_eq!(s.set_priority(T2, 0), Err(()));
    assert_eq!(s.highest_prio(), PRIO_NUM);
}

#[test]
fn clear_current_keeps_queues() {
    let mut s = Scheduler::new();
    s.add_task(T1, 1);
    s.add_task(T2, 2);
    s.pick_next_task();
    s.clear_current();
    assert_eq!(s.current_prio(), PRIO_NUM);
    assert_eq!(s.highest_prio(), 2);
    assert_eq!(queues(&s), vec![vec![], vec![], vec![T2], vec![]]);
}

#[test]
fn ktask_info_holds_its_parts() {
    let info = KtaskInfo::new(T1, 7);
    assert_eq!(info.ktask_ptr, T1);
    assert_eq!(info.cpu_id, 7);
}
