use vsched::id::TaskId;
use vsched::processor::Processor;

fn task(n: usize) -> TaskId {
    TaskId::new(0, 1, n)
}

#[test]
fn ready_queue_is_first_in_first_out() {
    let mut p = Processor::new();
    assert_eq!(p.len(), 0);
    assert_eq!(p.pick_next_task(), None);
    p.add_task(task(1));
    p.add_task(task(2));
    p.put_prev_task(task(3), true);
    assert_eq!(p.len(), 3);
    assert_eq!(p.pick_next_task(), Some(task(1)));
    p.add_task(task(4));
    assert_eq!(p.pick_next_task(), Some(task(2)));
    assert_eq!(p.pick_next_task(), Some(task(3)));
    assert_eq!(p.pick_next_task(), Some(task(4)));
    assert_eq!(p.len(), 0);
    assert_eq!(p.pick_next_task(), None);
}

#[test]
fn ready_queue_takes_many_tasks() {
    let mut p = Processor::new();
    for n in 0..1000 {
        p.add_task(task(n));
    }
    assert_eq!(p.len(), 1000);
    for n in 0..1000 {
        assert_eq!(p.pick_next_task(), Some(task(n)));
    }
}

#[test]
fn new_task_goes_to_least_loaded_processor() {
    let mut ps = vec![Processor::new(), Processor::new(), Processor::new()];
    ps[0].add_task(task(1));
    ps[0].add_task(task(2));
    ps[1].add_task(task(3));
    ps[2].add_task(task(4));
    // 1 and 2 are level: the first of them is chosen
    assert_eq!(Processor::select_processor(&ps), 1);
    Processor::first_add_task(&mut ps, task(5));
    assert_eq!(ps.iter().map(|p| p.len()).collect::<Vec<_>>(), vec![2, 2, 1]);
    assert_eq!(Processor::select_processor(&ps), 2);
    Processor::first_add_task(&mut ps, task(6));
    assert_eq!(ps.iter().map(|p| p.len()).collect::<Vec<_>>(), vec![2, 2, 2]);
    Processor::first_add_task(&mut ps, task(7));
    assert_eq!(ps.iter().map(|p| p.len()).collect::<Vec<_>>(), vec![3, 2, 2]);
    assert_eq!(ps[1].pick_next_task(), Some(task(3)));
    assert_eq!(ps[1].pick_next_task(), Some(task(5)));
    assert_eq!(ps[2].pick_next_task(), Some(task(4)));
    assert_eq!(ps[2].pick_next_task(), Some(task(6)));
}

#[test]
fn single_processor_is_always_chosen() {
    let mut ps = vec![Processor::new()];
    Processor::first_add_task(&mut ps, task(1));
    Processor::first_add_task(&mut ps, task(2));
    assert_eq!(Processor::select_processor(&ps), 0);
    assert_eq!(ps[0].pick_next_task(), Some(task(1)));
    assert_eq!(ps[0].pick_next_task(), Some(task(2)));
}
