use kernel::executor::{wake_task, Executor, NextTask, QueueFull, TaskId, TASK_QUEUE_CAPACITY};

#[test]
fn spawned_tasks_run_in_order() {
    let mut e = Executor::new();
    assert_eq!(e.spawn(), Ok(TaskId(0)));
    assert_eq!(e.spawn(), Ok(TaskId(1)));
    assert!(e.contains(TaskId(0)) && e.contains(TaskId(1)));
    assert!(!e.queue_is_empty());
    assert_eq!(e.next_task(), NextTask::Run(TaskId(0)));
    assert_eq!(e.next_task(), NextTask::Run(TaskId(1)));
    assert_eq!(e.next_task(), NextTask::Empty);
    assert!(e.queue_is_empty());
}

#[test]
fn finished_tasks_are_skipped_when_woken() {
    let mut e = Executor::new();
    let id = e.spawn().unwrap();
    assert_eq!(e.next_task(), NextTask::Run(id));
    e.task_finished(id);
    assert!(!e.contains(id));
    assert_eq!(wake_task(e.task_queue(), id), Ok(()));
    assert_eq!(e.next_task(), NextTask::Stale(id));
    assert_eq!(e.next_task(), NextTask::Empty);
}

#[test]
fn woken_task_runs_again() {
    let mut e = Executor::new();
    let id = e.spawn().unwrap();
    assert_eq!(e.next_task(), NextTask::Run(id));
    wake_task(e.task_queue(), id).unwrap();
    assert_eq!(e.next_task(), NextTask::Run(id));
}

#[test]
fn full_queue_is_reported() {
    let mut e = Executor::new();
    for i in 0..TASK_QUEUE_CAPACITY as u64 {
        assert_eq!(e.spawn(), Ok(TaskId(i)));
    }
    let extra = TASK_QUEUE_CAPACITY as u64;
    assert_eq!(e.spawn(), Err((TaskId(extra), QueueFull)));
    assert!(e.contains(TaskId(extra)));
    assert_eq!(wake_task(e.task_queue(), TaskId(0)), Err(QueueFull));
}

#[test]
fn ready_queue_holds_task_queue_capacity() {
    let e = Executor::new();
    assert_eq!(e.task_queue().capacity(), TASK_QUEUE_CAPACITY);
}

#[test]
fn classify_popped_ids() {
    let mut e = Executor::new();
    let id = e.spawn().unwrap();
    assert_eq!(e.classify(None), NextTask::Empty);
    assert_eq!(e.classify(Some(id.0)), NextTask::Run(id));
    assert_eq!(e.classify(Some(77)), NextTask::Stale(TaskId(77)));
}

#[test]
fn register_task_gives_fresh_ids_in_order() {
    let mut e = Executor::new();
    assert_eq!(e.register_task(), TaskId(0));
    assert_eq!(e.register_task(), TaskId(1));
    assert!(e.contains(TaskId(0)) && e.contains(TaskId(1)));
    assert!(!e.contains(TaskId(2)));
    assert_eq!(e.next_task(), NextTask::Empty);
    assert_eq!(e.spawn(), Ok(TaskId(2)));
    assert_eq!(e.next_task(), NextTask::Run(TaskId(2)));
}

#[test]
fn next_id_advances_with_each_task() {
    let mut e = Executor::new();
    assert_eq!(e.next_id(), 0);
    e.spawn().unwrap();
    e.register_task();
    assert_eq!(e.next_id(), 2);
}
