use menix::mutex::{Event, LockStep, Mutex};
use menix::sched::{best_cpu, Scheduler, Switch, TaskState};

fn ready(n: usize) -> Vec<TaskState> {
    vec![TaskState::Ready; n]
}

#[test]
fn next_takes_tasks_in_order() {
    let mut s = Scheduler::new();
    s.add_task(3);
    s.add_task(1);
    s.add_task(2);
    let states = ready(4);
    assert_eq!(s.next(&states), Some(3));
    assert_eq!(s.next(&states), Some(1));
    assert_eq!(s.load(), 1);
    assert_eq!(s.next(&states), Some(2));
    assert_eq!(s.next(&states), None);
}

#[test]
fn next_skips_tasks_that_are_not_ready() {
    let mut s = Scheduler::new();
    s.add_task(0);
    s.add_task(1);
    s.add_task(2);
    s.add_task(9);
    let states = vec![TaskState::Dead, TaskState::Blocked, TaskState::Ready];
    assert_eq!(s.next(&states), Some(2));
    // The skipped tasks left the queue; a task out of the table is not ready.
    assert_eq!(s.run_queue, vec![9]);
    assert_eq!(s.next(&states), None);
    assert_eq!(s.load(), 0);
}

#[test]
fn reschedule_switches_and_requeues() {
    let mut s = Scheduler::new();
    s.idle_task = Some(0);
    s.set_task(1);
    s.add_task(2);
    let states = ready(3);
    assert_eq!(s.reschedule(&states), Some(Switch { from: Some(1), to: 2 }));
    assert_eq!(s.current, Some(2));
    assert_eq!(s.run_queue, vec![1]);
    assert_eq!(s.reschedule(&states), Some(Switch { from: Some(2), to: 1 }));
    assert_eq!(s.run_queue, vec![2]);
}

#[test]
fn with_nothing_ready_the_idle_task_runs() {
    let mut s = Scheduler::new();
    s.idle_task = Some(0);
    s.set_task(5);
    let states = ready(6);
    assert_eq!(s.do_yield(&states), Some(Switch { from: Some(5), to: 0 }));
    // The idle task is not queued again, and stays.
    assert_eq!(s.reschedule(&states), None);
    assert_eq!(s.current, Some(0));
}

#[test]
fn kill_current_marks_the_task_dead() {
    let mut s = Scheduler::new();
    s.idle_task = Some(0);
    s.set_task(1);
    s.add_task(1);
    let mut states = ready(2);
    assert_eq!(s.kill_current(&mut states), Some(Switch { from: Some(1), to: 0 }));
    assert_eq!(states[1], TaskState::Dead);
}

#[test]
fn best_cpu_picks_the_first_least_loaded() {
    assert_eq!(best_cpu(&vec![3, 1, 1, 4], 0), 1);
    assert_eq!(best_cpu(&vec![], 2), 2);
    assert_eq!(best_cpu(&vec![usize::MAX], 0), 0);
    let mut cpus = vec![Scheduler::new(), Scheduler::new()];
    cpus[0].add_task(7);
    assert_eq!(Scheduler::add_task_to_best_cpu(&mut cpus, 0, 8), 1);
    assert_eq!(cpus[1].run_queue, vec![8]);
    assert_eq!(cpus[0].run_queue, vec![7]);
}

#[test]
fn events_wake_waiters_in_order() {
    let mut e = Event::new();
    let mut s = Scheduler::new();
    e.guard(4);
    e.guard(5);
    e.guard(6);
    assert_eq!(e.wake_one(&mut s), Some(4));
    e.wake_all(&mut s);
    assert_eq!(s.run_queue, vec![4, 5, 6]);
    assert!(e.waiters.is_empty());
    assert_eq!(e.wake_one(&mut s), None);
}

#[test]
fn a_mutex_passes_to_the_longest_waiter() {
    let mut m = Mutex::new(10u32);
    let mut s = Scheduler::new();
    assert_eq!(m.lock(1), LockStep::Acquired);
    assert_eq!(m.lock(2), LockStep::MustWait);
    assert_eq!(m.lock(3), LockStep::MustWait);
    assert_eq!(m.unlock(&mut s), Some(2));
    assert!(m.is_locked());
    assert_eq!(s.run_queue, vec![2]);
    m.finish_lock(2);
    assert_eq!(m.unlock(&mut s), Some(3));
    m.finish_lock(3);
    assert_eq!(m.unlock(&mut s), None);
    assert!(!m.is_locked());
    assert_eq!(m.into_inner(), 10);
}

#[test]
fn try_lock_takes_only_a_free_mutex() {
    let mut m = Mutex::new(1u8);
    let mut s = Scheduler::new();
    assert!(m.try_lock(4));
    assert!(!m.try_lock(5));
    assert_eq!(m.unlock(&mut s), None);
    assert!(s.run_queue.is_empty());
    assert!(m.try_lock(5));
}

#[test]
fn scheduler_stage_sets_up_the_boot_cpu() {
    let mut s = Scheduler::new();
    menix::sched::SCHEDULER_STAGE(&mut s, 0, 1, 2);
    assert_eq!(s.idle_task, Some(0));
    assert_eq!(s.current, Some(1));
    assert_eq!(s.run_queue, vec![2]);
    // The first reschedule leaves the placeholder for the main task.
    let states = vec![TaskState::Ready; 3];
    assert_eq!(s.reschedule(&states), Some(Switch { from: Some(1), to: 2 }));
}
