use lib::sync::mutex::{AnyMutex, Mutex};
use lib::sync::semaphore::Semaphore;
use lib::syscall::deadlock::{check_deadlock, Resource};
use lib::syscall::sync::{
    mutex_lock_step, mutex_unlockable, sys_condvar_create, sys_condvar_signal, sys_condvar_wait,
    sys_enable_deadlock_detect, sys_mutex_create, sys_mutex_lock, sys_mutex_unlock,
    sys_semaphore_create, sys_semaphore_down, sys_semaphore_up, sys_sleep, LockStep, ProcessSync,
    ERR_DEADLOCK, ERR_INVALID,
};

fn owner(p: &ProcessSync, id: usize) -> Option<usize> {
    p.mutex_list[id].as_ref().unwrap().get_owner()
}

fn mutex_waiters(p: &ProcessSync, id: usize) -> Vec<usize> {
    p.mutex_list[id].as_ref().unwrap().get_waiting_tasks()
}

#[test]
fn error_codes() {
    assert_eq!(ERR_INVALID, -1);
    assert_eq!(ERR_DEADLOCK, -0xDEAD);
}

#[test]
fn mutex_create_takes_lowest_free_slot() {
    let mut p = ProcessSync::new();
    assert_eq!(sys_mutex_create(&mut p, true), 0);
    assert_eq!(sys_mutex_create(&mut p, false), 1);
    p.mutex_list[0] = None;
    assert_eq!(sys_mutex_create(&mut p, false), 0);
    assert!(matches!(p.mutex_list[0], Some(AnyMutex::Spin(_))));
    assert_eq!(p.mutex_list.len(), 2);
    assert_eq!(sys_mutex_create(&mut p, true), 2);
    assert!(matches!(p.mutex_list[2], Some(AnyMutex::Blocking(_))));
}

#[test]
fn mutex_lock_unknown_id_fails() {
    let mut p = ProcessSync::new();
    let tasks = vec![true];
    assert_eq!(sys_mutex_lock(&mut p, &tasks, 0, 0), LockStep::Done(-1));
    sys_mutex_create(&mut p, true);
    p.mutex_list.push(None);
    assert_eq!(sys_mutex_lock(&mut p, &tasks, 0, 1), LockStep::Done(-1));
    assert_eq!(sys_mutex_lock(&mut p, &tasks, 0, 7), LockStep::Done(-1));
}

#[test]
fn blocking_mutex_lock_and_unlock_through_syscalls() {
    let mut p = ProcessSync::new();
    let tasks = vec![true, true];
    let m = sys_mutex_create(&mut p, true) as usize;
    assert!(!mutex_unlockable(&p, m));
    assert_eq!(sys_mutex_lock(&mut p, &tasks, 0, m), LockStep::Done(0));
    assert_eq!(owner(&p, m), Some(0));
    assert_eq!(sys_mutex_lock(&mut p, &tasks, 1, m), LockStep::Block);
    assert_eq!(mutex_waiters(&p, m), vec![1]);
    assert!(mutex_unlockable(&p, m));
    assert_eq!(sys_mutex_unlock(&mut p, m), Some(1));
    assert_eq!(owner(&p, m), Some(1));
    assert_eq!(sys_mutex_unlock(&mut p, m), None);
    assert_eq!(owner(&p, m), None);
}

#[test]
fn spin_mutex_asks_to_retry() {
    let mut p = ProcessSync::new();
    let tasks = vec![true, true];
    let m = sys_mutex_create(&mut p, false) as usize;
    assert_eq!(sys_mutex_lock(&mut p, &tasks, 0, m), LockStep::Done(0));
    assert_eq!(sys_mutex_lock(&mut p, &tasks, 1, m), LockStep::Retry);
    assert_eq!(mutex_lock_step(&mut p, 1, m), LockStep::Retry);
    assert_eq!(sys_mutex_unlock(&mut p, m), None);
    assert_eq!(mutex_lock_step(&mut p, 1, m), LockStep::Done(0));
    assert_eq!(owner(&p, m), Some(1));
}

fn two_mutex_cycle(enabled: usize) -> (ProcessSync, Vec<bool>) {
    let mut p = ProcessSync::new();
    let tasks = vec![true, true];
    assert_eq!(sys_enable_deadlock_detect(&mut p, enabled), 0);
    let a = sys_mutex_create(&mut p, true) as usize;
    let b = sys_mutex_create(&mut p, true) as usize;
    assert_eq!(sys_mutex_lock(&mut p, &tasks, 0, a), LockStep::Done(0));
    assert_eq!(sys_mutex_lock(&mut p, &tasks, 1, b), LockStep::Done(0));
    // Task 1 waits for `a`: task 0 can still finish, so this is safe.
    assert_eq!(sys_mutex_lock(&mut p, &tasks, 1, a), LockStep::Block);
    (p, tasks)
}

#[test]
fn mutex_lock_closing_a_cycle_is_refused() {
    let (mut p, tasks) = two_mutex_cycle(1);
    assert!(check_deadlock(&p, &tasks, 0, Resource::Mutex(1)));
    assert_eq!(sys_mutex_lock(&mut p, &tasks, 0, 1), LockStep::Done(-0xDEAD));
    // A refused request changes nothing.
    assert_eq!(owner(&p, 1), Some(1));
    assert!(mutex_waiters(&p, 1).is_empty());
    assert_eq!(mutex_waiters(&p, 0), vec![1]);
}

#[test]
fn mutex_cycle_not_refused_when_detection_off() {
    let (mut p, tasks) = two_mutex_cycle(0);
    assert!(!check_deadlock(&p, &tasks, 0, Resource::Mutex(1)));
    assert_eq!(sys_mutex_lock(&mut p, &tasks, 0, 1), LockStep::Block);
    assert_eq!(mutex_waiters(&p, 1), vec![0]);
}

#[test]
fn waiting_on_a_mutex_held_by_a_dead_task_is_a_deadlock() {
    let (p, _) = two_mutex_cycle(1);
    // If task 1 is gone, what it holds does not matter to the live tasks...
    let tasks = vec![true, false];
    // ...but task 0 still waits on a mutex nobody will release: refused.
    assert!(check_deadlock(&p, &tasks, 0, Resource::Mutex(1)));
    // A mutex that does not exist has no unit to give either.
    assert!(check_deadlock(&p, &tasks, 0, Resource::Mutex(7)));
}

#[test]
fn free_request_without_waiters_is_granted() {
    let mut p = ProcessSync::new();
    let tasks = vec![true, true, true];
    sys_enable_deadlock_detect(&mut p, 5);
    assert!(p.deadlock_detection_enabled);
    let m = sys_mutex_create(&mut p, true) as usize;
    assert!(!check_deadlock(&p, &tasks, 2, Resource::Mutex(m)));
    assert_eq!(sys_mutex_lock(&mut p, &tasks, 2, m), LockStep::Done(0));
}

#[test]
fn request_for_missing_resource_counts_as_unavailable() {
    let mut p = ProcessSync::new();
    sys_enable_deadlock_detect(&mut p, 1);
    let tasks = vec![true];
    assert!(check_deadlock(&p, &tasks, 0, Resource::Semaphore(3)));
}

#[test]
fn semaphore_create_up_down() {
    let mut p = ProcessSync::new();
    let tasks = vec![true, true];
    assert_eq!(sys_semaphore_create(&mut p, 1), 0);
    assert_eq!(sys_semaphore_create(&mut p, 0), 1);
    assert_eq!(sys_semaphore_down(&mut p, &tasks, 0, 0), LockStep::Done(0));
    assert_eq!(sys_semaphore_down(&mut p, &tasks, 1, 0), LockStep::Block);
    assert_eq!(sys_semaphore_up(&mut p, 0, 0), Some(1));
    let s: &Semaphore = p.semaphore_list[0].as_ref().unwrap();
    assert_eq!(s.get_holders(), vec![1]);
    assert_eq!(s.inner.count, 0);
    assert_eq!(sys_semaphore_down(&mut p, &tasks, 0, 9), LockStep::Done(-1));
}

#[test]
fn semaphore_cycle_is_refused() {
    let mut p = ProcessSync::new();
    let tasks = vec![true, true];
    sys_enable_deadlock_detect(&mut p, 1);
    let a = sys_semaphore_create(&mut p, 1) as usize;
    let b = sys_semaphore_create(&mut p, 1) as usize;
    assert_eq!(sys_semaphore_down(&mut p, &tasks, 0, a), LockStep::Done(0));
    assert_eq!(sys_semaphore_down(&mut p, &tasks, 1, b), LockStep::Done(0));
    assert_eq!(sys_semaphore_down(&mut p, &tasks, 1, a), LockStep::Block);
    assert_eq!(sys_semaphore_down(&mut p, &tasks, 0, b), LockStep::Done(-0xDEAD));
    assert_eq!(p.semaphore_list[b].as_ref().unwrap().inner.count, 0);
}

#[test]
fn semaphore_with_spare_units_is_not_refused() {
    let mut p = ProcessSync::new();
    let tasks = vec![true, true];
    sys_enable_deadlock_detect(&mut p, 1);
    let a = sys_semaphore_create(&mut p, 2) as usize;
    assert_eq!(sys_semaphore_down(&mut p, &tasks, 0, a), LockStep::Done(0));
    assert_eq!(sys_semaphore_down(&mut p, &tasks, 1, a), LockStep::Done(0));
    assert_eq!(sys_semaphore_down(&mut p, &tasks, 0, a), LockStep::Block);
}

#[test]
fn condvar_wait_releases_mutex_and_signal_wakes() {
    let mut p = ProcessSync::new();
    let tasks = vec![true, true, true];
    let m = sys_mutex_create(&mut p, true) as usize;
    let c = sys_condvar_create(&mut p) as usize;
    assert_eq!(c, 0);
    assert_eq!(sys_mutex_lock(&mut p, &tasks, 1, m), LockStep::Done(0));
    assert_eq!(sys_mutex_lock(&mut p, &tasks, 2, m), LockStep::Block);
    assert_eq!(sys_condvar_wait(&mut p, 1, c, m), Some(2));
    assert_eq!(owner(&p, m), Some(2));
    assert_eq!(sys_condvar_signal(&mut p, c), Some(1));
    assert_eq!(sys_condvar_signal(&mut p, c), None);
    assert_eq!(mutex_lock_step(&mut p, 1, m), LockStep::Block);
}

#[test]
fn condvar_create_reuses_slots() {
    let mut p = ProcessSync::new();
    assert_eq!(sys_condvar_create(&mut p), 0);
    assert_eq!(sys_condvar_create(&mut p), 1);
    p.condvar_list[0] = None;
    assert_eq!(sys_condvar_create(&mut p), 0);
    assert_eq!(sys_condvar_create(&mut p), 2);
}

#[test]
fn sleep_expiry() {
    assert_eq!(sys_sleep(1000, 250), 1250);
    assert_eq!(sys_sleep(0, 0), 0);
}
