use lib::sync::condvar::Condvar;
use lib::sync::mutex::{AnyMutex, LockOutcome, Mutex, MutexBlocking, MutexSpin};
use lib::sync::semaphore::{DownOutcome, Semaphore};

#[test]
fn semaphore_new_has_units_and_no_waiters() {
    let s = Semaphore::new(2);
    assert_eq!(s.inner.count, 2);
    assert!(s.get_holders().is_empty());
    assert!(s.get_waiting_tasks().is_empty());
}

#[test]
fn semaphore_down_acquires_then_blocks() {
    let mut s = Semaphore::new(1);
    assert_eq!(s.down(3), DownOutcome::Acquired);
    assert_eq!(s.get_holders(), vec![3]);
    assert_eq!(s.down(4), DownOutcome::Blocked);
    assert_eq!(s.inner.count, -1);
    assert_eq!(s.get_waiting_tasks(), vec![4]);
    assert_eq!(s.get_holders(), vec![3]);
}

#[test]
fn semaphore_up_wakes_first_waiter_and_moves_it_to_holders() {
    let mut s = Semaphore::new(1);
    s.down(1);
    s.down(2);
    s.down(3);
    assert_eq!(s.get_waiting_tasks(), vec![2, 3]);
    assert_eq!(s.up(1), Some(2));
    assert_eq!(s.get_holders(), vec![2]);
    assert_eq!(s.get_waiting_tasks(), vec![3]);
    assert_eq!(s.inner.count, -1);
    assert_eq!(s.up(2), Some(3));
    assert_eq!(s.get_holders(), vec![3]);
    assert_eq!(s.up(3), None);
    assert_eq!(s.inner.count, 1);
    assert!(s.get_holders().is_empty());
}

#[test]
fn semaphore_up_by_non_holder_keeps_holders() {
    let mut s = Semaphore::new(0);
    assert_eq!(s.up(7), None);
    assert_eq!(s.inner.count, 1);
    assert!(s.get_holders().is_empty());
}

#[test]
fn semaphore_up_releases_first_unit_of_caller() {
    let mut s = Semaphore::new(3);
    s.down(5);
    s.down(6);
    s.down(5);
    assert_eq!(s.get_holders(), vec![5, 6, 5]);
    s.up(5);
    assert_eq!(s.get_holders(), vec![6, 5]);
}

#[test]
fn semaphore_down_up_round_trip() {
    let mut s = Semaphore::new(2);
    s.down(1);
    let before = (s.inner.count, s.get_holders(), s.get_waiting_tasks());
    assert_eq!(s.down(1), DownOutcome::Acquired);
    assert_eq!(s.up(1), None);
    let mut h0 = before.1.clone();
    let mut h1 = s.get_holders();
    h0.sort();
    h1.sort();
    assert_eq!(s.inner.count, before.0);
    assert_eq!(h1, h0);
    assert_eq!(s.get_waiting_tasks(), before.2);
}

#[test]
fn semaphore_waiters_match_deficit() {
    let mut s = Semaphore::new(1);
    for t in 0..5 {
        s.down(t);
        let deficit = if s.inner.count < 0 { (-s.inner.count) as usize } else { 0 };
        assert_eq!(s.get_waiting_tasks().len(), deficit);
    }
    for t in 0..5 {
        s.up(t);
        let deficit = if s.inner.count < 0 { (-s.inner.count) as usize } else { 0 };
        assert_eq!(s.get_waiting_tasks().len(), deficit);
    }
}

#[test]
fn spin_mutex_lock_busy_unlock() {
    let mut m = MutexSpin::new();
    assert_eq!(m.get_owner(), None);
    assert_eq!(m.lock(1), LockOutcome::Acquired);
    assert_eq!(m.get_owner(), Some(1));
    assert_eq!(m.lock(2), LockOutcome::Busy);
    assert_eq!(m.get_owner(), Some(1));
    assert!(m.get_waiting_tasks().is_empty());
    assert_eq!(m.unlock(), None);
    assert_eq!(m.get_owner(), None);
    assert_eq!(m.lock(2), LockOutcome::Acquired);
}

#[test]
fn blocking_mutex_hands_over_in_fifo_order() {
    let mut m = MutexBlocking::new();
    assert_eq!(m.lock(1), LockOutcome::Acquired);
    assert_eq!(m.lock(2), LockOutcome::Blocked);
    assert_eq!(m.lock(3), LockOutcome::Blocked);
    assert_eq!(m.get_waiting_tasks(), vec![2, 3]);
    assert_eq!(m.unlock(), Some(2));
    assert_eq!(m.get_owner(), Some(2));
    assert_eq!(m.get_waiting_tasks(), vec![3]);
    assert_eq!(m.unlock(), Some(3));
    assert_eq!(m.get_owner(), Some(3));
    assert_eq!(m.unlock(), None);
    assert_eq!(m.get_owner(), None);
    assert!(m.get_waiting_tasks().is_empty());
}

#[test]
fn mutex_lock_unlock_round_trip() {
    let mut m = AnyMutex::new(true);
    assert_eq!(m.lock(4), LockOutcome::Acquired);
    assert_eq!(m.unlock(), None);
    assert_eq!(m.get_owner(), None);
    assert!(m.get_waiting_tasks().is_empty());
}

#[test]
fn any_mutex_kinds_and_unlockable() {
    let mut spin = AnyMutex::new(false);
    let mut blocking = AnyMutex::new(true);
    assert!(matches!(spin, AnyMutex::Spin(_)));
    assert!(matches!(blocking, AnyMutex::Blocking(_)));
    assert!(spin.unlockable());
    assert!(!blocking.unlockable());
    blocking.lock(1);
    assert!(blocking.unlockable());
    spin.lock(1);
    assert_eq!(spin.lock(2), LockOutcome::Busy);
    assert_eq!(blocking.lock(2), LockOutcome::Blocked);
}

#[test]
fn condvar_signal_wakes_in_order() {
    let mut c = Condvar::new();
    assert_eq!(c.signal(), None);
    c.wait(4);
    c.wait(9);
    assert_eq!(c.signal(), Some(4));
    assert_eq!(c.signal(), Some(9));
    assert_eq!(c.signal(), None);
}
