//! Mutex (spin-like and blocking(sleep))
//!
//! Tasks are named by their task id. A lock attempt is one step: it either
//! takes the mutex or tells the scheduler what the caller must do (retry
//! later for a spin mutex, sleep for a blocking one).
use std::collections::VecDeque;
use vstd::prelude::*;

verus! {

/// What a lock attempt asks of the scheduler.
#[derive(PartialEq, Eq, Structural, Clone, Copy, Debug)]
pub enum LockOutcome {
    /// The caller now owns the mutex.
    Acquired,
    /// The caller was queued and must sleep until an unlock hands it the mutex.
    Blocked,
    /// The mutex is taken: the caller yields and tries again.
    Busy,
}

/// Mutex trait
pub trait Mutex: Sized {
    /// The task that owns the mutex, if any.
    spec fn owner_of(&self) -> Option<usize>;

    /// The tasks queued on the mutex, first to be served first.
    spec fn waiters_of(&self) -> Seq<usize>;

    /// Whether `unlock` may be called in this state.
    spec fn can_unlock(&self) -> bool;

    /// Internal consistency of the mutex.
    spec fn inv(&self) -> bool;

    /// Lock the mutex on behalf of task `tid`
    fn lock(&mut self, tid: usize) -> (out: LockOutcome)
        requires
            old(self).inv(),
        ensures
            final(self).inv(),
            (out == LockOutcome::Acquired) == (old(self).owner_of() is None),
            out == LockOutcome::Acquired ==> final(self).owner_of() == Some(tid)
                && final(self).waiters_of() == old(self).waiters_of(),
            out == LockOutcome::Blocked ==> final(self).owner_of() == old(self).owner_of()
                && final(self).waiters_of() == old(self).waiters_of().push(tid),
            out == LockOutcome::Busy ==> final(self).owner_of() == old(self).owner_of()
                && final(self).waiters_of() == old(self).waiters_of(),
    ;

    /// Unlock the mutex; returns the task that now owns it and must be woken.
    fn unlock(&mut self) -> (woken: Option<usize>)
        requires
            old(self).inv(),
            old(self).can_unlock(),
        ensures
            final(self).inv(),
            match woken {
                Some(t) => {
                    &&& old(self).waiters_of().len() > 0
                    &&& t == old(self).waiters_of()[0]
                    &&& final(self).owner_of() == Some(t)
                    &&& final(self).waiters_of() == old(self).waiters_of().drop_first()
                },
                None => {
                    &&& old(self).waiters_of().len() == 0
                    &&& final(self).owner_of() is None
                    &&& final(self).waiters_of() == old(self).waiters_of()
                },
            },
    ;

    /// Get the owner of the mutex
    fn get_owner(&self) -> (r: Option<usize>)
        ensures
            r == self.owner_of(),
    ;

    /// Get the waiting tasks of the mutex
    fn get_waiting_tasks(&self) -> (r: Vec<usize>)
        ensures
            r@ == self.waiters_of(),
    ;
}

/// Spinlock Mutex struct
pub struct MutexSpin {
    locked: Option<usize>,
}

impl MutexSpin {
    /// Create a new spinlock mutex
    pub fn new() -> (m: Self)
        ensures
            m.inv(),
            m.owner_of() is None,
            m.waiters_of() == Seq::<usize>::empty(),
            m.can_unlock(),
    {
        MutexSpin { locked: None }
    }
}

impl Mutex for MutexSpin {
    closed spec fn owner_of(&self) -> Option<usize> {
        self.locked
    }

    /// Tasks spinning on a spin mutex are never queued.
    open spec fn waiters_of(&self) -> Seq<usize> {
        Seq::empty()
    }

    /// A spin mutex may be unlocked at any time, locked or not.
    open spec fn can_unlock(&self) -> bool {
        true
    }

    open spec fn inv(&self) -> bool {
        true
    }

    /// Lock the spinlock mutex: never queues the caller.
    fn lock(&mut self, tid: usize) -> (out: LockOutcome)
        ensures
            out != LockOutcome::Blocked,
    {
        if self.locked.is_some() {
            LockOutcome::Busy
        } else {
            self.locked = Some(tid);
            LockOutcome::Acquired
        }
    }

    fn unlock(&mut self) -> (woken: Option<usize>) {
        self.locked = None;
        None
    }

    fn get_owner(&self) -> (r: Option<usize>) {
        self.locked
    }

    fn get_waiting_tasks(&self) -> (r: Vec<usize>) {
        Vec::new()
    }
}

/// Blocking Mutex struct
pub struct MutexBlocking {
    inner: MutexBlockingInner,
}

/// State of a blocking mutex.
pub struct MutexBlockingInner {
    locked: bool,
    owner: Option<usize>,
    wait_queue: VecDeque<usize>,
}

impl MutexBlocking {
    /// The mutex is held.
    pub closed spec fn is_locked(&self) -> bool {
        self.inner.locked
    }

    /// Create a new blocking mutex
    pub fn new() -> (m: Self)
        ensures
            m.inv(),
            m.owner_of() is None,
            m.waiters_of() == Seq::<usize>::empty(),
            !m.is_locked(),
    {
        MutexBlocking {
            inner: MutexBlockingInner { locked: false, owner: None, wait_queue: VecDeque::new() },
        }
    }
}

impl Mutex for MutexBlocking {
    closed spec fn owner_of(&self) -> Option<usize> {
        self.inner.owner
    }

    closed spec fn waiters_of(&self) -> Seq<usize> {
        self.inner.wait_queue@
    }

    /// Unlocking an unlocked blocking mutex is a kernel bug.
    open spec fn can_unlock(&self) -> bool {
        self.is_locked()
    }

    /// Locked exactly when owned, and nobody waits on a free mutex.
    open spec fn inv(&self) -> bool {
        &&& self.is_locked() == (self.owner_of() is Some)
        &&& !self.is_locked() ==> self.waiters_of().len() == 0
    }

    /// lock the blocking mutex: a busy mutex queues the caller.
    fn lock(&mut self, tid: usize) -> (out: LockOutcome)
        ensures
            out != LockOutcome::Busy,
    {
        if self.inner.locked {
            self.inner.wait_queue.push_back(tid);
            LockOutcome::Blocked
        } else {
            self.inner.locked = true;
            self.inner.owner = Some(tid);
            LockOutcome::Acquired
        }
    }

    /// unlock the blocking mutex: ownership passes to the first waiter.
    fn unlock(&mut self) -> (woken: Option<usize>) {
        if let Some(waking_task) = self.inner.wait_queue.pop_front() {
            self.inner.owner = Some(waking_task);
            Some(waking_task)
        } else {
            self.inner.locked = false;
            self.inner.owner = None;
            None
        }
    }

    fn get_owner(&self) -> (r: Option<usize>) {
        self.inner.owner
    }

    fn get_waiting_tasks(&self) -> (r: Vec<usize>) {
        let mut r: Vec<usize> = Vec::new();
        let mut i: usize = 0;
        while i < self.inner.wait_queue.len()
            invariant
                i <= self.inner.wait_queue@.len(),
                r@ == self.inner.wait_queue@.take(i as int),
            decreases self.inner.wait_queue@.len() - i,
        {
            r.push(self.inner.wait_queue[i]);
            i = i + 1;
            assert(r@ =~= self.inner.wait_queue@.take(i as int));
        }
        assert(r@ =~= self.inner.wait_queue@);
        r
    }
}

/// A mutex of either kind, as a process keeps it in its mutex table.
pub enum AnyMutex {
    Spin(MutexSpin),
    Blocking(MutexBlocking),
}

impl AnyMutex {
    /// A fresh mutex: a blocking one when `blocking`, else a spin one.
    pub fn new(blocking: bool) -> (m: Self)
        ensures
            m.inv(),
            m.owner_of() is None,
            m.waiters_of() == Seq::<usize>::empty(),
            m is Blocking == blocking,
    {
        if !blocking {
            AnyMutex::Spin(MutexSpin::new())
        } else {
            AnyMutex::Blocking(MutexBlocking::new())
        }
    }

    /// Whether `unlock` may be called now: always for a spin mutex, only
    /// while locked for a blocking one.
    pub fn unlockable(&self) -> (r: bool)
        ensures
            r == self.can_unlock(),
    {
        match self {
            AnyMutex::Spin(_) => true,
            AnyMutex::Blocking(m) => m.inner.owner.is_some(),
        }
    }
}

impl Mutex for AnyMutex {
    open spec fn owner_of(&self) -> Option<usize> {
        match self {
            AnyMutex::Spin(m) => m.owner_of(),
            AnyMutex::Blocking(m) => m.owner_of(),
        }
    }

    open spec fn waiters_of(&self) -> Seq<usize> {
        match self {
            AnyMutex::Spin(m) => m.waiters_of(),
            AnyMutex::Blocking(m) => m.waiters_of(),
        }
    }

    /// A spin mutex may always be unlocked, a blocking one while owned.
    open spec fn can_unlock(&self) -> bool {
        match self {
            AnyMutex::Spin(_) => true,
            AnyMutex::Blocking(m) => m.owner_of() is Some,
        }
    }

    open spec fn inv(&self) -> bool {
        match self {
            AnyMutex::Spin(m) => m.inv(),
            AnyMutex::Blocking(m) => m.inv(),
        }
    }

    fn lock(&mut self, tid: usize) -> (out: LockOutcome)
        ensures
            (*final(self) is Spin) == (*old(self) is Spin),
            *old(self) is Spin ==> out != LockOutcome::Blocked,
            *old(self) is Blocking ==> out != LockOutcome::Busy,
    {
        match self {
            AnyMutex::Spin(m) => m.lock(tid),
            AnyMutex::Blocking(m) => m.lock(tid),
        }
    }

    fn unlock(&mut self) -> (woken: Option<usize>)
        ensures
            (*final(self) is Spin) == (*old(self) is Spin),
    {
        match self {
            AnyMutex::Spin(m) => m.unlock(),
            AnyMutex::Blocking(m) => m.unlock(),
        }
    }

    fn get_owner(&self) -> (r: Option<usize>) {
        match self {
            AnyMutex::Spin(m) => m.get_owner(),
            AnyMutex::Blocking(m) => m.get_owner(),
        }
    }

    fn get_waiting_tasks(&self) -> (r: Vec<usize>) {
        match self {
            AnyMutex::Spin(m) => m.get_waiting_tasks(),
            AnyMutex::Blocking(m) => m.get_waiting_tasks(),
        }
    }
}

/// A free mutex has nobody waiting on it.
pub proof fn lemma_free_mutex_no_waiters(m: AnyMutex)
    requires
        m.inv(),
        m.owner_of() is None,
    ensures
        m.waiters_of().len() == 0,
{
}

} // verus!
