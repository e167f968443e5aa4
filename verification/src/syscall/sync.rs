//! The synchronisation system calls of a process.
//!
//! Each call works on the synchronisation state of the calling process and
//! returns either its result or the step the scheduler must take for the
//! calling task (block, yield and retry) together with the tasks to wake.
use crate::sync::condvar::Condvar;
use crate::sync::mutex::{AnyMutex, LockOutcome, Mutex};
use crate::sync::semaphore::{down_spec, sem_wf, up_spec, DownOutcome, Semaphore};
use crate::syscall::deadlock::{check_deadlock, deadlocked, Resource};
use vstd::prelude::*;

verus! {

/// The synchronisation objects of a process, each table indexed by the id
/// handed out at creation (`None` marks a free slot).
pub struct ProcessSync {
    pub deadlock_detection_enabled: bool,
    pub mutex_list: Vec<Option<AnyMutex>>,
    pub semaphore_list: Vec<Option<Semaphore>>,
    pub condvar_list: Vec<Option<Condvar>>,
}

impl ProcessSync {
    /// Every object in the tables is internally consistent.
    pub open spec fn wf(&self) -> bool {
        &&& forall|i: int|
            0 <= i < self.mutex_list@.len() ==> match #[trigger] self.mutex_list@[i] {
                Some(m) => m.inv(),
                None => true,
            }
        &&& forall|i: int|
            0 <= i < self.semaphore_list@.len() ==> match #[trigger] self.semaphore_list@[i] {
                Some(s) => sem_wf(s@),
                None => true,
            }
    }

    /// No objects, deadlock detection off.
    pub fn new() -> (p: Self)
        ensures
            p.wf(),
            !p.deadlock_detection_enabled,
            p.mutex_list@.len() == 0,
            p.semaphore_list@.len() == 0,
            p.condvar_list@.len() == 0,
    {
        ProcessSync {
            deadlock_detection_enabled: false,
            mutex_list: Vec::new(),
            semaphore_list: Vec::new(),
            condvar_list: Vec::new(),
        }
    }
}

/// `i` is the slot a new object takes in table `s`: the lowest free slot,
/// or a new slot at the end when none is free.
pub open spec fn is_first_free<T>(s: Seq<Option<T>>, i: int) -> bool {
    &&& 0 <= i <= s.len()
    &&& forall|j: int| 0 <= j < i ==> #[trigger] s[j] is Some
    &&& i < s.len() ==> s[i] is None
}

/// Put `item` in the lowest free slot of `list`, or in a new slot at the
/// end; returns the slot.
fn alloc_slot<T>(list: &mut Vec<Option<T>>, item: T) -> (id: usize)
    ensures
        is_first_free(old(list)@, id as int),
        id < old(list)@.len() ==> final(list)@ == old(list)@.update(id as int, Some(item)),
        id == old(list)@.len() ==> final(list)@ == old(list)@.push(Some(item)),
{
    let mut i: usize = 0;
    while i < list.len()
        invariant
            i <= list@.len(),
            list@ == old(list)@,
            forall|j: int| 0 <= j < i ==> #[trigger] list@[j] is Some,
        decreases list@.len() - i,
    {
        if list[i].is_none() {
            list.set(i, Some(item));
            return i;
        }
        i = i + 1;
    }
    list.push(Some(item));
    i
}

/// What the calling task does after a lock or down request.
#[derive(PartialEq, Eq, Structural, Clone, Copy, Debug)]
pub enum LockStep {
    /// Return this value to the task now.
    Done(isize),
    /// Put the task to sleep; when woken it holds what it asked for, and the
    /// call returns 0.
    Block,
    /// Let the task yield, then make the lock attempt again.
    Retry,
}

/// Error returned for an id that names no object.
pub const ERR_INVALID: isize = -1;

/// Error returned when the request could deadlock the process.
pub const ERR_DEADLOCK: isize = -0xDEAD;

/// The mutex in slot `id` of `p`, if there is one.
pub open spec fn mutex_at(p: ProcessSync, id: usize) -> Option<AnyMutex> {
    if id < p.mutex_list@.len() {
        p.mutex_list@[id as int]
    } else {
        None
    }
}

/// The semaphore in slot `id` of `p`, if there is one.
pub open spec fn semaphore_at(p: ProcessSync, id: usize) -> Option<Semaphore> {
    if id < p.semaphore_list@.len() {
        p.semaphore_list@[id as int]
    } else {
        None
    }
}

/// The condition variable in slot `id` of `p`, if there is one.
pub open spec fn condvar_at(p: ProcessSync, id: usize) -> Option<Condvar> {
    if id < p.condvar_list@.len() {
        p.condvar_list@[id as int]
    } else {
        None
    }
}

/// `m1` is mutex `m0` after one lock attempt by `tid`, which ended in `step`:
/// a free mutex is taken; a taken blocking mutex queues `tid`, which sleeps;
/// a taken spin mutex is left alone and `tid` retries.
pub open spec fn lock_attempt(m0: AnyMutex, m1: AnyMutex, tid: usize, step: LockStep) -> bool {
    &&& m1.inv()
    &&& (m1 is Blocking) == (m0 is Blocking)
    &&& if m0.owner_of() is None {
        &&& step == LockStep::Done(0)
        &&& m1.owner_of() == Some(tid)
        &&& m1.waiters_of() == m0.waiters_of()
    } else if m0 is Blocking {
        &&& step == LockStep::Block
        &&& m1.owner_of() == m0.owner_of()
        &&& m1.waiters_of() == m0.waiters_of().push(tid)
    } else {
        &&& step == LockStep::Retry
        &&& m1.owner_of() == m0.owner_of()
        &&& m1.waiters_of() == m0.waiters_of()
    }
}

/// `m1` is mutex `m0` after an unlock that woke `woken`: the first waiter,
/// if any, becomes the owner; otherwise the mutex is free.
pub open spec fn unlocked(m0: AnyMutex, m1: AnyMutex, woken: Option<usize>) -> bool {
    &&& m1.inv()
    &&& (m1 is Blocking) == (m0 is Blocking)
    &&& if m0.waiters_of().len() > 0 {
        &&& woken == Some(m0.waiters_of()[0])
        &&& m1.owner_of() == woken
        &&& m1.waiters_of() == m0.waiters_of().drop_first()
    } else {
        &&& woken is None
        &&& m1.owner_of() is None
        &&& m1.waiters_of() == m0.waiters_of()
    }
}

/// One lock attempt by task `tid` on mutex `mutex_id`, which must exist.
pub fn mutex_lock_step(p: &mut ProcessSync, tid: usize, mutex_id: usize) -> (step: LockStep)
    requires
        old(p).wf(),
        mutex_at(*old(p), mutex_id) is Some,
    ensures
        final(p).wf(),
        mutex_at(*final(p), mutex_id) is Some,
        lock_attempt(mutex_at(*old(p), mutex_id).unwrap(), mutex_at(*final(p), mutex_id).unwrap(), tid, step),
        final(p).mutex_list@ == old(p).mutex_list@.update(mutex_id as int, mutex_at(*final(p), mutex_id)),
        final(p).semaphore_list@ == old(p).semaphore_list@,
        final(p).condvar_list@ == old(p).condvar_list@,
        final(p).deadlock_detection_enabled == old(p).deadlock_detection_enabled,
{
    let ghost m0 = mutex_at(*p, mutex_id).unwrap();
    assert(m0.inv());
    match &mut p.mutex_list[mutex_id] {
        Some(m) => {
            match m.lock(tid) {
                LockOutcome::Acquired => LockStep::Done(0),
                LockOutcome::Blocked => LockStep::Block,
                LockOutcome::Busy => LockStep::Retry,
            }
        },
        None => LockStep::Done(ERR_INVALID),
    }
}

/// sleep syscall: the time, in ms, at which a task that calls it at
/// `now_ms` is woken.
pub fn sys_sleep(now_ms: usize, ms: usize) -> (expire_ms: usize)
    requires
        now_ms + ms <= usize::MAX,
    ensures
        expire_ms == now_ms + ms,
{
    now_ms + ms
}

/// mutex create syscall: a blocking mutex when `blocking`, else a spin one,
/// in the lowest free slot; returns its id.
pub fn sys_mutex_create(p: &mut ProcessSync, blocking: bool) -> (id: isize)
    requires
        old(p).wf(),
        old(p).mutex_list@.len() < isize::MAX,
    ensures
        final(p).wf(),
        is_first_free(old(p).mutex_list@, id as int),
        final(p).mutex_list@.len() == if id < old(p).mutex_list@.len() {
            old(p).mutex_list@.len()
        } else {
            old(p).mutex_list@.len() + 1
        },
        forall|j: int| 0 <= j < old(p).mutex_list@.len() && j != id ==> #[trigger] final(p).mutex_list@[j]
            == old(p).mutex_list@[j],
        ({
            let m = mutex_at(*final(p), id as usize);
            &&& m is Some
            &&& m.unwrap().owner_of() is None
            &&& m.unwrap().waiters_of() == Seq::<usize>::empty()
            &&& (m.unwrap() is Blocking) == blocking
        }),
        final(p).semaphore_list@ == old(p).semaphore_list@,
        final(p).condvar_list@ == old(p).condvar_list@,
        final(p).deadlock_detection_enabled == old(p).deadlock_detection_enabled,
{
    let mutex = AnyMutex::new(blocking);
    let id = alloc_slot(&mut p.mutex_list, mutex);
    proof {
        assert forall|i: int| 0 <= i < p.mutex_list@.len() implies match #[trigger] p.mutex_list@[i] {
            Some(m) => m.inv(),
            None => true,
        } by {
            if i != id {
                assert(old(p).mutex_list@[i] == p.mutex_list@[i]);
            }
        }
    }
    id as isize
}

/// mutex lock syscall, by task `tid`; `tasks[t]` tells whether task id `t`
/// is live. Refused for an unknown id, and refused when deadlock detection
/// is on and the wait could deadlock the process; otherwise one lock
/// attempt.
pub fn sys_mutex_lock(p: &mut ProcessSync, tasks: &Vec<bool>, tid: usize, mutex_id: usize) -> (step:
    LockStep)
    requires
        old(p).wf(),
    ensures
        final(p).wf(),
        mutex_at(*old(p), mutex_id) is None ==> step == LockStep::Done(ERR_INVALID) && *final(p)
            == *old(p),
        mutex_at(*old(p), mutex_id) is Some && old(p).deadlock_detection_enabled && deadlocked(
            *old(p),
            tasks@,
            tid,
            Resource::Mutex(mutex_id),
        ) ==> step == LockStep::Done(ERR_DEADLOCK) && *final(p) == *old(p),
        mutex_at(*old(p), mutex_id) is Some && !(old(p).deadlock_detection_enabled && deadlocked(
            *old(p),
            tasks@,
            tid,
            Resource::Mutex(mutex_id),
        )) ==> {
            &&& mutex_at(*final(p), mutex_id) is Some
            &&& lock_attempt(
                mutex_at(*old(p), mutex_id).unwrap(),
                mutex_at(*final(p), mutex_id).unwrap(),
                tid,
                step,
            )
            &&& final(p).mutex_list@ == old(p).mutex_list@.update(
                mutex_id as int,
                mutex_at(*final(p), mutex_id),
            )
            &&& final(p).semaphore_list@ == old(p).semaphore_list@
            &&& final(p).condvar_list@ == old(p).condvar_list@
            &&& final(p).deadlock_detection_enabled == old(p).deadlock_detection_enabled
        },
{
    if mutex_id >= p.mutex_list.len() || p.mutex_list[mutex_id].is_none() {
        return LockStep::Done(ERR_INVALID);
    }
    if check_deadlock(p, tasks, tid, Resource::Mutex(mutex_id)) {
        return LockStep::Done(ERR_DEADLOCK);
    }
    mutex_lock_step(p, tid, mutex_id)
}

/// mutex unlock syscall; returns the task to wake, which now owns the
/// mutex. The mutex must exist, and a blocking one must be locked.
pub fn sys_mutex_unlock(p: &mut ProcessSync, mutex_id: usize) -> (woken: Option<usize>)
    requires
        old(p).wf(),
        mutex_at(*old(p), mutex_id) is Some,
        mutex_at(*old(p), mutex_id).unwrap().can_unlock(),
    ensures
        final(p).wf(),
        mutex_at(*final(p), mutex_id) is Some,
        unlocked(mutex_at(*old(p), mutex_id).unwrap(), mutex_at(*final(p), mutex_id).unwrap(), woken),
        final(p).mutex_list@ == old(p).mutex_list@.update(mutex_id as int, mutex_at(*final(p), mutex_id)),
        final(p).semaphore_list@ == old(p).semaphore_list@,
        final(p).condvar_list@ == old(p).condvar_list@,
        final(p).deadlock_detection_enabled == old(p).deadlock_detection_enabled,
{
    let ghost m0 = mutex_at(*p, mutex_id).unwrap();
    assert(m0.inv());
    match &mut p.mutex_list[mutex_id] {
        Some(m) => m.unlock(),
        None => None,
    }
}

/// Whether `sys_mutex_unlock` may be called for `mutex_id`: the mutex exists
/// and, if it is a blocking one, it is locked.
pub fn mutex_unlockable(p: &ProcessSync, mutex_id: usize) -> (ok: bool)
    ensures
        ok == (mutex_at(*p, mutex_id) is Some && mutex_at(*p, mutex_id).unwrap().can_unlock()),
{
    if mutex_id >= p.mutex_list.len() {
        return false;
    }
    match &p.mutex_list[mutex_id] {
        Some(m) => m.unlockable(),
        None => false,
    }
}

/// semaphore create syscall: a semaphore with `res_count` units in the
/// lowest free slot; returns its id.
pub fn sys_semaphore_create(p: &mut ProcessSync, res_count: usize) -> (id: isize)
    requires
        old(p).wf(),
        old(p).semaphore_list@.len() < isize::MAX,
    ensures
        final(p).wf(),
        is_first_free(old(p).semaphore_list@, id as int),
        final(p).semaphore_list@.len() == if id < old(p).semaphore_list@.len() {
            old(p).semaphore_list@.len()
        } else {
            old(p).semaphore_list@.len() + 1
        },
        forall|j: int|
            0 <= j < old(p).semaphore_list@.len() && j != id ==> #[trigger] final(p).semaphore_list@[j]
                == old(p).semaphore_list@[j],
        ({
            let s = semaphore_at(*final(p), id as usize);
            &&& s is Some
            &&& s.unwrap()@.count == res_count as isize
            &&& s.unwrap()@.waiters == Seq::<usize>::empty()
            &&& s.unwrap()@.holders == Seq::<usize>::empty()
        }),
        final(p).mutex_list@ == old(p).mutex_list@,
        final(p).condvar_list@ == old(p).condvar_list@,
        final(p).deadlock_detection_enabled == old(p).deadlock_detection_enabled,
{
    let sem = Semaphore::new(res_count);
    let id = alloc_slot(&mut p.semaphore_list, sem);
    proof {
        assert forall|i: int| 0 <= i < p.semaphore_list@.len() implies match #[trigger] p.semaphore_list@[i] {
            Some(s) => sem_wf(s@),
            None => true,
        } by {
            if i != id {
                assert(old(p).semaphore_list@[i] == p.semaphore_list@[i]);
            }
        }
    }
    id as isize
}

/// semaphore up syscall, by task `tid`; returns the task to wake. The
/// semaphore must exist and its count must be below `isize::MAX`.
pub fn sys_semaphore_up(p: &mut ProcessSync, tid: usize, sem_id: usize) -> (woken: Option<usize>)
    requires
        old(p).wf(),
        semaphore_at(*old(p), sem_id) is Some,
        semaphore_at(*old(p), sem_id).unwrap()@.count < isize::MAX,
    ensures
        final(p).wf(),
        semaphore_at(*final(p), sem_id) is Some,
        (semaphore_at(*final(p), sem_id).unwrap()@, woken) == up_spec(
            semaphore_at(*old(p), sem_id).unwrap()@,
            tid,
        ),
        final(p).semaphore_list@ == old(p).semaphore_list@.update(
            sem_id as int,
            semaphore_at(*final(p), sem_id),
        ),
        final(p).mutex_list@ == old(p).mutex_list@,
        final(p).condvar_list@ == old(p).condvar_list@,
        final(p).deadlock_detection_enabled == old(p).deadlock_detection_enabled,
{
    let ghost s0 = semaphore_at(*p, sem_id).unwrap();
    assert(sem_wf(s0@));
    match &mut p.semaphore_list[sem_id] {
        Some(s) => s.up(tid),
        None => None,
    }
}

/// semaphore down syscall, by task `tid`; `tasks[t]` tells whether task id
/// `t` is live. Refused for an unknown id, and refused when deadlock
/// detection is on and the wait could deadlock the process; otherwise the
/// task takes a unit or sleeps until it gets one.
pub fn sys_semaphore_down(p: &mut ProcessSync, tasks: &Vec<bool>, tid: usize, sem_id: usize) -> (step:
    LockStep)
    requires
        old(p).wf(),
        semaphore_at(*old(p), sem_id) is Some && !(old(p).deadlock_detection_enabled && deadlocked(
            *old(p),
            tasks@,
            tid,
            Resource::Semaphore(sem_id),
        )) ==> semaphore_at(*old(p), sem_id).unwrap()@.count > isize::MIN,
    ensures
        final(p).wf(),
        semaphore_at(*old(p), sem_id) is None ==> step == LockStep::Done(ERR_INVALID) && *final(p)
            == *old(p),
        semaphore_at(*old(p), sem_id) is Some && old(p).deadlock_detection_enabled && deadlocked(
            *old(p),
            tasks@,
            tid,
            Resource::Semaphore(sem_id),
        ) ==> step == LockStep::Done(ERR_DEADLOCK) && *final(p) == *old(p),
        semaphore_at(*old(p), sem_id) is Some && !(old(p).deadlock_detection_enabled && deadlocked(
            *old(p),
            tasks@,
            tid,
            Resource::Semaphore(sem_id),
        )) ==> {
            let (s1, out) = down_spec(semaphore_at(*old(p), sem_id).unwrap()@, tid);
            &&& semaphore_at(*final(p), sem_id) is Some
            &&& semaphore_at(*final(p), sem_id).unwrap()@ == s1
            &&& step == if out == DownOutcome::Acquired {
                LockStep::Done(0)
            } else {
                LockStep::Block
            }
            &&& final(p).semaphore_list@ == old(p).semaphore_list@.update(
                sem_id as int,
                semaphore_at(*final(p), sem_id),
            )
            &&& final(p).mutex_list@ == old(p).mutex_list@
            &&& final(p).condvar_list@ == old(p).condvar_list@
            &&& final(p).deadlock_detection_enabled == old(p).deadlock_detection_enabled
        },
{
    if sem_id >= p.semaphore_list.len() || p.semaphore_list[sem_id].is_none() {
        return LockStep::Done(ERR_INVALID);
    }
    if check_deadlock(p, tasks, tid, Resource::Semaphore(sem_id)) {
        return LockStep::Done(ERR_DEADLOCK);
    }
    let ghost s0 = semaphore_at(*p, sem_id).unwrap();
    assert(sem_wf(s0@));
    match &mut p.semaphore_list[sem_id] {
        Some(s) => match s.down(tid) {
            DownOutcome::Acquired => LockStep::Done(0),
            DownOutcome::Blocked => LockStep::Block,
        },
        None => LockStep::Done(ERR_INVALID),
    }
}

/// condvar create syscall: a condition variable in the lowest free slot;
/// returns its id.
pub fn sys_condvar_create(p: &mut ProcessSync) -> (id: isize)
    requires
        old(p).wf(),
        old(p).condvar_list@.len() < isize::MAX,
    ensures
        final(p).wf(),
        is_first_free(old(p).condvar_list@, id as int),
        final(p).condvar_list@.len() == if id < old(p).condvar_list@.len() {
            old(p).condvar_list@.len()
        } else {
            old(p).condvar_list@.len() + 1
        },
        forall|j: int|
            0 <= j < old(p).condvar_list@.len() && j != id ==> #[trigger] final(p).condvar_list@[j]
                == old(p).condvar_list@[j],
        condvar_at(*final(p), id as usize) is Some,
        condvar_at(*final(p), id as usize).unwrap()@ == Seq::<usize>::empty(),
        final(p).mutex_list@ == old(p).mutex_list@,
        final(p).semaphore_list@ == old(p).semaphore_list@,
        final(p).deadlock_detection_enabled == old(p).deadlock_detection_enabled,
{
    let cv = Condvar::new();
    let id = alloc_slot(&mut p.condvar_list, cv);
    id as isize
}

/// condvar signal syscall; returns the task to wake. The condition
/// variable must exist.
pub fn sys_condvar_signal(p: &mut ProcessSync, condvar_id: usize) -> (woken: Option<usize>)
    requires
        old(p).wf(),
        condvar_at(*old(p), condvar_id) is Some,
    ensures
        final(p).wf(),
        ({
            let q0 = condvar_at(*old(p), condvar_id).unwrap()@;
            let c1 = condvar_at(*final(p), condvar_id);
            &&& c1 is Some
            &&& q0.len() == 0 ==> woken is None && c1.unwrap()@ == q0
            &&& q0.len() > 0 ==> woken == Some(q0[0]) && c1.unwrap()@ == q0.drop_first()
        }),
        final(p).condvar_list@ == old(p).condvar_list@.update(
            condvar_id as int,
            condvar_at(*final(p), condvar_id),
        ),
        final(p).mutex_list@ == old(p).mutex_list@,
        final(p).semaphore_list@ == old(p).semaphore_list@,
        final(p).deadlock_detection_enabled == old(p).deadlock_detection_enabled,
{
    match &mut p.condvar_list[condvar_id] {
        Some(c) => c.signal(),
        None => None,
    }
}

/// condvar wait syscall, by task `tid`: releases mutex `mutex_id` (returning
/// the task the release wakes) and queues `tid` on the condition variable.
/// The task then sleeps; once signalled it takes the mutex again with
/// `mutex_lock_step`. Both objects must exist and the mutex must be
/// unlockable.
pub fn sys_condvar_wait(p: &mut ProcessSync, tid: usize, condvar_id: usize, mutex_id: usize) -> (woken:
    Option<usize>)
    requires
        old(p).wf(),
        condvar_at(*old(p), condvar_id) is Some,
        mutex_at(*old(p), mutex_id) is Some,
        mutex_at(*old(p), mutex_id).unwrap().can_unlock(),
    ensures
        final(p).wf(),
        condvar_at(*final(p), condvar_id) is Some,
        condvar_at(*final(p), condvar_id).unwrap()@ == condvar_at(*old(p), condvar_id).unwrap()@.push(tid),
        final(p).condvar_list@ == old(p).condvar_list@.update(
            condvar_id as int,
            condvar_at(*final(p), condvar_id),
        ),
        mutex_at(*final(p), mutex_id) is Some,
        unlocked(mutex_at(*old(p), mutex_id).unwrap(), mutex_at(*final(p), mutex_id).unwrap(), woken),
        final(p).mutex_list@ == old(p).mutex_list@.update(mutex_id as int, mutex_at(*final(p), mutex_id)),
        final(p).semaphore_list@ == old(p).semaphore_list@,
        final(p).deadlock_detection_enabled == old(p).deadlock_detection_enabled,
{
    let woken = sys_mutex_unlock(p, mutex_id);
    match &mut p.condvar_list[condvar_id] {
        Some(c) => c.wait(tid),
        None => {},
    }
    woken
}

/// enable deadlock detection syscall: on for any non-zero `enabled`.
pub fn sys_enable_deadlock_detect(p: &mut ProcessSync, enabled: usize) -> (r: isize)
    ensures
        r == 0,
        final(p).deadlock_detection_enabled == (enabled != 0),
        final(p).mutex_list@ == old(p).mutex_list@,
        final(p).semaphore_list@ == old(p).semaphore_list@,
        final(p).condvar_list@ == old(p).condvar_list@,
{
    p.deadlock_detection_enabled = enabled != 0;
    0
}

/// Taking a free mutex and then releasing it leaves it free, with the
/// same (empty) queue, and wakes nobody.
pub proof fn lemma_lock_unlock_round_trip(
    m0: AnyMutex,
    m1: AnyMutex,
    m2: AnyMutex,
    tid: usize,
    step: LockStep,
    woken: Option<usize>,
)
    requires
        m0.inv(),
        m0.owner_of() is None,
        lock_attempt(m0, m1, tid, step),
        unlocked(m1, m2, woken),
    ensures
        step == LockStep::Done(0),
        m2.owner_of() is None,
        m2.waiters_of() == m0.waiters_of(),
        woken is None,
{
    crate::sync::mutex::lemma_free_mutex_no_waiters(m0);
}

/// A task queued on a taken blocking mutex becomes its owner once everybody
/// queued before it has been served: an unlock hands the mutex straight to
/// the first waiter, so the mutex is never free while someone waits.
pub proof fn lemma_unlock_hands_over(m1: AnyMutex, m2: AnyMutex, woken: Option<usize>)
    requires
        unlocked(m1, m2, woken),
        m1.waiters_of().len() > 0,
    ensures
        m2.owner_of() == Some(m1.waiters_of()[0]),
        woken == m2.owner_of(),
        m2.waiters_of() == m1.waiters_of().drop_first(),
{
}

} // verus!
