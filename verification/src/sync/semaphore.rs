//! Counting semaphore that records which tasks hold a unit of it.
//!
//! Tasks are named by their task id. The semaphore keeps the tasks that wait
//! for a unit in FIFO order, and the ids of the tasks that hold one (a task
//! may hold several units, so an id can occur more than once).
use std::collections::VecDeque;
use vstd::prelude::*;

verus! {

/// Abstract state of a semaphore.
pub struct SemState {
    pub count: int,
    pub waiters: Seq<usize>,
    pub holders: Seq<usize>,
}

/// What `down` asks of the scheduler.
#[derive(PartialEq, Eq, Structural, Clone, Copy, Debug)]
pub enum DownOutcome {
    /// The caller got a unit and goes on.
    Acquired,
    /// The caller was queued and must block until an `up` wakes it.
    Blocked,
}

/// Mutable state of a semaphore.
pub struct SemaphoreInner {
    pub count: isize,
    pub wait_queue: VecDeque<usize>,
    pub holders: Vec<usize>,
}

/// Counting semaphore.
pub struct Semaphore {
    /// semaphore inner
    pub inner: SemaphoreInner,
}

impl View for Semaphore {
    type V = SemState;

    open spec fn view(&self) -> SemState {
        SemState {
            count: self.inner.count as int,
            waiters: self.inner.wait_queue@,
            holders: self.inner.holders@,
        }
    }
}

/// Never more waiters than the count is below zero.
pub open spec fn sem_wf(s: SemState) -> bool {
    s.waiters.len() <= if s.count < 0 { -s.count } else { 0 }
}

/// Exactly as many waiters as the count is below zero: the state of every
/// semaphore created with a count that fits in `isize`.
pub open spec fn sem_balanced(s: SemState) -> bool {
    s.waiters.len() == if s.count < 0 { -s.count } else { 0 }
}

/// State after `up` by task `tid`, and the task it wakes.
///
/// The count goes up by one and one unit held by `tid` (its first occurrence
/// in the holders) is released. If the count is still not positive, the
/// first waiter is woken and becomes a holder.
pub open spec fn up_spec(s: SemState, tid: usize) -> (SemState, Option<usize>) {
    let count = s.count + 1;
    let holders = s.holders.remove_value(tid);
    if count <= 0 && s.waiters.len() > 0 {
        (
            SemState { count, waiters: s.waiters.drop_first(), holders: holders.push(s.waiters[0]) },
            Some(s.waiters[0]),
        )
    } else {
        (SemState { count, waiters: s.waiters, holders }, None)
    }
}

/// State after `down` by task `tid`, and whether `tid` must block.
///
/// The count goes down by one; if it becomes negative `tid` joins the back
/// of the wait queue, otherwise it becomes a holder.
pub open spec fn down_spec(s: SemState, tid: usize) -> (SemState, DownOutcome) {
    let count = s.count - 1;
    if count < 0 {
        (SemState { count, waiters: s.waiters.push(tid), holders: s.holders }, DownOutcome::Blocked)
    } else {
        (SemState { count, waiters: s.waiters, holders: s.holders.push(tid) }, DownOutcome::Acquired)
    }
}

/// Position of the first occurrence of `x` in `v`.
fn position_of(v: &Vec<usize>, x: usize) -> (r: Option<usize>)
    ensures
        r == (match v@.index_of_first(x) {
            Some(i) => Some(i as usize),
            None => None::<usize>,
        }),
{
    proof {
        v@.index_of_first_ensures(x);
    }
    let mut i: usize = 0;
    while i < v.len()
        invariant
            i <= v.len(),
            forall|j: int| 0 <= j < i ==> v@[j] != x,
        decreases v.len() - i,
    {
        if v[i] == x {
            proof {
                v@.index_of_first_ensures(x);
                let k = v@.index_of_first(x).unwrap();
                assert(k == i as int) by {
                    if k < i {
                        assert(v@[k] != x);
                    }
                }
            }
            return Some(i);
        }
        i = i + 1;
    }
    proof {
        v@.index_of_first_ensures(x);
        if v@.index_of_first(x) is Some {
            let k = v@.index_of_first(x).unwrap();
            assert(v@[k] == x);
        }
    }
    None
}

impl Semaphore {
    /// Create a new semaphore with `res_count` units.
    pub fn new(res_count: usize) -> (s: Self)
        ensures
            s@.count == res_count as isize,
            s@.waiters == Seq::<usize>::empty(),
            s@.holders == Seq::<usize>::empty(),
            sem_wf(s@),
            res_count <= isize::MAX ==> sem_balanced(s@),
    {
        Semaphore {
            inner: SemaphoreInner {
                count: res_count as isize,
                wait_queue: VecDeque::new(),
                holders: Vec::new(),
            },
        }
    }

    /// up operation of semaphore, by task `tid`; returns the task to wake.
    pub fn up(&mut self, tid: usize) -> (woken: Option<usize>)
        requires
            sem_wf(old(self)@),
            old(self)@.count < isize::MAX,
        ensures
            (final(self)@, woken) == up_spec(old(self)@, tid),
            sem_wf(final(self)@),
            sem_balanced(old(self)@) ==> sem_balanced(final(self)@),
    {
        let ghost s0 = self@;
        self.inner.count = self.inner.count + 1;
        proof {
            s0.holders.index_of_first_ensures(tid);
        }
        if let Some(pos) = position_of(&self.inner.holders, tid) {
            self.inner.holders.remove(pos);
        }
        assert(self.inner.holders@ == s0.holders.remove_value(tid));
        if self.inner.count <= 0 {
            if let Some(task) = self.inner.wait_queue.pop_front() {
                self.inner.holders.push(task);
                return Some(task);
            }
        }
        None
    }

    /// down operation of semaphore, by task `tid`.
    pub fn down(&mut self, tid: usize) -> (out: DownOutcome)
        requires
            sem_wf(old(self)@),
            old(self)@.count > isize::MIN,
        ensures
            (final(self)@, out) == down_spec(old(self)@, tid),
            sem_wf(final(self)@),
            sem_balanced(old(self)@) ==> sem_balanced(final(self)@),
    {
        self.inner.count = self.inner.count - 1;
        if self.inner.count < 0 {
            self.inner.wait_queue.push_back(tid);
            DownOutcome::Blocked
        } else {
            self.inner.holders.push(tid);
            DownOutcome::Acquired
        }
    }

    /// Get holders
    pub fn get_holders(&self) -> (r: Vec<usize>)
        ensures
            r@ == self@.holders,
    {
        let mut r: Vec<usize> = Vec::new();
        let mut i: usize = 0;
        while i < self.inner.holders.len()
            invariant
                i <= self.inner.holders.len(),
                r@ == self.inner.holders@.take(i as int),
            decreases self.inner.holders.len() - i,
        {
            r.push(self.inner.holders[i]);
            i = i + 1;
            assert(r@ =~= self.inner.holders@.take(i as int));
        }
        assert(r@ =~= self.inner.holders@);
        r
    }

    /// Get waiting tasks, in the order they will be woken.
    pub fn get_waiting_tasks(&self) -> (r: Vec<usize>)
        ensures
            r@ == self@.waiters,
    {
        let mut r: Vec<usize> = Vec::new();
        let mut i: usize = 0;
        while i < self.inner.wait_queue.len()
            invariant
                i <= self.inner.wait_queue@.len(),
                r@ == self.inner.wait_queue@.take(i as int),
            decreases self.inner.wait_queue@.len() - i,
        {
            r.push(self.inner.wait_queue[i]);
            i = i + 1;
            assert(r@ =~= self.inner.wait_queue@.take(i as int));
        }
        assert(r@ =~= self.inner.wait_queue@);
        r
    }
}

/// A `down` that got a unit, followed by an `up` by the same task, leaves the
/// count, the waiters and the multiset of holders as they were, and wakes
/// nobody.
pub proof fn lemma_down_up_round_trip(s: SemState, tid: usize)
    requires
        sem_wf(s),
        down_spec(s, tid).1 == DownOutcome::Acquired,
    ensures
        ({
            let (mid, _) = down_spec(s, tid);
            let (end, woken) = up_spec(mid, tid);
            &&& end.count == s.count
            &&& end.waiters == s.waiters
            &&& end.holders.to_multiset() == s.holders.to_multiset()
            &&& woken is None
        }),
{
    let mid = down_spec(s, tid).0;
    let h = s.holders.push(tid);
    assert(mid.holders == h);
    h.index_of_first_ensures(tid);
    assert(h[h.len() - 1] == tid);
    let i = h.index_of_first(tid).unwrap();
    h.to_multiset_ensures();
    s.holders.to_multiset_ensures();
    assert(h.remove_value(tid) == h.remove(i));
    assert(h.remove(i).to_multiset() =~= h.to_multiset().remove(tid));
    assert(h.to_multiset() =~= s.holders.to_multiset().insert(tid));
    assert(s.holders.to_multiset().insert(tid).remove(tid) =~= s.holders.to_multiset());
}

/// What an `up` by `tid` does, whoever calls it: it adds exactly one unit;
/// it gives back one unit held by `tid` (nothing if `tid` holds none) and
/// never a unit held by another task; the task it wakes, if any, is the
/// first waiter, which leaves the queue and becomes a holder.
pub proof fn lemma_up_effect(s: SemState, tid: usize)
    ensures
        ({
            let (e, woken) = up_spec(s, tid);
            let before = s.holders.to_multiset();
            let after = e.holders.to_multiset();
            &&& e.count == s.count + 1
            &&& after == match woken {
                Some(w) => before.remove(tid).insert(w),
                None => before.remove(tid),
            }
            &&& forall|t: usize| t != tid ==> #[trigger] after.count(t) >= before.count(t)
            &&& !s.holders.contains(tid) ==> e.holders == match woken {
                Some(w) => s.holders.push(w),
                None => s.holders,
            }
            &&& woken is Some ==> s.waiters.len() > 0 && woken == Some(s.waiters[0]) && e.waiters
                == s.waiters.drop_first()
            &&& woken is None ==> e.waiters == s.waiters
        }),
{
    broadcast use vstd::multiset::group_multiset_axioms;

    let h = s.holders;
    h.index_of_first_ensures(tid);
    h.to_multiset_ensures();
    let h1 = h.remove_value(tid);
    if h.contains(tid) {
        let i = h.index_of_first(tid).unwrap();
        assert(h1 == h.remove(i));
        assert(h1.to_multiset() =~= h.to_multiset().remove(tid));
    } else {
        assert(h1 == h);
        assert(h.to_multiset().count(tid) == 0);
        assert(h.to_multiset().remove(tid) =~= h.to_multiset());
    }
    h1.to_multiset_ensures();
}

/// `up` wakes the waiters in the order in which `down` queued them: after a
/// `down` that blocks, the blocked task is the last one an `up` will wake.
pub proof fn lemma_waiters_fifo(s: SemState, tid: usize)
    requires
        sem_wf(s),
        down_spec(s, tid).1 == DownOutcome::Blocked,
    ensures
        down_spec(s, tid).0.waiters == s.waiters.push(tid),
        s.waiters.len() > 0 ==> up_spec(down_spec(s, tid).0, tid).1 == Some(s.waiters[0]),
{
}

} // verus!
