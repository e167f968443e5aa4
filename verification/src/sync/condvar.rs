//! Condition variable: a FIFO queue of the tasks that wait on it.
use std::collections::VecDeque;
use vstd::prelude::*;

verus! {

/// Condition variable.
pub struct Condvar {
    wait_queue: VecDeque<usize>,
}

impl View for Condvar {
    type V = Seq<usize>;

    closed spec fn view(&self) -> Seq<usize> {
        self.wait_queue@
    }
}

impl Condvar {
    /// A condition variable nobody waits on.
    pub fn new() -> (c: Self)
        ensures
            c@ == Seq::<usize>::empty(),
    {
        Condvar { wait_queue: VecDeque::new() }
    }

    /// Wake the task that has waited longest, if any.
    pub fn signal(&mut self) -> (woken: Option<usize>)
        ensures
            old(self)@.len() == 0 ==> woken is None && final(self)@ == old(self)@,
            old(self)@.len() > 0 ==> woken == Some(old(self)@[0])
                && final(self)@ == old(self)@.drop_first(),
    {
        self.wait_queue.pop_front()
    }

    /// Queue task `tid`, which then sleeps until signalled.
    pub fn wait(&mut self, tid: usize)
        ensures
            final(self)@ == old(self)@.push(tid),
    {
        self.wait_queue.push_back(tid);
    }
}

} // verus!
