//! Deadlock detection for the mutexes and semaphores of a process.
//!
//! Before a task blocks on a mutex or a semaphore, the kernel asks whether
//! granting the request could leave some tasks waiting for ever. Each mutex
//! slot and semaphore slot is a resource; a free mutex offers one unit, a
//! semaphore offers its positive count. A task holds the mutexes it owns and
//! one unit of a semaphore for each time it is listed among its holders. A
//! task needs at most one resource: the one it asks for now (the calling
//! task), else the one it waits on.
//!
//! The request is refused when there is a non-empty set of tasks none of
//! which could go on even if every other task ran to completion and gave
//! back all it holds.
use crate::sync::mutex::Mutex;
use crate::syscall::sync::ProcessSync;
use vstd::prelude::*;

verus! {

/// A mutex or a semaphore of the process, by its id.
#[derive(Clone, Copy, PartialEq, Eq, Structural, Debug)]
pub enum Resource {
    Mutex(usize),
    Semaphore(usize),
}

/// `t` is the id of a live task of the process.
pub open spec fn present(tasks: Seq<bool>, t: int) -> bool {
    0 <= t < tasks.len() && tasks[t]
}

/// Units of `r` that nobody holds.
pub open spec fn available(p: ProcessSync, r: Resource) -> nat {
    match r {
        Resource::Mutex(i) => if i < p.mutex_list@.len() {
            match p.mutex_list@[i as int] {
                Some(m) => if m.owner_of() is None { 1nat } else { 0nat },
                None => 0nat,
            }
        } else {
            0nat
        },
        Resource::Semaphore(i) => if i < p.semaphore_list@.len() {
            match p.semaphore_list@[i as int] {
                Some(s) => if s@.count > 0 { s@.count as nat } else { 0nat },
                None => 0nat,
            }
        } else {
            0nat
        },
    }
}

/// Units of `r` that task `t` holds.
pub open spec fn held(p: ProcessSync, t: usize, r: Resource) -> nat {
    match r {
        Resource::Mutex(i) => if i < p.mutex_list@.len() {
            match p.mutex_list@[i as int] {
                Some(m) => if m.owner_of() == Some(t) { 1nat } else { 0nat },
                None => 0nat,
            }
        } else {
            0nat
        },
        Resource::Semaphore(i) => if i < p.semaphore_list@.len() {
            match p.semaphore_list@[i as int] {
                Some(s) => s@.holders.to_multiset().count(t),
                None => 0nat,
            }
        } else {
            0nat
        },
    }
}

/// Units of `r` held by the live tasks below `n` that are in `done`.
pub open spec fn released(p: ProcessSync, tasks: Seq<bool>, done: Set<usize>, r: Resource, n: int) -> nat
    decreases n,
{
    if n <= 0 {
        0
    } else {
        released(p, tasks, done, r, n - 1) + if present(tasks, n - 1) && done.contains((n - 1) as usize) {
            held(p, (n - 1) as usize, r)
        } else {
            0nat
        }
    }
}

/// Units of `r` there would be once every live task in `done` has finished.
pub open spec fn work(p: ProcessSync, tasks: Seq<bool>, done: Set<usize>, r: Resource) -> nat {
    available(p, r) + released(p, tasks, done, r, tasks.len() as int)
}

/// The mutex with the highest id below `n` on which `t` waits.
pub open spec fn mutex_need(p: ProcessSync, t: usize, n: int) -> Option<Resource>
    decreases n,
{
    if n <= 0 {
        None
    } else {
        match p.mutex_list@[n - 1] {
            Some(m) if m.waiters_of().contains(t) => Some(Resource::Mutex((n - 1) as usize)),
            _ => mutex_need(p, t, n - 1),
        }
    }
}

/// The semaphore with the highest id below `n` on which `t` waits.
pub open spec fn sem_need(p: ProcessSync, t: usize, n: int) -> Option<Resource>
    decreases n,
{
    if n <= 0 {
        None
    } else {
        match p.semaphore_list@[n - 1] {
            Some(s) if s@.waiters.contains(t) => Some(Resource::Semaphore((n - 1) as usize)),
            _ => sem_need(p, t, n - 1),
        }
    }
}

/// The resource task `t` needs: the request for the calling task, else a
/// semaphore it waits on (the one with the highest id), else a mutex it
/// waits on (the one with the highest id).
pub open spec fn need(p: ProcessSync, current: usize, request: Resource, t: usize) -> Option<Resource> {
    if t == current {
        Some(request)
    } else {
        match sem_need(p, t, p.semaphore_list@.len() as int) {
            Some(r) => Some(r),
            None => mutex_need(p, t, p.mutex_list@.len() as int),
        }
    }
}

/// Task `t` could go on once the tasks in `done` have finished.
pub open spec fn can_proceed(
    p: ProcessSync,
    tasks: Seq<bool>,
    current: usize,
    request: Resource,
    done: Set<usize>,
    t: usize,
) -> bool {
    match need(p, current, request, t) {
        None => true,
        Some(r) => work(p, tasks, done, r) >= 1,
    }
}

/// The live tasks outside `u`.
pub open spec fn others(tasks: Seq<bool>, u: Set<usize>) -> Set<usize> {
    Set::new(|t: usize| present(tasks, t as int) && !u.contains(t))
}

/// `u` is a non-empty set of live tasks none of which could go on even if
/// all other live tasks finished.
pub open spec fn stuck_set(
    p: ProcessSync,
    tasks: Seq<bool>,
    current: usize,
    request: Resource,
    u: Set<usize>,
) -> bool {
    &&& exists|t: usize| u.contains(t)
    &&& forall|t: usize|
        #[trigger] u.contains(t) ==> present(tasks, t as int) && !can_proceed(
            p,
            tasks,
            current,
            request,
            others(tasks, u),
            t,
        )
}

/// Granting `request` to `current` could deadlock some tasks.
pub open spec fn deadlocked(p: ProcessSync, tasks: Seq<bool>, current: usize, request: Resource) -> bool {
    exists|u: Set<usize>| stuck_set(p, tasks, current, request, u)
}

/// `x` capped at `usize::MAX`.
pub open spec fn capped(x: nat) -> nat {
    if x > usize::MAX { usize::MAX as nat } else { x }
}

proof fn lemma_released_mono(p: ProcessSync, tasks: Seq<bool>, a: Set<usize>, b: Set<usize>, r: Resource, n: int)
    requires
        forall|t: usize| present(tasks, t as int) && #[trigger] a.contains(t) ==> b.contains(t),
        n <= tasks.len() <= usize::MAX,
    ensures
        released(p, tasks, a, r, n) <= released(p, tasks, b, r, n),
    decreases n,
{
    if n > 0 {
        lemma_released_mono(p, tasks, a, b, r, n - 1);
        if present(tasks, n - 1) && a.contains((n - 1) as usize) {
            assert(b.contains((n - 1) as usize));
        }
    }
}

proof fn lemma_released_insert(p: ProcessSync, tasks: Seq<bool>, a: Set<usize>, t: usize, r: Resource, n: int)
    requires
        !a.contains(t),
        present(tasks, t as int),
        n <= tasks.len() <= usize::MAX,
    ensures
        released(p, tasks, a.insert(t), r, n) == released(p, tasks, a, r, n) + if t < n {
            held(p, t, r)
        } else {
            0nat
        },
    decreases n,
{
    if n > 0 {
        lemma_released_insert(p, tasks, a, t, r, n - 1);
        let k = (n - 1) as usize;
        assert(a.insert(t).contains(k) == (a.contains(k) || k == t));
    }
}

proof fn lemma_released_empty(p: ProcessSync, tasks: Seq<bool>, r: Resource, n: int)
    ensures
        released(p, tasks, Set::empty(), r, n) == 0,
    decreases n,
{
    if n > 0 {
        lemma_released_empty(p, tasks, r, n - 1);
    }
}

proof fn lemma_released_none_held(p: ProcessSync, tasks: Seq<bool>, a: Set<usize>, r: Resource, n: int)
    requires
        forall|t: usize| present(tasks, t as int) && #[trigger] a.contains(t) ==> held(p, t, r) == 0,
        n <= tasks.len() <= usize::MAX,
    ensures
        released(p, tasks, a, r, n) == 0,
    decreases n,
{
    if n > 0 {
        lemma_released_none_held(p, tasks, a, r, n - 1);
        let k = (n - 1) as usize;
        if present(tasks, n - 1) && a.contains(k) {
            assert(held(p, k, r) == 0);
        }
    }
}

proof fn lemma_released_at_least_held(
    p: ProcessSync,
    tasks: Seq<bool>,
    a: Set<usize>,
    o: usize,
    r: Resource,
    n: int,
)
    requires
        present(tasks, o as int),
        a.contains(o),
        o < n <= tasks.len() <= usize::MAX,
    ensures
        released(p, tasks, a, r, n) >= held(p, o, r),
    decreases n,
{
    if o < n - 1 {
        lemma_released_at_least_held(p, tasks, a, o, r, n - 1);
    }
}

proof fn lemma_no_waiters_no_need(p: ProcessSync, t: usize)
    requires
        forall|i: int|
            0 <= i < p.mutex_list@.len() && #[trigger] p.mutex_list@[i] is Some
                ==> p.mutex_list@[i].unwrap().waiters_of().len() == 0,
        forall|i: int|
            0 <= i < p.semaphore_list@.len() && #[trigger] p.semaphore_list@[i] is Some
                ==> p.semaphore_list@[i].unwrap()@.waiters.len() == 0,
    ensures
        mutex_need(p, t, p.mutex_list@.len() as int) is None,
        sem_need(p, t, p.semaphore_list@.len() as int) is None,
{
    lemma_no_mutex_need(p, t, p.mutex_list@.len() as int);
    lemma_no_sem_need(p, t, p.semaphore_list@.len() as int);
}

proof fn lemma_no_mutex_need(p: ProcessSync, t: usize, n: int)
    requires
        n <= p.mutex_list@.len(),
        forall|i: int|
            0 <= i < p.mutex_list@.len() && #[trigger] p.mutex_list@[i] is Some
                ==> p.mutex_list@[i].unwrap().waiters_of().len() == 0,
    ensures
        mutex_need(p, t, n) is None,
    decreases n,
{
    if n > 0 {
        lemma_no_mutex_need(p, t, n - 1);
        if p.mutex_list@[n - 1] is Some {
            assert(!p.mutex_list@[n - 1].unwrap().waiters_of().contains(t));
        }
    }
}

proof fn lemma_no_sem_need(p: ProcessSync, t: usize, n: int)
    requires
        n <= p.semaphore_list@.len(),
        forall|i: int|
            0 <= i < p.semaphore_list@.len() && #[trigger] p.semaphore_list@[i] is Some
                ==> p.semaphore_list@[i].unwrap()@.waiters.len() == 0,
    ensures
        sem_need(p, t, n) is None,
    decreases n,
{
    if n > 0 {
        lemma_no_sem_need(p, t, n - 1);
        if p.semaphore_list@[n - 1] is Some {
            assert(!p.semaphore_list@[n - 1].unwrap()@.waiters.contains(t));
        }
    }
}

/// A task that owns a mutex holds one unit of it, whatever the kind of the
/// mutex, and no other task holds any.
pub proof fn lemma_owner_holds_mutex(p: ProcessSync, i: usize, t: usize)
    requires
        i < p.mutex_list@.len(),
        p.mutex_list@[i as int] is Some,
    ensures
        held(p, t, Resource::Mutex(i)) == if p.mutex_list@[i as int].unwrap().owner_of() == Some(t) {
            1nat
        } else {
            0nat
        },
        available(p, Resource::Mutex(i)) + (if p.mutex_list@[i as int].unwrap().owner_of() is Some {
            1nat
        } else {
            0nat
        }) == 1,
{
}

/// When nobody waits on any mutex or semaphore and the requested mutex is
/// owned by another live task, that owner can finish and give the mutex
/// back, so the request could deadlock nothing, whatever the kind of the
/// mutex.
pub proof fn lemma_owner_can_release(
    p: ProcessSync,
    tasks: Seq<bool>,
    current: usize,
    i: usize,
    o: usize,
)
    requires
        tasks.len() <= usize::MAX,
        i < p.mutex_list@.len(),
        p.mutex_list@[i as int] is Some,
        p.mutex_list@[i as int].unwrap().owner_of() == Some(o),
        present(tasks, o as int),
        o != current,
        forall|j: int|
            0 <= j < p.mutex_list@.len() && #[trigger] p.mutex_list@[j] is Some
                ==> p.mutex_list@[j].unwrap().waiters_of().len() == 0,
        forall|j: int|
            0 <= j < p.semaphore_list@.len() && #[trigger] p.semaphore_list@[j] is Some
                ==> p.semaphore_list@[j].unwrap()@.waiters.len() == 0,
    ensures
        !deadlocked(p, tasks, current, Resource::Mutex(i)),
{
    let r = Resource::Mutex(i);
    assert forall|u: Set<usize>| !stuck_set(p, tasks, current, r, u) by {
        if stuck_set(p, tasks, current, r, u) {
            let t = choose|t: usize| u.contains(t);
            if u.contains(o) {
                lemma_no_waiters_no_need(p, o);
                assert(!can_proceed(p, tasks, current, r, others(tasks, u), o));
            }
            if t != current {
                lemma_no_waiters_no_need(p, t);
                assert(!can_proceed(p, tasks, current, r, others(tasks, u), t));
            }
            assert(others(tasks, u).contains(o));
            lemma_released_at_least_held(p, tasks, others(tasks, u), o, r, tasks.len() as int);
            assert(can_proceed(p, tasks, current, r, others(tasks, u), current));
        }
    }
}

/// The calling task needs what it asks for: when the requested resource has
/// no free unit and no live task but the caller holds a unit of it, the
/// caller alone is stuck. Here for a semaphore with no units left whose
/// other live tasks hold none.
pub proof fn lemma_sem_held_only_by_caller_deadlocked(
    p: ProcessSync,
    tasks: Seq<bool>,
    current: usize,
    i: usize,
)
    requires
        tasks.len() <= usize::MAX,
        present(tasks, current as int),
        i < p.semaphore_list@.len(),
        p.semaphore_list@[i as int] is Some,
        p.semaphore_list@[i as int].unwrap()@.count <= 0,
        forall|t: usize|
            present(tasks, t as int) && t != current ==> !#[trigger] p.semaphore_list@[i as int].unwrap()@.holders.contains(t),
    ensures
        deadlocked(p, tasks, current, Resource::Semaphore(i)),
{
    let h = p.semaphore_list@[i as int].unwrap()@.holders;
    h.to_multiset_ensures();
    lemma_caller_alone_stuck(p, tasks, current, Resource::Semaphore(i));
}

/// The calling task needs what it asks for: a request for a mutex owned by
/// the caller itself, or by a task that is no longer live, is deadlocked,
/// whatever the kind of the mutex.
pub proof fn lemma_mutex_held_only_by_caller_deadlocked(
    p: ProcessSync,
    tasks: Seq<bool>,
    current: usize,
    i: usize,
    o: usize,
)
    requires
        tasks.len() <= usize::MAX,
        present(tasks, current as int),
        i < p.mutex_list@.len(),
        p.mutex_list@[i as int] is Some,
        p.mutex_list@[i as int].unwrap().owner_of() == Some(o),
        o == current || !present(tasks, o as int),
    ensures
        deadlocked(p, tasks, current, Resource::Mutex(i)),
{
    lemma_caller_alone_stuck(p, tasks, current, Resource::Mutex(i));
}

proof fn lemma_caller_alone_stuck(p: ProcessSync, tasks: Seq<bool>, current: usize, r: Resource)
    requires
        tasks.len() <= usize::MAX,
        present(tasks, current as int),
        available(p, r) == 0,
        forall|t: usize| present(tasks, t as int) && t != current ==> #[trigger] held(p, t, r) == 0,
    ensures
        deadlocked(p, tasks, current, r),
{
    let u = Set::<usize>::empty().insert(current);
    let o = others(tasks, u);
    lemma_released_none_held(p, tasks, o, r, tasks.len() as int);
    assert(need(p, current, r, current) == Some(r));
    assert(!can_proceed(p, tasks, current, r, o, current));
    assert(u.contains(current));
    assert(stuck_set(p, tasks, current, r, u));
}

proof fn lemma_take_succ_contains(s: Seq<usize>, j: int)
    requires
        0 <= j < s.len(),
    ensures
        forall|x: usize| #[trigger] s.take(j + 1).contains(x) == (s.take(j).contains(x) || x == s[j]),
{
    let a = s.take(j);
    let b = s.take(j + 1);
    assert(b =~= a.push(s[j]));
    assert forall|x: usize| #[trigger] b.contains(x) == (a.contains(x) || x == s[j]) by {
        if a.contains(x) {
            let q = choose|q: int| 0 <= q < a.len() && a[q] == x;
            assert(b[q] == x);
        }
        if x == s[j] {
            assert(b[j] == x);
        }
        if b.contains(x) && x != s[j] {
            let q = choose|q: int| 0 <= q < b.len() && b[q] == x;
            assert(a[q] == x);
        }
    }
}

/// What each live task needs, indexed by task id.
fn collect_need(p: &ProcessSync, tasks: &Vec<bool>, current: usize, request: Resource) -> (nd: Vec<
    Option<Resource>,
>)
    ensures
        nd@.len() == tasks@.len(),
        forall|t: int| present(tasks@, t) ==> #[trigger] nd@[t] == need(*p, current, request, t as usize),
{
    let n = tasks.len();
    let mut nd: Vec<Option<Resource>> = Vec::new();
    let mut k: usize = 0;
    while k < n
        invariant
            k <= n == tasks@.len(),
            nd@.len() == k,
            forall|t: int| 0 <= t < k ==> nd@[t] is None,
        decreases n - k,
    {
        nd.push(None);
        k = k + 1;
    }
    // Waiting on mutexes, in increasing id order.
    let mut i: usize = 0;
    while i < p.mutex_list.len()
        invariant
            i <= p.mutex_list@.len(),
            n == tasks@.len() == nd@.len(),
            forall|t: int| present(tasks@, t) ==> #[trigger] nd@[t] == mutex_need(*p, t as usize, i as int),
        decreases p.mutex_list@.len() - i,
    {
        match &p.mutex_list[i] {
            Some(m) => {
                let waiting = m.get_waiting_tasks();
                let mut j: usize = 0;
                while j < waiting.len()
                    invariant
                        j <= waiting@.len(),
                        waiting@ == m.waiters_of(),
                        n == tasks@.len() == nd@.len(),
                        forall|t: int|
                            present(tasks@, t) ==> #[trigger] nd@[t] == if waiting@.take(j as int).contains(
                                t as usize,
                            ) {
                                Some(Resource::Mutex(i))
                            } else {
                                mutex_need(*p, t as usize, i as int)
                            },
                    decreases waiting@.len() - j,
                {
                    let w = waiting[j];
                    proof {
                        lemma_take_succ_contains(waiting@, j as int);
                    }
                    if w < n && tasks[w] {
                        nd.set(w, Some(Resource::Mutex(i)));
                    }
                    j = j + 1;
                }
                assert(waiting@.take(waiting@.len() as int) =~= waiting@);
            },
            None => {},
        }
        i = i + 1;
    }
    // Waiting on semaphores, in increasing id order: these come last and win.
    let ghost ml = p.mutex_list@.len() as int;
    let mut i: usize = 0;
    while i < p.semaphore_list.len()
        invariant
            i <= p.semaphore_list@.len(),
            ml == p.mutex_list@.len(),
            n == tasks@.len() == nd@.len(),
            forall|t: int|
                present(tasks@, t) ==> #[trigger] nd@[t] == match sem_need(*p, t as usize, i as int) {
                    Some(r) => Some(r),
                    None => mutex_need(*p, t as usize, ml),
                },
        decreases p.semaphore_list@.len() - i,
    {
        match &p.semaphore_list[i] {
            Some(s) => {
                let waiting = s.get_waiting_tasks();
                let mut j: usize = 0;
                while j < waiting.len()
                    invariant
                        j <= waiting@.len(),
                        waiting@ == s@.waiters,
                        n == tasks@.len() == nd@.len(),
                        forall|t: int|
                            present(tasks@, t) ==> #[trigger] nd@[t] == if waiting@.take(j as int).contains(
                                t as usize,
                            ) {
                                Some(Resource::Semaphore(i))
                            } else {
                                match sem_need(*p, t as usize, i as int) {
                                    Some(r) => Some(r),
                                    None => mutex_need(*p, t as usize, ml),
                                }
                            },
                    decreases waiting@.len() - j,
                {
                    let w = waiting[j];
                    proof {
                        lemma_take_succ_contains(waiting@, j as int);
                    }
                    if w < n && tasks[w] {
                        nd.set(w, Some(Resource::Semaphore(i)));
                    }
                    j = j + 1;
                }
                assert(waiting@.take(waiting@.len() as int) =~= waiting@);
            },
            None => {},
        }
        i = i + 1;
    }
    // The calling task needs what it asks for.
    if current < n && tasks[current] {
        nd.set(current, Some(request));
    }
    nd
}

/// The work vectors `mw` (mutexes) and `sw` (semaphores) hold, capped, the
/// units of each resource there would be once the tasks in `done` finished.
pub open spec fn work_matches(
    p: ProcessSync,
    tasks: Seq<bool>,
    done: Set<usize>,
    mw: Seq<usize>,
    sw: Seq<usize>,
) -> bool {
    &&& mw.len() == p.mutex_list@.len()
    &&& sw.len() == p.semaphore_list@.len()
    &&& forall|i: int|
        0 <= i < mw.len() ==> #[trigger] mw[i] == capped(work(p, tasks, done, Resource::Mutex(i as usize)))
    &&& forall|i: int|
        0 <= i < sw.len() ==> #[trigger] sw[i] == capped(
            work(p, tasks, done, Resource::Semaphore(i as usize)),
        )
}

/// The free units of each resource, before any task is assumed to finish.
fn initial_work(p: &ProcessSync, tasks: &Vec<bool>) -> (w: (Vec<usize>, Vec<usize>))
    ensures
        work_matches(*p, tasks@, Set::empty(), w.0@, w.1@),
{
    let mut mw: Vec<usize> = Vec::new();
    let mut i: usize = 0;
    while i < p.mutex_list.len()
        invariant
            i <= p.mutex_list@.len(),
            mw@.len() == i,
            forall|k: int| 0 <= k < i ==> #[trigger] mw@[k] == available(*p, Resource::Mutex(k as usize)),
        decreases p.mutex_list@.len() - i,
    {
        match &p.mutex_list[i] {
            Some(m) => {
                if m.get_owner().is_some() {
                    mw.push(0);
                } else {
                    mw.push(1);
                }
            },
            None => mw.push(0),
        }
        i = i + 1;
    }
    let mut sw: Vec<usize> = Vec::new();
    let mut i: usize = 0;
    while i < p.semaphore_list.len()
        invariant
            i <= p.semaphore_list@.len(),
            sw@.len() == i,
            forall|k: int|
                0 <= k < i ==> #[trigger] sw@[k] == available(*p, Resource::Semaphore(k as usize)),
        decreases p.semaphore_list@.len() - i,
    {
        match &p.semaphore_list[i] {
            Some(s) => {
                let count = s.inner.count;
                if count > 0 {
                    sw.push(count as usize);
                } else {
                    sw.push(0);
                }
            },
            None => sw.push(0),
        }
        i = i + 1;
    }
    proof {
        assert forall|i: int| 0 <= i < mw@.len() implies #[trigger] mw@[i] == capped(
            work(*p, tasks@, Set::empty(), Resource::Mutex(i as usize)),
        ) by {
            lemma_released_empty(*p, tasks@, Resource::Mutex(i as usize), tasks@.len() as int);
        }
        assert forall|i: int| 0 <= i < sw@.len() implies #[trigger] sw@[i] == capped(
            work(*p, tasks@, Set::empty(), Resource::Semaphore(i as usize)),
        ) by {
            lemma_released_empty(*p, tasks@, Resource::Semaphore(i as usize), tasks@.len() as int);
        }
    }
    (mw, sw)
}

/// The capped work of `r`, read from the work vectors.
fn work_at(
    mw: &Vec<usize>,
    sw: &Vec<usize>,
    r: Resource,
    Ghost(p): Ghost<ProcessSync>,
    Ghost(tasks): Ghost<Seq<bool>>,
    Ghost(done): Ghost<Set<usize>>,
) -> (w: usize)
    requires
        work_matches(p, tasks, done, mw@, sw@),
        tasks.len() <= usize::MAX,
    ensures
        w == capped(work(p, tasks, done, r)),
{
    match r {
        Resource::Mutex(i) => {
            if i < mw.len() {
                mw[i]
            } else {
                proof {
                    lemma_released_none_held(p, tasks, done, r, tasks.len() as int);
                }
                0
            }
        },
        Resource::Semaphore(i) => {
            if i < sw.len() {
                sw[i]
            } else {
                proof {
                    lemma_released_none_held(p, tasks, done, r, tasks.len() as int);
                }
                0
            }
        },
    }
}

/// Give back to the work vectors all that live task `t` holds.
fn release_task(
    p: &ProcessSync,
    t: usize,
    mw: &mut Vec<usize>,
    sw: &mut Vec<usize>,
    Ghost(tasks): Ghost<Seq<bool>>,
    Ghost(done): Ghost<Set<usize>>,
)
    requires
        work_matches(*p, tasks, done, old(mw)@, old(sw)@),
        present(tasks, t as int),
        !done.contains(t),
        tasks.len() <= usize::MAX,
    ensures
        work_matches(*p, tasks, done.insert(t), final(mw)@, final(sw)@),
{
    let ghost n = tasks.len() as int;
    let ghost done2 = done.insert(t);
    let mut i: usize = 0;
    while i < p.mutex_list.len()
        invariant
            i <= p.mutex_list@.len() == mw@.len(),
            present(tasks, t as int),
            !done.contains(t),
            n == tasks.len() <= usize::MAX,
            done2 == done.insert(t),
            forall|k: int|
                0 <= k < mw@.len() ==> #[trigger] mw@[k] == capped(
                    work(*p, tasks, if k < i { done2 } else { done }, Resource::Mutex(k as usize)),
                ),
        decreases p.mutex_list@.len() - i,
    {
        proof {
            lemma_released_insert(*p, tasks, done, t, Resource::Mutex(i), n);
        }
        match &p.mutex_list[i] {
            Some(m) => {
                let owns = match m.get_owner() {
                    Some(o) => o == t,
                    None => false,
                };
                if owns {
                    let v = mw[i].saturating_add(1);
                    mw.set(i, v);
                }
            },
            None => {},
        }
        i = i + 1;
    }
    let mut i: usize = 0;
    while i < p.semaphore_list.len()
        invariant
            i <= p.semaphore_list@.len() == sw@.len(),
            present(tasks, t as int),
            !done.contains(t),
            n == tasks.len() <= usize::MAX,
            done2 == done.insert(t),
            forall|k: int|
                0 <= k < sw@.len() ==> #[trigger] sw@[k] == capped(
                    work(*p, tasks, if k < i { done2 } else { done }, Resource::Semaphore(k as usize)),
                ),
        decreases p.semaphore_list@.len() - i,
    {
        proof {
            lemma_released_insert(*p, tasks, done, t, Resource::Semaphore(i), n);
        }
        match &p.semaphore_list[i] {
            Some(s) => {
                let ghost base = work(*p, tasks, done, Resource::Semaphore(i));
                let mut j: usize = 0;
                proof {
                    assert(s.inner.holders@.take(0) =~= Seq::<usize>::empty());
                    Seq::<usize>::empty().to_multiset_ensures();
                }
                while j < s.inner.holders.len()
                    invariant
                        j <= s.inner.holders@.len(),
                        i < sw@.len() == p.semaphore_list@.len(),
                        sw@[i as int] == capped(base + s.inner.holders@.take(j as int).to_multiset().count(t)),
                        forall|k: int|
                            0 <= k < sw@.len() && k != i ==> #[trigger] sw@[k] == capped(
                                work(*p, tasks, if k < i { done2 } else { done }, Resource::Semaphore(k as usize)),
                            ),
                    decreases s.inner.holders@.len() - j,
                {
                    proof {
                        let h = s.inner.holders@;
                        assert(h.take(j + 1) =~= h.take(j as int).push(h[j as int]));
                        h.take(j as int).to_multiset_ensures();
                    }
                    if s.inner.holders[j] == t {
                        let v = sw[i].saturating_add(1);
                        sw.set(i, v);
                    }
                    j = j + 1;
                }
                assert(s.inner.holders@.take(s.inner.holders@.len() as int) =~= s.inner.holders@);
            },
            None => {},
        }
        i = i + 1;
    }
}

/// When no other live task waits on anything and the requested resource has
/// a free unit, the request could deadlock nothing.
pub proof fn lemma_free_request_no_deadlock(p: ProcessSync, tasks: Seq<bool>, current: usize, request: Resource)
    requires
        available(p, request) >= 1,
        forall|t: usize|
            present(tasks, t as int) && t != current ==> #[trigger] need(p, current, request, t) is None,
    ensures
        !deadlocked(p, tasks, current, request),
{
    assert forall|u: Set<usize>| !stuck_set(p, tasks, current, request, u) by {
        if stuck_set(p, tasks, current, request, u) {
            let t = choose|t: usize| u.contains(t);
            assert(present(tasks, t as int));
            assert(need(p, current, request, t) is Some ==> t == current);
        }
    }
}

/// The task ids marked in `finished`.
spec fn finished_set(finished: Seq<bool>) -> Set<usize> {
    Set::new(|t: usize| t < finished.len() && finished[t as int])
}

/// Number of live tasks below `n` not marked in `finished`.
spec fn pending(tasks: Seq<bool>, finished: Seq<bool>, n: int) -> nat
    decreases n,
{
    if n <= 0 {
        0
    } else {
        pending(tasks, finished, n - 1) + if present(tasks, n - 1) && !finished[n - 1] {
            1nat
        } else {
            0nat
        }
    }
}

proof fn lemma_pending_mark(tasks: Seq<bool>, finished: Seq<bool>, t: int, n: int)
    requires
        0 <= t < finished.len(),
        n <= finished.len(),
    ensures
        pending(tasks, finished.update(t, true), n) == pending(tasks, finished, n) - if t < n
            && present(tasks, t) && !finished[t] {
            1int
        } else {
            0int
        },
    decreases n,
{
    if n > 0 {
        lemma_pending_mark(tasks, finished, t, n - 1);
    }
}

/// A task that can go on with the work of `done` is in no stuck set that
/// avoids `done`.
proof fn lemma_proceeding_not_stuck(
    p: ProcessSync,
    tasks: Seq<bool>,
    current: usize,
    request: Resource,
    done: Set<usize>,
    t: usize,
    u: Set<usize>,
)
    requires
        tasks.len() <= usize::MAX,
        can_proceed(p, tasks, current, request, done, t),
        forall|x: usize| #[trigger] done.contains(x) ==> present(tasks, x as int) && !u.contains(x),
        stuck_set(p, tasks, current, request, u),
    ensures
        !u.contains(t),
{
    if u.contains(t) {
        let o = others(tasks, u);
        match need(p, current, request, t) {
            Some(r) => {
                lemma_released_mono(p, tasks, done, o, r, tasks.len() as int);
            },
            None => {},
        }
        assert(can_proceed(p, tasks, current, request, o, t));
    }
}

/// Check whether letting task `current_tid` wait for `request` could leave
/// tasks deadlocked. `tasks[t]` tells whether task id `t` is live. Always
/// `false` while detection is off.
pub fn check_deadlock(p: &ProcessSync, tasks: &Vec<bool>, current_tid: usize, request: Resource) -> (r:
    bool)
    ensures
        r == (p.deadlock_detection_enabled && deadlocked(*p, tasks@, current_tid, request)),
{
    if !p.deadlock_detection_enabled {
        return false;
    }
    let n = tasks.len();
    let nd = collect_need(p, tasks, current_tid, request);
    let (mut mw, mut sw) = initial_work(p, tasks);
    let mut finished: Vec<bool> = Vec::new();
    let mut k: usize = 0;
    while k < n
        invariant
            k <= n == tasks@.len(),
            finished@.len() == k,
            forall|t: int| 0 <= t < k ==> !#[trigger] finished@[t],
        decreases n - k,
    {
        finished.push(false);
        k = k + 1;
    }
    assert(finished_set(finished@) =~= Set::<usize>::empty());
    // Safety check: keep letting tasks that can go on finish and give back
    // what they hold, until a whole pass lets nobody finish.
    loop
        invariant
            n == tasks@.len() == finished@.len() == nd@.len(),
            forall|t: int| present(tasks@, t) ==> #[trigger] nd@[t] == need(*p, current_tid, request, t as usize),
            forall|t: int| 0 <= t < n && #[trigger] finished@[t] ==> tasks@[t],
            work_matches(*p, tasks@, finished_set(finished@), mw@, sw@),
            forall|u: Set<usize>|
                #[trigger] stuck_set(*p, tasks@, current_tid, request, u) ==> forall|x: usize|
                    #[trigger] finished_set(finished@).contains(x) ==> !u.contains(x),
        ensures
            n == tasks@.len() == finished@.len(),
            forall|t: int| 0 <= t < n && #[trigger] finished@[t] ==> tasks@[t],
            forall|u: Set<usize>|
                #[trigger] stuck_set(*p, tasks@, current_tid, request, u) ==> forall|x: usize|
                    #[trigger] finished_set(finished@).contains(x) ==> !u.contains(x),
            forall|t: int|
                present(tasks@, t) && !finished@[t] ==> !can_proceed(
                    *p,
                    tasks@,
                    current_tid,
                    request,
                    finished_set(finished@),
                    t as usize,
                ),
        decreases pending(tasks@, finished@, n as int),
    {
        let ghost start = finished@;
        let mut found = false;
        let mut tid: usize = 0;
        while tid < n
            invariant
                tid <= n == tasks@.len() == finished@.len() == nd@.len() == start.len(),
                forall|t: int|
                    present(tasks@, t) ==> #[trigger] nd@[t] == need(*p, current_tid, request, t as usize),
                forall|t: int| 0 <= t < n && #[trigger] finished@[t] ==> tasks@[t],
                work_matches(*p, tasks@, finished_set(finished@), mw@, sw@),
                forall|u: Set<usize>|
                    #[trigger] stuck_set(*p, tasks@, current_tid, request, u) ==> forall|x: usize|
                        #[trigger] finished_set(finished@).contains(x) ==> !u.contains(x),
                !found ==> finished@ == start,
                !found ==> forall|t: int|
                    0 <= t < tid && present(tasks@, t) && !finished@[t] ==> !can_proceed(
                        *p,
                        tasks@,
                        current_tid,
                        request,
                        finished_set(finished@),
                        t as usize,
                    ),
                pending(tasks@, finished@, n as int) <= pending(tasks@, start, n as int),
                found ==> pending(tasks@, finished@, n as int) < pending(tasks@, start, n as int),
            decreases n - tid,
        {
            if tasks[tid] && !finished[tid] {
                let satisfied = match nd[tid] {
                    None => true,
                    Some(res) => work_at(&mw, &sw, res, Ghost(*p), Ghost(tasks@), Ghost(finished_set(finished@))) >= 1,
                };
                if satisfied {
                    let ghost done = finished_set(finished@);
                    proof {
                        assert(can_proceed(*p, tasks@, current_tid, request, done, tid));
                        assert forall|u: Set<usize>|
                            #[trigger] stuck_set(*p, tasks@, current_tid, request, u) implies forall|x: usize|
                                #[trigger] done.insert(tid).contains(x) ==> !u.contains(x) by {
                            lemma_proceeding_not_stuck(*p, tasks@, current_tid, request, done, tid, u);
                        }
                        lemma_pending_mark(tasks@, finished@, tid as int, n as int);
                    }
                    release_task(p, tid, &mut mw, &mut sw, Ghost(tasks@), Ghost(done));
                    finished.set(tid, true);
                    assert(finished_set(finished@) =~= done.insert(tid));
                    found = true;
                }
            }
            tid = tid + 1;
        }
        if !found {
            break;
        }
    }
    // Deadlock exactly when some live task never finished.
    let mut t: usize = 0;
    while t < n
        invariant
            t <= n == tasks@.len() == finished@.len(),
            forall|j: int| 0 <= j < t && present(tasks@, j) ==> finished@[j],
            p.deadlock_detection_enabled,
            forall|j: int| 0 <= j < n && #[trigger] finished@[j] ==> tasks@[j],
            forall|u: Set<usize>|
                #[trigger] stuck_set(*p, tasks@, current_tid, request, u) ==> forall|x: usize|
                    #[trigger] finished_set(finished@).contains(x) ==> !u.contains(x),
            forall|j: int|
                present(tasks@, j) && !finished@[j] ==> !can_proceed(
                    *p,
                    tasks@,
                    current_tid,
                    request,
                    finished_set(finished@),
                    j as usize,
                ),
        decreases n - t,
    {
        if tasks[t] && !finished[t] {
            proof {
                let done = finished_set(finished@);
                let u = Set::new(|x: usize| present(tasks@, x as int) && !finished@[x as int]);
                let o = others(tasks@, u);
                assert forall|x: usize| #[trigger] u.contains(x) implies present(tasks@, x as int) && !can_proceed(
                    *p,
                    tasks@,
                    current_tid,
                    request,
                    o,
                    x,
                ) by {
                    match need(*p, current_tid, request, x) {
                        Some(r) => {
                            lemma_released_mono(*p, tasks@, done, o, r, n as int);
                            lemma_released_mono(*p, tasks@, o, done, r, n as int);
                        },
                        None => {},
                    }
                }
                assert(u.contains(t));
                assert(stuck_set(*p, tasks@, current_tid, request, u));
                assert(deadlocked(*p, tasks@, current_tid, request));
            }
            return true;
        }
        t = t + 1;
    }
    proof {
        assert forall|u: Set<usize>| !stuck_set(*p, tasks@, current_tid, request, u) by {
            if stuck_set(*p, tasks@, current_tid, request, u) {
                let x = choose|x: usize| u.contains(x);
                assert(present(tasks@, x as int));
                assert(finished_set(finished@).contains(x));
            }
        }
    }
    false
}

} // verus!
