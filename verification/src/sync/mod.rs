//! Mutexes, semaphores and condition variables, modelled over task ids.
pub mod condvar;
pub mod mutex;
pub mod semaphore;
