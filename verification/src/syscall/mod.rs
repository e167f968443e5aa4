//! The decision logic of the system calls.
pub mod deadlock;
pub mod process;
pub mod sync;
