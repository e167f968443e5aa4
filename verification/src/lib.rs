//! Synchronisation primitives and the decision logic of the kernel's
//! synchronisation and process system calls, with their contracts.
pub mod sync;
pub mod syscall;
