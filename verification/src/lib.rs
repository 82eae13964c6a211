//! Core of a small preemptive kernel for one processor: a chunk allocator
//! for physical memory, a fixed process table with a round-robin scheduler,
//! and the decisions taken on each interrupt.

pub mod allocator;
pub mod process;
pub mod scheduler;
pub mod scancodes;
pub mod syscall;
pub mod vfs;
pub mod interrupt;
pub mod tty;
pub mod debug;
