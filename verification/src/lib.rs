//! Multicore kernel-thread concurrency core: CPU registry and multiprocessor
//! bring-up, switchable execution contexts, per-core dispatch, and the shared
//! thread pool with round-robin scheduling, together with the self-contained
//! subsystems the scheduler loads and runs (ATA protocol and filesystems, PCI
//! configuration parsing, VGA text rendering, keyboard buffering, syscall
//! decoding).
//!
//! Hardware access (port I/O, MMIO, the actual register-swap instruction
//! sequence, inter-processor interrupts) lives outside this crate; here every
//! machine interaction is represented by plain data so that the surrounding
//! logic can be specified and verified.

pub mod ata;
pub mod context;
pub mod fs;
pub mod interrupts;
pub mod keyboard;
pub mod pci;
pub mod processor;
pub mod rr;
pub mod smp;
pub mod std_thread;
pub mod syscall;
pub mod thread_pool;
pub mod vga_buffer;
pub mod timer;

use vstd::prelude::*;

verus! {

/// A thread identifier: allocated monotonically by the thread pool and never
/// reused for the lifetime of the system.
pub type Tid = usize;

} // verus!
