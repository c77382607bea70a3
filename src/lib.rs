//! Run kernel-mode unit tests inside a KVM guest: the verified core.
//!
//! The library holds the guest physical-memory allocator, the 4-level
//! page-table builder, the long-mode vCPU register setup, the I/O-exit
//! dispatcher and the per-test bookkeeping of the runner, together with a
//! few x86 register layouts. Everything that talks to the kernel (KVM
//! ioctls, `mmap`, `/proc/self/maps`) lives in the application around it.
use vstd::prelude::*;

pub mod apic;
pub mod bits64;
pub mod dtables;
pub mod shared;
pub mod types;
pub mod paging;
pub mod pmem;
pub mod vspace;
pub mod ioexit;
pub mod runner;
pub mod vcpu;
pub mod maps;
