//! The descriptor that describes one test to the runner.
use vstd::prelude::*;

verus! {

/// The entry point of a test: the address of the function the guest runs.
#[derive(Clone, Copy, Debug, PartialEq, Eq, Structural)]
pub struct StaticTestFn(pub u64);

/// Everything the runner needs to know about one test.
pub struct X86TestFn {
    /// Name of test.
    pub name: String,
    /// Ignore this test?
    pub ignore: bool,
    /// Create an identify map of process inside the VM?
    pub identity_map: bool,
    /// Add guest physical memory in this range.
    pub physical_memory: (u64, u64),
    /// When read on ioport_reads.0 return ioport_reads.1 as value.
    pub ioport_reads: (u16, u32),
    /// Test has a #[should_panic] attribute
    pub should_panic: bool,
    /// Test has a #[should_halt] attribute (reserved, not consulted)
    pub should_halt: bool,
    /// Test function we need to execute (in a VM).
    pub testfn: StaticTestFn,
}

} // verus!
