//! Helpers to program the task state segment.
use vstd::prelude::*;

verus! {

/// Although hardware task-switching is not supported in 64-bit mode,
/// a 64-bit task state segment (TSS) must exist.
///
/// The TSS holds the stack pointers (RSP) for privilege levels 0-2, the
/// interrupt stack table (IST) pointers and the offset of the I/O
/// permission bit map from the TSS base.
#[derive(Clone, Copy, Debug)]
pub struct TaskStateSegment {
    pub reserved: u32,
    /// The full 64-bit canonical forms of the stack pointers (RSP) for privilege levels 0-2.
    pub rsp: [u64; 3],
    pub reserved2: u64,
    /// The full 64-bit canonical forms of the interrupt stack table (IST) pointers.
    pub ist: [u64; 7],
    pub reserved3: u64,
    pub reserved4: u16,
    /// The 16-bit offset to the I/O permission bit map from the 64-bit TSS base.
    pub iomap_base: u16,
}

impl TaskStateSegment {
    /// A task state segment with every field zero.
    pub fn new() -> (r: TaskStateSegment)
        ensures
            r.reserved == 0,
            r.rsp@ == seq![0u64, 0u64, 0u64],
            r.reserved2 == 0,
            r.ist@ == seq![0u64, 0u64, 0u64, 0u64, 0u64, 0u64, 0u64],
            r.reserved3 == 0,
            r.reserved4 == 0,
            r.iomap_base == 0,
    {
        let r = TaskStateSegment {
            reserved: 0,
            rsp: [0u64, 0u64, 0u64],
            reserved2: 0,
            ist: [0u64, 0u64, 0u64, 0u64, 0u64, 0u64, 0u64],
            reserved3: 0,
            reserved4: 0,
            iomap_base: 0,
        };
        assert(r.rsp@ =~= seq![0u64, 0u64, 0u64]);
        assert(r.ist@ =~= seq![0u64, 0u64, 0u64, 0u64, 0u64, 0u64, 0u64]);
        r
    }
}

} // verus!
