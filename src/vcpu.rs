//! The guest's initial state: long-mode segments and control registers,
//! the first general registers, and which host memory it sees.
use vstd::prelude::*;

use crate::paging::{BASE_PAGE_SIZE, MapAction};
use crate::vspace::{MapError, VSpace};

verus! {

/// CR0: protected mode enable.
pub const CR0_PROTECTED_MODE: u64 = 1 << 0;
/// CR0: monitor coprocessor.
pub const CR0_MONITOR_COPROCESSOR: u64 = 1 << 1;
/// CR0: extension type.
pub const CR0_EXTENSION_TYPE: u64 = 1 << 4;
/// CR0: numeric error.
pub const CR0_NUMERIC_ERROR: u64 = 1 << 5;
/// CR0: write protect.
pub const CR0_WRITE_PROTECT: u64 = 1 << 16;
/// CR0: alignment mask.
pub const CR0_ALIGNMENT_MASK: u64 = 1 << 18;
/// CR0: paging.
pub const CR0_ENABLE_PAGING: u64 = 1 << 31;

/// CR4: virtual-8086 mode extensions.
pub const CR4_ENABLE_VME: u64 = 1 << 0;
/// CR4: page size extensions.
pub const CR4_ENABLE_PSE: u64 = 1 << 4;
/// CR4: physical address extension.
pub const CR4_ENABLE_PAE: u64 = 1 << 5;
/// CR4: global pages.
pub const CR4_ENABLE_GLOBAL_PAGES: u64 = 1 << 7;
/// CR4: FXSAVE/FXRSTOR and SSE (OSFXSR).
pub const CR4_ENABLE_SSE: u64 = 1 << 9;
/// CR4: unmasked SIMD floating-point exceptions (OSXMMEXCPT).
pub const CR4_UNMASKED_SSE: u64 = 1 << 10;
/// CR4: XSAVE and processor extended states.
pub const CR4_ENABLE_OS_XSAVE: u64 = 1 << 18;
/// CR4: supervisor-mode execution prevention.
pub const CR4_ENABLE_SMEP: u64 = 1 << 20;

/// EFER: system call extensions, long mode enable and active, no-execute.
pub const EFER_LONG_MODE: u64 = 0xd01;
/// Initial RFLAGS: the reserved bit, IF, PF and ZF.
pub const INITIAL_RFLAGS: u64 = 0x246;
/// Canonical guest physical base of the stack region.
pub const STACK_BASE: u64 = 0x300_0000;
/// Canonical guest physical base of the heap region.
pub const HEAP_BASE: u64 = 0x600_0000;
/// Canonical guest physical base of the page-table region.
pub const PTABLES_BASE: u64 = 0x900_0000;
/// Host mappings that end at or below this address are user space and are
/// shown to the guest.
pub const USER_SPACE_END: u64 = 0x8000_0000_0000;

/// A segment register as KVM describes it.
#[derive(Debug, PartialEq, Eq, Structural, Copy, Clone)]
pub struct Segment {
    pub base: u64,
    pub limit: u32,
    pub selector: u16,
    pub seg_type: u8,
    pub present: u8,
    pub dpl: u8,
    pub db: u8,
    pub s: u8,
    pub l: u8,
    pub g: u8,
    pub avl: u8,
}

/// The flat segment every data segment gets: base 0, limit 4 GiB with
/// page granularity, present, a code or data segment (`s`), no default
/// operand size and no long-mode bit.
pub open spec fn spec_segment_template() -> Segment {
    Segment {
        base: 0,
        limit: 0xffff_ffff,
        selector: 0,
        seg_type: 0,
        present: 1,
        dpl: 0,
        db: 0,
        s: 1,
        l: 0,
        g: 1,
        avl: 0,
    }
}

/// The flat segment every data segment gets: base 0, limit 4 GiB with
/// page granularity, present, a code or data segment (`s`), no default
/// operand size and no long-mode bit.
pub fn segment_template() -> (r: Segment)
    ensures
        r == spec_segment_template(),
{
    Segment {
        base: 0,
        limit: 0xffff_ffff,
        selector: 0,
        seg_type: 0,
        present: 1,
        dpl: 0,
        db: 0,
        s: 1,
        l: 0,
        g: 1,
        avl: 0,
    }
}

/// The 64-bit code segment: the template with selector 8, execute/read
/// type, present, a code segment, long mode and no default operand size.
pub fn code_segment() -> (r: Segment)
    ensures
        r == (Segment {
            selector: 8,
            seg_type: 0xb,
            present: 1,
            db: 0,
            s: 1,
            l: 1,
            ..spec_segment_template()
        }),
{
    Segment { selector: 8, seg_type: 0xb, present: 1, db: 0, s: 1, l: 1, ..segment_template() }
}

/// CR0 for long mode: protected mode, paging, write protect, alignment
/// mask, and the coprocessor bits.
pub fn cr0_value() -> (r: u64)
    ensures
        r == CR0_PROTECTED_MODE | CR0_MONITOR_COPROCESSOR | CR0_EXTENSION_TYPE | CR0_ENABLE_PAGING
            | CR0_NUMERIC_ERROR | CR0_WRITE_PROTECT | CR0_ALIGNMENT_MASK,
{
    CR0_PROTECTED_MODE | CR0_MONITOR_COPROCESSOR | CR0_EXTENSION_TYPE | CR0_ENABLE_PAGING
        | CR0_NUMERIC_ERROR | CR0_WRITE_PROTECT | CR0_ALIGNMENT_MASK
}

/// CR4 for long mode: PSE, PAE, global pages, SSE, XSAVE, SMEP and VME.
pub fn cr4_value() -> (r: u64)
    ensures
        r == CR4_ENABLE_PSE | CR4_ENABLE_PAE | CR4_ENABLE_GLOBAL_PAGES | CR4_ENABLE_SSE
            | CR4_UNMASKED_SSE | CR4_ENABLE_OS_XSAVE | CR4_ENABLE_SMEP | CR4_ENABLE_VME,
{
    CR4_ENABLE_PSE | CR4_ENABLE_PAE | CR4_ENABLE_GLOBAL_PAGES | CR4_ENABLE_SSE | CR4_UNMASKED_SSE
        | CR4_ENABLE_OS_XSAVE | CR4_ENABLE_SMEP | CR4_ENABLE_VME
}

/// The special registers of a vCPU that starts in long mode.
#[derive(Debug, PartialEq, Eq, Structural, Copy, Clone)]
pub struct SpecialRegisters {
    pub cs: Segment,
    /// SS, DS, ES, FS and GS.
    pub data: Segment,
    pub cr0: u64,
    pub cr3: u64,
    pub cr4: u64,
    pub efer: u64,
}

/// Special registers for long mode with the page tables rooted at
/// `pml4_paddr`.
pub fn long_mode_sregs(pml4_paddr: u64) -> (r: SpecialRegisters)
    ensures
        r.cs == (Segment {
            selector: 8,
            seg_type: 0xb,
            present: 1,
            db: 0,
            s: 1,
            l: 1,
            ..spec_segment_template()
        }),
        r.data == spec_segment_template(),
        r.cr0 == CR0_PROTECTED_MODE | CR0_MONITOR_COPROCESSOR | CR0_EXTENSION_TYPE
            | CR0_ENABLE_PAGING | CR0_NUMERIC_ERROR | CR0_WRITE_PROTECT | CR0_ALIGNMENT_MASK,
        r.cr3 == pml4_paddr,
        r.cr4 == CR4_ENABLE_PSE | CR4_ENABLE_PAE | CR4_ENABLE_GLOBAL_PAGES | CR4_ENABLE_SSE
            | CR4_UNMASKED_SSE | CR4_ENABLE_OS_XSAVE | CR4_ENABLE_SMEP | CR4_ENABLE_VME,
        r.efer == EFER_LONG_MODE,
{
    SpecialRegisters {
        cs: code_segment(),
        data: segment_template(),
        cr0: cr0_value(),
        cr3: pml4_paddr,
        cr4: cr4_value(),
        efer: EFER_LONG_MODE,
    }
}

/// The general registers a test starts with.
#[derive(Debug, PartialEq, Eq, Structural, Copy, Clone)]
pub struct InitialRegisters {
    pub rip: u64,
    pub rflags: u64,
    pub rsp: u64,
    pub rbp: u64,
}

/// Start at `init_fn` with a stack at the top of `[stack_base, stack_base
/// + stack_size)`, less one word.
pub fn initial_regs(init_fn: u64, stack_base: u64, stack_size: u64) -> (r: InitialRegisters)
    requires
        stack_base + stack_size >= 8,
        stack_base + stack_size <= u64::MAX,
    ensures
        r.rip == init_fn,
        r.rflags == INITIAL_RFLAGS,
        r.rsp == stack_base + stack_size - 8,
        r.rbp == r.rsp,
{
    let top = stack_base + stack_size;
    let rsp = top - 8;
    InitialRegisters { rip: init_fn, rflags: INITIAL_RFLAGS, rsp, rbp: rsp }
}

/// A host mapping `[begin, end)` is shown to the guest.
pub fn is_user_region(begin: u64, end: u64) -> (r: bool)
    ensures
        r == (end <= USER_SPACE_END),
{
    end <= USER_SPACE_END
}

/// Identity-map the host mapping `[begin, end)` into the guest with
/// kernel read/write/execute rights, if it is user space. Returns whether
/// it was mapped; a mapping that is empty or not page-aligned is skipped.
pub fn identity_map_user_region(vspace: &mut VSpace, begin: u64, end: u64) -> (r: Result<
    bool,
    MapError,
>)
    requires
        old(vspace).wf(),
    ensures
        final(vspace).wf(),
        final(vspace).spec_pml4_paddr() == old(vspace).spec_pml4_paddr(),
        r == Ok::<bool, MapError>(false) <==> !(end <= USER_SPACE_END && begin < end && begin
            % BASE_PAGE_SIZE == 0 && end % BASE_PAGE_SIZE == 0),
        r == Ok::<bool, MapError>(false) ==> *final(vspace) == *old(vspace),
        r is Ok && r != Ok::<bool, MapError>(false) ==> VSpace::maps_all(
            *old(vspace),
            *final(vspace),
            begin as int,
            begin as int,
            end - begin,
        ),
        VSpace::maps_part(*old(vspace), *final(vspace), begin as int, begin as int, end - begin)
            || *final(vspace) == *old(vspace),
        (forall|va: int| begin <= va < end ==> #[trigger] old(vspace).translate(va) is None) && old(
            vspace,
        ).spec_pmem().free_pages() >= VSpace::tables_bound(
            *old(vspace),
            begin as int,
            begin as int,
            end - begin,
        ) ==> r is Ok,
        final(vspace).spec_pmem().spec_allocated() == old(vspace).spec_pmem().spec_allocated()
            + BASE_PAGE_SIZE * (final(vspace).num_tables() - old(vspace).num_tables()),
        r != Ok::<bool, MapError>(false) ==> VSpace::grows_from(
            *old(vspace),
            *final(vspace),
            MapAction::ReadWriteExecuteKernel,
        ),
{
    if !(is_user_region(begin, end) && begin < end && begin % BASE_PAGE_SIZE == 0 && end
        % BASE_PAGE_SIZE == 0) {
        return Ok(false);
    }
    match vspace.map_identity(begin, end, MapAction::ReadWriteExecuteKernel) {
        Ok(()) => Ok(true),
        Err(e) => Err(e),
    }
}

} // verus!
