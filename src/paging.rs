//! x86-64 4-level paging: page sizes, table indices and the entry format.
use vstd::prelude::*;

verus! {

/// Size of a base page (4 KiB).
pub const BASE_PAGE_SIZE: u64 = 0x1000;
/// Size of a large page (2 MiB), mapped by a page-directory entry.
pub const LARGE_PAGE_SIZE: u64 = 0x20_0000;
/// Size of a huge page (1 GiB), mapped by a PDPT entry.
pub const HUGE_PAGE_SIZE: u64 = 0x4000_0000;
/// Virtual memory covered by one PML4 slot (512 GiB).
pub const PML4_SLOT_SIZE: u64 = 0x80_0000_0000;
/// Entries in one page-table page, at every level.
pub const ENTRIES_PER_TABLE: usize = 512;
/// The virtual addresses that 4-level paging translates lie below this bound.
pub const VADDR_LIMIT: u64 = 0x1_0000_0000_0000;
/// Physical addresses lie below this bound (52 address bits).
pub const PADDR_LIMIT: u64 = 0x10_0000_0000_0000;

/// Entry flag: present.
pub const FLAG_P: u64 = 0x1;
/// Entry flag: writable.
pub const FLAG_RW: u64 = 0x2;
/// Entry flag: accessible from user mode.
pub const FLAG_US: u64 = 0x4;
/// Entry flag: this PDPT or PD entry maps a page instead of a table.
pub const FLAG_PS: u64 = 0x80;
/// Entry flag: execute disable.
pub const FLAG_XD: u64 = 0x8000_0000_0000_0000;

/// `x` is a power of two.
pub open spec fn is_power_of_two(x: u64) -> bool {
    x != 0 && x & ((x - 1) as u64) == 0
}

/// Index into the PML4 for `va`: bits 47:39.
pub open spec fn spec_pml4_index(va: int) -> int {
    (va / PML4_SLOT_SIZE as int) % 512
}

/// Index into a PDPT for `va`: bits 38:30.
pub open spec fn spec_pdpt_index(va: int) -> int {
    (va / HUGE_PAGE_SIZE as int) % 512
}

/// Index into a page directory for `va`: bits 29:21.
pub open spec fn spec_pd_index(va: int) -> int {
    (va / LARGE_PAGE_SIZE as int) % 512
}

/// Index into a page table for `va`: bits 20:12.
pub open spec fn spec_pt_index(va: int) -> int {
    (va / BASE_PAGE_SIZE as int) % 512
}

/// Index into the PML4 for `va`.
pub fn pml4_index(va: u64) -> (r: usize)
    ensures
        r == spec_pml4_index(va as int),
        r < 512,
{
    ((va / PML4_SLOT_SIZE) % 512) as usize
}

/// Index into a PDPT for `va`.
pub fn pdpt_index(va: u64) -> (r: usize)
    ensures
        r == spec_pdpt_index(va as int),
        r < 512,
{
    ((va / HUGE_PAGE_SIZE) % 512) as usize
}

/// Index into a page directory for `va`.
pub fn pd_index(va: u64) -> (r: usize)
    ensures
        r == spec_pd_index(va as int),
        r < 512,
{
    ((va / LARGE_PAGE_SIZE) % 512) as usize
}

/// Index into a page table for `va`.
pub fn pt_index(va: u64) -> (r: usize)
    ensures
        r == spec_pt_index(va as int),
        r < 512,
{
    ((va / BASE_PAGE_SIZE) % 512) as usize
}

/// Mapping rights to give to address translation.
#[derive(Debug, PartialEq, Eq, Structural, Copy, Clone)]
pub enum MapAction {
    /// Don't map
    NoMap,
    /// Map region read-only.
    ReadUser,
    /// Map region read-only for kernel.
    ReadKernel,
    /// Map region read-write.
    ReadWriteUser,
    /// Map region read-write for kernel.
    ReadWriteKernel,
    /// Map region read-executable.
    ReadExecuteUser,
    /// Map region read-executable for kernel.
    ReadExecuteKernel,
    /// Map region read-write-executable.
    ReadWriteExecuteUser,
    /// Map region read-write-executable for kernel.
    ReadWriteExecuteKernel,
}

impl MapAction {
    /// The RW, US and XD bits of a leaf entry that grants these rights: RW
    /// for the writable actions, US for the user ones, XD for those that do
    /// not allow execution.
    pub open spec fn spec_rights(self) -> u64 {
        match self {
            MapAction::NoMap => 0,
            MapAction::ReadUser => FLAG_XD | FLAG_US,
            MapAction::ReadKernel => FLAG_XD,
            MapAction::ReadWriteUser => FLAG_RW | FLAG_XD | FLAG_US,
            MapAction::ReadWriteKernel => FLAG_RW | FLAG_XD,
            MapAction::ReadExecuteUser => FLAG_US,
            MapAction::ReadExecuteKernel => 0,
            MapAction::ReadWriteExecuteUser => FLAG_RW | FLAG_US,
            MapAction::ReadWriteExecuteKernel => FLAG_RW,
        }
    }

    /// Transform MapAction into rights for 1 GiB page.
    pub fn to_pdpt_rights(&self) -> (r: u64)
        ensures
            r == self.spec_rights(),
    {
        self.rights_bits()
    }

    /// Transform MapAction into rights for 2 MiB page.
    pub fn to_pd_rights(&self) -> (r: u64)
        ensures
            r == self.spec_rights(),
    {
        self.rights_bits()
    }

    /// Transform MapAction into rights for 4KiB page.
    pub fn to_pt_rights(&self) -> (r: u64)
        ensures
            r == self.spec_rights(),
    {
        self.rights_bits()
    }

    /// The RW, US and XD bits for these rights; the same at every level.
    fn rights_bits(&self) -> (r: u64)
        ensures
            r == self.spec_rights(),
    {
        match self {
            MapAction::NoMap => 0,
            MapAction::ReadUser => FLAG_XD | FLAG_US,
            MapAction::ReadKernel => FLAG_XD,
            MapAction::ReadWriteUser => FLAG_RW | FLAG_XD | FLAG_US,
            MapAction::ReadWriteKernel => FLAG_RW | FLAG_XD,
            MapAction::ReadExecuteUser => FLAG_US,
            MapAction::ReadExecuteKernel => 0,
            MapAction::ReadWriteExecuteUser => FLAG_RW | FLAG_US,
            MapAction::ReadWriteExecuteKernel => FLAG_RW,
        }
    }

    /// A short text form: the mode (`u` or `k`, blank for `NoMap`), then
    /// `R`, `W` and `X` or a dash each.
    pub open spec fn spec_str(self) -> &'static str {
        match self {
            MapAction::NoMap => " ---",
            MapAction::ReadUser => "uR--",
            MapAction::ReadKernel => "kR--",
            MapAction::ReadWriteUser => "uRW-",
            MapAction::ReadWriteKernel => "kRW-",
            MapAction::ReadExecuteUser => "uR-X",
            MapAction::ReadExecuteKernel => "kR-X",
            MapAction::ReadWriteExecuteUser => "uRWX",
            MapAction::ReadWriteExecuteKernel => "kRWX",
        }
    }

    /// A short text form: the mode (`u` or `k`, blank for `NoMap`), then
    /// `R`, `W` and `X` or a dash each.
    pub fn to_str(&self) -> (r: &'static str)
        ensures
            r == self.spec_str(),
    {
        match self {
            MapAction::NoMap => " ---",
            MapAction::ReadUser => "uR--",
            MapAction::ReadKernel => "kR--",
            MapAction::ReadWriteUser => "uRW-",
            MapAction::ReadWriteKernel => "kRW-",
            MapAction::ReadExecuteUser => "uR-X",
            MapAction::ReadExecuteKernel => "kR-X",
            MapAction::ReadWriteExecuteUser => "uRWX",
            MapAction::ReadWriteExecuteKernel => "kRWX",
        }
    }
}

/// A page-table entry: a physical address and its flag bits, or-ed.
pub open spec fn spec_entry(paddr: u64, flags: u64) -> u64 {
    paddr | flags
}

/// Build a page-table entry from a physical address and flag bits.
pub fn make_entry(paddr: u64, flags: u64) -> (r: u64)
    ensures
        r == spec_entry(paddr, flags),
{
    paddr | flags
}

} // verus!
