use x86test::paging::{MapAction, FLAG_P, FLAG_PS, FLAG_RW, HUGE_PAGE_SIZE, LARGE_PAGE_SIZE};
use x86test::pmem::PhysicalMemory;
use x86test::vspace::{MapError, VSpace};

const GIB: u64 = 0x4000_0000;
const MIB2: u64 = 0x20_0000;
const KIB4: u64 = 0x1000;

fn empty_vspace() -> VSpace {
    VSpace::new(PhysicalMemory::new(0x900_0000)).unwrap()
}

#[test]
fn new_vspace_takes_pml4_page_and_maps_nothing() {
    let vs = empty_vspace();
    assert_eq!(vs.pml4_paddr(), 0x900_0000);
    assert_eq!(vs.allocated_pages(), 1);
    assert_eq!(vs.resolve_addr(0), None);
    assert_eq!(vs.resolve_addr(0x7fff_ffff_f000), None);
    assert!(vs.table_writes().is_empty());
}

#[test]
fn map_generic_then_resolve_every_page() {
    let mut vs = empty_vspace();
    let v = 0x40_3000u64;
    let p = 0x1234_5000u64;
    let n = 0x30_0000u64;
    assert_eq!(vs.map_generic(v, (p, n), MapAction::ReadWriteKernel), Ok(()));
    let mut k = 0;
    while k < n {
        assert_eq!(vs.resolve_addr(v + k), Some(p + k));
        k += KIB4;
    }
    assert_eq!(vs.resolve_addr(v - KIB4), None);
    assert_eq!(vs.resolve_addr(v + n), None);
    // an offset inside a page is kept
    assert_eq!(vs.resolve_addr(v + 0x123), Some(p + 0x123));
}

#[test]
fn map_generic_across_large_page_boundaries() {
    let mut vs = empty_vspace();
    // starts 4 KiB before a 2 MiB boundary, physical side aligned the same way
    let v = MIB2 - KIB4;
    let p = 0x4000_0000 + MIB2 - KIB4;
    let n = 2 * MIB2 + 2 * KIB4;
    assert_eq!(vs.map_generic(v, (p, n), MapAction::ReadExecuteUser), Ok(()));
    assert_eq!(vs.page_size_at(v), Some(KIB4));
    assert_eq!(vs.page_size_at(MIB2), Some(LARGE_PAGE_SIZE));
    assert_eq!(vs.page_size_at(2 * MIB2), Some(LARGE_PAGE_SIZE));
    assert_eq!(vs.page_size_at(3 * MIB2), Some(KIB4));
    let mut k = 0;
    while k < n {
        assert_eq!(vs.resolve_addr(v + k), Some(p + k));
        k += KIB4;
    }
}

#[test]
fn remap_same_small_range_is_idempotent() {
    let mut vs = empty_vspace();
    assert_eq!(vs.map_generic(0x1000, (0x5000, 0x3000), MapAction::ReadKernel), Ok(()));
    let before = vs.table_writes();
    assert_eq!(vs.map_generic(0x1000, (0x5000, 0x3000), MapAction::ReadKernel), Ok(()));
    assert_eq!(vs.table_writes(), before);
    assert_eq!(vs.resolve_addr(0x1000), Some(0x5000));
    assert_eq!(vs.resolve_addr(0x3000), Some(0x7000));
}

#[test]
fn remap_keeps_existing_small_pages() {
    let mut vs = empty_vspace();
    assert_eq!(vs.map_generic(0x2000, (0x9000, 0x1000), MapAction::ReadKernel), Ok(()));
    assert_eq!(vs.map_generic(0x1000, (0x20000, 0x3000), MapAction::ReadKernel), Ok(()));
    assert_eq!(vs.resolve_addr(0x1000), Some(0x20000));
    assert_eq!(vs.resolve_addr(0x2000), Some(0x9000));
    assert_eq!(vs.resolve_addr(0x3000), Some(0x22000));
}

#[test]
fn remap_over_huge_page_is_reported() {
    let mut vs = empty_vspace();
    assert_eq!(vs.map_identity(0, GIB, MapAction::ReadWriteExecuteKernel), Ok(()));
    assert_eq!(
        vs.map_identity(0x1000, 0x2000, MapAction::ReadWriteExecuteKernel),
        Err(MapError::AlreadyMapped(0x1000))
    );
    assert_eq!(
        vs.map_identity(0, GIB, MapAction::ReadWriteExecuteKernel),
        Err(MapError::AlreadyMapped(0))
    );
    assert_eq!(vs.resolve_addr(0x1000), Some(0x1000));
}

#[test]
fn remap_over_large_page_is_reported() {
    let mut vs = empty_vspace();
    assert_eq!(vs.map_identity(MIB2, 2 * MIB2, MapAction::ReadKernel), Ok(()));
    assert_eq!(vs.page_size_at(MIB2), Some(LARGE_PAGE_SIZE));
    assert_eq!(
        vs.map_identity(MIB2 - KIB4, MIB2 + KIB4, MapAction::ReadKernel),
        Err(MapError::AlreadyMapped(MIB2))
    );
    // the part before the large page was mapped before the collision
    assert_eq!(vs.resolve_addr(MIB2 - KIB4), Some(MIB2 - KIB4));
}

#[test]
fn page_size_selection() {
    let mut vs = empty_vspace();
    // 1 GiB: virtual slot, physical base and length all allow it
    assert_eq!(vs.map_generic(GIB, (2 * GIB, GIB), MapAction::ReadKernel), Ok(()));
    assert_eq!(vs.page_size_at(GIB), Some(HUGE_PAGE_SIZE));
    // physical base only 2 MiB aligned: 2 MiB pages
    assert_eq!(vs.map_generic(2 * GIB, (MIB2, GIB), MapAction::ReadKernel), Ok(()));
    assert_eq!(vs.page_size_at(2 * GIB), Some(LARGE_PAGE_SIZE));
    assert_eq!(vs.page_size_at(3 * GIB - MIB2), Some(LARGE_PAGE_SIZE));
    // physical base only 4 KiB aligned: 4 KiB pages
    assert_eq!(vs.map_generic(3 * GIB, (KIB4, MIB2), MapAction::ReadKernel), Ok(()));
    assert_eq!(vs.page_size_at(3 * GIB), Some(KIB4));
    assert_eq!(vs.resolve_addr(3 * GIB + MIB2 - KIB4), Some(MIB2));
    // too short for a large page
    assert_eq!(vs.map_generic(4 * GIB, (0, MIB2 - KIB4), MapAction::ReadKernel), Ok(()));
    assert_eq!(vs.page_size_at(4 * GIB), Some(KIB4));
}

#[test]
fn identity_round_trip() {
    let mut vs = empty_vspace();
    let b = 0x5555_5555_4000u64;
    let e = b + 0x2_3000;
    assert_eq!(vs.map_identity(b, e, MapAction::ReadWriteExecuteKernel), Ok(()));
    let mut v = b;
    while v < e {
        assert_eq!(vs.resolve_addr(v), Some(v));
        v += KIB4;
    }
    assert_eq!(vs.resolve_addr(e), None);
}

#[test]
fn identity_with_offset_shifts_virtual_side() {
    let mut vs = empty_vspace();
    assert_eq!(
        vs.map_identity_with_offset(0x20000, 0x1000, 0x2000, MapAction::ReadWriteKernel),
        Ok(())
    );
    assert_eq!(vs.resolve_addr(0x21000), Some(0x1000));
    assert_eq!(vs.resolve_addr(0x21fff), Some(0x1fff));
    assert_eq!(vs.resolve_addr(0x1000), None);
    assert_eq!(vs.resolve_addr(0x22000), None);
}

#[test]
fn coalescing_one_gib_identity() {
    let mut vs = empty_vspace();
    assert_eq!(vs.map_identity(0, GIB, MapAction::ReadWriteExecuteKernel), Ok(()));
    // PML4 and one PDPT: no page directory, no page table
    assert_eq!(vs.allocated_pages(), 2);
    let writes = vs.table_writes();
    assert_eq!(writes.len(), 2);
    assert_eq!(writes[0], (0x900_0000, 0x900_1000 | FLAG_P | FLAG_RW));
    assert_eq!(writes[1], (0x900_1000, FLAG_P | FLAG_PS | FLAG_RW));
    assert_eq!(vs.page_size_at(0), Some(HUGE_PAGE_SIZE));
    assert_eq!(vs.resolve_addr(GIB - 1), Some(GIB - 1));
    assert_eq!(vs.resolve_addr(GIB), None);
}

#[test]
fn mixed_coalescing_one_gib_and_one_page() {
    let mut vs = empty_vspace();
    assert_eq!(vs.map_identity(0, GIB + KIB4, MapAction::ReadWriteExecuteKernel), Ok(()));
    // PML4, PDPT, one page directory, one page table
    assert_eq!(vs.allocated_pages(), 4);
    let writes = vs.table_writes();
    assert_eq!(
        writes,
        vec![
            (0x900_0000, 0x900_1000 | FLAG_P | FLAG_RW),
            (0x900_1000, FLAG_P | FLAG_PS | FLAG_RW),
            (0x900_1008, 0x900_2000 | FLAG_P | FLAG_RW),
            (0x900_2000, 0x900_3000 | FLAG_P | FLAG_RW),
            (0x900_3000, GIB | FLAG_P | FLAG_RW),
        ]
    );
    assert_eq!(vs.page_size_at(0), Some(HUGE_PAGE_SIZE));
    assert_eq!(vs.page_size_at(GIB), Some(KIB4));
    assert_eq!(vs.resolve_addr(GIB), Some(GIB));
}

#[test]
fn user_rights_set_entry_bits() {
    let mut vs = empty_vspace();
    assert_eq!(vs.map_generic(0x1000, (0x8000, 0x1000), MapAction::ReadUser), Ok(()));
    let writes = vs.table_writes();
    let last = writes[writes.len() - 1];
    assert_eq!(last.1, 0x8000 | FLAG_P | 0x4 | 0x8000_0000_0000_0000);
}

#[test]
fn map_backs_range_with_aligned_arena_pages() {
    let mut vs = empty_vspace();
    assert_eq!(vs.map(0x40_0000, 0x2000, MapAction::ReadWriteKernel, 0x10000), Ok(()));
    // the arena had one page taken; the next 64 KiB boundary is 0x901_0000
    assert_eq!(vs.resolve_addr(0x40_0000), Some(0x901_0000));
    assert_eq!(vs.resolve_addr(0x40_1000), Some(0x901_1000));
}

#[test]
fn allocate_pages_aligned_rounds_up() {
    let mut vs = empty_vspace();
    assert_eq!(vs.allocate_pages_aligned(1, 0x4000), Ok(0x900_4000));
    // 1 + 4 pages taken after the PML4
    assert_eq!(vs.allocated_pages(), 6);
    assert_eq!(vs.allocate_pages_aligned(2000, 0x1000), Err(MapError::OutOfMemory));
    assert_eq!(vs.allocated_pages(), 6);
}

#[test]
fn out_of_table_pages_is_reported() {
    let mut vs = empty_vspace();
    // leave exactly one free page in the arena
    assert!(vs.allocate_pages_aligned(1022 - 1, 0x1000).is_ok());
    assert_eq!(vs.allocated_pages(), 1023);
    assert_eq!(
        vs.map_generic(0x1000, (0x1000, 0x1000), MapAction::ReadKernel),
        Err(MapError::OutOfMemory)
    );
    assert_eq!(vs.resolve_addr(0x1000), None);
}

#[test]
fn map_action_rights_table() {
    assert_eq!(MapAction::NoMap.to_pt_rights(), 0);
    assert_eq!(MapAction::ReadUser.to_pdpt_rights(), 0x8000_0000_0000_0004);
    assert_eq!(MapAction::ReadKernel.to_pd_rights(), 0x8000_0000_0000_0000);
    assert_eq!(MapAction::ReadWriteUser.to_pt_rights(), 0x8000_0000_0000_0006);
    assert_eq!(MapAction::ReadWriteKernel.to_pt_rights(), 0x8000_0000_0000_0002);
    assert_eq!(MapAction::ReadExecuteUser.to_pt_rights(), 0x4);
    assert_eq!(MapAction::ReadExecuteKernel.to_pt_rights(), 0);
    assert_eq!(MapAction::ReadWriteExecuteUser.to_pt_rights(), 0x6);
    assert_eq!(MapAction::ReadWriteExecuteKernel.to_pt_rights(), 0x2);
    assert_eq!(MapAction::ReadWriteExecuteKernel.to_str(), "kRWX");
    assert_eq!(MapAction::NoMap.to_str(), " ---");
    assert_eq!(MapAction::ReadUser.to_str(), "uR--");
}
