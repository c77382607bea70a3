use x86test::pmem::{OutOfMemory, PhysicalMemory, REGION_SIZE};

#[test]
fn alloc_pages_hands_out_consecutive_chunks() {
    let mut m = PhysicalMemory::new(0x300_0000);
    assert_eq!(m.len(), REGION_SIZE);
    assert_eq!(m.alloc_pages(1), Ok(0x300_0000));
    assert_eq!(m.alloc_pages(3), Ok(0x300_1000));
    assert_eq!(m.alloc_pages(2), Ok(0x300_4000));
    assert_eq!(m.allocated(), 0x6000);
}

#[test]
fn alloc_pages_never_overlaps_and_stays_in_region() {
    let mut m = PhysicalMemory::new(0x600_0000);
    let mut chunks: Vec<(u64, u64)> = Vec::new();
    let sizes = [1u64, 7, 16, 100, 3, 1];
    for n in sizes.iter() {
        let a = m.alloc_pages(*n).unwrap();
        chunks.push((a, a + n * 0x1000));
    }
    for (i, a) in chunks.iter().enumerate() {
        assert!(a.0 >= 0x600_0000 && a.1 <= 0x600_0000 + REGION_SIZE as u64);
        for b in chunks.iter().skip(i + 1) {
            assert!(a.1 <= b.0);
        }
    }
    let total: u64 = chunks.iter().map(|c| c.1 - c.0).sum();
    assert!(total <= REGION_SIZE as u64);
}

#[test]
fn alloc_pages_out_of_memory() {
    let mut m = PhysicalMemory::new(0x900_0000);
    assert_eq!(m.alloc_pages(1024), Ok(0x900_0000));
    assert_eq!(m.alloc_pages(1), Err(OutOfMemory));
    assert_eq!(m.allocated(), REGION_SIZE);
    let mut m2 = PhysicalMemory::new(0x900_0000);
    assert_eq!(m2.alloc_pages(1025), Err(OutOfMemory));
    assert_eq!(m2.allocated(), 0);
    assert_eq!(m2.alloc_pages(0), Ok(0x900_0000));
}
