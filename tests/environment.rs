use x86test::maps::{parse_hex, parse_maps_line};
use x86test::paging::MapAction;
use x86test::pmem::PhysicalMemory;
use x86test::vcpu::{
    code_segment, cr0_value, cr4_value, identity_map_user_region, initial_regs, is_user_region,
    long_mode_sregs, segment_template, Segment, EFER_LONG_MODE, PTABLES_BASE, STACK_BASE,
};
use x86test::vspace::VSpace;

#[test]
fn parse_maps_lines() {
    let line = b"55d4a3c00000-55d4a3c2a000 r--p 00000000 fd:01 1234 /usr/bin/test";
    assert_eq!(parse_maps_line(line), Some((0x55d4_a3c0_0000, 0x55d4_a3c2_a000)));
    let vsys = b"ffffffffff600000-ffffffffff601000 --xp 00000000 00:00 0 [vsyscall]";
    assert_eq!(parse_maps_line(vsys), Some((0xffff_ffff_ff60_0000, 0xffff_ffff_ff60_1000)));
    assert_eq!(parse_maps_line(b"7ffD0000-7FFE0000"), Some((0x7ffd_0000, 0x7ffe_0000)));
    assert_eq!(parse_maps_line(b"1000-2000-3000 rw-p"), Some((0x1000, 0x2000)));
    assert_eq!(parse_maps_line(b""), None);
    assert_eq!(parse_maps_line(b"1000 2000"), None);
    assert_eq!(parse_maps_line(b"-2000 r"), None);
    assert_eq!(parse_maps_line(b"1000- r"), None);
    assert_eq!(parse_maps_line(b"10g0-2000 r"), None);
    assert_eq!(parse_maps_line(b"10000000000000000-2 r"), None);
}

#[test]
fn parse_hex_values() {
    assert_eq!(parse_hex(b"ffffffffffffffff", 0, 16), Some(u64::MAX));
    assert_eq!(parse_hex(b"x1aZ", 1, 3), Some(0x1a));
    assert_eq!(parse_hex(b"abc", 1, 1), None);
}

#[test]
fn long_mode_control_registers() {
    assert_eq!(cr0_value(), 0x8005_0033);
    assert_eq!(cr4_value(), 0x14_06b1);
    let s = long_mode_sregs(PTABLES_BASE);
    assert_eq!(s.cr3, 0x900_0000);
    assert_eq!(s.efer, 0xd01);
    assert_eq!(EFER_LONG_MODE, 0xd01);
    assert_eq!(s.cs, code_segment());
    assert_eq!(s.data, segment_template());
}

#[test]
fn long_mode_segments() {
    let cs = code_segment();
    assert_eq!(
        cs,
        Segment {
            base: 0,
            limit: 0xffff_ffff,
            selector: 8,
            seg_type: 0xb,
            present: 1,
            dpl: 0,
            db: 0,
            s: 1,
            l: 1,
            g: 1,
            avl: 0
        }
    );
    let ds = segment_template();
    assert_eq!((ds.base, ds.limit, ds.g, ds.l, ds.db, ds.selector), (0, 0xffff_ffff, 1, 0, 0, 0));
    assert_eq!((ds.present, ds.s, ds.dpl, ds.seg_type), (1, 1, 0, 0));
}

#[test]
fn initial_registers() {
    let r = initial_regs(0x55d4_a3c0_1230, STACK_BASE, 0x40_0000);
    assert_eq!(r.rip, 0x55d4_a3c0_1230);
    assert_eq!(r.rflags, 0x246);
    assert_eq!(r.rsp, 0x33f_fff8);
    assert_eq!(r.rbp, 0x33f_fff8);
}

#[test]
fn user_regions_are_identity_mapped() {
    let mut vs = VSpace::new(PhysicalMemory::new(PTABLES_BASE)).unwrap();
    assert!(is_user_region(0x7ffd_0000_0000, 0x8000_0000_0000));
    assert!(!is_user_region(0xffff_ffff_ff60_0000, 0xffff_ffff_ff60_1000));
    assert_eq!(identity_map_user_region(&mut vs, 0x55d4_a3c0_0000, 0x55d4_a3c2_a000), Ok(true));
    assert_eq!(vs.resolve_addr(0x55d4_a3c2_9abc), Some(0x55d4_a3c2_9abc));
    assert_eq!(
        identity_map_user_region(&mut vs, 0xffff_ffff_ff60_0000, 0xffff_ffff_ff60_1000),
        Ok(false)
    );
    assert_eq!(vs.resolve_addr(0xffff_ffff_ff60_0000), None);
    assert_eq!(identity_map_user_region(&mut vs, 0x1000, 0x1000), Ok(false));
    let pages = vs.allocated_pages();
    assert_eq!(identity_map_user_region(&mut vs, 0x55d4_a3c0_0000, 0x55d4_a3c0_1000), Ok(true));
    assert_eq!(vs.allocated_pages(), pages);
    let _ = MapAction::ReadWriteExecuteKernel;
}
