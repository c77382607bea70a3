use x86test::apic::x2apic::X2APIC;
use x86test::apic::{
    ApicId, DeliveryMode, DeliveryStatus, DestinationMode, DestinationShorthand, Icr, Level,
    TriggerMode,
};
use x86test::bits64::task::TaskStateSegment;
use x86test::bits64::vmx::{vmx_capture_status, VmFail};
use x86test::dtables::DescriptorTablePointer;
use x86test::shared::dtables::DescriptorTablePointer as SharedDescriptorTablePointer;

#[test]
fn icr_fields_are_placed() {
    let icr = Icr::new(
        0x30,
        ApicId::XApic(2),
        DestinationShorthand::NoShorthand,
        DeliveryMode::Fixed,
        DestinationMode::Physical,
        DeliveryStatus::Idle,
        Level::Assert,
        TriggerMode::Edge,
    );
    assert_eq!(icr.lower(), 0x4030);
    assert_eq!(icr.upper(), 0x0200_0000);
}

#[test]
fn icr_startup_all_excluding_self() {
    let icr = Icr::new(
        0x8,
        ApicId::XApic(0xff),
        DestinationShorthand::AllExcludingSelf,
        DeliveryMode::StartUp,
        DestinationMode::Logical,
        DeliveryStatus::SendPending,
        Level::Deassert,
        TriggerMode::Level,
    );
    // shorthand 0b11 << 18, trigger << 15, status << 12, logical << 11, 0b110 << 8
    assert_eq!(icr.lower(), 0xc_0000 | 0x8000 | 0x1000 | 0x800 | 0x600 | 0x8);
    assert_eq!(icr.upper(), 0xff00_0000);
    let init = Icr::new(
        0,
        ApicId::XApic(1),
        DestinationShorthand::Myself,
        DeliveryMode::Init,
        DestinationMode::Physical,
        DeliveryStatus::Idle,
        Level::Assert,
        TriggerMode::Edge,
    );
    assert_eq!(init.lower(), 0x4_0000 | 0x4000 | 0x500);
    assert_eq!(init.upper(), 0x0100_0000);
}

#[test]
fn x2apic_base_bits() {
    let mut apic = X2APIC::new(0xfee0_0100);
    assert!(apic.bsp());
    assert_eq!(apic.attach(0xfee0_0000), 0xfee0_0c00);
    assert_eq!(apic.base(), 0xfee0_0c00);
    assert!(!apic.bsp());
    assert_eq!(apic.detach(0xfee0_0d00), 0xfee0_0100);
    assert!(apic.bsp());
    assert_eq!(X2APIC::lint0_value(), 0x1_8720);
    assert_eq!(X2APIC::tsc_enable_lvt(0x2_0030), 0x4_0030);
}

#[test]
fn descriptor_table_pointer_limits() {
    let gdt = [0u64; 8];
    let p: DescriptorTablePointer<u64> = DescriptorTablePointer::new_from_slice(&gdt, 0x1000);
    assert_eq!(p.limit(), 63);
    assert_eq!(p.base(), 0x1000);
    let one = 5u32;
    let q = DescriptorTablePointer::new(&one, 0x2000);
    assert_eq!(q.limit(), 3);
    assert_eq!(q.base(), 0x2000);
    let d: DescriptorTablePointer<u64> = Default::default();
    assert_eq!((d.limit(), d.base()), (0, 0));
    let idt = [0u128; 256];
    let s = SharedDescriptorTablePointer::new(&idt, 0xdead_0000);
    assert_eq!(s.limit, 0xfff);
    assert_eq!(s.base, 0xdead_0000);
}

#[test]
fn task_state_segment_starts_zeroed() {
    let tss = TaskStateSegment::new();
    let reserved = tss.reserved;
    let rsp = tss.rsp;
    let ist = tss.ist;
    let iomap = tss.iomap_base;
    assert_eq!(reserved, 0);
    assert_eq!(rsp, [0; 3]);
    assert_eq!(ist, [0; 7]);
    assert_eq!(iomap, 0);
}

#[test]
fn vmx_status_from_rflags() {
    assert_eq!(vmx_capture_status(0x2), Ok(()));
    assert_eq!(vmx_capture_status(0x2 | 0x40), Err(VmFail::VmFailValid));
    assert_eq!(vmx_capture_status(0x2 | 0x1), Err(VmFail::VmFailInvalid));
    assert_eq!(vmx_capture_status(0x41), Err(VmFail::VmFailValid));
}
