//! x2APIC, the most recent APIC on x86 for large servers with more than 255 cores.
use vstd::prelude::*;

verus! {

/// Bit of IA32_APIC_BASE that marks the bootstrap processor.
pub const APIC_BASE_BSP_BIT: u64 = 8;
/// Bit of IA32_APIC_BASE that enables x2APIC mode.
pub const APIC_BASE_X2APIC_ENABLE_BIT: u64 = 10;
/// Bit of IA32_APIC_BASE that enables the xAPIC.
pub const APIC_BASE_XAPIC_ENABLE_BIT: u64 = 11;

/// `x` with bit `bit` set to `value`.
pub open spec fn with_bit(x: u64, bit: u64, value: bool) -> u64 {
    if value {
        x | (1u64 << bit)
    } else {
        x & !(1u64 << bit)
    }
}

/// Set or clear one bit of a 64-bit value.
fn set_bit(x: u64, bit: u64, value: bool) -> (r: u64)
    requires
        bit < 64,
    ensures
        r == with_bit(x, bit, value),
{
    if value {
        x | (1u64 << bit)
    } else {
        x & !(1u64 << bit)
    }
}

/// Represents an x2APIC driver instance: the value of its IA32_APIC_BASE MSR.
#[derive(Debug)]
pub struct X2APIC {
    /// Initial BASE msr register value.
    base: u64,
}

impl X2APIC {
    /// The IA32_APIC_BASE value this driver holds.
    pub closed spec fn spec_base(&self) -> u64 {
        self.base
    }

    /// A driver object for a core whose IA32_APIC_BASE MSR reads `base`.
    pub fn new(base: u64) -> (r: X2APIC)
        ensures
            r.spec_base() == base,
    {
        X2APIC { base }
    }

    /// The IA32_APIC_BASE value this driver holds.
    pub fn base(&self) -> (r: u64)
        ensures
            r == self.spec_base(),
    {
        self.base
    }

    /// Attach to the APIC whose IA32_APIC_BASE currently reads `base`:
    /// enable x2APIC and xAPIC mode. Returns the value to write back.
    pub fn attach(&mut self, base: u64) -> (r: u64)
        ensures
            r == with_bit(with_bit(base, 10, true), 11, true),
            final(self).spec_base() == r,
    {
        let b = set_bit(base, APIC_BASE_X2APIC_ENABLE_BIT, true);
        self.base = set_bit(b, APIC_BASE_XAPIC_ENABLE_BIT, true);
        self.base
    }

    /// Detach from the APIC whose IA32_APIC_BASE currently reads `base`:
    /// disable x2APIC and xAPIC mode. Returns the value to write back.
    pub fn detach(&mut self, base: u64) -> (r: u64)
        ensures
            r == with_bit(with_bit(base, 10, false), 11, false),
            final(self).spec_base() == r,
    {
        let b = set_bit(base, APIC_BASE_X2APIC_ENABLE_BIT, false);
        self.base = set_bit(b, APIC_BASE_XAPIC_ENABLE_BIT, false);
        self.base
    }

    /// Is a bootstrap processor?
    pub fn bsp(&self) -> (r: bool)
        ensures
            r == (self.spec_base() & (1u64 << 8u64) != 0),
    {
        (self.base & (1u64 << APIC_BASE_BSP_BIT)) != 0
    }

    /// The LVT LINT0 value written on attach: masked, level triggered,
    /// ExtINT delivery, vector 0x20.
    pub fn lint0_value() -> (r: u64)
        ensures
            r == (1u64 << 16u64) | (1u64 << 15u64) | (7u64 << 8u64) | 0x20u64,
    {
        (1u64 << 16u64) | (1u64 << 15u64) | (7u64 << 8u64) | 0x20u64
    }

    /// The LVT timer value that enables TSC-deadline mode, from its current value `lvt`.
    pub fn tsc_enable_lvt(lvt: u64) -> (r: u64)
        ensures
            r == with_bit(with_bit(lvt, 17, false), 18, true),
    {
        let l = set_bit(lvt, 17, false);
        set_bit(l, 18, true)
    }
}

} // verus!
