//! Data-structures for working with descriptor tables.
use std::marker::PhantomData;
use vstd::prelude::*;

verus! {

/// A struct describing a pointer to a descriptor table (GDT / IDT): the
/// table's base address and its limit, one less than its size in bytes.
/// This is the format that 'lgdt' or 'lidt' take.
pub struct DescriptorTablePointer<Entry> {
    /// Size of the DT.
    limit: u16,
    /// Address of the memory region containing the DT.
    base: u64,
    phantom: PhantomData<Entry>,
}

impl<T> DescriptorTablePointer<T> {
    /// The limit field: one less than the table's size in bytes.
    pub closed spec fn spec_limit(&self) -> u16 {
        self.limit
    }

    /// The base address field.
    pub closed spec fn spec_base(&self) -> u64 {
        self.base
    }

    /// A pointer to the table `_tbl`, a single `T` that starts at address `base`.
    ///
    /// GDT, LDT, and IDT all expect the limit to be set to "one less" than the size.
    pub fn new(_tbl: &T, base: u64) -> (r: Self)
        requires
            1 <= vstd::layout::size_of::<T>() <= 0x10000,
        ensures
            r.spec_limit() == vstd::layout::size_of::<T>() - 1,
            r.spec_base() == base,
    {
        let len = core::mem::size_of::<T>() - 1;
        DescriptorTablePointer { base, limit: len as u16, phantom: PhantomData }
    }

    /// A pointer to the table `slice`, whose first entry is at address `base`.
    pub fn new_from_slice(slice: &[T], base: u64) -> (r: Self)
        requires
            1 <= slice@.len() * vstd::layout::size_of::<T>() <= 0x10000,
        ensures
            r.spec_limit() == slice@.len() * vstd::layout::size_of::<T>() - 1,
            r.spec_base() == base,
    {
        let size = core::mem::size_of::<T>();
        proof {
            assert(slice@.len() * size <= 0x10000);
        }
        let len = slice.len() * size - 1;
        DescriptorTablePointer { base, limit: len as u16, phantom: PhantomData }
    }

    /// The limit field: one less than the table's size in bytes.
    pub fn limit(&self) -> (r: u16)
        ensures
            r == self.spec_limit(),
    {
        self.limit
    }

    /// The base address field.
    pub fn base(&self) -> (r: u64)
        ensures
            r == self.spec_base(),
    {
        self.base
    }
}

impl<T> Default for DescriptorTablePointer<T> {
    /// A pointer with base 0 and limit 0.
    fn default() -> (r: Self)
        ensures
            r.spec_limit() == 0,
            r.spec_base() == 0,
    {
        DescriptorTablePointer { limit: 0, base: 0, phantom: PhantomData }
    }
}

} // verus!
