//! Data-structures to load descriptor tables.
use vstd::prelude::*;
use std::marker::PhantomData;

verus! {

/// A struct describing a pointer to a descriptor table (GDT / IDT).
/// This is in a format suitable for giving to 'lgdt' or 'lidt'.
pub struct DescriptorTablePointer<Entry> {
    /// Size of the DT, less one.
    pub limit: u16,
    /// Address of the memory region containing the DT.
    pub base: u64,
    pub phantom: PhantomData<Entry>,
}

impl<T> DescriptorTablePointer<T> {
    /// A pointer to the table `slice`, whose first entry is at address `base`.
    ///
    /// GDT, LDT, and IDT all expect the limit to be set to "one less" than the size.
    pub fn new(slice: &[T], base: u64) -> (r: Self)
        requires
            1 <= slice@.len() * vstd::layout::size_of::<T>() <= 0x10000,
        ensures
            r.limit == slice@.len() * vstd::layout::size_of::<T>() - 1,
            r.base == base,
    {
        let size = core::mem::size_of::<T>();
        let len = slice.len() * size - 1;
        DescriptorTablePointer { base, limit: len as u16, phantom: PhantomData }
    }
}

} // verus!
