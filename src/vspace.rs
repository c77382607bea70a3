//! A guest virtual address space: 4-level x86-64 page tables built with the
//! largest page size that alignment and length allow.
use vstd::prelude::*;
use vstd::arithmetic::div_mod::{
    lemma_div_denominator, lemma_fundamental_div_mod, lemma_mod_multiples_basic,
};

use crate::paging::{
    BASE_PAGE_SIZE, ENTRIES_PER_TABLE, FLAG_P, FLAG_PS, FLAG_RW, HUGE_PAGE_SIZE, LARGE_PAGE_SIZE,
    MapAction, PADDR_LIMIT, PML4_SLOT_SIZE, is_power_of_two, make_entry, spec_entry,
    VADDR_LIMIT, pd_index, pdpt_index, pml4_index, pt_index, spec_pd_index, spec_pdpt_index,
    spec_pml4_index, spec_pt_index,
};
use crate::pmem::{OutOfMemory, PhysicalMemory};

verus! {

/// A mapped frame: its physical base and the rights it is mapped with.
#[derive(Debug, PartialEq, Eq, Structural, Copy, Clone)]
pub struct Leaf {
    pub paddr: u64,
    pub rights: MapAction,
}

/// A page table: 512 entries that each map a 4 KiB page or nothing.
pub struct PageTable {
    /// Physical address of the page that holds this table.
    pub paddr: u64,
    pub entries: Vec<Option<Leaf>>,
}

/// An entry of a page directory.
pub enum PdEntry {
    Empty,
    /// A 2 MiB page.
    Large(Leaf),
    Table(PageTable),
}

/// A page directory: 512 entries of 2 MiB each.
pub struct PageDirectory {
    pub paddr: u64,
    pub entries: Vec<PdEntry>,
}

/// An entry of a page-directory-pointer table.
pub enum PdptEntry {
    Empty,
    /// A 1 GiB page.
    Huge(Leaf),
    Table(PageDirectory),
}

/// A page-directory-pointer table: 512 entries of 1 GiB each.
pub struct Pdpt {
    pub paddr: u64,
    pub entries: Vec<PdptEntry>,
}

/// An entry of the PML4.
pub enum Pml4Entry {
    Empty,
    Table(Pdpt),
}

/// Why a mapping request was not completed.
#[derive(Debug, PartialEq, Eq, Structural, Copy, Clone)]
pub enum MapError {
    /// The page-table arena has no page left for a new table.
    OutOfMemory,
    /// A 1 GiB or 2 MiB page already covers the given virtual address.
    AlreadyMapped(u64),
}

/// A leaf of `size` bytes: aligned, inside physical memory, with rights.
pub open spec fn leaf_ok(l: Leaf, size: int) -> bool {
    &&& l.paddr as int % size == 0
    &&& l.paddr + size <= PADDR_LIMIT
    &&& l.rights != MapAction::NoMap
}

/// A table page taken from the arena part `[lo, hi)`.
pub open spec fn table_ok(paddr: u64, lo: int, hi: int) -> bool {
    &&& paddr as int % BASE_PAGE_SIZE as int == 0
    &&& lo <= paddr
    &&& paddr + BASE_PAGE_SIZE <= hi
}

pub open spec fn pt_wf(t: PageTable, lo: int, hi: int) -> bool {
    &&& table_ok(t.paddr, lo, hi)
    &&& t.entries@.len() == 512
    &&& forall|i: int|
        0 <= i < 512 && (#[trigger] t.entries@[i]) is Some ==> leaf_ok(
            t.entries@[i]->Some_0,
            BASE_PAGE_SIZE as int,
        )
}

pub open spec fn pd_entry_wf(e: PdEntry, lo: int, hi: int) -> bool {
    match e {
        PdEntry::Empty => true,
        PdEntry::Large(l) => leaf_ok(l, LARGE_PAGE_SIZE as int),
        PdEntry::Table(t) => pt_wf(t, lo, hi),
    }
}

pub open spec fn pd_wf(d: PageDirectory, lo: int, hi: int) -> bool {
    &&& table_ok(d.paddr, lo, hi)
    &&& d.entries@.len() == 512
    &&& forall|i: int| 0 <= i < 512 ==> pd_entry_wf(#[trigger] d.entries@[i], lo, hi)
}

pub open spec fn pdpt_entry_wf(e: PdptEntry, lo: int, hi: int) -> bool {
    match e {
        PdptEntry::Empty => true,
        PdptEntry::Huge(l) => leaf_ok(l, HUGE_PAGE_SIZE as int),
        PdptEntry::Table(d) => pd_wf(d, lo, hi),
    }
}

pub open spec fn pdpt_wf(p: Pdpt, lo: int, hi: int) -> bool {
    &&& table_ok(p.paddr, lo, hi)
    &&& p.entries@.len() == 512
    &&& forall|i: int| 0 <= i < 512 ==> pdpt_entry_wf(#[trigger] p.entries@[i], lo, hi)
}

pub open spec fn pml4_entry_wf(e: Pml4Entry, lo: int, hi: int) -> bool {
    match e {
        Pml4Entry::Empty => true,
        Pml4Entry::Table(p) => pdpt_wf(p, lo, hi),
    }
}

/// Translation through a page table.
pub open spec fn pt_translate(t: PageTable, va: int) -> Option<int> {
    match t.entries@[spec_pt_index(va)] {
        Some(l) => Some(l.paddr + va % BASE_PAGE_SIZE as int),
        None => None,
    }
}

/// Translation through a page directory.
pub open spec fn pd_translate(d: PageDirectory, va: int) -> Option<int> {
    match d.entries@[spec_pd_index(va)] {
        PdEntry::Empty => None,
        PdEntry::Large(l) => Some(l.paddr + va % LARGE_PAGE_SIZE as int),
        PdEntry::Table(t) => pt_translate(t, va),
    }
}

/// Translation through a page-directory-pointer table.
pub open spec fn pdpt_translate(p: Pdpt, va: int) -> Option<int> {
    match p.entries@[spec_pdpt_index(va)] {
        PdptEntry::Empty => None,
        PdptEntry::Huge(l) => Some(l.paddr + va % HUGE_PAGE_SIZE as int),
        PdptEntry::Table(d) => pd_translate(d, va),
    }
}

/// A 2 MiB page of the directory covers `va`.
pub open spec fn pd_large(d: PageDirectory, va: int) -> bool {
    d.entries@[spec_pd_index(va)] is Large
}

/// A 1 GiB page of the table, or a 2 MiB page below it, covers `va`.
pub open spec fn pdpt_large(p: Pdpt, va: int) -> bool {
    match p.entries@[spec_pdpt_index(va)] {
        PdptEntry::Empty => false,
        PdptEntry::Huge(_) => true,
        PdptEntry::Table(d) => pd_large(d, va),
    }
}

/// The size of the page of the directory that maps `va`, if one does.
pub open spec fn pd_leaf_size(d: PageDirectory, va: int) -> Option<int> {
    match d.entries@[spec_pd_index(va)] {
        PdEntry::Empty => None,
        PdEntry::Large(_) => Some(LARGE_PAGE_SIZE as int),
        PdEntry::Table(t) => if t.entries@[spec_pt_index(va)] is Some {
            Some(BASE_PAGE_SIZE as int)
        } else {
            None
        },
    }
}

/// The size of the page of the PDPT that maps `va`, if one does.
pub open spec fn pdpt_leaf_size(p: Pdpt, va: int) -> Option<int> {
    match p.entries@[spec_pdpt_index(va)] {
        PdptEntry::Empty => None,
        PdptEntry::Huge(_) => Some(HUGE_PAGE_SIZE as int),
        PdptEntry::Table(d) => pd_leaf_size(d, va),
    }
}

/// The start of the aligned `size`-byte slot that holds `va`.
pub open spec fn slot_start(va: int, size: int) -> int {
    (va / size) * size
}

/// A page of `size` bytes (a power of two) may map `va` for a request to
/// map `[vbase, vbase + len)` at `pbase`: the aligned page around `va` lies
/// inside the range, and the physical base is aligned like the virtual one.
pub open spec fn page_fits(vbase: int, pbase: int, len: int, va: int, size: int) -> bool {
    let start = slot_start(va, size);
    &&& vbase <= start
    &&& start + size <= vbase + len
    &&& (pbase - vbase) % size == 0
}

/// A page installed for `va` by a request for `[vbase, vbase + len)` at
/// `pbase`: a 1 GiB or 2 MiB page only where it fits.
pub open spec fn size_fits(vbase: int, pbase: int, len: int, va: int, size: Option<int>) -> bool {
    &&& size == Some(HUGE_PAGE_SIZE as int) ==> page_fits(vbase, pbase, len, va, HUGE_PAGE_SIZE as int)
    &&& size == Some(LARGE_PAGE_SIZE as int) ==> page_fits(vbase, pbase, len, va, LARGE_PAGE_SIZE as int)
}

/// The slot of the directory for `va` holds nothing.
pub open spec fn pd_slot_free(d: PageDirectory, va: int) -> bool {
    d.entries@[spec_pd_index(va)] is Empty
}

/// The slot of the PDPT for `va` holds nothing.
pub open spec fn pdpt_slot_free(p: Pdpt, va: int) -> bool {
    p.entries@[spec_pdpt_index(va)] is Empty
}

/// No page or table occupies the directory slot of `va` below the PDPT.
pub open spec fn pdpt_pd_free(p: Pdpt, va: int) -> bool {
    match p.entries@[spec_pdpt_index(va)] {
        PdptEntry::Empty => true,
        PdptEntry::Huge(_) => false,
        PdptEntry::Table(d) => pd_slot_free(d, va),
    }
}

/// The page size that a request for `[vbase, vbase + len)` at `pbase`
/// picks for `va`: 1 GiB where its 1 GiB slot is free (`free_huge`) and the
/// page fits, else 2 MiB where its 2 MiB slot is free and the page fits,
/// else 4 KiB.
pub open spec fn pick_size(free_huge: bool, free_large: bool, vbase: int, pbase: int, len: int, va: int) -> int {
    if free_huge && page_fits(vbase, pbase, len, va, HUGE_PAGE_SIZE as int) {
        HUGE_PAGE_SIZE as int
    } else if free_large && page_fits(vbase, pbase, len, va, LARGE_PAGE_SIZE as int) {
        LARGE_PAGE_SIZE as int
    } else {
        BASE_PAGE_SIZE as int
    }
}

/// The rights of the 4 KiB page of the table that maps `va`, if any.
pub open spec fn pt_rights(t: PageTable, va: int) -> Option<MapAction> {
    match t.entries@[spec_pt_index(va)] {
        Some(l) => Some(l.rights),
        None => None,
    }
}

/// The rights of the page of the directory that maps `va`, if any.
pub open spec fn pd_rights(d: PageDirectory, va: int) -> Option<MapAction> {
    match d.entries@[spec_pd_index(va)] {
        PdEntry::Empty => None,
        PdEntry::Large(l) => Some(l.rights),
        PdEntry::Table(t) => pt_rights(t, va),
    }
}

/// The rights of the page of the PDPT that maps `va`, if any.
pub open spec fn pdpt_rights(p: Pdpt, va: int) -> Option<MapAction> {
    match p.entries@[spec_pdpt_index(va)] {
        PdptEntry::Empty => None,
        PdptEntry::Huge(l) => Some(l.rights),
        PdptEntry::Table(d) => pd_rights(d, va),
    }
}

/// `t` is `t0` with leaves added in empty slots only, each with `rights`.
pub open spec fn pt_grows(t0: PageTable, t: PageTable, rights: MapAction) -> bool {
    &&& t.paddr == t0.paddr
    &&& forall|k: int|
        0 <= k < 512 ==> (t0.entries@[k] is Some ==> #[trigger] t.entries@[k] == t0.entries@[k]) && (
        t0.entries@[k] is None && t.entries@[k] is Some ==> t.entries@[k]->Some_0.rights == rights)
}

/// `t` is a table taken from the arena at or above `hi0`, whose leaves all
/// have `rights`.
pub open spec fn pt_new(t: PageTable, rights: MapAction, hi0: int) -> bool {
    &&& t.paddr >= hi0
    &&& forall|k: int|
        0 <= k < 512 && (#[trigger] t.entries@[k]) is Some ==> t.entries@[k]->Some_0.rights == rights
}

/// A directory slot grows from `e0` to `e`: a 2 MiB page stays as it is,
/// a table stays at its address and grows, and an empty slot stays empty,
/// gets a 2 MiB page with `rights`, or a new table (`pt_new`).
pub open spec fn pd_entry_grows(e0: PdEntry, e: PdEntry, rights: MapAction, hi0: int) -> bool {
    match e0 {
        PdEntry::Large(_) => e == e0,
        PdEntry::Table(t0) => e is Table && pt_grows(t0, e->Table_0, rights),
        PdEntry::Empty => match e {
            PdEntry::Empty => true,
            PdEntry::Large(l) => l.rights == rights,
            PdEntry::Table(t) => pt_new(t, rights, hi0),
        },
    }
}

/// Every slot of the directory grows from `d0` to `d` (`pd_entry_grows`).
pub open spec fn pd_grows(d0: PageDirectory, d: PageDirectory, rights: MapAction, hi0: int) -> bool {
    &&& d.paddr == d0.paddr
    &&& forall|i: int|
        0 <= i < 512 ==> pd_entry_grows(d0.entries@[i], #[trigger] d.entries@[i], rights, hi0)
}

/// `d` is a directory taken from the arena at or above `hi0`, holding only
/// what a request with `rights` adds to empty slots.
pub open spec fn pd_new(d: PageDirectory, rights: MapAction, hi0: int) -> bool {
    &&& d.paddr >= hi0
    &&& forall|i: int|
        0 <= i < 512 ==> pd_entry_grows(PdEntry::Empty, #[trigger] d.entries@[i], rights, hi0)
}

/// A PDPT slot grows from `e0` to `e`, as `pd_entry_grows` one level up.
pub open spec fn pdpt_entry_grows(e0: PdptEntry, e: PdptEntry, rights: MapAction, hi0: int) -> bool {
    match e0 {
        PdptEntry::Huge(_) => e == e0,
        PdptEntry::Table(d0) => e is Table && pd_grows(d0, e->Table_0, rights, hi0),
        PdptEntry::Empty => match e {
            PdptEntry::Empty => true,
            PdptEntry::Huge(l) => l.rights == rights,
            PdptEntry::Table(d) => pd_new(d, rights, hi0),
        },
    }
}

/// Every slot of the PDPT grows from `p0` to `p`.
pub open spec fn pdpt_grows(p0: Pdpt, p: Pdpt, rights: MapAction, hi0: int) -> bool {
    &&& p.paddr == p0.paddr
    &&& forall|i: int|
        0 <= i < 512 ==> pdpt_entry_grows(p0.entries@[i], #[trigger] p.entries@[i], rights, hi0)
}

/// `p` is a PDPT taken from the arena at or above `hi0`, holding only what
/// a request with `rights` adds to empty slots.
pub open spec fn pdpt_new(p: Pdpt, rights: MapAction, hi0: int) -> bool {
    &&& p.paddr >= hi0
    &&& forall|i: int|
        0 <= i < 512 ==> pdpt_entry_grows(PdptEntry::Empty, #[trigger] p.entries@[i], rights, hi0)
}

/// A PML4 slot grows from `e0` to `e`.
pub open spec fn pml4_entry_grows(e0: Pml4Entry, e: Pml4Entry, rights: MapAction, hi0: int) -> bool {
    match e0 {
        Pml4Entry::Table(p0) => e is Table && pdpt_grows(p0, e->Table_0, rights, hi0),
        Pml4Entry::Empty => match e {
            Pml4Entry::Empty => true,
            Pml4Entry::Table(p) => pdpt_new(p, rights, hi0),
        },
    }
}

/// Page tables below the first `n` slots of a directory.
pub open spec fn pd_tables(e: Seq<PdEntry>, n: int) -> int
    decreases n,
{
    if n <= 0 {
        0
    } else {
        pd_tables(e, n - 1) + if e[n - 1] is Table {
            1int
        } else {
            0int
        }
    }
}

/// Tables in the subtree of one PDPT slot: a directory and its page tables.
pub open spec fn pdpt_entry_tables(e: PdptEntry) -> int {
    match e {
        PdptEntry::Table(d) => 1 + pd_tables(d.entries@, 512),
        _ => 0,
    }
}

/// Tables below the first `n` slots of a PDPT.
pub open spec fn pdpt_tables(e: Seq<PdptEntry>, n: int) -> int
    decreases n,
{
    if n <= 0 {
        0
    } else {
        pdpt_tables(e, n - 1) + pdpt_entry_tables(e[n - 1])
    }
}

/// Tables in the subtree of one PML4 slot: a PDPT and everything below it.
pub open spec fn pml4_entry_tables(e: Pml4Entry) -> int {
    match e {
        Pml4Entry::Table(p) => 1 + pdpt_tables(p.entries@, 512),
        _ => 0,
    }
}

/// Tables below the first `n` slots of the PML4.
pub open spec fn pml4_tables(e: Seq<Pml4Entry>, n: int) -> int
    decreases n,
{
    if n <= 0 {
        0
    } else {
        pml4_tables(e, n - 1) + pml4_entry_tables(e[n - 1])
    }
}

proof fn lemma_pd_tables_update(a: Seq<PdEntry>, b: Seq<PdEntry>, k: int, n: int)
    requires
        0 <= k < a.len(),
        0 <= n <= a.len(),
        b == a.update(k, b[k]),
    ensures
        pd_tables(b, n) == pd_tables(a, n) + if k < n {
            (if b[k] is Table { 1int } else { 0int }) - (if a[k] is Table { 1int } else { 0int })
        } else {
            0
        },
    decreases n,
{
    if n > 0 {
        lemma_pd_tables_update(a, b, k, n - 1);
    }
}

proof fn lemma_pd_tables_same(a: Seq<PdEntry>, b: Seq<PdEntry>, n: int)
    requires
        0 <= n <= a.len(),
        n <= b.len(),
        forall|i: int| 0 <= i < n ==> (#[trigger] a[i] is Table) == (b[i] is Table),
    ensures
        pd_tables(b, n) == pd_tables(a, n),
    decreases n,
{
    if n > 0 {
        lemma_pd_tables_same(a, b, n - 1);
    }
}

proof fn lemma_pd_tables_zero(a: Seq<PdEntry>, n: int)
    requires
        0 <= n <= a.len(),
        forall|i: int| 0 <= i < n ==> (#[trigger] a[i]) is Empty,
    ensures
        pd_tables(a, n) == 0,
    decreases n,
{
    if n > 0 {
        lemma_pd_tables_zero(a, n - 1);
    }
}

proof fn lemma_pdpt_tables_zero(a: Seq<PdptEntry>, n: int)
    requires
        0 <= n <= a.len(),
        forall|i: int| 0 <= i < n ==> (#[trigger] a[i]) is Empty,
    ensures
        pdpt_tables(a, n) == 0,
    decreases n,
{
    if n > 0 {
        lemma_pdpt_tables_zero(a, n - 1);
    }
}

proof fn lemma_pdpt_tables_update(a: Seq<PdptEntry>, b: Seq<PdptEntry>, k: int, n: int)
    requires
        0 <= k < a.len(),
        0 <= n <= a.len(),
        b == a.update(k, b[k]),
    ensures
        pdpt_tables(b, n) == pdpt_tables(a, n) + if k < n {
            pdpt_entry_tables(b[k]) - pdpt_entry_tables(a[k])
        } else {
            0
        },
    decreases n,
{
    if n > 0 {
        lemma_pdpt_tables_update(a, b, k, n - 1);
    }
}

proof fn lemma_pdpt_tables_same(a: Seq<PdptEntry>, b: Seq<PdptEntry>, n: int)
    requires
        0 <= n <= a.len(),
        n <= b.len(),
        forall|i: int| 0 <= i < n ==> #[trigger] pdpt_entry_tables(a[i]) == pdpt_entry_tables(b[i]),
    ensures
        pdpt_tables(b, n) == pdpt_tables(a, n),
    decreases n,
{
    if n > 0 {
        lemma_pdpt_tables_same(a, b, n - 1);
    }
}

proof fn lemma_pml4_tables_update(a: Seq<Pml4Entry>, b: Seq<Pml4Entry>, k: int, n: int)
    requires
        0 <= k < a.len(),
        0 <= n <= a.len(),
        b == a.update(k, b[k]),
    ensures
        pml4_tables(b, n) == pml4_tables(a, n) + if k < n {
            pml4_entry_tables(b[k]) - pml4_entry_tables(a[k])
        } else {
            0
        },
    decreases n,
{
    if n > 0 {
        lemma_pml4_tables_update(a, b, k, n - 1);
    }
}

/// What a request to map `[vbase, vbase + len)` at `pbase` leaves `va`
/// translating to, given its translation `before`: unmapped addresses in
/// the range get their place in the physical range, others stay as they are.
pub open spec fn after_map(before: Option<int>, vbase: int, pbase: int, len: int, va: int) -> Option<
    int,
> {
    if vbase <= va < vbase + len && before is None {
        Some(pbase + va - vbase)
    } else {
        before
    }
}

/// Multiples of `size` in `(v, v + n)`: slot starts that a range from `v`
/// of `n > 0` bytes crosses.
pub open spec fn slot_starts(v: int, n: int, size: int) -> int {
    (v + n - 1) / size - v / size
}

/// Slots of `size` bytes, starting inside `(v, v + n)`, that a request with
/// physical base `p` may have to split into smaller pages: all of them when
/// `p` is not aligned like `v` modulo `size`, else only a last one that the
/// range ends inside.
pub open spec fn split_slots(v: int, p: int, n: int, size: int) -> int {
    if (p - v) % size == 0 {
        if slot_starts(v, n, size) >= 1 && (v + n) % size != 0 {
            1
        } else {
            0
        }
    } else {
        slot_starts(v, n, size)
    }
}

/// A step at `v` maps a 1 GiB page.
pub open spec fn huge_step(v: int, p: int, n: int) -> bool {
    v % HUGE_PAGE_SIZE as int == 0 && p % HUGE_PAGE_SIZE as int == 0 && n >= HUGE_PAGE_SIZE
}

/// A step at `v` maps 2 MiB pages.
pub open spec fn large_step(v: int, p: int, n: int) -> bool {
    v % LARGE_PAGE_SIZE as int == 0 && p % LARGE_PAGE_SIZE as int == 0 && n >= LARGE_PAGE_SIZE
}

/// 1 if `b`, else 0.
pub open spec fn ind(b: bool) -> int {
    if b {
        1
    } else {
        0
    }
}

/// A guest virtual address space rooted in a PML4 whose table pages come
/// from a physical-memory arena.
pub struct VSpace {
    pmem: PhysicalMemory,
    pml4_paddr: u64,
    pml4: Vec<Pml4Entry>,
}

impl VSpace {
    /// The arena that page tables (and pages for `map`) come from.
    pub closed spec fn spec_pmem(&self) -> PhysicalMemory {
        self.pmem
    }

    /// Physical address of the PML4 page.
    pub closed spec fn spec_pml4_paddr(&self) -> u64 {
        self.pml4_paddr
    }

    /// The entries of the PML4.
    pub closed spec fn spec_pml4(&self) -> Seq<Pml4Entry> {
        self.pml4@
    }

    /// Lowest address of the arena.
    pub open spec fn lo(&self) -> int {
        self.spec_pmem().spec_offset() as int
    }

    /// End of the part of the arena handed out so far.
    pub open spec fn hi(&self) -> int {
        self.spec_pmem().spec_offset() + self.spec_pmem().spec_allocated()
    }

    /// Every table has 512 entries and lies in the handed-out part of the
    /// arena; every leaf is aligned to its page size.
    pub closed spec fn wf(&self) -> bool {
        &&& self.pmem.wf()
        &&& table_ok(self.pml4_paddr, self.lo(), self.hi())
        &&& self.pml4@.len() == 512
        &&& forall|i: int|
            0 <= i < 512 ==> pml4_entry_wf(#[trigger] self.pml4@[i], self.lo(), self.hi())
    }

    /// The physical address that `va` translates to, if it is mapped.
    pub open spec fn translate(&self, va: int) -> Option<int> {
        match self.spec_pml4()[spec_pml4_index(va)] {
            Pml4Entry::Empty => None,
            Pml4Entry::Table(p) => pdpt_translate(p, va),
        }
    }

    /// The rights of the page that maps `va`, if one does.
    pub open spec fn rights_at(&self, va: int) -> Option<MapAction> {
        match self.spec_pml4()[spec_pml4_index(va)] {
            Pml4Entry::Empty => None,
            Pml4Entry::Table(p) => pdpt_rights(p, va),
        }
    }

    /// `after` is `before` with only additions made by a request with
    /// `rights`: pages and tables of `before` stay where they are, every
    /// new page has `rights`, and every new table was taken from the arena
    /// at or above the end of what `before` had handed out.
    #[verifier::opaque]
    pub open spec fn grows_from(before: VSpace, after: VSpace, rights: MapAction) -> bool {
        forall|i: int|
            0 <= i < 512 ==> pml4_entry_grows(
                before.spec_pml4()[i],
                #[trigger] after.spec_pml4()[i],
                rights,
                before.hi(),
            )
    }

    /// The number of table pages of the address space: the PML4 and every
    /// PDPT, page directory and page table below it.
    pub open spec fn num_tables(&self) -> int {
        1 + pml4_tables(self.spec_pml4(), 512)
    }

    /// A 1 GiB or 2 MiB page covers `va`.
    pub open spec fn large_covered(&self, va: int) -> bool {
        match self.spec_pml4()[spec_pml4_index(va)] {
            Pml4Entry::Empty => false,
            Pml4Entry::Table(p) => pdpt_large(p, va),
        }
    }

    /// An empty address space whose PML4 is the first page taken from `pmem`.
    pub fn new(pmem: PhysicalMemory) -> (r: Result<VSpace, OutOfMemory>)
        requires
            pmem.wf(),
        ensures
            r is Ok <==> pmem.free_pages() >= 1,
            r is Ok ==> {
                let v = r->Ok_0;
                &&& v.wf()
                &&& v.spec_pml4_paddr() == pmem.spec_offset() + pmem.spec_allocated()
                &&& v.spec_pmem().spec_offset() == pmem.spec_offset()
                &&& v.spec_pmem().spec_size() == pmem.spec_size()
                &&& v.spec_pmem().spec_allocated() == pmem.spec_allocated() + BASE_PAGE_SIZE
                &&& forall|va: int| v.translate(va) is None
                &&& forall|va: int| !v.large_covered(va)
                &&& forall|va: int| v.pml4_free(va) && v.pdpt_free(va) && v.pd_free(va)
            },
    {
        let mut pmem = pmem;
        let pml4_paddr = match pmem.alloc_pages(1) {
            Ok(p) => p,
            Err(e) => return Err(e),
        };
        let pml4 = empty_pml4();
        Ok(VSpace { pmem, pml4_paddr, pml4 })
    }

    /// Map the virtual range `[vbase, vbase + pregion.1)` to the physical
    /// range that starts at `pregion.0`, with the largest pages that the
    /// alignment of both bases, the length and the free slots allow.
    ///
    /// Pages of the range that already have a 4 KiB mapping keep it. A
    /// 1 GiB or 2 MiB page that covers part of the range is reported as
    /// `AlreadyMapped`; running out of arena pages for new tables as
    /// `OutOfMemory`. Either way the part mapped before the failure stays.
    #[verifier::spinoff_prover]
    #[verifier::rlimit(100)]
    pub fn map_generic(&mut self, vbase: u64, pregion: (u64, u64), rights: MapAction) -> (r: Result<
        (),
        MapError,
    >)
        requires
            old(self).wf(),
            vbase % BASE_PAGE_SIZE == 0,
            pregion.0 % BASE_PAGE_SIZE == 0,
            pregion.1 % BASE_PAGE_SIZE == 0,
            pregion.1 > 0,
            vbase + pregion.1 <= VADDR_LIMIT,
            pregion.0 + pregion.1 <= PADDR_LIMIT,
            rights != MapAction::NoMap,
        ensures
            final(self).wf(),
            final(self).spec_pml4_paddr() == old(self).spec_pml4_paddr(),
            final(self).spec_pmem().spec_offset() == old(self).spec_pmem().spec_offset(),
            final(self).spec_pmem().spec_size() == old(self).spec_pmem().spec_size(),
            final(self).spec_pmem().spec_allocated() >= old(self).spec_pmem().spec_allocated(),
            Self::maps_part(*old(self), *final(self), vbase as int, pregion.0 as int, pregion.1 as int),
            r is Ok ==> Self::maps_all(*old(self), *final(self), vbase as int, pregion.0 as int, pregion.1 as int),
            r is Ok ==> forall|va: int|
                vbase <= va < vbase + pregion.1 ==> !#[trigger] old(self).large_covered(va),
            r matches Err(MapError::AlreadyMapped(a)) ==> vbase <= a < vbase + pregion.1
                && old(self).large_covered(a as int),
            r == Err::<(), MapError>(MapError::OutOfMemory) ==> final(self).spec_pmem().free_pages()
                < 1,
            Self::leaves_fit(*old(self), *final(self), vbase as int, pregion.0 as int, pregion.1 as int),
            r is Ok ==> Self::picks_all(*old(self), *final(self), vbase as int, pregion.0 as int, pregion.1 as int),
            Self::grows_from(*old(self), *final(self), rights),
            final(self).spec_pmem().spec_allocated() == old(self).spec_pmem().spec_allocated()
                + BASE_PAGE_SIZE * (final(self).num_tables() - old(self).num_tables()),
            (forall|va: int| vbase <= va < vbase + pregion.1 ==> #[trigger] old(self).translate(va) is None)
                && old(self).spec_pmem().free_pages() >= Self::tables_bound(
                *old(self),
                vbase as int,
                pregion.0 as int,
                pregion.1 as int,
            ) ==> r is Ok,
            final(self).spec_pmem().spec_allocated() <= old(self).spec_pmem().spec_allocated()
                + BASE_PAGE_SIZE * Self::tables_bound(*old(self), vbase as int, pregion.0 as int, pregion.1 as int),
            (forall|va: int| vbase <= va < vbase + pregion.1 ==> !#[trigger] old(self).large_covered(va))
                && old(self).spec_pmem().free_pages() >= Self::tables_bound(
                *old(self),
                vbase as int,
                pregion.0 as int,
                pregion.1 as int,
            ) ==> r is Ok,
            (forall|va: int|
                vbase <= va < vbase + pregion.1 ==> #[trigger] old(self).leaf_size(va) == Some(
                    BASE_PAGE_SIZE as int,
                )) ==> r is Ok && final(self).spec_pmem().spec_allocated() == old(
                self,
            ).spec_pmem().spec_allocated(),
        decreases pregion.1,
    {
        let pbase = pregion.0;
        let psize = pregion.1;
        let ghost s0 = *self;
        proof {
            if forall|va: int| vbase <= va < vbase + psize ==> #[trigger] s0.translate(va) is None {
                assert forall|va: int| vbase <= va < vbase + psize implies !#[trigger] s0.large_covered(
                    va,
                ) by {
                    assert(s0.translate(va) is None);
                    lemma_leaf_iff_mapped(s0, va);
                }
            }
        }
        let step = self.map_step(vbase, pbase, psize, rights);
        match step {
            Err(e) => {
                proof {
                    lemma_maps_prefix(s0, *self, vbase as int, pbase as int, 0, psize as int);
                    lemma_bound_oom(s0, *self, vbase as int, pbase as int, psize as int, step);
                }
                Err(e)
            },
            Ok(mapped) => {
                if mapped < psize {
                    let ghost s1 = *self;
                    let r = self.map_generic(
                        vbase + mapped,
                        (pbase + mapped, psize - mapped),
                        rights,
                    );
                    proof {
                        lemma_compose(
                            s0,
                            s1,
                            *self,
                            vbase as int,
                            pbase as int,
                            psize as int,
                            mapped as int,
                            r is Ok,
                        );
                        if let Err(MapError::AlreadyMapped(a)) = r {
                            assert(s1.large_covered(a as int));
                        }
                        lemma_grows_trans(s0, s1, *self, rights);
                        lemma_bound_rec(s0, s1, vbase as int, pbase as int, psize as int, mapped as int);
                        if (forall|va: int|
                            vbase <= va < vbase + psize ==> !#[trigger] s0.large_covered(va))
                            && s0.spec_pmem().free_pages() >= VSpace::tables_bound(
                            s0,
                            vbase as int,
                            pbase as int,
                            psize as int,
                        ) {
                            lemma_bound_rec(s0, s1, vbase as int, pbase as int, psize as int, mapped as int);
                            assert forall|va: int|
                                vbase + mapped <= va < vbase + psize implies !#[trigger] s1.large_covered(va) by {
                                assert(s1.large_covered(va) == s0.large_covered(va));
                            }
                            assert(r is Ok);
                        }
                        if forall|va: int|
                            vbase <= va < vbase + psize ==> #[trigger] s0.leaf_size(va) == Some(
                                BASE_PAGE_SIZE as int,
                            ) {
                            assert(s0.leaf_size(vbase as int) == Some(BASE_PAGE_SIZE as int));
                            assert forall|va: int|
                                vbase + mapped <= va < vbase + psize implies #[trigger] s1.leaf_size(
                                va,
                            ) == Some(BASE_PAGE_SIZE as int) by {
                                assert(s0.leaf_size(va) == Some(BASE_PAGE_SIZE as int));
                                lemma_grows_rights(s0, s1, rights, va);
                            }
                        }
                        if r is Ok {
                            lemma_compose_picks(
                                s0,
                                s1,
                                *self,
                                vbase as int,
                                pbase as int,
                                psize as int,
                                mapped as int,
                            );
                        }
                    }
                    r
                } else {
                    proof {
                        lemma_bound_oom(s0, *self, vbase as int, pbase as int, psize as int, step);
                        lemma_maps_prefix(s0, *self, vbase as int, pbase as int, mapped as int, psize as int);
                        reveal(VSpace::step_picks);
                        reveal(VSpace::picks_all);
                    }
                    Ok(())
                }
            },
        }
    }

    /// `after` maps what `before` mapped, except that addresses of
    /// `[vbase, vbase + len)` that `before` left unmapped may now be mapped to
    /// their place in the range at `pbase`.
    #[verifier::opaque]
    pub open spec fn maps_part(before: VSpace, after: VSpace, vbase: int, pbase: int, len: int) -> bool {
        forall|va: int|
            0 <= va < VADDR_LIMIT ==> #[trigger] after.translate(va) == before.translate(va)
                || after.translate(va) == after_map(before.translate(va), vbase, pbase, len, va)
    }

    /// `after` is `before` with every address of `[vbase, vbase + len)` that
    /// `before` left unmapped mapped to its place in the range at `pbase`.
    #[verifier::opaque]
    pub open spec fn maps_all(before: VSpace, after: VSpace, vbase: int, pbase: int, len: int) -> bool {
        forall|va: int|
            0 <= va < VADDR_LIMIT ==> #[trigger] after.translate(va) == after_map(
                before.translate(va),
                vbase,
                pbase,
                len,
                va,
            )
    }

    /// Pages that mapped something in `before` are as they were in `after`,
    /// and each page that `after` has for an address `before` left unmapped
    /// fits the request for `[vbase, vbase + len)` at `pbase` (`size_fits`).
    #[verifier::opaque]
    pub open spec fn leaves_fit(before: VSpace, after: VSpace, vbase: int, pbase: int, len: int) -> bool {
        forall|va: int|
            0 <= va < VADDR_LIMIT ==> (#[trigger] after.leaf_size(va) == if before.translate(va) is Some {
                before.leaf_size(va)
            } else {
                after.leaf_size(va)
            }) && (before.translate(va) is None ==> size_fits(vbase, pbase, len, va, after.leaf_size(va)))
    }

    /// Arena pages that a request to map `[vbase, vbase + len)` at `pbase`
    /// takes at most from `s`: a PDPT if the PML4 slot of `vbase` is free and
    /// one per further 512 GiB slot; a page directory if the 1 GiB slot of
    /// `vbase` is free and cannot take a 1 GiB page, and one per further
    /// 1 GiB slot that may not (`split_slots`); likewise page tables for
    /// 2 MiB slots. For an aligned request on free slots this is exactly
    /// the number of tables the request creates.
    pub open spec fn tables_bound(s: VSpace, vbase: int, pbase: int, len: int) -> int {
        ind(s.pml4_free(vbase)) + slot_starts(vbase, len, PML4_SLOT_SIZE as int) + ind(
            s.pdpt_free(vbase) && !huge_step(vbase, pbase, len),
        ) + split_slots(vbase, pbase, len, HUGE_PAGE_SIZE as int) + ind(
            s.pd_free(vbase) && !huge_step(vbase, pbase, len) && !large_step(vbase, pbase, len),
        ) + split_slots(vbase, pbase, len, LARGE_PAGE_SIZE as int)
    }

    /// No PDPT occupies the 512 GiB slot of `va`.
    pub open spec fn pml4_free(&self, va: int) -> bool {
        self.spec_pml4()[spec_pml4_index(va)] is Empty
    }

    /// No page or table occupies the 1 GiB slot of `va`.
    pub open spec fn pdpt_free(&self, va: int) -> bool {
        match self.spec_pml4()[spec_pml4_index(va)] {
            Pml4Entry::Empty => true,
            Pml4Entry::Table(p) => pdpt_slot_free(p, va),
        }
    }

    /// No page or table occupies the 2 MiB slot of `va`, nor a page its
    /// 1 GiB slot.
    pub open spec fn pd_free(&self, va: int) -> bool {
        match self.spec_pml4()[spec_pml4_index(va)] {
            Pml4Entry::Empty => true,
            Pml4Entry::Table(p) => pdpt_pd_free(p, va),
        }
    }

    /// The size of page that a request to map `[vbase, vbase + len)` at
    /// `pbase`, made on `s`, picks for `va`: 1 GiB where the 1 GiB slot of
    /// `va` is free, lies in the range and `pbase` is aligned like `vbase`
    /// modulo 1 GiB; else 2 MiB under the same three conditions for its
    /// 2 MiB slot; else 4 KiB.
    pub open spec fn expected_size(s: VSpace, vbase: int, pbase: int, len: int, va: int) -> int {
        pick_size(s.pdpt_free(va), s.pd_free(va), vbase, pbase, len, va)
    }

    /// Every address of `[vbase, vbase + len)` that `before` left unmapped
    /// is mapped in `after` by a page of the size the request for that range
    /// at `pbase` picks (`expected_size`).
    #[verifier::opaque]
    pub open spec fn picks_all(before: VSpace, after: VSpace, vbase: int, pbase: int, len: int) -> bool {
        forall|va: int|
            vbase <= va < vbase + len && before.translate(va) is None ==> #[trigger] after.leaf_size(va)
                == Some(Self::expected_size(before, vbase, pbase, len, va))
    }

    /// A step that mapped `[vbase, vbase + len)` of a request for
    /// `[vbase, vbase + psize)` at `pbase` gave each newly mapped address the
    /// page size the request picks; every slot that starts in the step and
    /// could take a page of its size lies wholly in the step; and the slots
    /// that start after the step are as free as they were.
    #[verifier::opaque]
    pub open spec fn step_picks(before: VSpace, after: VSpace, vbase: int, pbase: int, psize: int, len: int) -> bool {
        &&& forall|va: int|
            vbase <= va < vbase + len && before.translate(va) is None ==> #[trigger] after.leaf_size(va)
                == Some(Self::expected_size(before, vbase, pbase, psize, va))
        &&& forall|va: int|
            0 <= va < VADDR_LIMIT && vbase <= slot_start(va, HUGE_PAGE_SIZE as int) < vbase + len
                && #[trigger] before.pdpt_free(va) && page_fits(vbase, pbase, psize, va, HUGE_PAGE_SIZE as int)
                ==> slot_start(va, HUGE_PAGE_SIZE as int) + HUGE_PAGE_SIZE <= vbase + len
        &&& forall|va: int|
            0 <= va < VADDR_LIMIT && vbase <= slot_start(va, LARGE_PAGE_SIZE as int) < vbase + len
                && #[trigger] before.pd_free(va) && page_fits(vbase, pbase, psize, va, LARGE_PAGE_SIZE as int)
                ==> slot_start(va, LARGE_PAGE_SIZE as int) + LARGE_PAGE_SIZE <= vbase + len
        &&& forall|va: int|
            0 <= va < VADDR_LIMIT && slot_start(va, HUGE_PAGE_SIZE as int) >= vbase + len
                ==> #[trigger] after.pdpt_free(va) == before.pdpt_free(va)
        &&& forall|va: int|
            0 <= va < VADDR_LIMIT && slot_start(va, LARGE_PAGE_SIZE as int) >= vbase + len
                ==> #[trigger] after.pd_free(va) == before.pd_free(va)
    }

    /// What one step of a request for `[vbase, vbase + psize)` at `pbase`
    /// takes from the arena: at most a table for each free slot of `vbase`
    /// that the step cannot fill with a page; it runs out of memory only
    /// when fewer pages than that are free; a completed step ends at a
    /// 2 MiB boundary inside the 1 GiB slot of `vbase` or at its end, and
    /// leaves the slots of `vbase` occupied.
    #[verifier::opaque]
    pub open spec fn step_bounds(
        s0: VSpace,
        s1: VSpace,
        vbase: int,
        pbase: int,
        psize: int,
        r: Result<u64, MapError>,
    ) -> bool {
        let h = ind(s0.pml4_free(vbase)) + ind(s0.pdpt_free(vbase) && !huge_step(vbase, pbase, psize))
            + ind(
            s0.pd_free(vbase) && !huge_step(vbase, pbase, psize) && !large_step(vbase, pbase, psize),
        );
        &&& s1.spec_pmem().spec_allocated() <= s0.spec_pmem().spec_allocated() + BASE_PAGE_SIZE * h
        &&& r == Err::<u64, MapError>(MapError::OutOfMemory) ==> s0.spec_pmem().free_pages() < h
        &&& r is Ok ==> (vbase + r->Ok_0) % HUGE_PAGE_SIZE as int == 0 || (vbase + r->Ok_0)
            / HUGE_PAGE_SIZE as int == vbase / HUGE_PAGE_SIZE as int
        &&& r is Ok ==> !s1.pml4_free(vbase) && !s1.pdpt_free(vbase) && !s1.pd_free(vbase)
    }

    /// One step of a mapping request: the part of the range that lies in
    /// the PML4 slot of `vbase`, or less (see `pdpt_chunk`).
    fn map_step(&mut self, vbase: u64, pbase: u64, psize: u64, rights: MapAction) -> (r: Result<
        u64,
        MapError,
    >)
        requires
            old(self).wf(),
            vbase % BASE_PAGE_SIZE == 0,
            pbase % BASE_PAGE_SIZE == 0,
            psize % BASE_PAGE_SIZE == 0,
            psize > 0,
            vbase + psize <= VADDR_LIMIT,
            pbase + psize <= PADDR_LIMIT,
            rights != MapAction::NoMap,
        ensures
            final(self).wf(),
            final(self).spec_pml4_paddr() == old(self).spec_pml4_paddr(),
            final(self).spec_pmem().spec_offset() == old(self).spec_pmem().spec_offset(),
            final(self).spec_pmem().spec_size() == old(self).spec_pmem().spec_size(),
            final(self).spec_pmem().spec_allocated() >= old(self).spec_pmem().spec_allocated(),
            r is Ok ==> 0 < r->Ok_0 <= psize && r->Ok_0 % BASE_PAGE_SIZE == 0,
            r is Ok ==> r->Ok_0 == psize || (vbase + r->Ok_0) % LARGE_PAGE_SIZE as int == 0,
            final(self).spec_pmem().spec_allocated() <= old(self).spec_pmem().spec_allocated() + 3
                * BASE_PAGE_SIZE,
            r == Err::<u64, MapError>(MapError::OutOfMemory) ==> old(self).spec_pmem().free_pages() < 3,
            r is Err ==> (r == Err::<u64, MapError>(MapError::OutOfMemory)
                && final(self).spec_pmem().free_pages() < 1) || (r == Err::<u64, MapError>(
                MapError::AlreadyMapped(vbase),
            ) && old(self).large_covered(vbase as int)),
            Self::maps_all(*old(self), *final(self), vbase as int, pbase as int, chunk_len(r)),
            forall|va: int|
                0 <= va < VADDR_LIMIT && !(vbase <= va < vbase + chunk_len(r))
                    ==> #[trigger] final(self).large_covered(va) == old(self).large_covered(va),
            forall|va: int| vbase <= va < vbase + chunk_len(r) ==> !#[trigger] old(self).large_covered(va),
            Self::leaves_fit(*old(self), *final(self), vbase as int, pbase as int, psize as int),
            r is Ok ==> Self::step_picks(*old(self), *final(self), vbase as int, pbase as int, psize as int, r->Ok_0 as int),
            Self::grows_from(*old(self), *final(self), rights),
            final(self).spec_pmem().spec_allocated() == old(self).spec_pmem().spec_allocated()
                + BASE_PAGE_SIZE * (final(self).num_tables() - old(self).num_tables()),
            Self::step_bounds(*old(self), *final(self), vbase as int, pbase as int, psize as int, r),
            old(self).leaf_size(vbase as int) == Some(BASE_PAGE_SIZE as int) ==> r is Ok
                && final(self).spec_pmem().spec_allocated() == old(self).spec_pmem().spec_allocated(),
    {
        let ghost s0 = *self;
        let ghost lo = self.lo();
        let i4 = pml4_index(vbase);
        if pml4_entry_is_empty(&self.pml4[i4]) {
            let ghost hi0 = self.hi();
            let p = match new_pdpt(&mut self.pmem) {
                Ok(p) => p,
                Err(e) => {
                    proof {
                        reveal(VSpace::maps_all);
                        reveal(VSpace::leaves_fit);
                        reveal(VSpace::grows_from);
                        reveal(VSpace::step_bounds);
                        assert forall|i: int| 0 <= i < 512 implies pml4_entry_grows(
                            s0.spec_pml4()[i],
                            #[trigger] self.spec_pml4()[i],
                            rights,
                            s0.hi(),
                        ) by {
                            if let Pml4Entry::Table(pp) = s0.spec_pml4()[i] {
                                assert(pdpt_grows(pp, pp, rights, s0.hi())) by {
                                    assert forall|j: int| 0 <= j < 512 implies pdpt_entry_grows(
                                        pp.entries@[j],
                                        #[trigger] pp.entries@[j],
                                        rights,
                                        s0.hi(),
                                    ) by {
                                        if let PdptEntry::Table(dd) = pp.entries@[j] {
                                            assert(pd_grows(dd, dd, rights, s0.hi()));
                                        }
                                    }
                                }
                            }
                        }
                    }
                    return Err(e);
                },
            };
            proof {
                lemma_pml4_wf_mono(self.pml4@, lo, hi0, self.hi());
            }
            self.pml4.set(i4, Pml4Entry::Table(p));
        }
        let mut slot = Pml4Entry::Empty;
        self.pml4.set_and_swap(i4, &mut slot);
        let mut p = match slot {
            Pml4Entry::Table(p) => p,
            Pml4Entry::Empty => {
                proof {
                    assert(false);
                }
                return Err(MapError::OutOfMemory);
            },
        };
        let ghost p0 = p;
        let ghost hi1 = self.hi();
        assert(s0.pml4@[i4 as int] is Empty ==> p0.paddr == s0.hi() && forall|j: int|
            0 <= j < 512 ==> (#[trigger] p0.entries@[j]) is Empty);
        assert(s0.pml4@[i4 as int] is Table ==> hi1 == s0.hi() && s0.pml4@[i4 as int]
            == Pml4Entry::Table(p0));
        assert(pdpt_wf(p, lo, hi1));
        let step = pdpt_chunk(&mut p, &mut self.pmem, vbase, pbase, psize, rights);
        proof {
            lemma_pml4_wf_mono(self.pml4@, lo, hi1, self.hi());
        }
        self.pml4.set(i4, Pml4Entry::Table(p));
        proof {
            assert(self.pml4@ =~= s0.pml4@.update(i4 as int, Pml4Entry::Table(p)));
            lemma_vspace_step(s0, *self, p0, p, vbase as int, pbase as int, psize as int, chunk_len(step));
            reveal(VSpace::maps_all);
            reveal(VSpace::leaves_fit);
            if step is Ok {
                lemma_vspace_max(s0, *self, p0, p, vbase as int, pbase as int, psize as int, chunk_len(step));
            }
            lemma_vspace_grows(s0, *self, p0, p, vbase as int, rights, hi1);
            reveal(VSpace::step_bounds);
            lemma_pml4_tables_update(s0.pml4@, self.pml4@, i4 as int, 512);
            if s0.pml4@[i4 as int] is Empty {
                lemma_pdpt_tables_zero(p0.entries@, 512);
            }
        }
        step
    }

    /// Map `[pbase, end)` at the virtual addresses `[at_offset + pbase,
    /// at_offset + end)`. For example `map_identity_with_offset(0x20000,
    /// 0x1000, 0x2000, ReadWriteKernel)` maps the virtual addresses
    /// 0x21000 -- 0x22000 to physical 0x1000 -- 0x2000.
    pub fn map_identity_with_offset(
        &mut self,
        at_offset: u64,
        pbase: u64,
        end: u64,
        rights: MapAction,
    ) -> (r: Result<(), MapError>)
        requires
            old(self).wf(),
            at_offset % BASE_PAGE_SIZE == 0,
            pbase % BASE_PAGE_SIZE == 0,
            end % BASE_PAGE_SIZE == 0,
            pbase < end,
            at_offset + end <= VADDR_LIMIT,
            end <= PADDR_LIMIT,
            rights != MapAction::NoMap,
        ensures
            final(self).wf(),
            final(self).spec_pml4_paddr() == old(self).spec_pml4_paddr(),
            final(self).spec_pmem().spec_offset() == old(self).spec_pmem().spec_offset(),
            final(self).spec_pmem().spec_size() == old(self).spec_pmem().spec_size(),
            Self::maps_part(*old(self), *final(self), at_offset + pbase, pbase as int, end - pbase),
            r is Ok ==> Self::maps_all(*old(self), *final(self), at_offset + pbase, pbase as int, end - pbase),
            r is Ok ==> forall|va: int|
                at_offset + pbase <= va < at_offset + end ==> !#[trigger] old(self).large_covered(va),
            r matches Err(MapError::AlreadyMapped(a)) ==> at_offset + pbase <= a < at_offset + end
                && old(self).large_covered(a as int),
            r == Err::<(), MapError>(MapError::OutOfMemory) ==> final(self).spec_pmem().free_pages()
                < 1,
            Self::leaves_fit(*old(self), *final(self), at_offset + pbase, pbase as int, end - pbase),
            r is Ok ==> Self::picks_all(*old(self), *final(self), at_offset + pbase, pbase as int, end - pbase),
            Self::grows_from(*old(self), *final(self), rights),
            final(self).spec_pmem().spec_allocated() == old(self).spec_pmem().spec_allocated()
                + BASE_PAGE_SIZE * (final(self).num_tables() - old(self).num_tables()),
            final(self).spec_pmem().spec_allocated() <= old(self).spec_pmem().spec_allocated()
                + BASE_PAGE_SIZE * Self::tables_bound(*old(self), at_offset + pbase, pbase as int, end - pbase),
            (forall|va: int|
                at_offset + pbase <= va < at_offset + end ==> #[trigger] old(self).translate(va) is None)
                && old(self).spec_pmem().free_pages() >= Self::tables_bound(
                *old(self),
                at_offset + pbase,
                pbase as int,
                end - pbase,
            ) ==> r is Ok,
    {
        let ghost s0 = *self;
        proof {
            assert forall|va: int| #[trigger] s0.large_covered(va) implies s0.translate(va) is Some by {
                lemma_leaf_iff_mapped(s0, va);
            }
        }
        let vbase = at_offset + pbase;
        let size = end - pbase;
        self.map_generic(vbase, (pbase, size), rights)
    }

    /// Map `[base, end)` to the same physical addresses. For example
    /// `map_identity(0x2000, 0x3000, ..)` maps everything between 0x2000 and
    /// 0x3000 to physical 0x2000 -- 0x3000.
    pub fn map_identity(&mut self, base: u64, end: u64, rights: MapAction) -> (r: Result<(), MapError>)
        requires
            old(self).wf(),
            base % BASE_PAGE_SIZE == 0,
            end % BASE_PAGE_SIZE == 0,
            base < end,
            end <= VADDR_LIMIT,
            rights != MapAction::NoMap,
        ensures
            final(self).wf(),
            final(self).spec_pml4_paddr() == old(self).spec_pml4_paddr(),
            final(self).spec_pmem().spec_offset() == old(self).spec_pmem().spec_offset(),
            final(self).spec_pmem().spec_size() == old(self).spec_pmem().spec_size(),
            Self::maps_part(*old(self), *final(self), base as int, base as int, end - base),
            r is Ok ==> Self::maps_all(*old(self), *final(self), base as int, base as int, end - base),
            r is Ok ==> forall|va: int| base <= va < end ==> !#[trigger] old(self).large_covered(va),
            r matches Err(MapError::AlreadyMapped(a)) ==> base <= a < end && old(
                self,
            ).large_covered(a as int),
            r == Err::<(), MapError>(MapError::OutOfMemory) ==> final(self).spec_pmem().free_pages()
                < 1,
            Self::leaves_fit(*old(self), *final(self), base as int, base as int, end - base),
            r is Ok ==> Self::picks_all(*old(self), *final(self), base as int, base as int, end - base),
            Self::grows_from(*old(self), *final(self), rights),
            final(self).spec_pmem().spec_allocated() == old(self).spec_pmem().spec_allocated()
                + BASE_PAGE_SIZE * (final(self).num_tables() - old(self).num_tables()),
            final(self).spec_pmem().spec_allocated() <= old(self).spec_pmem().spec_allocated()
                + BASE_PAGE_SIZE * Self::tables_bound(*old(self), base as int, base as int, end - base),
            (forall|va: int| base <= va < end ==> #[trigger] old(self).translate(va) is None) && old(
                self,
            ).spec_pmem().free_pages() >= Self::tables_bound(*old(self), base as int, base as int, end - base)
                ==> r is Ok,
    {
        self.map_identity_with_offset(0, base, end, rights)
    }

    /// Take `how_many` consecutive pages of the arena.
    fn allocate_pages(&mut self, how_many: u64) -> (r: Result<u64, MapError>)
        requires
            old(self).wf(),
        ensures
            final(self).wf(),
            final(self).pml4 == old(self).pml4,
            final(self).pml4_paddr == old(self).pml4_paddr,
            how_many <= old(self).spec_pmem().free_pages() <==> r is Ok,
            r is Ok ==> PhysicalMemory::alloc_step(old(self).pmem, how_many, r->Ok_0, final(self).pmem),
            r is Err ==> r == Err::<u64, MapError>(MapError::OutOfMemory) && *final(self) == *old(self),
    {
        let ghost hi0 = self.hi();
        match self.pmem.alloc_pages(how_many) {
            Ok(p) => {
                proof {
                    lemma_pml4_wf_mono(self.pml4@, self.lo(), hi0, self.hi());
                }
                Ok(p)
            },
            Err(_) => Err(MapError::OutOfMemory),
        }
    }

    /// Take `how_many` pages of the arena whose base is a multiple of
    /// `align_to`: `align_to / 4096` extra pages are taken, and the aligned
    /// part of them is returned. The slack before and after stays taken.
    pub fn allocate_pages_aligned(&mut self, how_many: u64, align_to: u64) -> (r: Result<u64, MapError>)
        requires
            old(self).wf(),
            is_power_of_two(align_to),
            align_to >= BASE_PAGE_SIZE,
            align_to % BASE_PAGE_SIZE == 0,
        ensures
            final(self).wf(),
            final(self).spec_pml4_paddr() == old(self).spec_pml4_paddr(),
            final(self).spec_pmem().spec_offset() == old(self).spec_pmem().spec_offset(),
            final(self).spec_pmem().spec_size() == old(self).spec_pmem().spec_size(),
            final(self).spec_pml4() == old(self).spec_pml4(),
            forall|va: int| #[trigger] final(self).translate(va) == old(self).translate(va),
            forall|va: int| #[trigger] final(self).large_covered(va) == old(self).large_covered(va),
            r is Ok <==> how_many + align_to as int / BASE_PAGE_SIZE as int <= old(self).spec_pmem().free_pages(),
            r is Ok ==> {
                let a = r->Ok_0;
                &&& a == align_up(old(self).hi(), align_to as int)
                &&& a % align_to == 0
                &&& a % BASE_PAGE_SIZE == 0
                &&& old(self).hi() <= a
                &&& a + how_many * BASE_PAGE_SIZE <= final(self).hi()
                &&& final(self).spec_pmem().spec_allocated() == old(self).spec_pmem().spec_allocated()
                    + (how_many + align_to as int / BASE_PAGE_SIZE as int) * BASE_PAGE_SIZE
            },
            r is Err ==> r == Err::<u64, MapError>(MapError::OutOfMemory) && *final(self) == *old(self),
    {
        let extra: u64 = align_to / BASE_PAGE_SIZE;
        if how_many > u64::MAX - extra {
            proof {
                assert(old(self).spec_pmem().free_pages() <= 0x10_0000_0000_0000);
            }
            return Err(MapError::OutOfMemory);
        }
        let actual_how_many = how_many + extra;
        let paddr = match self.allocate_pages(actual_how_many) {
            Ok(p) => p,
            Err(e) => return Err(e),
        };
        proof {
            assert(extra * 4096 == align_to) by (nonlinear_arith)
                requires
                    extra == align_to / 4096,
                    align_to % 4096 == 0,
            ;
            assert(paddr % 4096 == 0) by {
                assert(old(self).spec_pmem().wf());
            }
            lemma_align_up(paddr as int, align_to as int);
        }
        let aligned = ((paddr + (align_to - 1)) / align_to) * align_to;
        proof {
            assert(aligned + how_many * 4096 <= paddr + actual_how_many * 4096) by (nonlinear_arith)
                requires
                    aligned < paddr + align_to,
                    aligned % 4096 == 0,
                    paddr % 4096 == 0,
                    align_to == extra * 4096,
                    actual_how_many == how_many + extra,
            ;
        }
        Ok(aligned)
    }

    /// Back `[base, base + size)` with fresh arena pages whose base is a
    /// multiple of `palignment`, and map them there.
    pub fn map(&mut self, base: u64, size: u64, rights: MapAction, palignment: u64) -> (r: Result<
        (),
        MapError,
    >)
        requires
            old(self).wf(),
            base % BASE_PAGE_SIZE == 0,
            size % BASE_PAGE_SIZE == 0,
            size > 0,
            base + size <= VADDR_LIMIT,
            rights != MapAction::NoMap,
            is_power_of_two(palignment),
            palignment >= BASE_PAGE_SIZE,
            palignment % BASE_PAGE_SIZE == 0,
        ensures
            final(self).wf(),
            final(self).spec_pml4_paddr() == old(self).spec_pml4_paddr(),
            final(self).spec_pmem().spec_offset() == old(self).spec_pmem().spec_offset(),
            final(self).spec_pmem().spec_size() == old(self).spec_pmem().spec_size(),
            old(self).hi() <= final(self).hi(),
            r is Ok ==> old(self).hi() <= align_up(old(self).hi(), palignment as int)
                && align_up(old(self).hi(), palignment as int) + size <= final(self).hi(),
            r is Ok ==> final(self).spec_pmem().spec_allocated() == old(self).spec_pmem().spec_allocated()
                + (size as int / BASE_PAGE_SIZE as int + palignment as int / BASE_PAGE_SIZE as int)
                * BASE_PAGE_SIZE + BASE_PAGE_SIZE * (final(self).num_tables() - old(self).num_tables()),
            Self::grows_from(*old(self), *final(self), rights),
            Self::maps_part(
                *old(self),
                *final(self),
                base as int,
                align_up(old(self).hi(), palignment as int),
                size as int,
            ),
            r is Ok ==> Self::maps_all(
                *old(self),
                *final(self),
                base as int,
                align_up(old(self).hi(), palignment as int),
                size as int,
            ),
            r is Ok ==> align_up(old(self).hi(), palignment as int) % palignment as int == 0,
            r is Ok ==> forall|va: int| base <= va < base + size ==> !#[trigger] old(self).large_covered(va),
            r matches Err(MapError::AlreadyMapped(a)) ==> base <= a < base + size && old(
                self,
            ).large_covered(a as int),
            (forall|va: int| base <= va < base + size ==> !#[trigger] old(self).large_covered(va))
                && old(self).spec_pmem().free_pages() >= size as int / BASE_PAGE_SIZE as int
                + palignment as int / BASE_PAGE_SIZE as int + Self::tables_bound(
                *old(self),
                base as int,
                align_up(old(self).hi(), palignment as int),
                size as int,
            ) ==> r is Ok,
    {
        let ghost s0 = *self;
        let paddr = match self.allocate_pages_aligned(size / BASE_PAGE_SIZE, palignment) {
            Ok(p) => p,
            Err(e) => {
                proof {
                    reveal(VSpace::maps_part);
                    lemma_grows_refl(s0, *self, rights);
                }
                return Err(e);
            },
        };
        proof {
            assert((size / 4096) * 4096 == size);
            assert(paddr + size <= PADDR_LIMIT);
        }
        let ghost s1 = *self;
        let r = self.map_generic(base, (paddr, size), rights);
        proof {
            lemma_grows_refl(s0, s1, rights);
            lemma_grows_trans(s0, s1, *self, rights);
            reveal(VSpace::maps_part);
            reveal(VSpace::maps_all);
            assert forall|va: int| 0 <= va < VADDR_LIMIT implies #[trigger] self.translate(va) == s0.translate(va)
                || self.translate(va) == after_map(s0.translate(va), base as int, paddr as int, size as int, va) by {
                assert(s1.translate(va) == s0.translate(va));
            }
            if r is Ok {
                assert forall|va: int| 0 <= va < VADDR_LIMIT implies #[trigger] self.translate(va)
                    == after_map(s0.translate(va), base as int, paddr as int, size as int, va) by {
                    assert(s1.translate(va) == s0.translate(va));
                }
                assert forall|va: int| base <= va < base + size implies !#[trigger] s0.large_covered(va) by {
                    assert(s1.large_covered(va) == s0.large_covered(va));
                }
            }
            if let Err(MapError::AlreadyMapped(a)) = r {
                assert(s1.large_covered(a as int) == s0.large_covered(a as int));
            }
            if (forall|va: int| base <= va < base + size ==> !#[trigger] s0.large_covered(va))
                && s0.spec_pmem().free_pages() >= size as int / 4096 + palignment as int / 4096
                + VSpace::tables_bound(s0, base as int, paddr as int, size as int) {
                assert forall|va: int| base <= va < base + size implies !#[trigger] s1.large_covered(
                    va,
                ) by {
                    assert(s1.large_covered(va) == s0.large_covered(va));
                }
                assert(VSpace::tables_bound(s1, base as int, paddr as int, size as int)
                    == VSpace::tables_bound(s0, base as int, paddr as int, size as int));
                assert(s1.spec_pmem().free_pages() >= VSpace::tables_bound(s1, base as int, paddr as int, size as int));
            }
        }
        r
    }

    /// The size of the page that maps `va`, if one does.
    pub open spec fn leaf_size(&self, va: int) -> Option<int> {
        match self.spec_pml4()[spec_pml4_index(va)] {
            Pml4Entry::Empty => None,
            Pml4Entry::Table(p) => pdpt_leaf_size(p, va),
        }
    }

    /// The size of the page that maps `va`: 1 GiB, 2 MiB or 4 KiB.
    pub fn page_size_at(&self, va: u64) -> (r: Option<u64>)
        requires
            self.wf(),
        ensures
            r is Some <==> self.leaf_size(va as int) is Some,
            r is Some ==> self.leaf_size(va as int) == Some(r->Some_0 as int),
            r is Some <==> self.translate(va as int) is Some,
    {
        let i4 = pml4_index(va);
        match &self.pml4[i4] {
            Pml4Entry::Empty => None,
            Pml4Entry::Table(pdpt) => match &pdpt.entries[pdpt_index(va)] {
                PdptEntry::Empty => None,
                PdptEntry::Huge(_) => Some(HUGE_PAGE_SIZE),
                PdptEntry::Table(pd) => match &pd.entries[pd_index(va)] {
                    PdEntry::Empty => None,
                    PdEntry::Large(_) => Some(LARGE_PAGE_SIZE),
                    PdEntry::Table(pt) => match &pt.entries[pt_index(va)] {
                        None => None,
                        Some(_) => Some(BASE_PAGE_SIZE),
                    },
                },
            },
        }
    }

    /// Arena pages handed out so far: the tables, and pages taken by `map`.
    pub fn allocated_pages(&self) -> (r: u64)
        requires
            self.wf(),
        ensures
            r == self.spec_pmem().spec_allocated() as int / BASE_PAGE_SIZE as int,
    {
        (self.pmem.allocated() as u64) / BASE_PAGE_SIZE
    }

    /// Every non-empty entry of every table, as it goes into guest memory:
    /// the PML4's entries in slot order, each followed by the entries of the
    /// tables below it (see `pml4_image`).
    pub open spec fn table_image(&self) -> Seq<(u64, u64)> {
        pml4_image(self.spec_pml4(), self.spec_pml4_paddr(), 512)
    }

    /// Every entry of every table as it goes into guest memory: the entry's
    /// physical address and its value. Empty entries are zero and are left
    /// out. Every address lies in the part of the arena handed out so far.
    #[verifier::spinoff_prover]
    pub fn table_writes(&self) -> (r: Vec<(u64, u64)>)
        requires
            self.wf(),
        ensures
            forall|k: int| 0 <= k < r@.len() ==> write_ok(#[trigger] r@[k], self.lo(), self.hi()),
            r@ == self.table_image(),
    {
        let mut out: Vec<(u64, u64)> = Vec::new();
        let mut i: usize = 0;
        assert(out@ =~= pml4_image(self.pml4@, self.pml4_paddr, 0));
        while i < ENTRIES_PER_TABLE
            invariant
                self.wf(),
                0 <= i <= 512,
                forall|k: int| 0 <= k < out@.len() ==> write_ok(#[trigger] out@[k], self.lo(), self.hi()),
                out@ == pml4_image(self.pml4@, self.pml4_paddr, i as int),
            decreases 512 - i,
        {
            match &self.pml4[i] {
                Pml4Entry::Empty => {
                    assert(pml4_image(self.pml4@, self.pml4_paddr, i + 1) =~= pml4_image(
                        self.pml4@,
                        self.pml4_paddr,
                        i as int,
                    ));
                },
                Pml4Entry::Table(p) => {
                    assert(pdpt_wf(*p, self.lo(), self.hi()));
                    let w = (self.pml4_paddr + 8 * (i as u64), make_entry(p.paddr, FLAG_P | FLAG_RW));
                    out.push(w);
                    pdpt_writes(p, &mut out, Ghost(self.lo()), Ghost(self.hi()));
                    assert(out@ =~= pml4_image(self.pml4@, self.pml4_paddr, i + 1));
                },
            }
            i = i + 1;
        }
        out
    }

    /// Physical address of the PML4 page.
    pub fn pml4_paddr(&self) -> (r: u64)
        ensures
            r == self.spec_pml4_paddr(),
    {
        self.pml4_paddr
    }

    /// The physical address `addr` translates to, walking the tables and
    /// stopping at a 1 GiB or 2 MiB page where one is found.
    pub fn resolve_addr(&self, addr: u64) -> (r: Option<u64>)
        requires
            self.wf(),
        ensures
            r is Some <==> self.translate(addr as int) is Some,
            r is Some ==> self.translate(addr as int) == Some(r->Some_0 as int),
    {
        let i4 = pml4_index(addr);
        match &self.pml4[i4] {
            Pml4Entry::Empty => None,
            Pml4Entry::Table(pdpt) => {
                assert(pdpt_wf(*pdpt, self.lo(), self.hi()));
                let i3 = pdpt_index(addr);
                match &pdpt.entries[i3] {
                    PdptEntry::Empty => None,
                    PdptEntry::Huge(l) => {
                        assert(leaf_ok(*l, HUGE_PAGE_SIZE as int));
                        Some(l.paddr + addr % HUGE_PAGE_SIZE)
                    },
                    PdptEntry::Table(pd) => {
                        assert(pd_wf(*pd, self.lo(), self.hi()));
                        let i2 = pd_index(addr);
                        match &pd.entries[i2] {
                            PdEntry::Empty => None,
                            PdEntry::Large(l) => {
                                assert(leaf_ok(*l, LARGE_PAGE_SIZE as int));
                                Some(l.paddr + addr % LARGE_PAGE_SIZE)
                            },
                            PdEntry::Table(pt) => {
                                assert(pt_wf(*pt, self.lo(), self.hi()));
                                let i1 = pt_index(addr);
                                match &pt.entries[i1] {
                                    None => None,
                                    Some(l) => {
                                        assert(leaf_ok(*l, BASE_PAGE_SIZE as int));
                                        Some(l.paddr + addr % BASE_PAGE_SIZE)
                                    },
                                }
                            },
                        }
                    },
                }
            },
        }
    }
}

/// Addresses in `[vbase, vbase + n * size)`, for `vbase` aligned to `size`
/// and `n` slots left in its table, are those whose table index at that
/// level lies in `n` slots from `vbase`'s, within the same table.
proof fn lemma_chunk(size: int, vbase: int, n: int, va: int)
    requires
        size > 0,
        vbase >= 0,
        vbase % size == 0,
        n >= 0,
        (vbase / size) % 512 + n <= 512,
        va >= 0,
    ensures
        (vbase <= va < vbase + n * size) <==> (va / (size * 512) == vbase / (size * 512) && (vbase
            / size) % 512 <= (va / size) % 512 < (vbase / size) % 512 + n),
        vbase <= va < vbase + n * size ==> va - vbase == ((va / size) % 512 - (vbase / size) % 512)
            * size + va % size,
        vbase + n * size <= (vbase / (size * 512) + 1) * (size * 512),
        (vbase / size) % 512 + n == 512 ==> (vbase + n * size) % (size * 512) == 0,
{
    let q = va / size;
    let r = va % size;
    let qb = vbase / size;
    lemma_fundamental_div_mod(va, size);
    lemma_fundamental_div_mod(vbase, size);
    lemma_div_denominator(va, size, 512);
    lemma_div_denominator(vbase, size, 512);
    assert((vbase <= va < vbase + n * size) <==> (qb <= q < qb + n)) by (nonlinear_arith)
        requires
            va == size * q + r,
            vbase == size * qb,
            0 <= r < size,
            size > 0,
    ;
    assert(va - vbase == (q - qb) * size + r) by (nonlinear_arith)
        requires
            va == size * q + r,
            vbase == size * qb,
    ;
    let h = qb / 512;
    assert(vbase + n * size <= (h + 1) * (size * 512)) by (nonlinear_arith)
        requires
            vbase == size * qb,
            qb == 512 * h + qb % 512,
            qb % 512 + n <= 512,
            size > 0,
    ;
    if qb % 512 + n == 512 {
        assert(vbase + n * size == (h + 1) * (size * 512)) by (nonlinear_arith)
            requires
                vbase == size * qb,
                qb == 512 * h + qb % 512,
                qb % 512 + n == 512,
        ;
        lemma_mod_multiples_basic(h + 1, size * 512);
    }
}

/// Indices above a level agree for addresses in one table of that level.
proof fn lemma_upper_indices(va: int, vb: int)
    requires
        va >= 0,
        vb >= 0,
    ensures
        va / LARGE_PAGE_SIZE as int == vb / LARGE_PAGE_SIZE as int ==> spec_pd_index(va)
            == spec_pd_index(vb),
        va / HUGE_PAGE_SIZE as int == vb / HUGE_PAGE_SIZE as int ==> spec_pdpt_index(va)
            == spec_pdpt_index(vb),
        va / 0x8000000000 == vb / 0x8000000000 ==> spec_pml4_index(va) == spec_pml4_index(vb),
        va / LARGE_PAGE_SIZE as int == vb / LARGE_PAGE_SIZE as int ==> va / HUGE_PAGE_SIZE as int
            == vb / HUGE_PAGE_SIZE as int,
        va / HUGE_PAGE_SIZE as int == vb / HUGE_PAGE_SIZE as int ==> va / 0x8000000000 == vb
            / 0x8000000000,
{
    lemma_div_denominator(va, 0x200000, 512);
    lemma_div_denominator(vb, 0x200000, 512);
    lemma_div_denominator(va, 0x40000000, 512);
    lemma_div_denominator(vb, 0x40000000, 512);
}

proof fn lemma_pt_wf_mono(t: PageTable, lo: int, hi: int, hi2: int)
    requires
        pt_wf(t, lo, hi),
        hi <= hi2,
    ensures
        pt_wf(t, lo, hi2),
{
}

proof fn lemma_pd_wf_mono(d: PageDirectory, lo: int, hi: int, hi2: int)
    requires
        pd_wf(d, lo, hi),
        hi <= hi2,
    ensures
        pd_wf(d, lo, hi2),
{
    assert forall|i: int| 0 <= i < 512 implies pd_entry_wf(#[trigger] d.entries@[i], lo, hi2) by {
        if let PdEntry::Table(t) = d.entries@[i] {
            lemma_pt_wf_mono(t, lo, hi, hi2);
        }
    }
}

proof fn lemma_pdpt_wf_mono(p: Pdpt, lo: int, hi: int, hi2: int)
    requires
        pdpt_wf(p, lo, hi),
        hi <= hi2,
    ensures
        pdpt_wf(p, lo, hi2),
{
    assert forall|i: int| 0 <= i < 512 implies pdpt_entry_wf(#[trigger] p.entries@[i], lo, hi2) by {
        if let PdptEntry::Table(d) = p.entries@[i] {
            lemma_pd_wf_mono(d, lo, hi, hi2);
        }
    }
}

proof fn lemma_pml4_wf_mono(v: Seq<Pml4Entry>, lo: int, hi: int, hi2: int)
    requires
        forall|i: int| 0 <= i < 512 ==> pml4_entry_wf(#[trigger] v[i], lo, hi),
        hi <= hi2,
    ensures
        forall|i: int| 0 <= i < 512 ==> pml4_entry_wf(#[trigger] v[i], lo, hi2),
{
    assert forall|i: int| 0 <= i < 512 implies pml4_entry_wf(#[trigger] v[i], lo, hi2) by {
        if let Pml4Entry::Table(p) = v[i] {
            lemma_pdpt_wf_mono(p, lo, hi, hi2);
        }
    }
}

/// Install 4 KiB leaves from index `start` on, for `psize` bytes or up to
/// the end of the table; entries already present stay as they are.
/// Returns the bytes covered.
fn fill_pt(t: &mut PageTable, start: usize, pbase: u64, psize: u64, rights: MapAction) -> (mapped:
    u64)
    requires
        old(t).entries@.len() == 512,
        forall|i: int|
            0 <= i < 512 && (#[trigger] old(t).entries@[i]) is Some ==> leaf_ok(
                old(t).entries@[i]->Some_0,
                BASE_PAGE_SIZE as int,
            ),
        start < 512,
        pbase % BASE_PAGE_SIZE == 0,
        psize % BASE_PAGE_SIZE == 0,
        psize > 0,
        pbase + psize <= PADDR_LIMIT,
        rights != MapAction::NoMap,
    ensures
        final(t).paddr == old(t).paddr,
        final(t).entries@.len() == 512,
        forall|i: int|
            0 <= i < 512 && (#[trigger] final(t).entries@[i]) is Some ==> leaf_ok(
                final(t).entries@[i]->Some_0,
                BASE_PAGE_SIZE as int,
            ),
        mapped % BASE_PAGE_SIZE == 0,
        0 < mapped <= psize,
        start + mapped as int / BASE_PAGE_SIZE as int <= 512,
        mapped == psize || start + mapped as int / BASE_PAGE_SIZE as int == 512,
        forall|i: int|
            0 <= i < 512 ==> #[trigger] final(t).entries@[i] == if start <= i < start + mapped as int
                / BASE_PAGE_SIZE as int && old(t).entries@[i] is None {
                Some(Leaf { paddr: (pbase + (i - start) * BASE_PAGE_SIZE) as u64, rights })
            } else {
                old(t).entries@[i]
            },
{
    let mut idx: usize = start;
    let mut mapped: u64 = 0;
    while mapped < psize && idx < ENTRIES_PER_TABLE
        invariant
            start <= idx <= 512,
            mapped == (idx - start) * BASE_PAGE_SIZE,
            mapped <= psize,
            psize % BASE_PAGE_SIZE == 0,
            pbase % BASE_PAGE_SIZE == 0,
            pbase + psize <= PADDR_LIMIT,
            rights != MapAction::NoMap,
            t.paddr == old(t).paddr,
            t.entries@.len() == 512,
            forall|i: int|
                0 <= i < 512 && (#[trigger] t.entries@[i]) is Some ==> leaf_ok(
                    t.entries@[i]->Some_0,
                    BASE_PAGE_SIZE as int,
                ),
            forall|i: int|
                0 <= i < 512 ==> #[trigger] t.entries@[i] == if start <= i < idx && old(
                    t,
                ).entries@[i] is None {
                    Some(Leaf { paddr: (pbase + (i - start) * BASE_PAGE_SIZE) as u64, rights })
                } else {
                    old(t).entries@[i]
                },
        decreases 512 - idx,
    {
        if t.entries[idx].is_none() {
            let l = Leaf { paddr: pbase + mapped, rights };
            assert(leaf_ok(l, BASE_PAGE_SIZE as int)) by {
                assert((pbase + mapped) % 4096 == 0);
            }
            t.entries.set(idx, Some(l));
        }
        mapped = mapped + BASE_PAGE_SIZE;
        idx = idx + 1;
    }
    mapped
}

/// Install 2 MiB leaves from index `start` on, while at least 2 MiB is
/// left, the table has room and the next entry is empty. Returns the
/// bytes covered.
fn fill_pd(
    d: &mut PageDirectory,
    start: usize,
    pbase: u64,
    psize: u64,
    rights: MapAction,
    Ghost(lo): Ghost<int>,
    Ghost(hi): Ghost<int>,
) -> (mapped: u64)
    requires
        pd_wf(*old(d), lo, hi),
        start < 512,
        old(d).entries@[start as int] is Empty,
        pbase % LARGE_PAGE_SIZE == 0,
        psize >= LARGE_PAGE_SIZE,
        pbase + psize <= PADDR_LIMIT,
        rights != MapAction::NoMap,
    ensures
        pd_wf(*final(d), lo, hi),
        final(d).paddr == old(d).paddr,
        mapped % LARGE_PAGE_SIZE == 0,
        LARGE_PAGE_SIZE <= mapped <= psize,
        start + mapped as int / LARGE_PAGE_SIZE as int <= 512,
        forall|i: int|
            0 <= i < 512 ==> #[trigger] final(d).entries@[i] == if start <= i < start + mapped as int
                / LARGE_PAGE_SIZE as int {
                PdEntry::Large(
                    Leaf { paddr: (pbase + (i - start) * LARGE_PAGE_SIZE) as u64, rights },
                )
            } else {
                old(d).entries@[i]
            },
        forall|i: int|
            start <= i < start + mapped as int / LARGE_PAGE_SIZE as int ==> (#[trigger] old(
                d,
            ).entries@[i]) is Empty,
{
    let mut idx: usize = start;
    let mut mapped: u64 = 0;
    loop
        invariant
            start < 512,
            start <= idx <= 512,
            mapped == (idx - start) * LARGE_PAGE_SIZE,
            mapped <= psize,
            idx == start ==> mapped < psize,
            idx > start ==> mapped >= LARGE_PAGE_SIZE,
            pbase % LARGE_PAGE_SIZE == 0,
            psize >= LARGE_PAGE_SIZE,
            pbase + psize <= PADDR_LIMIT,
            rights != MapAction::NoMap,
            old(d).entries@[start as int] is Empty,
            idx == start ==> d.entries@[start as int] is Empty,
            pd_wf(*old(d), lo, hi),
            d.paddr == old(d).paddr,
            d.entries@.len() == 512,
            forall|i: int| 0 <= i < 512 ==> pd_entry_wf(#[trigger] d.entries@[i], lo, hi),
            forall|i: int|
                0 <= i < 512 ==> #[trigger] d.entries@[i] == if start <= i < idx {
                    PdEntry::Large(
                        Leaf { paddr: (pbase + (i - start) * LARGE_PAGE_SIZE) as u64, rights },
                    )
                } else {
                    old(d).entries@[i]
                },
            forall|i: int| start <= i < idx ==> (#[trigger] old(d).entries@[i]) is Empty,
        ensures
            idx > start,
        decreases 512 - idx,
    {
        if idx >= ENTRIES_PER_TABLE || psize - mapped < LARGE_PAGE_SIZE {
            assert(idx > start);
            break;
        }
        if !pd_entry_is_empty(&d.entries[idx]) {
            assert(idx > start);
            break;
        }
        let l = Leaf { paddr: pbase + mapped, rights };
        assert(leaf_ok(l, LARGE_PAGE_SIZE as int)) by {
            assert((pbase + mapped) % 0x200000 == 0);
        }
        d.entries.set(idx, PdEntry::Large(l));
        mapped = mapped + LARGE_PAGE_SIZE;
        idx = idx + 1;
    }
    mapped
}

/// Install 1 GiB leaves from index `start` on, while at least 1 GiB is
/// left, the table has room and the next entry is empty. Returns the
/// bytes covered.
fn fill_pdpt(
    p: &mut Pdpt,
    start: usize,
    pbase: u64,
    psize: u64,
    rights: MapAction,
    Ghost(lo): Ghost<int>,
    Ghost(hi): Ghost<int>,
) -> (mapped: u64)
    requires
        pdpt_wf(*old(p), lo, hi),
        start < 512,
        old(p).entries@[start as int] is Empty,
        pbase % HUGE_PAGE_SIZE == 0,
        psize >= HUGE_PAGE_SIZE,
        pbase + psize <= PADDR_LIMIT,
        rights != MapAction::NoMap,
    ensures
        pdpt_wf(*final(p), lo, hi),
        final(p).paddr == old(p).paddr,
        mapped % HUGE_PAGE_SIZE == 0,
        HUGE_PAGE_SIZE <= mapped <= psize,
        start + mapped as int / HUGE_PAGE_SIZE as int <= 512,
        forall|i: int|
            0 <= i < 512 ==> #[trigger] final(p).entries@[i] == if start <= i < start + mapped as int
                / HUGE_PAGE_SIZE as int {
                PdptEntry::Huge(
                    Leaf { paddr: (pbase + (i - start) * HUGE_PAGE_SIZE) as u64, rights },
                )
            } else {
                old(p).entries@[i]
            },
        forall|i: int|
            start <= i < start + mapped as int / HUGE_PAGE_SIZE as int ==> (#[trigger] old(
                p,
            ).entries@[i]) is Empty,
{
    let mut idx: usize = start;
    let mut mapped: u64 = 0;
    loop
        invariant
            start < 512,
            start <= idx <= 512,
            mapped == (idx - start) * HUGE_PAGE_SIZE,
            mapped <= psize,
            idx == start ==> mapped < psize,
            idx > start ==> mapped >= HUGE_PAGE_SIZE,
            pbase % HUGE_PAGE_SIZE == 0,
            psize >= HUGE_PAGE_SIZE,
            pbase + psize <= PADDR_LIMIT,
            rights != MapAction::NoMap,
            old(p).entries@[start as int] is Empty,
            idx == start ==> p.entries@[start as int] is Empty,
            pdpt_wf(*old(p), lo, hi),
            p.paddr == old(p).paddr,
            p.entries@.len() == 512,
            forall|i: int| 0 <= i < 512 ==> pdpt_entry_wf(#[trigger] p.entries@[i], lo, hi),
            forall|i: int|
                0 <= i < 512 ==> #[trigger] p.entries@[i] == if start <= i < idx {
                    PdptEntry::Huge(
                        Leaf { paddr: (pbase + (i - start) * HUGE_PAGE_SIZE) as u64, rights },
                    )
                } else {
                    old(p).entries@[i]
                },
            forall|i: int| start <= i < idx ==> (#[trigger] old(p).entries@[i]) is Empty,
        ensures
            idx > start,
        decreases 512 - idx,
    {
        if idx >= ENTRIES_PER_TABLE || psize - mapped < HUGE_PAGE_SIZE {
            assert(idx > start);
            break;
        }
        if !pdpt_entry_is_empty(&p.entries[idx]) {
            assert(idx > start);
            break;
        }
        let l = Leaf { paddr: pbase + mapped, rights };
        assert(leaf_ok(l, HUGE_PAGE_SIZE as int)) by {
            assert((pbase + mapped) % 0x40000000 == 0);
        }
        p.entries.set(idx, PdptEntry::Huge(l));
        mapped = mapped + HUGE_PAGE_SIZE;
        idx = idx + 1;
    }
    mapped
}

fn pd_entry_is_empty(e: &PdEntry) -> (r: bool)
    ensures
        r == e is Empty,
{
    match e {
        PdEntry::Empty => true,
        _ => false,
    }
}

fn pdpt_entry_is_empty(e: &PdptEntry) -> (r: bool)
    ensures
        r == e is Empty,
{
    match e {
        PdptEntry::Empty => true,
        _ => false,
    }
}

/// Take one page of the arena for a new table.
fn allocate_one_page(pmem: &mut PhysicalMemory) -> (r: Result<u64, MapError>)
    requires
        old(pmem).wf(),
    ensures
        final(pmem).wf(),
        r is Ok ==> PhysicalMemory::alloc_step(*old(pmem), 1, r->Ok_0, *final(pmem)),
        r is Ok ==> table_ok(
            r->Ok_0,
            final(pmem).spec_offset() as int,
            final(pmem).spec_offset() + final(pmem).spec_allocated(),
        ),
        r is Err ==> r == Err::<u64, MapError>(MapError::OutOfMemory) && *final(pmem) == *old(pmem)
            && old(pmem).free_pages() < 1,
{
    match pmem.alloc_pages(1) {
        Ok(p) => Ok(p),
        Err(_) => Err(MapError::OutOfMemory),
    }
}

/// A new page table with every entry empty.
fn new_pt(pmem: &mut PhysicalMemory) -> (r: Result<PageTable, MapError>)
    requires
        old(pmem).wf(),
    ensures
        final(pmem).wf(),
        final(pmem).spec_offset() == old(pmem).spec_offset(),
        final(pmem).spec_size() == old(pmem).spec_size(),
        final(pmem).spec_allocated() >= old(pmem).spec_allocated(),
        r is Ok ==> pt_wf(
            r->Ok_0,
            final(pmem).spec_offset() as int,
            final(pmem).spec_offset() + final(pmem).spec_allocated(),
        ),
        r is Ok ==> forall|i: int| 0 <= i < 512 ==> (#[trigger] r->Ok_0.entries@[i]) is None,
        r is Ok ==> final(pmem).spec_allocated() == old(pmem).spec_allocated() + BASE_PAGE_SIZE,
        r is Ok ==> r->Ok_0.paddr == old(pmem).spec_offset() + old(pmem).spec_allocated(),
        r is Err ==> r == Err::<PageTable, MapError>(MapError::OutOfMemory) && *final(pmem) == *old(
            pmem,
        ) && old(pmem).free_pages() < 1,
{
    let paddr = match allocate_one_page(pmem) {
        Ok(p) => p,
        Err(e) => return Err(e),
    };
    let mut entries: Vec<Option<Leaf>> = Vec::new();
    while entries.len() < ENTRIES_PER_TABLE
        invariant
            entries@.len() <= 512,
            forall|i: int| 0 <= i < entries@.len() ==> (#[trigger] entries@[i]) is None,
        decreases 512 - entries@.len(),
    {
        entries.push(None);
    }
    Ok(PageTable { paddr, entries })
}

/// A new page directory with every entry empty.
fn new_pd(pmem: &mut PhysicalMemory) -> (r: Result<PageDirectory, MapError>)
    requires
        old(pmem).wf(),
    ensures
        final(pmem).wf(),
        final(pmem).spec_offset() == old(pmem).spec_offset(),
        final(pmem).spec_size() == old(pmem).spec_size(),
        final(pmem).spec_allocated() >= old(pmem).spec_allocated(),
        r is Ok ==> pd_wf(
            r->Ok_0,
            final(pmem).spec_offset() as int,
            final(pmem).spec_offset() + final(pmem).spec_allocated(),
        ),
        r is Ok ==> forall|i: int| 0 <= i < 512 ==> (#[trigger] r->Ok_0.entries@[i]) is Empty,
        r is Ok ==> final(pmem).spec_allocated() == old(pmem).spec_allocated() + BASE_PAGE_SIZE,
        r is Ok ==> r->Ok_0.paddr == old(pmem).spec_offset() + old(pmem).spec_allocated(),
        r is Err ==> r == Err::<PageDirectory, MapError>(MapError::OutOfMemory) && *final(pmem)
            == *old(pmem) && old(pmem).free_pages() < 1,
{
    let paddr = match allocate_one_page(pmem) {
        Ok(p) => p,
        Err(e) => return Err(e),
    };
    let mut entries: Vec<PdEntry> = Vec::new();
    while entries.len() < ENTRIES_PER_TABLE
        invariant
            entries@.len() <= 512,
            forall|i: int| 0 <= i < entries@.len() ==> (#[trigger] entries@[i]) is Empty,
        decreases 512 - entries@.len(),
    {
        entries.push(PdEntry::Empty);
    }
    Ok(PageDirectory { paddr, entries })
}

/// A new page-directory-pointer table with every entry empty.
fn new_pdpt(pmem: &mut PhysicalMemory) -> (r: Result<Pdpt, MapError>)
    requires
        old(pmem).wf(),
    ensures
        final(pmem).wf(),
        final(pmem).spec_offset() == old(pmem).spec_offset(),
        final(pmem).spec_size() == old(pmem).spec_size(),
        final(pmem).spec_allocated() >= old(pmem).spec_allocated(),
        r is Ok ==> pdpt_wf(
            r->Ok_0,
            final(pmem).spec_offset() as int,
            final(pmem).spec_offset() + final(pmem).spec_allocated(),
        ),
        r is Ok ==> forall|i: int| 0 <= i < 512 ==> (#[trigger] r->Ok_0.entries@[i]) is Empty,
        r is Ok ==> final(pmem).spec_allocated() == old(pmem).spec_allocated() + BASE_PAGE_SIZE,
        r is Ok ==> r->Ok_0.paddr == old(pmem).spec_offset() + old(pmem).spec_allocated(),
        r is Err ==> r == Err::<Pdpt, MapError>(MapError::OutOfMemory) && *final(pmem) == *old(
            pmem,
        ) && old(pmem).free_pages() < 1,
{
    let paddr = match allocate_one_page(pmem) {
        Ok(p) => p,
        Err(e) => return Err(e),
    };
    let mut entries: Vec<PdptEntry> = Vec::new();
    while entries.len() < ENTRIES_PER_TABLE
        invariant
            entries@.len() <= 512,
            forall|i: int| 0 <= i < entries@.len() ==> (#[trigger] entries@[i]) is Empty,
        decreases 512 - entries@.len(),
    {
        entries.push(PdptEntry::Empty);
    }
    Ok(Pdpt { paddr, entries })
}

/// Bytes a mapping step covered: none when it failed.
pub open spec fn chunk_len(r: Result<u64, MapError>) -> int {
    match r {
        Ok(m) => m as int,
        Err(_) => 0,
    }
}

/// The effect of installing `len` bytes of 2 MiB pages from `vbase` on,
/// into empty slots, as seen by translation within the directory's region.
#[verifier::spinoff_prover]
#[verifier::rlimit(60)]
proof fn lemma_pd_large_step(
    d0: PageDirectory,
    d: PageDirectory,
    vbase: int,
    pbase: int,
    len: int,
    rights: MapAction,
)
    requires
        vbase >= 0,
        pbase >= 0,
        pbase + len <= PADDR_LIMIT,
        pbase % LARGE_PAGE_SIZE as int == 0,
        vbase % LARGE_PAGE_SIZE as int == 0,
        len % LARGE_PAGE_SIZE as int == 0,
        len >= LARGE_PAGE_SIZE,
        spec_pd_index(vbase) + len / LARGE_PAGE_SIZE as int <= 512,
        d.entries@.len() == 512,
        forall|i: int|
            0 <= i < 512 ==> #[trigger] d.entries@[i] == if spec_pd_index(vbase) <= i
                < spec_pd_index(vbase) + len / LARGE_PAGE_SIZE as int {
                PdEntry::Large(
                    Leaf { paddr: (pbase + (i - spec_pd_index(vbase)) * LARGE_PAGE_SIZE) as u64, rights },
                )
            } else {
                d0.entries@[i]
            },
        forall|i: int|
            spec_pd_index(vbase) <= i < spec_pd_index(vbase) + len / LARGE_PAGE_SIZE as int
                ==> (#[trigger] d0.entries@[i]) is Empty,
    ensures
        vbase + len <= (vbase / HUGE_PAGE_SIZE as int + 1) * HUGE_PAGE_SIZE as int,
        forall|va: int|
            va >= 0 && va / HUGE_PAGE_SIZE as int == vbase / HUGE_PAGE_SIZE as int
                ==> #[trigger] pd_translate(d, va) == after_map(pd_translate(d0, va), vbase, pbase, len, va),
        forall|va: int|
            va >= 0 && va / HUGE_PAGE_SIZE as int == vbase / HUGE_PAGE_SIZE as int && !(vbase <= va
                < vbase + len) ==> #[trigger] pd_large(d, va) == pd_large(d0, va),
        forall|va: int| vbase <= va < vbase + len ==> !#[trigger] pd_large(d0, va),
        forall|va: int|
            va >= 0 && va / HUGE_PAGE_SIZE as int == vbase / HUGE_PAGE_SIZE as int
                ==> #[trigger] pd_leaf_size(d, va) == if pd_translate(d0, va) is Some {
                pd_leaf_size(d0, va)
            } else {
                pd_leaf_size(d, va)
            } && (pd_translate(d0, va) is None ==> size_fits(vbase, pbase, len, va, pd_leaf_size(d, va))),
{
    let n = len / LARGE_PAGE_SIZE as int;
    let s2 = spec_pd_index(vbase);
    lemma_chunk(LARGE_PAGE_SIZE as int, vbase, n, vbase);
    assert forall|va: int|
        va >= 0 && va / HUGE_PAGE_SIZE as int == vbase / HUGE_PAGE_SIZE as int implies #[trigger] pd_translate(
            d,
            va,
        ) == after_map(pd_translate(d0, va), vbase, pbase, len, va) by {
        lemma_chunk(LARGE_PAGE_SIZE as int, vbase, n, va);
        let i2 = spec_pd_index(va);
        if s2 <= i2 < s2 + n {
            assert(vbase <= va < vbase + len);
            assert(d0.entries@[i2] is Empty);
            assert(pbase + (i2 - s2) * 0x200000 < PADDR_LIMIT);
            assert(pd_translate(d, va) == Some(pbase + (i2 - s2) * 0x200000 + va % 0x200000));
        } else {
            assert(!(vbase <= va < vbase + len));
            assert(d.entries@[i2] == d0.entries@[i2]);
        }
    }
    assert forall|va: int|
        va >= 0 && va / HUGE_PAGE_SIZE as int == vbase / HUGE_PAGE_SIZE as int && !(vbase <= va
            < vbase + len) implies #[trigger] pd_large(d, va) == pd_large(d0, va) by {
        lemma_chunk(LARGE_PAGE_SIZE as int, vbase, n, va);
        assert(d.entries@[spec_pd_index(va)] == d0.entries@[spec_pd_index(va)]);
    }
    assert forall|va: int|
        va >= 0 && va / HUGE_PAGE_SIZE as int == vbase / HUGE_PAGE_SIZE as int implies #[trigger] pd_leaf_size(d, va) == (if pd_translate(d0, va) is Some {
            pd_leaf_size(d0, va)
        } else {
            pd_leaf_size(d, va)
        }) && (pd_translate(d0, va) is None ==> size_fits(vbase, pbase, len, va, pd_leaf_size(d, va))) by {
        lemma_chunk(LARGE_PAGE_SIZE as int, vbase, n, va);
        let i2 = spec_pd_index(va);
        if s2 <= i2 < s2 + n {
            assert(vbase <= va < vbase + len);
            assert(d0.entries@[i2] is Empty);
            assert((va / 0x200000) * 0x200000 == va - va % 0x200000);
            assert(page_fits(vbase, pbase, len, va, LARGE_PAGE_SIZE as int));
        } else {
            assert(d.entries@[i2] == d0.entries@[i2]);
        }
    }
    assert forall|va: int| vbase <= va < vbase + len implies !#[trigger] pd_large(d0, va) by {
        lemma_chunk(LARGE_PAGE_SIZE as int, vbase, n, va);
    }
}

/// The effect of filling `len` bytes of 4 KiB pages from `vbase` on, in the
/// page table of `vbase`'s slot (an existing table, or a new empty one that
/// took an empty slot), as seen by translation within the directory's region.
proof fn lemma_pd_small_step(
    d0: PageDirectory,
    d: PageDirectory,
    pt0: PageTable,
    pt: PageTable,
    vbase: int,
    pbase: int,
    len: int,
    rights: MapAction,
)
    requires
        vbase >= 0,
        pbase >= 0,
        pbase + len <= PADDR_LIMIT,
        vbase % BASE_PAGE_SIZE as int == 0,
        len % BASE_PAGE_SIZE as int == 0,
        len > 0,
        spec_pt_index(vbase) + len / BASE_PAGE_SIZE as int <= 512,
        d0.entries@.len() == 512,
        d.entries@ == d0.entries@.update(spec_pd_index(vbase), PdEntry::Table(pt)),
        d0.entries@[spec_pd_index(vbase)] == PdEntry::Table(pt0) || (d0.entries@[spec_pd_index(
            vbase,
        )] is Empty && forall|i: int| 0 <= i < 512 ==> (#[trigger] pt0.entries@[i]) is None),
        pt0.entries@.len() == 512,
        forall|i: int|
            0 <= i < 512 ==> #[trigger] pt.entries@[i] == if spec_pt_index(vbase) <= i
                < spec_pt_index(vbase) + len / BASE_PAGE_SIZE as int && pt0.entries@[i] is None {
                Some(
                    Leaf { paddr: (pbase + (i - spec_pt_index(vbase)) * BASE_PAGE_SIZE) as u64, rights },
                )
            } else {
                pt0.entries@[i]
            },
    ensures
        vbase + len <= (vbase / HUGE_PAGE_SIZE as int + 1) * HUGE_PAGE_SIZE as int,
        forall|va: int|
            va >= 0 && va / HUGE_PAGE_SIZE as int == vbase / HUGE_PAGE_SIZE as int
                ==> #[trigger] pd_translate(d, va) == after_map(pd_translate(d0, va), vbase, pbase, len, va),
        forall|va: int|
            va >= 0 && va / HUGE_PAGE_SIZE as int == vbase / HUGE_PAGE_SIZE as int
                ==> #[trigger] pd_large(d, va) == pd_large(d0, va),
        forall|va: int| vbase <= va < vbase + len ==> !#[trigger] pd_large(d0, va),
        forall|va: int|
            va >= 0 && va / HUGE_PAGE_SIZE as int == vbase / HUGE_PAGE_SIZE as int
                ==> #[trigger] pd_leaf_size(d, va) == if pd_translate(d0, va) is Some {
                pd_leaf_size(d0, va)
            } else {
                pd_leaf_size(d, va)
            } && (pd_translate(d0, va) is None ==> size_fits(vbase, pbase, len, va, pd_leaf_size(d, va))),
{
    let n = len / BASE_PAGE_SIZE as int;
    let i2 = spec_pd_index(vbase);
    assert forall|va: int|
        va >= 0 && va / HUGE_PAGE_SIZE as int == vbase / HUGE_PAGE_SIZE as int implies #[trigger] pd_leaf_size(d, va) == if pd_translate(d0, va) is Some {
            pd_leaf_size(d0, va)
        } else {
            pd_leaf_size(d, va)
        } && (pd_translate(d0, va) is None ==> size_fits(vbase, pbase, len, va, pd_leaf_size(d, va))) by {
        if spec_pd_index(va) != i2 {
            assert(d.entries@[spec_pd_index(va)] == d0.entries@[spec_pd_index(va)]);
        }
    }
    lemma_chunk(BASE_PAGE_SIZE as int, vbase, n, vbase);
    lemma_upper_indices(vbase, vbase);
    lemma_div_denominator(vbase, 0x200000, 512);
    assert forall|va: int|
        va >= 0 && va / HUGE_PAGE_SIZE as int == vbase / HUGE_PAGE_SIZE as int implies #[trigger] pd_translate(
            d,
            va,
        ) == after_map(pd_translate(d0, va), vbase, pbase, len, va) && pd_large(d, va) == pd_large(
            d0,
            va,
        ) by {
        lemma_chunk(BASE_PAGE_SIZE as int, vbase, n, va);
        lemma_upper_indices(va, vbase);
        lemma_div_denominator(va, 0x200000, 512);
        if spec_pd_index(va) == i2 {
            assert(va / 0x200000 == vbase / 0x200000);
            assert(pd_translate(d, va) == pt_translate(pt, va));
            assert(pd_translate(d0, va) == pt_translate(pt0, va));
            let i1 = spec_pt_index(va);
            if spec_pt_index(vbase) <= i1 < spec_pt_index(vbase) + n && pt0.entries@[i1] is None {
                assert(pt.entries@[i1] == Some(
                    Leaf { paddr: (pbase + (i1 - spec_pt_index(vbase)) * BASE_PAGE_SIZE) as u64, rights },
                ));
                assert(vbase <= va < vbase + len);
                assert(pbase + (i1 - spec_pt_index(vbase)) * 4096 + va % 4096 == pbase + va - vbase);
            }
        } else {
            assert(d.entries@[spec_pd_index(va)] == d0.entries@[spec_pd_index(va)]);
        }
    }
    assert forall|va: int| vbase <= va < vbase + len implies !#[trigger] pd_large(d0, va) by {
        lemma_chunk(BASE_PAGE_SIZE as int, vbase, n, va);
        lemma_upper_indices(va, vbase);
    }
    assert(vbase + len <= (vbase / HUGE_PAGE_SIZE as int + 1) * HUGE_PAGE_SIZE as int);
}

/// After 2 MiB pages were installed for `[vbase, vbase + len)` (a step of a
/// request for `psize` bytes): each newly mapped address got the size the
/// request picks, every 2 MiB slot that starts in the step and could take a
/// 2 MiB page lies wholly in it, and slots after the step are as they were.
#[verifier::spinoff_prover]
proof fn lemma_pd_large_max(
    d0: PageDirectory,
    d: PageDirectory,
    vbase: int,
    pbase: int,
    len: int,
    psize: int,
    rights: MapAction,
)
    requires
        vbase >= 0,
        pbase >= 0,
        len <= psize,
        pbase + len <= PADDR_LIMIT,
        pbase % LARGE_PAGE_SIZE as int == 0,
        vbase % LARGE_PAGE_SIZE as int == 0,
        len % LARGE_PAGE_SIZE as int == 0,
        len >= LARGE_PAGE_SIZE,
        spec_pd_index(vbase) + len / LARGE_PAGE_SIZE as int <= 512,
        d.entries@.len() == 512,
        forall|i: int|
            0 <= i < 512 ==> #[trigger] d.entries@[i] == if spec_pd_index(vbase) <= i
                < spec_pd_index(vbase) + len / LARGE_PAGE_SIZE as int {
                PdEntry::Large(
                    Leaf { paddr: (pbase + (i - spec_pd_index(vbase)) * LARGE_PAGE_SIZE) as u64, rights },
                )
            } else {
                d0.entries@[i]
            },
        forall|i: int|
            spec_pd_index(vbase) <= i < spec_pd_index(vbase) + len / LARGE_PAGE_SIZE as int
                ==> (#[trigger] d0.entries@[i]) is Empty,
    ensures
        forall|va: int|
            vbase <= va < vbase + len ==> #[trigger] pd_leaf_size(d, va) == Some(
                pick_size(false, pd_slot_free(d0, va), vbase, pbase, psize, va),
            ),
        forall|va: int|
            va >= 0 && vbase <= slot_start(va, LARGE_PAGE_SIZE as int) < vbase + len
                ==> slot_start(va, LARGE_PAGE_SIZE as int) + LARGE_PAGE_SIZE <= vbase
                + len,
        forall|va: int|
            va >= 0 && va / HUGE_PAGE_SIZE as int == vbase / HUGE_PAGE_SIZE as int && slot_start(va, LARGE_PAGE_SIZE as int) >= vbase + len
                ==> #[trigger] pd_slot_free(d, va) == pd_slot_free(d0, va),
{
    let n = len / LARGE_PAGE_SIZE as int;
    let s2 = spec_pd_index(vbase);
    assert forall|va: int| vbase <= va < vbase + len implies #[trigger] pd_leaf_size(d, va) == Some(
        pick_size(false, pd_slot_free(d0, va), vbase, pbase, psize, va),
    ) by {
        lemma_chunk(LARGE_PAGE_SIZE as int, vbase, n, va);
        assert((va / 0x200000) * 0x200000 == va - va % 0x200000);
        assert(d0.entries@[spec_pd_index(va)] is Empty);
        assert(page_fits(vbase, pbase, psize, va, LARGE_PAGE_SIZE as int));
    }
    assert forall|va: int|
        va >= 0 && vbase <= slot_start(va, LARGE_PAGE_SIZE as int) < vbase + len
            implies slot_start(va, LARGE_PAGE_SIZE as int) + LARGE_PAGE_SIZE <= vbase
            + len by {
        assert(((va / 0x200000) * 0x200000) % 0x200000 == 0);
    }
    assert forall|va: int|
        va >= 0 && va / HUGE_PAGE_SIZE as int == vbase / HUGE_PAGE_SIZE as int && slot_start(va, LARGE_PAGE_SIZE as int) >= vbase + len
            implies #[trigger] pd_slot_free(d, va) == pd_slot_free(d0, va) by {
        lemma_chunk(LARGE_PAGE_SIZE as int, vbase, n, va);
        assert((va / 0x200000) * 0x200000 == va - va % 0x200000);
        assert(d.entries@[spec_pd_index(va)] == d0.entries@[spec_pd_index(va)]);
    }
}

/// After 4 KiB pages were filled in for `[vbase, vbase + len)` in the page
/// table of `vbase`'s slot, because a 2 MiB page could not start at `vbase`:
/// each newly mapped address got the size the request picks, no 2 MiB slot
/// that could take a 2 MiB page starts in the step, and later slots are as
/// they were.
#[verifier::spinoff_prover]
proof fn lemma_pd_small_max(
    d0: PageDirectory,
    d: PageDirectory,
    pt0: PageTable,
    pt: PageTable,
    vbase: int,
    pbase: int,
    len: int,
    psize: int,
    rights: MapAction,
)
    requires
        vbase >= 0,
        pbase >= 0,
        len <= psize,
        pbase + len <= PADDR_LIMIT,
        vbase % BASE_PAGE_SIZE as int == 0,
        pbase % BASE_PAGE_SIZE as int == 0,
        len % BASE_PAGE_SIZE as int == 0,
        len > 0,
        spec_pt_index(vbase) + len / BASE_PAGE_SIZE as int <= 512,
        d0.entries@.len() == 512,
        d.entries@ == d0.entries@.update(spec_pd_index(vbase), PdEntry::Table(pt)),
        d0.entries@[spec_pd_index(vbase)] == PdEntry::Table(pt0) || (d0.entries@[spec_pd_index(
            vbase,
        )] is Empty && forall|i: int| 0 <= i < 512 ==> (#[trigger] pt0.entries@[i]) is None),
        d0.entries@[spec_pd_index(vbase)] is Empty ==> !(vbase % LARGE_PAGE_SIZE as int == 0 && pbase
            % LARGE_PAGE_SIZE as int == 0 && psize >= LARGE_PAGE_SIZE),
        pt0.entries@.len() == 512,
        forall|i: int|
            0 <= i < 512 ==> #[trigger] pt.entries@[i] == if spec_pt_index(vbase) <= i
                < spec_pt_index(vbase) + len / BASE_PAGE_SIZE as int && pt0.entries@[i] is None {
                Some(
                    Leaf { paddr: (pbase + (i - spec_pt_index(vbase)) * BASE_PAGE_SIZE) as u64, rights },
                )
            } else {
                pt0.entries@[i]
            },
    ensures
        forall|va: int|
            vbase <= va < vbase + len && pd_translate(d0, va) is None ==> #[trigger] pd_leaf_size(
                d,
                va,
            ) == Some(pick_size(false, pd_slot_free(d0, va), vbase, pbase, psize, va)),
        forall|va: int|
            va >= 0 && vbase <= slot_start(va, LARGE_PAGE_SIZE as int) < vbase + len
                && pd_slot_free(d0, va) && page_fits(vbase, pbase, psize, va, LARGE_PAGE_SIZE as int)
                ==> slot_start(va, LARGE_PAGE_SIZE as int) + LARGE_PAGE_SIZE <= vbase
                + len,
        forall|va: int|
            va >= 0 && va / HUGE_PAGE_SIZE as int == vbase / HUGE_PAGE_SIZE as int && slot_start(va, LARGE_PAGE_SIZE as int) >= vbase + len
                ==> #[trigger] pd_slot_free(d, va) == pd_slot_free(d0, va),
{
    let n = len / BASE_PAGE_SIZE as int;
    let i2 = spec_pd_index(vbase);
    lemma_chunk(BASE_PAGE_SIZE as int, vbase, n, vbase);
    lemma_upper_indices(vbase, vbase);
    lemma_div_denominator(vbase, 0x200000, 512);
    assert forall|va: int|
        vbase <= va < vbase + len && pd_translate(d0, va) is None implies #[trigger] pd_leaf_size(
            d,
            va,
        ) == Some(pick_size(false, pd_slot_free(d0, va), vbase, pbase, psize, va)) by {
        lemma_chunk(BASE_PAGE_SIZE as int, vbase, n, va);
        lemma_upper_indices(va, vbase);
        assert(va / 0x200000 == vbase / 0x200000);
        assert(spec_pd_index(va) == i2);
        assert((va / 0x200000) * 0x200000 == va - va % 0x200000);
        assert((vbase / 0x200000) * 0x200000 == vbase - vbase % 0x200000);
        assert(!(pd_slot_free(d0, va) && page_fits(vbase, pbase, psize, va, LARGE_PAGE_SIZE as int)));
    }
    assert forall|va: int|
        va >= 0 && vbase <= slot_start(va, LARGE_PAGE_SIZE as int) < vbase + len
            && pd_slot_free(d0, va) && page_fits(vbase, pbase, psize, va, LARGE_PAGE_SIZE as int)
            implies slot_start(va, LARGE_PAGE_SIZE as int) + LARGE_PAGE_SIZE <= vbase
            + len by {
        let m = (va / 0x200000) * 0x200000;
        assert(m % 0x200000 == 0);
        assert(m / 0x200000 == va / 0x200000);
        lemma_chunk(BASE_PAGE_SIZE as int, vbase, n, m);
        assert(m / 0x200000 == vbase / 0x200000);
        lemma_upper_indices(va, vbase);
        assert(vbase % 0x200000 == 0);
        assert(false);
    }
    assert forall|va: int|
        va >= 0 && va / HUGE_PAGE_SIZE as int == vbase / HUGE_PAGE_SIZE as int && slot_start(va, LARGE_PAGE_SIZE as int) >= vbase + len
            implies #[trigger] pd_slot_free(d, va) == pd_slot_free(d0, va) by {
        lemma_upper_indices(va, vbase);
        lemma_div_denominator(va, 0x200000, 512);
        assert((va / 0x200000) * 0x200000 == va - va % 0x200000);
        if spec_pd_index(va) == i2 {
            assert(va / 0x200000 == vbase / 0x200000);
            assert(false);
        }
    }
}

/// One step of a mapping request inside the 1 GiB region of a page
/// directory: 2 MiB pages where `vbase`, `pbase` and the length allow it and
/// the slot is free, else 4 KiB pages in the page table of `vbase`'s slot.
#[verifier::spinoff_prover]
#[verifier::rlimit(100)]
fn pd_chunk(
    d: &mut PageDirectory,
    pmem: &mut PhysicalMemory,
    vbase: u64,
    pbase: u64,
    psize: u64,
    rights: MapAction,
) -> (r: Result<u64, MapError>)
    requires
        old(pmem).wf(),
        pd_wf(
            *old(d),
            old(pmem).spec_offset() as int,
            old(pmem).spec_offset() + old(pmem).spec_allocated(),
        ),
        vbase % BASE_PAGE_SIZE == 0,
        pbase % BASE_PAGE_SIZE == 0,
        psize % BASE_PAGE_SIZE == 0,
        psize > 0,
        pbase + psize <= PADDR_LIMIT,
        rights != MapAction::NoMap,
    ensures
        final(pmem).wf(),
        final(pmem).spec_offset() == old(pmem).spec_offset(),
        final(pmem).spec_size() == old(pmem).spec_size(),
        final(pmem).spec_allocated() >= old(pmem).spec_allocated(),
        pd_wf(
            *final(d),
            final(pmem).spec_offset() as int,
            final(pmem).spec_offset() + final(pmem).spec_allocated(),
        ),
        final(d).paddr == old(d).paddr,
        r is Ok ==> 0 < r->Ok_0 <= psize && r->Ok_0 % BASE_PAGE_SIZE == 0 && vbase + r->Ok_0 <= (
        vbase as int / HUGE_PAGE_SIZE as int + 1) * HUGE_PAGE_SIZE as int,
        r is Ok ==> r->Ok_0 == psize || (vbase + r->Ok_0) % LARGE_PAGE_SIZE as int == 0,
        final(pmem).spec_allocated() <= old(pmem).spec_allocated() + BASE_PAGE_SIZE,
        r == Err::<u64, MapError>(MapError::OutOfMemory) ==> old(pmem).free_pages() < 1,
        r is Err ==> (r == Err::<u64, MapError>(MapError::OutOfMemory) && final(pmem).free_pages()
            < 1) || (r == Err::<u64, MapError>(MapError::AlreadyMapped(vbase)) && pd_large(
            *old(d),
            vbase as int,
        )),
        forall|va: int|
            va >= 0 && va / HUGE_PAGE_SIZE as int == vbase as int / HUGE_PAGE_SIZE as int ==> #[trigger] pd_translate(
                *final(d),
                va,
            ) == after_map(pd_translate(*old(d), va), vbase as int, pbase as int, chunk_len(r), va),
        forall|va: int|
            va >= 0 && va / HUGE_PAGE_SIZE as int == vbase as int / HUGE_PAGE_SIZE as int && !(vbase <= va
                < vbase + chunk_len(r)) ==> #[trigger] pd_large(*final(d), va) == pd_large(
                *old(d),
                va,
            ),
        forall|va: int| vbase <= va < vbase + chunk_len(r) ==> !#[trigger] pd_large(*old(d), va),
        forall|va: int|
            va >= 0 && va / HUGE_PAGE_SIZE as int == vbase as int / HUGE_PAGE_SIZE as int
                ==> #[trigger] pd_leaf_size(*final(d), va) == if pd_translate(*old(d), va) is Some {
                pd_leaf_size(*old(d), va)
            } else {
                pd_leaf_size(*final(d), va)
            } && (pd_translate(*old(d), va) is None ==> size_fits(
                vbase as int,
                pbase as int,
                psize as int,
                va,
                pd_leaf_size(*final(d), va),
            )),
        r is Ok ==> forall|va: int|
            vbase <= va < vbase + r->Ok_0 && pd_translate(*old(d), va) is None ==> #[trigger] pd_leaf_size(
                *final(d),
                va,
            ) == Some(pick_size(false, pd_slot_free(*old(d), va), vbase as int, pbase as int, psize as int, va)),
        r is Ok ==> forall|va: int|
            va >= 0 && vbase <= slot_start(va, LARGE_PAGE_SIZE as int) < vbase + r->Ok_0
                && #[trigger] pd_slot_free(*old(d), va) && page_fits(vbase as int, pbase as int, psize as int, va, LARGE_PAGE_SIZE as int)
                ==> slot_start(va, LARGE_PAGE_SIZE as int) + LARGE_PAGE_SIZE <= vbase + r->Ok_0,
        r is Ok ==> forall|va: int|
            va >= 0 && va / HUGE_PAGE_SIZE as int == vbase as int / HUGE_PAGE_SIZE as int
                && slot_start(va, LARGE_PAGE_SIZE as int) >= vbase + r->Ok_0
                ==> #[trigger] pd_slot_free(*final(d), va) == pd_slot_free(*old(d), va),
        pd_grows(
            *old(d),
            *final(d),
            rights,
            old(pmem).spec_offset() + old(pmem).spec_allocated(),
        ),
        pd_leaf_size(*old(d), vbase as int) == Some(BASE_PAGE_SIZE as int) ==> r is Ok
            && final(pmem).spec_allocated() == old(pmem).spec_allocated(),
        final(pmem).spec_allocated() == old(pmem).spec_allocated() + BASE_PAGE_SIZE * (pd_tables(
            final(d).entries@,
            512,
        ) - pd_tables(old(d).entries@, 512)),
        final(pmem).spec_allocated() <= old(pmem).spec_allocated() + if pd_slot_free(
            *old(d),
            vbase as int,
        ) && !(vbase % LARGE_PAGE_SIZE == 0 && pbase % LARGE_PAGE_SIZE == 0 && psize >= LARGE_PAGE_SIZE) {
            BASE_PAGE_SIZE as int
        } else {
            0
        },
        r is Ok ==> !pd_slot_free(*final(d), vbase as int),
        r == Err::<u64, MapError>(MapError::OutOfMemory) ==> pd_slot_free(*old(d), vbase as int)
            && !large_step(vbase as int, pbase as int, psize as int),
{
    proof {
        assert(old(d).entries@.len() == 512);
    }
    let i2 = pd_index(vbase);
    if pd_entry_is_empty(&d.entries[i2]) && vbase % LARGE_PAGE_SIZE == 0 && pbase % LARGE_PAGE_SIZE == 0
        && psize >= LARGE_PAGE_SIZE {
        pd_chunk_large(d, pmem, vbase, pbase, psize, rights)
    } else {
        pd_chunk_small(d, pmem, vbase, pbase, psize, rights)
    }
}

/// The step of `pd_chunk` that installs 2 MiB pages.
#[verifier::spinoff_prover]
#[verifier::rlimit(100)]
fn pd_chunk_large(
    d: &mut PageDirectory,
    pmem: &mut PhysicalMemory,
    vbase: u64,
    pbase: u64,
    psize: u64,
    rights: MapAction,
) -> (r: Result<u64, MapError>)
    requires
        old(d).entries@[spec_pd_index(vbase as int)] is Empty,
        vbase % LARGE_PAGE_SIZE == 0 && pbase % LARGE_PAGE_SIZE == 0 && psize >= LARGE_PAGE_SIZE,
        old(pmem).wf(),
        pd_wf(
            *old(d),
            old(pmem).spec_offset() as int,
            old(pmem).spec_offset() + old(pmem).spec_allocated(),
        ),
        vbase % BASE_PAGE_SIZE == 0,
        pbase % BASE_PAGE_SIZE == 0,
        psize % BASE_PAGE_SIZE == 0,
        psize > 0,
        pbase + psize <= PADDR_LIMIT,
        rights != MapAction::NoMap,
    ensures
        final(pmem).wf(),
        final(pmem).spec_offset() == old(pmem).spec_offset(),
        final(pmem).spec_size() == old(pmem).spec_size(),
        final(pmem).spec_allocated() >= old(pmem).spec_allocated(),
        pd_wf(
            *final(d),
            final(pmem).spec_offset() as int,
            final(pmem).spec_offset() + final(pmem).spec_allocated(),
        ),
        final(d).paddr == old(d).paddr,
        r is Ok ==> 0 < r->Ok_0 <= psize && r->Ok_0 % BASE_PAGE_SIZE == 0 && vbase + r->Ok_0 <= (
        vbase as int / HUGE_PAGE_SIZE as int + 1) * HUGE_PAGE_SIZE as int,
        r is Ok ==> r->Ok_0 == psize || (vbase + r->Ok_0) % LARGE_PAGE_SIZE as int == 0,
        final(pmem).spec_allocated() <= old(pmem).spec_allocated() + BASE_PAGE_SIZE,
        r == Err::<u64, MapError>(MapError::OutOfMemory) ==> old(pmem).free_pages() < 1,
        r is Err ==> (r == Err::<u64, MapError>(MapError::OutOfMemory) && final(pmem).free_pages()
            < 1) || (r == Err::<u64, MapError>(MapError::AlreadyMapped(vbase)) && pd_large(
            *old(d),
            vbase as int,
        )),
        forall|va: int|
            va >= 0 && va / HUGE_PAGE_SIZE as int == vbase as int / HUGE_PAGE_SIZE as int ==> #[trigger] pd_translate(
                *final(d),
                va,
            ) == after_map(pd_translate(*old(d), va), vbase as int, pbase as int, chunk_len(r), va),
        forall|va: int|
            va >= 0 && va / HUGE_PAGE_SIZE as int == vbase as int / HUGE_PAGE_SIZE as int && !(vbase <= va
                < vbase + chunk_len(r)) ==> #[trigger] pd_large(*final(d), va) == pd_large(
                *old(d),
                va,
            ),
        forall|va: int| vbase <= va < vbase + chunk_len(r) ==> !#[trigger] pd_large(*old(d), va),
        forall|va: int|
            va >= 0 && va / HUGE_PAGE_SIZE as int == vbase as int / HUGE_PAGE_SIZE as int
                ==> #[trigger] pd_leaf_size(*final(d), va) == if pd_translate(*old(d), va) is Some {
                pd_leaf_size(*old(d), va)
            } else {
                pd_leaf_size(*final(d), va)
            } && (pd_translate(*old(d), va) is None ==> size_fits(
                vbase as int,
                pbase as int,
                psize as int,
                va,
                pd_leaf_size(*final(d), va),
            )),
        r is Ok ==> forall|va: int|
            vbase <= va < vbase + r->Ok_0 && pd_translate(*old(d), va) is None ==> #[trigger] pd_leaf_size(
                *final(d),
                va,
            ) == Some(pick_size(false, pd_slot_free(*old(d), va), vbase as int, pbase as int, psize as int, va)),
        r is Ok ==> forall|va: int|
            va >= 0 && vbase <= slot_start(va, LARGE_PAGE_SIZE as int) < vbase + r->Ok_0
                && #[trigger] pd_slot_free(*old(d), va) && page_fits(vbase as int, pbase as int, psize as int, va, LARGE_PAGE_SIZE as int)
                ==> slot_start(va, LARGE_PAGE_SIZE as int) + LARGE_PAGE_SIZE <= vbase + r->Ok_0,
        r is Ok ==> forall|va: int|
            va >= 0 && va / HUGE_PAGE_SIZE as int == vbase as int / HUGE_PAGE_SIZE as int
                && slot_start(va, LARGE_PAGE_SIZE as int) >= vbase + r->Ok_0
                ==> #[trigger] pd_slot_free(*final(d), va) == pd_slot_free(*old(d), va),
        pd_grows(
            *old(d),
            *final(d),
            rights,
            old(pmem).spec_offset() + old(pmem).spec_allocated(),
        ),
        pd_leaf_size(*old(d), vbase as int) == Some(BASE_PAGE_SIZE as int) ==> r is Ok
            && final(pmem).spec_allocated() == old(pmem).spec_allocated(),
        final(pmem).spec_allocated() == old(pmem).spec_allocated() + BASE_PAGE_SIZE * (pd_tables(
            final(d).entries@,
            512,
        ) - pd_tables(old(d).entries@, 512)),
        final(pmem).spec_allocated() <= old(pmem).spec_allocated() + if pd_slot_free(
            *old(d),
            vbase as int,
        ) && !(vbase % LARGE_PAGE_SIZE == 0 && pbase % LARGE_PAGE_SIZE == 0 && psize >= LARGE_PAGE_SIZE) {
            BASE_PAGE_SIZE as int
        } else {
            0
        },
        r is Ok ==> !pd_slot_free(*final(d), vbase as int),
        r == Err::<u64, MapError>(MapError::OutOfMemory) ==> pd_slot_free(*old(d), vbase as int)
            && !large_step(vbase as int, pbase as int, psize as int),
{
    let ghost lo = pmem.spec_offset() as int;
    let ghost hi0 = pmem.spec_offset() + pmem.spec_allocated();
    let ghost d0 = *d;
    let i2 = pd_index(vbase);
    {
            let mapped = fill_pd(d, i2, pbase, psize, rights, Ghost(lo), Ghost(hi0));
            proof {
                lemma_pd_large_step(d0, *d, vbase as int, pbase as int, mapped as int, rights);
                lemma_pd_large_max(d0, *d, vbase as int, pbase as int, mapped as int, psize as int, rights);
                assert((vbase + mapped) % 0x200000 == 0);
                lemma_pd_tables_same(d0.entries@, d.entries@, 512);
                assert forall|i: int| 0 <= i < 512 implies pd_entry_grows(
                    d0.entries@[i],
                    #[trigger] d.entries@[i],
                    rights,
                    hi0,
                ) by {}
            }
            Ok(mapped)
        }
}

/// The step of `pd_chunk` that fills the page table of `vbase`'s slot.
#[verifier::spinoff_prover]
#[verifier::rlimit(100)]
fn pd_chunk_small(
    d: &mut PageDirectory,
    pmem: &mut PhysicalMemory,
    vbase: u64,
    pbase: u64,
    psize: u64,
    rights: MapAction,
) -> (r: Result<u64, MapError>)
    requires
        !(old(d).entries@[spec_pd_index(vbase as int)] is Empty && vbase % LARGE_PAGE_SIZE == 0
            && pbase % LARGE_PAGE_SIZE == 0 && psize >= LARGE_PAGE_SIZE),
        old(pmem).wf(),
        pd_wf(
            *old(d),
            old(pmem).spec_offset() as int,
            old(pmem).spec_offset() + old(pmem).spec_allocated(),
        ),
        vbase % BASE_PAGE_SIZE == 0,
        pbase % BASE_PAGE_SIZE == 0,
        psize % BASE_PAGE_SIZE == 0,
        psize > 0,
        pbase + psize <= PADDR_LIMIT,
        rights != MapAction::NoMap,
    ensures
        final(pmem).wf(),
        final(pmem).spec_offset() == old(pmem).spec_offset(),
        final(pmem).spec_size() == old(pmem).spec_size(),
        final(pmem).spec_allocated() >= old(pmem).spec_allocated(),
        pd_wf(
            *final(d),
            final(pmem).spec_offset() as int,
            final(pmem).spec_offset() + final(pmem).spec_allocated(),
        ),
        final(d).paddr == old(d).paddr,
        r is Ok ==> 0 < r->Ok_0 <= psize && r->Ok_0 % BASE_PAGE_SIZE == 0 && vbase + r->Ok_0 <= (
        vbase as int / HUGE_PAGE_SIZE as int + 1) * HUGE_PAGE_SIZE as int,
        r is Ok ==> r->Ok_0 == psize || (vbase + r->Ok_0) % LARGE_PAGE_SIZE as int == 0,
        final(pmem).spec_allocated() <= old(pmem).spec_allocated() + BASE_PAGE_SIZE,
        r == Err::<u64, MapError>(MapError::OutOfMemory) ==> old(pmem).free_pages() < 1,
        r is Err ==> (r == Err::<u64, MapError>(MapError::OutOfMemory) && final(pmem).free_pages()
            < 1) || (r == Err::<u64, MapError>(MapError::AlreadyMapped(vbase)) && pd_large(
            *old(d),
            vbase as int,
        )),
        forall|va: int|
            va >= 0 && va / HUGE_PAGE_SIZE as int == vbase as int / HUGE_PAGE_SIZE as int ==> #[trigger] pd_translate(
                *final(d),
                va,
            ) == after_map(pd_translate(*old(d), va), vbase as int, pbase as int, chunk_len(r), va),
        forall|va: int|
            va >= 0 && va / HUGE_PAGE_SIZE as int == vbase as int / HUGE_PAGE_SIZE as int && !(vbase <= va
                < vbase + chunk_len(r)) ==> #[trigger] pd_large(*final(d), va) == pd_large(
                *old(d),
                va,
            ),
        forall|va: int| vbase <= va < vbase + chunk_len(r) ==> !#[trigger] pd_large(*old(d), va),
        forall|va: int|
            va >= 0 && va / HUGE_PAGE_SIZE as int == vbase as int / HUGE_PAGE_SIZE as int
                ==> #[trigger] pd_leaf_size(*final(d), va) == if pd_translate(*old(d), va) is Some {
                pd_leaf_size(*old(d), va)
            } else {
                pd_leaf_size(*final(d), va)
            } && (pd_translate(*old(d), va) is None ==> size_fits(
                vbase as int,
                pbase as int,
                psize as int,
                va,
                pd_leaf_size(*final(d), va),
            )),
        r is Ok ==> forall|va: int|
            vbase <= va < vbase + r->Ok_0 && pd_translate(*old(d), va) is None ==> #[trigger] pd_leaf_size(
                *final(d),
                va,
            ) == Some(pick_size(false, pd_slot_free(*old(d), va), vbase as int, pbase as int, psize as int, va)),
        r is Ok ==> forall|va: int|
            va >= 0 && vbase <= slot_start(va, LARGE_PAGE_SIZE as int) < vbase + r->Ok_0
                && #[trigger] pd_slot_free(*old(d), va) && page_fits(vbase as int, pbase as int, psize as int, va, LARGE_PAGE_SIZE as int)
                ==> slot_start(va, LARGE_PAGE_SIZE as int) + LARGE_PAGE_SIZE <= vbase + r->Ok_0,
        r is Ok ==> forall|va: int|
            va >= 0 && va / HUGE_PAGE_SIZE as int == vbase as int / HUGE_PAGE_SIZE as int
                && slot_start(va, LARGE_PAGE_SIZE as int) >= vbase + r->Ok_0
                ==> #[trigger] pd_slot_free(*final(d), va) == pd_slot_free(*old(d), va),
        pd_grows(
            *old(d),
            *final(d),
            rights,
            old(pmem).spec_offset() + old(pmem).spec_allocated(),
        ),
        pd_leaf_size(*old(d), vbase as int) == Some(BASE_PAGE_SIZE as int) ==> r is Ok
            && final(pmem).spec_allocated() == old(pmem).spec_allocated(),
        final(pmem).spec_allocated() == old(pmem).spec_allocated() + BASE_PAGE_SIZE * (pd_tables(
            final(d).entries@,
            512,
        ) - pd_tables(old(d).entries@, 512)),
        final(pmem).spec_allocated() <= old(pmem).spec_allocated() + if pd_slot_free(
            *old(d),
            vbase as int,
        ) && !(vbase % LARGE_PAGE_SIZE == 0 && pbase % LARGE_PAGE_SIZE == 0 && psize >= LARGE_PAGE_SIZE) {
            BASE_PAGE_SIZE as int
        } else {
            0
        },
        r is Ok ==> !pd_slot_free(*final(d), vbase as int),
        r == Err::<u64, MapError>(MapError::OutOfMemory) ==> pd_slot_free(*old(d), vbase as int)
            && !large_step(vbase as int, pbase as int, psize as int),
{
    let ghost lo = pmem.spec_offset() as int;
    let ghost hi0 = pmem.spec_offset() + pmem.spec_allocated();
    let ghost d0 = *d;
    let i2 = pd_index(vbase);
    if pd_entry_is_empty(&d.entries[i2]) {
        let pt = match new_pt(pmem) {
            Ok(t) => t,
            Err(e) => {
                assert(forall|i: int| 0 <= i < 512 ==> pd_entry_grows(
                    d0.entries@[i],
                    #[trigger] d.entries@[i],
                    rights,
                    hi0,
                ));
                return Err(e);
            },
        };
        proof {
            lemma_pd_wf_mono(*d, lo, hi0, pmem.spec_offset() + pmem.spec_allocated());
        }
        d.entries.set(i2, PdEntry::Table(pt));
    }
    let ghost d1 = *d;
    let mut slot = PdEntry::Empty;
    d.entries.set_and_swap(i2, &mut slot);
    match slot {
        PdEntry::Large(l) => {
            d.entries.set(i2, PdEntry::Large(l));
            assert(d.entries@ =~= d0.entries@);
            assert(d.entries@ == d0.entries@);
            assert(forall|i: int| 0 <= i < 512 ==> pd_entry_grows(
                d0.entries@[i],
                #[trigger] d.entries@[i],
                rights,
                hi0,
            ));
            Err(MapError::AlreadyMapped(vbase))
        },
        PdEntry::Table(pt) => {
            let ghost pt0 = pt;
            let mut pt = pt;
            let mapped = fill_pt(&mut pt, pt_index(vbase), pbase, psize, rights);
            d.entries.set(i2, PdEntry::Table(pt));
            proof {
                assert(d.entries@ =~= d0.entries@.update(i2 as int, PdEntry::Table(pt)));
                lemma_pd_tables_update(d0.entries@, d.entries@, i2 as int, 512);
                lemma_pd_small_step(d0, *d, pt0, pt, vbase as int, pbase as int, mapped as int, rights);
                lemma_pd_small_max(d0, *d, pt0, pt, vbase as int, pbase as int, mapped as int, psize as int, rights);
                assert forall|i: int| 0 <= i < 512 implies pd_entry_grows(
                    d0.entries@[i],
                    #[trigger] d.entries@[i],
                    rights,
                    hi0,
                ) by {
                    if i != i2 {
                        assert(d.entries@[i] == d0.entries@[i]);
                    }
                }
                lemma_chunk(
                    BASE_PAGE_SIZE as int,
                    vbase as int,
                    mapped as int / BASE_PAGE_SIZE as int,
                    vbase as int,
                );
            }
            Ok(mapped)
        },
        PdEntry::Empty => {
            proof {
                assert(false);
            }
            Err(MapError::OutOfMemory)
        },
    }
}

/// The effect of installing `len` bytes of 1 GiB pages from `vbase` on,
/// into empty slots, for a request of `psize` bytes, as seen within the
/// table's region.
#[verifier::spinoff_prover]
#[verifier::rlimit(60)]
proof fn lemma_pdpt_huge_step(
    p0: Pdpt,
    p: Pdpt,
    vbase: int,
    pbase: int,
    len: int,
    psize: int,
    rights: MapAction,
)
    requires
        vbase >= 0,
        pbase >= 0,
        len <= psize,
        pbase + len <= PADDR_LIMIT,
        pbase % HUGE_PAGE_SIZE as int == 0,
        vbase % HUGE_PAGE_SIZE as int == 0,
        len % HUGE_PAGE_SIZE as int == 0,
        len >= HUGE_PAGE_SIZE,
        spec_pdpt_index(vbase) + len / HUGE_PAGE_SIZE as int <= 512,
        p.entries@.len() == 512,
        forall|i: int|
            0 <= i < 512 ==> #[trigger] p.entries@[i] == if spec_pdpt_index(vbase) <= i
                < spec_pdpt_index(vbase) + len / HUGE_PAGE_SIZE as int {
                PdptEntry::Huge(
                    Leaf { paddr: (pbase + (i - spec_pdpt_index(vbase)) * HUGE_PAGE_SIZE) as u64, rights },
                )
            } else {
                p0.entries@[i]
            },
        forall|i: int|
            spec_pdpt_index(vbase) <= i < spec_pdpt_index(vbase) + len / HUGE_PAGE_SIZE as int
                ==> (#[trigger] p0.entries@[i]) is Empty,
    ensures
        vbase + len <= (vbase / PML4_SLOT_SIZE as int + 1) * PML4_SLOT_SIZE as int,
        (vbase + len) % LARGE_PAGE_SIZE as int == 0,
        forall|va: int|
            va >= 0 && va / PML4_SLOT_SIZE as int == vbase / PML4_SLOT_SIZE as int
                ==> #[trigger] pdpt_translate(p, va) == after_map(pdpt_translate(p0, va), vbase, pbase, len, va),
        forall|va: int|
            va >= 0 && va / PML4_SLOT_SIZE as int == vbase / PML4_SLOT_SIZE as int && !(vbase <= va
                < vbase + len) ==> #[trigger] pdpt_large(p, va) == pdpt_large(p0, va),
        forall|va: int| vbase <= va < vbase + len ==> !#[trigger] pdpt_large(p0, va),
        forall|va: int|
            va >= 0 && va / PML4_SLOT_SIZE as int == vbase / PML4_SLOT_SIZE as int
                ==> #[trigger] pdpt_leaf_size(p, va) == if pdpt_translate(p0, va) is Some {
                pdpt_leaf_size(p0, va)
            } else {
                pdpt_leaf_size(p, va)
            } && (pdpt_translate(p0, va) is None ==> size_fits(vbase, pbase, psize, va, pdpt_leaf_size(p, va))),
{
    let n = len / HUGE_PAGE_SIZE as int;
    let s3 = spec_pdpt_index(vbase);
    lemma_chunk(HUGE_PAGE_SIZE as int, vbase, n, vbase);
    assert forall|va: int|
        va >= 0 && va / PML4_SLOT_SIZE as int == vbase / PML4_SLOT_SIZE as int implies #[trigger] pdpt_translate(
            p,
            va,
        ) == after_map(pdpt_translate(p0, va), vbase, pbase, len, va) by {
        lemma_chunk(HUGE_PAGE_SIZE as int, vbase, n, va);
        let i3 = spec_pdpt_index(va);
        if s3 <= i3 < s3 + n {
            assert(vbase <= va < vbase + len);
            assert(p0.entries@[i3] is Empty);
            assert(pbase + (i3 - s3) * 0x40000000 < PADDR_LIMIT);
            assert(pdpt_translate(p, va) == Some(pbase + (i3 - s3) * 0x40000000 + va % 0x40000000));
        } else {
            assert(!(vbase <= va < vbase + len));
            assert(p.entries@[i3] == p0.entries@[i3]);
        }
    }
    assert forall|va: int|
        va >= 0 && va / PML4_SLOT_SIZE as int == vbase / PML4_SLOT_SIZE as int && !(vbase <= va
            < vbase + len) implies #[trigger] pdpt_large(p, va) == pdpt_large(p0, va) by {
        lemma_chunk(HUGE_PAGE_SIZE as int, vbase, n, va);
        assert(p.entries@[spec_pdpt_index(va)] == p0.entries@[spec_pdpt_index(va)]);
    }
    assert forall|va: int|
        va >= 0 && va / PML4_SLOT_SIZE as int == vbase / PML4_SLOT_SIZE as int implies #[trigger] pdpt_leaf_size(p, va) == (if pdpt_translate(p0, va) is Some {
            pdpt_leaf_size(p0, va)
        } else {
            pdpt_leaf_size(p, va)
        }) && (pdpt_translate(p0, va) is None ==> size_fits(vbase, pbase, psize, va, pdpt_leaf_size(p, va))) by {
        lemma_chunk(HUGE_PAGE_SIZE as int, vbase, n, va);
        let i3 = spec_pdpt_index(va);
        if s3 <= i3 < s3 + n {
            assert(vbase <= va < vbase + len);
            assert(p0.entries@[i3] is Empty);
            assert(slot_start(va, 0x40000000) == va - va % 0x40000000);
            assert(page_fits(vbase, pbase, psize, va, HUGE_PAGE_SIZE as int));
        } else {
            assert(p.entries@[i3] == p0.entries@[i3]);
        }
    }
    assert forall|va: int| vbase <= va < vbase + len implies !#[trigger] pdpt_large(p0, va) by {
        lemma_chunk(HUGE_PAGE_SIZE as int, vbase, n, va);
    }
    assert((vbase + len) % 0x40000000 == 0);
}

/// The effect of a step of `len` bytes (for a request of `psize` bytes) in
/// the page directory of `vbase`'s slot (an existing one, or a new empty
/// one that took an empty slot), as seen within the table's region.
proof fn lemma_pdpt_table_step(
    p0: Pdpt,
    p: Pdpt,
    d0: PageDirectory,
    d: PageDirectory,
    vbase: int,
    pbase: int,
    psize: int,
    len: int,
)
    requires
        vbase >= 0,
        len >= 0,
        vbase + len <= (vbase / HUGE_PAGE_SIZE as int + 1) * HUGE_PAGE_SIZE as int,
        p0.entries@.len() == 512,
        d0.entries@.len() == 512,
        p.entries@ == p0.entries@.update(spec_pdpt_index(vbase), PdptEntry::Table(d)),
        p0.entries@[spec_pdpt_index(vbase)] == PdptEntry::Table(d0) || (p0.entries@[spec_pdpt_index(
            vbase,
        )] is Empty && forall|i: int| 0 <= i < 512 ==> (#[trigger] d0.entries@[i]) is Empty),
        forall|va: int|
            va >= 0 && va / HUGE_PAGE_SIZE as int == vbase / HUGE_PAGE_SIZE as int
                ==> #[trigger] pd_translate(d, va) == after_map(pd_translate(d0, va), vbase, pbase, len, va),
        forall|va: int|
            va >= 0 && va / HUGE_PAGE_SIZE as int == vbase / HUGE_PAGE_SIZE as int && !(vbase <= va
                < vbase + len) ==> #[trigger] pd_large(d, va) == pd_large(d0, va),
        forall|va: int| vbase <= va < vbase + len ==> !#[trigger] pd_large(d0, va),
        forall|va: int|
            va >= 0 && va / HUGE_PAGE_SIZE as int == vbase / HUGE_PAGE_SIZE as int
                ==> #[trigger] pd_leaf_size(d, va) == if pd_translate(d0, va) is Some {
                pd_leaf_size(d0, va)
            } else {
                pd_leaf_size(d, va)
            } && (pd_translate(d0, va) is None ==> size_fits(vbase, pbase, psize, va, pd_leaf_size(d, va))),
    ensures
        vbase + len <= (vbase / PML4_SLOT_SIZE as int + 1) * PML4_SLOT_SIZE as int,
        forall|va: int|
            va >= 0 && va / PML4_SLOT_SIZE as int == vbase / PML4_SLOT_SIZE as int
                ==> #[trigger] pdpt_translate(p, va) == after_map(pdpt_translate(p0, va), vbase, pbase, len, va),
        forall|va: int|
            va >= 0 && va / PML4_SLOT_SIZE as int == vbase / PML4_SLOT_SIZE as int && !(vbase <= va
                < vbase + len) ==> #[trigger] pdpt_large(p, va) == pdpt_large(p0, va),
        forall|va: int| vbase <= va < vbase + len ==> !#[trigger] pdpt_large(p0, va),
        forall|va: int|
            va >= 0 && va / PML4_SLOT_SIZE as int == vbase / PML4_SLOT_SIZE as int
                ==> #[trigger] pdpt_leaf_size(p, va) == if pdpt_translate(p0, va) is Some {
                pdpt_leaf_size(p0, va)
            } else {
                pdpt_leaf_size(p, va)
            } && (pdpt_translate(p0, va) is None ==> size_fits(vbase, pbase, psize, va, pdpt_leaf_size(p, va))),
{
    let i3 = spec_pdpt_index(vbase);
    lemma_upper_indices(vbase, vbase);
    lemma_div_denominator(vbase, 0x40000000, 512);
    assert forall|va: int|
        va >= 0 && va / PML4_SLOT_SIZE as int == vbase / PML4_SLOT_SIZE as int implies #[trigger] pdpt_translate(
            p,
            va,
        ) == after_map(pdpt_translate(p0, va), vbase, pbase, len, va) && (!(vbase <= va < vbase
            + len) ==> pdpt_large(p, va) == pdpt_large(p0, va)) && pdpt_leaf_size(p, va) == (if pdpt_translate(p0, va) is Some {
            pdpt_leaf_size(p0, va)
        } else {
            pdpt_leaf_size(p, va)
        }) && (pdpt_translate(p0, va) is None ==> size_fits(vbase, pbase, psize, va, pdpt_leaf_size(p, va))) by {
        lemma_upper_indices(va, vbase);
        lemma_div_denominator(va, 0x40000000, 512);
        if spec_pdpt_index(va) == i3 {
            assert(va / 0x40000000 == vbase / 0x40000000);
        } else {
            assert(p.entries@[spec_pdpt_index(va)] == p0.entries@[spec_pdpt_index(va)]);
        }
        if vbase <= va < vbase + len {
            assert(va / 0x40000000 == vbase / 0x40000000);
        }
    }
    assert forall|va: int| vbase <= va < vbase + len implies !#[trigger] pdpt_large(p0, va) by {
        assert(va / 0x40000000 == vbase / 0x40000000);
        lemma_upper_indices(va, vbase);
    }
    assert(vbase + len <= (vbase / PML4_SLOT_SIZE as int + 1) * PML4_SLOT_SIZE as int);
}

/// After 1 GiB pages were installed for `[vbase, vbase + len)` (a step of a
/// request for `psize` bytes): each address of the step got the size the
/// request picks, every slot that starts in the step lies wholly in it, and
/// slots after the step are as they were.
#[verifier::spinoff_prover]
proof fn lemma_pdpt_huge_max(
    p0: Pdpt,
    p: Pdpt,
    vbase: int,
    pbase: int,
    len: int,
    psize: int,
    rights: MapAction,
)
    requires
        vbase >= 0,
        pbase >= 0,
        len <= psize,
        pbase + len <= PADDR_LIMIT,
        pbase % HUGE_PAGE_SIZE as int == 0,
        vbase % HUGE_PAGE_SIZE as int == 0,
        len % HUGE_PAGE_SIZE as int == 0,
        len >= HUGE_PAGE_SIZE,
        spec_pdpt_index(vbase) + len / HUGE_PAGE_SIZE as int <= 512,
        p.entries@.len() == 512,
        forall|i: int|
            0 <= i < 512 ==> #[trigger] p.entries@[i] == if spec_pdpt_index(vbase) <= i
                < spec_pdpt_index(vbase) + len / HUGE_PAGE_SIZE as int {
                PdptEntry::Huge(
                    Leaf { paddr: (pbase + (i - spec_pdpt_index(vbase)) * HUGE_PAGE_SIZE) as u64, rights },
                )
            } else {
                p0.entries@[i]
            },
        forall|i: int|
            spec_pdpt_index(vbase) <= i < spec_pdpt_index(vbase) + len / HUGE_PAGE_SIZE as int
                ==> (#[trigger] p0.entries@[i]) is Empty,
    ensures
        forall|va: int|
            vbase <= va < vbase + len ==> #[trigger] pdpt_leaf_size(p, va) == Some(
                pick_size(pdpt_slot_free(p0, va), pdpt_pd_free(p0, va), vbase, pbase, psize, va),
            ),
        forall|va: int|
            va >= 0 && vbase <= slot_start(va, HUGE_PAGE_SIZE as int) < vbase + len
                ==> slot_start(va, HUGE_PAGE_SIZE as int) + HUGE_PAGE_SIZE <= vbase + len,
        forall|va: int|
            va >= 0 && vbase <= slot_start(va, LARGE_PAGE_SIZE as int) < vbase + len
                ==> slot_start(va, LARGE_PAGE_SIZE as int) + LARGE_PAGE_SIZE <= vbase + len,
        forall|va: int|
            va >= 0 && va / PML4_SLOT_SIZE as int == vbase / PML4_SLOT_SIZE as int && slot_start(
                va,
                HUGE_PAGE_SIZE as int,
            ) >= vbase + len ==> #[trigger] pdpt_slot_free(p, va) == pdpt_slot_free(p0, va),
        forall|va: int|
            va >= 0 && va / PML4_SLOT_SIZE as int == vbase / PML4_SLOT_SIZE as int && slot_start(
                va,
                LARGE_PAGE_SIZE as int,
            ) >= vbase + len ==> #[trigger] pdpt_pd_free(p, va) == pdpt_pd_free(p0, va),
{
    let n = len / HUGE_PAGE_SIZE as int;
    assert forall|va: int| vbase <= va < vbase + len implies #[trigger] pdpt_leaf_size(p, va) == Some(
        pick_size(pdpt_slot_free(p0, va), pdpt_pd_free(p0, va), vbase, pbase, psize, va),
    ) by {
        lemma_chunk(HUGE_PAGE_SIZE as int, vbase, n, va);
        assert(slot_start(va, 0x40000000) == va - va % 0x40000000);
        assert(p0.entries@[spec_pdpt_index(va)] is Empty);
        assert(page_fits(vbase, pbase, psize, va, HUGE_PAGE_SIZE as int));
    }
    assert forall|va: int|
        va >= 0 && vbase <= slot_start(va, HUGE_PAGE_SIZE as int) < vbase + len
            implies slot_start(va, HUGE_PAGE_SIZE as int) + HUGE_PAGE_SIZE <= vbase + len by {
        assert(slot_start(va, 0x40000000) % 0x40000000 == 0);
    }
    assert forall|va: int|
        va >= 0 && vbase <= slot_start(va, LARGE_PAGE_SIZE as int) < vbase + len
            implies slot_start(va, LARGE_PAGE_SIZE as int) + LARGE_PAGE_SIZE <= vbase + len by {
        assert(slot_start(va, 0x200000) % 0x200000 == 0);
    }
    assert forall|va: int|
        va >= 0 && va / PML4_SLOT_SIZE as int == vbase / PML4_SLOT_SIZE as int && slot_start(
            va,
            LARGE_PAGE_SIZE as int,
        ) >= vbase + len implies #[trigger] pdpt_pd_free(p, va) == pdpt_pd_free(p0, va) by {
        lemma_chunk(HUGE_PAGE_SIZE as int, vbase, n, va);
        assert(slot_start(va, 0x200000) == va - va % 0x200000);
        assert(p.entries@[spec_pdpt_index(va)] == p0.entries@[spec_pdpt_index(va)]);
    }
    assert forall|va: int|
        va >= 0 && va / PML4_SLOT_SIZE as int == vbase / PML4_SLOT_SIZE as int && slot_start(
            va,
            HUGE_PAGE_SIZE as int,
        ) >= vbase + len implies #[trigger] pdpt_slot_free(p, va) == pdpt_slot_free(p0, va) by {
        lemma_chunk(HUGE_PAGE_SIZE as int, vbase, n, va);
        assert(slot_start(va, 0x40000000) == va - va % 0x40000000);
        assert(p.entries@[spec_pdpt_index(va)] == p0.entries@[spec_pdpt_index(va)]);
    }
}

/// After a step of `len` bytes in the page directory of `vbase`'s slot,
/// taken because a 1 GiB page could not start at `vbase`: each newly mapped
/// address got the size the request picks, no slot that could take a 1 GiB
/// page starts in the step, a 2 MiB slot that could take a 2 MiB page and
/// starts in the step lies wholly in it, and later slots are as they were.
#[verifier::spinoff_prover]
proof fn lemma_pdpt_table_max(
    p0: Pdpt,
    p: Pdpt,
    d0: PageDirectory,
    d: PageDirectory,
    vbase: int,
    pbase: int,
    psize: int,
    len: int,
)
    requires
        vbase >= 0,
        len > 0,
        vbase + len <= (vbase / HUGE_PAGE_SIZE as int + 1) * HUGE_PAGE_SIZE as int,
        p0.entries@.len() == 512,
        d0.entries@.len() == 512,
        p.entries@ == p0.entries@.update(spec_pdpt_index(vbase), PdptEntry::Table(d)),
        p0.entries@[spec_pdpt_index(vbase)] == PdptEntry::Table(d0) || (p0.entries@[spec_pdpt_index(
            vbase,
        )] is Empty && forall|i: int| 0 <= i < 512 ==> (#[trigger] d0.entries@[i]) is Empty),
        p0.entries@[spec_pdpt_index(vbase)] is Empty ==> !(vbase % HUGE_PAGE_SIZE as int == 0 && pbase
            % HUGE_PAGE_SIZE as int == 0 && psize >= HUGE_PAGE_SIZE),
        forall|va: int|
            vbase <= va < vbase + len && pd_translate(d0, va) is None ==> #[trigger] pd_leaf_size(
                d,
                va,
            ) == Some(pick_size(false, pd_slot_free(d0, va), vbase, pbase, psize, va)),
        forall|va: int|
            va >= 0 && vbase <= slot_start(va, LARGE_PAGE_SIZE as int) < vbase + len
                && #[trigger] pd_slot_free(d0, va) && page_fits(vbase, pbase, psize, va, LARGE_PAGE_SIZE as int)
                ==> slot_start(va, LARGE_PAGE_SIZE as int) + LARGE_PAGE_SIZE <= vbase + len,
        forall|va: int|
            va >= 0 && va / HUGE_PAGE_SIZE as int == vbase / HUGE_PAGE_SIZE as int
                && slot_start(va, LARGE_PAGE_SIZE as int) >= vbase + len
                ==> #[trigger] pd_slot_free(d, va) == pd_slot_free(d0, va),
    ensures
        forall|va: int|
            vbase <= va < vbase + len && pdpt_translate(p0, va) is None ==> #[trigger] pdpt_leaf_size(
                p,
                va,
            ) == Some(pick_size(pdpt_slot_free(p0, va), pdpt_pd_free(p0, va), vbase, pbase, psize, va)),
        forall|va: int|
            va >= 0 && vbase <= slot_start(va, HUGE_PAGE_SIZE as int) < vbase + len && pdpt_slot_free(
                p0,
                va,
            ) ==> !page_fits(vbase, pbase, psize, va, HUGE_PAGE_SIZE as int),
        forall|va: int|
            va >= 0 && vbase <= slot_start(va, LARGE_PAGE_SIZE as int) < vbase + len
                && #[trigger] pdpt_pd_free(p0, va) && page_fits(vbase, pbase, psize, va, LARGE_PAGE_SIZE as int)
                ==> slot_start(va, LARGE_PAGE_SIZE as int) + LARGE_PAGE_SIZE <= vbase + len,
        forall|va: int|
            va >= 0 && va / PML4_SLOT_SIZE as int == vbase / PML4_SLOT_SIZE as int && slot_start(
                va,
                HUGE_PAGE_SIZE as int,
            ) >= vbase + len ==> #[trigger] pdpt_slot_free(p, va) == pdpt_slot_free(p0, va),
        forall|va: int|
            va >= 0 && va / PML4_SLOT_SIZE as int == vbase / PML4_SLOT_SIZE as int && slot_start(
                va,
                LARGE_PAGE_SIZE as int,
            ) >= vbase + len ==> #[trigger] pdpt_pd_free(p, va) == pdpt_pd_free(p0, va),
{
    let i3 = spec_pdpt_index(vbase);
    lemma_upper_indices(vbase, vbase);
    assert(slot_start(vbase, 0x40000000) == vbase - vbase % 0x40000000);
    assert forall|va: int|
        vbase <= va < vbase + len && pdpt_translate(p0, va) is None implies #[trigger] pdpt_leaf_size(
            p,
            va,
        ) == Some(pick_size(pdpt_slot_free(p0, va), pdpt_pd_free(p0, va), vbase, pbase, psize, va)) by {
        assert(va / 0x40000000 == vbase / 0x40000000);
        lemma_upper_indices(va, vbase);
        assert(spec_pdpt_index(va) == i3);
        assert(slot_start(va, 0x40000000) == slot_start(vbase, 0x40000000));
        assert(!(pdpt_slot_free(p0, va) && page_fits(vbase, pbase, psize, va, HUGE_PAGE_SIZE as int)));
        assert(pdpt_pd_free(p0, va) == pd_slot_free(d0, va));
        assert(pdpt_translate(p0, va) == pd_translate(d0, va));
    }
    assert forall|va: int|
        va >= 0 && vbase <= slot_start(va, HUGE_PAGE_SIZE as int) < vbase + len && pdpt_slot_free(
            p0,
            va,
        ) implies !page_fits(vbase, pbase, psize, va, HUGE_PAGE_SIZE as int) by {
        let g = slot_start(va, 0x40000000);
        assert(g % 0x40000000 == 0);
        assert(g / 0x40000000 == va / 0x40000000);
        assert(g / 0x40000000 == vbase / 0x40000000);
        assert(g == vbase);
        lemma_upper_indices(va, vbase);
    }
    assert forall|va: int|
        va >= 0 && vbase <= slot_start(va, LARGE_PAGE_SIZE as int) < vbase + len
            && #[trigger] pdpt_pd_free(p0, va) && page_fits(vbase, pbase, psize, va, LARGE_PAGE_SIZE as int)
            implies slot_start(va, LARGE_PAGE_SIZE as int) + LARGE_PAGE_SIZE <= vbase + len by {
        let m = slot_start(va, 0x200000);
        assert(m / 0x200000 == va / 0x200000);
        lemma_div_denominator(va, 0x200000, 512);
        lemma_div_denominator(vbase, 0x200000, 512);
        assert(va / 0x40000000 == vbase / 0x40000000);
        lemma_upper_indices(va, vbase);
        assert(pdpt_pd_free(p0, va) == pd_slot_free(d0, va));
    }
    assert forall|va: int|
        va >= 0 && va / PML4_SLOT_SIZE as int == vbase / PML4_SLOT_SIZE as int && slot_start(
            va,
            LARGE_PAGE_SIZE as int,
        ) >= vbase + len implies #[trigger] pdpt_pd_free(p, va) == pdpt_pd_free(p0, va) by {
        lemma_upper_indices(va, vbase);
        lemma_div_denominator(va, 0x40000000, 512);
        lemma_div_denominator(vbase, 0x40000000, 512);
        if spec_pdpt_index(va) == i3 {
            assert(va / 0x40000000 == vbase / 0x40000000);
            assert(pd_slot_free(d, va) == pd_slot_free(d0, va));
        } else {
            assert(p.entries@[spec_pdpt_index(va)] == p0.entries@[spec_pdpt_index(va)]);
        }
    }
    assert forall|va: int|
        va >= 0 && va / PML4_SLOT_SIZE as int == vbase / PML4_SLOT_SIZE as int && slot_start(
            va,
            HUGE_PAGE_SIZE as int,
        ) >= vbase + len implies #[trigger] pdpt_slot_free(p, va) == pdpt_slot_free(p0, va) by {
        lemma_upper_indices(va, vbase);
        assert(slot_start(va, 0x40000000) == va - va % 0x40000000);
        if spec_pdpt_index(va) == i3 {
            assert(va / 0x40000000 == vbase / 0x40000000);
            assert(false);
        } else {
            assert(p.entries@[spec_pdpt_index(va)] == p0.entries@[spec_pdpt_index(va)]);
        }
    }
}

/// One step of a mapping request inside the 512 GiB region of a PDPT:
/// 1 GiB pages where `vbase`, `pbase` and the length allow it and the slot
/// is free, else a step in the page directory of `vbase`'s slot.
#[verifier::spinoff_prover]
#[verifier::rlimit(100)]
fn pdpt_chunk(
    p: &mut Pdpt,
    pmem: &mut PhysicalMemory,
    vbase: u64,
    pbase: u64,
    psize: u64,
    rights: MapAction,
) -> (r: Result<u64, MapError>)
    requires
        old(pmem).wf(),
        pdpt_wf(
            *old(p),
            old(pmem).spec_offset() as int,
            old(pmem).spec_offset() + old(pmem).spec_allocated(),
        ),
        vbase % BASE_PAGE_SIZE == 0,
        pbase % BASE_PAGE_SIZE == 0,
        psize % BASE_PAGE_SIZE == 0,
        psize > 0,
        pbase + psize <= PADDR_LIMIT,
        rights != MapAction::NoMap,
    ensures
        final(pmem).wf(),
        final(pmem).spec_offset() == old(pmem).spec_offset(),
        final(pmem).spec_size() == old(pmem).spec_size(),
        final(pmem).spec_allocated() >= old(pmem).spec_allocated(),
        pdpt_wf(
            *final(p),
            final(pmem).spec_offset() as int,
            final(pmem).spec_offset() + final(pmem).spec_allocated(),
        ),
        final(p).paddr == old(p).paddr,
        r is Ok ==> 0 < r->Ok_0 <= psize && r->Ok_0 % BASE_PAGE_SIZE == 0 && vbase + r->Ok_0 <= (
        vbase as int / PML4_SLOT_SIZE as int + 1) * PML4_SLOT_SIZE as int,
        r is Ok ==> r->Ok_0 == psize || (vbase + r->Ok_0) % LARGE_PAGE_SIZE as int == 0,
        final(pmem).spec_allocated() <= old(pmem).spec_allocated() + 2 * BASE_PAGE_SIZE,
        r == Err::<u64, MapError>(MapError::OutOfMemory) ==> old(pmem).free_pages() < 2,
        r is Err ==> (r == Err::<u64, MapError>(MapError::OutOfMemory) && final(pmem).free_pages()
            < 1) || (r == Err::<u64, MapError>(MapError::AlreadyMapped(vbase)) && pdpt_large(
            *old(p),
            vbase as int,
        )),
        forall|va: int|
            va >= 0 && va / PML4_SLOT_SIZE as int == vbase as int / PML4_SLOT_SIZE as int
                ==> #[trigger] pdpt_translate(*final(p), va) == after_map(
                pdpt_translate(*old(p), va),
                vbase as int,
                pbase as int,
                chunk_len(r),
                va,
            ),
        forall|va: int|
            va >= 0 && va / PML4_SLOT_SIZE as int == vbase as int / PML4_SLOT_SIZE as int && !(vbase
                <= va < vbase + chunk_len(r)) ==> #[trigger] pdpt_large(*final(p), va)
                == pdpt_large(*old(p), va),
        forall|va: int| vbase <= va < vbase + chunk_len(r) ==> !#[trigger] pdpt_large(*old(p), va),
        forall|va: int|
            va >= 0 && va / PML4_SLOT_SIZE as int == vbase as int / PML4_SLOT_SIZE as int
                ==> #[trigger] pdpt_leaf_size(*final(p), va) == if pdpt_translate(*old(p), va) is Some {
                pdpt_leaf_size(*old(p), va)
            } else {
                pdpt_leaf_size(*final(p), va)
            } && (pdpt_translate(*old(p), va) is None ==> size_fits(
                vbase as int,
                pbase as int,
                psize as int,
                va,
                pdpt_leaf_size(*final(p), va),
            )),
        r is Ok ==> forall|va: int|
            vbase <= va < vbase + r->Ok_0 && pdpt_translate(*old(p), va) is None ==> #[trigger] pdpt_leaf_size(
                *final(p),
                va,
            ) == Some(
                pick_size(
                    pdpt_slot_free(*old(p), va),
                    pdpt_pd_free(*old(p), va),
                    vbase as int,
                    pbase as int,
                    psize as int,
                    va,
                ),
            ),
        r is Ok ==> forall|va: int|
            va >= 0 && vbase <= slot_start(va, HUGE_PAGE_SIZE as int) < vbase + r->Ok_0
                && #[trigger] pdpt_slot_free(*old(p), va) && page_fits(vbase as int, pbase as int, psize as int, va, HUGE_PAGE_SIZE as int)
                ==> slot_start(va, HUGE_PAGE_SIZE as int) + HUGE_PAGE_SIZE <= vbase + r->Ok_0,
        r is Ok ==> forall|va: int|
            va >= 0 && vbase <= slot_start(va, LARGE_PAGE_SIZE as int) < vbase + r->Ok_0
                && #[trigger] pdpt_pd_free(*old(p), va) && page_fits(vbase as int, pbase as int, psize as int, va, LARGE_PAGE_SIZE as int)
                ==> slot_start(va, LARGE_PAGE_SIZE as int) + LARGE_PAGE_SIZE <= vbase + r->Ok_0,
        r is Ok ==> forall|va: int|
            va >= 0 && va / PML4_SLOT_SIZE as int == vbase as int / PML4_SLOT_SIZE as int
                && slot_start(va, HUGE_PAGE_SIZE as int) >= vbase + r->Ok_0
                ==> #[trigger] pdpt_slot_free(*final(p), va) == pdpt_slot_free(*old(p), va),
        r is Ok ==> forall|va: int|
            va >= 0 && va / PML4_SLOT_SIZE as int == vbase as int / PML4_SLOT_SIZE as int
                && slot_start(va, LARGE_PAGE_SIZE as int) >= vbase + r->Ok_0
                ==> #[trigger] pdpt_pd_free(*final(p), va) == pdpt_pd_free(*old(p), va),
        pdpt_grows(
            *old(p),
            *final(p),
            rights,
            old(pmem).spec_offset() + old(pmem).spec_allocated(),
        ),
        pdpt_leaf_size(*old(p), vbase as int) == Some(BASE_PAGE_SIZE as int) ==> r is Ok
            && final(pmem).spec_allocated() == old(pmem).spec_allocated(),
        final(pmem).spec_allocated() == old(pmem).spec_allocated() + BASE_PAGE_SIZE * (pdpt_tables(
            final(p).entries@,
            512,
        ) - pdpt_tables(old(p).entries@, 512)),
        final(pmem).spec_allocated() <= old(pmem).spec_allocated() + (if pdpt_slot_free(
            *old(p),
            vbase as int,
        ) && !(vbase % HUGE_PAGE_SIZE == 0 && pbase % HUGE_PAGE_SIZE == 0 && psize >= HUGE_PAGE_SIZE) {
            BASE_PAGE_SIZE as int
        } else {
            0
        }) + (if pdpt_pd_free(*old(p), vbase as int) && !(vbase % HUGE_PAGE_SIZE == 0 && pbase
            % HUGE_PAGE_SIZE == 0 && psize >= HUGE_PAGE_SIZE) && !(vbase % LARGE_PAGE_SIZE == 0 && pbase
            % LARGE_PAGE_SIZE == 0 && psize >= LARGE_PAGE_SIZE) {
            BASE_PAGE_SIZE as int
        } else {
            0
        }),
        r is Ok ==> !pdpt_slot_free(*final(p), vbase as int) && !pdpt_pd_free(*final(p), vbase as int),
        r == Err::<u64, MapError>(MapError::OutOfMemory) ==> old(pmem).free_pages() < ind(
            pdpt_slot_free(*old(p), vbase as int) && !huge_step(vbase as int, pbase as int, psize as int),
        ) + ind(
            pdpt_pd_free(*old(p), vbase as int) && !huge_step(vbase as int, pbase as int, psize as int)
                && !large_step(vbase as int, pbase as int, psize as int),
        ),
        r is Ok ==> (vbase + r->Ok_0) % HUGE_PAGE_SIZE as int == 0 || (vbase + r->Ok_0)
            / HUGE_PAGE_SIZE as int == vbase as int / HUGE_PAGE_SIZE as int,
{
    proof {
        assert(old(p).entries@.len() == 512);
    }
    let i3 = pdpt_index(vbase);
    if pdpt_entry_is_empty(&p.entries[i3]) && vbase % HUGE_PAGE_SIZE == 0 && pbase % HUGE_PAGE_SIZE == 0
        && psize >= HUGE_PAGE_SIZE {
        pdpt_chunk_huge(p, pmem, vbase, pbase, psize, rights)
    } else {
        pdpt_chunk_table(p, pmem, vbase, pbase, psize, rights)
    }
}

/// The step of `pdpt_chunk` that installs 1 GiB pages.
#[verifier::spinoff_prover]
#[verifier::rlimit(100)]
fn pdpt_chunk_huge(
    p: &mut Pdpt,
    pmem: &mut PhysicalMemory,
    vbase: u64,
    pbase: u64,
    psize: u64,
    rights: MapAction,
) -> (r: Result<u64, MapError>)
    requires
        old(p).entries@[spec_pdpt_index(vbase as int)] is Empty,
        vbase % HUGE_PAGE_SIZE == 0 && pbase % HUGE_PAGE_SIZE == 0 && psize >= HUGE_PAGE_SIZE,
        old(pmem).wf(),
        pdpt_wf(
            *old(p),
            old(pmem).spec_offset() as int,
            old(pmem).spec_offset() + old(pmem).spec_allocated(),
        ),
        vbase % BASE_PAGE_SIZE == 0,
        pbase % BASE_PAGE_SIZE == 0,
        psize % BASE_PAGE_SIZE == 0,
        psize > 0,
        pbase + psize <= PADDR_LIMIT,
        rights != MapAction::NoMap,
    ensures
        final(pmem).wf(),
        final(pmem).spec_offset() == old(pmem).spec_offset(),
        final(pmem).spec_size() == old(pmem).spec_size(),
        final(pmem).spec_allocated() >= old(pmem).spec_allocated(),
        pdpt_wf(
            *final(p),
            final(pmem).spec_offset() as int,
            final(pmem).spec_offset() + final(pmem).spec_allocated(),
        ),
        final(p).paddr == old(p).paddr,
        r is Ok ==> 0 < r->Ok_0 <= psize && r->Ok_0 % BASE_PAGE_SIZE == 0 && vbase + r->Ok_0 <= (
        vbase as int / PML4_SLOT_SIZE as int + 1) * PML4_SLOT_SIZE as int,
        r is Ok ==> r->Ok_0 == psize || (vbase + r->Ok_0) % LARGE_PAGE_SIZE as int == 0,
        final(pmem).spec_allocated() <= old(pmem).spec_allocated() + 2 * BASE_PAGE_SIZE,
        r == Err::<u64, MapError>(MapError::OutOfMemory) ==> old(pmem).free_pages() < 2,
        r is Err ==> (r == Err::<u64, MapError>(MapError::OutOfMemory) && final(pmem).free_pages()
            < 1) || (r == Err::<u64, MapError>(MapError::AlreadyMapped(vbase)) && pdpt_large(
            *old(p),
            vbase as int,
        )),
        forall|va: int|
            va >= 0 && va / PML4_SLOT_SIZE as int == vbase as int / PML4_SLOT_SIZE as int
                ==> #[trigger] pdpt_translate(*final(p), va) == after_map(
                pdpt_translate(*old(p), va),
                vbase as int,
                pbase as int,
                chunk_len(r),
                va,
            ),
        forall|va: int|
            va >= 0 && va / PML4_SLOT_SIZE as int == vbase as int / PML4_SLOT_SIZE as int && !(vbase
                <= va < vbase + chunk_len(r)) ==> #[trigger] pdpt_large(*final(p), va)
                == pdpt_large(*old(p), va),
        forall|va: int| vbase <= va < vbase + chunk_len(r) ==> !#[trigger] pdpt_large(*old(p), va),
        forall|va: int|
            va >= 0 && va / PML4_SLOT_SIZE as int == vbase as int / PML4_SLOT_SIZE as int
                ==> #[trigger] pdpt_leaf_size(*final(p), va) == if pdpt_translate(*old(p), va) is Some {
                pdpt_leaf_size(*old(p), va)
            } else {
                pdpt_leaf_size(*final(p), va)
            } && (pdpt_translate(*old(p), va) is None ==> size_fits(
                vbase as int,
                pbase as int,
                psize as int,
                va,
                pdpt_leaf_size(*final(p), va),
            )),
        r is Ok ==> forall|va: int|
            vbase <= va < vbase + r->Ok_0 && pdpt_translate(*old(p), va) is None ==> #[trigger] pdpt_leaf_size(
                *final(p),
                va,
            ) == Some(
                pick_size(
                    pdpt_slot_free(*old(p), va),
                    pdpt_pd_free(*old(p), va),
                    vbase as int,
                    pbase as int,
                    psize as int,
                    va,
                ),
            ),
        r is Ok ==> forall|va: int|
            va >= 0 && vbase <= slot_start(va, HUGE_PAGE_SIZE as int) < vbase + r->Ok_0
                && #[trigger] pdpt_slot_free(*old(p), va) && page_fits(vbase as int, pbase as int, psize as int, va, HUGE_PAGE_SIZE as int)
                ==> slot_start(va, HUGE_PAGE_SIZE as int) + HUGE_PAGE_SIZE <= vbase + r->Ok_0,
        r is Ok ==> forall|va: int|
            va >= 0 && vbase <= slot_start(va, LARGE_PAGE_SIZE as int) < vbase + r->Ok_0
                && #[trigger] pdpt_pd_free(*old(p), va) && page_fits(vbase as int, pbase as int, psize as int, va, LARGE_PAGE_SIZE as int)
                ==> slot_start(va, LARGE_PAGE_SIZE as int) + LARGE_PAGE_SIZE <= vbase + r->Ok_0,
        r is Ok ==> forall|va: int|
            va >= 0 && va / PML4_SLOT_SIZE as int == vbase as int / PML4_SLOT_SIZE as int
                && slot_start(va, HUGE_PAGE_SIZE as int) >= vbase + r->Ok_0
                ==> #[trigger] pdpt_slot_free(*final(p), va) == pdpt_slot_free(*old(p), va),
        r is Ok ==> forall|va: int|
            va >= 0 && va / PML4_SLOT_SIZE as int == vbase as int / PML4_SLOT_SIZE as int
                && slot_start(va, LARGE_PAGE_SIZE as int) >= vbase + r->Ok_0
                ==> #[trigger] pdpt_pd_free(*final(p), va) == pdpt_pd_free(*old(p), va),
        pdpt_grows(
            *old(p),
            *final(p),
            rights,
            old(pmem).spec_offset() + old(pmem).spec_allocated(),
        ),
        pdpt_leaf_size(*old(p), vbase as int) == Some(BASE_PAGE_SIZE as int) ==> r is Ok
            && final(pmem).spec_allocated() == old(pmem).spec_allocated(),
        final(pmem).spec_allocated() == old(pmem).spec_allocated() + BASE_PAGE_SIZE * (pdpt_tables(
            final(p).entries@,
            512,
        ) - pdpt_tables(old(p).entries@, 512)),
        final(pmem).spec_allocated() <= old(pmem).spec_allocated() + (if pdpt_slot_free(
            *old(p),
            vbase as int,
        ) && !(vbase % HUGE_PAGE_SIZE == 0 && pbase % HUGE_PAGE_SIZE == 0 && psize >= HUGE_PAGE_SIZE) {
            BASE_PAGE_SIZE as int
        } else {
            0
        }) + (if pdpt_pd_free(*old(p), vbase as int) && !(vbase % HUGE_PAGE_SIZE == 0 && pbase
            % HUGE_PAGE_SIZE == 0 && psize >= HUGE_PAGE_SIZE) && !(vbase % LARGE_PAGE_SIZE == 0 && pbase
            % LARGE_PAGE_SIZE == 0 && psize >= LARGE_PAGE_SIZE) {
            BASE_PAGE_SIZE as int
        } else {
            0
        }),
        r is Ok ==> !pdpt_slot_free(*final(p), vbase as int) && !pdpt_pd_free(*final(p), vbase as int),
        r == Err::<u64, MapError>(MapError::OutOfMemory) ==> old(pmem).free_pages() < ind(
            pdpt_slot_free(*old(p), vbase as int) && !huge_step(vbase as int, pbase as int, psize as int),
        ) + ind(
            pdpt_pd_free(*old(p), vbase as int) && !huge_step(vbase as int, pbase as int, psize as int)
                && !large_step(vbase as int, pbase as int, psize as int),
        ),
        r is Ok ==> (vbase + r->Ok_0) % HUGE_PAGE_SIZE as int == 0 || (vbase + r->Ok_0)
            / HUGE_PAGE_SIZE as int == vbase as int / HUGE_PAGE_SIZE as int,
{
    let ghost lo = pmem.spec_offset() as int;
    let ghost hi0 = pmem.spec_offset() + pmem.spec_allocated();
    let ghost p0 = *p;
    let i3 = pdpt_index(vbase);
    {
            let mapped = fill_pdpt(p, i3, pbase, psize, rights, Ghost(lo), Ghost(hi0));
            proof {
                lemma_pdpt_huge_step(p0, *p, vbase as int, pbase as int, mapped as int, psize as int, rights);
                lemma_pdpt_huge_max(p0, *p, vbase as int, pbase as int, mapped as int, psize as int, rights);
                assert forall|i: int| 0 <= i < 512 implies #[trigger] pdpt_entry_tables(p0.entries@[i])
                    == pdpt_entry_tables(p.entries@[i]) by {}
                lemma_pdpt_tables_same(p0.entries@, p.entries@, 512);
                assert forall|i: int| 0 <= i < 512 implies pdpt_entry_grows(
                    p0.entries@[i],
                    #[trigger] p.entries@[i],
                    rights,
                    hi0,
                ) by {
                    if let PdptEntry::Table(d) = p0.entries@[i] {
                        assert(pd_grows(d, d, rights, hi0));
                    }
                }
            }
            Ok(mapped)
        }
}

/// The step of `pdpt_chunk` that goes on in the page directory of `vbase`'s slot.
#[verifier::spinoff_prover]
#[verifier::rlimit(100)]
fn pdpt_chunk_table(
    p: &mut Pdpt,
    pmem: &mut PhysicalMemory,
    vbase: u64,
    pbase: u64,
    psize: u64,
    rights: MapAction,
) -> (r: Result<u64, MapError>)
    requires
        !(old(p).entries@[spec_pdpt_index(vbase as int)] is Empty && vbase % HUGE_PAGE_SIZE == 0
            && pbase % HUGE_PAGE_SIZE == 0 && psize >= HUGE_PAGE_SIZE),
        old(pmem).wf(),
        pdpt_wf(
            *old(p),
            old(pmem).spec_offset() as int,
            old(pmem).spec_offset() + old(pmem).spec_allocated(),
        ),
        vbase % BASE_PAGE_SIZE == 0,
        pbase % BASE_PAGE_SIZE == 0,
        psize % BASE_PAGE_SIZE == 0,
        psize > 0,
        pbase + psize <= PADDR_LIMIT,
        rights != MapAction::NoMap,
    ensures
        final(pmem).wf(),
        final(pmem).spec_offset() == old(pmem).spec_offset(),
        final(pmem).spec_size() == old(pmem).spec_size(),
        final(pmem).spec_allocated() >= old(pmem).spec_allocated(),
        pdpt_wf(
            *final(p),
            final(pmem).spec_offset() as int,
            final(pmem).spec_offset() + final(pmem).spec_allocated(),
        ),
        final(p).paddr == old(p).paddr,
        r is Ok ==> 0 < r->Ok_0 <= psize && r->Ok_0 % BASE_PAGE_SIZE == 0 && vbase + r->Ok_0 <= (
        vbase as int / PML4_SLOT_SIZE as int + 1) * PML4_SLOT_SIZE as int,
        r is Ok ==> r->Ok_0 == psize || (vbase + r->Ok_0) % LARGE_PAGE_SIZE as int == 0,
        final(pmem).spec_allocated() <= old(pmem).spec_allocated() + 2 * BASE_PAGE_SIZE,
        r == Err::<u64, MapError>(MapError::OutOfMemory) ==> old(pmem).free_pages() < 2,
        r is Err ==> (r == Err::<u64, MapError>(MapError::OutOfMemory) && final(pmem).free_pages()
            < 1) || (r == Err::<u64, MapError>(MapError::AlreadyMapped(vbase)) && pdpt_large(
            *old(p),
            vbase as int,
        )),
        forall|va: int|
            va >= 0 && va / PML4_SLOT_SIZE as int == vbase as int / PML4_SLOT_SIZE as int
                ==> #[trigger] pdpt_translate(*final(p), va) == after_map(
                pdpt_translate(*old(p), va),
                vbase as int,
                pbase as int,
                chunk_len(r),
                va,
            ),
        forall|va: int|
            va >= 0 && va / PML4_SLOT_SIZE as int == vbase as int / PML4_SLOT_SIZE as int && !(vbase
                <= va < vbase + chunk_len(r)) ==> #[trigger] pdpt_large(*final(p), va)
                == pdpt_large(*old(p), va),
        forall|va: int| vbase <= va < vbase + chunk_len(r) ==> !#[trigger] pdpt_large(*old(p), va),
        forall|va: int|
            va >= 0 && va / PML4_SLOT_SIZE as int == vbase as int / PML4_SLOT_SIZE as int
                ==> #[trigger] pdpt_leaf_size(*final(p), va) == if pdpt_translate(*old(p), va) is Some {
                pdpt_leaf_size(*old(p), va)
            } else {
                pdpt_leaf_size(*final(p), va)
            } && (pdpt_translate(*old(p), va) is None ==> size_fits(
                vbase as int,
                pbase as int,
                psize as int,
                va,
                pdpt_leaf_size(*final(p), va),
            )),
        r is Ok ==> forall|va: int|
            vbase <= va < vbase + r->Ok_0 && pdpt_translate(*old(p), va) is None ==> #[trigger] pdpt_leaf_size(
                *final(p),
                va,
            ) == Some(
                pick_size(
                    pdpt_slot_free(*old(p), va),
                    pdpt_pd_free(*old(p), va),
                    vbase as int,
                    pbase as int,
                    psize as int,
                    va,
                ),
            ),
        r is Ok ==> forall|va: int|
            va >= 0 && vbase <= slot_start(va, HUGE_PAGE_SIZE as int) < vbase + r->Ok_0
                && #[trigger] pdpt_slot_free(*old(p), va) && page_fits(vbase as int, pbase as int, psize as int, va, HUGE_PAGE_SIZE as int)
                ==> slot_start(va, HUGE_PAGE_SIZE as int) + HUGE_PAGE_SIZE <= vbase + r->Ok_0,
        r is Ok ==> forall|va: int|
            va >= 0 && vbase <= slot_start(va, LARGE_PAGE_SIZE as int) < vbase + r->Ok_0
                && #[trigger] pdpt_pd_free(*old(p), va) && page_fits(vbase as int, pbase as int, psize as int, va, LARGE_PAGE_SIZE as int)
                ==> slot_start(va, LARGE_PAGE_SIZE as int) + LARGE_PAGE_SIZE <= vbase + r->Ok_0,
        r is Ok ==> forall|va: int|
            va >= 0 && va / PML4_SLOT_SIZE as int == vbase as int / PML4_SLOT_SIZE as int
                && slot_start(va, HUGE_PAGE_SIZE as int) >= vbase + r->Ok_0
                ==> #[trigger] pdpt_slot_free(*final(p), va) == pdpt_slot_free(*old(p), va),
        r is Ok ==> forall|va: int|
            va >= 0 && va / PML4_SLOT_SIZE as int == vbase as int / PML4_SLOT_SIZE as int
                && slot_start(va, LARGE_PAGE_SIZE as int) >= vbase + r->Ok_0
                ==> #[trigger] pdpt_pd_free(*final(p), va) == pdpt_pd_free(*old(p), va),
        pdpt_grows(
            *old(p),
            *final(p),
            rights,
            old(pmem).spec_offset() + old(pmem).spec_allocated(),
        ),
        pdpt_leaf_size(*old(p), vbase as int) == Some(BASE_PAGE_SIZE as int) ==> r is Ok
            && final(pmem).spec_allocated() == old(pmem).spec_allocated(),
        final(pmem).spec_allocated() == old(pmem).spec_allocated() + BASE_PAGE_SIZE * (pdpt_tables(
            final(p).entries@,
            512,
        ) - pdpt_tables(old(p).entries@, 512)),
        final(pmem).spec_allocated() <= old(pmem).spec_allocated() + (if pdpt_slot_free(
            *old(p),
            vbase as int,
        ) && !(vbase % HUGE_PAGE_SIZE == 0 && pbase % HUGE_PAGE_SIZE == 0 && psize >= HUGE_PAGE_SIZE) {
            BASE_PAGE_SIZE as int
        } else {
            0
        }) + (if pdpt_pd_free(*old(p), vbase as int) && !(vbase % HUGE_PAGE_SIZE == 0 && pbase
            % HUGE_PAGE_SIZE == 0 && psize >= HUGE_PAGE_SIZE) && !(vbase % LARGE_PAGE_SIZE == 0 && pbase
            % LARGE_PAGE_SIZE == 0 && psize >= LARGE_PAGE_SIZE) {
            BASE_PAGE_SIZE as int
        } else {
            0
        }),
        r is Ok ==> !pdpt_slot_free(*final(p), vbase as int) && !pdpt_pd_free(*final(p), vbase as int),
        r == Err::<u64, MapError>(MapError::OutOfMemory) ==> old(pmem).free_pages() < ind(
            pdpt_slot_free(*old(p), vbase as int) && !huge_step(vbase as int, pbase as int, psize as int),
        ) + ind(
            pdpt_pd_free(*old(p), vbase as int) && !huge_step(vbase as int, pbase as int, psize as int)
                && !large_step(vbase as int, pbase as int, psize as int),
        ),
        r is Ok ==> (vbase + r->Ok_0) % HUGE_PAGE_SIZE as int == 0 || (vbase + r->Ok_0)
            / HUGE_PAGE_SIZE as int == vbase as int / HUGE_PAGE_SIZE as int,
{
    let ghost lo = pmem.spec_offset() as int;
    let ghost hi0 = pmem.spec_offset() + pmem.spec_allocated();
    let ghost p0 = *p;
    let i3 = pdpt_index(vbase);
    if pdpt_entry_is_empty(&p.entries[i3]) {
        let d = match new_pd(pmem) {
            Ok(d) => d,
            Err(e) => {
                assert forall|i: int| 0 <= i < 512 implies pdpt_entry_grows(
                    p0.entries@[i],
                    #[trigger] p.entries@[i],
                    rights,
                    hi0,
                ) by {
                    if let PdptEntry::Table(d) = p0.entries@[i] {
                        assert(pd_grows(d, d, rights, hi0));
                    }
                }
                return Err(e);
            },
        };
        proof {
            lemma_pdpt_wf_mono(*p, lo, hi0, pmem.spec_offset() + pmem.spec_allocated());
        }
        p.entries.set(i3, PdptEntry::Table(d));
    }
    let mut slot = PdptEntry::Empty;
    p.entries.set_and_swap(i3, &mut slot);
    match slot {
        PdptEntry::Huge(l) => {
            p.entries.set(i3, PdptEntry::Huge(l));
            assert(p.entries@ =~= p0.entries@);
            assert(p.entries@ == p0.entries@);
            assert forall|i: int| 0 <= i < 512 implies pdpt_entry_grows(
                p0.entries@[i],
                #[trigger] p.entries@[i],
                rights,
                hi0,
            ) by {
                if let PdptEntry::Table(d) = p0.entries@[i] {
                    assert(pd_grows(d, d, rights, hi0));
                }
            }
            Err(MapError::AlreadyMapped(vbase))
        },
        PdptEntry::Table(d) => {
            let ghost d0 = d;
            let ghost hi1 = pmem.spec_offset() + pmem.spec_allocated();
            let mut d = d;
            let r = pd_chunk(&mut d, pmem, vbase, pbase, psize, rights);
            p.entries.set(i3, PdptEntry::Table(d));
            proof {
                assert(p.entries@ =~= p0.entries@.update(i3 as int, PdptEntry::Table(d)));
                lemma_pdpt_tables_update(p0.entries@, p.entries@, i3 as int, 512);
                if p0.entries@[i3 as int] is Empty {
                    lemma_pd_tables_zero(d0.entries@, 512);
                }
                lemma_pdpt_table_step(p0, *p, d0, d, vbase as int, pbase as int, psize as int, chunk_len(r));
                if r is Ok {
                    assert(p0.entries@[i3 as int] is Empty ==> !(vbase % HUGE_PAGE_SIZE == 0 && pbase
                        % HUGE_PAGE_SIZE == 0 && psize >= HUGE_PAGE_SIZE));
                    lemma_pdpt_table_max(p0, *p, d0, d, vbase as int, pbase as int, psize as int, chunk_len(r));
                }
                assert(hi0 <= hi1);
                assert(p0.entries@[i3 as int] is Empty ==> d0.paddr == hi0 && forall|j: int|
                    0 <= j < 512 ==> (#[trigger] d0.entries@[j]) is Empty);
                assert(p0.entries@[i3 as int] is Table ==> hi1 == hi0 && p0.entries@[i3 as int]
                    == PdptEntry::Table(d0));
                assert(pdpt_entry_grows(p0.entries@[i3 as int], p.entries@[i3 as int], rights, hi0)) by {
                    if p0.entries@[i3 as int] is Empty {
                        assert forall|j: int| 0 <= j < 512 implies pd_entry_grows(
                            PdEntry::Empty,
                            #[trigger] d.entries@[j],
                            rights,
                            hi0,
                        ) by {
                            assert(pd_entry_grows(d0.entries@[j], d.entries@[j], rights, hi1));
                        }
                    }
                }
                assert forall|i: int| 0 <= i < 512 implies pdpt_entry_grows(
                    p0.entries@[i],
                    #[trigger] p.entries@[i],
                    rights,
                    hi0,
                ) by {
                    if i != i3 {
                        assert(p.entries@[i] == p0.entries@[i]);
                        if let PdptEntry::Table(dd) = p0.entries@[i] {
                            assert(pd_grows(dd, dd, rights, hi0));
                        }
                    }
                }
            }
            r
        },
        PdptEntry::Empty => {
            proof {
                assert(false);
            }
            Err(MapError::OutOfMemory)
        },
    }
}

fn pml4_entry_is_empty(e: &Pml4Entry) -> (r: bool)
    ensures
        r == e is Empty,
{
    match e {
        Pml4Entry::Empty => true,
        _ => false,
    }
}

/// Growth of the PDPT of `vbase`'s PML4 slot (an existing one, or a new
/// empty one taken at `s0.hi()` for an empty slot) is growth of the whole
/// address space.
#[verifier::spinoff_prover]
proof fn lemma_vspace_grows(
    s0: VSpace,
    s: VSpace,
    p0: Pdpt,
    p: Pdpt,
    vbase: int,
    rights: MapAction,
    hi1: int,
)
    requires
        s0.pml4@.len() == 512,
        s.pml4@ == s0.pml4@.update(spec_pml4_index(vbase), Pml4Entry::Table(p)),
        s0.pml4@[spec_pml4_index(vbase)] is Empty ==> p0.paddr == s0.hi() && forall|j: int|
            0 <= j < 512 ==> (#[trigger] p0.entries@[j]) is Empty,
        s0.pml4@[spec_pml4_index(vbase)] is Table ==> hi1 == s0.hi() && s0.pml4@[spec_pml4_index(
            vbase,
        )] == Pml4Entry::Table(p0),
        s0.hi() <= hi1,
        pdpt_grows(p0, p, rights, hi1),
    ensures
        VSpace::grows_from(s0, s, rights),
{
    reveal(VSpace::grows_from);
    let i4 = spec_pml4_index(vbase);
    assert forall|i: int| 0 <= i < 512 implies pml4_entry_grows(
        s0.spec_pml4()[i],
        #[trigger] s.spec_pml4()[i],
        rights,
        s0.hi(),
    ) by {
        if i == i4 {
            if s0.pml4@[i4] is Empty {
                assert forall|j: int| 0 <= j < 512 implies pdpt_entry_grows(
                    PdptEntry::Empty,
                    #[trigger] p.entries@[j],
                    rights,
                    s0.hi(),
                ) by {
                    assert(pdpt_entry_grows(p0.entries@[j], p.entries@[j], rights, hi1));
                    if let PdptEntry::Table(d) = p.entries@[j] {
                        assert forall|k: int| 0 <= k < 512 implies pd_entry_grows(
                            PdEntry::Empty,
                            #[trigger] d.entries@[k],
                            rights,
                            s0.hi(),
                        ) by {
                            assert(pd_entry_grows(PdEntry::Empty, d.entries@[k], rights, hi1));
                        }
                    }
                }
            }
        } else {
            assert(s.pml4@[i] == s0.pml4@[i]);
            if let Pml4Entry::Table(pp) = s0.pml4@[i] {
                assert forall|j: int| 0 <= j < 512 implies pdpt_entry_grows(
                    pp.entries@[j],
                    #[trigger] pp.entries@[j],
                    rights,
                    s0.hi(),
                ) by {
                    if let PdptEntry::Table(dd) = pp.entries@[j] {
                        assert(pd_grows(dd, dd, rights, s0.hi()));
                    }
                }
            }
        }
    }
}

proof fn lemma_pt_grows_trans(a: PageTable, b: PageTable, c: PageTable, rights: MapAction, h: int)
    requires
        pt_grows(b, c, rights),
    ensures
        pt_grows(a, b, rights) ==> pt_grows(a, c, rights),
        pt_new(b, rights, h) ==> pt_new(c, rights, h),
{
    if pt_grows(a, b, rights) {
        assert forall|k: int| 0 <= k < 512 implies (a.entries@[k] is Some ==> #[trigger] c.entries@[k]
            == a.entries@[k]) && (a.entries@[k] is None && c.entries@[k] is Some
            ==> c.entries@[k]->Some_0.rights == rights) by {
            assert(b.entries@[k] == b.entries@[k]);
        }
    }
    if pt_new(b, rights, h) {
        assert forall|k: int| 0 <= k < 512 && (#[trigger] c.entries@[k]) is Some implies c.entries@[k]->Some_0.rights
            == rights by {
            assert(b.entries@[k] == b.entries@[k]);
        }
    }
}

proof fn lemma_pd_entry_grows_trans(a: PdEntry, b: PdEntry, c: PdEntry, rights: MapAction, h: int, h2: int)
    requires
        pd_entry_grows(a, b, rights, h),
        pd_entry_grows(b, c, rights, h2),
        h <= h2,
    ensures
        pd_entry_grows(a, c, rights, h),
{
    match b {
        PdEntry::Table(t1) => {
            let t2 = c->Table_0;
            lemma_pt_grows_trans(match a { PdEntry::Table(t0) => t0, _ => t1 }, t1, t2, rights, h);
        },
        _ => {},
    }
}

proof fn lemma_pd_grows_trans(a: PageDirectory, b: PageDirectory, c: PageDirectory, rights: MapAction, h: int, h2: int)
    requires
        pd_grows(b, c, rights, h2),
        h <= h2,
    ensures
        pd_grows(a, b, rights, h) ==> pd_grows(a, c, rights, h),
        pd_new(b, rights, h) ==> pd_new(c, rights, h),
{
    if pd_grows(a, b, rights, h) {
        assert forall|i: int| 0 <= i < 512 implies pd_entry_grows(a.entries@[i], #[trigger] c.entries@[i], rights, h) by {
            lemma_pd_entry_grows_trans(a.entries@[i], b.entries@[i], c.entries@[i], rights, h, h2);
        }
    }
    if pd_new(b, rights, h) {
        assert forall|i: int| 0 <= i < 512 implies pd_entry_grows(PdEntry::Empty, #[trigger] c.entries@[i], rights, h) by {
            lemma_pd_entry_grows_trans(PdEntry::Empty, b.entries@[i], c.entries@[i], rights, h, h2);
        }
    }
}

proof fn lemma_pdpt_entry_grows_trans(a: PdptEntry, b: PdptEntry, c: PdptEntry, rights: MapAction, h: int, h2: int)
    requires
        pdpt_entry_grows(a, b, rights, h),
        pdpt_entry_grows(b, c, rights, h2),
        h <= h2,
    ensures
        pdpt_entry_grows(a, c, rights, h),
{
    match b {
        PdptEntry::Table(d1) => {
            let d2 = c->Table_0;
            lemma_pd_grows_trans(match a { PdptEntry::Table(d0) => d0, _ => d1 }, d1, d2, rights, h, h2);
        },
        _ => {},
    }
}

proof fn lemma_pdpt_grows_trans(a: Pdpt, b: Pdpt, c: Pdpt, rights: MapAction, h: int, h2: int)
    requires
        pdpt_grows(b, c, rights, h2),
        h <= h2,
    ensures
        pdpt_grows(a, b, rights, h) ==> pdpt_grows(a, c, rights, h),
        pdpt_new(b, rights, h) ==> pdpt_new(c, rights, h),
{
    if pdpt_grows(a, b, rights, h) {
        assert forall|i: int| 0 <= i < 512 implies pdpt_entry_grows(a.entries@[i], #[trigger] c.entries@[i], rights, h) by {
            lemma_pdpt_entry_grows_trans(a.entries@[i], b.entries@[i], c.entries@[i], rights, h, h2);
        }
    }
    if pdpt_new(b, rights, h) {
        assert forall|i: int| 0 <= i < 512 implies pdpt_entry_grows(PdptEntry::Empty, #[trigger] c.entries@[i], rights, h) by {
            lemma_pdpt_entry_grows_trans(PdptEntry::Empty, b.entries@[i], c.entries@[i], rights, h, h2);
        }
    }
}

/// An address space whose tables are those of `s0` has grown from it.
proof fn lemma_grows_refl(s0: VSpace, s1: VSpace, rights: MapAction)
    requires
        s1.spec_pml4() == s0.spec_pml4(),
    ensures
        VSpace::grows_from(s0, s1, rights),
{
    reveal(VSpace::grows_from);
    assert forall|i: int| 0 <= i < 512 implies pml4_entry_grows(
        s0.spec_pml4()[i],
        #[trigger] s1.spec_pml4()[i],
        rights,
        s0.hi(),
    ) by {
        if let Pml4Entry::Table(pp) = s0.spec_pml4()[i] {
            assert forall|j: int| 0 <= j < 512 implies pdpt_entry_grows(
                pp.entries@[j],
                #[trigger] pp.entries@[j],
                rights,
                s0.hi(),
            ) by {
                if let PdptEntry::Table(dd) = pp.entries@[j] {
                    assert(pd_grows(dd, dd, rights, s0.hi()));
                }
            }
        }
    }
}

/// Growth followed by growth with the same rights is growth.
proof fn lemma_grows_trans(s0: VSpace, s1: VSpace, s2: VSpace, rights: MapAction)
    requires
        VSpace::grows_from(s0, s1, rights),
        VSpace::grows_from(s1, s2, rights),
        s0.hi() <= s1.hi(),
    ensures
        VSpace::grows_from(s0, s2, rights),
{
    reveal(VSpace::grows_from);
    assert forall|i: int| 0 <= i < 512 implies pml4_entry_grows(
        s0.spec_pml4()[i],
        #[trigger] s2.spec_pml4()[i],
        rights,
        s0.hi(),
    ) by {
        assert(pml4_entry_grows(s0.spec_pml4()[i], s1.spec_pml4()[i], rights, s0.hi()));
        assert(pml4_entry_grows(s1.spec_pml4()[i], s2.spec_pml4()[i], rights, s1.hi()));
        if let Pml4Entry::Table(p1) = s1.spec_pml4()[i] {
            let p2 = s2.spec_pml4()[i]->Table_0;
            let p0 = match s0.spec_pml4()[i] {
                Pml4Entry::Table(p0) => p0,
                _ => p1,
            };
            lemma_pdpt_grows_trans(p0, p1, p2, rights, s0.hi(), s1.hi());
        }
    }
}

/// The effect of one mapping step in the PDPT of `vbase`'s PML4 slot (an
/// existing table, or a new empty one that took an empty slot), as seen by
/// translation of the whole address space.
proof fn lemma_vspace_step(
    s0: VSpace,
    s: VSpace,
    p0: Pdpt,
    p: Pdpt,
    vbase: int,
    pbase: int,
    psize: int,
    len: int,
)
    requires
        0 <= vbase < VADDR_LIMIT,
        len >= 0,
        vbase + len <= (vbase / PML4_SLOT_SIZE as int + 1) * PML4_SLOT_SIZE as int,
        s0.pml4@.len() == 512,
        s.pml4@ == s0.pml4@.update(spec_pml4_index(vbase), Pml4Entry::Table(p)),
        s0.pml4@[spec_pml4_index(vbase)] == Pml4Entry::Table(p0) || (s0.pml4@[spec_pml4_index(
            vbase,
        )] is Empty && forall|i: int| 0 <= i < 512 ==> (#[trigger] p0.entries@[i]) is Empty),
        p0.entries@.len() == 512,
        forall|va: int|
            va >= 0 && va / PML4_SLOT_SIZE as int == vbase / PML4_SLOT_SIZE as int
                ==> #[trigger] pdpt_translate(p, va) == after_map(pdpt_translate(p0, va), vbase, pbase, len, va),
        forall|va: int|
            va >= 0 && va / PML4_SLOT_SIZE as int == vbase / PML4_SLOT_SIZE as int && !(vbase <= va
                < vbase + len) ==> #[trigger] pdpt_large(p, va) == pdpt_large(p0, va),
        forall|va: int| vbase <= va < vbase + len ==> !#[trigger] pdpt_large(p0, va),
        forall|va: int|
            va >= 0 && va / PML4_SLOT_SIZE as int == vbase / PML4_SLOT_SIZE as int
                ==> #[trigger] pdpt_leaf_size(p, va) == if pdpt_translate(p0, va) is Some {
                pdpt_leaf_size(p0, va)
            } else {
                pdpt_leaf_size(p, va)
            } && (pdpt_translate(p0, va) is None ==> size_fits(vbase, pbase, psize, va, pdpt_leaf_size(p, va))),
    ensures
        forall|va: int|
            0 <= va < VADDR_LIMIT ==> (#[trigger] s.leaf_size(va) == if s0.translate(va) is Some {
                s0.leaf_size(va)
            } else {
                s.leaf_size(va)
            }) && (s0.translate(va) is None ==> size_fits(vbase, pbase, psize, va, s.leaf_size(va))),
        forall|va: int|
            0 <= va < VADDR_LIMIT ==> #[trigger] s.translate(va) == after_map(
                s0.translate(va),
                vbase,
                pbase,
                len,
                va,
            ),
        forall|va: int|
            0 <= va < VADDR_LIMIT && !(vbase <= va < vbase + len) ==> #[trigger] s.large_covered(va)
                == s0.large_covered(va),
        forall|va: int| vbase <= va < vbase + len ==> !#[trigger] s0.large_covered(va),
        s0.large_covered(vbase) == pdpt_large(p0, vbase),
{
    let i4 = spec_pml4_index(vbase);
    assert forall|va: int| 0 <= va < VADDR_LIMIT implies #[trigger] s.translate(va) == after_map(
        s0.translate(va),
        vbase,
        pbase,
        len,
        va,
    ) && (!(vbase <= va < vbase + len) ==> s.large_covered(va) == s0.large_covered(va)) by {
        if va / PML4_SLOT_SIZE as int == vbase / PML4_SLOT_SIZE as int {
            assert(spec_pml4_index(va) == i4);
        } else {
            assert(spec_pml4_index(va) != i4);
            assert(!(vbase <= va < vbase + len));
        }
    }
    assert forall|va: int| vbase <= va < vbase + len implies !#[trigger] s0.large_covered(va) by {
        assert(va / PML4_SLOT_SIZE as int == vbase / PML4_SLOT_SIZE as int);
        assert(spec_pml4_index(va) == i4);
    }
    assert forall|va: int| 0 <= va < VADDR_LIMIT implies (#[trigger] s.leaf_size(va) == if s0.translate(
        va,
    ) is Some {
        s0.leaf_size(va)
    } else {
        s.leaf_size(va)
    }) && (s0.translate(va) is None ==> size_fits(vbase, pbase, psize, va, s.leaf_size(va))) by {
        if va / PML4_SLOT_SIZE as int == vbase / PML4_SLOT_SIZE as int {
            assert(spec_pml4_index(va) == i4);
        } else {
            assert(spec_pml4_index(va) != i4);
        }
    }
}

/// The page sizes of one mapping step in the PDPT of `vbase`'s PML4 slot,
/// as seen in the whole address space.
proof fn lemma_vspace_max(
    s0: VSpace,
    s: VSpace,
    p0: Pdpt,
    p: Pdpt,
    vbase: int,
    pbase: int,
    psize: int,
    len: int,
)
    requires
        0 <= vbase < VADDR_LIMIT,
        len > 0,
        vbase + len <= (vbase / PML4_SLOT_SIZE as int + 1) * PML4_SLOT_SIZE as int,
        s0.pml4@.len() == 512,
        s.pml4@ == s0.pml4@.update(spec_pml4_index(vbase), Pml4Entry::Table(p)),
        s0.pml4@[spec_pml4_index(vbase)] == Pml4Entry::Table(p0) || (s0.pml4@[spec_pml4_index(
            vbase,
        )] is Empty && forall|i: int| 0 <= i < 512 ==> (#[trigger] p0.entries@[i]) is Empty),
        p0.entries@.len() == 512,
        forall|va: int|
            vbase <= va < vbase + len && pdpt_translate(p0, va) is None ==> #[trigger] pdpt_leaf_size(
                p,
                va,
            ) == Some(pick_size(pdpt_slot_free(p0, va), pdpt_pd_free(p0, va), vbase, pbase, psize, va)),
        forall|va: int|
            va >= 0 && vbase <= slot_start(va, HUGE_PAGE_SIZE as int) < vbase + len
                && #[trigger] pdpt_slot_free(p0, va) && page_fits(vbase, pbase, psize, va, HUGE_PAGE_SIZE as int)
                ==> slot_start(va, HUGE_PAGE_SIZE as int) + HUGE_PAGE_SIZE <= vbase + len,
        forall|va: int|
            va >= 0 && vbase <= slot_start(va, LARGE_PAGE_SIZE as int) < vbase + len
                && #[trigger] pdpt_pd_free(p0, va) && page_fits(vbase, pbase, psize, va, LARGE_PAGE_SIZE as int)
                ==> slot_start(va, LARGE_PAGE_SIZE as int) + LARGE_PAGE_SIZE <= vbase + len,
        forall|va: int|
            va >= 0 && va / PML4_SLOT_SIZE as int == vbase / PML4_SLOT_SIZE as int
                && slot_start(va, HUGE_PAGE_SIZE as int) >= vbase + len
                ==> #[trigger] pdpt_slot_free(p, va) == pdpt_slot_free(p0, va),
        forall|va: int|
            va >= 0 && va / PML4_SLOT_SIZE as int == vbase / PML4_SLOT_SIZE as int
                && slot_start(va, LARGE_PAGE_SIZE as int) >= vbase + len
                ==> #[trigger] pdpt_pd_free(p, va) == pdpt_pd_free(p0, va),
    ensures
        VSpace::step_picks(s0, s, vbase, pbase, psize, len),
{
    reveal(VSpace::step_picks);
    lemma_vspace_max_sizes(s0, s, p0, p, vbase, pbase, psize, len);
    lemma_vspace_max_contain(s0, s, p0, p, vbase, pbase, psize, len);
    lemma_vspace_max_frame(s0, s, p0, p, vbase, pbase, psize, len);
}

#[verifier::spinoff_prover]
proof fn lemma_vspace_max_sizes(
    s0: VSpace,
    s: VSpace,
    p0: Pdpt,
    p: Pdpt,
    vbase: int,
    pbase: int,
    psize: int,
    len: int,
)
    requires
        0 <= vbase < VADDR_LIMIT,
        len > 0,
        vbase + len <= (vbase / PML4_SLOT_SIZE as int + 1) * PML4_SLOT_SIZE as int,
        s0.pml4@.len() == 512,
        s.pml4@ == s0.pml4@.update(spec_pml4_index(vbase), Pml4Entry::Table(p)),
        s0.pml4@[spec_pml4_index(vbase)] == Pml4Entry::Table(p0) || (s0.pml4@[spec_pml4_index(
            vbase,
        )] is Empty && forall|i: int| 0 <= i < 512 ==> (#[trigger] p0.entries@[i]) is Empty),
        p0.entries@.len() == 512,
        forall|va: int|
            vbase <= va < vbase + len && pdpt_translate(p0, va) is None ==> #[trigger] pdpt_leaf_size(
                p,
                va,
            ) == Some(pick_size(pdpt_slot_free(p0, va), pdpt_pd_free(p0, va), vbase, pbase, psize, va)),
    ensures
        forall|va: int|
            vbase <= va < vbase + len && s0.translate(va) is None ==> #[trigger] s.leaf_size(va)
                == Some(VSpace::expected_size(s0, vbase, pbase, psize, va)),
{
    let i4 = spec_pml4_index(vbase);
    assert forall|va: int|
        vbase <= va < vbase + len && s0.translate(va) is None implies #[trigger] s.leaf_size(va)
            == Some(VSpace::expected_size(s0, vbase, pbase, psize, va)) by {
        assert(va / PML4_SLOT_SIZE as int == vbase / PML4_SLOT_SIZE as int);
        assert(spec_pml4_index(va) == i4);
        assert(s0.pdpt_free(va) == pdpt_slot_free(p0, va));
        assert(s0.pd_free(va) == pdpt_pd_free(p0, va));
        assert(s0.translate(va) == pdpt_translate(p0, va));
    }
}

#[verifier::spinoff_prover]
proof fn lemma_vspace_max_contain(
    s0: VSpace,
    s: VSpace,
    p0: Pdpt,
    p: Pdpt,
    vbase: int,
    pbase: int,
    psize: int,
    len: int,
)
    requires
        0 <= vbase < VADDR_LIMIT,
        len > 0,
        vbase + len <= (vbase / PML4_SLOT_SIZE as int + 1) * PML4_SLOT_SIZE as int,
        s0.pml4@.len() == 512,
        s.pml4@ == s0.pml4@.update(spec_pml4_index(vbase), Pml4Entry::Table(p)),
        s0.pml4@[spec_pml4_index(vbase)] == Pml4Entry::Table(p0) || (s0.pml4@[spec_pml4_index(
            vbase,
        )] is Empty && forall|i: int| 0 <= i < 512 ==> (#[trigger] p0.entries@[i]) is Empty),
        p0.entries@.len() == 512,
        forall|va: int|
            va >= 0 && vbase <= slot_start(va, HUGE_PAGE_SIZE as int) < vbase + len
                && #[trigger] pdpt_slot_free(p0, va) && page_fits(vbase, pbase, psize, va, HUGE_PAGE_SIZE as int)
                ==> slot_start(va, HUGE_PAGE_SIZE as int) + HUGE_PAGE_SIZE <= vbase + len,
        forall|va: int|
            va >= 0 && vbase <= slot_start(va, LARGE_PAGE_SIZE as int) < vbase + len
                && #[trigger] pdpt_pd_free(p0, va) && page_fits(vbase, pbase, psize, va, LARGE_PAGE_SIZE as int)
                ==> slot_start(va, LARGE_PAGE_SIZE as int) + LARGE_PAGE_SIZE <= vbase + len,
    ensures
        forall|va: int|
            0 <= va < VADDR_LIMIT && vbase <= slot_start(va, HUGE_PAGE_SIZE as int) < vbase + len
                && #[trigger] s0.pdpt_free(va) && page_fits(vbase, pbase, psize, va, HUGE_PAGE_SIZE as int)
                ==> slot_start(va, HUGE_PAGE_SIZE as int) + HUGE_PAGE_SIZE <= vbase + len,
        forall|va: int|
            0 <= va < VADDR_LIMIT && vbase <= slot_start(va, LARGE_PAGE_SIZE as int) < vbase + len
                && #[trigger] s0.pd_free(va) && page_fits(vbase, pbase, psize, va, LARGE_PAGE_SIZE as int)
                ==> slot_start(va, LARGE_PAGE_SIZE as int) + LARGE_PAGE_SIZE <= vbase + len,
{
    let i4 = spec_pml4_index(vbase);
    assert forall|va: int|
        0 <= va < VADDR_LIMIT && vbase <= slot_start(va, HUGE_PAGE_SIZE as int) < vbase + len
            && #[trigger] s0.pdpt_free(va) && page_fits(vbase, pbase, psize, va, HUGE_PAGE_SIZE as int)
            implies slot_start(va, HUGE_PAGE_SIZE as int) + HUGE_PAGE_SIZE <= vbase + len by {
        let g = slot_start(va, 0x40000000);
        assert(g <= va < g + 0x40000000);
        assert(va / PML4_SLOT_SIZE as int == vbase / PML4_SLOT_SIZE as int);
        assert(spec_pml4_index(va) == i4);
        assert(s0.pdpt_free(va) == pdpt_slot_free(p0, va));
    }
    assert forall|va: int|
        0 <= va < VADDR_LIMIT && vbase <= slot_start(va, LARGE_PAGE_SIZE as int) < vbase + len
            && #[trigger] s0.pd_free(va) && page_fits(vbase, pbase, psize, va, LARGE_PAGE_SIZE as int)
            implies slot_start(va, LARGE_PAGE_SIZE as int) + LARGE_PAGE_SIZE <= vbase + len by {
        let m = slot_start(va, 0x200000);
        assert(m <= va < m + 0x200000);
        assert(va / PML4_SLOT_SIZE as int == vbase / PML4_SLOT_SIZE as int);
        assert(spec_pml4_index(va) == i4);
        assert(s0.pd_free(va) == pdpt_pd_free(p0, va));
    }
}

#[verifier::spinoff_prover]
proof fn lemma_vspace_max_frame(
    s0: VSpace,
    s: VSpace,
    p0: Pdpt,
    p: Pdpt,
    vbase: int,
    pbase: int,
    psize: int,
    len: int,
)
    requires
        0 <= vbase < VADDR_LIMIT,
        len > 0,
        vbase + len <= (vbase / PML4_SLOT_SIZE as int + 1) * PML4_SLOT_SIZE as int,
        s0.pml4@.len() == 512,
        s.pml4@ == s0.pml4@.update(spec_pml4_index(vbase), Pml4Entry::Table(p)),
        s0.pml4@[spec_pml4_index(vbase)] == Pml4Entry::Table(p0) || (s0.pml4@[spec_pml4_index(
            vbase,
        )] is Empty && forall|i: int| 0 <= i < 512 ==> (#[trigger] p0.entries@[i]) is Empty),
        p0.entries@.len() == 512,
        forall|va: int|
            va >= 0 && va / PML4_SLOT_SIZE as int == vbase / PML4_SLOT_SIZE as int
                && slot_start(va, HUGE_PAGE_SIZE as int) >= vbase + len
                ==> #[trigger] pdpt_slot_free(p, va) == pdpt_slot_free(p0, va),
        forall|va: int|
            va >= 0 && va / PML4_SLOT_SIZE as int == vbase / PML4_SLOT_SIZE as int
                && slot_start(va, LARGE_PAGE_SIZE as int) >= vbase + len
                ==> #[trigger] pdpt_pd_free(p, va) == pdpt_pd_free(p0, va),
    ensures
        forall|va: int|
            0 <= va < VADDR_LIMIT && slot_start(va, HUGE_PAGE_SIZE as int) >= vbase + len
                ==> #[trigger] s.pdpt_free(va) == s0.pdpt_free(va),
        forall|va: int|
            0 <= va < VADDR_LIMIT && slot_start(va, LARGE_PAGE_SIZE as int) >= vbase + len
                ==> #[trigger] s.pd_free(va) == s0.pd_free(va),
{
    let i4 = spec_pml4_index(vbase);
    assert forall|va: int|
        0 <= va < VADDR_LIMIT && slot_start(va, HUGE_PAGE_SIZE as int) >= vbase + len
            implies #[trigger] s.pdpt_free(va) == s0.pdpt_free(va) by {
        if va / PML4_SLOT_SIZE as int == vbase / PML4_SLOT_SIZE as int {
            assert(spec_pml4_index(va) == i4);
        } else {
            assert(spec_pml4_index(va) != i4);
        }
    }
    assert forall|va: int|
        0 <= va < VADDR_LIMIT && slot_start(va, LARGE_PAGE_SIZE as int) >= vbase + len
            implies #[trigger] s.pd_free(va) == s0.pd_free(va) by {
        if va / PML4_SLOT_SIZE as int == vbase / PML4_SLOT_SIZE as int {
            assert(spec_pml4_index(va) == i4);
        } else {
            assert(spec_pml4_index(va) != i4);
        }
    }
}

/// The page sizes picked by a step that mapped `[vbase, vbase + mapped)`
/// and by a completed request for the rest of the range are those that a
/// request for the whole range picks.
#[verifier::spinoff_prover]
proof fn lemma_compose_picks(
    s0: VSpace,
    s1: VSpace,
    s2: VSpace,
    vbase: int,
    pbase: int,
    psize: int,
    mapped: int,
)
    requires
        0 < mapped < psize,
        vbase >= 0,
        vbase + psize <= VADDR_LIMIT,
        VSpace::step_picks(s0, s1, vbase, pbase, psize, mapped),
        VSpace::maps_all(s0, s1, vbase, pbase, mapped),
        VSpace::leaves_fit(s1, s2, vbase + mapped, pbase + mapped, psize - mapped),
        VSpace::picks_all(s1, s2, vbase + mapped, pbase + mapped, psize - mapped),
    ensures
        VSpace::picks_all(s0, s2, vbase, pbase, psize),
{
    reveal(VSpace::step_picks);
    reveal(VSpace::maps_all);
    reveal(VSpace::leaves_fit);
    reveal(VSpace::picks_all);
    let v2 = vbase + mapped;
    assert forall|va: int| vbase <= va < vbase + psize && s0.translate(va) is None implies #[trigger] s2.leaf_size(
        va,
    ) == Some(VSpace::expected_size(s0, vbase, pbase, psize, va)) by {
        assert(s1.translate(va) == after_map(s0.translate(va), vbase, pbase, mapped, va));
        if va < v2 {
            assert(s1.translate(va) is Some);
            assert(s2.leaf_size(va) == s1.leaf_size(va));
        } else {
            assert(s1.translate(va) is None);
            let g = slot_start(va, HUGE_PAGE_SIZE as int);
            let b = slot_start(va, LARGE_PAGE_SIZE as int);
            assert(g <= va < g + 0x40000000);
            assert(b <= va < b + 0x200000);
            if g >= v2 {
                assert(s1.pdpt_free(va) == s0.pdpt_free(va));
            }
            if b >= v2 {
                assert(s1.pd_free(va) == s0.pd_free(va));
            }
            assert(VSpace::expected_size(s1, v2, pbase + mapped, psize - mapped, va)
                == VSpace::expected_size(s0, vbase, pbase, psize, va));
        }
    }
}

/// The 2 MiB part of the bound, for the rest of a request after a step
/// of `m` bytes from `v` that left the slot of `v` occupied.
#[verifier::spinoff_prover]
proof fn lemma_split_step_large(v: int, p: int, n: int, m: int, head: bool)
    requires
        0 <= v,
        0 < m < n,
        (v + m) % 0x200000 == 0 || (v + m) / 0x200000 == v / 0x200000,
        (v + m) / 0x200000 == v / 0x200000 ==> !head,
        head ==> !((v + m) % 0x200000 == 0 && (p + m) % 0x200000 == 0 && n - m >= 0x200000),
    ensures
        ind(head) + split_slots(v + m, p + m, n - m, 0x200000) <= split_slots(v, p, n, 0x200000),
{
    let v2 = v + m;
    assert((p + m) - v2 == p - v);
    if v2 / 0x200000 != v / 0x200000 {
        assert(v2 % 0x200000 == 0);
        assert(v2 / 0x200000 >= v / 0x200000 + 1);
        if (p - v) % 0x200000 == 0 {
            assert((p + m) % 0x200000 == 0);
        }
    }
}

/// The 1 GiB part of the bound, for the rest of a request after a step
/// of `m` bytes from `v` that left the slot of `v` occupied.
#[verifier::spinoff_prover]
proof fn lemma_split_step_huge(v: int, p: int, n: int, m: int, head: bool)
    requires
        0 <= v,
        0 < m < n,
        (v + m) % 0x40000000 == 0 || (v + m) / 0x40000000 == v / 0x40000000,
        (v + m) / 0x40000000 == v / 0x40000000 ==> !head,
        head ==> !((v + m) % 0x40000000 == 0 && (p + m) % 0x40000000 == 0 && n - m >= 0x40000000),
    ensures
        ind(head) + split_slots(v + m, p + m, n - m, 0x40000000) <= split_slots(v, p, n, 0x40000000),
{
    let v2 = v + m;
    assert((p + m) - v2 == p - v);
    if v2 / 0x40000000 != v / 0x40000000 {
        assert(v2 % 0x40000000 == 0);
        assert(v2 / 0x40000000 >= v / 0x40000000 + 1);
        if (p - v) % 0x40000000 == 0 {
            assert((p + m) % 0x40000000 == 0);
        }
    }
}

/// The 512 GiB part of the bound, for the rest of a request after a step
/// of `m` bytes from `v` that left the PML4 slot of `v` occupied.
proof fn lemma_starts_step(v: int, n: int, m: int, head: bool)
    requires
        0 <= v,
        0 < m < n,
        (v + m) / 0x8000000000 == v / 0x8000000000 ==> !head,
    ensures
        ind(head) + slot_starts(v + m, n - m, 0x8000000000) <= slot_starts(v, n, 0x8000000000),
{
    if (v + m) / 0x8000000000 != v / 0x8000000000 {
        assert((v + m) / 0x8000000000 >= v / 0x8000000000 + 1);
    }
}

/// After a step that mapped `[v, v + m)` and occupied the slots of `v`,
/// the bound for the rest of the request is at most the part of the bound
/// for the whole request that does not count the slots of `v`.
proof fn lemma_bound_step(s1: VSpace, v: int, p: int, n: int, m: int)
    requires
        0 <= v,
        0 < m < n,
        v + n <= VADDR_LIMIT,
        (v + m) % LARGE_PAGE_SIZE as int == 0,
        (v + m) % HUGE_PAGE_SIZE as int == 0 || (v + m) / HUGE_PAGE_SIZE as int == v
            / HUGE_PAGE_SIZE as int,
        !s1.pml4_free(v),
        !s1.pdpt_free(v),
        !s1.pd_free(v),
    ensures
        VSpace::tables_bound(s1, v + m, p + m, n - m) <= slot_starts(v, n, PML4_SLOT_SIZE as int)
            + split_slots(v, p, n, HUGE_PAGE_SIZE as int) + split_slots(v, p, n, LARGE_PAGE_SIZE as int),
{
    let v2 = v + m;
    let n2 = n - m;
    let p2 = p + m;
    let h4 = s1.pml4_free(v2);
    let h3 = s1.pdpt_free(v2) && !huge_step(v2, p2, n2);
    let h2 = s1.pd_free(v2) && !huge_step(v2, p2, n2) && !large_step(v2, p2, n2);
    if v2 / 0x8000000000 == v / 0x8000000000 {
        assert(spec_pml4_index(v2) == spec_pml4_index(v));
    }
    lemma_starts_step(v, n, m, h4);
    if v2 / 0x40000000 == v / 0x40000000 {
        lemma_upper_indices(v2, v);
        assert(spec_pml4_index(v2) == spec_pml4_index(v));
        assert(spec_pdpt_index(v2) == spec_pdpt_index(v));
    }
    lemma_split_step_huge(v, p, n, m, h3);
    assert(v2 / 0x200000 != v / 0x200000);
    lemma_split_step_large(v, p, n, m, h2);
}

/// A step that ran out of memory found fewer free pages than the bound.
proof fn lemma_bound_oom(s0: VSpace, s1: VSpace, v: int, p: int, n: int, r: Result<u64, MapError>)
    requires
        VSpace::step_bounds(s0, s1, v, p, n, r),
        0 <= v,
        n > 0,
    ensures
        r == Err::<u64, MapError>(MapError::OutOfMemory) ==> s0.spec_pmem().free_pages()
            < VSpace::tables_bound(s0, v, p, n),
        s1.spec_pmem().spec_allocated() <= s0.spec_pmem().spec_allocated() + BASE_PAGE_SIZE
            * VSpace::tables_bound(s0, v, p, n),
{
    reveal(VSpace::step_bounds);
    assert(slot_starts(v, n, PML4_SLOT_SIZE as int) >= 0);
    assert(split_slots(v, p, n, HUGE_PAGE_SIZE as int) >= 0);
    assert(split_slots(v, p, n, LARGE_PAGE_SIZE as int) >= 0);
}

/// After a completed step that did not finish the request, the free pages
/// left cover the bound for the rest as well as the free pages before
/// covered the bound for the whole.
proof fn lemma_bound_rec(s0: VSpace, s1: VSpace, v: int, p: int, n: int, m: int)
    requires
        VSpace::step_bounds(s0, s1, v, p, n, Ok::<u64, MapError>(m as u64)),
        0 <= v,
        0 < m < n,
        m <= u64::MAX,
        v + n <= VADDR_LIMIT,
        (v + m) % LARGE_PAGE_SIZE as int == 0,
        s1.spec_pmem().spec_size() == s0.spec_pmem().spec_size(),
        s1.spec_pmem().spec_allocated() <= s1.spec_pmem().spec_size(),
        s0.spec_pmem().spec_allocated() <= s1.spec_pmem().spec_allocated(),
    ensures
        s1.spec_pmem().free_pages() - VSpace::tables_bound(s1, v + m, p + m, n - m) >= s0.spec_pmem().free_pages()
            - VSpace::tables_bound(s0, v, p, n),
        s1.spec_pmem().spec_allocated() + BASE_PAGE_SIZE * VSpace::tables_bound(s1, v + m, p + m, n - m)
            <= s0.spec_pmem().spec_allocated() + BASE_PAGE_SIZE * VSpace::tables_bound(s0, v, p, n),
{
    reveal(VSpace::step_bounds);
    lemma_bound_step(s1, v, p, n, m);
}

/// A step that mapped `[vbase, vbase + mapped)` followed by a request for
/// the rest of the range amounts to a request for the whole range.
proof fn lemma_compose(
    s0: VSpace,
    s1: VSpace,
    s2: VSpace,
    vbase: int,
    pbase: int,
    psize: int,
    mapped: int,
    ok: bool,
)
    requires
        0 < mapped < psize,
        VSpace::maps_all(s0, s1, vbase, pbase, mapped),
        forall|va: int|
            0 <= va < VADDR_LIMIT && !(vbase <= va < vbase + mapped) ==> #[trigger] s1.large_covered(va)
                == s0.large_covered(va),
        forall|va: int| vbase <= va < vbase + mapped ==> !#[trigger] s0.large_covered(va),
        VSpace::maps_part(s1, s2, vbase + mapped, pbase + mapped, psize - mapped),
        ok ==> VSpace::maps_all(s1, s2, vbase + mapped, pbase + mapped, psize - mapped),
        ok ==> forall|va: int|
            vbase + mapped <= va < vbase + psize ==> !#[trigger] s1.large_covered(va),
        VSpace::leaves_fit(s0, s1, vbase, pbase, psize),
        VSpace::leaves_fit(s1, s2, vbase + mapped, pbase + mapped, psize - mapped),
        vbase >= 0,
        vbase + psize <= VADDR_LIMIT,
    ensures
        VSpace::maps_part(s0, s2, vbase, pbase, psize),
        ok ==> VSpace::maps_all(s0, s2, vbase, pbase, psize),
        ok ==> forall|va: int| vbase <= va < vbase + psize ==> !#[trigger] s0.large_covered(va),
        VSpace::leaves_fit(s0, s2, vbase, pbase, psize),
{
    reveal(VSpace::maps_part);
    reveal(VSpace::maps_all);
    reveal(VSpace::leaves_fit);
    assert forall|va: int| 0 <= va < VADDR_LIMIT implies (#[trigger] s2.leaf_size(va) == if s0.translate(
        va,
    ) is Some {
        s0.leaf_size(va)
    } else {
        s2.leaf_size(va)
    }) && (s0.translate(va) is None ==> size_fits(vbase, pbase, psize, va, s2.leaf_size(va))) by {
        assert(s1.translate(va) == after_map(s0.translate(va), vbase, pbase, mapped, va));
        assert(s1.leaf_size(va) == if s0.translate(va) is Some {
            s0.leaf_size(va)
        } else {
            s1.leaf_size(va)
        });
        assert(s2.leaf_size(va) == if s1.translate(va) is Some {
            s1.leaf_size(va)
        } else {
            s2.leaf_size(va)
        });
    }
    assert(VSpace::leaves_fit(s0, s2, vbase, pbase, psize));
    assert forall|va: int| 0 <= va < VADDR_LIMIT implies #[trigger] s2.translate(va) == s0.translate(
        va,
    ) || s2.translate(va) == after_map(s0.translate(va), vbase, pbase, psize, va) by {
        assert(s1.translate(va) == after_map(s0.translate(va), vbase, pbase, mapped, va));
    }
    if ok {
        assert forall|va: int| 0 <= va < VADDR_LIMIT implies #[trigger] s2.translate(va)
            == after_map(s0.translate(va), vbase, pbase, psize, va) by {
            assert(s1.translate(va) == after_map(s0.translate(va), vbase, pbase, mapped, va));
            assert(s2.translate(va) == after_map(
                s1.translate(va),
                vbase + mapped,
                pbase + mapped,
                psize - mapped,
                va,
            ));
        }
        assert forall|va: int| vbase <= va < vbase + psize implies !#[trigger] s0.large_covered(va) by {
            if va >= vbase + mapped {
                assert(!s1.large_covered(va));
            }
        }
    }
}

/// The least multiple of `a` that is at least `x`.
pub open spec fn align_up(x: int, a: int) -> int {
    ((x + a - 1) / a) * a
}

proof fn lemma_align_up(x: int, a: int)
    requires
        x >= 0,
        a > 0,
        x % 4096 == 0,
        a % 4096 == 0,
    ensures
        x <= align_up(x, a) < x + a,
        align_up(x, a) % a == 0,
        align_up(x, a) % 4096 == 0,
{
    let q = (x + a - 1) / a;
    lemma_fundamental_div_mod(x + a - 1, a);
    lemma_mod_multiples_basic(q, a);
    assert(x <= q * a < x + a) by (nonlinear_arith)
        requires
            x + a - 1 == a * q + (x + a - 1) % a,
            0 <= (x + a - 1) % a < a,
    ;
    let k = a / 4096;
    assert(q * a == (q * k) * 4096) by (nonlinear_arith)
        requires
            a == 4096 * k,
    ;
    lemma_mod_multiples_basic(q * k, 4096);
}

/// Mapping a prefix of a range is a partial mapping of the whole range,
/// and a full one when the prefix is the whole range.
proof fn lemma_maps_prefix(s0: VSpace, s1: VSpace, vbase: int, pbase: int, mapped: int, psize: int)
    requires
        0 <= mapped <= psize,
        VSpace::maps_all(s0, s1, vbase, pbase, mapped),
    ensures
        VSpace::maps_part(s0, s1, vbase, pbase, psize),
        mapped == psize ==> VSpace::maps_all(s0, s1, vbase, pbase, psize),
{
    reveal(VSpace::maps_part);
    reveal(VSpace::maps_all);
    assert forall|va: int| 0 <= va < VADDR_LIMIT implies #[trigger] s1.translate(va) == s0.translate(va)
        || s1.translate(va) == after_map(s0.translate(va), vbase, pbase, psize, va) by {
        assert(s1.translate(va) == after_map(s0.translate(va), vbase, pbase, mapped, va));
    }
}

/// After a completed `map_generic(v, (p, n), _)`, every page offset `k`
/// of the range whose address was unmapped before resolves to `p + k`.
pub proof fn lemma_map_then_resolve(before: VSpace, after: VSpace, v: int, p: int, n: int, k: int)
    requires
        VSpace::maps_all(before, after, v, p, n),
        0 <= v,
        v + n <= VADDR_LIMIT,
        0 <= k < n,
        k % BASE_PAGE_SIZE as int == 0,
        before.translate(v + k) is None,
    ensures
        after.translate(v + k) == Some(p + k),
{
    reveal(VSpace::maps_all);
    assert(after.translate(v + k) == after_map(before.translate(v + k), v, p, n, v + k));
}

/// After a completed `map_identity(b, e, _)`, every address of `[b, e)`
/// that was unmapped before resolves to itself.
pub proof fn lemma_identity_round_trip(before: VSpace, after: VSpace, b: int, e: int, va: int)
    requires
        VSpace::maps_all(before, after, b, b, e - b),
        0 <= b <= va < e <= VADDR_LIMIT,
        before.translate(va) is None,
    ensures
        after.translate(va) == Some(va),
{
    reveal(VSpace::maps_all);
    assert(after.translate(va) == after_map(before.translate(va), b, b, e - b, va));
}

/// A 1 GiB or 2 MiB page that a request to map `[v, v + n)` at `p`
/// installs for an address that was unmapped before lies wholly inside the
/// range, and `p` is aligned like `v` modulo the page's size.
pub proof fn lemma_large_pages_fit(before: VSpace, after: VSpace, v: int, p: int, n: int, va: int)
    requires
        VSpace::leaves_fit(before, after, v, p, n),
        0 <= va < VADDR_LIMIT,
        before.translate(va) is None,
        after.leaf_size(va) == Some(HUGE_PAGE_SIZE as int) || after.leaf_size(va) == Some(
            LARGE_PAGE_SIZE as int,
        ),
    ensures
        page_fits(v, p, n, va, after.leaf_size(va)->Some_0),
{
    reveal(VSpace::leaves_fit);
    assert(size_fits(v, p, n, va, after.leaf_size(va)));
}

/// After a completed `map_generic(v, (p, n), _)`, an address of the range
/// that was unmapped before is mapped by a 1 GiB page if its 1 GiB slot was
/// free, lies in the range and `p` is aligned like `v` modulo 1 GiB; else by
/// a 2 MiB page if the same holds of its 2 MiB slot; else by a 4 KiB page.
pub proof fn lemma_page_size_selection(before: VSpace, after: VSpace, v: int, p: int, n: int, va: int)
    requires
        VSpace::picks_all(before, after, v, p, n),
        v <= va < v + n,
        before.translate(va) is None,
    ensures
        after.leaf_size(va) == Some(
            pick_size(
                before.pdpt_free(va),
                before.pd_free(va),
                v,
                p,
                n,
                va,
            ),
        ),
{
    reveal(VSpace::picks_all);
}

/// An address is covered by a page of some size exactly when it
/// translates; in particular a 1 GiB or 2 MiB page over it makes it mapped.
pub proof fn lemma_leaf_iff_mapped(s: VSpace, va: int)
    ensures
        s.leaf_size(va) is Some <==> s.translate(va) is Some,
        s.large_covered(va) ==> s.translate(va) is Some,
        s.large_covered(va) ==> s.leaf_size(va) == Some(HUGE_PAGE_SIZE as int) || s.leaf_size(va)
            == Some(LARGE_PAGE_SIZE as int),
{
}

/// What growth means for one address: one that was mapped keeps its
/// translation, page size and rights; one that became mapped has the
/// request's rights.
pub proof fn lemma_grows_rights(before: VSpace, after: VSpace, rights: MapAction, va: int)
    requires
        VSpace::grows_from(before, after, rights),
        0 <= va,
    ensures
        before.translate(va) is Some ==> after.translate(va) == before.translate(va)
            && after.leaf_size(va) == before.leaf_size(va) && after.rights_at(va) == before.rights_at(
            va,
        ),
        before.translate(va) is None && after.translate(va) is Some ==> after.rights_at(va) == Some(
            rights,
        ),
        after.rights_at(va) is Some <==> after.translate(va) is Some,
{
    reveal(VSpace::grows_from);
    let i4 = spec_pml4_index(va);
    let i3 = spec_pdpt_index(va);
    let i2 = spec_pd_index(va);
    let i1 = spec_pt_index(va);
    assert(0 <= i4 < 512 && 0 <= i3 < 512 && 0 <= i2 < 512 && 0 <= i1 < 512);
    assert(pml4_entry_grows(before.spec_pml4()[i4], after.spec_pml4()[i4], rights, before.hi()));
    if let Pml4Entry::Table(p) = after.spec_pml4()[i4] {
        let pe = p.entries@[i3];
        match before.spec_pml4()[i4] {
            Pml4Entry::Table(p0) => {
                assert(pdpt_entry_grows(p0.entries@[i3], pe, rights, before.hi()));
                if let PdptEntry::Table(d) = pe {
                    if let PdptEntry::Table(d0) = p0.entries@[i3] {
                        assert(pd_entry_grows(d0.entries@[i2], d.entries@[i2], rights, before.hi()));
                    } else {
                        assert(pd_entry_grows(PdEntry::Empty, d.entries@[i2], rights, before.hi()));
                    }
                }
            },
            Pml4Entry::Empty => {
                assert(pdpt_entry_grows(PdptEntry::Empty, pe, rights, before.hi()));
                if let PdptEntry::Table(d) = pe {
                    assert(pd_entry_grows(PdEntry::Empty, d.entries@[i2], rights, before.hi()));
                }
            },
        }
    }
}

/// Applying a mapping a second time, whether or not that request
/// completes, leaves every translation as the first one left it.
pub proof fn lemma_remap_idempotent(s0: VSpace, s1: VSpace, s2: VSpace, v: int, p: int, n: int)
    requires
        VSpace::maps_all(s0, s1, v, p, n),
        VSpace::maps_part(s1, s2, v, p, n),
    ensures
        forall|va: int| 0 <= va < VADDR_LIMIT ==> #[trigger] s2.translate(va) == s1.translate(va),
{
    reveal(VSpace::maps_all);
    reveal(VSpace::maps_part);
    assert forall|va: int| 0 <= va < VADDR_LIMIT implies #[trigger] s2.translate(va) == s1.translate(
        va,
    ) by {
        assert(s1.translate(va) == after_map(s0.translate(va), v, p, n, va));
    }
}

/// The entries of the first `n` slots of a page table as they go into
/// guest memory: for each 4 KiB page, its slot's address and
/// `paddr | P | rights`. Empty slots are zero and are left out.
pub open spec fn pt_image(t: PageTable, n: int) -> Seq<(u64, u64)>
    decreases n,
{
    if n <= 0 {
        Seq::empty()
    } else {
        pt_image(t, n - 1) + match t.entries@[n - 1] {
            None => Seq::empty(),
            Some(l) => seq![
                ((t.paddr + 8 * (n - 1)) as u64, spec_entry(l.paddr, FLAG_P | l.rights.spec_rights())),
            ],
        }
    }
}

/// The entries of the first `n` slots of a page directory and of the page
/// tables below them: a 2 MiB page is `paddr | P | PS | rights`, a page
/// table is `table paddr | P | RW` followed by that table's entries.
pub open spec fn pd_image(d: PageDirectory, n: int) -> Seq<(u64, u64)>
    decreases n,
{
    if n <= 0 {
        Seq::empty()
    } else {
        pd_image(d, n - 1) + match d.entries@[n - 1] {
            PdEntry::Empty => Seq::empty(),
            PdEntry::Large(l) => seq![
                (
                    (d.paddr + 8 * (n - 1)) as u64,
                    spec_entry(l.paddr, FLAG_P | FLAG_PS | l.rights.spec_rights()),
                ),
            ],
            PdEntry::Table(t) => seq![
                ((d.paddr + 8 * (n - 1)) as u64, spec_entry(t.paddr, FLAG_P | FLAG_RW)),
            ] + pt_image(t, 512),
        }
    }
}

/// The entries of the first `n` slots of a PDPT and of the tables below
/// them: a 1 GiB page is `paddr | P | PS | rights`, a page directory is
/// `directory paddr | P | RW` followed by the directory's entries.
pub open spec fn pdpt_image(p: Pdpt, n: int) -> Seq<(u64, u64)>
    decreases n,
{
    if n <= 0 {
        Seq::empty()
    } else {
        pdpt_image(p, n - 1) + match p.entries@[n - 1] {
            PdptEntry::Empty => Seq::empty(),
            PdptEntry::Huge(l) => seq![
                (
                    (p.paddr + 8 * (n - 1)) as u64,
                    spec_entry(l.paddr, FLAG_P | FLAG_PS | l.rights.spec_rights()),
                ),
            ],
            PdptEntry::Table(d) => seq![
                ((p.paddr + 8 * (n - 1)) as u64, spec_entry(d.paddr, FLAG_P | FLAG_RW)),
            ] + pd_image(d, 512),
        }
    }
}

/// The entries of the first `n` slots of the PML4 at `pml4_paddr`, each a
/// PDPT as `PDPT paddr | P | RW` followed by the PDPT's entries.
pub open spec fn pml4_image(pml4: Seq<Pml4Entry>, pml4_paddr: u64, n: int) -> Seq<(u64, u64)>
    decreases n,
{
    if n <= 0 {
        Seq::empty()
    } else {
        pml4_image(pml4, pml4_paddr, n - 1) + match pml4[n - 1] {
            Pml4Entry::Empty => Seq::empty(),
            Pml4Entry::Table(p) => seq![
                ((pml4_paddr + 8 * (n - 1)) as u64, spec_entry(p.paddr, FLAG_P | FLAG_RW)),
            ] + pdpt_image(p, 512),
        }
    }
}

/// A write of one 8-byte entry inside the arena part `[lo, hi)`.
pub open spec fn write_ok(w: (u64, u64), lo: int, hi: int) -> bool {
    &&& lo <= w.0
    &&& w.0 + 8 <= hi
    &&& w.0 % 8 == 0
}

#[verifier::spinoff_prover]
fn pt_writes(t: &PageTable, out: &mut Vec<(u64, u64)>, Ghost(lo): Ghost<int>, Ghost(hi): Ghost<int>)
    requires
        pt_wf(*t, lo, hi),
        forall|k: int| 0 <= k < old(out)@.len() ==> write_ok(#[trigger] old(out)@[k], lo, hi),
    ensures
        forall|k: int| 0 <= k < final(out)@.len() ==> write_ok(#[trigger] final(out)@[k], lo, hi),
        final(out)@ == old(out)@ + pt_image(*t, 512),
{
    let mut i: usize = 0;
    assert(old(out)@ + pt_image(*t, 0) =~= old(out)@);
    while i < ENTRIES_PER_TABLE
        invariant
            pt_wf(*t, lo, hi),
            0 <= i <= 512,
            forall|k: int| 0 <= k < out@.len() ==> write_ok(#[trigger] out@[k], lo, hi),
            out@ == old(out)@ + pt_image(*t, i as int),
        decreases 512 - i,
    {
        let ghost prev = out@;
        match &t.entries[i] {
            None => {
                assert(pt_image(*t, i + 1) =~= pt_image(*t, i as int));
            },
            Some(l) => {
                out.push((t.paddr + 8 * (i as u64), make_entry(l.paddr, FLAG_P | l.rights.to_pt_rights())));
                assert(out@ =~= old(out)@ + pt_image(*t, i + 1));
            },
        }
        i = i + 1;
    }
}

#[verifier::spinoff_prover]
fn pd_writes(d: &PageDirectory, out: &mut Vec<(u64, u64)>, Ghost(lo): Ghost<int>, Ghost(hi): Ghost<int>)
    requires
        pd_wf(*d, lo, hi),
        forall|k: int| 0 <= k < old(out)@.len() ==> write_ok(#[trigger] old(out)@[k], lo, hi),
    ensures
        forall|k: int| 0 <= k < final(out)@.len() ==> write_ok(#[trigger] final(out)@[k], lo, hi),
        final(out)@ == old(out)@ + pd_image(*d, 512),
{
    let mut i: usize = 0;
    assert(old(out)@ + pd_image(*d, 0) =~= old(out)@);
    while i < ENTRIES_PER_TABLE
        invariant
            pd_wf(*d, lo, hi),
            0 <= i <= 512,
            forall|k: int| 0 <= k < out@.len() ==> write_ok(#[trigger] out@[k], lo, hi),
            out@ == old(out)@ + pd_image(*d, i as int),
        decreases 512 - i,
    {
        assert(pd_entry_wf(d.entries@[i as int], lo, hi));
        match &d.entries[i] {
            PdEntry::Empty => {
                assert(pd_image(*d, i + 1) =~= pd_image(*d, i as int));
            },
            PdEntry::Large(l) => {
                out.push(
                    (d.paddr + 8 * (i as u64), make_entry(l.paddr, FLAG_P | FLAG_PS | l.rights.to_pd_rights())),
                );
                assert(out@ =~= old(out)@ + pd_image(*d, i + 1));
            },
            PdEntry::Table(t) => {
                out.push((d.paddr + 8 * (i as u64), make_entry(t.paddr, FLAG_P | FLAG_RW)));
                pt_writes(t, out, Ghost(lo), Ghost(hi));
                assert(out@ =~= old(out)@ + pd_image(*d, i + 1));
            },
        }
        i = i + 1;
    }
}

#[verifier::spinoff_prover]
fn pdpt_writes(p: &Pdpt, out: &mut Vec<(u64, u64)>, Ghost(lo): Ghost<int>, Ghost(hi): Ghost<int>)
    requires
        pdpt_wf(*p, lo, hi),
        forall|k: int| 0 <= k < old(out)@.len() ==> write_ok(#[trigger] old(out)@[k], lo, hi),
    ensures
        forall|k: int| 0 <= k < final(out)@.len() ==> write_ok(#[trigger] final(out)@[k], lo, hi),
        final(out)@ == old(out)@ + pdpt_image(*p, 512),
{
    let mut i: usize = 0;
    assert(old(out)@ + pdpt_image(*p, 0) =~= old(out)@);
    while i < ENTRIES_PER_TABLE
        invariant
            pdpt_wf(*p, lo, hi),
            0 <= i <= 512,
            forall|k: int| 0 <= k < out@.len() ==> write_ok(#[trigger] out@[k], lo, hi),
            out@ == old(out)@ + pdpt_image(*p, i as int),
        decreases 512 - i,
    {
        assert(pdpt_entry_wf(p.entries@[i as int], lo, hi));
        match &p.entries[i] {
            PdptEntry::Empty => {
                assert(pdpt_image(*p, i + 1) =~= pdpt_image(*p, i as int));
            },
            PdptEntry::Huge(l) => {
                out.push(
                    (p.paddr + 8 * (i as u64), make_entry(l.paddr, FLAG_P | FLAG_PS | l.rights.to_pdpt_rights())),
                );
                assert(out@ =~= old(out)@ + pdpt_image(*p, i + 1));
            },
            PdptEntry::Table(d) => {
                out.push((p.paddr + 8 * (i as u64), make_entry(d.paddr, FLAG_P | FLAG_RW)));
                pd_writes(d, out, Ghost(lo), Ghost(hi));
                assert(out@ =~= old(out)@ + pdpt_image(*p, i + 1));
            },
        }
        i = i + 1;
    }
}

/// A PML4 with every entry empty.
fn empty_pml4() -> (r: Vec<Pml4Entry>)
    ensures
        r@.len() == 512,
        forall|i: int| 0 <= i < 512 ==> (#[trigger] r@[i]) is Empty,
{
    let mut v: Vec<Pml4Entry> = Vec::new();
    while v.len() < ENTRIES_PER_TABLE
        invariant
            v@.len() <= 512,
            forall|i: int| 0 <= i < v@.len() ==> (#[trigger] v@[i]) is Empty,
        decreases 512 - v@.len(),
    {
        v.push(Pml4Entry::Empty);
    }
    v
}

} // verus!
