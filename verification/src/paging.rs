//! Page-table entries, the tables they form, and the builder that maps the
//! higher half with huge pages.

pub mod tree;

use vstd::prelude::*;

use crate::addr::KERNEL_VIRT_OFFSET;
use crate::addr::PHYS_VIRT_OFFSET;

verus! {

/// The flags that software sets on a page-table entry.
#[derive(Debug, Clone, Copy, PartialEq, Eq, Structural)]
pub struct PageTableEntryFlags {
    pub present: bool,
    pub writable: bool,
    pub user: bool,
    pub wt: bool,
    pub no_cache: bool,
    pub huge: bool,
    pub global: bool,
    pub no_execute: bool,
}

impl Default for PageTableEntryFlags {
    fn default() -> (r: Self)
        ensures
            r == (PageTableEntryFlags {
                present: false,
                writable: false,
                user: false,
                wt: false,
                no_cache: false,
                huge: false,
                global: false,
                no_execute: false,
            }),
    {
        PageTableEntryFlags {
            present: false,
            writable: false,
            user: false,
            wt: false,
            no_cache: false,
            huge: false,
            global: false,
            no_execute: false,
        }
    }
}

/// The fields of a page-table entry.
pub ghost struct EntryView {
    pub present: bool,
    pub writable: bool,
    pub user: bool,
    pub wt: bool,
    pub no_cache: bool,
    pub accessed: bool,
    pub dirty: bool,
    pub huge: bool,
    pub global: bool,
    pub available_to_os: u64,
    pub address: u64,
    pub available_to_os2: u64,
    pub no_execute: bool,
}

/// Bit `k` of `bits`.
pub open spec fn bit_of(bits: u64, k: u64) -> bool {
    (bits >> k) & 1 == 1
}

/// `bits` with bit `k` set to `v`.
pub open spec fn with_bit(bits: u64, k: u64, v: bool) -> u64 {
    if v {
        bits | (1u64 << k)
    } else {
        bits & !(1u64 << k)
    }
}

/// Bits 12 to 51 of `bits`: the frame number.
pub open spec fn frame_of(bits: u64) -> u64 {
    (bits >> 12) & 0xFF_FFFF_FFFF
}

/// `bits` with the frame number replaced.
pub open spec fn with_frame(bits: u64, frame: u64) -> u64 {
    (bits & !0x000F_FFFF_FFFF_F000u64) | (frame << 12)
}

/// The fields that the 64 bits of an entry spell.
pub open spec fn fields_of(bits: u64) -> EntryView {
    EntryView {
        present: bit_of(bits, 0),
        writable: bit_of(bits, 1),
        user: bit_of(bits, 2),
        wt: bit_of(bits, 3),
        no_cache: bit_of(bits, 4),
        accessed: bit_of(bits, 5),
        dirty: bit_of(bits, 6),
        huge: bit_of(bits, 7),
        global: bit_of(bits, 8),
        available_to_os: (bits >> 9) & 0x7,
        address: frame_of(bits),
        available_to_os2: (bits >> 52) & 0x7FF,
        no_execute: bit_of(bits, 63),
    }
}

/// Setting a flag bit changes that bit and nothing else.
proof fn lemma_set_flag(bits: u64, k: u64)
    by (bit_vector)
    requires
        k < 9 || k == 63,
    ensures
        bit_of(bits | (1u64 << k), k),
        forall|j: u64| j < 64 && j != k ==> bit_of(bits | (1u64 << k), j) == bit_of(bits, j),
        ((bits | (1u64 << k)) >> 9) & 0x7 == (bits >> 9) & 0x7,
        ((bits | (1u64 << k)) >> 52) & 0x7FF == (bits >> 52) & 0x7FF,
        frame_of(bits | (1u64 << k)) == frame_of(bits),
{
}

/// Clearing a flag bit changes that bit and nothing else.
proof fn lemma_clear_flag(bits: u64, k: u64)
    by (bit_vector)
    requires
        k < 9 || k == 63,
    ensures
        !bit_of(bits & !(1u64 << k), k),
        forall|j: u64| j < 64 && j != k ==> bit_of(bits & !(1u64 << k), j) == bit_of(bits, j),
        ((bits & !(1u64 << k)) >> 9) & 0x7 == (bits >> 9) & 0x7,
        ((bits & !(1u64 << k)) >> 52) & 0x7FF == (bits >> 52) & 0x7FF,
        frame_of(bits & !(1u64 << k)) == frame_of(bits),
{
}

/// Replacing the frame number changes the frame number and nothing else.
proof fn lemma_set_frame(bits: u64, frame: u64)
    by (bit_vector)
    requires
        frame < 0x100_0000_0000,
    ensures
        frame_of(with_frame(bits, frame)) == frame,
        forall|j: u64| (j < 12 || j == 63) ==> bit_of(with_frame(bits, frame), j) == bit_of(bits, j),
        (with_frame(bits, frame) >> 9) & 0x7 == (bits >> 9) & 0x7,
        (with_frame(bits, frame) >> 52) & 0x7FF == (bits >> 52) & 0x7FF,
{
}

/// All fields of the zero entry are clear.
proof fn lemma_zero_fields()
    by (bit_vector)
    ensures
        forall|j: u64| j < 64 ==> !bit_of(0, j),
        (0u64 >> 9) & 0x7 == 0,
        (0u64 >> 52) & 0x7FF == 0,
        frame_of(0) == 0,
{
}

/// A frame number fits in 40 bits.
proof fn lemma_frame_is_small(bits: u64)
    by (bit_vector)
    ensures
        frame_of(bits) < 0x100_0000_0000,
{
}

/// Reads bit `k`.
fn get_bit(bits: u64, k: u64) -> (r: bool)
    requires
        k < 64,
    ensures
        r == bit_of(bits, k),
{
    (bits >> k) & 1 == 1
}

/// Writes the flag bit `k`.
fn set_bit(bits: u64, k: u64, v: bool) -> (r: u64)
    requires
        k < 9 || k == 63,
    ensures
        r == with_bit(bits, k, v),
        bit_of(r, k) == v,
        forall|j: u64| j < 64 && j != k ==> bit_of(r, j) == bit_of(bits, j),
        (r >> 9) & 0x7 == (bits >> 9) & 0x7,
        (r >> 52) & 0x7FF == (bits >> 52) & 0x7FF,
        frame_of(r) == frame_of(bits),
{
    if v {
        proof {
            lemma_set_flag(bits, k);
        }
        bits | (1u64 << k)
    } else {
        proof {
            lemma_clear_flag(bits, k);
        }
        bits & !(1u64 << k)
    }
}

/// One 64-bit entry of a page table. Bits 0 to 8 and 63 are flags, bits 12
/// to 51 hold a frame number, the rest is left to the operating system.
/// `accessed` and `dirty` belong to the processor: there are no setters for
/// them.
#[derive(Debug, Clone, Copy, PartialEq, Eq, Structural)]
pub struct PageTableEntry {
    bits: u64,
}

impl View for PageTableEntry {
    type V = EntryView;

    open spec fn view(&self) -> EntryView {
        fields_of(self.raw())
    }
}

impl Default for PageTableEntry {
    fn default() -> (r: Self)
        ensures
            r.raw() == 0,
    {
        PageTableEntry { bits: 0 }
    }
}

impl PageTableEntry {
    /// The 64 bits of the entry.
    pub closed spec fn raw(self) -> u64 {
        self.bits
    }

    /// The entry with all bits clear.
    pub fn new() -> (r: Self)
        ensures
            r.raw() == 0,
            r@ == (EntryView {
                present: false,
                writable: false,
                user: false,
                wt: false,
                no_cache: false,
                accessed: false,
                dirty: false,
                huge: false,
                global: false,
                available_to_os: 0,
                address: 0,
                available_to_os2: 0,
                no_execute: false,
            }),
    {
        proof {
            lemma_zero_fields();
        }
        PageTableEntry { bits: 0 }
    }

    /// The entry that the given 64 bits spell.
    pub fn from_bits(bits: u64) -> (r: Self)
        ensures
            r.raw() == bits,
    {
        PageTableEntry { bits }
    }

    /// The 64 bits of the entry.
    pub fn into_bits(self) -> (bits: u64)
        ensures
            bits == self.raw(),
    {
        self.bits
    }

    /// Whether the entry is in use.
    pub fn present(&self) -> (r: bool)
        ensures
            r == self@.present,
    {
        get_bit(self.bits, 0)
    }

    /// Whether writes are allowed through the entry.
    pub fn writable(&self) -> (r: bool)
        ensures
            r == self@.writable,
    {
        get_bit(self.bits, 1)
    }

    /// Whether user mode may use the entry.
    pub fn user(&self) -> (r: bool)
        ensures
            r == self@.user,
    {
        get_bit(self.bits, 2)
    }

    /// Whether writes go through the cache.
    pub fn wt(&self) -> (r: bool)
        ensures
            r == self@.wt,
    {
        get_bit(self.bits, 3)
    }

    /// Whether the cache is bypassed.
    pub fn no_cache(&self) -> (r: bool)
        ensures
            r == self@.no_cache,
    {
        get_bit(self.bits, 4)
    }

    /// Whether the processor has used the entry.
    pub fn accessed(&self) -> (r: bool)
        ensures
            r == self@.accessed,
    {
        get_bit(self.bits, 5)
    }

    /// Whether the processor has written through the entry.
    pub fn dirty(&self) -> (r: bool)
        ensures
            r == self@.dirty,
    {
        get_bit(self.bits, 6)
    }

    /// Whether the entry is a leaf that maps a huge page.
    pub fn huge(&self) -> (r: bool)
        ensures
            r == self@.huge,
    {
        get_bit(self.bits, 7)
    }

    /// Whether the mapping survives a change of address space.
    pub fn global(&self) -> (r: bool)
        ensures
            r == self@.global,
    {
        get_bit(self.bits, 8)
    }

    /// Whether code must not run from the mapped memory.
    pub fn no_execute(&self) -> (r: bool)
        ensures
            r == self@.no_execute,
    {
        get_bit(self.bits, 63)
    }

    /// The three bits below the frame number that are left to the
    /// operating system.
    pub fn available_to_os(&self) -> (r: u8)
        ensures
            r == self@.available_to_os,
    {
        let bits = self.bits;
        let field = (bits >> 9) & 0x7;
        assert(field < 8) by (bit_vector)
            requires
                field == (bits >> 9) & 0x7,
        ;
        field as u8
    }

    /// The eleven bits above the frame number that are left to the
    /// operating system.
    pub fn available_to_os2(&self) -> (r: u16)
        ensures
            r == self@.available_to_os2,
    {
        let bits = self.bits;
        let field = (bits >> 52) & 0x7FF;
        assert(field < 0x800) by (bit_vector)
            requires
                field == (bits >> 52) & 0x7FF,
        ;
        field as u16
    }

    /// The frame number: the physical address divided by the page size.
    pub fn address(&self) -> (r: u64)
        ensures
            r == self@.address,
            r < 0x100_0000_0000,
    {
        proof {
            lemma_frame_is_small(self.bits);
        }
        (self.bits >> 12) & 0xFF_FFFF_FFFF
    }

    /// Sets whether the entry is in use.
    pub fn set_present(&mut self, v: bool)
        ensures
            final(self)@ == (EntryView { present: v, ..old(self)@ }),
    {
        self.bits = set_bit(self.bits, 0, v);
    }

    /// Sets whether writes are allowed through the entry.
    pub fn set_writable(&mut self, v: bool)
        ensures
            final(self)@ == (EntryView { writable: v, ..old(self)@ }),
    {
        self.bits = set_bit(self.bits, 1, v);
    }

    /// Sets whether user mode may use the entry.
    pub fn set_user(&mut self, v: bool)
        ensures
            final(self)@ == (EntryView { user: v, ..old(self)@ }),
    {
        self.bits = set_bit(self.bits, 2, v);
    }

    /// Sets whether writes go through the cache.
    pub fn set_wt(&mut self, v: bool)
        ensures
            final(self)@ == (EntryView { wt: v, ..old(self)@ }),
    {
        self.bits = set_bit(self.bits, 3, v);
    }

    /// Sets whether the cache is bypassed.
    pub fn set_no_cache(&mut self, v: bool)
        ensures
            final(self)@ == (EntryView { no_cache: v, ..old(self)@ }),
    {
        self.bits = set_bit(self.bits, 4, v);
    }

    /// Sets whether the entry is a leaf that maps a huge page.
    pub fn set_huge(&mut self, v: bool)
        ensures
            final(self)@ == (EntryView { huge: v, ..old(self)@ }),
    {
        self.bits = set_bit(self.bits, 7, v);
    }

    /// Sets whether the mapping survives a change of address space.
    pub fn set_global(&mut self, v: bool)
        ensures
            final(self)@ == (EntryView { global: v, ..old(self)@ }),
    {
        self.bits = set_bit(self.bits, 8, v);
    }

    /// Sets whether code must not run from the mapped memory.
    pub fn set_no_execute(&mut self, v: bool)
        ensures
            final(self)@ == (EntryView { no_execute: v, ..old(self)@ }),
    {
        self.bits = set_bit(self.bits, 63, v);
    }

    /// Replaces the frame number, which must fit in 40 bits.
    pub fn set_address(&mut self, frame: u64)
        requires
            frame < 0x100_0000_0000,
        ensures
            final(self)@ == (EntryView { address: frame, ..old(self)@ }),
    {
        proof {
            lemma_set_frame(self.bits, frame);
        }
        self.bits = (self.bits & !0x000F_FFFF_FFFF_F000u64) | (frame << 12);
    }

    /// The entry with the flag set as given: whether the entry is in use.
    pub fn with_present(self, v: bool) -> (r: Self)
        ensures
            r@ == (EntryView { present: v, ..self@ }),
    {
        let mut e = self;
        e.set_present(v);
        e
    }

    /// The entry with the flag set as given: whether writes are allowed through the entry.
    pub fn with_writable(self, v: bool) -> (r: Self)
        ensures
            r@ == (EntryView { writable: v, ..self@ }),
    {
        let mut e = self;
        e.set_writable(v);
        e
    }

    /// The entry with the flag set as given: whether user mode may use the entry.
    pub fn with_user(self, v: bool) -> (r: Self)
        ensures
            r@ == (EntryView { user: v, ..self@ }),
    {
        let mut e = self;
        e.set_user(v);
        e
    }

    /// The entry with the flag set as given: whether the entry is a leaf that maps a huge page.
    pub fn with_huge(self, v: bool) -> (r: Self)
        ensures
            r@ == (EntryView { huge: v, ..self@ }),
    {
        let mut e = self;
        e.set_huge(v);
        e
    }

    /// The entry with the frame number replaced, which must fit in 40 bits.
    pub fn with_address(self, frame: u64) -> (r: Self)
        requires
            frame < 0x100_0000_0000,
        ensures
            r@ == (EntryView { address: frame, ..self@ }),
    {
        let mut e = self;
        e.set_address(frame);
        e
    }
}

/// The bits `start..end` of `value`, as the `bit` crate computes them.
pub open spec fn bit_range_of(value: u64, start: usize, end: usize) -> u64 {
    (value << ((64 - end) as u64)) >> ((64 - end + start) as u64)
}

/// Calls `bit::BitIndex::bit_range` on a `u64`. The crate shifts the value
/// left until bit `end` falls off, then right until bit `start` is the
/// lowest; it panics unless `start < end <= 64`.
#[verifier::external_body]
fn bit_range(value: u64, start: usize, end: usize) -> (r: u64)
    requires
        start < end <= 64,
    ensures
        r == bit_range_of(value, start, end),
{
    bit::BitIndex::bit_range(&value, start..end)
}

/// Index into the top-level table for a virtual address.
pub open spec fn index4(va: u64) -> int {
    ((va / 0x80_0000_0000) % 512) as int
}

/// Index into the third-level table for a virtual address.
pub open spec fn index3(va: u64) -> int {
    ((va / 0x4000_0000) % 512) as int
}

/// Index into the second-level table for a virtual address.
pub open spec fn index2(va: u64) -> int {
    ((va / 0x20_0000) % 512) as int
}

/// Index into the lowest table for a virtual address.
pub open spec fn index1(va: u64) -> int {
    ((va / 0x1000) % 512) as int
}

/// The bit ranges of an address are its table indices.
proof fn lemma_offsets(va: u64)
    by (bit_vector)
    ensures
        (va << 16u64) >> 55u64 == (va / 0x80_0000_0000) % 512,
        (va << 25u64) >> 55u64 == (va / 0x4000_0000) % 512,
        (va << 34u64) >> 55u64 == (va / 0x20_0000) % 512,
        (va << 43u64) >> 55u64 == (va / 0x1000) % 512,
{
}

/// The four table indices of a virtual address.
#[derive(Debug, Clone, Copy)]
pub struct PageTableOffsets {
    pub pml4: usize,
    pub pml3: usize,
    pub pml2: usize,
    pub pml1: usize,
}

impl PageTableOffsets {
    /// Splits a virtual address into its table indices.
    pub fn new(virtual_address: u64) -> (r: Self)
        ensures
            r.pml4 == index4(virtual_address),
            r.pml3 == index3(virtual_address),
            r.pml2 == index2(virtual_address),
            r.pml1 == index1(virtual_address),
            r.pml4 < 512 && r.pml3 < 512 && r.pml2 < 512 && r.pml1 < 512,
    {
        proof {
            lemma_offsets(virtual_address);
        }
        Self {
            pml4: bit_range(virtual_address, 39, 48) as usize,
            pml3: bit_range(virtual_address, 30, 39) as usize,
            pml2: bit_range(virtual_address, 21, 30) as usize,
            pml1: bit_range(virtual_address, 12, 21) as usize,
        }
    }
}

/// A page table: 512 entries, one page.
#[derive(Debug, Clone, Copy)]
pub struct PageTable {
    pub entries: [PageTableEntry; 512],
}

/// The entry with all fields clear.
pub open spec fn zero_entry() -> EntryView {
    EntryView {
        present: false,
        writable: false,
        user: false,
        wt: false,
        no_cache: false,
        accessed: false,
        dirty: false,
        huge: false,
        global: false,
        available_to_os: 0,
        address: 0,
        available_to_os2: 0,
        no_execute: false,
    }
}

/// The table with all entries clear.
pub open spec fn zero_table() -> Seq<EntryView> {
    Seq::new(512, |i: int| zero_entry())
}

impl View for PageTable {
    type V = Seq<EntryView>;

    open spec fn view(&self) -> Seq<EntryView> {
        Seq::new(512, |i: int| self.entries@[i]@)
    }
}

impl Default for PageTable {
    fn default() -> (r: Self)
        ensures
            r@ == zero_table(),
    {
        let r = Self { entries: [PageTableEntry::new();512] };
        assert(r@ =~= zero_table());
        r
    }
}

/// Why the builder stopped.
#[derive(Debug, Clone, Copy, PartialEq, Eq, Structural)]
pub enum PagingError {
    /// A table was needed and no free frame was left.
    OutOfFrames,
    /// An entry points to a table that the builder was not given.
    UnknownTable(u64),
}

/// A physical address that can hold a table: page-aligned and within the
/// 52 bits that an entry can address.
pub open spec fn frame_ok(frame: u64) -> bool {
    frame % 0x1000 == 0 && frame < 0x10_0000_0000_0000
}

/// The page-table memory as the builder sees it: the tables it was given or
/// has made, by physical address, and the frames it may still use.
pub ghost struct TablesView {
    pub tables: Map<u64, Seq<EntryView>>,
    pub free: Seq<u64>,
}

impl TablesView {
    /// Every table has 512 entries, and the free frames are distinct,
    /// usable and hold no table yet.
    pub open spec fn wf(self) -> bool {
        &&& forall|a: u64| self.tables.contains_key(a) ==> (#[trigger] self.tables[a]).len() == 512
        &&& self.free.no_duplicates()
        &&& forall|i: int|
            0 <= i < self.free.len() ==> frame_ok(#[trigger] self.free[i])
                && !self.tables.contains_key(self.free[i])
    }
}

/// The entry after a fresh table at `frame` was installed in it with the
/// given flags. What the processor owns stays as it was.
pub open spec fn installed(e: EntryView, frame: u64, flags: PageTableEntryFlags) -> EntryView {
    EntryView {
        present: flags.present,
        writable: flags.writable,
        user: flags.user,
        wt: flags.wt,
        no_cache: flags.no_cache,
        huge: flags.huge,
        global: flags.global,
        no_execute: flags.no_execute,
        address: frame / 0x1000,
        ..e
    }
}

/// The leaf that maps a huge page at physical address `phys`.
pub open spec fn huge_leaf(phys: u64) -> EntryView {
    EntryView { present: true, writable: true, huge: true, address: phys / 0x1000, ..zero_entry() }
}

/// Physical address that an entry points to.
pub open spec fn child_of(e: EntryView) -> u64 {
    (e.address * 0x1000) as u64
}

/// Walk-or-create: the child of entry `index` of the table at `table`. A
/// present entry is followed and nothing changes. An absent one gets a
/// zeroed table in the last free frame.
pub open spec fn child_step(
    s: TablesView,
    table: u64,
    index: int,
    flags: PageTableEntryFlags,
) -> (TablesView, Result<u64, PagingError>) {
    if !s.tables.contains_key(table) {
        (s, Err(PagingError::UnknownTable(table)))
    } else if s.tables[table][index].present {
        (s, Ok(child_of(s.tables[table][index])))
    } else if s.free.len() == 0 {
        (s, Err(PagingError::OutOfFrames))
    } else {
        let frame = s.free.last();
        let entry = installed(s.tables[table][index], frame, flags);
        (
            TablesView {
                tables: s.tables.insert(table, s.tables[table].update(index, entry)).insert(
                    frame,
                    zero_table(),
                ),
                free: s.free.drop_last(),
            },
            Ok(child_of(entry)),
        )
    }
}

spec fn has_addr(addrs: Seq<u64>, a: u64) -> bool {
    exists|i: int| 0 <= i < addrs.len() && addrs[i] == a
}

spec fn slot_of(addrs: Seq<u64>, a: u64) -> int {
    choose|i: int| 0 <= i < addrs.len() && addrs[i] == a
}

spec fn tables_map(addrs: Seq<u64>, tables: Seq<PageTable>) -> Map<u64, Seq<EntryView>> {
    Map::new(|a: u64| has_addr(addrs, a), |a: u64| tables[slot_of(addrs, a)]@)
}

/// Replacing the table in a slot replaces what its address maps to.
proof fn lemma_map_update(addrs: Seq<u64>, tables: Seq<PageTable>, t: int, table: PageTable)
    requires
        addrs.no_duplicates(),
        addrs.len() == tables.len(),
        0 <= t < addrs.len(),
    ensures
        tables_map(addrs, tables.update(t, table)) == tables_map(addrs, tables).insert(
            addrs[t],
            table@,
        ),
{
    assert forall|a: u64| has_addr(addrs, a) implies #[trigger] tables.update(t, table)[slot_of(
        addrs,
        a,
    )]@ == (if a == addrs[t] {
        table@
    } else {
        tables[slot_of(addrs, a)]@
    }) by {
        let i = slot_of(addrs, a);
        assert(addrs[i] == a);
    }
    assert(has_addr(addrs, addrs[t]));
    assert(tables_map(addrs, tables.update(t, table)) =~= tables_map(addrs, tables).insert(
        addrs[t],
        table@,
    ));
}

/// Adding a table at a new address adds what that address maps to.
proof fn lemma_map_push(addrs: Seq<u64>, tables: Seq<PageTable>, addr: u64, table: PageTable)
    requires
        addrs.no_duplicates(),
        addrs.len() == tables.len(),
        !has_addr(addrs, addr),
    ensures
        addrs.push(addr).no_duplicates(),
        tables_map(addrs.push(addr), tables.push(table)) == tables_map(addrs, tables).insert(
            addr,
            table@,
        ),
{
    let addrs2 = addrs.push(addr);
    let tables2 = tables.push(table);
    let n = addrs.len() as int;
    assert forall|i: int, j: int|
        0 <= i < addrs2.len() && 0 <= j < addrs2.len() && i != j implies addrs2[i]
        != addrs2[j] by {
        if i < n && j == n {
            assert(addrs[i] == addrs2[i]);
        }
        if j < n && i == n {
            assert(addrs[j] == addrs2[j]);
        }
    }
    assert forall|a: u64| has_addr(addrs2, a) <==> (has_addr(addrs, a) || a == addr) by {
        if has_addr(addrs, a) {
            let i = slot_of(addrs, a);
            assert(addrs2[i] == a);
        }
        if a == addr {
            assert(addrs2[n] == a);
        }
    }
    assert forall|a: u64| has_addr(addrs2, a) implies #[trigger] tables2[slot_of(addrs2, a)]@ == (
    if a == addr {
        table@
    } else {
        tables[slot_of(addrs, a)]@
    }) by {
        let i = slot_of(addrs2, a);
        assert(addrs2[i] == a);
        if a != addr {
            let k = slot_of(addrs, a);
            assert(addrs2[k] == a);
        }
    }
    assert(tables_map(addrs2, tables2) =~= tables_map(addrs, tables).insert(addr, table@));
}

/// The tables that the builder works on, each with the physical address it
/// lives at, and the frames it may use for new tables.
#[derive(Debug)]
pub struct PageTables {
    addrs: Vec<u64>,
    tables: Vec<PageTable>,
    free: Vec<u64>,
}

impl View for PageTables {
    type V = TablesView;

    closed spec fn view(&self) -> TablesView {
        TablesView {
            tables: tables_map(self.addrs@, self.tables@),
            free: self.free@,
        }
    }
}

impl PageTables {
    /// The invariant of the type: no address holds two tables, and the
    /// model is well formed.
    pub closed spec fn wf(&self) -> bool {
        &&& self.addrs@.len() == self.tables@.len()
        &&& self.addrs@.no_duplicates()
        &&& self@.wf()
    }

    /// A well-formed value has a well-formed model.
    pub proof fn lemma_wf(&self)
        requires
            self.wf(),
        ensures
            self@.wf(),
    {
    }

    /// An address among the tables is found in its own slot.
    proof fn lemma_slot(&self, i: int)
        requires
            self.addrs@.no_duplicates(),
            self.addrs@.len() == self.tables@.len(),
            0 <= i < self.addrs@.len(),
        ensures
            has_addr(self.addrs@, self.addrs@[i]),
            slot_of(self.addrs@, self.addrs@[i]) == i,
            self@.tables.contains_key(self.addrs@[i]),
            self@.tables[self.addrs@[i]] == self.tables@[i]@,
    {
    }

    /// No tables and no free frames.
    pub fn new() -> (r: Self)
        ensures
            r.wf(),
            r@.tables == Map::<u64, Seq<EntryView>>::empty(),
            r@.free == Seq::<u64>::empty(),
    {
        let r = PageTables { addrs: Vec::new(), tables: Vec::new(), free: Vec::new() };
        assert(r@.tables =~= Map::<u64, Seq<EntryView>>::empty());
        r
    }

    /// The slot of the table at `addr`, if there is one.
    fn find(&self, addr: u64) -> (r: Option<usize>)
        requires
            self.wf(),
        ensures
            match r {
                Some(i) => i < self.addrs@.len() && self.addrs@[i as int] == addr
                    && self@.tables.contains_key(addr) && self@.tables[addr]
                    == self.tables@[i as int]@,
                None => !self@.tables.contains_key(addr),
            },
    {
        let mut i: usize = 0;
        while i < self.addrs.len()
            invariant
                i <= self.addrs@.len(),
                self.wf(),
                forall|k: int| 0 <= k < i ==> self.addrs@[k] != addr,
            decreases self.addrs@.len() - i,
        {
            if self.addrs[i] == addr {
                proof {
                    self.lemma_slot(i as int);
                }
                return Some(i);
            }
            i += 1;
        }
        None
    }

    /// Whether `addr` is among the free frames.
    fn find_free(&self, addr: u64) -> (r: bool)
        ensures
            r == self@.free.contains(addr),
    {
        let mut i: usize = 0;
        while i < self.free.len()
            invariant
                i <= self.free@.len(),
                forall|k: int| 0 <= k < i ==> self.free@[k] != addr,
            decreases self.free@.len() - i,
        {
            if self.free[i] == addr {
                return true;
            }
            i += 1;
        }
        false
    }

    /// Whether a table lives at `addr`.
    pub fn contains(&self, addr: u64) -> (r: bool)
        requires
            self.wf(),
        ensures
            r == self@.tables.contains_key(addr),
    {
        self.find(addr).is_some()
    }

    /// The table at `addr`, if there is one.
    pub fn table(&self, addr: u64) -> (r: Option<PageTable>)
        requires
            self.wf(),
        ensures
            r.is_some() == self@.tables.contains_key(addr),
            r matches Some(t) ==> t@ == self@.tables[addr],
    {
        match self.find(addr) {
            Some(i) => Some(self.tables[i]),
            None => None,
        }
    }

    /// Number of frames left for new tables.
    pub fn free_frames(&self) -> (n: usize)
        ensures
            n == self@.free.len(),
    {
        self.free.len()
    }

    /// Number of tables.
    pub fn len(&self) -> (n: usize)
        requires
            self.wf(),
        ensures
            n == self@.tables.dom().len(),
            self@.tables.dom().finite(),
    {
        proof {
            self.lemma_dom();
        }
        self.addrs.len()
    }

    /// The addresses are the keys of the model.
    proof fn lemma_dom(&self)
        requires
            self.addrs@.no_duplicates(),
        ensures
            self@.tables.dom() =~= self.addrs@.to_set(),
            self@.tables.dom().finite(),
            self@.tables.dom().len() == self.addrs@.len(),
    {
        assert(self@.tables.dom() =~= self.addrs@.to_set()) by {
            assert forall|a: u64| self@.tables.dom().contains(a) <==> self.addrs@.to_set().contains(
                a,
            ) by {
                if has_addr(self.addrs@, a) {
                    let i = slot_of(self.addrs@, a);
                    assert(self.addrs@[i] == a);
                    assert(self.addrs@.contains(a));
                }
                if self.addrs@.contains(a) {
                    let i = choose|i: int| 0 <= i < self.addrs@.len() && self.addrs@[i] == a;
                    assert(has_addr(self.addrs@, a));
                }
            }
        }
        self.addrs@.unique_seq_to_set();
    }

    /// The physical addresses of the tables, in the order in which the
    /// tables came. Tables are only ever added at the end.
    pub closed spec fn addresses(&self) -> Seq<u64> {
        self.addrs@
    }

    /// The addresses list every table once.
    pub proof fn lemma_addresses(&self)
        requires
            self.wf(),
        ensures
            self.addresses().no_duplicates(),
            self.addresses().to_set() == self@.tables.dom(),
            self.addresses().len() == self@.tables.dom().len(),
    {
        self.lemma_dom();
    }

    /// The physical address of the `i`-th table.
    pub fn address_at(&self, i: usize) -> (addr: u64)
        requires
            self.wf(),
            i < self@.tables.dom().len(),
        ensures
            addr == self.addresses()[i as int],
            self@.tables.contains_key(addr),
    {
        proof {
            self.lemma_dom();
            self.lemma_slot(i as int);
        }
        self.addrs[i]
    }

    /// Hands the builder a table that lives at `addr`. Refused when the
    /// address already holds a table or is among the free frames.
    pub fn insert_table(&mut self, addr: u64, table: PageTable) -> (ok: bool)
        requires
            old(self).wf(),
        ensures
            final(self).wf(),
            ok == (!old(self)@.tables.contains_key(addr) && !old(self)@.free.contains(addr)),
            ok ==> final(self)@ == (TablesView {
                tables: old(self)@.tables.insert(addr, table@),
                free: old(self)@.free,
            }),
            ok ==> final(self).addresses() == old(self).addresses().push(addr),
            !ok ==> final(self)@ == old(self)@ && final(self).addresses() == old(self).addresses(),
    {
        if self.find(addr).is_some() || self.find_free(addr) {
            return false;
        }
        self.addrs.push(addr);
        self.tables.push(table);
        proof {
            let n = old(self).addrs@.len() as int;
            assert(self.addrs@.no_duplicates()) by {
                assert forall|i: int, j: int|
                    0 <= i < self.addrs@.len() && 0 <= j < self.addrs@.len() && i != j implies self.addrs@[i]
                    != self.addrs@[j] by {
                    if i < n {
                        old(self).lemma_slot(i);
                    }
                    if j < n {
                        old(self).lemma_slot(j);
                    }
                }
            }
            assert forall|a: u64| has_addr(self.addrs@, a) <==> (has_addr(old(self).addrs@, a) || a == addr) by {
                if has_addr(old(self).addrs@, a) {
                    let i = slot_of(old(self).addrs@, a);
                    assert(self.addrs@[i] == a);
                }
                if a == addr {
                    assert(self.addrs@[n] == a);
                }
            }
            assert forall|a: u64| has_addr(self.addrs@, a) implies self.tables@[slot_of(self.addrs@, a)]@ == (if a
                == addr {
                table@
            } else {
                old(self).tables@[slot_of(old(self).addrs@, a)]@
            }) by {
                let i = slot_of(self.addrs@, a);
                self.lemma_slot(i);
                if i < n {
                    old(self).lemma_slot(i);
                }
            }
            assert(self@.tables =~= old(self)@.tables.insert(addr, table@));
            assert(table@.len() == 512);
        }
        true
    }

    /// Gives the builder a zeroed frame for a table it may have to make.
    /// Refused when the frame cannot hold a table or is already known.
    pub fn add_frame(&mut self, frame: u64) -> (ok: bool)
        requires
            old(self).wf(),
        ensures
            final(self).wf(),
            ok == (frame_ok(frame) && !old(self)@.tables.contains_key(frame) && !old(
                self,
            )@.free.contains(frame)),
            ok ==> final(self)@ == (TablesView {
                tables: old(self)@.tables,
                free: old(self)@.free.push(frame),
            }),
            !ok ==> final(self)@ == old(self)@,
            final(self).addresses() == old(self).addresses(),
    {
        if frame % 0x1000 != 0 || frame >= 0x10_0000_0000_0000 {
            return false;
        }
        if self.find(frame).is_some() || self.find_free(frame) {
            return false;
        }
        self.free.push(frame);
        proof {
            assert(self@.tables =~= old(self)@.tables);
        }
        true
    }
}

/// The flags of the tables that the builder makes: present, writable and
/// open to user mode.
pub open spec fn table_flags() -> PageTableEntryFlags {
    PageTableEntryFlags {
        present: true,
        writable: true,
        user: true,
        wt: false,
        no_cache: false,
        huge: false,
        global: false,
        no_execute: false,
    }
}

/// Maps the huge page at `va` to `pa`: two walk-or-create steps from the
/// root, then the leaf written into the second-level table. The lowest
/// level is never walked.
pub open spec fn map_page(s: TablesView, root: u64, va: u64, pa: u64) -> (
    TablesView,
    Result<(), PagingError>,
) {
    let first = child_step(s, root, index4(va), table_flags());
    match first.1 {
        Err(e) => (first.0, Err(e)),
        Ok(pml3) => {
            let second = child_step(first.0, pml3, index3(va), table_flags());
            match second.1 {
                Err(e) => (second.0, Err(e)),
                Ok(pml2) => if !second.0.tables.contains_key(pml2) {
                    (second.0, Err(PagingError::UnknownTable(pml2)))
                } else {
                    (
                        TablesView {
                            tables: second.0.tables.insert(
                                pml2,
                                second.0.tables[pml2].update(index2(va), huge_leaf(pa)),
                            ),
                            free: second.0.free,
                        },
                        Ok(()),
                    )
                },
            }
        },
    }
}

/// Maps `count` huge pages in a row, lowest first, and stops at the first
/// that fails.
pub open spec fn map_pages(s: TablesView, root: u64, virt: u64, phys: u64, count: nat) -> (
    TablesView,
    Result<(), PagingError>,
)
    decreases count,
{
    if count == 0 {
        (s, Ok(()))
    } else {
        let before = map_pages(s, root, virt, phys, (count - 1) as nat);
        match before.1 {
            Err(e) => before,
            Ok(_) => map_page(
                before.0,
                root,
                (virt + 0x20_0000 * (count - 1)) as u64,
                (phys + 0x20_0000 * (count - 1)) as u64,
            ),
        }
    }
}

/// Number of huge pages in the direct map: the first 4 GiB.
pub const DIRECT_MAP_PAGES: u64 = 2048;

/// Number of huge pages in the kernel's window: 2 GiB.
pub const KERNEL_WINDOW_PAGES: u64 = 1024;

/// Maps the higher half: the direct map of physical memory, then the
/// kernel's window, both from physical address 0.
pub open spec fn map_higher_half_spec(s: TablesView, root: u64) -> (
    TablesView,
    Result<(), PagingError>,
) {
    let direct = map_pages(s, root, PHYS_VIRT_OFFSET, 0, DIRECT_MAP_PAGES as nat);
    match direct.1 {
        Err(e) => direct,
        Ok(_) => map_pages(direct.0, root, KERNEL_VIRT_OFFSET, 0, KERNEL_WINDOW_PAGES as nat),
    }
}

/// Walk-or-create keeps the tables well formed.
pub proof fn lemma_child_step_wf(s: TablesView, table: u64, index: int, flags: PageTableEntryFlags)
    requires
        s.wf(),
        0 <= index < 512,
    ensures
        child_step(s, table, index, flags).0.wf(),
{
    let next = child_step(s, table, index, flags).0;
    if s.tables.contains_key(table) && !s.tables[table][index].present && s.free.len() > 0 {
        let frame = s.free.last();
        assert(frame == s.free[s.free.len() - 1]);
        assert forall|i: int| 0 <= i < next.free.len() implies frame_ok(#[trigger] next.free[i])
            && !next.tables.contains_key(next.free[i]) by {
            assert(next.free[i] == s.free[i]);
        }
        assert(next.free.no_duplicates()) by {
            assert forall|i: int, j: int|
                0 <= i < next.free.len() && 0 <= j < next.free.len() && i != j implies next.free[i]
                != next.free[j] by {
                assert(next.free[i] == s.free[i]);
                assert(next.free[j] == s.free[j]);
            }
        }
    }
}

/// A prefix of a prefix is a prefix.
proof fn lemma_prefix_goes_on(a: Seq<u64>, b: Seq<u64>, c: Seq<u64>)
    requires
        a.is_prefix_of(b),
        b.is_prefix_of(c),
    ensures
        a.is_prefix_of(c),
{
    assert(a =~= c.subrange(0, a.len() as int)) by {
        assert(b =~= c.subrange(0, b.len() as int));
        assert(a =~= b.subrange(0, a.len() as int));
    }
}

/// An error among the first `n` pages is the error of the whole run.
proof fn lemma_map_pages_error_stays(
    s: TablesView,
    root: u64,
    virt: u64,
    phys: u64,
    n: nat,
    count: nat,
)
    requires
        n <= count,
        map_pages(s, root, virt, phys, n).1 is Err,
    ensures
        map_pages(s, root, virt, phys, count) == map_pages(s, root, virt, phys, n),
    decreases count,
{
    if n < count {
        lemma_map_pages_error_stays(s, root, virt, phys, n, (count - 1) as nat);
    }
}

/// Walk-or-create on entry `offset` of the table at `previous_level`:
/// returns the physical address of the child table, making one in a
/// free frame where the entry is absent.
pub fn get_or_alloc_entry(
    tables: &mut PageTables,
    previous_level: u64,
    offset: usize,
    flags: PageTableEntryFlags,
) -> (r: Result<u64, PagingError>)
    requires
        old(tables).wf(),
        offset < 512,
    ensures
        final(tables).wf(),
        (final(tables)@, r) == child_step(old(tables)@, previous_level, offset as int, flags),
        old(tables).addresses().is_prefix_of(final(tables).addresses()),
{
    proof {
        lemma_child_step_wf(tables@, previous_level, offset as int, flags);
    }
    let t = match tables.find(previous_level) {
        Some(t) => t,
        None => {
            return Err(PagingError::UnknownTable(previous_level));
        },
    };
    let mut table = tables.tables[t];
    let mut entry = table.entries[offset];
    assert(entry@ == tables@.tables[previous_level][offset as int]);
    if entry.present() {
        return Ok(entry.address() * 0x1000);
    }
    let frame = match tables.free.pop() {
        Some(frame) => frame,
        None => {
            assert(tables@.tables == old(tables)@.tables);
            return Err(PagingError::OutOfFrames);
        },
    };
    assert(frame == old(tables)@.free.last());
    assert(old(tables)@.free[old(tables)@.free.len() - 1] == frame);
    assert(frame_ok(frame) && !old(tables)@.tables.contains_key(frame));
    entry.set_address(frame / 0x1000);
    entry.set_present(flags.present);
    entry.set_writable(flags.writable);
    entry.set_user(flags.user);
    entry.set_wt(flags.wt);
    entry.set_no_cache(flags.no_cache);
    entry.set_huge(flags.huge);
    entry.set_global(flags.global);
    entry.set_no_execute(flags.no_execute);
    assert(entry@ == installed(old(tables)@.tables[previous_level][offset as int], frame, flags));
    table.entries[offset] = entry;
    assert(table@ =~= old(tables)@.tables[previous_level].update(offset as int, entry@));
    proof {
        lemma_map_update(tables.addrs@, tables.tables@, t as int, table);
    }
    tables.tables[t] = table;
    let fresh = PageTable::default();
    proof {
        lemma_map_push(tables.addrs@, tables.tables@, frame, fresh);
    }
    tables.addrs.push(frame);
    tables.tables.push(fresh);
    assert(tables.free@ =~= old(tables)@.free.drop_last());
    Ok(entry.address() * 0x1000)
}

/// Mapping a page keeps the tables well formed.
pub proof fn lemma_map_page_wf(s: TablesView, root: u64, va: u64, pa: u64)
    requires
        s.wf(),
    ensures
        map_page(s, root, va, pa).0.wf(),
{
    let first = child_step(s, root, index4(va), table_flags());
    lemma_child_step_wf(s, root, index4(va), table_flags());
    if let Ok(pml3) = first.1 {
        lemma_child_step_wf(first.0, pml3, index3(va), table_flags());
    }
}

/// Mapping a run of pages keeps the tables well formed.
pub proof fn lemma_map_pages_wf(s: TablesView, root: u64, virt: u64, phys: u64, count: nat)
    requires
        s.wf(),
    ensures
        map_pages(s, root, virt, phys, count).0.wf(),
    decreases count,
{
    if count > 0 {
        lemma_map_pages_wf(s, root, virt, phys, (count - 1) as nat);
        let before = map_pages(s, root, virt, phys, (count - 1) as nat);
        if before.1 is Ok {
            lemma_map_page_wf(
                before.0,
                root,
                (virt + 0x20_0000 * (count - 1)) as u64,
                (phys + 0x20_0000 * (count - 1)) as u64,
            );
        }
    }
}

/// Maps the huge page at `virt` to `phys` under the root at `pml4`.
pub fn map_huge_page(tables: &mut PageTables, pml4: u64, virt: u64, phys: u64) -> (r: Result<
    (),
    PagingError,
>)
    requires
        old(tables).wf(),
        phys < 0x10_0000_0000_0000,
    ensures
        final(tables).wf(),
        (final(tables)@, r) == map_page(old(tables)@, pml4, virt, phys),
        old(tables).addresses().is_prefix_of(final(tables).addresses()),
{
    proof {
        lemma_map_page_wf(tables@, pml4, virt, phys);
    }
    let flags = PageTableEntryFlags {
        present: true,
        writable: true,
        user: true,
        ..Default::default()
    };
    let offs = PageTableOffsets::new(virt);
    let pml3 = match get_or_alloc_entry(tables, pml4, offs.pml4, flags) {
        Ok(pml3) => pml3,
        Err(e) => {
            return Err(e);
        },
    };
    let pml2 = match get_or_alloc_entry(tables, pml3, offs.pml3, flags) {
        Ok(pml2) => pml2,
        Err(e) => {
            return Err(e);
        },
    };
    let t = match tables.find(pml2) {
        Some(t) => t,
        None => {
            return Err(PagingError::UnknownTable(pml2));
        },
    };
    let leaf = PageTableEntry::new().with_present(true).with_writable(true).with_huge(
        true,
    ).with_address(phys / 0x1000);
    assert(leaf@ == huge_leaf(phys));
    let mut table = tables.tables[t];
    let ghost before = tables@;
    table.entries[offs.pml2] = leaf;
    assert(table@ =~= before.tables[pml2].update(offs.pml2 as int, leaf@));
    proof {
        lemma_map_update(tables.addrs@, tables.tables@, t as int, table);
    }
    tables.tables[t] = table;
    Ok(())
}

/// Maps `count` huge pages in a row, from `virt` to `phys` upwards.
pub fn map_huge_pages(tables: &mut PageTables, pml4: u64, virt: u64, phys: u64, count: u64) -> (r: Result<
    (),
    PagingError,
>)
    requires
        old(tables).wf(),
        count > 0 ==> virt + 0x20_0000 * (count - 1) <= u64::MAX,
        count > 0 ==> phys + 0x20_0000 * (count - 1) < 0x10_0000_0000_0000,
    ensures
        final(tables).wf(),
        (final(tables)@, r) == map_pages(old(tables)@, pml4, virt, phys, count as nat),
        old(tables).addresses().is_prefix_of(final(tables).addresses()),
{
    let mut i: u64 = 0;
    assert(tables.addresses().is_prefix_of(tables.addresses())) by {
        assert(tables.addresses() =~= tables.addresses().subrange(
            0,
            tables.addresses().len() as int,
        ));
    }
    while i < count
        invariant
            i <= count,
            tables.wf(),
            count > 0 ==> virt + 0x20_0000 * (count - 1) <= u64::MAX,
            count > 0 ==> phys + 0x20_0000 * (count - 1) < 0x10_0000_0000_0000,
            (tables@, Ok::<(), PagingError>(())) == map_pages(
                old(tables)@,
                pml4,
                virt,
                phys,
                i as nat,
            ),
            old(tables).addresses().is_prefix_of(tables.addresses()),
        decreases count - i,
    {
        let physical_address = phys + 0x20_0000 * i;
        let virtual_address = virt + 0x20_0000 * i;
        let ghost so_far = tables.addresses();
        let mapped = map_huge_page(tables, pml4, virtual_address, physical_address);
        proof {
            lemma_prefix_goes_on(old(tables).addresses(), so_far, tables.addresses());
        }
        match mapped {
            Ok(()) => {},
            Err(e) => {
                proof {
                    lemma_map_pages_error_stays(
                        old(tables)@,
                        pml4,
                        virt,
                        phys,
                        (i + 1) as nat,
                        count as nat,
                    );
                }
                return Err(e);
            },
        }
        i += 1;
    }
    Ok(())
}

/// Maps the higher half under the root at `pml4`: the direct map of
/// the first 4 GiB of physical memory, and 2 GiB at the kernel's base.
pub fn map_higher_half(tables: &mut PageTables, pml4: u64) -> (r: Result<(), PagingError>)
    requires
        old(tables).wf(),
    ensures
        final(tables).wf(),
        (final(tables)@, r) == map_higher_half_spec(old(tables)@, pml4),
        old(tables).addresses().is_prefix_of(final(tables).addresses()),
{
    match map_huge_pages(tables, pml4, PHYS_VIRT_OFFSET, 0, DIRECT_MAP_PAGES) {
        Ok(()) => {},
        Err(e) => {
            return Err(e);
        },
    }
    map_huge_pages(tables, pml4, KERNEL_VIRT_OFFSET, 0, KERNEL_WINDOW_PAGES)
}

/// The physical address that the tables under `root` give the virtual
/// address `va` through a huge page: two levels are followed, the third
/// must hold a huge leaf.
pub open spec fn resolve(s: TablesView, root: u64, va: u64) -> Option<u64> {
    if !s.tables.contains_key(root) {
        None
    } else {
        let e4 = s.tables[root][index4(va)];
        if !e4.present || !s.tables.contains_key(child_of(e4)) {
            None
        } else {
            let e3 = s.tables[child_of(e4)][index3(va)];
            if !e3.present || e3.huge || !s.tables.contains_key(child_of(e3)) {
                None
            } else {
                let e2 = s.tables[child_of(e3)][index2(va)];
                if !e2.present || !e2.huge {
                    None
                } else {
                    Some((child_of(e2) + va % 0x20_0000) as u64)
                }
            }
        }
    }
}

/// The tables on the way to `va` are three different tables, and the way
/// does not end early in a leaf of the third level.
pub open spec fn path_is_clear(s: TablesView, root: u64, va: u64) -> bool {
    let e4 = s.tables[root][index4(va)];
    let e3 = s.tables[child_of(e4)][index3(va)];
    s.tables.contains_key(root) && e4.present ==> {
        &&& child_of(e4) != root
        &&& s.tables.contains_key(child_of(e4)) && e3.present ==> {
            &&& !e3.huge
            &&& child_of(e3) != root
            &&& child_of(e3) != child_of(e4)
        }
    }
}

/// A frame address splits into a frame number and back without loss.
pub(crate) proof fn lemma_frame_round_trip(frame: u64)
    requires
        frame_ok(frame),
    ensures
        frame / 0x1000 < 0x100_0000_0000,
        (frame / 0x1000) * 0x1000 == frame,
{
}

/// Walk-or-create is idempotent: asked again for the same entry, it gives
/// the same child and changes nothing, whatever flags the second call
/// carries. This needs the first call to leave the entry present.
pub proof fn lemma_child_step_idempotent(
    s: TablesView,
    table: u64,
    index: int,
    flags: PageTableEntryFlags,
    again: PageTableEntryFlags,
)
    requires
        s.wf(),
        0 <= index < 512,
        child_step(s, table, index, flags).1 is Ok,
        flags.present || s.tables[table][index].present,
    ensures
        child_step(child_step(s, table, index, flags).0, table, index, again) == child_step(
            s,
            table,
            index,
            flags,
        ),
        child_step(s, table, index, flags).0.tables.contains_key(table),
        child_step(s, table, index, flags).0.tables[table][index].present,
{
    if !s.tables[table][index].present {
        let frame = s.free.last();
        assert(frame == s.free[s.free.len() - 1]);
        lemma_frame_round_trip(frame);
    }
}

/// A huge page that was just mapped resolves, by table walk, to the
/// physical address it was mapped to, provided the walk goes through three
/// different tables.
pub proof fn lemma_mapped_page_resolves(s: TablesView, root: u64, va: u64, pa: u64)
    requires
        s.wf(),
        pa % 0x20_0000 == 0,
        pa < 0x10_0000_0000_0000,
        path_is_clear(s, root, va),
        map_page(s, root, va, pa).1 is Ok,
    ensures
        resolve(map_page(s, root, va, pa).0, root, va) == Some((pa + va % 0x20_0000) as u64),
{
    let flags = table_flags();
    let first = child_step(s, root, index4(va), flags);
    let pml3 = first.1->Ok_0;
    lemma_child_step_wf(s, root, index4(va), flags);
    lemma_child_step_idempotent(s, root, index4(va), flags, flags);
    if !s.tables[root][index4(va)].present {
        let frame = s.free.last();
        assert(frame == s.free[s.free.len() - 1]);
        lemma_frame_round_trip(frame);
        assert(pml3 == frame);
        assert(first.0.tables[pml3] == zero_table());
    }
    let second = child_step(first.0, pml3, index3(va), flags);
    let pml2 = second.1->Ok_0;
    lemma_child_step_wf(first.0, pml3, index3(va), flags);
    lemma_child_step_idempotent(first.0, pml3, index3(va), flags, flags);
    if !first.0.tables[pml3][index3(va)].present {
        let frame = first.0.free.last();
        assert(frame == first.0.free[first.0.free.len() - 1]);
        lemma_frame_round_trip(frame);
        assert(pml2 == frame);
    }
    assert(pml3 != root);
    assert(pml2 != root);
    assert(pml2 != pml3);
    assert(second.0.tables[root][index4(va)] == first.0.tables[root][index4(va)]);
    assert((pa / 0x1000) * 0x1000 == pa);
}

/// Walks the tables under the root at `pml4` for the virtual address
/// `virt`, as the processor does for a huge page, and gives the physical
/// address it finds.
pub fn walk(tables: &PageTables, pml4: u64, virt: u64) -> (r: Option<u64>)
    requires
        tables.wf(),
    ensures
        r == resolve(tables@, pml4, virt),
{
    let offs = PageTableOffsets::new(virt);
    let root = match tables.table(pml4) {
        Some(root) => root,
        None => {
            return None;
        },
    };
    let e4 = root.entries[offs.pml4];
    assert(e4@ == tables@.tables[pml4][index4(virt)]);
    if !e4.present() {
        return None;
    }
    let pml3 = match tables.table(e4.address() * 0x1000) {
        Some(pml3) => pml3,
        None => {
            return None;
        },
    };
    let e3 = pml3.entries[offs.pml3];
    assert(e3@ == tables@.tables[child_of(e4@)][index3(virt)]);
    if !e3.present() || e3.huge() {
        return None;
    }
    let pml2 = match tables.table(e3.address() * 0x1000) {
        Some(pml2) => pml2,
        None => {
            return None;
        },
    };
    let e2 = pml2.entries[offs.pml2];
    assert(e2@ == tables@.tables[child_of(e3@)][index2(virt)]);
    if !e2.present() || !e2.huge() {
        return None;
    }
    Some(e2.address() * 0x1000 + virt % 0x20_0000)
}

} // verus!
