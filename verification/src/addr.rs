//! The two address domains of the loader and the translation between them.
//!
//! The loader works on physical addresses; the kernel reads everything it is
//! handed through the higher-half direct map. A `KernelAddress` can only be
//! built by translating a physical address, so a structure made of
//! `KernelAddress` fields cannot hold a physical pointer by accident.

use vstd::prelude::*;

verus! {

/// Virtual address at which the direct map of physical memory starts.
pub const PHYS_VIRT_OFFSET: u64 = 0xFFFF_8000_0000_0000;

/// Lowest virtual address at which a kernel image may be linked.
pub const KERNEL_VIRT_OFFSET: u64 = 0xFFFF_FFFF_8000_0000;

/// Size of a base page in bytes.
pub const PAGE_SIZE: u64 = 0x1000;

/// Size of a huge page in bytes.
pub const HUGE_PAGE_SIZE: u64 = 0x20_0000;

/// Whether `phys` has an image in the direct map, that is, whether adding
/// the direct-map offset to it stays inside the 64-bit address space.
pub open spec fn direct_mappable(phys: u64) -> bool {
    phys as int + PHYS_VIRT_OFFSET as int <= u64::MAX as int
}

/// The direct-map image of a physical address.
pub open spec fn kern_va_of(phys: u64) -> u64
    recommends
        direct_mappable(phys),
{
    (phys + PHYS_VIRT_OFFSET) as u64
}

/// Translates a physical address into its direct-map virtual address.
pub fn pa_to_kern_va(phys: u64) -> (virt: u64)
    requires
        direct_mappable(phys),
    ensures
        virt == kern_va_of(phys),
        virt >= PHYS_VIRT_OFFSET,
        virt - PHYS_VIRT_OFFSET == phys,
{
    phys + PHYS_VIRT_OFFSET
}

/// An address in the kernel's virtual address space, obtained from a
/// physical address through the direct map.
#[derive(Clone, Copy, Debug, PartialEq, Eq, Structural)]
pub struct KernelAddress {
    virt: u64,
}

impl KernelAddress {
    /// The direct-map image of the physical address `phys`.
    pub closed spec fn of_phys(phys: u64) -> KernelAddress {
        KernelAddress { virt: kern_va_of(phys) }
    }

    /// The virtual address.
    pub closed spec fn addr(self) -> u64 {
        self.virt
    }

    /// The physical address whose direct-map image this value is.
    pub open spec fn phys(self) -> int {
        self.addr() - PHYS_VIRT_OFFSET
    }

    /// Every value of this type lies in the direct map.
    #[verifier::type_invariant]
    spec fn in_direct_map(self) -> bool {
        self.virt >= PHYS_VIRT_OFFSET
    }

    /// The virtual address as a number.
    pub fn as_u64(&self) -> (virt: u64)
        ensures
            virt == self.addr(),
    {
        self.virt
    }

    /// The physical address behind a translated address.
    pub fn to_phys(&self) -> (phys: u64)
        ensures
            phys == self.phys(),
            direct_mappable(phys),
            kern_va_of(phys) == self.addr(),
            *self == KernelAddress::of_phys(phys),
    {
        proof {
            use_type_invariant(self);
        }
        self.virt - PHYS_VIRT_OFFSET
    }
}

/// A run of `len` elements in the kernel's virtual address space.
#[derive(Clone, Copy, Debug, PartialEq, Eq, Structural)]
pub struct KernelSlice {
    pub base: KernelAddress,
    pub len: u64,
}

/// Translates a reference held as a physical address into the kernel's
/// domain; `None` when the address has no image in the direct map.
pub fn phys_to_kern_ref(phys: u64) -> (r: Option<KernelAddress>)
    ensures
        r == (if direct_mappable(phys) {
            Some(KernelAddress::of_phys(phys))
        } else {
            None
        }),
        r matches Some(k) ==> k.addr() == kern_va_of(phys) && k.phys() == phys,
{
    if phys <= u64::MAX - PHYS_VIRT_OFFSET {
        Some(KernelAddress { virt: pa_to_kern_va(phys) })
    } else {
        None
    }
}

/// Translates a slice held as a physical base address and an element count.
/// The bytes stay where they are; only the base address changes domain.
pub fn phys_to_kern_slice_ref(phys: u64, len: u64) -> (r: Option<KernelSlice>)
    ensures
        r == (if direct_mappable(phys) {
            Some(KernelSlice { base: KernelAddress::of_phys(phys), len })
        } else {
            None
        }),
        r matches Some(s) ==> s.base.addr() == kern_va_of(phys) && s.base.phys() == phys,
{
    match phys_to_kern_ref(phys) {
        Some(base) => Some(KernelSlice { base, len }),
        None => None,
    }
}

/// Translating to the kernel's domain and back gives the physical address
/// again.
pub proof fn lemma_translation_round_trip(phys: u64)
    requires
        direct_mappable(phys),
    ensures
        kern_va_of(phys) - PHYS_VIRT_OFFSET == phys,
        kern_va_of(phys) >= PHYS_VIRT_OFFSET,
        KernelAddress::of_phys(phys).addr() == kern_va_of(phys),
        KernelAddress::of_phys(phys).phys() == phys,
{
}

} // verus!
