//! Decisions taken while the firmware's boot services are still active:
//! which ACPI root pointer to hand on, and how to open the page tables for
//! the higher-half mappings.

use vstd::prelude::*;

use crate::addr::direct_mappable;
use crate::addr::phys_to_kern_ref;
use crate::addr::KernelAddress;
use crate::paging::bit_of;
use crate::paging::map_higher_half;
use crate::paging::map_higher_half_spec;
use crate::paging::PageTables;
use crate::paging::PagingError;

verus! {

/// One entry of the firmware's configuration table: the identifier of a
/// vendor table, as its sixteen bytes, and where the table lies.
#[derive(Clone, Copy, Debug)]
pub struct ConfigTableEntry {
    pub guid: [u8; 16],
    pub address: u64,
}

/// Why no ACPI root pointer was found.
#[derive(Clone, Copy, Debug, PartialEq, Eq, Structural)]
pub enum RsdpError {
    /// The configuration table names neither revision of the root pointer.
    NotFound,
    /// The root pointer has no image in the direct map.
    NotMappable,
}

/// Identifier of the ACPI 1.0 root pointer:
/// `eb9d2d30-2d88-11d3-9a16-0090273fc14d`.
pub open spec fn acpi_guid_bytes() -> Seq<u8> {
    seq![
        0x30u8, 0x2Du8, 0x9Du8, 0xEBu8, 0x88u8, 0x2Du8, 0xD3u8, 0x11u8, 0x9Au8, 0x16u8, 0x00u8,
        0x90u8, 0x27u8, 0x3Fu8, 0xC1u8, 0x4Du8,
    ]
}

/// Identifier of the ACPI 2.0 root pointer:
/// `8868e871-e4f1-11d3-bc22-0080c73c8881`.
pub open spec fn acpi2_guid_bytes() -> Seq<u8> {
    seq![
        0x71u8, 0xE8u8, 0x68u8, 0x88u8, 0xF1u8, 0xE4u8, 0xD3u8, 0x11u8, 0xBCu8, 0x22u8, 0x00u8,
        0x80u8, 0xC7u8, 0x3Cu8, 0x88u8, 0x81u8,
    ]
}

/// The bytes of `uefi::table::cfg::ACPI_GUID`, as `Guid::to_bytes` gives
/// them: the first three groups of the textual form byte-swapped, the rest
/// in order.
#[verifier::external_body]
fn acpi_guid() -> (r: [u8; 16])
    ensures
        r@ == acpi_guid_bytes(),
{
    uefi::table::cfg::ACPI_GUID.to_bytes()
}

/// The bytes of `uefi::table::cfg::ACPI2_GUID`, as `Guid::to_bytes` gives
/// them: the first three groups of the textual form byte-swapped, the rest
/// in order.
#[verifier::external_body]
fn acpi2_guid() -> (r: [u8; 16])
    ensures
        r@ == acpi2_guid_bytes(),
{
    uefi::table::cfg::ACPI2_GUID.to_bytes()
}

/// Index of the first entry with the given identifier, or the number of
/// entries when there is none.
pub open spec fn first_with_guid(entries: Seq<ConfigTableEntry>, guid: Seq<u8>) -> int
    decreases entries.len(),
{
    if entries.len() == 0 {
        0
    } else if entries[0].guid@ == guid {
        0
    } else {
        1 + first_with_guid(entries.drop_first(), guid)
    }
}

/// Physical address of the root pointer to hand on: that of the first 2.0
/// entry; where there is none, that of the first 1.0 entry.
pub open spec fn rsdp_address(entries: Seq<ConfigTableEntry>) -> Option<u64> {
    let new = first_with_guid(entries, acpi2_guid_bytes());
    let old = first_with_guid(entries, acpi_guid_bytes());
    if new < entries.len() {
        Some(entries[new].address)
    } else if old < entries.len() {
        Some(entries[old].address)
    } else {
        None
    }
}

/// Whether two identifiers are the same sixteen bytes.
fn same_guid(a: &[u8; 16], b: &[u8; 16]) -> (r: bool)
    ensures
        r == (a@ == b@),
{
    let mut i: usize = 0;
    while i < 16
        invariant
            i <= 16,
            forall|k: int| 0 <= k < i ==> a@[k] == b@[k],
        decreases 16 - i,
    {
        if a[i] != b[i] {
            return false;
        }
        i += 1;
    }
    assert(a@ =~= b@);
    true
}

/// Finds the first entry with the given identifier.
fn find_guid(entries: &Vec<ConfigTableEntry>, guid: &[u8; 16]) -> (r: usize)
    ensures
        r == first_with_guid(entries@, guid@),
        r <= entries@.len(),
{
    let mut i: usize = 0;
    assert(entries@.subrange(0, entries@.len() as int) =~= entries@);
    while i < entries.len()
        invariant
            i <= entries@.len(),
            first_with_guid(entries@, guid@) == i + first_with_guid(
                entries@.subrange(i as int, entries@.len() as int),
                guid@,
            ),
        decreases entries@.len() - i,
    {
        let ghost tail = entries@.subrange(i as int, entries@.len() as int);
        assert(tail[0] == entries@[i as int]);
        assert(tail.drop_first() =~= entries@.subrange(i + 1, entries@.len() as int));
        if same_guid(&entries[i].guid, guid) {
            return i;
        }
        i += 1;
    }
    assert(entries@.subrange(i as int, entries@.len() as int).len() == 0);
    i
}

/// Picks the ACPI root pointer from the configuration table and moves it
/// into the kernel's domain. The 2.0 pointer wins over the 1.0 pointer
/// wherever each stands in the table.
pub fn get_rsdp(entries: &Vec<ConfigTableEntry>) -> (r: Result<KernelAddress, RsdpError>)
    ensures
        r == match rsdp_address(entries@) {
            None => Err::<KernelAddress, RsdpError>(RsdpError::NotFound),
            Some(phys) => if direct_mappable(phys) {
                Ok(KernelAddress::of_phys(phys))
            } else {
                Err(RsdpError::NotMappable)
            },
        },
        r matches Ok(k) ==> rsdp_address(entries@) == Some(k.phys() as u64),
{
    let new_guid = acpi2_guid();
    let old_guid = acpi_guid();
    let new = find_guid(entries, &new_guid);
    let phys = if new < entries.len() {
        entries[new].address
    } else {
        let old = find_guid(entries, &old_guid);
        if old < entries.len() {
            entries[old].address
        } else {
            return Err(RsdpError::NotFound);
        }
    };
    match phys_to_kern_ref(phys) {
        Some(k) => Ok(k),
        None => Err(RsdpError::NotMappable),
    }
}

/// Bit of the control register that write-protects read-only pages against
/// the supervisor.
pub const WRITE_PROTECT_BIT: u64 = 16;

/// Clearing bit 16 changes that bit and nothing else.
proof fn lemma_clear_write_protect(cr0: u64)
    by (bit_vector)
    ensures
        !bit_of(cr0 & !(1u64 << 16), 16),
        forall|j: u64| j < 64 && j != 16 ==> bit_of(cr0 & !(1u64 << 16), j) == bit_of(cr0, j),
{
}

/// The control register value with write protection off and nothing else
/// changed.
pub fn without_write_protect(cr0: u64) -> (r: u64)
    ensures
        r == cr0 & !(1u64 << 16),
        !bit_of(r, WRITE_PROTECT_BIT),
        forall|j: u64| j < 64 && j != WRITE_PROTECT_BIT ==> bit_of(r, j) == bit_of(cr0, j),
{
    proof {
        lemma_clear_write_protect(cr0);
    }
    cr0 & !(1u64 << 16)
}

/// Prepares the higher-half mappings: gives the control register value to
/// load before any table is written, and maps the higher half under the
/// root at `pml4`.
pub fn setup_paging(tables: &mut PageTables, pml4: u64, cr0: u64) -> (r: (
    u64,
    Result<(), PagingError>,
))
    requires
        old(tables).wf(),
    ensures
        final(tables).wf(),
        r.0 == cr0 & !(1u64 << 16),
        !bit_of(r.0, WRITE_PROTECT_BIT),
        forall|j: u64| j < 64 && j != WRITE_PROTECT_BIT ==> bit_of(r.0, j) == bit_of(cr0, j),
        (final(tables)@, r.1) == map_higher_half_spec(old(tables)@, pml4),
        old(tables).addresses().is_prefix_of(final(tables).addresses()),
{
    let unprotected = without_write_protect(cr0);
    let mapped = map_higher_half(tables, pml4);
    (unprotected, mapped)
}

} // verus!
