//! Claimed-region bookkeeping and the translation of the firmware memory map
//! into the classification the kernel consumes.

use vstd::prelude::*;

verus! {

/// Base and length, in bytes, of a run of physical memory.
#[derive(Clone, Copy, Debug, PartialEq, Eq, Structural)]
pub struct MemoryData {
    pub base: u64,
    pub length: u64,
}

/// A classified run of physical memory, as the kernel sees it.
#[derive(Clone, Copy, Debug, PartialEq, Eq, Structural)]
pub enum MemoryEntry {
    Usable(MemoryData),
    BootLoaderReclaimable(MemoryData),
    KernelOrModule(MemoryData),
    ACPIReclaimable(MemoryData),
    ACPINonVolatile(MemoryData),
}

/// The firmware's memory types, as far as the translation tells them apart.
#[derive(Clone, Copy, Debug, PartialEq, Eq, Structural)]
pub enum FirmwareMemoryType {
    Conventional,
    LoaderCode,
    LoaderData,
    AcpiReclaim,
    AcpiNonVolatile,
    Other,
}

/// One record of the firmware memory map.
#[derive(Clone, Copy, Debug, PartialEq, Eq, Structural)]
pub struct MemoryDescriptor {
    pub phys_start: u64,
    pub page_count: u64,
    pub ty: FirmwareMemoryType,
}

impl MemoryDescriptor {
    /// Length of the described run in bytes.
    pub open spec fn byte_len(self) -> int {
        self.page_count * 0x1000
    }

    /// First address past the described run.
    pub open spec fn top(self) -> int {
        self.phys_start + self.byte_len()
    }

    /// The described run lies inside the 64-bit physical address space.
    pub open spec fn wf(self) -> bool {
        self.top() <= u64::MAX
    }

    /// The described run as base and length.
    pub open spec fn data(self) -> MemoryData
        recommends
            self.wf(),
    {
        MemoryData { base: self.phys_start, length: self.byte_len() as u64 }
    }

    /// Builds a descriptor; `None` when the run would pass the end of the
    /// address space.
    pub fn new(phys_start: u64, page_count: u64, ty: FirmwareMemoryType) -> (r: Option<Self>)
        ensures
            r.is_some() <==> phys_start + page_count * 0x1000 <= u64::MAX,
            r matches Some(d) ==> d.wf() && d.phys_start == phys_start && d.page_count
                == page_count && d.ty == ty,
    {
        if page_count > (u64::MAX - phys_start) / 0x1000 {
            None
        } else {
            Some(MemoryDescriptor { phys_start, page_count, ty })
        }
    }
}

/// First address past a claim.
pub open spec fn claim_end(claim: (usize, usize)) -> int {
    claim.0 + claim.1
}

/// Whether the claim shares at least one byte with `[base, top)`.
pub open spec fn intersects(claim: (usize, usize), base: int, top: int) -> bool {
    claim.0 < claim_end(claim) && base < top && claim.0 < top && base < claim_end(claim)
}

/// Index of the first claim that shares a byte with `[base, top)`, or the
/// number of claims when none does.
pub open spec fn first_intersecting(claims: Seq<(usize, usize)>, base: int, top: int) -> int
    decreases claims.len(),
{
    if claims.len() == 0 {
        0
    } else if intersects(claims[0], base, top) {
        0
    } else {
        1 + first_intersecting(claims.drop_first(), base, top)
    }
}

/// Classification of a run by its firmware type alone.
pub open spec fn classify_by_type(ty: FirmwareMemoryType, data: MemoryData) -> Option<
    MemoryEntry,
> {
    match ty {
        FirmwareMemoryType::Conventional => Some(MemoryEntry::Usable(data)),
        FirmwareMemoryType::LoaderCode | FirmwareMemoryType::LoaderData => Some(
            MemoryEntry::BootLoaderReclaimable(data),
        ),
        FirmwareMemoryType::AcpiReclaim => Some(MemoryEntry::ACPIReclaimable(data)),
        FirmwareMemoryType::AcpiNonVolatile => Some(MemoryEntry::ACPINonVolatile(data)),
        FirmwareMemoryType::Other => None,
    }
}

/// What becomes of a loader-owned run `[base, top)` that the claim
/// intersects: reserved as a whole when the claim reaches its end, else cut
/// down to what lies past the claim.
pub open spec fn reclassify(claim: (usize, usize), base: int, top: int) -> MemoryEntry {
    if top > claim_end(claim) {
        MemoryEntry::BootLoaderReclaimable(
            MemoryData { base: claim_end(claim) as u64, length: (top - claim_end(claim)) as u64 },
        )
    } else {
        MemoryEntry::KernelOrModule(MemoryData { base: base as u64, length: (top - base) as u64 })
    }
}

/// Classification of one firmware record against the claims made so far.
pub open spec fn classify(claims: Seq<(usize, usize)>, desc: MemoryDescriptor) -> Option<
    MemoryEntry,
> {
    match desc.ty {
        FirmwareMemoryType::LoaderCode | FirmwareMemoryType::LoaderData => {
            let i = first_intersecting(claims, desc.phys_start as int, desc.top());
            if i < claims.len() {
                Some(reclassify(claims[i], desc.phys_start as int, desc.top()))
            } else {
                Some(MemoryEntry::BootLoaderReclaimable(desc.data()))
            }
        },
        _ => classify_by_type(desc.ty, desc.data()),
    }
}

/// The classified map: the classification of each record, in the order of
/// the records, without those that have none.
pub open spec fn translate(claims: Seq<(usize, usize)>, descs: Seq<MemoryDescriptor>) -> Seq<
    MemoryEntry,
>
    decreases descs.len(),
{
    if descs.len() == 0 {
        Seq::empty()
    } else {
        let rest = translate(claims, descs.drop_last());
        match classify(claims, descs.last()) {
            Some(entry) => rest.push(entry),
            None => rest,
        }
    }
}

/// Whether `[base, base + length)` lies inside the claim and `base` is one
/// of its bytes.
pub open spec fn claim_holds(claim: (usize, usize), base: int, length: int) -> bool {
    claim.0 <= base < claim_end(claim) && base + length <= claim_end(claim)
}

/// Whether some claim holds `[base, base + length)`.
pub open spec fn is_claimed(claims: Seq<(usize, usize)>, base: int, length: int) -> bool {
    exists|i: int| 0 <= i < claims.len() && claim_holds(#[trigger] claims[i], base, length)
}

/// The record of every physical range the loader has claimed.
#[derive(Debug)]
pub struct MemoryManager {
    entries: Vec<(usize, usize)>,
}

impl View for MemoryManager {
    type V = Seq<(usize, usize)>;

    /// The claims as (base, length) pairs, oldest first.
    closed spec fn view(&self) -> Seq<(usize, usize)> {
        self.entries@
    }
}

impl MemoryManager {
    /// A record without claims.
    pub fn new() -> (r: Self)
        ensures
            r@ == Seq::<(usize, usize)>::empty(),
    {
        Self { entries: Vec::new() }
    }

    /// Appends the claim `(base, length)`. Claims are never merged, compared
    /// or removed.
    pub fn allocate(&mut self, ent: (usize, usize))
        ensures
            final(self)@ == old(self)@.push(ent),
    {
        self.entries.push(ent)
    }

    /// Number of claims made so far.
    pub fn len(&self) -> (n: usize)
        ensures
            n == self@.len(),
    {
        self.entries.len()
    }

    /// The `i`-th claim.
    pub fn get(&self, i: usize) -> (claim: (usize, usize))
        requires
            i < self@.len(),
        ensures
            claim == self@[i as int],
    {
        self.entries[i]
    }

    /// Whether some claim holds the `length` bytes at `base`, and `base`
    /// itself.
    pub fn holds(&self, base: u64, length: u64) -> (r: bool)
        ensures
            r == is_claimed(self@, base as int, length as int),
    {
        let mut i: usize = 0;
        while i < self.entries.len()
            invariant
                i <= self.entries@.len(),
                forall|k: int| 0 <= k < i ==> !claim_holds(#[trigger] self.entries@[k], base as int, length as int),
            decreases self.entries@.len() - i,
        {
            let claim = self.entries[i];
            let end: u128 = claim.0 as u128 + claim.1 as u128;
            if claim.0 as u128 <= base as u128 && (base as u128) < end && base as u128
                + length as u128 <= end {
                assert(claim_holds(self.entries@[i as int], base as int, length as int));
                return true;
            }
            i += 1;
        }
        false
    }

    /// Classifies one firmware record against the claims.
    pub fn mem_type_from_desc(&self, desc: &MemoryDescriptor) -> (r: Option<MemoryEntry>)
        requires
            desc.wf(),
        ensures
            r == classify(self@, *desc),
    {
        let data = MemoryData { base: desc.phys_start, length: desc.page_count * 0x1000 };
        match desc.ty {
            FirmwareMemoryType::Conventional => Some(MemoryEntry::Usable(data)),
            FirmwareMemoryType::LoaderCode | FirmwareMemoryType::LoaderData => {
                let top: u128 = data.base as u128 + data.length as u128;
                let ghost base = desc.phys_start as int;
                let mut i: usize = 0;
                assert(self.entries@.subrange(0, self.entries@.len() as int) =~= self.entries@);
                while i < self.entries.len()
                    invariant
                        i <= self.entries@.len(),
                        data.base == desc.phys_start,
                        data.length == desc.byte_len(),
                        desc.ty == FirmwareMemoryType::LoaderCode || desc.ty
                            == FirmwareMemoryType::LoaderData,
                        top == desc.top(),
                        base == desc.phys_start,
                        first_intersecting(self.entries@, base, top as int) == i
                            + first_intersecting(
                            self.entries@.subrange(i as int, self.entries@.len() as int),
                            base,
                            top as int,
                        ),
                    decreases self.entries@.len() - i,
                {
                    let claim = self.entries[i];
                    let end: u128 = claim.0 as u128 + claim.1 as u128;
                    let ghost tail = self.entries@.subrange(i as int, self.entries@.len() as int);
                    assert(tail[0] == claim);
                    assert(tail.drop_first() =~= self.entries@.subrange(
                        i + 1,
                        self.entries@.len() as int,
                    ));
                    assert(end == claim_end(claim));
                    if (claim.0 as u128) < end && (data.base as u128) < top && (claim.0 as u128)
                        < top && (data.base as u128) < end {
                        assert(intersects(claim, base, top as int));
                        assert(first_intersecting(tail, base, top as int) == 0);
                        assert(first_intersecting(self@, base, top as int) == i);
                        if top > end {
                            return Some(
                                MemoryEntry::BootLoaderReclaimable(
                                    MemoryData { base: end as u64, length: (top - end) as u64 },
                                ),
                            );
                        } else {
                            return Some(MemoryEntry::KernelOrModule(data));
                        }
                    }
                    assert(!intersects(claim, base, top as int));
                    i += 1;
                }
                assert(self.entries@.subrange(i as int, self.entries@.len() as int).len() == 0);
                Some(MemoryEntry::BootLoaderReclaimable(data))
            },
            FirmwareMemoryType::AcpiReclaim => Some(MemoryEntry::ACPIReclaimable(data)),
            FirmwareMemoryType::AcpiNonVolatile => Some(MemoryEntry::ACPINonVolatile(data)),
            FirmwareMemoryType::Other => None,
        }
    }

    /// Translates the final firmware memory map.
    pub fn translate_memory_map(&self, descs: &Vec<MemoryDescriptor>) -> (out: Vec<MemoryEntry>)
        requires
            forall|i: int| 0 <= i < descs@.len() ==> (#[trigger] descs@[i]).wf(),
        ensures
            out@ == translate(self@, descs@),
            out@.len() <= descs@.len(),
    {
        let mut out: Vec<MemoryEntry> = Vec::new();
        let mut i: usize = 0;
        while i < descs.len()
            invariant
                i <= descs@.len(),
                forall|k: int| 0 <= k < descs@.len() ==> (#[trigger] descs@[k]).wf(),
                out@ == translate(self@, descs@.subrange(0, i as int)),
                out@.len() <= i,
            decreases descs@.len() - i,
        {
            let ghost prefix = descs@.subrange(0, i + 1);
            assert(prefix.drop_last() =~= descs@.subrange(0, i as int));
            assert(prefix.last() == descs@[i as int]);
            if let Some(entry) = self.mem_type_from_desc(&descs[i]) {
                out.push(entry);
            }
            i += 1;
        }
        assert(descs@.subrange(0, i as int) =~= descs@);
        out
    }
}

/// The part of the run `[base, top)` that lies below the end of a claim
/// which ends inside it.
pub open spec fn covered_prefix(claim: (usize, usize), desc: MemoryDescriptor) -> MemoryData {
    MemoryData {
        base: desc.phys_start,
        length: (claim_end(claim) - desc.phys_start) as u64,
    }
}

/// The first intersecting claim, where there is one, does intersect, and no
/// claim before it does.
pub proof fn lemma_first_intersecting(claims: Seq<(usize, usize)>, base: int, top: int)
    ensures
        0 <= first_intersecting(claims, base, top) <= claims.len(),
        first_intersecting(claims, base, top) < claims.len() ==> intersects(
            claims[first_intersecting(claims, base, top)],
            base,
            top,
        ),
        forall|k: int|
            0 <= k < first_intersecting(claims, base, top) ==> !intersects(
                #[trigger] claims[k],
                base,
                top,
            ),
    decreases claims.len(),
{
    if claims.len() > 0 && !intersects(claims[0], base, top) {
        let rest = claims.drop_first();
        lemma_first_intersecting(rest, base, top);
        let f = first_intersecting(claims, base, top);
        assert forall|k: int| 0 <= k < f implies !intersects(#[trigger] claims[k], base, top) by {
            if k > 0 {
                assert(claims[k] == rest[k - 1]);
            }
        }
    }
}

/// A record that shares no byte with any claim is classified by its firmware
/// type alone, and keeps its base and length.
pub proof fn lemma_unclaimed_is_by_type(claims: Seq<(usize, usize)>, desc: MemoryDescriptor)
    requires
        desc.wf(),
        forall|k: int|
            0 <= k < claims.len() ==> !intersects(
                #[trigger] claims[k],
                desc.phys_start as int,
                desc.top(),
            ),
    ensures
        classify(claims, desc) == classify_by_type(desc.ty, desc.data()),
{
    lemma_first_intersecting(claims, desc.phys_start as int, desc.top());
}

/// The classified map of two maps laid end to end is the two classified
/// maps laid end to end: records are neither reordered nor merged.
pub proof fn lemma_translate_concat(
    claims: Seq<(usize, usize)>,
    a: Seq<MemoryDescriptor>,
    b: Seq<MemoryDescriptor>,
)
    ensures
        translate(claims, a + b) == translate(claims, a) + translate(claims, b),
    decreases b.len(),
{
    if b.len() == 0 {
        assert(a + b =~= a);
        assert(translate(claims, a) + translate(claims, b) =~= translate(claims, a));
    } else {
        lemma_translate_concat(claims, a, b.drop_last());
        assert((a + b).drop_last() =~= a + b.drop_last());
        assert((a + b).last() == b.last());
        let rest = translate(claims, a) + translate(claims, b.drop_last());
        match classify(claims, b.last()) {
            Some(entry) => {
                assert(rest.push(entry) =~= translate(claims, a) + translate(
                    claims,
                    b.drop_last(),
                ).push(entry));
            },
            None => {},
        }
    }
}

/// The classified map of a single record is its classification, or nothing
/// when it has none.
pub proof fn lemma_translate_single(claims: Seq<(usize, usize)>, desc: MemoryDescriptor)
    ensures
        translate(claims, seq![desc]) == match classify(claims, desc) {
            Some(entry) => seq![entry],
            None => Seq::<MemoryEntry>::empty(),
        },
{
    let one = seq![desc];
    assert(one.drop_last() =~= Seq::<MemoryDescriptor>::empty());
    assert(one.last() == desc);
    assert(translate(claims, one.drop_last()) =~= Seq::<MemoryEntry>::empty());
    match classify(claims, desc) {
        Some(entry) => {
            assert(Seq::<MemoryEntry>::empty().push(entry) =~= seq![entry]);
        },
        None => {},
    }
}

/// The classified map never has more entries than the firmware map.
pub proof fn lemma_translate_len(claims: Seq<(usize, usize)>, descs: Seq<MemoryDescriptor>)
    ensures
        translate(claims, descs).len() <= descs.len(),
    decreases descs.len(),
{
    if descs.len() > 0 {
        lemma_translate_len(claims, descs.drop_last());
    }
}

/// Where the first claim that touches a loader-owned record ends inside it,
/// the record is cut at the end of the claim: what is emitted is the
/// reclaimable remainder, and the covered prefix and the remainder together
/// are as long as the record.
pub proof fn lemma_prefix_claim_splits(claims: Seq<(usize, usize)>, desc: MemoryDescriptor)
    requires
        desc.wf(),
        desc.ty == FirmwareMemoryType::LoaderData || desc.ty == FirmwareMemoryType::LoaderCode,
        first_intersecting(claims, desc.phys_start as int, desc.top()) < claims.len(),
        claim_end(claims[first_intersecting(claims, desc.phys_start as int, desc.top())])
            < desc.top(),
    ensures
        ({
            let claim = claims[first_intersecting(claims, desc.phys_start as int, desc.top())];
            let prefix = covered_prefix(claim, desc);
            &&& classify(claims, desc) matches Some(MemoryEntry::BootLoaderReclaimable(rest))
            &&& prefix.base == desc.phys_start
            &&& prefix.base + prefix.length == rest.base
            &&& rest.base == claim_end(claim)
            &&& rest.base + rest.length == desc.top()
            &&& prefix.length > 0
            &&& rest.length > 0
            &&& prefix.length + rest.length == desc.byte_len()
        }),
{
    lemma_first_intersecting(claims, desc.phys_start as int, desc.top());
}

} // verus!
