//! Loading of the kernel image: validation of the parsed executable,
//! placement of its loadable segments in physical memory, and the stack
//! pointer the kernel asks for in its metadata section.

use vstd::prelude::*;

use crate::addr::KERNEL_VIRT_OFFSET;
use crate::addr::PHYS_VIRT_OFFSET;
use crate::mem::MemoryManager;

verus! {

/// Program header type of a loadable segment.
pub const PT_LOAD: u32 = 1;

/// Machine code of the x86-64 architecture.
pub const EM_X86_64: u16 = 62;

/// Why an image was not loaded.
#[derive(Clone, Copy, Debug, PartialEq, Eq, Structural)]
pub enum LoadError {
    /// The bytes are not an executable the parser accepts.
    Malformed,
    /// The image is not of the 64-bit class.
    Not64Bit,
    /// The image is not for x86-64.
    WrongMachine,
    /// The image is not little-endian.
    NotLittleEndian,
    /// The entry point lies below the higher-half split.
    EntryNotHigherHalf,
    /// A loadable segment lies below the higher-half split.
    SegmentNotHigherHalf,
    /// A loadable segment is smaller in memory than in the file.
    SegmentSizes,
    /// A loadable segment's file bytes lie outside the image.
    SegmentOutOfBounds,
    /// A loadable segment runs past the end of the address space.
    SegmentTooLarge,
    /// The image has no metadata section.
    NoMetadataSection,
    /// The metadata section is too short or lies in no loaded segment.
    CorruptMetadata,
    /// The requested stack pointer is null.
    NullStackPointer,
    /// The requested stack pointer is not a higher-half address.
    NonCanonicalStackPointer,
}

/// One program header of the image, as far as loading reads it.
#[derive(Clone, Copy, Debug, PartialEq, Eq, Structural)]
pub struct Segment {
    pub kind: u32,
    pub offset: u64,
    pub vaddr: u64,
    pub file_size: u64,
    pub mem_size: u64,
}

/// One section header of the image, with its name resolved.
#[derive(Debug)]
pub struct Section {
    pub name: Option<Vec<u8>>,
    pub addr: u64,
    pub size: u64,
}

/// Mathematical model of a `Section`.
pub ghost struct SectionView {
    pub name: Option<Seq<u8>>,
    pub addr: u64,
    pub size: u64,
}

impl View for Section {
    type V = SectionView;

    open spec fn view(&self) -> SectionView {
        SectionView {
            name: match self.name {
                Some(n) => Some(n@),
                None => None,
            },
            addr: self.addr,
            size: self.size,
        }
    }
}

/// What loading reads of a parsed executable.
#[derive(Debug)]
pub struct ElfImage {
    pub is_64: bool,
    pub little_endian: bool,
    pub machine: u16,
    pub entry: u64,
    pub segments: Vec<Segment>,
    pub sections: Vec<Section>,
}

/// Mathematical model of an `ElfImage`.
pub ghost struct ElfImageView {
    pub is_64: bool,
    pub little_endian: bool,
    pub machine: u16,
    pub entry: u64,
    pub segments: Seq<Segment>,
    pub sections: Seq<SectionView>,
}

impl View for ElfImage {
    type V = ElfImageView;

    open spec fn view(&self) -> ElfImageView {
        ElfImageView {
            is_64: self.is_64,
            little_endian: self.little_endian,
            machine: self.machine,
            entry: self.entry,
            segments: self.segments@,
            sections: self.sections@.map_values(|s: Section| s@),
        }
    }
}

/// `goblin::error::Error`, the error of the executable parser. Nothing is
/// read of it: every error makes the image malformed.
#[verifier::external_type_specification]
#[verifier::external_body]
pub struct ExGoblinError(goblin::error::Error);

/// What `goblin::elf::Elf::parse` makes of the given bytes on a 64-bit
/// machine: `None` where it returns an error; else, of the value it
/// returns, the fields `is_64`, `little_endian`, `header.e_machine` and
/// `entry`, of each program header its type, offset, virtual address and
/// two sizes, and of each section header its address and size, with the name
/// that `shdr_strtab.get_at` finds for it.
pub uninterp spec fn elf_parse(bytes: Seq<u8>) -> Option<ElfImageView>;

/// Calls `goblin::elf::Elf::parse` and carries over, field by field, what
/// loading reads of the result; section names are looked up with
/// `Strtab::get_at`. Nothing is claimed of the outcome but that it is a
/// function of the bytes, and that an error of the parser is an error here.
#[verifier::external_body]
fn parse_image(bytes: &[u8]) -> (r: Result<ElfImage, goblin::error::Error>)
    ensures
        match r {
            Ok(image) => elf_parse(bytes@) == Some(image@),
            Err(_) => elf_parse(bytes@).is_none(),
        },
{
    let elf = goblin::elf::Elf::parse(bytes)?;
    let segments = elf.program_headers.iter().map(
        |p| Segment { kind: p.p_type, offset: p.p_offset, vaddr: p.p_vaddr, file_size: p.p_filesz, mem_size: p.p_memsz },
    ).collect();
    let sections = elf.section_headers.iter().map(
        |s| Section { name: elf.shdr_strtab.get_at(s.sh_name).map(|n| n.as_bytes().to_vec()), addr: s.sh_addr, size: s.sh_size },
    ).collect();
    Ok(ElfImage { is_64: elf.is_64, little_endian: elf.little_endian, machine: elf.header.e_machine, entry: elf.entry, segments, sections })
}

/// Parses the image; an error of the parser becomes `Malformed`.
pub fn parse(bytes: &[u8]) -> (r: Result<ElfImage, LoadError>)
    ensures
        match r {
            Ok(image) => elf_parse(bytes@) == Some(image@),
            Err(e) => elf_parse(bytes@).is_none() && e == LoadError::Malformed,
        },
{
    match parse_image(bytes) {
        Ok(image) => Ok(image),
        Err(_) => Err(LoadError::Malformed),
    }
}

/// Where a loadable segment goes: the physical pages it occupies and the
/// bytes of the image that fill them.
#[derive(Clone, Copy, Debug, PartialEq, Eq, Structural)]
pub struct Placement {
    /// Virtual address the segment is linked at.
    pub vaddr: u64,
    /// Physical address the segment must be loaded at.
    pub phys_base: u64,
    /// Number of pages to allocate at `phys_base`.
    pub page_count: u64,
    /// Offset of the segment's bytes in the image.
    pub file_offset: u64,
    /// Number of bytes taken from the image.
    pub file_size: u64,
    /// Number of bytes the segment occupies in memory.
    pub mem_size: u64,
}

impl Placement {
    /// The placement can be carried out from an image of `image_len` bytes.
    pub open spec fn wf(self, image_len: int) -> bool {
        &&& self.vaddr >= KERNEL_VIRT_OFFSET
        &&& self.phys_base == self.vaddr - KERNEL_VIRT_OFFSET
        &&& self.file_size <= self.mem_size
        &&& self.file_offset + self.file_size <= image_len
        &&& self.vaddr + self.mem_size <= 0x1_0000_0000_0000_0000
        &&& self.page_count == (self.mem_size + 0xFFF) / 0x1000
    }

    /// The claim that records the pages of this placement.
    pub open spec fn claim(self) -> (usize, usize) {
        (self.phys_base as usize, (self.page_count * 0x1000) as usize)
    }

    /// Whether the `len` bytes at virtual address `vaddr` lie in the segment.
    pub open spec fn covers(self, vaddr: u64, len: int) -> bool {
        self.vaddr <= vaddr && vaddr + len <= self.vaddr + self.mem_size
    }
}

/// Memory contents of a placed segment: its bytes of the image, then zeros
/// up to its size in memory.
pub open spec fn loaded_bytes(p: Placement, image: Seq<u8>) -> Seq<u8> {
    image.subrange(p.file_offset as int, p.file_offset + p.file_size) + Seq::new(
        (p.mem_size - p.file_size) as nat,
        |i: int| 0u8,
    )
}

/// The first reason not to load a segment, if there is one.
pub open spec fn segment_error(seg: Segment, image_len: int) -> Option<LoadError> {
    if seg.vaddr < KERNEL_VIRT_OFFSET {
        Some(LoadError::SegmentNotHigherHalf)
    } else if seg.mem_size < seg.file_size {
        Some(LoadError::SegmentSizes)
    } else if seg.offset + seg.file_size > image_len {
        Some(LoadError::SegmentOutOfBounds)
    } else if seg.vaddr + seg.mem_size > 0x1_0000_0000_0000_0000 {
        Some(LoadError::SegmentTooLarge)
    } else {
        None
    }
}

/// The placement of a segment that has no `segment_error`.
pub open spec fn placement_of(seg: Segment) -> Placement {
    Placement {
        vaddr: seg.vaddr,
        phys_base: (seg.vaddr - KERNEL_VIRT_OFFSET) as u64,
        page_count: ((seg.mem_size + 0xFFF) / 0x1000) as u64,
        file_offset: seg.offset,
        file_size: seg.file_size,
        mem_size: seg.mem_size,
    }
}

/// The placements of the loadable segments, in the order of the program
/// headers, or the error of the first loadable segment that has one.
pub open spec fn plan_segments(segs: Seq<Segment>, image_len: int) -> Result<
    Seq<Placement>,
    LoadError,
>
    decreases segs.len(),
{
    if segs.len() == 0 {
        Ok(Seq::empty())
    } else {
        match plan_segments(segs.drop_last(), image_len) {
            Err(e) => Err(e),
            Ok(placed) => if segs.last().kind != PT_LOAD {
                Ok(placed)
            } else {
                match segment_error(segs.last(), image_len) {
                    Some(e) => Err(e),
                    None => Ok(placed.push(placement_of(segs.last()))),
                }
            },
        }
    }
}

/// Name of the section that holds the kernel's metadata: `.kaboom`.
pub open spec fn metadata_name() -> Seq<u8> {
    seq![0x2Eu8, 0x6Bu8, 0x61u8, 0x62u8, 0x6Fu8, 0x6Fu8, 0x6Du8]
}

/// Index of the first section named `name`, or the number of sections when
/// there is none.
pub open spec fn find_section(sections: Seq<SectionView>, name: Seq<u8>) -> int
    decreases sections.len(),
{
    if sections.len() == 0 {
        0
    } else if sections[0].name == Some(name) {
        0
    } else {
        1 + find_section(sections.drop_first(), name)
    }
}

/// Index of the first placement that covers the `len` bytes at `vaddr`, or
/// the number of placements when none does.
pub open spec fn find_covering(placed: Seq<Placement>, vaddr: u64, len: int) -> int
    decreases placed.len(),
{
    if placed.len() == 0 {
        0
    } else if placed[0].covers(vaddr, len) {
        0
    } else {
        1 + find_covering(placed.drop_first(), vaddr, len)
    }
}

/// The number that eight bytes spell, least significant byte first.
pub open spec fn le_u64(bytes: Seq<u8>) -> int
    recommends
        bytes.len() == 8,
{
    bytes[0] + bytes[1] * 0x100 + bytes[2] * 0x1_0000 + bytes[3] * 0x100_0000 + bytes[4]
        * 0x1_0000_0000 + bytes[5] * 0x100_0000_0000 + bytes[6] * 0x1_0000_0000_0000 + bytes[7]
        * 0x100_0000_0000_0000
}

/// The eight bytes that a placed segment holds at virtual address `vaddr`.
pub open spec fn loaded_word(p: Placement, image: Seq<u8>, vaddr: u64) -> Seq<u8>
    recommends
        p.covers(vaddr, 8),
{
    loaded_bytes(p, image).subrange(vaddr - p.vaddr, vaddr - p.vaddr + 8)
}

/// The stack pointer that the metadata section asks for: the first eight
/// bytes of the section, read from the loaded image. It must not be null,
/// and its upper seventeen bits must be set, as in every address of the
/// higher half.
pub open spec fn requested_stack(
    sections: Seq<SectionView>,
    placed: Seq<Placement>,
    image: Seq<u8>,
) -> Result<u64, LoadError> {
    let s = find_section(sections, metadata_name());
    if s >= sections.len() {
        Err(LoadError::NoMetadataSection)
    } else if sections[s].size < 8 {
        Err(LoadError::CorruptMetadata)
    } else {
        let c = find_covering(placed, sections[s].addr, 8);
        if c >= placed.len() {
            Err(LoadError::CorruptMetadata)
        } else {
            let stack = le_u64(loaded_word(placed[c], image, sections[s].addr));
            if stack == 0 {
                Err(LoadError::NullStackPointer)
            } else if stack < PHYS_VIRT_OFFSET {
                Err(LoadError::NonCanonicalStackPointer)
            } else {
                Ok(stack as u64)
            }
        }
    }
}

/// A loaded image: where control enters it, the stack it asks for, and where
/// each of its loadable segments goes.
#[derive(Debug)]
pub struct LoadedImage {
    pub entry: u64,
    pub stack: u64,
    pub segments: Vec<Placement>,
}

/// Mathematical model of a `LoadedImage`.
pub ghost struct LoadedImageView {
    pub entry: u64,
    pub stack: u64,
    pub segments: Seq<Placement>,
}

impl View for LoadedImage {
    type V = LoadedImageView;

    open spec fn view(&self) -> LoadedImageView {
        LoadedImageView { entry: self.entry, stack: self.stack, segments: self.segments@ }
    }
}

/// What loading makes of a parsed image and its bytes. The checks come in a
/// fixed order, and the first that fails decides the error.
pub open spec fn plan_image(parsed: ElfImageView, image: Seq<u8>) -> Result<
    LoadedImageView,
    LoadError,
> {
    if !parsed.is_64 {
        Err(LoadError::Not64Bit)
    } else if parsed.machine != EM_X86_64 {
        Err(LoadError::WrongMachine)
    } else if !parsed.little_endian {
        Err(LoadError::NotLittleEndian)
    } else if parsed.entry < KERNEL_VIRT_OFFSET {
        Err(LoadError::EntryNotHigherHalf)
    } else {
        match plan_segments(parsed.segments, image.len() as int) {
            Err(e) => Err(e),
            Ok(placed) => match requested_stack(parsed.sections, placed, image) {
                Err(e) => Err(e),
                Ok(stack) => Ok(
                    LoadedImageView { entry: parsed.entry, stack: stack, segments: placed },
                ),
            },
        }
    }
}

/// The claims that record the given placements, in their order.
pub open spec fn claims_of(placed: Seq<Placement>) -> Seq<(usize, usize)> {
    Seq::new(placed.len(), |i: int| placed[i].claim())
}

/// The model of a loading result.
pub open spec fn outcome_view(r: Result<LoadedImage, LoadError>) -> Result<
    LoadedImageView,
    LoadError,
> {
    match r {
        Ok(loaded) => Ok(loaded@),
        Err(e) => Err(e),
    }
}

/// Places the loadable segments of the image.
fn place_segments(segs: &Vec<Segment>, image_len: usize) -> (r: Result<Vec<Placement>, LoadError>)
    ensures
        match r {
            Ok(placed) => plan_segments(segs@, image_len as int) == Ok::<
                Seq<Placement>,
                LoadError,
            >(placed@),
            Err(e) => plan_segments(segs@, image_len as int) == Err::<Seq<Placement>, LoadError>(e),
        },
{
    let mut placed: Vec<Placement> = Vec::new();
    let mut i: usize = 0;
    while i < segs.len()
        invariant
            i <= segs@.len(),
            plan_segments(segs@.subrange(0, i as int), image_len as int) == Ok::<
                Seq<Placement>,
                LoadError,
            >(placed@),
        decreases segs@.len() - i,
    {
        let seg = segs[i];
        proof {
            let prefix = segs@.subrange(0, i + 1);
            assert(prefix.drop_last() =~= segs@.subrange(0, i as int));
            assert(prefix.last() == seg);
        }
        if seg.kind == PT_LOAD {
            if seg.vaddr < KERNEL_VIRT_OFFSET {
                proof {
                    lemma_plan_error_stays(segs@, i + 1, image_len as int);
                }
                return Err(LoadError::SegmentNotHigherHalf);
            }
            if seg.mem_size < seg.file_size {
                proof {
                    lemma_plan_error_stays(segs@, i + 1, image_len as int);
                }
                return Err(LoadError::SegmentSizes);
            }
            if seg.offset as u128 + seg.file_size as u128 > image_len as u128 {
                proof {
                    lemma_plan_error_stays(segs@, i + 1, image_len as int);
                }
                return Err(LoadError::SegmentOutOfBounds);
            }
            if seg.vaddr as u128 + seg.mem_size as u128 > 0x1_0000_0000_0000_0000u128 {
                proof {
                    lemma_plan_error_stays(segs@, i + 1, image_len as int);
                }
                return Err(LoadError::SegmentTooLarge);
            }
            placed.push(
                Placement {
                    vaddr: seg.vaddr,
                    phys_base: seg.vaddr - KERNEL_VIRT_OFFSET,
                    page_count: (seg.mem_size + 0xFFF) / 0x1000,
                    file_offset: seg.offset,
                    file_size: seg.file_size,
                    mem_size: seg.mem_size,
                },
            );
        }
        i += 1;
    }
    assert(segs@.subrange(0, i as int) =~= segs@);
    Ok(placed)
}

/// An error among the first `n` segments is the error of the whole list.
proof fn lemma_plan_error_stays(segs: Seq<Segment>, n: int, image_len: int)
    requires
        0 <= n <= segs.len(),
        plan_segments(segs.subrange(0, n), image_len) is Err,
    ensures
        plan_segments(segs, image_len) == plan_segments(segs.subrange(0, n), image_len),
    decreases segs.len() - n,
{
    if n < segs.len() {
        let longer = segs.subrange(0, n + 1);
        assert(longer.drop_last() =~= segs.subrange(0, n));
        lemma_plan_error_stays(segs, n + 1, image_len);
    } else {
        assert(segs.subrange(0, n) =~= segs);
    }
}

/// Whether a section name is that of the metadata section.
fn is_metadata_name(name: &Option<Vec<u8>>) -> (r: bool)
    ensures
        r == match *name {
            Some(n) => n@ == metadata_name(),
            None => false,
        },
{
    match name {
        Some(n) => {
            let same = n.len() == 7 && n[0] == 0x2E && n[1] == 0x6B && n[2] == 0x61 && n[3] == 0x62
                && n[4] == 0x6F && n[5] == 0x6F && n[6] == 0x6D;
            proof {
                if same {
                    assert(n@ =~= metadata_name());
                }
            }
            same
        },
        None => false,
    }
}

/// Finds the metadata section.
fn find_metadata(sections: &Vec<Section>) -> (r: usize)
    ensures
        r == find_section(sections@.map_values(|s: Section| s@), metadata_name()),
        r <= sections@.len(),
{
    let ghost views = sections@.map_values(|s: Section| s@);
    let mut i: usize = 0;
    assert(views.subrange(0, views.len() as int) =~= views);
    while i < sections.len()
        invariant
            i <= sections@.len(),
            views == sections@.map_values(|s: Section| s@),
            find_section(views, metadata_name()) == i + find_section(
                views.subrange(i as int, views.len() as int),
                metadata_name(),
            ),
        decreases sections@.len() - i,
    {
        let ghost tail = views.subrange(i as int, views.len() as int);
        assert(tail[0] == sections@[i as int]@);
        assert(tail.drop_first() =~= views.subrange(i + 1, views.len() as int));
        if is_metadata_name(&sections[i].name) {
            assert(tail[0].name == Some(metadata_name()));
            return i;
        }
        assert(tail[0].name != Some(metadata_name()));
        i += 1;
    }
    assert(views.subrange(i as int, views.len() as int).len() == 0);
    i
}

/// Finds the placement that holds the eight bytes at `vaddr`.
fn find_placement(placed: &Vec<Placement>, vaddr: u64) -> (r: usize)
    ensures
        r == find_covering(placed@, vaddr, 8),
        r <= placed@.len(),
        r < placed@.len() ==> placed@[r as int].covers(vaddr, 8),
{
    let mut i: usize = 0;
    assert(placed@.subrange(0, placed@.len() as int) =~= placed@);
    while i < placed.len()
        invariant
            i <= placed@.len(),
            find_covering(placed@, vaddr, 8) == i + find_covering(
                placed@.subrange(i as int, placed@.len() as int),
                vaddr,
                8,
            ),
        decreases placed@.len() - i,
    {
        let ghost tail = placed@.subrange(i as int, placed@.len() as int);
        assert(tail[0] == placed@[i as int]);
        assert(tail.drop_first() =~= placed@.subrange(i + 1, placed@.len() as int));
        let p = placed[i];
        if p.vaddr <= vaddr && vaddr as u128 + 8 <= p.vaddr as u128 + p.mem_size as u128 {
            return i;
        }
        i += 1;
    }
    assert(placed@.subrange(i as int, placed@.len() as int).len() == 0);
    i
}

/// The byte that a placed segment holds at offset `at`.
fn loaded_byte(p: &Placement, image: &[u8], at: u64) -> (b: u8)
    requires
        p.wf(image@.len() as int),
        at < p.mem_size,
    ensures
        b == loaded_bytes(*p, image@)[at as int],
{
    let len = image.len();
    if at < p.file_size {
        image[(p.file_offset + at) as usize]
    } else {
        0
    }
}

/// Reads the eight bytes that a placed segment holds at `vaddr` as a number.
fn read_word(p: &Placement, image: &[u8], vaddr: u64) -> (word: u64)
    requires
        p.wf(image@.len() as int),
        p.covers(vaddr, 8),
    ensures
        word == le_u64(loaded_word(*p, image@, vaddr)),
{
    let at = vaddr - p.vaddr;
    let b0 = loaded_byte(p, image, at);
    let b1 = loaded_byte(p, image, at + 1);
    let b2 = loaded_byte(p, image, at + 2);
    let b3 = loaded_byte(p, image, at + 3);
    let b4 = loaded_byte(p, image, at + 4);
    let b5 = loaded_byte(p, image, at + 5);
    let b6 = loaded_byte(p, image, at + 6);
    let b7 = loaded_byte(p, image, at + 7);
    b0 as u64 + b1 as u64 * 0x100 + b2 as u64 * 0x1_0000 + b3 as u64 * 0x100_0000 + b4 as u64
        * 0x1_0000_0000 + b5 as u64 * 0x100_0000_0000 + b6 as u64 * 0x1_0000_0000_0000 + b7 as u64
        * 0x100_0000_0000_0000
}

/// Every placement of a plan can be carried out, lies in the higher half
/// and is at least as large in memory as in the file.
pub proof fn lemma_plan_is_sound(segs: Seq<Segment>, image_len: int)
    requires
        plan_segments(segs, image_len) is Ok,
    ensures
        forall|k: int|
            0 <= k < plan_segments(segs, image_len)->Ok_0.len() ==> {
                let p = #[trigger] plan_segments(segs, image_len)->Ok_0[k];
                &&& p.wf(image_len)
                &&& p.vaddr >= KERNEL_VIRT_OFFSET
                &&& p.mem_size >= p.file_size
            },
        plan_segments(segs, image_len)->Ok_0.len() <= segs.len(),
    decreases segs.len(),
{
    if segs.len() > 0 {
        lemma_plan_is_sound(segs.drop_last(), image_len);
    }
}

/// An image with a loadable segment below the higher-half split has no
/// plan: it is rejected as a whole, and nothing of it is placed.
pub proof fn lemma_low_segment_is_rejected(segs: Seq<Segment>, image_len: int, k: int)
    requires
        0 <= k < segs.len(),
        segs[k].kind == PT_LOAD,
        segs[k].vaddr < KERNEL_VIRT_OFFSET,
    ensures
        plan_segments(segs, image_len) is Err,
    decreases segs.len(),
{
    if k < segs.len() - 1 {
        lemma_low_segment_is_rejected(segs.drop_last(), image_len, k);
    }
}

/// After loading, the bytes of a segment past its file size are zero, and
/// those before are the bytes of the image.
pub proof fn lemma_loaded_tail_is_zero(p: Placement, image: Seq<u8>)
    requires
        p.wf(image.len() as int),
    ensures
        loaded_bytes(p, image).len() == p.mem_size,
        forall|i: int| 0 <= i < p.file_size ==> loaded_bytes(p, image)[i] == image[p.file_offset + i],
        forall|i: int| p.file_size <= i < p.mem_size ==> loaded_bytes(p, image)[i] == 0,
{
}

/// Validates a parsed image against its bytes, places its loadable segments
/// and records their pages as claimed. On an error nothing is claimed.
pub fn load_image(mem_mgr: &mut MemoryManager, parsed: &ElfImage, image: &[u8]) -> (r: Result<
    LoadedImage,
    LoadError,
>)
    ensures
        outcome_view(r) == plan_image(parsed@, image@),
        match r {
            Ok(loaded) => final(mem_mgr)@ == old(mem_mgr)@ + claims_of(loaded.segments@),
            Err(_) => final(mem_mgr)@ == old(mem_mgr)@,
        },
        r matches Ok(loaded) ==> forall|k: int|
            0 <= k < loaded.segments@.len() ==> (#[trigger] loaded.segments@[k]).wf(
                image@.len() as int,
            ),
{
    if !parsed.is_64 {
        return Err(LoadError::Not64Bit);
    }
    if parsed.machine != EM_X86_64 {
        return Err(LoadError::WrongMachine);
    }
    if !parsed.little_endian {
        return Err(LoadError::NotLittleEndian);
    }
    if parsed.entry < KERNEL_VIRT_OFFSET {
        return Err(LoadError::EntryNotHigherHalf);
    }
    let placed = match place_segments(&parsed.segments, image.len()) {
        Ok(placed) => placed,
        Err(e) => {
            return Err(e);
        },
    };
    proof {
        lemma_plan_is_sound(parsed@.segments, image@.len() as int);
    }
    let s = find_metadata(&parsed.sections);
    if s >= parsed.sections.len() {
        return Err(LoadError::NoMetadataSection);
    }
    let section = &parsed.sections[s];
    assert(parsed@.sections[s as int] == section@);
    if section.size < 8 {
        return Err(LoadError::CorruptMetadata);
    }
    let c = find_placement(&placed, section.addr);
    if c >= placed.len() {
        return Err(LoadError::CorruptMetadata);
    }
    let stack = read_word(&placed[c], image, section.addr);
    if stack == 0 {
        return Err(LoadError::NullStackPointer);
    }
    if stack < PHYS_VIRT_OFFSET {
        return Err(LoadError::NonCanonicalStackPointer);
    }
    let mut i: usize = 0;
    while i < placed.len()
        invariant
            i <= placed@.len(),
            forall|k: int| 0 <= k < placed@.len() ==> (#[trigger] placed@[k]).wf(image@.len() as int),
            mem_mgr@ == old(mem_mgr)@ + claims_of(placed@.subrange(0, i as int)),
        decreases placed@.len() - i,
    {
        let p = placed[i];
        assert(p.wf(image@.len() as int));
        mem_mgr.allocate((p.phys_base as usize, (p.page_count * 0x1000) as usize));
        assert(claims_of(placed@.subrange(0, i + 1)) =~= claims_of(
            placed@.subrange(0, i as int),
        ).push(p.claim()));
        i += 1;
    }
    assert(placed@.subrange(0, i as int) =~= placed@);
    Ok(LoadedImage { entry: parsed.entry, stack, segments: placed })
}

/// Parses, validates and places the kernel image, and records the pages of
/// its segments as claimed.
pub fn parse_elf(mem_mgr: &mut MemoryManager, buffer: &[u8]) -> (r: Result<LoadedImage, LoadError>)
    ensures
        outcome_view(r) == match elf_parse(buffer@) {
            Some(parsed) => plan_image(parsed, buffer@),
            None => Err(LoadError::Malformed),
        },
        match r {
            Ok(loaded) => final(mem_mgr)@ == old(mem_mgr)@ + claims_of(loaded.segments@),
            Err(_) => final(mem_mgr)@ == old(mem_mgr)@,
        },
        r matches Ok(loaded) ==> forall|k: int|
            0 <= k < loaded.segments@.len() ==> (#[trigger] loaded.segments@[k]).wf(
                buffer@.len() as int,
            ),
{
    match parse(buffer) {
        Ok(parsed) => load_image(mem_mgr, &parsed, buffer),
        Err(e) => Err(e),
    }
}

/// Fills the memory of a placed segment: the segment's bytes of the image,
/// then zeros to the end.
pub fn load_segment(dest: &mut [u8], image: &[u8], p: &Placement)
    requires
        p.wf(image@.len() as int),
        old(dest)@.len() == p.mem_size,
    ensures
        final(dest)@ == loaded_bytes(*p, image@),
        forall|i: int| p.file_size <= i < p.mem_size ==> final(dest)@[i] == 0,
{
    let n = dest.len();
    let mut i: usize = 0;
    while i < n
        invariant
            n == dest@.len(),
            n == p.mem_size,
            i <= n,
            p.wf(image@.len() as int),
            forall|k: int| 0 <= k < i ==> dest@[k] == loaded_bytes(*p, image@)[k],
        decreases n - i,
    {
        let b = loaded_byte(p, image, i as u64);
        dest[i] = b;
        i += 1;
    }
    assert(dest@ =~= loaded_bytes(*p, image@));
}

} // verus!
