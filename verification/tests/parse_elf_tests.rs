use stage2_loader::mem::MemoryManager;
use stage2_loader::parse_elf::{
    load_image, load_segment, parse, parse_elf, ElfImage, LoadError, Placement, Section,
    Segment, EM_X86_64, PT_LOAD,
};

const TEXT_VADDR: u64 = 0xFFFF_FFFF_8010_0000;
const BSS_VADDR: u64 = 0xFFFF_FFFF_8010_3000;
const ENTRY: u64 = 0xFFFF_FFFF_8010_0040;
const STACK: u64 = 0xFFFF_FFFF_8020_0000;
const META_OFFSET: u64 = 0x100;

fn put16(out: &mut Vec<u8>, v: u16) {
    out.extend_from_slice(&v.to_le_bytes());
}

fn put32(out: &mut Vec<u8>, v: u32) {
    out.extend_from_slice(&v.to_le_bytes());
}

fn put64(out: &mut Vec<u8>, v: u64) {
    out.extend_from_slice(&v.to_le_bytes());
}

fn program_header(out: &mut Vec<u8>, kind: u32, offset: u64, vaddr: u64, filesz: u64, memsz: u64) {
    put32(out, kind);
    put32(out, 7);
    put64(out, offset);
    put64(out, vaddr);
    put64(out, vaddr);
    put64(out, filesz);
    put64(out, memsz);
    put64(out, 0x1000);
}

fn section_header(out: &mut Vec<u8>, name: u32, kind: u32, addr: u64, offset: u64, size: u64) {
    put32(out, name);
    put32(out, kind);
    put64(out, 0);
    put64(out, addr);
    put64(out, offset);
    put64(out, size);
    put32(out, 0);
    put32(out, 0);
    put64(out, 1);
    put64(out, 0);
}

/// A two-segment image: 0x2000 bytes of text in 0x3000 bytes of memory, and
/// a segment of 0x1000 bytes that has no bytes in the file.
fn kernel_image(class: u8, data: u8, machine: u16, entry: u64, stack: u64, with_meta: bool) -> Vec<u8> {
    let strtab: &[u8] = b"\0.text\0.kaboom\0.shstrtab\0";
    let mut out = Vec::new();
    out.extend_from_slice(&[0x7F, b'E', b'L', b'F', class, data, 1, 0, 0, 0, 0, 0, 0, 0, 0, 0]);
    put16(&mut out, 2);
    put16(&mut out, machine);
    put32(&mut out, 1);
    put64(&mut out, entry);
    put64(&mut out, 64);
    put64(&mut out, 0x3100);
    put32(&mut out, 0);
    put16(&mut out, 64);
    put16(&mut out, 56);
    put16(&mut out, 2);
    put16(&mut out, 64);
    put16(&mut out, 4);
    put16(&mut out, 3);
    assert_eq!(out.len(), 64);
    program_header(&mut out, 1, 0x1000, TEXT_VADDR, 0x2000, 0x3000);
    program_header(&mut out, 1, 0x3000, BSS_VADDR, 0, 0x1000);
    out.resize(0x1000, 0);
    for i in 0..0x2000u32 {
        out.push((i % 251) as u8 + 1);
    }
    let at = 0x1000 + META_OFFSET as usize;
    out[at..at + 8].copy_from_slice(&stack.to_le_bytes());
    assert_eq!(out.len(), 0x3000);
    out.extend_from_slice(strtab);
    out.resize(0x3100, 0);
    section_header(&mut out, 0, 0, 0, 0, 0);
    section_header(&mut out, 1, 1, TEXT_VADDR, 0x1000, 0x100);
    let meta_name = if with_meta { 7 } else { 1 };
    section_header(&mut out, meta_name, 1, TEXT_VADDR + META_OFFSET, 0x1100, 8);
    section_header(&mut out, 15, 3, 0, 0x3000, strtab.len() as u64);
    out
}

fn good_image() -> Vec<u8> {
    kernel_image(2, 1, 62, ENTRY, STACK, true)
}

fn parsed(segments: Vec<Segment>, sections: Vec<Section>) -> ElfImage {
    ElfImage { is_64: true, little_endian: true, machine: EM_X86_64, entry: ENTRY, segments, sections }
}

fn meta_section(addr: u64, size: u64) -> Section {
    Section { name: Some(b".kaboom".to_vec()), addr, size }
}

fn text_segment() -> Segment {
    Segment { kind: PT_LOAD, offset: 0, vaddr: TEXT_VADDR, file_size: 0x10, mem_size: 0x20 }
}

fn small_bytes() -> Vec<u8> {
    let mut bytes = vec![0u8; 0x10];
    bytes[0..8].copy_from_slice(&STACK.to_le_bytes());
    bytes
}

#[test]
fn two_segment_image_is_placed_at_its_physical_addresses() {
    let image = good_image();
    let mut mgr = MemoryManager::new();
    let loaded = parse_elf(&mut mgr, &image).unwrap();
    assert_eq!(loaded.entry, 0xFFFF_FFFF_8010_0040);
    assert_eq!(loaded.stack, STACK);
    assert_eq!(loaded.segments.len(), 2);
    assert_eq!(
        loaded.segments[0],
        Placement {
            vaddr: TEXT_VADDR,
            phys_base: 0x100000,
            page_count: 3,
            file_offset: 0x1000,
            file_size: 0x2000,
            mem_size: 0x3000,
        }
    );
    assert_eq!(
        loaded.segments[1],
        Placement {
            vaddr: BSS_VADDR,
            phys_base: 0x103000,
            page_count: 1,
            file_offset: 0x3000,
            file_size: 0,
            mem_size: 0x1000,
        }
    );
    assert_eq!(mgr.len(), 2);
    assert_eq!(mgr.get(0), (0x100000, 0x3000));
    assert_eq!(mgr.get(1), (0x103000, 0x1000));
}

#[test]
fn parser_reads_headers_segments_and_section_names() {
    let image = good_image();
    let parsed = parse(&image).unwrap();
    assert!(parsed.is_64);
    assert!(parsed.little_endian);
    assert_eq!(parsed.machine, 62);
    assert_eq!(parsed.entry, ENTRY);
    assert_eq!(parsed.segments.len(), 2);
    assert_eq!(
        parsed.segments[0],
        Segment { kind: 1, offset: 0x1000, vaddr: TEXT_VADDR, file_size: 0x2000, mem_size: 0x3000 }
    );
    assert_eq!(parsed.sections.len(), 4);
    assert_eq!(parsed.sections[1].name, Some(b".text".to_vec()));
    assert_eq!(parsed.sections[2].name, Some(b".kaboom".to_vec()));
    assert_eq!(parsed.sections[2].addr, TEXT_VADDR + META_OFFSET);
    assert_eq!(parsed.sections[2].size, 8);
    assert_eq!(parsed.sections[3].name, Some(b".shstrtab".to_vec()));
}

#[test]
fn garbage_is_malformed() {
    let mut mgr = MemoryManager::new();
    assert_eq!(parse_elf(&mut mgr, b"not an executable").unwrap_err(), LoadError::Malformed);
    assert_eq!(parse_elf(&mut mgr, &[]).unwrap_err(), LoadError::Malformed);
    assert_eq!(mgr.len(), 0);
}

#[test]
fn thirty_two_bit_image_is_rejected() {
    let mut image = parsed(vec![text_segment()], vec![meta_section(TEXT_VADDR, 8)]);
    image.is_64 = false;
    let mut mgr = MemoryManager::new();
    assert_eq!(load_image(&mut mgr, &image, &small_bytes()).unwrap_err(), LoadError::Not64Bit);
    assert_eq!(mgr.len(), 0);
}

#[test]
fn other_machine_is_rejected() {
    let image = kernel_image(2, 1, 183, ENTRY, STACK, true);
    let mut mgr = MemoryManager::new();
    assert_eq!(parse_elf(&mut mgr, &image).unwrap_err(), LoadError::WrongMachine);
    assert_eq!(mgr.len(), 0);
}

#[test]
fn big_endian_image_is_rejected() {
    let mut image = parsed(vec![text_segment()], vec![meta_section(TEXT_VADDR, 8)]);
    image.little_endian = false;
    let mut mgr = MemoryManager::new();
    assert_eq!(
        load_image(&mut mgr, &image, &small_bytes()).unwrap_err(),
        LoadError::NotLittleEndian
    );
}

#[test]
fn checks_come_in_order() {
    let mut image = parsed(vec![text_segment()], vec![]);
    image.is_64 = false;
    image.machine = 3;
    image.little_endian = false;
    image.entry = 0;
    let mut mgr = MemoryManager::new();
    assert_eq!(load_image(&mut mgr, &image, &small_bytes()).unwrap_err(), LoadError::Not64Bit);
    image.is_64 = true;
    assert_eq!(load_image(&mut mgr, &image, &small_bytes()).unwrap_err(), LoadError::WrongMachine);
    image.machine = EM_X86_64;
    assert_eq!(
        load_image(&mut mgr, &image, &small_bytes()).unwrap_err(),
        LoadError::NotLittleEndian
    );
    image.little_endian = true;
    assert_eq!(
        load_image(&mut mgr, &image, &small_bytes()).unwrap_err(),
        LoadError::EntryNotHigherHalf
    );
    image.entry = ENTRY;
    assert_eq!(
        load_image(&mut mgr, &image, &small_bytes()).unwrap_err(),
        LoadError::NoMetadataSection
    );
}

#[test]
fn low_entry_point_is_rejected() {
    let image = kernel_image(2, 1, 62, 0x0010_0040, STACK, true);
    let mut mgr = MemoryManager::new();
    assert_eq!(parse_elf(&mut mgr, &image).unwrap_err(), LoadError::EntryNotHigherHalf);
    let image = kernel_image(2, 1, 62, 0xFFFF_FFFF_7FFF_FFFF, STACK, true);
    assert_eq!(parse_elf(&mut mgr, &image).unwrap_err(), LoadError::EntryNotHigherHalf);
    let image = kernel_image(2, 1, 62, 0xFFFF_FFFF_8000_0000, STACK, true);
    assert!(parse_elf(&mut mgr, &image).is_ok());
}

#[test]
fn low_segment_is_rejected_and_nothing_is_claimed() {
    let low = Segment { kind: PT_LOAD, offset: 0, vaddr: 0x10_0000, file_size: 0, mem_size: 0x1000 };
    let image = parsed(vec![text_segment(), low], vec![meta_section(TEXT_VADDR, 8)]);
    let mut mgr = MemoryManager::new();
    mgr.allocate((0x5000, 0x1000));
    assert_eq!(
        load_image(&mut mgr, &image, &small_bytes()).unwrap_err(),
        LoadError::SegmentNotHigherHalf
    );
    assert_eq!(mgr.len(), 1);
    assert_eq!(mgr.get(0), (0x5000, 0x1000));
}

#[test]
fn segment_just_below_the_split_is_rejected() {
    let low = Segment {
        kind: PT_LOAD,
        offset: 0,
        vaddr: 0xFFFF_FFFF_7FFF_F000,
        file_size: 0,
        mem_size: 0x1000,
    };
    let image = parsed(vec![low], vec![meta_section(TEXT_VADDR, 8)]);
    let mut mgr = MemoryManager::new();
    assert_eq!(
        load_image(&mut mgr, &image, &small_bytes()).unwrap_err(),
        LoadError::SegmentNotHigherHalf
    );
}

#[test]
fn segments_that_are_not_loadable_are_skipped() {
    let note = Segment { kind: 4, offset: 0x9999, vaddr: 0, file_size: 0x9999, mem_size: 1 };
    let image = parsed(vec![note, text_segment()], vec![meta_section(TEXT_VADDR, 8)]);
    let mut mgr = MemoryManager::new();
    let loaded = load_image(&mut mgr, &image, &small_bytes()).unwrap();
    assert_eq!(loaded.segments.len(), 1);
    assert_eq!(loaded.segments[0].phys_base, 0x100000);
    assert_eq!(loaded.segments[0].page_count, 1);
    assert_eq!(mgr.len(), 1);
    assert_eq!(mgr.get(0), (0x100000, 0x1000));
}

#[test]
fn segment_larger_in_file_than_in_memory_is_rejected() {
    let seg = Segment { kind: PT_LOAD, offset: 0, vaddr: TEXT_VADDR, file_size: 0x10, mem_size: 0xF };
    let image = parsed(vec![seg], vec![meta_section(TEXT_VADDR, 8)]);
    let mut mgr = MemoryManager::new();
    assert_eq!(load_image(&mut mgr, &image, &small_bytes()).unwrap_err(), LoadError::SegmentSizes);
}

#[test]
fn segment_past_the_end_of_the_file_is_rejected() {
    let seg = Segment { kind: PT_LOAD, offset: 1, vaddr: TEXT_VADDR, file_size: 0x10, mem_size: 0x10 };
    let image = parsed(vec![seg], vec![meta_section(TEXT_VADDR, 8)]);
    let mut mgr = MemoryManager::new();
    assert_eq!(
        load_image(&mut mgr, &image, &small_bytes()).unwrap_err(),
        LoadError::SegmentOutOfBounds
    );
    let seg = Segment {
        kind: PT_LOAD,
        offset: u64::MAX,
        vaddr: TEXT_VADDR,
        file_size: 2,
        mem_size: 2,
    };
    let image = parsed(vec![seg], vec![meta_section(TEXT_VADDR, 8)]);
    assert_eq!(
        load_image(&mut mgr, &image, &small_bytes()).unwrap_err(),
        LoadError::SegmentOutOfBounds
    );
}

#[test]
fn segment_past_the_end_of_the_address_space_is_rejected() {
    let seg = Segment {
        kind: PT_LOAD,
        offset: 0,
        vaddr: 0xFFFF_FFFF_FFFF_F000,
        file_size: 0,
        mem_size: 0x1001,
    };
    let image = parsed(vec![seg], vec![meta_section(TEXT_VADDR, 8)]);
    let mut mgr = MemoryManager::new();
    assert_eq!(
        load_image(&mut mgr, &image, &small_bytes()).unwrap_err(),
        LoadError::SegmentTooLarge
    );
    let seg = Segment { mem_size: 0x1000, ..seg };
    let image = parsed(vec![seg, text_segment()], vec![meta_section(TEXT_VADDR, 8)]);
    let loaded = load_image(&mut mgr, &image, &small_bytes()).unwrap();
    assert_eq!(loaded.segments[0].phys_base, 0x7FFF_F000);
}

#[test]
fn image_without_metadata_section_is_rejected() {
    let image = kernel_image(2, 1, 62, ENTRY, STACK, false);
    let mut mgr = MemoryManager::new();
    assert_eq!(parse_elf(&mut mgr, &image).unwrap_err(), LoadError::NoMetadataSection);
    assert_eq!(mgr.len(), 0);
}

#[test]
fn unnamed_section_is_not_the_metadata_section() {
    let unnamed = Section { name: None, addr: TEXT_VADDR, size: 8 };
    let longer = Section { name: Some(b".kaboom2".to_vec()), addr: TEXT_VADDR, size: 8 };
    let image = parsed(vec![text_segment()], vec![unnamed, longer]);
    let mut mgr = MemoryManager::new();
    assert_eq!(
        load_image(&mut mgr, &image, &small_bytes()).unwrap_err(),
        LoadError::NoMetadataSection
    );
}

#[test]
fn short_or_unloaded_metadata_is_corrupt() {
    let mut mgr = MemoryManager::new();
    let image = parsed(vec![text_segment()], vec![meta_section(TEXT_VADDR, 7)]);
    assert_eq!(
        load_image(&mut mgr, &image, &small_bytes()).unwrap_err(),
        LoadError::CorruptMetadata
    );
    let image = parsed(vec![text_segment()], vec![meta_section(TEXT_VADDR + 0x19, 8)]);
    assert_eq!(
        load_image(&mut mgr, &image, &small_bytes()).unwrap_err(),
        LoadError::CorruptMetadata
    );
    let image = parsed(vec![text_segment()], vec![meta_section(TEXT_VADDR - 1, 8)]);
    assert_eq!(
        load_image(&mut mgr, &image, &small_bytes()).unwrap_err(),
        LoadError::CorruptMetadata
    );
    assert_eq!(mgr.len(), 0);
}

#[test]
fn first_metadata_section_wins() {
    let mut bytes = small_bytes();
    bytes[8..16].copy_from_slice(&0xFFFF_9000_0000_0000u64.to_le_bytes());
    let image = parsed(
        vec![text_segment()],
        vec![meta_section(TEXT_VADDR + 8, 8), meta_section(TEXT_VADDR, 8)],
    );
    let mut mgr = MemoryManager::new();
    assert_eq!(load_image(&mut mgr, &image, &bytes).unwrap().stack, 0xFFFF_9000_0000_0000);
}

#[test]
fn stack_pointer_in_the_zero_filled_tail_is_null() {
    let image = parsed(vec![text_segment()], vec![meta_section(TEXT_VADDR + 0x10, 8)]);
    let mut mgr = MemoryManager::new();
    assert_eq!(
        load_image(&mut mgr, &image, &small_bytes()).unwrap_err(),
        LoadError::NullStackPointer
    );
}

#[test]
fn stack_pointer_straddling_file_bytes_and_tail_is_read_bytewise() {
    let mut bytes = vec![0u8; 0x10];
    bytes[0x0C..0x10].copy_from_slice(&[0xEF, 0xBE, 0xAD, 0xDE]);
    let image = parsed(vec![text_segment()], vec![meta_section(TEXT_VADDR + 0x0C, 8)]);
    let mut mgr = MemoryManager::new();
    assert_eq!(
        load_image(&mut mgr, &image, &bytes).unwrap_err(),
        LoadError::NonCanonicalStackPointer
    );
}

#[test]
fn null_stack_pointer_is_rejected() {
    let image = kernel_image(2, 1, 62, ENTRY, 0, true);
    let mut mgr = MemoryManager::new();
    assert_eq!(parse_elf(&mut mgr, &image).unwrap_err(), LoadError::NullStackPointer);
}

#[test]
fn low_stack_pointer_is_rejected() {
    let image = kernel_image(2, 1, 62, ENTRY, 0x0000_7FFF_FFFF_F000, true);
    let mut mgr = MemoryManager::new();
    assert_eq!(parse_elf(&mut mgr, &image).unwrap_err(), LoadError::NonCanonicalStackPointer);
    let image = kernel_image(2, 1, 62, ENTRY, 0xFFFF_7FFF_FFFF_FFFF, true);
    assert_eq!(parse_elf(&mut mgr, &image).unwrap_err(), LoadError::NonCanonicalStackPointer);
    let image = kernel_image(2, 1, 62, ENTRY, 0xFFFF_8000_0000_0000, true);
    assert_eq!(parse_elf(&mut mgr, &image).unwrap().stack, 0xFFFF_8000_0000_0000);
}

#[test]
fn stack_pointer_is_read_least_significant_byte_first() {
    let mut bytes = vec![0u8; 0x10];
    bytes[0..8].copy_from_slice(&[0x01, 0x02, 0x03, 0x04, 0x05, 0x80, 0xFF, 0xFF]);
    let image = parsed(vec![text_segment()], vec![meta_section(TEXT_VADDR, 8)]);
    let mut mgr = MemoryManager::new();
    assert_eq!(load_image(&mut mgr, &image, &bytes).unwrap().stack, 0xFFFF_8005_0403_0201);
}

#[test]
fn page_count_rounds_up() {
    for (mem_size, pages) in [(0u64, 0u64), (1, 1), (0x1000, 1), (0x1001, 2), (0x2FFF, 3)] {
        let seg = Segment { kind: PT_LOAD, offset: 0, vaddr: BSS_VADDR, file_size: 0, mem_size };
        let image = parsed(vec![text_segment(), seg], vec![meta_section(TEXT_VADDR, 8)]);
        let mut mgr = MemoryManager::new();
        let loaded = load_image(&mut mgr, &image, &small_bytes()).unwrap();
        assert_eq!(loaded.segments[1].page_count, pages);
        assert_eq!(mgr.get(1), (0x103000, (pages * 0x1000) as usize));
    }
}

#[test]
fn loaded_segment_is_file_bytes_then_zeros() {
    let image = good_image();
    let mut mgr = MemoryManager::new();
    let loaded = parse_elf(&mut mgr, &image).unwrap();
    let mut dest = vec![0xAAu8; 0x3000];
    load_segment(&mut dest, &image, &loaded.segments[0]);
    assert_eq!(&dest[..0x2000], &image[0x1000..0x3000]);
    assert!(dest[0x2000..].iter().all(|b| *b == 0));
    let mut bss = vec![0x55u8; 0x1000];
    load_segment(&mut bss, &image, &loaded.segments[1]);
    assert!(bss.iter().all(|b| *b == 0));
}

#[test]
fn loading_an_empty_segment_writes_nothing() {
    let p = Placement {
        vaddr: TEXT_VADDR,
        phys_base: 0x100000,
        page_count: 0,
        file_offset: 0,
        file_size: 0,
        mem_size: 0,
    };
    let mut dest: Vec<u8> = Vec::new();
    load_segment(&mut dest, &[1, 2, 3], &p);
    assert!(dest.is_empty());
}
