use stage2_loader::addr::{phys_to_kern_ref, PHYS_VIRT_OFFSET};
use stage2_loader::bootinfo::{
    assemble, BootInfoError, BootSources, Module, ModuleSource, PointerField, Region,
    SpecialisedSettings, Tag,
};
use stage2_loader::fb::{fbinfo_from_gop, FrameBufferInfo, GopPixelFormat, GraphicsMode};
use stage2_loader::mem::{
    FirmwareMemoryType, MemoryData, MemoryDescriptor, MemoryEntry, MemoryManager,
};
use stage2_loader::parse_elf::{load_image, ElfImage, Section, Segment, EM_X86_64, PT_LOAD};

fn frame_buffer() -> FrameBufferInfo {
    fbinfo_from_gop(&GraphicsMode {
        width: 800,
        height: 600,
        pixel_format: GopPixelFormat::Bgr,
        pixel_bitmask: None,
        stride: 800,
        frame_buffer: 0x8000_0000,
    })
    .unwrap()
}

fn claims() -> MemoryManager {
    let mut mgr = MemoryManager::new();
    mgr.allocate((0x10_0000, 0x4000));
    mgr.allocate((0x20_0000, 0x1000));
    mgr.allocate((0x30_0000, 0x2000));
    mgr.allocate((0x8000_0000, 800 * 600 * 4));
    mgr.allocate((0x7000, 36));
    mgr.allocate((0x40_0000, 0x100));
    mgr
}

fn sources() -> BootSources {
    BootSources {
        image: Some(Region { base: 0x10_0000, length: 0x4000 }),
        settings: SpecialisedSettings { verbose: true },
        frame_buffer: Some(frame_buffer()),
        rsdp: Some(phys_to_kern_ref(0x7000).unwrap()),
        memory_map_at: Region { base: 0x20_0000, length: 0x300 },
        memory_map: vec![
            MemoryEntry::Usable(MemoryData { base: 0, length: 0x1000 }),
            MemoryEntry::KernelOrModule(MemoryData { base: 0x10_0000, length: 0x4000 }),
        ],
        modules: vec![
            ModuleSource {
                name: Region { base: 0x40_0000, length: 9 },
                data: Region { base: 0x30_0000, length: 0x1800 },
            },
            ModuleSource {
                name: Region { base: 0x40_0010, length: 4 },
                data: Region { base: 0x30_1800, length: 0x800 },
            },
        ],
    }
}

/// The physical addresses behind every pointer of a tag.
fn tag_pointers(tag: &Tag) -> Vec<u64> {
    match tag {
        Tag::CommandLine(s) | Tag::MemoryMap(s) => vec![s.base.as_u64() - PHYS_VIRT_OFFSET],
        Tag::FrameBuffer(fb) => vec![fb.base.as_u64() - PHYS_VIRT_OFFSET],
        Tag::Acpi(a) => vec![a.as_u64() - PHYS_VIRT_OFFSET],
        Tag::SpecialisedSettings(_) => vec![],
        Tag::Module(Module::Audio(m)) => {
            vec![m.name.base.as_u64() - PHYS_VIRT_OFFSET, m.data.base.as_u64() - PHYS_VIRT_OFFSET]
        }
    }
}

#[test]
fn tags_come_in_the_fixed_order() {
    let info = assemble(&claims(), sources()).unwrap();
    assert_eq!(info.tags.len(), 6);
    assert_eq!(info.tags[0], Tag::SpecialisedSettings(SpecialisedSettings { verbose: true }));
    assert_eq!(info.tags[1], Tag::MemoryMap(info.memory_map_at));
    assert_eq!(info.tags[2], Tag::FrameBuffer(frame_buffer()));
    assert_eq!(info.tags[3], Tag::Acpi(phys_to_kern_ref(0x7000).unwrap()));
    assert_eq!(info.tags[4], Tag::Module(info.modules[0]));
    assert_eq!(info.tags[5], Tag::Module(info.modules[1]));
}

#[test]
fn regions_are_moved_into_the_kernel_domain() {
    let info = assemble(&claims(), sources()).unwrap();
    let image = info.kernel_image.unwrap();
    assert_eq!((image.base.as_u64(), image.len), (0xFFFF_8000_0010_0000, 0x4000));
    assert_eq!((info.memory_map_at.base.as_u64(), info.memory_map_at.len), (0xFFFF_8000_0020_0000, 2));
    assert_eq!(info.memory_map.len(), 2);
    assert_eq!(info.settings, SpecialisedSettings { verbose: true });
    assert_eq!(info.frame_buffer, Some(frame_buffer()));
    assert_eq!(info.acpi.unwrap().as_u64(), 0xFFFF_8000_0000_7000);
    assert_eq!(info.modules.len(), 2);
    let Module::Audio(first) = info.modules[0];
    assert_eq!((first.name.base.as_u64(), first.name.len), (0xFFFF_8000_0040_0000, 9));
    assert_eq!((first.data.base.as_u64(), first.data.len), (0xFFFF_8000_0030_0000, 0x1800));
    let Module::Audio(second) = info.modules[1];
    assert_eq!((second.name.base.to_phys(), second.name.len), (0x40_0010, 4));
    assert_eq!((second.data.base.to_phys(), second.data.len), (0x30_1800, 0x800));
}

#[test]
fn every_pointer_leads_into_a_claimed_region() {
    let mgr = claims();
    let info = assemble(&mgr, sources()).unwrap();
    let mut pointers = vec![
        info.kernel_image.unwrap().base.as_u64() - PHYS_VIRT_OFFSET,
        info.frame_buffer.unwrap().base.as_u64() - PHYS_VIRT_OFFSET,
        info.acpi.unwrap().as_u64() - PHYS_VIRT_OFFSET,
        info.memory_map_at.base.as_u64() - PHYS_VIRT_OFFSET,
    ];
    for tag in &info.tags {
        pointers.extend(tag_pointers(tag));
    }
    assert_eq!(pointers.len(), 4 + 1 + 1 + 1 + 4);
    for p in pointers {
        assert!(mgr.holds(p, 0), "{p:#x}");
    }
}

#[test]
fn optional_parts_can_be_left_out() {
    let mut s = sources();
    s.image = None;
    s.frame_buffer = None;
    s.rsdp = None;
    s.modules = Vec::new();
    s.memory_map = Vec::new();
    s.settings = SpecialisedSettings { verbose: false };
    let info = assemble(&claims(), s).unwrap();
    assert_eq!(info.kernel_image, None);
    assert_eq!(info.frame_buffer, None);
    assert_eq!(info.acpi, None);
    assert!(info.modules.is_empty());
    assert_eq!(info.memory_map_at.len, 0);
    assert_eq!(
        info.tags,
        vec![
            Tag::SpecialisedSettings(SpecialisedSettings { verbose: false }),
            Tag::MemoryMap(info.memory_map_at),
        ]
    );
}

#[test]
fn acpi_tag_follows_the_memory_map_when_there_is_no_framebuffer() {
    let mut s = sources();
    s.frame_buffer = None;
    let info = assemble(&claims(), s).unwrap();
    assert_eq!(info.tags.len(), 5);
    assert_eq!(info.tags[2], Tag::Acpi(phys_to_kern_ref(0x7000).unwrap()));
}

#[test]
fn unclaimed_pointers_are_named_in_order() {
    let empty = MemoryManager::new();
    assert_eq!(
        assemble(&empty, sources()).unwrap_err(),
        BootInfoError::Unclaimed(PointerField::KernelImage)
    );
    let mut mgr = MemoryManager::new();
    mgr.allocate((0x10_0000, 0x4000));
    assert_eq!(
        assemble(&mgr, sources()).unwrap_err(),
        BootInfoError::Unclaimed(PointerField::MemoryMap)
    );
    mgr.allocate((0x20_0000, 0x1000));
    assert_eq!(
        assemble(&mgr, sources()).unwrap_err(),
        BootInfoError::Unclaimed(PointerField::FrameBuffer)
    );
    mgr.allocate((0x8000_0000, 1));
    assert_eq!(
        assemble(&mgr, sources()).unwrap_err(),
        BootInfoError::Unclaimed(PointerField::Acpi)
    );
    mgr.allocate((0x7000, 1));
    assert_eq!(
        assemble(&mgr, sources()).unwrap_err(),
        BootInfoError::Unclaimed(PointerField::ModuleName)
    );
    mgr.allocate((0x40_0000, 0x10));
    assert_eq!(
        assemble(&mgr, sources()).unwrap_err(),
        BootInfoError::Unclaimed(PointerField::ModuleData)
    );
    mgr.allocate((0x30_0000, 0x1800));
    assert_eq!(
        assemble(&mgr, sources()).unwrap_err(),
        BootInfoError::Unclaimed(PointerField::ModuleName)
    );
    mgr.allocate((0x40_0010, 4));
    assert_eq!(
        assemble(&mgr, sources()).unwrap_err(),
        BootInfoError::Unclaimed(PointerField::ModuleData)
    );
    mgr.allocate((0x30_1800, 0x800));
    assert!(assemble(&mgr, sources()).is_ok());
}

#[test]
fn region_that_leaves_its_claim_is_unclaimed() {
    let mut s = sources();
    s.image = Some(Region { base: 0x10_0000, length: 0x4001 });
    assert_eq!(
        assemble(&claims(), s).unwrap_err(),
        BootInfoError::Unclaimed(PointerField::KernelImage)
    );
    let mut s = sources();
    s.memory_map_at = Region { base: 0x20_1000, length: 0 };
    assert_eq!(
        assemble(&claims(), s).unwrap_err(),
        BootInfoError::Unclaimed(PointerField::MemoryMap)
    );
}

#[test]
fn region_outside_the_direct_map_is_not_mappable() {
    let mut mgr = claims();
    mgr.allocate((0x7FFF_FFFF_F000, 0x2000));
    let mut s = sources();
    s.image = Some(Region { base: 0x7FFF_FFFF_F000, length: 0x1001 });
    assert_eq!(
        assemble(&mgr, s).unwrap_err(),
        BootInfoError::NotMappable(PointerField::KernelImage)
    );
    let mut s = sources();
    s.image = Some(Region { base: 0x7FFF_FFFF_F000, length: 0x1000 });
    assert!(assemble(&mgr, s).is_ok());
    let mut s = sources();
    s.modules[1].data = Region { base: 0x8000_0000_0000, length: 0 };
    assert_eq!(assemble(&mgr, s).unwrap_err(), BootInfoError::NotMappable(PointerField::ModuleData));
}

#[test]
fn loaded_kernel_ends_in_one_memory_map_tag_that_covers_the_firmware_map() {
    let parsed = ElfImage {
        is_64: true,
        little_endian: true,
        machine: EM_X86_64,
        entry: 0xFFFF_FFFF_8010_0040,
        segments: vec![
            Segment {
                kind: PT_LOAD,
                offset: 0,
                vaddr: 0xFFFF_FFFF_8010_0000,
                file_size: 0x2000,
                mem_size: 0x3000,
            },
            Segment {
                kind: PT_LOAD,
                offset: 0x2000,
                vaddr: 0xFFFF_FFFF_8010_3000,
                file_size: 0,
                mem_size: 0x1000,
            },
        ],
        sections: vec![Section {
            name: Some(b".kaboom".to_vec()),
            addr: 0xFFFF_FFFF_8010_0000,
            size: 8,
        }],
    };
    let mut image = vec![0u8; 0x2000];
    image[..8].copy_from_slice(&0xFFFF_FFFF_8020_0000u64.to_le_bytes());
    let mut mgr = MemoryManager::new();
    let loaded = load_image(&mut mgr, &parsed, &image).unwrap();
    assert_eq!(loaded.entry, 0xFFFF_FFFF_8010_0040);
    assert_eq!(loaded.segments[0].phys_base, 0x100000);
    assert_eq!(loaded.segments[1].phys_base, 0x103000);
    mgr.allocate((0x50_0000, 0x1000));

    let d = |base, pages, ty| MemoryDescriptor::new(base, pages, ty).unwrap();
    let firmware = vec![
        d(0, 0x100, FirmwareMemoryType::Conventional),
        d(0x10_0000, 3, FirmwareMemoryType::LoaderData),
        d(0x10_3000, 1, FirmwareMemoryType::LoaderData),
        d(0x10_4000, 0x20, FirmwareMemoryType::LoaderCode),
        d(0x50_0000, 1, FirmwareMemoryType::LoaderData),
        d(0x60_0000, 2, FirmwareMemoryType::AcpiReclaim),
        d(0x70_0000, 0x1000, FirmwareMemoryType::Conventional),
    ];
    let classified = mgr.translate_memory_map(&firmware);
    assert_eq!(classified[1], MemoryEntry::KernelOrModule(MemoryData { base: 0x10_0000, length: 0x3000 }));
    assert_eq!(classified[2], MemoryEntry::KernelOrModule(MemoryData { base: 0x10_3000, length: 0x1000 }));
    let info = assemble(
        &mgr,
        BootSources {
            image: None,
            settings: SpecialisedSettings { verbose: false },
            frame_buffer: None,
            rsdp: None,
            memory_map_at: Region { base: 0x50_0000, length: 0x1000 },
            memory_map: classified,
            modules: Vec::new(),
        },
    )
    .unwrap();
    let maps = info.tags.iter().filter(|t| matches!(t, Tag::MemoryMap(_))).count();
    assert_eq!(maps, 1);
    let total: u64 = info
        .memory_map
        .iter()
        .map(|e| match e {
            MemoryEntry::Usable(d)
            | MemoryEntry::BootLoaderReclaimable(d)
            | MemoryEntry::KernelOrModule(d)
            | MemoryEntry::ACPIReclaimable(d)
            | MemoryEntry::ACPINonVolatile(d) => d.length,
        })
        .sum();
    let pages: u64 = firmware.iter().map(|d| d.page_count).sum();
    assert_eq!(total, pages * 4096);
    assert_eq!(info.memory_map_at.len, 7);
}
