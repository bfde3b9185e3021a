use stage2_loader::mem::{
    FirmwareMemoryType, MemoryData, MemoryDescriptor, MemoryEntry, MemoryManager,
};

fn desc(base: u64, pages: u64, ty: FirmwareMemoryType) -> MemoryDescriptor {
    MemoryDescriptor::new(base, pages, ty).unwrap()
}

fn data(base: u64, length: u64) -> MemoryData {
    MemoryData { base, length }
}

#[test]
fn conventional_memory_is_usable() {
    let mgr = MemoryManager::new();
    let d = desc(0x1000, 4, FirmwareMemoryType::Conventional);
    assert_eq!(mgr.mem_type_from_desc(&d), Some(MemoryEntry::Usable(data(0x1000, 0x4000))));
}

#[test]
fn each_firmware_type_has_its_classification() {
    let mgr = MemoryManager::new();
    let d = |ty| desc(0x20_0000, 2, ty);
    assert_eq!(
        mgr.mem_type_from_desc(&d(FirmwareMemoryType::LoaderCode)),
        Some(MemoryEntry::BootLoaderReclaimable(data(0x20_0000, 0x2000)))
    );
    assert_eq!(
        mgr.mem_type_from_desc(&d(FirmwareMemoryType::LoaderData)),
        Some(MemoryEntry::BootLoaderReclaimable(data(0x20_0000, 0x2000)))
    );
    assert_eq!(
        mgr.mem_type_from_desc(&d(FirmwareMemoryType::AcpiReclaim)),
        Some(MemoryEntry::ACPIReclaimable(data(0x20_0000, 0x2000)))
    );
    assert_eq!(
        mgr.mem_type_from_desc(&d(FirmwareMemoryType::AcpiNonVolatile)),
        Some(MemoryEntry::ACPINonVolatile(data(0x20_0000, 0x2000)))
    );
    assert_eq!(mgr.mem_type_from_desc(&d(FirmwareMemoryType::Other)), None);
}

#[test]
fn claims_only_touch_loader_memory() {
    let mut mgr = MemoryManager::new();
    mgr.allocate((0x20_0000, 0x2000));
    for (ty, want) in [
        (FirmwareMemoryType::Conventional, Some(MemoryEntry::Usable(data(0x20_0000, 0x2000)))),
        (FirmwareMemoryType::AcpiReclaim, Some(MemoryEntry::ACPIReclaimable(data(0x20_0000, 0x2000)))),
        (
            FirmwareMemoryType::AcpiNonVolatile,
            Some(MemoryEntry::ACPINonVolatile(data(0x20_0000, 0x2000))),
        ),
        (FirmwareMemoryType::Other, None),
    ] {
        assert_eq!(mgr.mem_type_from_desc(&desc(0x20_0000, 2, ty)), want);
    }
}

#[test]
fn claim_that_reaches_the_end_reserves_the_whole_entry() {
    let mut mgr = MemoryManager::new();
    mgr.allocate((0x10_0000, 0x3000));
    let d = desc(0x10_0000, 3, FirmwareMemoryType::LoaderData);
    assert_eq!(mgr.mem_type_from_desc(&d), Some(MemoryEntry::KernelOrModule(data(0x10_0000, 0x3000))));
    let mut mgr = MemoryManager::new();
    mgr.allocate((0x10_1000, 0x10_0000));
    assert_eq!(mgr.mem_type_from_desc(&d), Some(MemoryEntry::KernelOrModule(data(0x10_0000, 0x3000))));
}

#[test]
fn claim_that_ends_inside_cuts_the_entry_at_its_end() {
    let mut mgr = MemoryManager::new();
    mgr.allocate((0x10_0000, 0x1000));
    let d = desc(0x10_0000, 4, FirmwareMemoryType::LoaderData);
    let rest = mgr.mem_type_from_desc(&d);
    assert_eq!(rest, Some(MemoryEntry::BootLoaderReclaimable(data(0x10_1000, 0x3000))));
    let prefix_length = 0x10_1000u64 - 0x10_0000;
    assert_eq!(prefix_length + 0x3000, 4 * 0x1000);
}

#[test]
fn claim_that_starts_before_the_entry_cuts_it_at_the_claim_end() {
    let mut mgr = MemoryManager::new();
    mgr.allocate((0xF_F000, 0x2800));
    let d = desc(0x10_0000, 4, FirmwareMemoryType::LoaderCode);
    assert_eq!(
        mgr.mem_type_from_desc(&d),
        Some(MemoryEntry::BootLoaderReclaimable(data(0x10_1800, 0x2800)))
    );
}

#[test]
fn claim_in_the_middle_cuts_the_entry_at_the_claim_end() {
    let mut mgr = MemoryManager::new();
    mgr.allocate((0x10_1000, 0x1000));
    let d = desc(0x10_0000, 4, FirmwareMemoryType::LoaderData);
    assert_eq!(
        mgr.mem_type_from_desc(&d),
        Some(MemoryEntry::BootLoaderReclaimable(data(0x10_2000, 0x2000)))
    );
}

#[test]
fn claims_that_only_touch_the_borders_do_not_count() {
    let mut mgr = MemoryManager::new();
    mgr.allocate((0xF_F000, 0x1000));
    mgr.allocate((0x10_4000, 0x1000));
    mgr.allocate((0x10_2000, 0));
    let d = desc(0x10_0000, 4, FirmwareMemoryType::LoaderData);
    assert_eq!(
        mgr.mem_type_from_desc(&d),
        Some(MemoryEntry::BootLoaderReclaimable(data(0x10_0000, 0x4000)))
    );
}

#[test]
fn only_the_first_intersecting_claim_is_applied() {
    let mut mgr = MemoryManager::new();
    mgr.allocate((0x50_0000, 0x1000));
    mgr.allocate((0x10_0000, 0x1000));
    mgr.allocate((0x10_0000, 0x4000));
    let d = desc(0x10_0000, 4, FirmwareMemoryType::LoaderData);
    assert_eq!(
        mgr.mem_type_from_desc(&d),
        Some(MemoryEntry::BootLoaderReclaimable(data(0x10_1000, 0x3000)))
    );
}

#[test]
fn empty_entry_is_never_reclassified() {
    let mut mgr = MemoryManager::new();
    mgr.allocate((0, 0x100_0000));
    let d = desc(0x10_0000, 0, FirmwareMemoryType::LoaderData);
    assert_eq!(mgr.mem_type_from_desc(&d), Some(MemoryEntry::BootLoaderReclaimable(data(0x10_0000, 0))));
}

#[test]
fn claim_at_the_top_of_the_address_space_does_not_wrap() {
    let mut mgr = MemoryManager::new();
    mgr.allocate((usize::MAX, usize::MAX));
    let d = desc(0x10_0000, 1, FirmwareMemoryType::LoaderData);
    assert_eq!(
        mgr.mem_type_from_desc(&d),
        Some(MemoryEntry::BootLoaderReclaimable(data(0x10_0000, 0x1000)))
    );
}

#[test]
fn descriptor_must_fit_in_the_address_space() {
    assert!(MemoryDescriptor::new(0, 0xF_FFFF_FFFF_FFFF, FirmwareMemoryType::Other).is_some());
    assert!(MemoryDescriptor::new(0xFFF, 0xF_FFFF_FFFF_FFFF, FirmwareMemoryType::Other).is_some());
    assert!(MemoryDescriptor::new(0x1000, 0xF_FFFF_FFFF_FFFF, FirmwareMemoryType::Other).is_none());
    assert!(MemoryDescriptor::new(0, 0x10_0000_0000_0000, FirmwareMemoryType::Other).is_none());
    assert!(MemoryDescriptor::new(u64::MAX, 0, FirmwareMemoryType::Other).is_some());
    assert!(MemoryDescriptor::new(u64::MAX, 1, FirmwareMemoryType::Other).is_none());
    let d = MemoryDescriptor::new(0x3000, 7, FirmwareMemoryType::LoaderCode).unwrap();
    assert_eq!((d.phys_start, d.page_count, d.ty), (0x3000, 7, FirmwareMemoryType::LoaderCode));
}

#[test]
fn translation_keeps_order_and_drops_unknown_types() {
    let mut mgr = MemoryManager::new();
    mgr.allocate((0x10_0000, 0x3000));
    let map = vec![
        desc(0, 0x10, FirmwareMemoryType::Conventional),
        desc(0x1_0000, 1, FirmwareMemoryType::Other),
        desc(0x10_0000, 3, FirmwareMemoryType::LoaderData),
        desc(0x10_3000, 5, FirmwareMemoryType::LoaderCode),
        desc(0x20_0000, 1, FirmwareMemoryType::AcpiNonVolatile),
        desc(0x20_1000, 1, FirmwareMemoryType::Other),
        desc(0x30_0000, 2, FirmwareMemoryType::AcpiReclaim),
    ];
    let out = mgr.translate_memory_map(&map);
    assert_eq!(
        out,
        vec![
            MemoryEntry::Usable(data(0, 0x1_0000)),
            MemoryEntry::KernelOrModule(data(0x10_0000, 0x3000)),
            MemoryEntry::BootLoaderReclaimable(data(0x10_3000, 0x5000)),
            MemoryEntry::ACPINonVolatile(data(0x20_0000, 0x1000)),
            MemoryEntry::ACPIReclaimable(data(0x30_0000, 0x2000)),
        ]
    );
}

#[test]
fn translation_of_an_empty_map_is_empty() {
    let mgr = MemoryManager::new();
    assert!(mgr.translate_memory_map(&Vec::new()).is_empty());
}

#[test]
fn translation_of_two_maps_end_to_end_is_both_translations() {
    let mut mgr = MemoryManager::new();
    mgr.allocate((0x10_0000, 0x1000));
    let a = vec![
        desc(0, 1, FirmwareMemoryType::Conventional),
        desc(0x10_0000, 2, FirmwareMemoryType::LoaderData),
    ];
    let b = vec![
        desc(0x40_0000, 1, FirmwareMemoryType::Other),
        desc(0x50_0000, 1, FirmwareMemoryType::AcpiReclaim),
    ];
    let mut both = a.clone();
    both.extend(b.iter().copied());
    let mut want = mgr.translate_memory_map(&a);
    want.extend(mgr.translate_memory_map(&b));
    assert_eq!(mgr.translate_memory_map(&both), want);
    assert_eq!(want.len(), 3);
}

#[test]
fn claims_are_appended_without_merging() {
    let mut mgr = MemoryManager::new();
    assert_eq!(mgr.len(), 0);
    mgr.allocate((0x1000, 0x10));
    mgr.allocate((0x1000, 0x10));
    mgr.allocate((0, 0));
    assert_eq!(mgr.len(), 3);
    assert_eq!(mgr.get(0), (0x1000, 0x10));
    assert_eq!(mgr.get(1), (0x1000, 0x10));
    assert_eq!(mgr.get(2), (0, 0));
}

#[test]
fn holds_asks_for_one_claim_around_the_whole_run() {
    let mut mgr = MemoryManager::new();
    mgr.allocate((0x1000, 0x1000));
    mgr.allocate((0x2000, 0x1000));
    assert!(mgr.holds(0x1000, 0x1000));
    assert!(mgr.holds(0x1FFF, 1));
    assert!(mgr.holds(0x1FFF, 0));
    assert!(!mgr.holds(0x1FFF, 2));
    assert!(!mgr.holds(0x0FFF, 1));
    assert!(!mgr.holds(0x3000, 0));
    assert!(mgr.holds(0x2000, 0x1000));
    assert!(!mgr.holds(0x2000, u64::MAX));
    assert!(!MemoryManager::new().holds(0, 0));
}
