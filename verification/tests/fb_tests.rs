use stage2_loader::fb::{
    fbinfo_from_gop, FrameBufferError, GopPixelBitmask, GopPixelFormat, GraphicsMode, PixelBitmask,
    PixelFormat, ScreenRes,
};
use stage2_loader::kaboom;
use stage2_loader::mem::{FirmwareMemoryType, MemoryData, MemoryDescriptor, MemoryEntry};

fn mode(pixel_format: GopPixelFormat, pixel_bitmask: Option<GopPixelBitmask>) -> GraphicsMode {
    GraphicsMode {
        width: 1920,
        height: 1080,
        pixel_format,
        pixel_bitmask,
        stride: 2048,
        frame_buffer: 0x8000_0000,
    }
}

fn masks() -> GopPixelBitmask {
    GopPixelBitmask { red: 0x00FF_0000, green: 0x0000_FF00, blue: 0x0000_00FF, reserved: 0xFF00_0000 }
}

#[test]
fn rgb_mode_has_the_fixed_rgb_masks() {
    let info = fbinfo_from_gop(&mode(GopPixelFormat::Rgb, Some(masks()))).unwrap();
    assert_eq!(info.pixel_format, PixelFormat::RedGreenBlue);
    assert_eq!(
        info.pixel_bitmask,
        PixelBitmask { red: 0xFF000000, green: 0x00FF0000, blue: 0x0000FF00, alpha: 0x000000FF }
    );
    assert_eq!(info.resolution, ScreenRes { width: 1920, height: 1080 });
    assert_eq!(info.pitch, 2048);
    assert_eq!(info.base.as_u64(), 0xFFFF_8000_8000_0000);
    assert_eq!(info.base.to_phys(), 0x8000_0000);
}

#[test]
fn bgr_mode_has_the_fixed_bgr_masks() {
    let info = fbinfo_from_gop(&mode(GopPixelFormat::Bgr, None)).unwrap();
    assert_eq!(info.pixel_format, PixelFormat::BlueGreenRed);
    assert_eq!(
        info.pixel_bitmask,
        PixelBitmask { red: 0x0000FF00, green: 0x00FF0000, blue: 0xFF000000, alpha: 0x000000FF }
    );
}

#[test]
fn bitmask_mode_passes_the_reported_masks_on() {
    let info = fbinfo_from_gop(&mode(GopPixelFormat::Bitmask, Some(masks()))).unwrap();
    assert_eq!(info.pixel_format, PixelFormat::Bitmask);
    assert_eq!(
        info.pixel_bitmask,
        PixelBitmask { red: 0x00FF_0000, green: 0x0000_FF00, blue: 0x0000_00FF, alpha: 0xFF00_0000 }
    );
}

#[test]
fn bitmask_mode_without_masks_is_rejected() {
    assert_eq!(
        fbinfo_from_gop(&mode(GopPixelFormat::Bitmask, None)).unwrap_err(),
        FrameBufferError::MissingBitmask
    );
}

#[test]
fn blt_only_mode_is_rejected() {
    assert_eq!(
        fbinfo_from_gop(&mode(GopPixelFormat::BltOnly, Some(masks()))).unwrap_err(),
        FrameBufferError::BltOnly
    );
}

#[test]
fn framebuffer_outside_the_direct_map_is_rejected() {
    let mut m = mode(GopPixelFormat::Rgb, None);
    m.frame_buffer = 0x8000_0000_0000;
    assert_eq!(fbinfo_from_gop(&m).unwrap_err(), FrameBufferError::NotMappable);
    m.pixel_format = GopPixelFormat::BltOnly;
    assert_eq!(fbinfo_from_gop(&m).unwrap_err(), FrameBufferError::BltOnly);
    m.pixel_format = GopPixelFormat::Bitmask;
    assert_eq!(fbinfo_from_gop(&m).unwrap_err(), FrameBufferError::MissingBitmask);
}

#[test]
fn first_revision_reports_the_physical_base_and_optional_masks() {
    let info = kaboom::fbinfo_from_gop(&mode(GopPixelFormat::Bgr, Some(masks()))).unwrap();
    assert_eq!(info.pixel_format, kaboom::PixelFormat::Bgr);
    assert_eq!(
        info.pixel_bitmask,
        Some(kaboom::PixelBitmask { red: 0x00FF_0000, green: 0x0000_FF00, blue: 0x0000_00FF })
    );
    assert_eq!(info.base, 0x8000_0000);
    assert_eq!(info.pixels_per_scanline, 2048);
    assert_eq!(info.resolution, ScreenRes { width: 1920, height: 1080 });
    let info = kaboom::fbinfo_from_gop(&mode(GopPixelFormat::Rgb, None)).unwrap();
    assert_eq!(info.pixel_format, kaboom::PixelFormat::Rgb);
    assert_eq!(info.pixel_bitmask, None);
    let info = kaboom::fbinfo_from_gop(&mode(GopPixelFormat::Bitmask, None)).unwrap();
    assert_eq!(info.pixel_format, kaboom::PixelFormat::Bitmask);
    assert!(kaboom::fbinfo_from_gop(&mode(GopPixelFormat::BltOnly, None)).is_none());
}

#[test]
fn first_revision_classifies_by_type_alone() {
    let d = |ty| MemoryDescriptor::new(0x10_0000, 2, ty).unwrap();
    let data = MemoryData { base: 0x10_0000, length: 0x2000 };
    assert_eq!(
        kaboom::mem_type_from_desc(&d(FirmwareMemoryType::Conventional)),
        Some(MemoryEntry::Usable(data))
    );
    assert_eq!(
        kaboom::mem_type_from_desc(&d(FirmwareMemoryType::LoaderCode)),
        Some(MemoryEntry::BootLoaderReclaimable(data))
    );
    assert_eq!(
        kaboom::mem_type_from_desc(&d(FirmwareMemoryType::LoaderData)),
        Some(MemoryEntry::BootLoaderReclaimable(data))
    );
    assert_eq!(
        kaboom::mem_type_from_desc(&d(FirmwareMemoryType::AcpiReclaim)),
        Some(MemoryEntry::ACPIReclaimable(data))
    );
    assert_eq!(kaboom::mem_type_from_desc(&d(FirmwareMemoryType::AcpiNonVolatile)), None);
    assert_eq!(kaboom::mem_type_from_desc(&d(FirmwareMemoryType::Other)), None);
}
