//! The first revision of the boot protocol. It reports the framebuffer by
//! its physical address, passes the channel masks on as the graphics output
//! gives them, and classifies memory by firmware type alone.

use vstd::prelude::*;

use crate::fb::GopPixelFormat;
use crate::fb::GraphicsMode;
use crate::fb::ScreenRes;
use crate::mem::FirmwareMemoryType;
use crate::mem::MemoryData;
use crate::mem::MemoryDescriptor;
use crate::mem::MemoryEntry;

verus! {

/// Pixel layout in the first revision.
#[derive(Clone, Copy, Debug, PartialEq, Eq, Structural)]
pub enum PixelFormat {
    Rgb,
    Bgr,
    Bitmask,
}

/// Channel masks in the first revision.
#[derive(Clone, Copy, Debug, PartialEq, Eq, Structural)]
pub struct PixelBitmask {
    pub red: u32,
    pub green: u32,
    pub blue: u32,
}

/// The framebuffer descriptor of the first revision. `base` is a physical
/// address.
#[derive(Clone, Copy, Debug, PartialEq, Eq, Structural)]
pub struct FrameBufferInfo {
    pub resolution: ScreenRes,
    pub pixel_format: PixelFormat,
    pub pixel_bitmask: Option<PixelBitmask>,
    pub pixels_per_scanline: usize,
    pub base: u64,
}

/// The descriptor for a mode; none for a mode without a linear framebuffer.
pub open spec fn fbinfo_of(gop: GraphicsMode) -> Option<FrameBufferInfo> {
    let pixel_format = match gop.pixel_format {
        GopPixelFormat::Rgb => Some(PixelFormat::Rgb),
        GopPixelFormat::Bgr => Some(PixelFormat::Bgr),
        GopPixelFormat::Bitmask => Some(PixelFormat::Bitmask),
        GopPixelFormat::BltOnly => None,
    };
    match pixel_format {
        None => None,
        Some(format) => Some(
            FrameBufferInfo {
                resolution: ScreenRes { width: gop.width, height: gop.height },
                pixel_format: format,
                pixel_bitmask: match gop.pixel_bitmask {
                    Some(m) => Some(PixelBitmask { red: m.red, green: m.green, blue: m.blue }),
                    None => None,
                },
                pixels_per_scanline: gop.stride,
                base: gop.frame_buffer,
            },
        ),
    }
}

/// Builds the framebuffer descriptor of the first revision.
pub fn fbinfo_from_gop(gop: &GraphicsMode) -> (r: Option<FrameBufferInfo>)
    ensures
        r == fbinfo_of(*gop),
{
    let pixel_format = match gop.pixel_format {
        GopPixelFormat::Rgb => PixelFormat::Rgb,
        GopPixelFormat::Bgr => PixelFormat::Bgr,
        GopPixelFormat::Bitmask => PixelFormat::Bitmask,
        GopPixelFormat::BltOnly => {
            return None;
        },
    };
    let pixel_bitmask = match gop.pixel_bitmask {
        Some(m) => Some(PixelBitmask { red: m.red, green: m.green, blue: m.blue }),
        None => None,
    };
    Some(
        FrameBufferInfo {
            resolution: ScreenRes { width: gop.width, height: gop.height },
            pixel_format,
            pixel_bitmask,
            pixels_per_scanline: gop.stride,
            base: gop.frame_buffer,
        },
    )
}

/// Classification of the first revision: usable, reclaimable from the
/// loader, reclaimable from ACPI; everything else is dropped.
pub open spec fn classify_plain(desc: MemoryDescriptor) -> Option<MemoryEntry> {
    match desc.ty {
        FirmwareMemoryType::Conventional => Some(MemoryEntry::Usable(desc.data())),
        FirmwareMemoryType::LoaderCode | FirmwareMemoryType::LoaderData => Some(
            MemoryEntry::BootLoaderReclaimable(desc.data()),
        ),
        FirmwareMemoryType::AcpiReclaim => Some(MemoryEntry::ACPIReclaimable(desc.data())),
        _ => None,
    }
}

/// Classifies one firmware record by its type alone.
pub fn mem_type_from_desc(desc: &MemoryDescriptor) -> (r: Option<MemoryEntry>)
    requires
        desc.wf(),
    ensures
        r == classify_plain(*desc),
{
    let data = MemoryData { base: desc.phys_start, length: desc.page_count * 0x1000 };
    match desc.ty {
        FirmwareMemoryType::Conventional => Some(MemoryEntry::Usable(data)),
        FirmwareMemoryType::LoaderCode | FirmwareMemoryType::LoaderData => Some(
            MemoryEntry::BootLoaderReclaimable(data),
        ),
        FirmwareMemoryType::AcpiReclaim => Some(MemoryEntry::ACPIReclaimable(data)),
        _ => None,
    }
}

} // verus!
