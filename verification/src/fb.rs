//! The framebuffer descriptor handed to the kernel, built from the mode the
//! graphics output reports.

use vstd::prelude::*;

use crate::addr::direct_mappable;
use crate::addr::phys_to_kern_ref;
use crate::addr::KernelAddress;

verus! {

/// Pixel layout as the graphics output reports it.
#[derive(Clone, Copy, Debug, PartialEq, Eq, Structural)]
pub enum GopPixelFormat {
    Rgb,
    Bgr,
    Bitmask,
    BltOnly,
}

/// Channel masks as the graphics output reports them.
#[derive(Clone, Copy, Debug, PartialEq, Eq, Structural)]
pub struct GopPixelBitmask {
    pub red: u32,
    pub green: u32,
    pub blue: u32,
    pub reserved: u32,
}

/// The current mode of the graphics output and where its framebuffer lies
/// in physical memory.
#[derive(Clone, Copy, Debug, PartialEq, Eq, Structural)]
pub struct GraphicsMode {
    pub width: usize,
    pub height: usize,
    pub pixel_format: GopPixelFormat,
    pub pixel_bitmask: Option<GopPixelBitmask>,
    pub stride: usize,
    pub frame_buffer: u64,
}

/// Pixel layout as the kernel is told.
#[derive(Clone, Copy, Debug, PartialEq, Eq, Structural)]
pub enum PixelFormat {
    RedGreenBlue,
    BlueGreenRed,
    Bitmask,
}

/// Channel masks as the kernel is told.
#[derive(Clone, Copy, Debug, PartialEq, Eq, Structural)]
pub struct PixelBitmask {
    pub red: u32,
    pub green: u32,
    pub blue: u32,
    pub alpha: u32,
}

/// Width and height in pixels.
#[derive(Clone, Copy, Debug, PartialEq, Eq, Structural)]
pub struct ScreenRes {
    pub width: usize,
    pub height: usize,
}

/// The framebuffer descriptor.
#[derive(Clone, Copy, Debug, PartialEq, Eq, Structural)]
pub struct FrameBufferInfo {
    pub base: KernelAddress,
    pub resolution: ScreenRes,
    pub pixel_format: PixelFormat,
    pub pixel_bitmask: PixelBitmask,
    pub pitch: usize,
}

/// Why no descriptor was built.
#[derive(Clone, Copy, Debug, PartialEq, Eq, Structural)]
pub enum FrameBufferError {
    /// The mode has no linear framebuffer.
    BltOnly,
    /// The mode is mask-defined and reports no masks.
    MissingBitmask,
    /// The framebuffer has no image in the direct map.
    NotMappable,
}

/// The masks of the red-green-blue layout.
pub open spec fn rgb_masks() -> PixelBitmask {
    PixelBitmask { red: 0xFF000000, green: 0x00FF0000, blue: 0x0000FF00, alpha: 0x000000FF }
}

/// The masks of the blue-green-red layout.
pub open spec fn bgr_masks() -> PixelBitmask {
    PixelBitmask { red: 0x0000FF00, green: 0x00FF0000, blue: 0xFF000000, alpha: 0x000000FF }
}

/// The layout and masks for a mode, or why it has none.
pub open spec fn layout_of(gop: GraphicsMode) -> Result<(PixelFormat, PixelBitmask), FrameBufferError> {
    match gop.pixel_format {
        GopPixelFormat::Rgb => Ok((PixelFormat::RedGreenBlue, rgb_masks())),
        GopPixelFormat::Bgr => Ok((PixelFormat::BlueGreenRed, bgr_masks())),
        GopPixelFormat::Bitmask => match gop.pixel_bitmask {
            Some(m) => Ok(
                (
                    PixelFormat::Bitmask,
                    PixelBitmask { red: m.red, green: m.green, blue: m.blue, alpha: m.reserved },
                ),
            ),
            None => Err(FrameBufferError::MissingBitmask),
        },
        GopPixelFormat::BltOnly => Err(FrameBufferError::BltOnly),
    }
}

/// The descriptor for a mode, or why it has none.
pub open spec fn fbinfo_of(gop: GraphicsMode) -> Result<FrameBufferInfo, FrameBufferError> {
    match layout_of(gop) {
        Err(e) => Err(e),
        Ok(layout) => if !direct_mappable(gop.frame_buffer) {
            Err(FrameBufferError::NotMappable)
        } else {
            Ok(
                FrameBufferInfo {
                    base: KernelAddress::of_phys(gop.frame_buffer),
                    resolution: ScreenRes { width: gop.width, height: gop.height },
                    pixel_format: layout.0,
                    pixel_bitmask: layout.1,
                    pitch: gop.stride,
                },
            )
        },
    }
}

/// Builds the framebuffer descriptor from the current graphics mode. The
/// base address is moved into the kernel's domain; the masks are those the
/// mode reports only where the layout is mask-defined.
pub fn fbinfo_from_gop(gop: &GraphicsMode) -> (r: Result<FrameBufferInfo, FrameBufferError>)
    ensures
        r == fbinfo_of(*gop),
        r matches Ok(info) ==> info.base.phys() == gop.frame_buffer,
{
    let pixel_format = match gop.pixel_format {
        GopPixelFormat::Rgb => PixelFormat::RedGreenBlue,
        GopPixelFormat::Bgr => PixelFormat::BlueGreenRed,
        GopPixelFormat::Bitmask => PixelFormat::Bitmask,
        GopPixelFormat::BltOnly => {
            return Err(FrameBufferError::BltOnly);
        },
    };
    let pixel_bitmask = match gop.pixel_format {
        GopPixelFormat::Rgb => PixelBitmask {
            red: 0xFF000000,
            green: 0x00FF0000,
            blue: 0x0000FF00,
            alpha: 0x000000FF,
        },
        GopPixelFormat::Bgr => PixelBitmask {
            red: 0x0000FF00,
            green: 0x00FF0000,
            blue: 0xFF000000,
            alpha: 0x000000FF,
        },
        GopPixelFormat::Bitmask => match gop.pixel_bitmask {
            Some(m) => PixelBitmask { red: m.red, green: m.green, blue: m.blue, alpha: m.reserved },
            None => {
                return Err(FrameBufferError::MissingBitmask);
            },
        },
        GopPixelFormat::BltOnly => {
            return Err(FrameBufferError::BltOnly);
        },
    };
    let base = match phys_to_kern_ref(gop.frame_buffer) {
        Some(base) => base,
        None => {
            return Err(FrameBufferError::NotMappable);
        },
    };
    Ok(
        FrameBufferInfo {
            base,
            resolution: ScreenRes { width: gop.width, height: gop.height },
            pixel_format,
            pixel_bitmask,
            pitch: gop.stride,
        },
    )
}

} // verus!
