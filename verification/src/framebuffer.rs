//! The boot-provided frame buffer, described by plain values: its
//! geometry, its pixel format, and the address its pixels live at.

use vstd::prelude::*;
use crate::structures::Permanent;

verus! {

/// How the bytes of one pixel are laid out.
#[derive(Debug, Clone, Copy, PartialEq, Eq, Structural)]
pub enum PixelFormat {
    /// One byte red, then one byte green, then one byte blue.
    RGB,
    /// One byte blue, then one byte green, then one byte red.
    BGR,
    /// A single byte, representing the grayscale value.
    U8,
}

/// The screen geometry and pixel layout handed over at boot, with the
/// address of the pixel memory.
#[derive(Clone, Copy, Debug)]
pub struct KernelFrameBuffer {
    pub width: usize,
    pub height: usize,
    pub format: PixelFormat,
    pub bytes_per_pixel: usize,
    pub stride: usize,
    pub buffer: Permanent<usize>,
}

impl KernelFrameBuffer {
    /// Describes a frame buffer from its boot-reported geometry and the
    /// address its pixels are mapped at.
    pub fn new(
        width: usize,
        height: usize,
        format: PixelFormat,
        bytes_per_pixel: usize,
        stride: usize,
        buffer_address: usize,
    ) -> (r: KernelFrameBuffer)
        ensures
            r.width == width,
            r.height == height,
            r.format == format,
            r.bytes_per_pixel == bytes_per_pixel,
            r.stride == stride,
            r.buffer.value() == buffer_address,
    {
        KernelFrameBuffer {
            width,
            height,
            format,
            bytes_per_pixel,
            stride,
            buffer: Permanent::new(buffer_address),
        }
    }
}

} // verus!
