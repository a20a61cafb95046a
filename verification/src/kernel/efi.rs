//! The UEFI tables and graphics output records the kernel reads (UEFI
//! specification, sections 4 and 12.9).
use vstd::prelude::*;

verus! {

pub struct EfiTableHeader {
    pub signature: u64,
    pub rev: u32,
    pub table_size: u32,
    pub crc: u32,
    pub reserved: u32,
}

/// How the bytes of a pixel are laid out.
#[derive(Debug, Clone, Copy, PartialEq, Eq, Structural)]
pub enum EfiGraphicsPixelFormat {
    /// Red, green, blue, reserved.
    RgbR8bit,
    /// Blue, green, red, reserved.
    BgrR8bit,
    /// As the pixel bit mask says.
    BitMask,
    /// No frame buffer: only the firmware's blit function draws.
    BltOnly,
    /// One past the last format.
    FormatMax,
}

impl EfiGraphicsPixelFormat {
    /// The value of the format in the firmware's tables.
    pub fn code(&self) -> (r: u32)
        ensures
            r < 5,
            r == 0 <==> *self == EfiGraphicsPixelFormat::RgbR8bit,
            r == 1 <==> *self == EfiGraphicsPixelFormat::BgrR8bit,
            r == 2 <==> *self == EfiGraphicsPixelFormat::BitMask,
            r == 3 <==> *self == EfiGraphicsPixelFormat::BltOnly,
            r == 4 <==> *self == EfiGraphicsPixelFormat::FormatMax,
    {
        match self {
            EfiGraphicsPixelFormat::RgbR8bit => 0,
            EfiGraphicsPixelFormat::BgrR8bit => 1,
            EfiGraphicsPixelFormat::BitMask => 2,
            EfiGraphicsPixelFormat::BltOnly => 3,
            EfiGraphicsPixelFormat::FormatMax => 4,
        }
    }
}

pub struct EfiPixelBitMask {
    pub red_mask: u32,
    pub green_mask: u32,
    pub blue_mask: u32,
    pub reserved_mask: u32,
}

pub struct EfiGopModeInfo {
    pub version: u32,
    pub horz_res: u32,
    pub vert_res: u32,
    pub pix_format: EfiGraphicsPixelFormat,
    pub pix_mask: EfiPixelBitMask,
    pub pix_per_scan_line: u32,
}

pub struct EfiGopMode<'a> {
    pub max_mode: u32,
    pub mode: u32,
    pub info: &'a EfiGopModeInfo,
    pub size_of_info: usize,
    /// 64 bits wide even on 32-bit firmware.
    pub framebuffer_base: u64,
    pub framebuffer_size: usize,
}

#[derive(Default)]
pub struct EfiTime {
    pub yr: u16,
    pub month: u8,
    pub day: u8,
    pub hour: u8,
    pub min: u8,
    pub sec: u8,
    pub pad1: u8,
    pub nanosec: u32,
    pub tz: i16,
    pub daylight: u8,
    pub pad2: u8,
}

} // verus!
