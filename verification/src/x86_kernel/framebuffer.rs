//! Pixels and the frame buffers that show them.
use vstd::prelude::*;

verus! {

#[derive(Debug, Clone, Copy, PartialEq, Eq, Structural)]
pub struct Pixel {
    pub r: u8,
    pub g: u8,
    pub b: u8,
}

impl Pixel {
    /// The pixel of `0x00RRGGBB`.
    pub fn from_u32_rgb(val: u32) -> (r: Pixel)
        ensures
            r.b == val % 0x100,
            r.g == (val / 0x100) % 0x100,
            r.r == (val / 0x1_0000) % 0x100,
    {
        let p = Pixel {
            b: ((val & 0xFF) >> 0u32) as u8,
            g: ((val & 0xFF00) >> 8u32) as u8,
            r: ((val & 0xFF0000) >> 16u32) as u8,
        };
        assert(((val & 0xFF) >> 0u32) as u8 == val % 0x100 && ((val & 0xFF00) >> 8u32) as u8 == (
        val / 0x100) % 0x100 && ((val & 0xFF0000) >> 16u32) as u8 == (val / 0x1_0000) % 0x100)
            by (bit_vector);
        p
    }

    /// The pixel of `0x00BBGGRR`.
    pub fn from_u32_bgr(val: u32) -> (r: Pixel)
        ensures
            r.r == val % 0x100,
            r.g == (val / 0x100) % 0x100,
            r.b == (val / 0x1_0000) % 0x100,
    {
        let p = Pixel {
            r: ((val & 0xFF) >> 0u32) as u8,
            g: ((val & 0xFF00) >> 8u32) as u8,
            b: ((val & 0xFF0000) >> 16u32) as u8,
        };
        assert(((val & 0xFF) >> 0u32) as u8 == val % 0x100 && ((val & 0xFF00) >> 8u32) as u8 == (
        val / 0x100) % 0x100 && ((val & 0xFF0000) >> 16u32) as u8 == (val / 0x1_0000) % 0x100)
            by (bit_vector);
        p
    }
}

/// The character cells of a text frame buffer, by column and row.
pub type Cells = Map<(usize, usize), (char, Pixel)>;

/// A frame buffer, graphical and textual. Drivers implement it; what the
/// contracts say of the pixels and the character cells is what a driver
/// must do.
pub trait FrameBuffer {
    spec fn width(&self) -> nat;

    spec fn height(&self) -> nat;

    /// The number of character rows and columns that fit.
    spec fn rows(&self) -> nat;

    spec fn cols(&self) -> nat;

    spec fn pixels(&self) -> Map<(usize, usize), Pixel>;

    spec fn cells(&self) -> Cells;

    fn get_width(&self) -> (r: usize)
        ensures
            r == self.width(),
    ;

    fn get_height(&self) -> (r: usize)
        ensures
            r == self.height(),
    ;

    fn get_rows(&self) -> (r: usize)
        ensures
            r == self.rows(),
    ;

    fn get_cols(&self) -> (r: usize)
        ensures
            r == self.cols(),
    ;

    /// Sets a pixel; a pixel outside the buffer is ignored.
    fn set_pixel(&mut self, x: usize, y: usize, pixel: Pixel) -> (r: Option<(i16, i16, i16)>)
        ensures
            final(self).width() == old(self).width(),
            final(self).height() == old(self).height(),
            final(self).rows() == old(self).rows(),
            final(self).cols() == old(self).cols(),
            final(self).cells() == old(self).cells(),
            final(self).pixels() == if x < old(self).width() && y < old(self).height() {
                old(self).pixels().insert((x, y), pixel)
            } else {
                old(self).pixels()
            },
    ;

    /// Draws a character in a cell.
    fn write_char(&mut self, x: usize, y: usize, c: char, color: Pixel)
        ensures
            final(self).width() == old(self).width(),
            final(self).height() == old(self).height(),
            final(self).rows() == old(self).rows(),
            final(self).cols() == old(self).cols(),
            final(self).cells() == old(self).cells().insert((x, y), (c, color)),
    ;
}

} // verus!
