//! Geometry of a linear framebuffer and the colour law of its pixels.
use vstd::prelude::*;

verus! {

/// Byte layout of one pixel.
#[derive(Clone, Copy, Debug, PartialEq, Eq, Structural)]
pub enum PixelFormat {
    /// Red, green, blue, then possibly padding.
    RGB,
    /// Blue, green, red, then possibly padding.
    BGR,
    /// One grey byte, then possibly padding.
    U8,
}

/// Geometry of the framebuffer handed over at boot.
#[derive(Clone, Copy, Debug, PartialEq, Eq, Structural)]
pub struct FrameBufferInfo {
    /// Total size in bytes.
    pub byte_len: usize,
    /// Visible width in pixels.
    pub horizontal_resolution: usize,
    /// Visible height in pixels.
    pub vertical_resolution: usize,
    /// Byte layout of each pixel.
    pub pixel_format: PixelFormat,
    /// Number of bytes per pixel.
    pub bytes_per_pixel: usize,
    /// Pixels between the start of one row and the start of the next.
    pub stride: usize,
}

/// Height of a glyph cell, and its width, in pixels.
pub const GLYPH_SIZE: usize = 8;

/// Extra vertical space between two text lines.
pub const LINE_SPACING: usize = 4;

/// Vertical advance of one newline.
pub const LINE_HEIGHT: usize = 12;

/// The smallest multiple of the glyph width that is at least `w`.
pub open spec fn round_up_to_cell(w: int) -> int {
    ((w + 7) / 8) * 8
}

impl FrameBufferInfo {
    /// A buffer of `len` bytes holds `stride * height` pixels of at least one byte.
    pub open spec fn fits(self, len: nat) -> bool {
        &&& self.bytes_per_pixel >= 1
        &&& self.stride * self.vertical_resolution * self.bytes_per_pixel <= len
    }

    /// Text can be drawn: the screen is at least one glyph tall, and every row holds
    /// the pixels of every glyph cell that starts within the visible width, and of at
    /// least one cell.
    pub open spec fn holds_glyphs(self) -> bool {
        &&& self.vertical_resolution >= GLYPH_SIZE
        &&& self.stride >= GLYPH_SIZE
        &&& round_up_to_cell(self.horizontal_resolution as int) <= self.stride
    }

    /// Whether a buffer of `len` bytes holds the pixels of this geometry.
    pub fn fits_len(&self, len: usize) -> (r: bool)
        ensures
            r == self.fits(len as nat),
    {
        let size = match self.stride.checked_mul(self.vertical_resolution) {
            Some(pixels) => pixels.checked_mul(self.bytes_per_pixel),
            None => {
                proof {
                    if self.bytes_per_pixel >= 1 {
                        let (s, h, b) = (self.stride as int, self.vertical_resolution as int, self.bytes_per_pixel as int);
                        assert(s * h <= s * h * b) by (nonlinear_arith)
                            requires
                                b >= 1,
                                s * h >= 0,
                        ;
                    }
                }
                None
            },
        };
        self.bytes_per_pixel >= 1 && match size {
            Some(n) => n <= len,
            None => false,
        }
    }

    /// Whether text can be drawn with this geometry.
    pub fn fits_glyphs(&self) -> (r: bool)
        ensures
            r == self.holds_glyphs(),
    {
        let w = self.horizontal_resolution;
        let cells = w / 8 + if w % 8 == 0 {
            0
        } else {
            1
        };
        assert(cells * 8 == round_up_to_cell(w as int));
        let fits_row = cells <= self.stride / 8;
        assert(fits_row == (cells * 8 <= self.stride));
        self.vertical_resolution >= GLYPH_SIZE && self.stride >= GLYPH_SIZE && fits_row
    }

    /// Offset in bytes of the first byte of pixel `(x, y)`.
    pub open spec fn pixel_offset(self, x: int, y: int) -> int {
        (y * self.stride + x) * self.bytes_per_pixel
    }

    /// Byte `i` of the buffer belongs to pixel `(x, y)`.
    pub open spec fn in_pixel(self, i: int, x: int, y: int) -> bool {
        self.pixel_offset(x, y) <= i < self.pixel_offset(x, y) + self.bytes_per_pixel
    }
}

/// The bytes of one pixel of the given intensity: grey on the first three channels
/// of an RGB or BGR pixel, and `0x0F` above 200 on a single-channel one; zero on every
/// other byte.
pub open spec fn pixel_color(format: PixelFormat, bpp: nat, intensity: u8) -> Seq<u8> {
    Seq::new(
        bpp,
        |i: int|
            match format {
                PixelFormat::RGB | PixelFormat::BGR => if i < 3 {
                    intensity
                } else {
                    0u8
                },
                PixelFormat::U8 => if i == 0 && intensity > 200 {
                    0x0Fu8
                } else {
                    0u8
                },
            },
    )
}

/// Full and zero intensity: an RGB or BGR pixel of intensity 255 is 255 on its first
/// three bytes and zero on the rest; a single-channel pixel is `0x0F` then zeros above
/// intensity 200 and all zero up to 200; a pixel of intensity 0 is all zero.
pub proof fn lemma_pixel_levels(format: PixelFormat, bpp: nat)
    ensures
        pixel_color(format, bpp, 0) == Seq::new(bpp, |i: int| 0u8),
        format != PixelFormat::U8 ==> pixel_color(format, bpp, 255) == Seq::new(
            bpp,
            |i: int|
                if i < 3 {
                    255u8
                } else {
                    0u8
                },
        ),
        forall|t: u8|
            t <= 200 ==> #[trigger] pixel_color(PixelFormat::U8, bpp, t) == Seq::new(
                bpp,
                |i: int| 0u8,
            ),
        forall|t: u8|
            t > 200 ==> #[trigger] pixel_color(PixelFormat::U8, bpp, t) == Seq::new(
                bpp,
                |i: int|
                    if i == 0 {
                        0x0Fu8
                    } else {
                        0u8
                    },
            ),
{
    assert(pixel_color(format, bpp, 0) =~= Seq::new(bpp, |i: int| 0u8));
    if format != PixelFormat::U8 {
        assert(pixel_color(format, bpp, 255) =~= Seq::new(
            bpp,
            |i: int|
                if i < 3 {
                    255u8
                } else {
                    0u8
                },
        ));
    }
    assert forall|t: u8| t <= 200 implies #[trigger] pixel_color(PixelFormat::U8, bpp, t)
        == Seq::new(bpp, |i: int| 0u8) by {
        assert(pixel_color(PixelFormat::U8, bpp, t) =~= Seq::new(bpp, |i: int| 0u8));
    }
    assert forall|t: u8| t > 200 implies #[trigger] pixel_color(PixelFormat::U8, bpp, t)
        == Seq::new(
        bpp,
        |i: int|
            if i == 0 {
                0x0Fu8
            } else {
                0u8
            },
    ) by {
        assert(pixel_color(PixelFormat::U8, bpp, t) =~= Seq::new(
            bpp,
            |i: int|
                if i == 0 {
                    0x0Fu8
                } else {
                    0u8
                },
        ));
    }
}

/// Byte `k` of a pixel of the given intensity.
pub fn color_byte(format: PixelFormat, bpp: usize, intensity: u8, k: usize) -> (r: u8)
    requires
        k < bpp,
    ensures
        r == pixel_color(format, bpp as nat, intensity)[k as int],
{
    match format {
        PixelFormat::RGB | PixelFormat::BGR => if k < 3 {
            intensity
        } else {
            0
        },
        PixelFormat::U8 => if k == 0 && intensity > 200 {
            0x0F
        } else {
            0
        },
    }
}

} // verus!
