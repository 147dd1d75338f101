//! The console renderer: cursor state over an owned framebuffer.
use vstd::arithmetic::div_mod::{lemma_fundamental_div_mod, lemma_fundamental_div_mod_converse};
use vstd::prelude::*;
use vstd::string::StrSliceExecFns;

use crate::font::{all_in_basic_font, basic_glyph, glyph, in_basic_font};
use crate::framebuffer::{
    color_byte, pixel_color, round_up_to_cell, FrameBufferInfo, PixelFormat, GLYPH_SIZE, LINE_HEIGHT,
};

verus! {

/// What a console shows: the framebuffer bytes and the cursor, the top-left corner
/// of the next glyph.
pub struct Screen {
    pub bytes: Seq<u8>,
    pub x: nat,
    pub y: nat,
}

/// A buffer of `len` zero bytes.
pub open spec fn blank(len: nat) -> Seq<u8> {
    Seq::new(len, |i: int| 0u8)
}

/// `bytes` with pixel `(x, y)` set to the given intensity.
pub open spec fn paint_pixel(
    bytes: Seq<u8>,
    info: FrameBufferInfo,
    x: int,
    y: int,
    intensity: u8,
) -> Seq<u8> {
    Seq::new(
        bytes.len(),
        |i: int|
            if info.in_pixel(i, x, y) {
                pixel_color(info.pixel_format, info.bytes_per_pixel as nat, intensity)[i
                    - info.pixel_offset(x, y)]
            } else {
                bytes[i]
            },
    )
}

/// Intensity of the pixel at `row`, `col` of a glyph: full where the bit is set.
pub open spec fn glyph_intensity(g: Seq<u8>, row: int, col: int) -> u8 {
    if g[row] & (1u8 << (col as u8)) == 0 {
        0
    } else {
        255
    }
}

/// Row, counted from a glyph cell's top edge `y0`, of the pixel that byte `i` lies in.
pub open spec fn cell_row(info: FrameBufferInfo, y0: int, i: int) -> int {
    i / (info.bytes_per_pixel as int) / (info.stride as int) - y0
}

/// Column, counted from a glyph cell's left edge `x0`, of the pixel that byte `i` lies in.
pub open spec fn cell_col(info: FrameBufferInfo, x0: int, i: int) -> int {
    i / (info.bytes_per_pixel as int) % (info.stride as int) - x0
}

/// Byte `i` belongs to one of the first `k` pixels, in row-major order, of the
/// glyph cell whose top-left corner is `(x0, y0)`.
pub open spec fn in_cell_prefix(info: FrameBufferInfo, x0: int, y0: int, i: int, k: int) -> bool {
    &&& 0 <= cell_row(info, y0, i) < 8
    &&& 0 <= cell_col(info, x0, i) < 8
    &&& cell_row(info, y0, i) * 8 + cell_col(info, x0, i) < k
}

/// `bytes` with the first `k` pixels of glyph `g` drawn at `(x0, y0)`.
pub open spec fn draw_cells(
    bytes: Seq<u8>,
    info: FrameBufferInfo,
    x0: int,
    y0: int,
    g: Seq<u8>,
    k: int,
) -> Seq<u8> {
    Seq::new(
        bytes.len(),
        |i: int|
            if in_cell_prefix(info, x0, y0, i, k) {
                pixel_color(
                    info.pixel_format,
                    info.bytes_per_pixel as nat,
                    glyph_intensity(g, cell_row(info, y0, i), cell_col(info, x0, i)),
                )[i % (info.bytes_per_pixel as int)]
            } else {
                bytes[i]
            },
    )
}

/// `bytes` with the whole glyph `g` drawn at `(x0, y0)`.
pub open spec fn draw_glyph(
    bytes: Seq<u8>,
    info: FrameBufferInfo,
    x0: int,
    y0: int,
    g: Seq<u8>,
) -> Seq<u8> {
    draw_cells(bytes, info, x0, y0, g, 64)
}

/// The cursor row after a newline from row `y`, held at the largest `usize`.
pub open spec fn newline_y(y: nat) -> nat {
    if y + LINE_HEIGHT <= usize::MAX {
        (y + LINE_HEIGHT) as nat
    } else {
        usize::MAX as nat
    }
}

/// The screen after writing one character.
pub open spec fn put_char(s: Screen, info: FrameBufferInfo, c: char) -> Screen {
    if c == '\n' {
        Screen { bytes: s.bytes, x: 0, y: newline_y(s.y) }
    } else if c == '\r' {
        Screen { bytes: s.bytes, x: 0, y: s.y }
    } else {
        let wrapped = if s.x >= info.horizontal_resolution {
            Screen { bytes: s.bytes, x: 0, y: newline_y(s.y) }
        } else {
            s
        };
        let room = if wrapped.y >= info.vertical_resolution - GLYPH_SIZE {
            Screen { bytes: blank(s.bytes.len()), x: 0, y: 0 }
        } else {
            wrapped
        };
        Screen {
            bytes: draw_glyph(room.bytes, info, room.x as int, room.y as int, basic_glyph(c)),
            x: room.x + 8,
            y: room.y,
        }
    }
}

/// The screen after writing each character of `cs` in turn.
pub open spec fn put_str(s: Screen, info: FrameBufferInfo, cs: Seq<char>) -> Screen
    decreases cs.len(),
{
    if cs.len() == 0 {
        s
    } else {
        put_char(put_str(s, info, cs.drop_last()), info, cs.last())
    }
}

/// Byte `i` lies in pixel `(x, y)` exactly when its pixel index is that of `(x, y)`;
/// it is then byte `i % bpp` of the pixel.
proof fn lemma_pixel_of_byte(info: FrameBufferInfo, i: int, x: int, y: int)
    requires
        info.bytes_per_pixel > 0,
        info.stride > 0,
        0 <= x < info.stride,
        0 <= y,
        0 <= i,
    ensures
        info.in_pixel(i, x, y) <==> (i / (info.bytes_per_pixel as int) / (info.stride as int) == y
            && i / (info.bytes_per_pixel as int) % (info.stride as int) == x),
        info.in_pixel(i, x, y) ==> i % (info.bytes_per_pixel as int) == i - info.pixel_offset(
            x,
            y,
        ),
{
    let bpp = info.bytes_per_pixel as int;
    let stride = info.stride as int;
    let p = y * stride + x;
    assert(p >= 0) by (nonlinear_arith)
        requires
            y >= 0,
            stride > 0,
            x >= 0,
            p == y * stride + x,
    ;
    lemma_fundamental_div_mod(i, bpp);
    let q = i / bpp;
    assert(q >= 0) by (nonlinear_arith)
        requires
            i >= 0,
            bpp > 0,
            q == i / bpp,
    ;
    lemma_fundamental_div_mod(q, stride);
    if info.in_pixel(i, x, y) {
        assert(info.pixel_offset(x, y) == p * bpp);
        lemma_fundamental_div_mod_converse(i, bpp, p, i - p * bpp);
        lemma_fundamental_div_mod_converse(p, stride, y, x);
    }
    if q / stride == y && q % stride == x {
        assert(q == p) by (nonlinear_arith)
            requires
                q == stride * (q / stride) + q % stride,
                q / stride == y,
                q % stride == x,
                p == y * stride + x,
        ;
        assert(i == p * bpp + i % bpp) by (nonlinear_arith)
            requires
                i == bpp * q + i % bpp,
                q == p,
        ;
    }
}

/// Painting pixel `k` of the glyph cell after the first `k` gives the first `k + 1`.
proof fn lemma_draw_next_cell(
    bytes: Seq<u8>,
    info: FrameBufferInfo,
    x0: int,
    y0: int,
    g: Seq<u8>,
    r: int,
    c: int,
)
    requires
        info.bytes_per_pixel > 0,
        0 <= x0,
        x0 + 8 <= info.stride,
        0 <= y0,
        0 <= r < 8,
        0 <= c < 8,
    ensures
        paint_pixel(
            draw_cells(bytes, info, x0, y0, g, r * 8 + c),
            info,
            x0 + c,
            y0 + r,
            glyph_intensity(g, r, c),
        ) =~= draw_cells(bytes, info, x0, y0, g, r * 8 + c + 1),
{
    let prev = draw_cells(bytes, info, x0, y0, g, r * 8 + c);
    let next = draw_cells(bytes, info, x0, y0, g, r * 8 + c + 1);
    let painted = paint_pixel(prev, info, x0 + c, y0 + r, glyph_intensity(g, r, c));
    assert forall|i: int| 0 <= i < bytes.len() implies painted[i] == next[i] by {
        lemma_pixel_of_byte(info, i, x0 + c, y0 + r);
    }
}

/// A pixel written into a buffer reads back as the colour of its intensity, and no
/// other byte changes.
pub proof fn lemma_pixel_reads_back(
    bytes: Seq<u8>,
    info: FrameBufferInfo,
    x: int,
    y: int,
    intensity: u8,
)
    requires
        info.fits(bytes.len()),
        0 <= x < info.stride,
        0 <= y < info.vertical_resolution,
    ensures
        0 <= info.pixel_offset(x, y),
        info.pixel_offset(x, y) + info.bytes_per_pixel <= bytes.len(),
        paint_pixel(bytes, info, x, y, intensity).subrange(
            info.pixel_offset(x, y),
            info.pixel_offset(x, y) + info.bytes_per_pixel,
        ) == pixel_color(info.pixel_format, info.bytes_per_pixel as nat, intensity),
        forall|i: int|
            0 <= i < bytes.len() && !info.in_pixel(i, x, y) ==> #[trigger] paint_pixel(
                bytes,
                info,
                x,
                y,
                intensity,
            )[i] == bytes[i],
{
    lemma_pixel_in_bounds(info, x, y);
    let off = info.pixel_offset(x, y);
    assert(paint_pixel(bytes, info, x, y, intensity).subrange(off, off + info.bytes_per_pixel)
        =~= pixel_color(info.pixel_format, info.bytes_per_pixel as nat, intensity));
}

/// The bytes of pixel `(x, y)` lie within a buffer that the geometry fits.
proof fn lemma_pixel_in_bounds(info: FrameBufferInfo, x: int, y: int)
    requires
        info.bytes_per_pixel >= 1,
        0 <= x < info.stride,
        0 <= y < info.vertical_resolution,
    ensures
        0 <= info.pixel_offset(x, y),
        info.pixel_offset(x, y) + info.bytes_per_pixel <= info.stride * info.vertical_resolution
            * info.bytes_per_pixel,
{
    let (si, hi, bi) = (info.stride as int, info.vertical_resolution as int, info.bytes_per_pixel as int);
    assert(y * si + x + 1 <= si * hi) by (nonlinear_arith)
        requires
            y + 1 <= hi,
            0 <= x < si,
    ;
    assert((y * si + x + 1) * bi <= si * hi * bi) by (nonlinear_arith)
        requires
            y * si + x + 1 <= si * hi,
            bi >= 1,
    ;
    assert((y * si + x + 1) * bi == (y * si + x) * bi + bi) by (nonlinear_arith);
    assert(0 <= (y * si + x) * bi) by (nonlinear_arith)
        requires
            y >= 0,
            x >= 0,
            si >= 0,
            bi >= 1,
    ;
}

/// Drawing a glyph sets the pixel at row `r`, column `c` of its cell to full intensity
/// where bit `c` of row `r` is set and to zero intensity elsewhere, and leaves every
/// byte outside the cell as it was.
pub proof fn lemma_glyph_pixels(
    bytes: Seq<u8>,
    info: FrameBufferInfo,
    x0: int,
    y0: int,
    g: Seq<u8>,
    r: int,
    c: int,
)
    requires
        info.fits(bytes.len()),
        0 <= x0,
        x0 + 8 <= info.stride,
        0 <= y0,
        y0 + 8 <= info.vertical_resolution,
        0 <= r < 8,
        0 <= c < 8,
    ensures
        0 <= info.pixel_offset(x0 + c, y0 + r),
        info.pixel_offset(x0 + c, y0 + r) + info.bytes_per_pixel <= bytes.len(),
        draw_glyph(bytes, info, x0, y0, g).subrange(
            info.pixel_offset(x0 + c, y0 + r),
            info.pixel_offset(x0 + c, y0 + r) + info.bytes_per_pixel,
        ) == pixel_color(
            info.pixel_format,
            info.bytes_per_pixel as nat,
            glyph_intensity(g, r, c),
        ),
        forall|i: int|
            0 <= i < bytes.len() && !in_cell_prefix(info, x0, y0, i, 64) ==> #[trigger] draw_glyph(
                bytes,
                info,
                x0,
                y0,
                g,
            )[i] == bytes[i],
{
    lemma_pixel_in_bounds(info, x0 + c, y0 + r);
    let off = info.pixel_offset(x0 + c, y0 + r);
    let bpp = info.bytes_per_pixel as int;
    let drawn = draw_glyph(bytes, info, x0, y0, g);
    let color = pixel_color(info.pixel_format, info.bytes_per_pixel as nat, glyph_intensity(g, r, c));
    assert forall|k: int| 0 <= k < bpp implies drawn.subrange(off, off + bpp)[k] == color[k] by {
        lemma_pixel_of_byte(info, off + k, x0 + c, y0 + r);
    }
    assert(drawn.subrange(off, off + bpp) =~= color);
}

/// Relies on `core::hint::black_box`: an opaque use of the byte just written, so that
/// the write to device memory is neither elided nor moved past this point.
#[verifier::external_body]
fn fence_read(bytes: &[u8], i: usize)
    requires
        i < bytes@.len(),
{
    core::hint::black_box(&bytes[i]);
}

/// A console over a framebuffer that it owns for its lifetime.
pub struct Logger<'a> {
    framebuffer: &'a mut [u8],
    info: FrameBufferInfo,
    x_pos: usize,
    y_pos: usize,
}

impl<'a> View for Logger<'a> {
    type V = Screen;

    closed spec fn view(&self) -> Screen {
        Screen { bytes: self.framebuffer@, x: self.x_pos as nat, y: self.y_pos as nat }
    }
}

impl<'a> Logger<'a> {
    /// The geometry the console was made with.
    pub closed spec fn geometry(&self) -> FrameBufferInfo {
        self.info
    }

    /// The geometry fits the buffer and the cursor stands at the start of a glyph
    /// column.
    pub closed spec fn wf(&self) -> bool {
        &&& self.info.fits(self.framebuffer@.len())
        &&& self.x_pos % 8 == 0
    }

    /// A well-formed console's geometry fits its buffer, and its cursor stands at the
    /// start of a glyph column.
    pub proof fn lemma_wf(&self)
        requires
            self.wf(),
        ensures
            self.geometry().fits(self@.bytes.len()),
            self@.x % 8 == 0,
    {
    }

    /// Creates a console over `framebuffer` and clears it.
    pub fn new(framebuffer: &'a mut [u8], info: FrameBufferInfo) -> (r: Self)
        requires
            info.fits(old(framebuffer)@.len()),
        ensures
            r.wf(),
            r.geometry() == info,
            r@ == (Screen { bytes: blank(old(framebuffer)@.len()), x: 0, y: 0 }),
    {
        let mut logger = Logger { framebuffer, info, x_pos: 0, y_pos: 0 };
        logger.clear();
        logger
    }

    fn newline(&mut self)
        ensures
            final(self).wf() == old(self).geometry().fits(old(self)@.bytes.len()),
            final(self).geometry() == old(self).geometry(),
            final(self)@ == (Screen { bytes: old(self)@.bytes, x: 0, y: newline_y(old(self)@.y) }),
            old(self)@.y + 12 <= usize::MAX ==> final(self)@.y == old(self)@.y + 12,
    {
        self.y_pos = self.y_pos.saturating_add(8 + crate::framebuffer::LINE_SPACING);
        self.carriage_return();
    }

    fn carriage_return(&mut self)
        ensures
            final(self).wf() == old(self).geometry().fits(old(self)@.bytes.len()),
            final(self).geometry() == old(self).geometry(),
            final(self)@ == (Screen { bytes: old(self)@.bytes, x: 0, y: old(self)@.y }),
    {
        self.x_pos = 0;
    }

    /// Erases all text on the screen and moves the cursor to the top-left corner.
    pub fn clear(&mut self)
        ensures
            final(self).wf() == old(self).geometry().fits(old(self)@.bytes.len()),
            final(self).geometry() == old(self).geometry(),
            final(self)@ == (Screen { bytes: blank(old(self)@.bytes.len()), x: 0, y: 0 }),
    {
        self.x_pos = 0;
        self.y_pos = 0;
        let n = self.framebuffer.len();
        let mut i: usize = 0;
        while i < n
            invariant
                i <= n,
                n == self.framebuffer@.len(),
                n == old(self).framebuffer@.len(),
                self.info == old(self).info,
                self.x_pos == 0,
                self.y_pos == 0,
                forall|j: int| 0 <= j < i ==> self.framebuffer@[j] == 0u8,
            decreases n - i,
        {
            self.framebuffer[i] = 0;
            i += 1;
        }
        assert(self.framebuffer@ =~= blank(n as nat));
    }

    /// Sets pixel `(x, y)` to the colour of `intensity` in the buffer's pixel format.
    pub fn write_pixel(&mut self, x: usize, y: usize, intensity: u8)
        requires
            old(self).wf(),
            x < old(self).geometry().stride,
            y < old(self).geometry().vertical_resolution,
        ensures
            final(self).wf(),
            final(self).geometry() == old(self).geometry(),
            final(self)@ == (Screen {
                bytes: paint_pixel(old(self)@.bytes, old(self).geometry(), x as int, y as int, intensity),
                ..old(self)@
            }),
            ({
                let info = old(self).geometry();
                let off = info.pixel_offset(x as int, y as int);
                let bpp = info.bytes_per_pixel as int;
                &&& 0 <= off
                &&& off + bpp <= final(self)@.bytes.len()
                &&& final(self)@.bytes.subrange(off, off + bpp) == pixel_color(
                    info.pixel_format,
                    bpp as nat,
                    intensity,
                )
                &&& info.pixel_format != PixelFormat::U8 ==> final(self)@.bytes.subrange(
                    off,
                    off + bpp,
                ) == Seq::new(
                    bpp as nat,
                    |i: int|
                        if i < 3 {
                            intensity
                        } else {
                            0u8
                        },
                )
                &&& info.pixel_format == PixelFormat::U8 ==> final(self)@.bytes.subrange(
                    off,
                    off + bpp,
                ) == Seq::new(
                    bpp as nat,
                    |i: int|
                        if i == 0 && intensity > 200 {
                            0x0Fu8
                        } else {
                            0u8
                        },
                )
            }),
    {
        let ghost before = self.framebuffer@;
        let stride = self.info.stride;
        let height = self.info.vertical_resolution;
        let bytes_per_pixel = self.info.bytes_per_pixel;
        let len = self.framebuffer.len();
        proof {
            let (xi, yi, si, hi, bi) = (x as int, y as int, stride as int, height as int, bytes_per_pixel as int);
            assert(yi * si + xi + 1 <= si * hi) by (nonlinear_arith)
                requires
                    yi + 1 <= hi,
                    xi < si,
                    si >= 0,
            ;
            assert((yi * si + xi + 1) * bi <= si * hi * bi) by (nonlinear_arith)
                requires
                    yi * si + xi + 1 <= si * hi,
                    bi >= 1,
            ;
            assert((yi * si + xi + 1) * bi == (yi * si + xi) * bi + bi) by (nonlinear_arith);
            assert(yi * si + xi <= (yi * si + xi + 1) * bi) by (nonlinear_arith)
                requires
                    bi >= 1,
                    yi * si + xi >= 0,
            ;
            assert(yi * si >= 0) by (nonlinear_arith)
                requires
                    yi >= 0,
                    si >= 0,
            ;
        }
        let pixel_offset = y * stride + x;
        let byte_offset = pixel_offset * bytes_per_pixel;
        let format = self.info.pixel_format;
        let mut k: usize = 0;
        while k < bytes_per_pixel
            invariant
                k <= bytes_per_pixel,
                bytes_per_pixel == self.info.bytes_per_pixel,
                byte_offset == self.info.pixel_offset(x as int, y as int),
                byte_offset + bytes_per_pixel <= len,
                len == before.len(),
                format == self.info.pixel_format,
                self.info == old(self).info,
                self.x_pos == old(self).x_pos,
                self.y_pos == old(self).y_pos,
                self.framebuffer@.len() == before.len(),
                forall|i: int|
                    0 <= i < before.len() ==> #[trigger] self.framebuffer@[i] == if byte_offset <= i
                        < byte_offset + k {
                        pixel_color(format, bytes_per_pixel as nat, intensity)[i - byte_offset]
                    } else {
                        before[i]
                    },
            decreases bytes_per_pixel - k,
        {
            self.framebuffer[byte_offset + k] = color_byte(format, bytes_per_pixel, intensity, k);
            k += 1;
        }
        assert(self.framebuffer@ =~= paint_pixel(before, self.info, x as int, y as int, intensity));
        proof {
            lemma_pixel_reads_back(before, self.info, x as int, y as int, intensity);
            let color = pixel_color(format, bytes_per_pixel as nat, intensity);
            if format != PixelFormat::U8 {
                assert(color =~= Seq::new(
                    bytes_per_pixel as nat,
                    |i: int|
                        if i < 3 {
                            intensity
                        } else {
                            0u8
                        },
                ));
            } else {
                assert(color =~= Seq::new(
                    bytes_per_pixel as nat,
                    |i: int|
                        if i == 0 && intensity > 200 {
                            0x0Fu8
                        } else {
                            0u8
                        },
                ));
            }
        }
        fence_read(self.framebuffer, byte_offset);
    }

    /// Draws glyph `rendered_char` with its top-left corner at the cursor, and moves
    /// the cursor one glyph to the right.
    fn write_rendered_char(&mut self, rendered_char: [u8; 8])
        requires
            old(self).wf(),
            old(self)@.x + 8 <= old(self).geometry().stride,
            old(self)@.y + 8 <= old(self).geometry().vertical_resolution,
        ensures
            final(self).wf(),
            final(self).geometry() == old(self).geometry(),
            final(self)@ == (Screen {
                bytes: draw_glyph(
                    old(self)@.bytes,
                    old(self).geometry(),
                    old(self)@.x as int,
                    old(self)@.y as int,
                    rendered_char@,
                ),
                x: old(self)@.x + 8,
                y: old(self)@.y,
            }),
    {
        let ghost before = self.framebuffer@;
        let ghost x0 = self.x_pos as int;
        let ghost y0 = self.y_pos as int;
        assert(before =~= draw_cells(before, self.info, x0, y0, rendered_char@, 0));
        let mut y: usize = 0;
        while y < 8
            invariant
                y <= 8,
                self.wf(),
                self.info == old(self).info,
                self.x_pos == x0,
                self.y_pos == y0,
                x0 + 8 <= self.info.stride,
                y0 + 8 <= self.info.vertical_resolution,
                self.framebuffer@ == draw_cells(before, self.info, x0, y0, rendered_char@, y * 8),
            decreases 8 - y,
        {
            let byte = rendered_char[y];
            let mut x: usize = 0;
            while x < 8
                invariant
                    x <= 8,
                    y < 8,
                    byte == rendered_char@[y as int],
                    self.wf(),
                    self.info == old(self).info,
                    self.x_pos == x0,
                    self.y_pos == y0,
                    x0 + 8 <= self.info.stride,
                    y0 + 8 <= self.info.vertical_resolution,
                    self.framebuffer@ == draw_cells(
                        before,
                        self.info,
                        x0,
                        y0,
                        rendered_char@,
                        y * 8 + x,
                    ),
                decreases 8 - x,
            {
                let alpha: u8 = if byte & (1u8 << (x as u8)) == 0 {
                    0
                } else {
                    255
                };
                proof {
                    lemma_draw_next_cell(before, self.info, x0, y0, rendered_char@, y as int, x as int);
                }
                self.write_pixel(self.x_pos + x, self.y_pos + y, alpha);
                x += 1;
            }
            y += 1;
        }
        self.x_pos = self.x_pos + 8;
    }

    /// Writes one character: a newline or carriage return moves the cursor; any other
    /// character wraps to a new line past the visible width, wipes the screen when no
    /// glyph row is left, and is then drawn at the cursor.
    pub fn write_char(&mut self, c: char)
        requires
            old(self).wf(),
            old(self).geometry().holds_glyphs(),
            in_basic_font(c),
        ensures
            final(self).wf(),
            final(self).geometry() == old(self).geometry(),
            final(self)@ == put_char(old(self)@, old(self).geometry(), c),
            c == '\n' ==> final(self)@ == (Screen {
                bytes: old(self)@.bytes,
                x: 0,
                y: newline_y(old(self)@.y),
            }),
            c == '\r' ==> final(self)@ == (Screen { bytes: old(self)@.bytes, x: 0, y: old(self)@.y }),
            c != '\n' && c != '\r' && old(self)@.x >= old(self).geometry().horizontal_resolution
                && newline_y(old(self)@.y) < old(self).geometry().vertical_resolution - 8
                ==> final(self)@ == (Screen {
                bytes: draw_glyph(
                    old(self)@.bytes,
                    old(self).geometry(),
                    0,
                    newline_y(old(self)@.y) as int,
                    basic_glyph(c),
                ),
                x: 8,
                y: newline_y(old(self)@.y),
            }),
            c != '\n' && c != '\r' && old(self)@.y >= old(self).geometry().vertical_resolution - 8
                ==> final(self)@ == (Screen {
                bytes: draw_glyph(
                    blank(old(self)@.bytes.len()),
                    old(self).geometry(),
                    0,
                    0,
                    basic_glyph(c),
                ),
                x: 8,
                y: 0,
            }),
            c != '\n' && c != '\r' && old(self)@.x < old(self).geometry().horizontal_resolution
                && old(self)@.y < old(self).geometry().vertical_resolution - 8
                ==> final(self)@ == (Screen {
                bytes: draw_glyph(
                    old(self)@.bytes,
                    old(self).geometry(),
                    old(self)@.x as int,
                    old(self)@.y as int,
                    basic_glyph(c),
                ),
                x: old(self)@.x + 8,
                y: old(self)@.y,
            }),
    {
        if c == '\n' {
            self.newline();
        } else if c == '\r' {
            self.carriage_return();
        } else {
            if self.x_pos >= self.width() {
                self.newline();
            }
            if self.y_pos >= self.height() - 8 {
                self.clear();
            }
            let rendered = glyph(c);
            assert(self.x_pos + 8 <= round_up_to_cell(self.info.horizontal_resolution as int)
                || self.x_pos == 0);
            self.write_rendered_char(rendered);
        }
    }

    /// Writes each character of `s` in turn.
    pub fn write_str(&mut self, s: &str)
        requires
            old(self).wf(),
            old(self).geometry().holds_glyphs(),
            all_in_basic_font(s@),
        ensures
            final(self).wf(),
            final(self).geometry() == old(self).geometry(),
            final(self)@ == put_str(old(self)@, old(self).geometry(), s@),
    {
        let n = s.unicode_len();
        let mut i: usize = 0;
        while i < n
            invariant
                i <= n,
                n == s@.len(),
                all_in_basic_font(s@),
                self.wf(),
                self.geometry() == old(self).geometry(),
                self.geometry().holds_glyphs(),
                self@ == put_str(old(self)@, old(self).geometry(), s@.take(i as int)),
            decreases n - i,
        {
            let c = s.get_char(i);
            self.write_char(c);
            assert(s@.take(i + 1).drop_last() =~= s@.take(i as int));
            i += 1;
        }
        assert(s@.take(n as int) =~= s@);
    }

    /// The cursor's column.
    pub fn x_pos(&self) -> (r: usize)
        ensures
            r == self@.x,
    {
        self.x_pos
    }

    /// The cursor's row.
    pub fn y_pos(&self) -> (r: usize)
        ensures
            r == self@.y,
    {
        self.y_pos
    }

    /// The bytes of the framebuffer.
    pub fn framebuffer(&self) -> (r: &[u8])
        ensures
            r@ == self@.bytes,
    {
        &*self.framebuffer
    }

    fn width(&self) -> (r: usize)
        ensures
            r == self.geometry().horizontal_resolution,
    {
        self.info.horizontal_resolution
    }

    fn height(&self) -> (r: usize)
        ensures
            r == self.geometry().vertical_resolution,
    {
        self.info.vertical_resolution
    }
}

} // verus!
