use fb_logger::{is_renderable, is_renderable_str, FrameBufferInfo, Logger, PixelFormat};

const GLYPH_A: [u8; 8] = [0x0C, 0x1E, 0x33, 0x33, 0x3F, 0x33, 0x33, 0x00];
const GLYPH_LOWER_A: [u8; 8] = [0x00, 0x00, 0x1E, 0x30, 0x3E, 0x33, 0x6E, 0x00];
const GLYPH_LOWER_B: [u8; 8] = [0x07, 0x06, 0x06, 0x3E, 0x66, 0x66, 0x3B, 0x00];

fn info(width: usize, height: usize, stride: usize, format: PixelFormat, bpp: usize) -> FrameBufferInfo {
    FrameBufferInfo {
        byte_len: stride * height * bpp,
        horizontal_resolution: width,
        vertical_resolution: height,
        pixel_format: format,
        bytes_per_pixel: bpp,
        stride,
    }
}

fn pixel(buf: &[u8], info: &FrameBufferInfo, x: usize, y: usize) -> Vec<u8> {
    let off = (y * info.stride + x) * info.bytes_per_pixel;
    buf[off..off + info.bytes_per_pixel].to_vec()
}

/// Checks that the glyph cell at `(x0, y0)` of a single-channel buffer holds `glyph`.
fn assert_glyph_u8(buf: &[u8], info: &FrameBufferInfo, x0: usize, y0: usize, glyph: [u8; 8]) {
    for (row, bits) in glyph.iter().enumerate() {
        for col in 0..8 {
            let expected = if bits & (1 << col) == 0 { 0 } else { 0x0F };
            assert_eq!(pixel(buf, info, x0 + col, y0 + row)[0], expected, "pixel ({}, {})", x0 + col, y0 + row);
        }
    }
}

#[test]
fn pixel_rgb_full_and_zero() {
    let i = info(16, 16, 16, PixelFormat::RGB, 4);
    let mut buf = vec![0x55u8; i.byte_len];
    let mut logger = Logger::new(&mut buf, i);
    logger.write_pixel(3, 2, 255);
    assert_eq!(pixel(logger.framebuffer(), &i, 3, 2), vec![255, 255, 255, 0]);
    logger.write_pixel(3, 2, 0);
    assert_eq!(pixel(logger.framebuffer(), &i, 3, 2), vec![0, 0, 0, 0]);
}

#[test]
fn pixel_bgr_three_bytes() {
    let i = info(16, 16, 16, PixelFormat::BGR, 3);
    let mut buf = vec![0u8; i.byte_len];
    let mut logger = Logger::new(&mut buf, i);
    logger.write_pixel(15, 15, 255);
    assert_eq!(pixel(logger.framebuffer(), &i, 15, 15), vec![255, 255, 255]);
    assert_eq!(logger.framebuffer().iter().filter(|b| **b != 0).count(), 3);
}

#[test]
fn pixel_rgb_padding_beyond_four_bytes_is_zero() {
    let i = info(8, 8, 8, PixelFormat::RGB, 5);
    let mut buf = vec![0u8; i.byte_len];
    let mut logger = Logger::new(&mut buf, i);
    logger.write_pixel(1, 1, 255);
    assert_eq!(pixel(logger.framebuffer(), &i, 1, 1), vec![255, 255, 255, 0, 0]);
}

#[test]
fn pixel_u8_threshold() {
    let i = info(16, 16, 16, PixelFormat::U8, 1);
    let mut buf = vec![0u8; i.byte_len];
    let mut logger = Logger::new(&mut buf, i);
    logger.write_pixel(0, 0, 200);
    assert_eq!(pixel(logger.framebuffer(), &i, 0, 0), vec![0]);
    logger.write_pixel(0, 0, 201);
    assert_eq!(pixel(logger.framebuffer(), &i, 0, 0), vec![0x0F]);
    logger.write_pixel(1, 0, 255);
    assert_eq!(pixel(logger.framebuffer(), &i, 1, 0), vec![0x0F]);
    logger.write_pixel(1, 0, 0);
    assert_eq!(pixel(logger.framebuffer(), &i, 1, 0), vec![0]);
}

#[test]
fn pixel_u8_wide_pixel() {
    let i = info(8, 8, 8, PixelFormat::U8, 4);
    let mut buf = vec![0u8; i.byte_len];
    let mut logger = Logger::new(&mut buf, i);
    logger.write_pixel(2, 3, 255);
    assert_eq!(pixel(logger.framebuffer(), &i, 2, 3), vec![0x0F, 0, 0, 0]);
}

#[test]
fn pixel_respects_stride() {
    let i = info(8, 8, 12, PixelFormat::U8, 1);
    let mut buf = vec![0u8; i.byte_len];
    let mut logger = Logger::new(&mut buf, i);
    logger.write_pixel(1, 2, 255);
    assert_eq!(logger.framebuffer()[2 * 12 + 1], 0x0F);
}

#[test]
fn render_capital_a() {
    let i = info(64, 32, 64, PixelFormat::U8, 1);
    let mut buf = vec![0u8; i.byte_len];
    let mut logger = Logger::new(&mut buf, i);
    logger.write_char('A');
    assert_glyph_u8(logger.framebuffer(), &i, 0, 0, GLYPH_A);
    assert_eq!((logger.x_pos(), logger.y_pos()), (8, 0));
    // nothing outside the cell was touched
    let lit = logger.framebuffer().iter().filter(|b| **b != 0).count();
    let bits: u32 = GLYPH_A.iter().map(|b| b.count_ones()).sum();
    assert_eq!(lit as u32, bits);
}

#[test]
fn render_capital_a_rgb() {
    let i = info(16, 16, 16, PixelFormat::RGB, 4);
    let mut buf = vec![0u8; i.byte_len];
    let mut logger = Logger::new(&mut buf, i);
    logger.write_char('A');
    for (row, bits) in GLYPH_A.iter().enumerate() {
        for col in 0..8 {
            let v = if bits & (1 << col) == 0 { 0 } else { 255 };
            assert_eq!(pixel(logger.framebuffer(), &i, col, row), vec![v, v, v, 0]);
        }
    }
}

#[test]
fn write_two_letters_side_by_side() {
    let i = info(64, 32, 64, PixelFormat::U8, 1);
    let mut buf = vec![0u8; i.byte_len];
    let mut logger = Logger::new(&mut buf, i);
    logger.write_str("ab");
    assert_glyph_u8(logger.framebuffer(), &i, 0, 0, GLYPH_LOWER_A);
    assert_glyph_u8(logger.framebuffer(), &i, 8, 0, GLYPH_LOWER_B);
    assert_eq!((logger.x_pos(), logger.y_pos()), (16, 0));
}

#[test]
fn newline_and_carriage_return() {
    let i = info(64, 64, 64, PixelFormat::U8, 1);
    let mut buf = vec![0u8; i.byte_len];
    let mut logger = Logger::new(&mut buf, i);
    logger.write_str("ab");
    logger.write_char('\n');
    assert_eq!((logger.x_pos(), logger.y_pos()), (0, 12));
    logger.write_str("ab");
    logger.write_char('\r');
    assert_eq!((logger.x_pos(), logger.y_pos()), (0, 12));
    logger.write_char('\n');
    assert_eq!((logger.x_pos(), logger.y_pos()), (0, 24));
    // moving the cursor draws nothing
    assert_glyph_u8(logger.framebuffer(), &i, 0, 24, [0; 8]);
}

#[test]
fn wrap_past_width() {
    let i = info(16, 64, 16, PixelFormat::U8, 1);
    let mut buf = vec![0u8; i.byte_len];
    let mut logger = Logger::new(&mut buf, i);
    logger.write_str("ab");
    assert_eq!((logger.x_pos(), logger.y_pos()), (16, 0));
    logger.write_char('A');
    assert_eq!((logger.x_pos(), logger.y_pos()), (8, 12));
    assert_glyph_u8(logger.framebuffer(), &i, 0, 12, GLYPH_A);
    assert_glyph_u8(logger.framebuffer(), &i, 0, 0, GLYPH_LOWER_A);
}

#[test]
fn wrap_with_width_not_a_multiple_of_eight() {
    let i = info(12, 64, 16, PixelFormat::U8, 1);
    let mut buf = vec![0u8; i.byte_len];
    let mut logger = Logger::new(&mut buf, i);
    logger.write_str("abA");
    assert_glyph_u8(logger.framebuffer(), &i, 8, 0, GLYPH_LOWER_B);
    assert_glyph_u8(logger.framebuffer(), &i, 0, 12, GLYPH_A);
    assert_eq!((logger.x_pos(), logger.y_pos()), (8, 12));
}

#[test]
fn full_screen_is_wiped() {
    let i = info(64, 20, 64, PixelFormat::U8, 1);
    let mut buf = vec![0u8; i.byte_len];
    let mut logger = Logger::new(&mut buf, i);
    logger.write_str("ab\n");
    assert_eq!(logger.y_pos(), 12);
    logger.write_char('A');
    assert_eq!((logger.x_pos(), logger.y_pos()), (8, 0));
    assert_glyph_u8(logger.framebuffer(), &i, 0, 0, GLYPH_A);
    assert_glyph_u8(logger.framebuffer(), &i, 8, 0, [0; 8]);
    let lit = logger.framebuffer().iter().filter(|b| **b != 0).count();
    let bits: u32 = GLYPH_A.iter().map(|b| b.count_ones()).sum();
    assert_eq!(lit as u32, bits);
}

#[test]
fn last_row_that_fits_is_used() {
    let i = info(64, 21, 64, PixelFormat::U8, 1);
    let mut buf = vec![0u8; i.byte_len];
    let mut logger = Logger::new(&mut buf, i);
    logger.write_str("a\nA");
    assert_eq!((logger.x_pos(), logger.y_pos()), (8, 12));
    assert_glyph_u8(logger.framebuffer(), &i, 0, 0, GLYPH_LOWER_A);
    assert_glyph_u8(logger.framebuffer(), &i, 0, 12, GLYPH_A);
}

#[test]
fn wrap_then_wipe() {
    let i = info(8, 16, 8, PixelFormat::U8, 1);
    let mut buf = vec![0u8; i.byte_len];
    let mut logger = Logger::new(&mut buf, i);
    logger.write_str("aA");
    assert_eq!((logger.x_pos(), logger.y_pos()), (8, 0));
    assert_glyph_u8(logger.framebuffer(), &i, 0, 0, GLYPH_A);
}

#[test]
fn clear_zeroes_everything() {
    let i = info(16, 16, 16, PixelFormat::RGB, 4);
    let mut buf = vec![0u8; i.byte_len];
    let mut logger = Logger::new(&mut buf, i);
    logger.write_str("AA\nb");
    assert!(logger.framebuffer().iter().any(|b| *b != 0));
    logger.clear();
    assert!(logger.framebuffer().iter().all(|b| *b == 0));
    assert_eq!((logger.x_pos(), logger.y_pos()), (0, 0));
}

#[test]
fn new_clears_arbitrary_contents() {
    let i = info(16, 16, 16, PixelFormat::BGR, 4);
    let mut buf: Vec<u8> = (0..i.byte_len).map(|k| (k % 251) as u8 + 1).collect();
    buf.push(0xEE);
    let logger = Logger::new(&mut buf, i);
    assert!(logger.framebuffer().iter().all(|b| *b == 0));
    assert_eq!((logger.x_pos(), logger.y_pos()), (0, 0));
    assert_eq!(logger.framebuffer().len(), i.byte_len + 1);
}

#[test]
fn renderable_characters() {
    assert!(is_renderable('A'));
    assert!(is_renderable('\n'));
    assert!(is_renderable('\u{7F}'));
    assert!(!is_renderable('\u{80}'));
    assert!(!is_renderable('é'));
    assert!(is_renderable_str("Logger setup done.\n"));
    assert!(!is_renderable_str("naïve"));
    assert!(is_renderable_str(""));
}

#[test]
fn geometry_fits() {
    let ok = info(640, 480, 640, PixelFormat::RGB, 4);
    assert!(ok.fits_len(640 * 480 * 4));
    assert!(ok.fits_len(640 * 480 * 4 + 100));
    assert!(!ok.fits_len(640 * 480 * 4 - 1));
    assert!(info(2, 1, 2, PixelFormat::U8, 1).fits_len(2));
    assert!(!info(8, 8, 8, PixelFormat::U8, 0).fits_len(1 << 20));
    // sizes that overflow never fit
    assert!(!info(8, usize::MAX, 8, PixelFormat::U8, 1).fits_len(usize::MAX));
}

#[test]
fn geometry_holds_glyphs() {
    assert!(info(640, 480, 640, PixelFormat::RGB, 4).fits_glyphs());
    // a row must hold the last glyph cell that starts inside the visible width
    assert!(!info(12, 16, 12, PixelFormat::U8, 1).fits_glyphs());
    assert!(info(12, 16, 16, PixelFormat::U8, 1).fits_glyphs());
    // at least one glyph tall and one glyph wide
    assert!(!info(8, 7, 8, PixelFormat::U8, 1).fits_glyphs());
    assert!(!info(0, 8, 7, PixelFormat::U8, 1).fits_glyphs());
    assert!(info(0, 8, 8, PixelFormat::U8, 1).fits_glyphs());
    assert!(!info(2, 2, 2, PixelFormat::U8, 1).fits_glyphs());
}

#[test]
fn small_buffer_pixels_u8() {
    let i = info(2, 1, 2, PixelFormat::U8, 1);
    let mut buf = vec![0x55u8; 2];
    let mut logger = Logger::new(&mut buf, i);
    assert_eq!(logger.framebuffer(), &[0, 0]);
    logger.write_pixel(1, 0, 201);
    assert_eq!(logger.framebuffer(), &[0x00, 0x0F]);
    logger.write_pixel(0, 0, 200);
    assert_eq!(logger.framebuffer(), &[0x00, 0x0F]);
}

#[test]
fn small_buffer_pixels_rgb_and_bgr() {
    let i = info(2, 1, 2, PixelFormat::RGB, 4);
    let mut buf = vec![0xAAu8; 8];
    let mut logger = Logger::new(&mut buf, i);
    logger.write_pixel(1, 0, 255);
    assert_eq!(logger.framebuffer(), &[0, 0, 0, 0, 0xFF, 0xFF, 0xFF, 0x00]);

    let i = info(2, 1, 2, PixelFormat::BGR, 3);
    let mut buf = vec![0xAAu8; 6];
    let mut logger = Logger::new(&mut buf, i);
    logger.write_pixel(0, 0, 255);
    logger.write_pixel(1, 0, 0);
    assert_eq!(logger.framebuffer(), &[0xFF, 0xFF, 0xFF, 0x00, 0x00, 0x00]);
}

#[test]
fn small_buffer_row_offset_uses_stride() {
    let i = info(1, 2, 2, PixelFormat::RGB, 1);
    let mut buf = vec![0u8; 4];
    let mut logger = Logger::new(&mut buf, i);
    logger.write_pixel(0, 1, 255);
    assert_eq!(logger.framebuffer(), &[0, 0, 255, 0]);
}

#[test]
fn small_buffer_clear() {
    let i = info(2, 2, 2, PixelFormat::BGR, 4);
    let mut buf = vec![0xABu8; 16];
    let mut logger = Logger::new(&mut buf, i);
    logger.write_pixel(1, 1, 255);
    assert!(logger.framebuffer().iter().any(|b| *b != 0));
    logger.clear();
    assert_eq!(logger.framebuffer(), &[0u8; 16]);
    assert_eq!((logger.x_pos(), logger.y_pos()), (0, 0));
}

#[test]
fn zero_width_draws_each_glyph_on_a_new_line() {
    let i = info(0, 64, 8, PixelFormat::U8, 1);
    let mut buf = vec![0u8; i.byte_len];
    let mut logger = Logger::new(&mut buf, i);
    logger.write_str("aA");
    assert_glyph_u8(logger.framebuffer(), &i, 0, 24, GLYPH_A);
    assert_eq!((logger.x_pos(), logger.y_pos()), (8, 24));
}
