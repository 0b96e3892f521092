use noto_sans_mono_bitmap::{get_raster, FontWeight as NotoWeight, RasterHeight as NotoHeight};
use osboot::font::{FontWeight, RasterHeight, RasterizedChar};
use osboot::framebuffer::{
    FrameBufferInfo, FrameBufferWriter, PixelFormat, BORDER_PADDING, LINE_SPACING,
};

const STRIDE: usize = 64;
const WIDTH: usize = 60;
const HEIGHT: usize = 48;

fn info(format: PixelFormat) -> FrameBufferInfo {
    FrameBufferInfo {
        bytes_len: STRIDE * HEIGHT * 4,
        width: WIDTH,
        height: HEIGHT,
        pixel_format: format,
        stride: STRIDE,
    }
}

fn glyph(c: char) -> &'static [&'static [u8]] {
    get_raster(c, NotoWeight::Regular, NotoHeight::Size16).unwrap().raster()
}

fn pixel(bytes: &[u8], x: usize, y: usize) -> [u8; 4] {
    let o = (y * STRIDE + x) * 4;
    [bytes[o], bytes[o + 1], bytes[o + 2], bytes[o + 3]]
}

#[test]
fn new_clears_screen_and_homes_cursor() {
    let mut buf = vec![0xAAu8; STRIDE * HEIGHT * 4];
    let w = FrameBufferWriter::new(&mut buf, info(PixelFormat::Rgb));
    assert!(w.framebuffer().iter().all(|b| *b == 0));
    assert_eq!(w.x_pos(), BORDER_PADDING);
    assert_eq!(w.y_pos(), BORDER_PADDING);
    assert_eq!(w.width(), WIDTH);
    assert_eq!(w.height(), HEIGHT);
    assert_eq!(w.char_width(), 7);
}

#[test]
fn newline_and_carriage_return_move_cursor() {
    let mut buf = vec![0u8; STRIDE * HEIGHT * 4];
    let mut w = FrameBufferWriter::new(&mut buf, info(PixelFormat::Rgb));
    w.write_char('x');
    assert_eq!(w.x_pos(), 1 + 7);
    w.carriage_return();
    assert_eq!(w.x_pos(), 1);
    assert_eq!(w.y_pos(), 1);
    w.newline();
    assert_eq!(w.x_pos(), 1);
    assert_eq!(w.y_pos(), 1 + 16 + LINE_SPACING);
}

#[test]
fn write_pixel_rgb_and_bgr_channels() {
    let mut buf = vec![0u8; STRIDE * HEIGHT * 4];
    let mut w = FrameBufferWriter::new(&mut buf, info(PixelFormat::Rgb));
    w.write_pixel(3, 2, 200);
    assert_eq!(pixel(w.framebuffer(), 3, 2), [200, 200, 100, 0]);
    let mut buf2 = vec![0u8; STRIDE * HEIGHT * 4];
    let mut w2 = FrameBufferWriter::new(&mut buf2, info(PixelFormat::Bgr));
    w2.write_pixel(3, 2, 201);
    assert_eq!(pixel(w2.framebuffer(), 3, 2), [100, 201, 201, 0]);
    // neighbours untouched
    assert_eq!(pixel(w2.framebuffer(), 2, 2), [0, 0, 0, 0]);
    assert_eq!(pixel(w2.framebuffer(), 4, 2), [0, 0, 0, 0]);
}

#[test]
fn write_char_draws_glyph_at_cursor() {
    let mut buf = vec![0u8; STRIDE * HEIGHT * 4];
    let mut w = FrameBufferWriter::new(&mut buf, info(PixelFormat::Rgb));
    w.write_char('A');
    let rows = glyph('A');
    assert_eq!(rows.len(), 16);
    for (y, row) in rows.iter().enumerate() {
        for (x, v) in row.iter().enumerate() {
            assert_eq!(pixel(w.framebuffer(), 1 + x, 1 + y), [*v, *v, *v / 2, 0]);
        }
    }
    // the column right of the glyph and the border stay blank
    for y in 0..HEIGHT {
        assert_eq!(pixel(w.framebuffer(), 8, y), [0, 0, 0, 0]);
        assert_eq!(pixel(w.framebuffer(), 0, y), [0, 0, 0, 0]);
    }
    assert_eq!(w.x_pos(), 8);
    assert_eq!(w.y_pos(), 1);
}

#[test]
fn unknown_char_uses_backup_glyph() {
    let mut buf = vec![0u8; STRIDE * HEIGHT * 4];
    let mut w = FrameBufferWriter::new(&mut buf, info(PixelFormat::Rgb));
    assert!(get_raster('\u{4e2d}', NotoWeight::Regular, NotoHeight::Size16).is_none());
    w.write_char('\u{4e2d}');
    let rows = glyph('\u{FFFD}');
    for (y, row) in rows.iter().enumerate() {
        for (x, v) in row.iter().enumerate() {
            assert_eq!(pixel(w.framebuffer(), 1 + x, 1 + y), [*v, *v, *v / 2, 0]);
        }
    }
}

#[test]
fn line_wraps_at_right_edge() {
    let mut buf = vec![0u8; STRIDE * HEIGHT * 4];
    let mut w = FrameBufferWriter::new(&mut buf, info(PixelFormat::Rgb));
    // glyphs are 7 wide: after 8 glyphs x = 57, and 57 + 7 >= 60 wraps
    for _ in 0..8 {
        w.write_char('a');
    }
    assert_eq!(w.x_pos(), 57);
    assert_eq!(w.y_pos(), 1);
    w.write_char('b');
    assert_eq!(w.x_pos(), 1 + 7);
    assert_eq!(w.y_pos(), 1 + 18);
}

#[test]
fn screen_clears_at_bottom_edge() {
    let mut buf = vec![0u8; STRIDE * HEIGHT * 4];
    let mut w = FrameBufferWriter::new(&mut buf, info(PixelFormat::Rgb));
    w.write_char('A');
    w.write_char('\n');
    assert_eq!(w.y_pos(), 19);
    // 19 + 16 + 1 = 36 < 48: drawn on the second line
    w.write_char('B');
    assert_eq!(w.y_pos(), 19);
    w.write_char('\n');
    assert_eq!(w.y_pos(), 37);
    // 37 + 17 >= 48: the screen is cleared and the glyph drawn at the top
    w.write_char('C');
    assert_eq!(w.x_pos(), 8);
    assert_eq!(w.y_pos(), 1);
    let rows = glyph('C');
    for (y, row) in rows.iter().enumerate() {
        for (x, v) in row.iter().enumerate() {
            assert_eq!(pixel(w.framebuffer(), 1 + x, 1 + y), [*v, *v, *v / 2, 0]);
        }
    }
    // what 'B' drew on the second line is gone
    for y in 19..35 {
        for x in 0..WIDTH {
            assert_eq!(pixel(w.framebuffer(), x, y), [0, 0, 0, 0]);
        }
    }
}

#[test]
fn write_str_equals_char_by_char_and_concatenation() {
    let text = "Hi\r\nok";
    let mut a = vec![0u8; STRIDE * HEIGHT * 4];
    let mut b = vec![0u8; STRIDE * HEIGHT * 4];
    let mut c = vec![0u8; STRIDE * HEIGHT * 4];
    let (ax, ay, bx, by, cx, cy);
    {
        let mut wa = FrameBufferWriter::new(&mut a, info(PixelFormat::Bgr));
        assert!(wa.write_str(text).is_ok());
        ax = wa.x_pos();
        ay = wa.y_pos();
    }
    {
        let mut wb = FrameBufferWriter::new(&mut b, info(PixelFormat::Bgr));
        for ch in text.chars() {
            wb.write_char(ch);
        }
        bx = wb.x_pos();
        by = wb.y_pos();
    }
    {
        let mut wc = FrameBufferWriter::new(&mut c, info(PixelFormat::Bgr));
        assert!(wc.write_str("Hi\r").is_ok());
        assert!(wc.write_str("\nok").is_ok());
        cx = wc.x_pos();
        cy = wc.y_pos();
    }
    assert_eq!(a, b);
    assert_eq!(a, c);
    assert_eq!((ax, ay), (bx, by));
    assert_eq!((ax, ay), (cx, cy));
    assert_eq!((ax, ay), (1 + 14, 19));
}

#[test]
fn raster_height_value() {
    assert_eq!(RasterHeight::Size16.val(), 16);
    assert_eq!(FontWeight::Regular, FontWeight::Regular);
}

#[test]
fn can_write_checks_geometry_and_cursor() {
    let mut buf = vec![0u8; STRIDE * HEIGHT * 4];
    let w = FrameBufferWriter::new(&mut buf, info(PixelFormat::Rgb));
    assert!(w.can_write("hello\n"));
    assert_eq!(w.info().stride, STRIDE);

    // buffer shorter than the screen
    let mut small = vec![0u8; STRIDE * HEIGHT * 4 - 1];
    let ws = FrameBufferWriter::new(&mut small, info(PixelFormat::Rgb));
    assert!(!ws.can_write("a"));

    // screen too low for one glyph
    let mut low = vec![0u8; STRIDE * 16 * 4];
    let low_info = FrameBufferInfo { bytes_len: STRIDE * 16 * 4, width: WIDTH, height: 16, pixel_format: PixelFormat::Rgb, stride: STRIDE };
    let wl = FrameBufferWriter::new(&mut low, low_info);
    assert!(!wl.can_write("a"));

    // line wider than a row of the buffer
    let mut wide = vec![0u8; STRIDE * HEIGHT * 4];
    let wide_info = FrameBufferInfo { bytes_len: STRIDE * HEIGHT * 4, width: STRIDE + 1, height: HEIGHT, pixel_format: PixelFormat::Rgb, stride: STRIDE };
    let ww = FrameBufferWriter::new(&mut wide, wide_info);
    assert!(!ww.can_write("a"));
}

#[test]
fn line_feed_and_carriage_return_need_no_fitting_screen() {
    // a screen too small for any glyph: moving the cursor still works
    let mut tiny = vec![0u8; 16];
    let tiny_info = FrameBufferInfo { bytes_len: 16, width: 2, height: 2, pixel_format: PixelFormat::Rgb, stride: 2 };
    let mut w = FrameBufferWriter::new(&mut tiny, tiny_info);
    assert!(w.can_write("\n\r\n"));
    assert!(!w.can_write("\na"));
    assert!(w.write_str("\n\r\n").is_ok());
    assert_eq!(w.x_pos(), 1);
    assert_eq!(w.y_pos(), 1 + 2 * 18);
    w.write_char('\r');
    assert_eq!(w.x_pos(), 1);
}

#[test]
fn rendered_char_wraps_into_next_row_of_narrow_stride() {
    // stride 4: a 3-pixel-wide raster drawn at x = 2 spills into the next row
    static ROW0: [u8; 3] = [10, 20, 30];
    static ROW1: [u8; 3] = [40, 50, 60];
    static ROWS: [&[u8]; 2] = [&ROW0, &ROW1];
    static DOT: [u8; 1] = [90];
    static DOT_ROWS: [&[u8]; 1] = [&DOT];
    let mut buf = vec![0u8; 4 * 4 * 4];
    let narrow = FrameBufferInfo { bytes_len: 64, width: 4, height: 4, pixel_format: PixelFormat::Rgb, stride: 4 };
    let mut w = FrameBufferWriter::new(&mut buf, narrow);
    w.write_rendered_char(RasterizedChar { raster: &DOT_ROWS, height: 1, width: 1 });
    assert_eq!(w.x_pos(), 2);
    w.write_rendered_char(RasterizedChar { raster: &ROWS, height: 2, width: 3 });
    let px = |w: &FrameBufferWriter, p: usize| {
        let b = w.framebuffer();
        [b[p * 4], b[p * 4 + 1], b[p * 4 + 2], b[p * 4 + 3]]
    };
    // the dot went to pixel 5; from cursor (2, 1) row 0 covers pixels 6, 7, 8
    // (8 is the first pixel of the next row) and row 1 covers 10, 11, 12
    assert_eq!(px(&w, 5), [90, 90, 45, 0]);
    assert_eq!(px(&w, 6), [10, 10, 5, 0]);
    assert_eq!(px(&w, 8), [30, 30, 15, 0]);
    assert_eq!(px(&w, 10), [40, 40, 20, 0]);
    assert_eq!(px(&w, 12), [60, 60, 30, 0]);
    assert_eq!(px(&w, 9), [0, 0, 0, 0]);
    assert_eq!(w.x_pos(), 5);
    assert_eq!(w.y_pos(), 1);
}
