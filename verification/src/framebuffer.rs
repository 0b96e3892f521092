//! A text console drawn into a linear framebuffer with a bitmap font.
//!
//! The framebuffer is a byte slice holding `stride * height` pixels of four
//! bytes each, row after row. Text is written glyph by glyph at a cursor; a
//! line that would overflow the right edge wraps, and a glyph that would
//! overflow the bottom edge clears the screen first.
use vstd::prelude::*;
use crate::font::{
    font_raster, font_raster_width, get_raster, get_raster_width, raster_rows, FontWeight,
    RasterHeight, RasterizedChar,
};

verus! {

/// Blank pixels kept between the screen border and the text.
pub const BORDER_PADDING: usize = 1;

/// Blank pixel rows between two lines of text.
pub const LINE_SPACING: usize = 2;

/// Blank pixel columns between two glyphs.
pub const LETTER_SPACING: usize = 0;

/// Bytes that one pixel takes in the framebuffer.
pub const BYTES_PER_PIXEL: usize = 4;

/// Raster height of the console font.
pub const CHAR_RASTER_HEIGHT: RasterHeight = RasterHeight::Size16;

/// Weight of the console font.
pub const FONT_WEIGHT: FontWeight = FontWeight::Regular;

/// Drawn in place of a character that the font has no glyph for.
pub const BACKUP_CHAR: char = '\u{FFFD}';

/// Order of the colour channels in a framebuffer pixel.
#[derive(Debug, Clone, Copy)]
pub enum PixelFormat {
    Rgb,
    Bgr,
}

/// Geometry of a framebuffer, as the firmware reports it.
#[derive(Debug, Clone, Copy)]
pub struct FrameBufferInfo {
    pub bytes_len: usize,
    pub width: usize,
    pub height: usize,
    pub pixel_format: PixelFormat,
    pub stride: usize,
}

/// Byte `channel` of a grey pixel of the given intensity.
pub open spec fn pixel_byte(format: PixelFormat, intensity: u8, channel: int) -> u8 {
    match format {
        PixelFormat::Rgb => if channel == 0 || channel == 1 {
            intensity
        } else if channel == 2 {
            intensity / 2
        } else {
            0
        },
        PixelFormat::Bgr => if channel == 0 {
            intensity / 2
        } else if channel == 1 || channel == 2 {
            intensity
        } else {
            0
        },
    }
}

/// The bytes after setting pixel `(x, y)` of a pixel array with rows of
/// `stride` pixels to a grey of the given intensity.
pub open spec fn set_pixel(
    bytes: Seq<u8>,
    stride: int,
    format: PixelFormat,
    x: int,
    y: int,
    intensity: u8,
) -> Seq<u8> {
    Seq::new(
        bytes.len(),
        |k: int|
            if k / 4 == y * stride + x {
                pixel_byte(format, intensity, k % 4)
            } else {
                bytes[k]
            },
    )
}

/// The bytes after setting the first `count` pixels of `row`, left to right,
/// from `(x0, y)` on.
pub open spec fn paint_cols(
    bytes: Seq<u8>,
    stride: int,
    format: PixelFormat,
    x0: int,
    y: int,
    row: Seq<u8>,
    count: int,
) -> Seq<u8>
    decreases count,
{
    if count <= 0 {
        bytes
    } else {
        set_pixel(
            paint_cols(bytes, stride, format, x0, y, row, count - 1),
            stride,
            format,
            x0 + count - 1,
            y,
            row[count - 1],
        )
    }
}

/// The bytes after drawing the first `count` rows of `rows`, top to bottom
/// and each left to right, with the upper left corner at `(x0, y0)`.
pub open spec fn paint_rows(
    bytes: Seq<u8>,
    stride: int,
    format: PixelFormat,
    x0: int,
    y0: int,
    rows: Seq<Seq<u8>>,
    count: int,
) -> Seq<u8>
    decreases count,
{
    if count <= 0 {
        bytes
    } else {
        let row = rows[count - 1];
        paint_cols(
            paint_rows(bytes, stride, format, x0, y0, rows, count - 1),
            stride,
            format,
            x0,
            y0 + count - 1,
            row,
            row.len() as int,
        )
    }
}

/// The first byte past pixel `(x0 + i, y0 + j)`.
pub open spec fn pixel_end(stride: int, x0: int, y0: int, j: int, i: int) -> int {
    ((y0 + j) * stride + x0 + i) * 4 + 4
}

/// Every pixel of `rows` drawn at `(x0, y0)` lies inside `len` bytes.
pub open spec fn raster_in_buffer(stride: int, x0: int, y0: int, rows: Seq<Seq<u8>>, len: int) -> bool {
    forall|j: int, i: int|
        0 <= j < rows.len() && 0 <= i < rows[j].len() ==> #[trigger] pixel_end(stride, x0, y0, j, i)
            <= len
}

/// Whether `c` is drawn with a glyph, rather than moving the cursor.
pub open spec fn is_drawn(c: char) -> bool {
    c != '\n' && c != '\r'
}

/// Whether some character of `cs` is drawn with a glyph.
pub open spec fn draws_glyph(cs: Seq<char>) -> bool {
    exists|i: int| 0 <= i < cs.len() && is_drawn(#[trigger] cs[i])
}

/// Whether pixel `p` (an index into the pixel array) lies in the box of
/// `height` rows and `width` columns whose upper left corner is `(x0, y0)`,
/// and, of that box, among the first `done_rows` rows or in row `done_rows`
/// left of column `done_cols`.
pub open spec fn pixel_drawn(
    p: int,
    stride: int,
    x0: int,
    y0: int,
    height: int,
    width: int,
    done_rows: int,
    done_cols: int,
) -> bool {
    let px = p % stride;
    let py = p / stride;
    &&& y0 <= py < y0 + height
    &&& x0 <= px < x0 + width
    &&& (py - y0 < done_rows || (py - y0 == done_rows && px - x0 < done_cols))
}

/// The bytes after drawing the first `done_rows` rows, and `done_cols` pixels
/// of the next row, of the raster `rows` (of `width` columns) with its upper
/// left corner at `(x0, y0)`.
pub open spec fn painted_upto(
    bytes: Seq<u8>,
    stride: int,
    format: PixelFormat,
    x0: int,
    y0: int,
    rows: Seq<Seq<u8>>,
    width: int,
    done_rows: int,
    done_cols: int,
) -> Seq<u8> {
    Seq::new(
        bytes.len(),
        |k: int|
            {
                let p = k / 4;
                if pixel_drawn(p, stride, x0, y0, rows.len() as int, width, done_rows, done_cols) {
                    pixel_byte(format, rows[p / stride - y0][p % stride - x0], k % 4)
                } else {
                    bytes[k]
                }
            },
    )
}

/// The bytes after drawing the whole raster `rows` at `(x0, y0)`.
pub open spec fn painted(
    bytes: Seq<u8>,
    stride: int,
    format: PixelFormat,
    x0: int,
    y0: int,
    rows: Seq<Seq<u8>>,
    width: int,
) -> Seq<u8> {
    painted_upto(bytes, stride, format, x0, y0, rows, width, rows.len() as int, 0)
}

/// Pixel rows that one line of text advances the cursor by.
pub open spec fn line_advance() -> int {
    CHAR_RASTER_HEIGHT.pixels() + LINE_SPACING
}

/// The raster drawn for `c`: its own glyph, or the backup glyph where the font has none.
pub open spec fn glyph_for(c: char) -> Seq<Seq<u8>> {
    match font_raster(c, FONT_WEIGHT, CHAR_RASTER_HEIGHT) {
        Some(r) => r,
        None => font_raster(BACKUP_CHAR, FONT_WEIGHT, CHAR_RASTER_HEIGHT).unwrap(),
    }
}

/// The console state `(bytes, x, y)` after writing `c`, with glyphs `w` pixels wide.
pub open spec fn char_step(info: FrameBufferInfo, w: int, s: (Seq<u8>, int, int), c: char) -> (
    Seq<u8>,
    int,
    int,
) {
    let bytes = s.0;
    let x = s.1;
    let y = s.2;
    if c == '\n' {
        (bytes, BORDER_PADDING as int, y + line_advance())
    } else if c == '\r' {
        (bytes, BORDER_PADDING as int, y)
    } else {
        let wrapped = x + w >= info.width;
        let x1 = if wrapped {
            BORDER_PADDING as int
        } else {
            x
        };
        let y1 = if wrapped {
            y + line_advance()
        } else {
            y
        };
        let full = y1 + CHAR_RASTER_HEIGHT.pixels() + BORDER_PADDING >= info.height;
        let b2 = if full {
            Seq::new(bytes.len(), |k: int| 0u8)
        } else {
            bytes
        };
        let x2 = if full {
            BORDER_PADDING as int
        } else {
            x1
        };
        let y2 = if full {
            BORDER_PADDING as int
        } else {
            y1
        };
        (
            painted(b2, info.stride as int, info.pixel_format, x2, y2, glyph_for(c), w),
            x2 + w + LETTER_SPACING,
            y2,
        )
    }
}

/// The console state after writing the characters `cs` one after another.
pub open spec fn text_step(info: FrameBufferInfo, w: int, s: (Seq<u8>, int, int), cs: Seq<char>) -> (
    Seq<u8>,
    int,
    int,
)
    decreases cs.len(),
{
    if cs.len() == 0 {
        s
    } else {
        char_step(info, w, text_step(info, w, s, cs.drop_last()), cs.last())
    }
}

/// Writing `a` and then `b` leaves the console as writing `a + b` does.
pub proof fn lemma_text_step_concat(
    info: FrameBufferInfo,
    w: int,
    s: (Seq<u8>, int, int),
    a: Seq<char>,
    b: Seq<char>,
)
    ensures
        text_step(info, w, text_step(info, w, s, a), b) == text_step(info, w, s, a + b),
    decreases b.len(),
{
    if b.len() == 0 {
        assert(a + b =~= a);
    } else {
        lemma_text_step_concat(info, w, s, a, b.drop_last());
        assert((a + b).drop_last() =~= a + b.drop_last());
        assert((a + b).last() == b.last());
    }
}

/// Writing no characters changes nothing.
pub proof fn lemma_text_step_empty(info: FrameBufferInfo, w: int, s: (Seq<u8>, int, int))
    ensures
        text_step(info, w, s, Seq::<char>::empty()) == s,
{
}

/// A character that the font has no glyph for is written as the backup
/// character is.
pub proof fn lemma_backup_glyph(info: FrameBufferInfo, w: int, s: (Seq<u8>, int, int), c: char)
    requires
        is_drawn(c),
        font_raster(c, FONT_WEIGHT, CHAR_RASTER_HEIGHT) is None,
    ensures
        char_step(info, w, s, c) == char_step(info, w, s, BACKUP_CHAR),
{
    assert(glyph_for(c) == glyph_for(BACKUP_CHAR));
}

/// Where a drawn character goes: on the current line when its glyph ends left
/// of the screen's right edge, else at the start of the next line (18 pixel
/// rows down), unless the glyph would then reach the bottom border, which
/// clears the screen and starts again at the top left. The cursor ends just
/// right of the glyph, which keeps it inside the visible width whenever the
/// screen is at least the border plus one glyph wide.
pub proof fn lemma_glyph_placement(info: FrameBufferInfo, w: int, s: (Seq<u8>, int, int), c: char)
    requires
        c != '\n',
        c != '\r',
    ensures
        ({
            let t = char_step(info, w, s, c);
            &&& s.1 + w < info.width && s.2 + 17 < info.height ==> t.1 == s.1 + w && t.2 == s.2
            &&& s.1 + w >= info.width && s.2 + 18 + 17 < info.height ==> t.1 == 1 + w && t.2 == s.2
                + 18
            &&& s.1 + w < info.width && s.2 + 17 >= info.height ==> t.1 == 1 + w && t.2 == 1
            &&& s.1 + w >= info.width && s.2 + 18 + 17 >= info.height ==> t.1 == 1 + w && t.2 == 1
            &&& 1 + w <= info.width ==> t.1 <= info.width
        }),
{
}

/// A character that the font has a glyph for is drawn with that glyph: where
/// it goes on the current line at `(x, y)`, pixel `(x + i, y + j)` takes the
/// grey of the glyph's pixel `(i, j)`, in the buffer's channel order.
pub proof fn lemma_own_glyph_drawn(
    info: FrameBufferInfo,
    w: int,
    s: (Seq<u8>, int, int),
    c: char,
    r: Seq<Seq<u8>>,
    j: int,
    i: int,
    ch: int,
)
    requires
        c != '\n',
        c != '\r',
        font_raster(c, FONT_WEIGHT, CHAR_RASTER_HEIGHT) == Some(r),
        r.len() == 16,
        forall|k: int| 0 <= k < 16 ==> (#[trigger] r[k]).len() == w,
        0 <= s.1,
        0 <= s.2,
        s.1 + w < info.width,
        info.width <= info.stride,
        s.2 + 17 < info.height,
        info.stride * info.height * 4 <= s.0.len(),
        0 <= j < 16,
        0 <= i < w,
        0 <= ch < 4,
    ensures
        ({
            let t = char_step(info, w, s, c);
            let v = r[j][i];
            let k = ((s.2 + j) * info.stride + s.1 + i) * 4 + ch;
            &&& 0 <= k < t.0.len()
            &&& t.0[k] == if ch == 3 {
                0
            } else if info.pixel_format is Rgb {
                if ch == 2 {
                    v / 2
                } else {
                    v
                }
            } else {
                if ch == 0 {
                    v / 2
                } else {
                    v
                }
            }
        }),
{
    let stride = info.stride as int;
    let x = s.1;
    let y = s.2;
    assert((y + 16) * stride * 4 <= stride * info.height * 4) by (nonlinear_arith)
        requires
            y + 16 <= info.height,
            stride >= 0,
    ;
    lemma_pixel_in_buffer(stride, x, y, 16, w, j, i, s.0.len() as int);
    let k = ((y + j) * stride + x + i) * 4 + ch;
    let p = k / 4;
    assert(p == (y + j) * stride + x + i);
    assert(k % 4 == ch);
    lemma_pixel_coords(p, stride, x + i, y + j);
    assert(glyph_for(c) == r);
}

/// Writing a single character as a string is writing that character.
pub proof fn lemma_text_step_single(info: FrameBufferInfo, w: int, s: (Seq<u8>, int, int), c: char)
    ensures
        text_step(info, w, s, seq![c]) == char_step(info, w, s, c),
{
    assert(seq![c].drop_last() =~= Seq::<char>::empty());
    assert(text_step(info, w, s, Seq::<char>::empty()) == s);
    assert(seq![c].last() == c);
}

/// `p` is pixel `(x, y)` of a pixel array with rows of `stride` pixels.
proof fn lemma_pixel_coords(p: int, stride: int, x: int, y: int)
    requires
        stride > 0,
        0 <= x < stride,
    ensures
        (p == y * stride + x) <==> (p % stride == x && p / stride == y),
{
    if p == y * stride + x {
        vstd::arithmetic::div_mod::lemma_fundamental_div_mod_converse(p, stride, y, x);
    }
    if p % stride == x && p / stride == y {
        vstd::arithmetic::div_mod::lemma_fundamental_div_mod(p, stride);
        assert(p == y * stride + x) by (nonlinear_arith)
            requires
                p == stride * (p / stride) + p % stride,
                p % stride == x,
                p / stride == y,
        ;
    }
}

/// Drawing pixel `(x0 + c, y0 + r)` of the raster extends the drawn part by one pixel.
proof fn lemma_paint_step(
    b0: Seq<u8>,
    stride: int,
    format: PixelFormat,
    x0: int,
    y0: int,
    rows: Seq<Seq<u8>>,
    w: int,
    r: int,
    c: int,
    next: Seq<u8>,
)
    requires
        stride > 0,
        0 <= x0,
        0 <= y0,
        0 <= r < rows.len(),
        0 <= c < w,
        x0 + w <= stride,
        next.len() == b0.len(),
        forall|k: int|
            0 <= k < b0.len() ==> #[trigger] next[k] == if k / 4 == (y0 + r) * stride + x0 + c {
                pixel_byte(format, rows[r][c], k % 4)
            } else {
                painted_upto(b0, stride, format, x0, y0, rows, w, r, c)[k]
            },
    ensures
        next =~= painted_upto(b0, stride, format, x0, y0, rows, w, r, c + 1),
{
    assert forall|k: int| 0 <= k < b0.len() implies next[k] == painted_upto(
        b0,
        stride,
        format,
        x0,
        y0,
        rows,
        w,
        r,
        c + 1,
    )[k] by {
        let p = k / 4;
        lemma_pixel_coords(p, stride, x0 + c, y0 + r);
        assert(next[k] == if k / 4 == (y0 + r) * stride + x0 + c {
            pixel_byte(format, rows[r][c], k % 4)
        } else {
            painted_upto(b0, stride, format, x0, y0, rows, w, r, c)[k]
        });
    }
}

/// Drawing the first `c` pixels of row `r` over the first `r` rows drawn.
proof fn lemma_paint_cols_closed_form(
    bytes: Seq<u8>,
    stride: int,
    format: PixelFormat,
    x0: int,
    y0: int,
    rows: Seq<Seq<u8>>,
    width: int,
    r: int,
    c: int,
)
    requires
        stride > 0,
        0 <= x0,
        0 <= y0,
        x0 + width <= stride,
        0 <= r < rows.len(),
        0 <= c <= width,
        rows[r].len() == width,
    ensures
        paint_cols(
            painted_upto(bytes, stride, format, x0, y0, rows, width, r, 0),
            stride,
            format,
            x0,
            y0 + r,
            rows[r],
            c,
        ) == painted_upto(bytes, stride, format, x0, y0, rows, width, r, c),
    decreases c,
{
    if c > 0 {
        lemma_paint_cols_closed_form(bytes, stride, format, x0, y0, rows, width, r, c - 1);
        let start = painted_upto(bytes, stride, format, x0, y0, rows, width, r, 0);
        let next = paint_cols(start, stride, format, x0, y0 + r, rows[r], c);
        lemma_paint_step(bytes, stride, format, x0, y0, rows, width, r, c - 1, next);
    }
}

/// Where the raster's rows all have `width` pixels and each row fits inside a
/// row of the pixel array, drawing it pixel by pixel gives `painted`.
proof fn lemma_paint_rows_closed_form(
    bytes: Seq<u8>,
    stride: int,
    format: PixelFormat,
    x0: int,
    y0: int,
    rows: Seq<Seq<u8>>,
    width: int,
    count: int,
)
    requires
        stride > 0,
        0 <= x0,
        0 <= y0,
        0 <= width,
        x0 + width <= stride,
        0 <= count <= rows.len(),
        forall|j: int| 0 <= j < rows.len() ==> (#[trigger] rows[j]).len() == width,
    ensures
        paint_rows(bytes, stride, format, x0, y0, rows, count) == painted_upto(
            bytes,
            stride,
            format,
            x0,
            y0,
            rows,
            width,
            count,
            0,
        ),
    decreases count,
{
    if count == 0 {
        assert(painted_upto(bytes, stride, format, x0, y0, rows, width, 0, 0) =~= bytes);
    } else {
        let r = count - 1;
        lemma_paint_rows_closed_form(bytes, stride, format, x0, y0, rows, width, r);
        let prev = paint_rows(bytes, stride, format, x0, y0, rows, r);
        lemma_paint_cols_closed_form(bytes, stride, format, x0, y0, rows, width, r, width);
        assert(painted_upto(bytes, stride, format, x0, y0, rows, width, r, width)
            =~= painted_upto(bytes, stride, format, x0, y0, rows, width, r + 1, 0));
    }
}

/// A pixel of row `r` lies inside a framebuffer that holds the rows below the raster.
proof fn lemma_pixel_in_buffer(stride: int, x0: int, y0: int, h: int, w: int, r: int, c: int, len: int)
    requires
        0 <= x0,
        0 <= y0,
        0 <= r < h,
        0 <= c < w,
        x0 + w <= stride,
        (y0 + h) * stride * 4 <= len,
    ensures
        ((y0 + r) * stride + (x0 + c)) * 4 + 4 <= len,
        y0 + r < len,
{
    assert(y0 + r <= (y0 + r) * stride) by (nonlinear_arith)
        requires
            0 <= y0 + r,
            1 <= stride,
    ;
    assert(((y0 + r) * stride + (x0 + c)) * 4 + 4 <= (y0 + h) * stride * 4) by (nonlinear_arith)
        requires
            0 <= x0,
            0 <= y0,
            0 <= r < h,
            0 <= c < w,
            x0 + w <= stride,
    ;
}

#[verifier::external_type_specification]
#[verifier::external_body]
pub struct ExFmtError(core::fmt::Error);

/// A text console over a framebuffer.
pub struct FrameBufferWriter<'a> {
    framebuffer: &'a mut [u8],
    info: FrameBufferInfo,
    x_pos: usize,
    y_pos: usize,
    char_width: usize,
}

impl<'a> FrameBufferWriter<'a> {
    /// The glyph width is the font's, and the cursor never moves above or
    /// left of the border.
    #[verifier::type_invariant]
    spec fn writer_invariant(&self) -> bool {
        &&& self.char_width == font_raster_width(FONT_WEIGHT, CHAR_RASTER_HEIGHT)
        &&& self.char_width < CHAR_RASTER_HEIGHT.pixels()
        &&& self.x_pos >= BORDER_PADDING
        &&& self.y_pos >= BORDER_PADDING
    }

    /// The framebuffer's bytes.
    pub closed spec fn bytes(&self) -> Seq<u8> {
        self.framebuffer@
    }

    /// The framebuffer's geometry.
    pub closed spec fn geometry(&self) -> FrameBufferInfo {
        self.info
    }

    /// Column, in pixels, where the next glyph goes.
    pub closed spec fn cursor_x(&self) -> usize {
        self.x_pos
    }

    /// Row, in pixels, where the next glyph goes.
    pub closed spec fn cursor_y(&self) -> usize {
        self.y_pos
    }

    /// Width of every glyph of the console font.
    pub closed spec fn glyph_width(&self) -> usize {
        self.char_width
    }

    /// The state `(bytes, x, y)` that writing text changes.
    pub open spec fn state(&self) -> (Seq<u8>, int, int) {
        (self.bytes(), self.cursor_x() as int, self.cursor_y() as int)
    }

    /// The framebuffer holds the whole screen, a line is no wider than a row
    /// of the buffer, and one glyph fits after the border in either direction.
    pub open spec fn screen_fits(&self) -> bool {
        let i = self.geometry();
        &&& i.width <= i.stride
        &&& BORDER_PADDING + self.glyph_width() <= i.stride
        &&& BORDER_PADDING + CHAR_RASTER_HEIGHT.pixels() <= i.height
        &&& i.stride * i.height * BYTES_PER_PIXEL <= self.bytes().len()
    }

    /// What the writer keeps however it is used: the cursor at or past the
    /// border, the geometry, the glyph width, and the buffer's length.
    pub open spec fn keeps(&self, before: &Self) -> bool {
        &&& self.cursor_x() >= BORDER_PADDING
        &&& self.cursor_y() >= BORDER_PADDING
        &&& self.geometry() == before.geometry()
        &&& self.glyph_width() == before.glyph_width()
        &&& self.bytes().len() == before.bytes().len()
    }

    /// What one call keeps, a chain of calls keeps: the cursor stays at or past
    /// the border and the geometry, glyph width and buffer length stay those
    /// of the first writer.
    pub proof fn lemma_keeps_chain(first: &Self, middle: &Self, last: &Self)
        requires
            middle.keeps(first),
            last.keeps(middle),
        ensures
            last.keeps(first),
    {
    }

    /// Creates a writer over `framebuffer` and clears the screen.
    pub fn new(framebuffer: &'a mut [u8], info: FrameBufferInfo) -> (logger: Self)
        ensures
            logger.bytes() == Seq::new(old(framebuffer)@.len(), |k: int| 0u8),
            logger.geometry() == info,
            logger.cursor_x() == BORDER_PADDING,
            logger.cursor_y() == BORDER_PADDING,
            logger.glyph_width() == font_raster_width(FONT_WEIGHT, CHAR_RASTER_HEIGHT),
    {
        let char_width = get_raster_width(FONT_WEIGHT, CHAR_RASTER_HEIGHT);
        let mut logger = Self {
            framebuffer,
            info,
            x_pos: BORDER_PADDING,
            y_pos: BORDER_PADDING,
            char_width,
        };
        logger.clear();
        logger
    }

    /// Width of the screen in pixels.
    pub fn width(&self) -> (r: usize)
        ensures
            r == self.geometry().width,
    {
        self.info.width
    }

    /// Height of the screen in pixels.
    pub fn height(&self) -> (r: usize)
        ensures
            r == self.geometry().height,
    {
        self.info.height
    }

    /// The framebuffer's geometry.
    pub fn info(&self) -> (r: FrameBufferInfo)
        ensures
            r == self.geometry(),
    {
        self.info
    }

    /// Column, in pixels, where the next glyph goes.
    pub fn x_pos(&self) -> (r: usize)
        ensures
            r == self.cursor_x(),
            r >= BORDER_PADDING,
    {
        proof {
            use_type_invariant(self);
        }
        self.x_pos
    }

    /// Row, in pixels, where the next glyph goes.
    pub fn y_pos(&self) -> (r: usize)
        ensures
            r == self.cursor_y(),
            r >= BORDER_PADDING,
    {
        proof {
            use_type_invariant(self);
        }
        self.y_pos
    }

    /// Width of every glyph of the console font.
    pub fn char_width(&self) -> (r: usize)
        ensures
            r == self.glyph_width(),
    {
        self.char_width
    }

    /// The framebuffer's bytes.
    pub fn framebuffer(&self) -> (r: &[u8])
        ensures
            r@ == self.bytes(),
    {
        &*self.framebuffer
    }

    /// Blanks the whole framebuffer and moves the cursor to the upper left corner.
    pub fn clear(&mut self)
        ensures
            final(self).bytes() == Seq::new(old(self).bytes().len(), |k: int| 0u8),
            final(self).cursor_x() == BORDER_PADDING,
            final(self).cursor_y() == BORDER_PADDING,
            final(self).keeps(&*old(self)),
    {
        proof {
            use_type_invariant(&*self);
        }
        self.x_pos = BORDER_PADDING;
        self.y_pos = BORDER_PADDING;
        let n = self.framebuffer.len();
        let mut i: usize = 0;
        while i < n
            invariant
                n == self.framebuffer@.len(),
                n == old(self).framebuffer@.len(),
                0 <= i <= n,
                forall|k: int| 0 <= k < i ==> self.framebuffer@[k] == 0u8,
                self.x_pos == BORDER_PADDING,
                self.y_pos == BORDER_PADDING,
                self.info == old(self).info,
                self.char_width == old(self).char_width,
                self.char_width == font_raster_width(FONT_WEIGHT, CHAR_RASTER_HEIGHT),
                self.char_width < CHAR_RASTER_HEIGHT.pixels(),
            decreases n - i,
        {
            self.framebuffer[i] = 0;
            i = i + 1;
        }
        assert(self.framebuffer@ =~= Seq::new(n as nat, |k: int| 0u8));
    }

    /// Moves the cursor to the start of the next line.
    pub fn newline(&mut self)
        requires
            old(self).cursor_y() + line_advance() <= usize::MAX,
        ensures
            final(self).cursor_y() == old(self).cursor_y() + line_advance(),
            final(self).cursor_x() == BORDER_PADDING,
            final(self).bytes() == old(self).bytes(),
            final(self).keeps(&*old(self)),
    {
        proof {
            use_type_invariant(&*self);
        }
        self.y_pos = self.y_pos + CHAR_RASTER_HEIGHT.val() + LINE_SPACING;
        self.carriage_return();
    }

    /// Moves the cursor to the start of the current line.
    pub fn carriage_return(&mut self)
        ensures
            final(self).cursor_x() == BORDER_PADDING,
            final(self).cursor_y() == old(self).cursor_y(),
            final(self).bytes() == old(self).bytes(),
            final(self).keeps(&*old(self)),
    {
        proof {
            use_type_invariant(&*self);
        }
        self.x_pos = BORDER_PADDING;
    }

    /// Sets pixel `(x, y)` to a grey of the given intensity.
    pub fn write_pixel(&mut self, x: usize, y: usize, intensity: u8)
        requires
            (y * old(self).geometry().stride + x) * BYTES_PER_PIXEL + BYTES_PER_PIXEL <= old(
                self,
            ).bytes().len(),
        ensures
            final(self).bytes() == set_pixel(
                old(self).bytes(),
                old(self).geometry().stride as int,
                old(self).geometry().pixel_format,
                x as int,
                y as int,
                intensity,
            ),
            final(self).cursor_x() == old(self).cursor_x(),
            final(self).cursor_y() == old(self).cursor_y(),
            final(self).keeps(&*old(self)),
    {
        proof {
            use_type_invariant(&*self);
        }
        let len = self.framebuffer.len();
        assert(y * self.info.stride + x <= self.framebuffer@.len()) by (nonlinear_arith)
            requires
                (y * self.info.stride + x) * 4 + 4 <= self.framebuffer@.len(),
        ;
        let pixel_offset = y * self.info.stride + x;
        let color: [u8; 4] = match self.info.pixel_format {
            PixelFormat::Rgb => [intensity, intensity, intensity / 2, 0],
            PixelFormat::Bgr => [intensity / 2, intensity, intensity, 0],
        };
        let byte_offset = pixel_offset * BYTES_PER_PIXEL;
        let ghost before = self.framebuffer@;
        self.framebuffer[byte_offset] = color[0];
        self.framebuffer[byte_offset + 1] = color[1];
        self.framebuffer[byte_offset + 2] = color[2];
        self.framebuffer[byte_offset + 3] = color[3];
        assert forall|k: int| 0 <= k < before.len() implies #[trigger] self.framebuffer@[k] == if k
            / 4 == pixel_offset {
            pixel_byte(self.info.pixel_format, intensity, k % 4)
        } else {
            before[k]
        } by {
            if byte_offset <= k < byte_offset + 4 {
                assert(k / 4 == pixel_offset);
            } else {
                assert(k / 4 != pixel_offset);
            }
        }
        assert(self.framebuffer@ =~= set_pixel(
            before,
            self.info.stride as int,
            self.info.pixel_format,
            x as int,
            y as int,
            intensity,
        ));
    }

    /// Draws a rasterized character at the cursor, row by row and each row
    /// left to right, and moves the cursor past it.
    pub fn write_rendered_char(&mut self, rendered_char: RasterizedChar)
        requires
            raster_in_buffer(
                old(self).geometry().stride as int,
                old(self).cursor_x() as int,
                old(self).cursor_y() as int,
                raster_rows(rendered_char.raster),
                old(self).bytes().len() as int,
            ),
            old(self).cursor_y() + rendered_char.raster@.len() <= usize::MAX + 1,
            old(self).cursor_x() + rendered_char.width + LETTER_SPACING <= usize::MAX,
        ensures
            final(self).bytes() == paint_rows(
                old(self).bytes(),
                old(self).geometry().stride as int,
                old(self).geometry().pixel_format,
                old(self).cursor_x() as int,
                old(self).cursor_y() as int,
                raster_rows(rendered_char.raster),
                rendered_char.raster@.len() as int,
            ),
            final(self).cursor_x() == old(self).cursor_x() + rendered_char.width + LETTER_SPACING,
            final(self).cursor_y() == old(self).cursor_y(),
            final(self).keeps(&*old(self)),
    {
        proof {
            use_type_invariant(&*self);
        }
        let ghost b0 = self.framebuffer@;
        let ghost rows = raster_rows(rendered_char.raster);
        let ghost stride = self.info.stride as int;
        let ghost format = self.info.pixel_format;
        let ghost x0 = self.x_pos as int;
        let ghost y0 = self.y_pos as int;
        let total = self.framebuffer.len();
        let raster = rendered_char.raster;
        let height = raster.len();
        let mut y: usize = 0;
        while y < height
            invariant
                raster == rendered_char.raster,
                rows == raster_rows(raster),
                rows.len() == height,
                0 <= y <= height,
                y0 + height <= usize::MAX + 1,
                raster_in_buffer(stride, x0, y0, rows, b0.len() as int),
                b0.len() == total,
                self.framebuffer@.len() == total,
                self.framebuffer@ == paint_rows(b0, stride, format, x0, y0, rows, y as int),
                self.x_pos == x0,
                self.y_pos == y0,
                self.info == old(self).info,
                self.info.stride == stride,
                self.info.pixel_format == format,
                self.char_width == old(self).char_width,
                self.char_width == font_raster_width(FONT_WEIGHT, CHAR_RASTER_HEIGHT),
                self.char_width < CHAR_RASTER_HEIGHT.pixels(),
                self.x_pos >= BORDER_PADDING,
                self.y_pos >= BORDER_PADDING,
            decreases height - y,
        {
            let row: &[u8] = raster[y];
            let row_len = row.len();
            let ghost start = self.framebuffer@;
            let mut x: usize = 0;
            while x < row_len
                invariant
                    row_len == row@.len(),
                    row@ == rows[y as int],
                    0 <= y < height,
                    y0 + height <= usize::MAX + 1,
                    rows.len() == height,
                    0 <= x <= row_len,
                    raster_in_buffer(stride, x0, y0, rows, b0.len() as int),
                    b0.len() == total,
                    start.len() == total,
                    self.framebuffer@.len() == total,
                    self.framebuffer@ == paint_cols(
                        start,
                        stride,
                        format,
                        x0,
                        y0 + y,
                        row@,
                        x as int,
                    ),
                    self.x_pos == x0,
                    self.y_pos == y0,
                    self.info == old(self).info,
                    self.info.stride == stride,
                    self.info.pixel_format == format,
                    self.char_width == old(self).char_width,
                    self.char_width == font_raster_width(FONT_WEIGHT, CHAR_RASTER_HEIGHT),
                    self.char_width < CHAR_RASTER_HEIGHT.pixels(),
                    self.x_pos >= BORDER_PADDING,
                    self.y_pos >= BORDER_PADDING,
                decreases row_len - x,
            {
                assert(pixel_end(stride, x0, y0, y as int, x as int) <= b0.len());
                assert(x0 + x <= pixel_end(stride, x0, y0, y as int, x as int)) by (nonlinear_arith)
                    requires
                        y0 >= 0,
                        y >= 0,
                        stride >= 0,
                        x0 >= 0,
                        x >= 0,
                ;
                assert(((y0 + y) * stride + (x0 + x)) * 4 + 4 == pixel_end(
                    stride,
                    x0,
                    y0,
                    y as int,
                    x as int,
                ));
                self.write_pixel(self.x_pos + x, self.y_pos + y, row[x]);
                x = x + 1;
            }
            y = y + 1;
        }
        self.x_pos = self.x_pos + rendered_char.width + LETTER_SPACING;
    }

    /// Writes one character: a line feed starts a new line, a carriage return
    /// goes back to the start of the line, and any other character is drawn
    /// with its glyph (or the backup glyph), wrapping to a new line at the
    /// right edge and clearing the screen at the bottom edge.
    pub fn write_char(&mut self, c: char)
        requires
            c == '\n' ==> old(self).cursor_y() + line_advance() <= usize::MAX,
            is_drawn(c) ==> {
                &&& old(self).screen_fits()
                &&& old(self).cursor_x() + old(self).glyph_width() <= usize::MAX
                &&& old(self).cursor_y() + 2 * line_advance() <= usize::MAX
            },
        ensures
            final(self).state() == char_step(
                old(self).geometry(),
                old(self).glyph_width() as int,
                old(self).state(),
                c,
            ),
            is_drawn(c) ==> final(self).cursor_x() <= final(self).geometry().stride,
            is_drawn(c) && BORDER_PADDING + old(self).glyph_width() <= old(self).geometry().width
                ==> final(self).cursor_x() <= final(self).geometry().width,
            final(self).cursor_y() <= old(self).cursor_y() + line_advance(),
            final(self).keeps(&*old(self)),
    {
        proof {
            use_type_invariant(&*self);
        }
        match c {
            '\n' => self.newline(),
            '\r' => self.carriage_return(),
            c => {
                let n = self.framebuffer.len();
                let new_x_pos = self.x_pos + self.char_width;
                if new_x_pos >= self.width() {
                    self.newline();
                }
                let new_y_pos = self.y_pos + CHAR_RASTER_HEIGHT.val() + BORDER_PADDING;
                if new_y_pos >= self.height() {
                    self.clear();
                }
                let rendered = match get_raster(c, FONT_WEIGHT, CHAR_RASTER_HEIGHT) {
                    Some(g) => g,
                    None => get_raster(BACKUP_CHAR, FONT_WEIGHT, CHAR_RASTER_HEIGHT).unwrap(),
                };
                let ghost rows = raster_rows(rendered.raster);
                let ghost stride = self.info.stride as int;
                let ghost x0 = self.x_pos as int;
                let ghost y0 = self.y_pos as int;
                let ghost w = self.char_width as int;
                proof {
                    let height = self.info.height as int;
                    let len = n as int;
                    assert((y0 + 16) * stride * 4 <= stride * height * 4) by (nonlinear_arith)
                        requires
                            y0 + 16 <= height,
                            stride >= 0,
                    ;
                    assert forall|j: int| 0 <= j < rows.len() implies (#[trigger] rows[j]).len()
                        == w by {
                        assert(rendered.raster@[j]@.len() == rendered.width);
                    }
                    assert forall|j: int, i: int|
                        0 <= j < rows.len() && 0 <= i < rows[j].len() implies #[trigger] pixel_end(
                        stride,
                        x0,
                        y0,
                        j,
                        i,
                    ) <= len by {
                        lemma_pixel_in_buffer(stride, x0, y0, 16, w, j, i, len);
                    }
                    lemma_paint_rows_closed_form(
                        self.framebuffer@,
                        stride,
                        self.info.pixel_format,
                        x0,
                        y0,
                        rows,
                        w,
                        16,
                    );
                }
                self.write_rendered_char(rendered);
            },
        }
    }

    /// Writes the characters of `s` one after another; never fails.
    pub fn write_str(&mut self, s: &str) -> (r: Result<(), core::fmt::Error>)
        requires
            draws_glyph(s@) ==> {
                &&& old(self).screen_fits()
                &&& old(self).cursor_x() + old(self).glyph_width() <= usize::MAX
            },
            old(self).cursor_y() + (s@.len() + 2) * line_advance() <= usize::MAX,
        ensures
            final(self).state() == text_step(
                old(self).geometry(),
                old(self).glyph_width() as int,
                old(self).state(),
                s@,
            ),
            final(self).keeps(&*old(self)),
            final(self).cursor_y() <= old(self).cursor_y() + s@.len() * line_advance(),
            draws_glyph(s@) ==> final(self).cursor_x() <= final(self).geometry().stride,
            r is Ok,
    {
        proof {
            use_type_invariant(&*self);
        }
        let total = self.framebuffer.len();
        let ghost s0 = self.state();
        let ghost info = self.geometry();
        let ghost w = self.glyph_width() as int;
        let ghost y0 = self.cursor_y() as int;
        let ghost cs = s@;
        for c in it: s.chars()
            invariant
                it.seq() == cs,
                draws_glyph(cs) ==> self.screen_fits(),
                (exists|j: int| it.index() <= j < cs.len() && is_drawn(#[trigger] cs[j]))
                    ==> self.cursor_x() + w <= usize::MAX,
                self.geometry() == info,
                self.glyph_width() == w,
                w < CHAR_RASTER_HEIGHT.pixels(),
                self.bytes().len() == s0.0.len(),
                s0.0.len() == total,
                self.cursor_x() >= BORDER_PADDING,
                self.cursor_y() >= BORDER_PADDING,
                self.cursor_y() <= y0 + line_advance() * it.index(),
                (exists|j: int| 0 <= j < it.index() && is_drawn(#[trigger] cs[j]))
                    ==> self.cursor_x() <= info.stride,
                y0 + (cs.len() + 2) * line_advance() <= usize::MAX,
                self.state() == text_step(info, w, s0, cs.take(it.index() as int)),
        {
            let ghost i = it.index() as int;
            assert(i < cs.len());
            let ghost la = line_advance();
            assert(la * i + 2 * la <= (cs.len() + 2) * la) by (nonlinear_arith)
                requires
                    i < cs.len(),
                    la >= 0,
            ;
            assert(la * (i + 1) == la * i + la) by (nonlinear_arith);
            assert(cs.take(i + 1).drop_last() =~= cs.take(i));
            assert(cs.take(i + 1).last() == cs[i]);
            proof {
                if is_drawn(cs[i]) {
                    assert(draws_glyph(cs));
                }
            }
            self.write_char(c);
            proof {
                if exists|j: int| 0 <= j < i + 1 && is_drawn(#[trigger] cs[j]) {
                    let j = choose|j: int| 0 <= j < i + 1 && is_drawn(#[trigger] cs[j]);
                    assert(draws_glyph(cs));
                }
                if exists|j: int| i + 1 <= j < cs.len() && is_drawn(#[trigger] cs[j]) {
                    let j = choose|j: int| i + 1 <= j < cs.len() && is_drawn(#[trigger] cs[j]);
                    assert(draws_glyph(cs));
                    let stride = info.stride as int;
                    let height = info.height as int;
                    assert(stride * 2 <= total) by (nonlinear_arith)
                        requires
                            stride * height * 4 <= total,
                            height >= 17,
                            stride >= 0,
                    ;
                }
            }
        }
        assert(cs.take(cs.len() as int) =~= cs);
        proof {
            assert(line_advance() * cs.len() == cs.len() * line_advance()) by (nonlinear_arith);
        }
        Ok(())
    }

    /// Whether `write_str(s)` may be called: where `s` draws a glyph, the
    /// screen fits the buffer and the cursor column leaves room for a glyph;
    /// and no line feed of `s` can overflow the cursor row.
    pub fn can_write(&self, s: &str) -> (b: bool)
        ensures
            b == ((draws_glyph(s@) ==> (self.screen_fits() && self.cursor_x() + self.glyph_width()
                <= usize::MAX)) && self.cursor_y() + (s@.len() + 2) * line_advance()
                <= usize::MAX),
    {
        proof {
            use_type_invariant(self);
        }
        let n = s.unicode_len();
        assert(line_advance() == 18);
        let lines = match n.checked_add(2) {
            Some(l) => l,
            None => {
                assert((s@.len() + 2) * 18 > usize::MAX) by (nonlinear_arith)
                    requires
                        s@.len() + 2 > usize::MAX,
                ;
                return false;
            },
        };
        let advance = CHAR_RASTER_HEIGHT.val() + LINE_SPACING;
        let rows = match lines.checked_mul(advance) {
            Some(r) => r,
            None => return false,
        };
        if rows.checked_add(self.y_pos).is_none() {
            return false;
        }
        let mut drawn = false;
        for c in it: s.chars()
            invariant
                it.seq() == s@,
                drawn == exists|j: int| 0 <= j < it.index() && is_drawn(#[trigger] s@[j]),
        {
            let ghost i = it.index() as int;
            assert(i < s@.len());
            if c != '\n' && c != '\r' {
                drawn = true;
            }
            assert(forall|j: int|
                0 <= j < i + 1 ==> (is_drawn(#[trigger] s@[j]) ==> (j < i || is_drawn(s@[i]))));
        }
        if !drawn {
            return true;
        }
        self.glyph_fits()
    }

    /// Whether the screen fits the buffer and the cursor column leaves room
    /// for a glyph.
    fn glyph_fits(&self) -> (b: bool)
        ensures
            b == (self.screen_fits() && self.cursor_x() + self.glyph_width() <= usize::MAX),
    {
        let info = self.info;
        let len = self.framebuffer.len();
        if info.width > info.stride {
            return false;
        }
        if self.char_width > info.stride || info.stride - self.char_width < BORDER_PADDING {
            return false;
        }
        if info.height < BORDER_PADDING + CHAR_RASTER_HEIGHT.val() {
            return false;
        }
        let pixels = match info.stride.checked_mul(info.height) {
            Some(p) => p,
            None => {
                assert(info.stride * info.height * BYTES_PER_PIXEL > usize::MAX) by (nonlinear_arith)
                    requires
                        info.stride * info.height > usize::MAX,
                ;
                return false;
            },
        };
        let bytes = match pixels.checked_mul(BYTES_PER_PIXEL) {
            Some(b) => b,
            None => return false,
        };
        if bytes > len {
            return false;
        }
        self.x_pos.checked_add(self.char_width).is_some()
    }
}

} // verus!
