use vstd::prelude::*;

verus! {

/// Format tag of a framebuffer whose pixels store red, green, blue, pad.
pub const PIXEL_RGB_RESERVED_8BIT_PER_COLOR: u8 = 1;

/// Format tag of a framebuffer whose pixels store blue, green, red, pad.
pub const PIXEL_BGR_RESERVED_8BIT_PER_COLOR: u8 = 2;

/// Width in pixels of one glyph of the embedded font.
pub const HANKAKU_FONT_WIDTH: usize = 8;

/// Height in pixels — and bytes — of one glyph of the embedded font.
pub const HANKAKU_FONT_HEIGHT: usize = 16;

/// Bytes each pixel occupies: three channels and one reserved byte.
pub const BYTES_PER_PIXEL: usize = 4;

/// A three-channel color, format-agnostic; the writer reorders the channels
/// to the framebuffer's own order at write time.
#[derive(Clone, Copy, Debug, PartialEq, Eq, Structural)]
pub struct PixelColor {
    pub r: u8,
    pub g: u8,
    pub b: u8,
}

/// A point or extent on the pixel grid.
#[derive(Clone, Copy, Debug, PartialEq, Eq, Structural)]
pub struct Vector2D<T> {
    pub x: T,
    pub y: T,
}

impl<T> Vector2D<T> {
    pub fn new(x: T, y: T) -> (r: Vector2D<T>)
        ensures
            r == (Vector2D { x, y }),
    {
        Vector2D { x, y }
    }
}

/// The channel order bound at construction time, one variant per recognized
/// format tag.
#[derive(Clone, Copy, Debug, PartialEq, Eq, Structural)]
pub enum PixelFormat {
    Rgb,
    Bgr,
}

/// The framebuffer descriptor the boot environment hands over, with the
/// pixel memory itself held as plain bytes.
pub struct FrameBuffer {
    pub buffer: Vec<u8>,
    pub pixels_per_scan_line: u32,
    pub horizontal_resolution: u32,
    pub vertical_resolution: u32,
    pub format: u8,
}

impl FrameBuffer {
    /// The byte buffer covers exactly the scan lines, and the visible width
    /// does not exceed the scan-line stride.
    pub open spec fn wf(self) -> bool {
        &&& self.buffer@.len() == BYTES_PER_PIXEL * (self.pixels_per_scan_line as int) * (
        self.vertical_resolution as int)
        &&& self.horizontal_resolution <= self.pixels_per_scan_line
    }
}

// ---------------------------------------------------------------------------
// Pixel writes, as mathematical functions
// ---------------------------------------------------------------------------

/// The channel stored first at a pixel under the given order.
pub open spec fn spec_channel0(format: PixelFormat, c: PixelColor) -> u8 {
    match format {
        PixelFormat::Rgb => c.r,
        PixelFormat::Bgr => c.b,
    }
}

/// The channel stored third at a pixel under the given order.
pub open spec fn spec_channel2(format: PixelFormat, c: PixelColor) -> u8 {
    match format {
        PixelFormat::Rgb => c.b,
        PixelFormat::Bgr => c.r,
    }
}

/// First byte of pixel (`x`, `y`): four bytes per pixel, `stride` pixels per
/// scan line.
pub open spec fn spec_pixel_offset(stride: int, x: int, y: int) -> int {
    BYTES_PER_PIXEL * (stride * y + x)
}

/// One pixel write: the three channels land at the pixel's offset in the
/// bound order; the reserved fourth byte stays as it was.
pub open spec fn spec_write_pixel(
    buf: Seq<u8>,
    stride: int,
    format: PixelFormat,
    x: int,
    y: int,
    c: PixelColor,
) -> Seq<u8> {
    let off = spec_pixel_offset(stride, x, y);
    buf.update(off, spec_channel0(format, c)).update(off + 1, c.g).update(
        off + 2,
        spec_channel2(format, c),
    )
}

/// The first `n` pixels of one rectangle row, written left to right.
pub open spec fn spec_fill_row(
    buf: Seq<u8>,
    stride: int,
    format: PixelFormat,
    px: int,
    y: int,
    n: nat,
    c: PixelColor,
) -> Seq<u8>
    decreases n,
{
    if n == 0 {
        buf
    } else {
        spec_write_pixel(
            spec_fill_row(buf, stride, format, px, y, (n - 1) as nat, c),
            stride,
            format,
            px + n - 1,
            y,
            c,
        )
    }
}

/// The first `n` rows of a filled rectangle of width `sx`, top to bottom.
pub open spec fn spec_fill_rect(
    buf: Seq<u8>,
    stride: int,
    format: PixelFormat,
    px: int,
    py: int,
    sx: nat,
    n: nat,
    c: PixelColor,
) -> Seq<u8>
    decreases n,
{
    if n == 0 {
        buf
    } else {
        spec_fill_row(
            spec_fill_rect(buf, stride, format, px, py, sx, (n - 1) as nat, c),
            stride,
            format,
            px,
            py + n - 1,
            sx,
            c,
        )
    }
}

/// The first `n` columns of a rectangle outline's top and bottom edges.
pub open spec fn spec_draw_top_bottom(
    buf: Seq<u8>,
    stride: int,
    format: PixelFormat,
    px: int,
    py: int,
    sy: int,
    n: nat,
    c: PixelColor,
) -> Seq<u8>
    decreases n,
{
    if n == 0 {
        buf
    } else {
        let b = spec_draw_top_bottom(buf, stride, format, px, py, sy, (n - 1) as nat, c);
        spec_write_pixel(
            spec_write_pixel(b, stride, format, px + n - 1, py, c),
            stride,
            format,
            px + n - 1,
            py + sy - 1,
            c,
        )
    }
}

/// The first `n` rows of a rectangle outline's left and right edges.
pub open spec fn spec_draw_left_right(
    buf: Seq<u8>,
    stride: int,
    format: PixelFormat,
    px: int,
    py: int,
    sx: int,
    n: nat,
    c: PixelColor,
) -> Seq<u8>
    decreases n,
{
    if n == 0 {
        buf
    } else {
        let b = spec_draw_left_right(buf, stride, format, px, py, sx, (n - 1) as nat, c);
        spec_write_pixel(
            spec_write_pixel(b, stride, format, px, py + n - 1, c),
            stride,
            format,
            px + sx - 1,
            py + n - 1,
            c,
        )
    }
}

/// A rectangle outline: top and bottom edges first, then left and right.
pub open spec fn spec_draw_rect(
    buf: Seq<u8>,
    stride: int,
    format: PixelFormat,
    px: int,
    py: int,
    sx: nat,
    sy: nat,
    c: PixelColor,
) -> Seq<u8> {
    spec_draw_left_right(
        spec_draw_top_bottom(buf, stride, format, px, py, sy as int, sx, c),
        stride,
        format,
        px,
        py,
        sx as int,
        sy,
        c,
    )
}

/// Is pixel `dx` of a glyph row set? The most significant bit is the
/// leftmost pixel.
pub open spec fn spec_glyph_bit(bits: u8, dx: u8) -> bool {
    ((bits << dx) & 0x80u8) > 0
}

/// The first `n` pixels of one glyph row: a set bit draws the color, a clear
/// bit leaves the byte alone.
pub open spec fn spec_glyph_row_pixels(
    buf: Seq<u8>,
    stride: int,
    format: PixelFormat,
    x: int,
    y: int,
    bits: u8,
    n: nat,
    c: PixelColor,
) -> Seq<u8>
    decreases n,
{
    if n == 0 {
        buf
    } else {
        let b = spec_glyph_row_pixels(buf, stride, format, x, y, bits, (n - 1) as nat, c);
        if spec_glyph_bit(bits, (n - 1) as u8) {
            spec_write_pixel(b, stride, format, x + n - 1, y, c)
        } else {
            b
        }
    }
}

/// The first `n` rows of a glyph, each taken from the font blob at sixteen
/// bytes per character code.
pub open spec fn spec_glyph_rows(
    buf: Seq<u8>,
    stride: int,
    format: PixelFormat,
    x: int,
    y: int,
    font: Seq<u8>,
    ch: char,
    n: nat,
    c: PixelColor,
) -> Seq<u8>
    decreases n,
{
    if n == 0 {
        buf
    } else {
        spec_glyph_row_pixels(
            spec_glyph_rows(buf, stride, format, x, y, font, ch, (n - 1) as nat, c),
            stride,
            format,
            x,
            y + n - 1,
            font[HANKAKU_FONT_HEIGHT * (ch as int) + n - 1],
            HANKAKU_FONT_WIDTH as nat,
            c,
        )
    }
}

/// One glyph drawn at (`x`, `y`), or nothing at all when the character's
/// sixteen-byte record does not lie within the font blob.
pub open spec fn spec_write_ascii(
    buf: Seq<u8>,
    stride: int,
    format: PixelFormat,
    x: int,
    y: int,
    ch: char,
    c: PixelColor,
    font: Seq<u8>,
) -> Seq<u8> {
    if HANKAKU_FONT_HEIGHT * (ch as int) + HANKAKU_FONT_HEIGHT <= font.len() {
        spec_glyph_rows(buf, stride, format, x, y, font, ch, HANKAKU_FONT_HEIGHT as nat, c)
    } else {
        buf
    }
}

/// The first `n` characters of a string, each glyph advanced by the fixed
/// glyph width.
pub open spec fn spec_write_string_n(
    buf: Seq<u8>,
    stride: int,
    format: PixelFormat,
    x: int,
    y: int,
    s: Seq<char>,
    n: nat,
    c: PixelColor,
    font: Seq<u8>,
) -> Seq<u8>
    decreases n,
{
    if n == 0 {
        buf
    } else {
        spec_write_ascii(
            spec_write_string_n(buf, stride, format, x, y, s, (n - 1) as nat, c, font),
            stride,
            format,
            x + HANKAKU_FONT_WIDTH * (n - 1),
            y,
            s[n - 1],
            c,
            font,
        )
    }
}

/// A whole string rendered left to right.
pub open spec fn spec_write_string(
    buf: Seq<u8>,
    stride: int,
    format: PixelFormat,
    x: int,
    y: int,
    s: Seq<char>,
    c: PixelColor,
    font: Seq<u8>,
) -> Seq<u8> {
    spec_write_string_n(buf, stride, format, x, y, s, s.len(), c, font)
}

/// Which channel order a format tag selects: the recognized second tag gives
/// blue-first order, everything else — the first tag included — red-first.
pub open spec fn spec_pixel_format(tag: u8) -> PixelFormat {
    if tag == PIXEL_BGR_RESERVED_8BIT_PER_COLOR {
        PixelFormat::Bgr
    } else {
        PixelFormat::Rgb
    }
}

// ---------------------------------------------------------------------------
// The pixel writer
// ---------------------------------------------------------------------------

/// Wraps a framebuffer and draws pixels, rectangles and glyphs in the
/// channel order bound once at construction.
pub struct PixelWriter {
    pub buffer: Vec<u8>,
    pub pixels_per_scan_line: u32,
    pub horizontal_resolution: u32,
    pub vertical_resolution: u32,
    pub format: PixelFormat,
}

impl PixelWriter {
    /// The byte buffer covers exactly the scan lines, and the visible width
    /// does not exceed the scan-line stride.
    pub open spec fn wf(self) -> bool {
        &&& self.buffer@.len() == BYTES_PER_PIXEL * (self.pixels_per_scan_line as int) * (
        self.vertical_resolution as int)
        &&& self.horizontal_resolution <= self.pixels_per_scan_line
    }

    /// Everything but the pixel bytes is as it was: a drawing call never
    /// changes geometry or channel order.
    pub open spec fn same_shape(self, other: PixelWriter) -> bool {
        &&& self.pixels_per_scan_line == other.pixels_per_scan_line
        &&& self.horizontal_resolution == other.horizontal_resolution
        &&& self.vertical_resolution == other.vertical_resolution
        &&& self.format == other.format
    }

    /// Take over a framebuffer, binding the channel order its format tag
    /// selects; an unrecognized tag falls back to red-first order.
    pub fn new(fb: FrameBuffer) -> (r: PixelWriter)
        ensures
            r.buffer@ == fb.buffer@,
            r.pixels_per_scan_line == fb.pixels_per_scan_line,
            r.horizontal_resolution == fb.horizontal_resolution,
            r.vertical_resolution == fb.vertical_resolution,
            r.format == spec_pixel_format(fb.format),
            fb.wf() ==> r.wf(),
    {
        let format = if fb.format == PIXEL_BGR_RESERVED_8BIT_PER_COLOR {
            PixelFormat::Bgr
        } else {
            PixelFormat::Rgb
        };
        PixelWriter {
            buffer: fb.buffer,
            pixels_per_scan_line: fb.pixels_per_scan_line,
            horizontal_resolution: fb.horizontal_resolution,
            vertical_resolution: fb.vertical_resolution,
            format,
        }
    }

    /// Write one pixel. The caller keeps (`x`, `y`) on the visible surface;
    /// nothing is checked or dropped here.
    pub fn write(&mut self, x: u32, y: u32, color: &PixelColor)
        requires
            old(self).wf(),
            x < old(self).horizontal_resolution,
            y < old(self).vertical_resolution,
        ensures
            final(self).wf(),
            final(self).same_shape(*old(self)),
            final(self).buffer@ == spec_write_pixel(
                old(self).buffer@,
                old(self).pixels_per_scan_line as int,
                old(self).format,
                x as int,
                y as int,
                *color,
            ),
    {
        let stride = self.pixels_per_scan_line as usize;
        let len = self.buffer.len();
        proof {
            let s = stride as int;
            let v = self.vertical_resolution as int;
            let xx = x as int;
            let yy = y as int;
            assert(s * yy <= s * yy + xx < s * v && BYTES_PER_PIXEL * (s * v) == BYTES_PER_PIXEL * s
                * v) by (nonlinear_arith)
                requires
                    0 <= xx < s,
                    0 <= yy < v,
            ;
            assert(BYTES_PER_PIXEL * (s * v) == len);
        }
        let pos: usize = stride * (y as usize) + (x as usize);
        let off: usize = BYTES_PER_PIXEL * pos;
        match self.format {
            PixelFormat::Rgb => {
                self.buffer[off] = color.r;
                self.buffer[off + 1] = color.g;
                self.buffer[off + 2] = color.b;
            },
            PixelFormat::Bgr => {
                self.buffer[off] = color.b;
                self.buffer[off + 1] = color.g;
                self.buffer[off + 2] = color.r;
            },
        }
    }

    /// Fill a rectangle: every pixel of the block gets the color, row by
    /// row, left to right.
    pub fn fill_rectangle(&mut self, pos: Vector2D<u32>, size: Vector2D<u32>, c: &PixelColor)
        requires
            old(self).wf(),
            pos.x + size.x <= old(self).horizontal_resolution,
            pos.y + size.y <= old(self).vertical_resolution,
        ensures
            final(self).wf(),
            final(self).same_shape(*old(self)),
            final(self).buffer@ == spec_fill_rect(
                old(self).buffer@,
                old(self).pixels_per_scan_line as int,
                old(self).format,
                pos.x as int,
                pos.y as int,
                size.x as nat,
                size.y as nat,
                *c,
            ),
    {
        let mut dy: u32 = 0;
        while dy < size.y
            invariant
                self.wf(),
                self.same_shape(*old(self)),
                dy <= size.y,
                pos.x + size.x <= self.horizontal_resolution,
                pos.y + size.y <= self.vertical_resolution,
                self.buffer@ == spec_fill_rect(
                    old(self).buffer@,
                    self.pixels_per_scan_line as int,
                    self.format,
                    pos.x as int,
                    pos.y as int,
                    size.x as nat,
                    dy as nat,
                    *c,
                ),
            decreases size.y - dy,
        {
            let ghost row_base = self.buffer@;
            let mut dx: u32 = 0;
            while dx < size.x
                invariant
                    self.wf(),
                    self.same_shape(*old(self)),
                    dx <= size.x,
                    dy < size.y,
                    pos.x + size.x <= self.horizontal_resolution,
                    pos.y + size.y <= self.vertical_resolution,
                    self.buffer@ == spec_fill_row(
                        row_base,
                        self.pixels_per_scan_line as int,
                        self.format,
                        pos.x as int,
                        (pos.y + dy) as int,
                        dx as nat,
                        *c,
                    ),
                decreases size.x - dx,
            {
                self.write(pos.x + dx, pos.y + dy, c);
                dx = dx + 1;
            }
            proof {
                assert(self.buffer@ == spec_fill_rect(
                    old(self).buffer@,
                    self.pixels_per_scan_line as int,
                    self.format,
                    pos.x as int,
                    pos.y as int,
                    size.x as nat,
                    (dy + 1) as nat,
                    *c,
                ));
            }
            dy = dy + 1;
        }
    }

    /// Draw a rectangle outline: the top and bottom edges, then the left and
    /// right edges.
    pub fn draw_rectangle(&mut self, pos: Vector2D<u32>, size: Vector2D<u32>, c: &PixelColor)
        requires
            old(self).wf(),
            1 <= size.x,
            1 <= size.y,
            pos.x + size.x <= old(self).horizontal_resolution,
            pos.y + size.y <= old(self).vertical_resolution,
        ensures
            final(self).wf(),
            final(self).same_shape(*old(self)),
            final(self).buffer@ == spec_draw_rect(
                old(self).buffer@,
                old(self).pixels_per_scan_line as int,
                old(self).format,
                pos.x as int,
                pos.y as int,
                size.x as nat,
                size.y as nat,
                *c,
            ),
    {
        let mut dx: u32 = 0;
        while dx < size.x
            invariant
                self.wf(),
                self.same_shape(*old(self)),
                dx <= size.x,
                1 <= size.x,
                1 <= size.y,
                pos.x + size.x <= self.horizontal_resolution,
                pos.y + size.y <= self.vertical_resolution,
                self.buffer@ == spec_draw_top_bottom(
                    old(self).buffer@,
                    self.pixels_per_scan_line as int,
                    self.format,
                    pos.x as int,
                    pos.y as int,
                    size.y as int,
                    dx as nat,
                    *c,
                ),
            decreases size.x - dx,
        {
            self.write(pos.x + dx, pos.y, c);
            self.write(pos.x + dx, pos.y + size.y - 1, c);
            dx = dx + 1;
        }
        let ghost mid = self.buffer@;
        let mut dy: u32 = 0;
        while dy < size.y
            invariant
                self.wf(),
                self.same_shape(*old(self)),
                dy <= size.y,
                1 <= size.x,
                1 <= size.y,
                pos.x + size.x <= self.horizontal_resolution,
                pos.y + size.y <= self.vertical_resolution,
                mid == spec_draw_top_bottom(
                    old(self).buffer@,
                    self.pixels_per_scan_line as int,
                    self.format,
                    pos.x as int,
                    pos.y as int,
                    size.y as int,
                    size.x as nat,
                    *c,
                ),
                self.buffer@ == spec_draw_left_right(
                    mid,
                    self.pixels_per_scan_line as int,
                    self.format,
                    pos.x as int,
                    pos.y as int,
                    size.x as int,
                    dy as nat,
                    *c,
                ),
            decreases size.y - dy,
        {
            self.write(pos.x, pos.y + dy, c);
            self.write(pos.x + size.x - 1, pos.y + dy, c);
            dy = dy + 1;
        }
    }

    /// Draw one glyph out of the font blob, sixteen bytes per character
    /// code; a character whose record lies outside the blob draws nothing.
    pub fn write_ascii(&mut self, x: u32, y: u32, c: char, color: &PixelColor, font: &Vec<u8>)
        requires
            old(self).wf(),
            x + HANKAKU_FONT_WIDTH <= old(self).horizontal_resolution,
            y + HANKAKU_FONT_HEIGHT <= old(self).vertical_resolution,
        ensures
            final(self).wf(),
            final(self).same_shape(*old(self)),
            final(self).buffer@ == spec_write_ascii(
                old(self).buffer@,
                old(self).pixels_per_scan_line as int,
                old(self).format,
                x as int,
                y as int,
                c,
                *color,
                font@,
            ),
    {
        let code = c as u32;
        let index: usize = HANKAKU_FONT_HEIGHT * (code as usize);
        if !(index + HANKAKU_FONT_HEIGHT <= font.len()) {
            return ;
        }
        let mut dy: usize = 0;
        while dy < HANKAKU_FONT_HEIGHT
            invariant
                self.wf(),
                self.same_shape(*old(self)),
                dy <= HANKAKU_FONT_HEIGHT,
                x + HANKAKU_FONT_WIDTH <= self.horizontal_resolution,
                y + HANKAKU_FONT_HEIGHT <= self.vertical_resolution,
                index == HANKAKU_FONT_HEIGHT * (c as int),
                index + HANKAKU_FONT_HEIGHT <= font@.len(),
                self.buffer@ == spec_glyph_rows(
                    old(self).buffer@,
                    self.pixels_per_scan_line as int,
                    self.format,
                    x as int,
                    y as int,
                    font@,
                    c,
                    dy as nat,
                    *color,
                ),
            decreases HANKAKU_FONT_HEIGHT - dy,
        {
            let bits = font[index + dy];
            let ghost row_base = self.buffer@;
            let mut dx: u8 = 0;
            while dx < 8
                invariant
                    self.wf(),
                    self.same_shape(*old(self)),
                    dx <= 8,
                    dy < HANKAKU_FONT_HEIGHT,
                    x + HANKAKU_FONT_WIDTH <= self.horizontal_resolution,
                    y + HANKAKU_FONT_HEIGHT <= self.vertical_resolution,
                    self.buffer@ == spec_glyph_row_pixels(
                        row_base,
                        self.pixels_per_scan_line as int,
                        self.format,
                        x as int,
                        (y + dy) as int,
                        bits,
                        dx as nat,
                        *color,
                    ),
                decreases 8 - dx,
            {
                if ((bits << dx) & 0x80u8) > 0 {
                    self.write(x + (dx as u32), y + (dy as u32), color);
                }
                dx = dx + 1;
            }
            dy = dy + 1;
        }
    }

    /// Render a string left to right, each character advanced by the fixed
    /// glyph width; there is no line wrapping.
    pub fn write_string(&mut self, x: u32, y: u32, s: &str, color: &PixelColor, font: &Vec<u8>)
        requires
            old(self).wf(),
            x + HANKAKU_FONT_WIDTH * s@.len() <= old(self).horizontal_resolution,
            y + HANKAKU_FONT_HEIGHT <= old(self).vertical_resolution,
        ensures
            final(self).wf(),
            final(self).same_shape(*old(self)),
            final(self).buffer@ == spec_write_string(
                old(self).buffer@,
                old(self).pixels_per_scan_line as int,
                old(self).format,
                x as int,
                y as int,
                s@,
                *color,
                font@,
            ),
    {
        let n = s.unicode_len();
        let mut i: usize = 0;
        while i < n
            invariant
                self.wf(),
                self.same_shape(*old(self)),
                i <= n,
                n == s@.len(),
                x + HANKAKU_FONT_WIDTH * s@.len() <= self.horizontal_resolution,
                y + HANKAKU_FONT_HEIGHT <= self.vertical_resolution,
                self.buffer@ == spec_write_string_n(
                    old(self).buffer@,
                    self.pixels_per_scan_line as int,
                    self.format,
                    x as int,
                    y as int,
                    s@,
                    i as nat,
                    *color,
                    font@,
                ),
            decreases n - i,
        {
            let c = s.get_char(i);
            self.write_ascii(x + (HANKAKU_FONT_WIDTH * i) as u32, y, c, color, font);
            i = i + 1;
        }
    }
}

// ---------------------------------------------------------------------------
// The two channel orders are exact permutations of each other
// ---------------------------------------------------------------------------

/// Writing one color to the same pixel under red-first and under blue-first
/// order touches exactly the same three bytes and stores the same channels,
/// permuted: red and blue swap places and green stays in the middle; every
/// other byte keeps its old value under both orders.
pub proof fn lemma_format_channel_permutation(
    buf: Seq<u8>,
    stride: int,
    x: int,
    y: int,
    c: PixelColor,
)
    requires
        0 <= spec_pixel_offset(stride, x, y),
        spec_pixel_offset(stride, x, y) + 2 < buf.len(),
    ensures
        ({
            let off = spec_pixel_offset(stride, x, y);
            let rgb = spec_write_pixel(buf, stride, PixelFormat::Rgb, x, y, c);
            let bgr = spec_write_pixel(buf, stride, PixelFormat::Bgr, x, y, c);
            &&& rgb.len() == buf.len()
            &&& bgr.len() == buf.len()
            &&& rgb[off] == c.r && rgb[off + 1] == c.g && rgb[off + 2] == c.b
            &&& bgr[off] == c.b && bgr[off + 1] == c.g && bgr[off + 2] == c.r
            &&& forall|i: int|
                0 <= i < buf.len() && !(off <= i <= off + 2) ==> rgb[i] == buf[i] && bgr[i]
                    == buf[i]
        }),
{
}

} // verus!
