use kernel_core::console::Console;
use kernel_core::frame_buffer::{
    FrameBuffer, PixelColor, PixelFormat, PixelWriter, Vector2D, PIXEL_BGR_RESERVED_8BIT_PER_COLOR,
    PIXEL_RGB_RESERVED_8BIT_PER_COLOR,
};

fn writer(stride: u32, width: u32, height: u32, format: u8) -> PixelWriter {
    PixelWriter::new(FrameBuffer {
        buffer: vec![0u8; 4 * stride as usize * height as usize],
        pixels_per_scan_line: stride,
        horizontal_resolution: width,
        vertical_resolution: height,
        format,
    })
}

fn pixel(w: &PixelWriter, x: u32, y: u32) -> [u8; 4] {
    let off = 4 * (w.pixels_per_scan_line as usize * y as usize + x as usize);
    [
        w.buffer[off],
        w.buffer[off + 1],
        w.buffer[off + 2],
        w.buffer[off + 3],
    ]
}

const COLOR: PixelColor = PixelColor {
    r: 0x11,
    g: 0x22,
    b: 0x33,
};

#[test]
fn format_tag_binds_channel_order() {
    let rgb = writer(10, 8, 4, PIXEL_RGB_RESERVED_8BIT_PER_COLOR);
    let bgr = writer(10, 8, 4, PIXEL_BGR_RESERVED_8BIT_PER_COLOR);
    let odd = writer(10, 8, 4, 7);
    assert_eq!(rgb.format, PixelFormat::Rgb);
    assert_eq!(bgr.format, PixelFormat::Bgr);
    // An unrecognized tag falls back to the red-first order.
    assert_eq!(odd.format, PixelFormat::Rgb);
}

#[test]
fn write_places_channels_at_stride_scaled_offset() {
    let mut w = writer(10, 8, 4, PIXEL_RGB_RESERVED_8BIT_PER_COLOR);
    w.write(2, 1, &COLOR);
    // Offset 4 * (stride * y + x) = 4 * 12 = 48.
    assert_eq!(w.buffer[48], 0x11);
    assert_eq!(w.buffer[49], 0x22);
    assert_eq!(w.buffer[50], 0x33);
    assert_eq!(w.buffer[51], 0x00);
    // Nothing else moved.
    for (i, b) in w.buffer.iter().enumerate() {
        if !(48..51).contains(&i) {
            assert_eq!(*b, 0u8, "byte {} changed", i);
        }
    }
}

#[test]
fn rgb_and_bgr_writes_are_channel_permutations() {
    let mut rgb = writer(10, 8, 4, PIXEL_RGB_RESERVED_8BIT_PER_COLOR);
    let mut bgr = writer(10, 8, 4, PIXEL_BGR_RESERVED_8BIT_PER_COLOR);
    rgb.write(5, 2, &COLOR);
    bgr.write(5, 2, &COLOR);
    let off = 4 * (10 * 2 + 5);
    assert_eq!(&rgb.buffer[off..off + 3], &[0x11, 0x22, 0x33]);
    assert_eq!(&bgr.buffer[off..off + 3], &[0x33, 0x22, 0x11]);
    // Same three bytes touched, green in the middle under both orders;
    // everything else identical.
    for i in 0..rgb.buffer.len() {
        if !(off..off + 3).contains(&i) {
            assert_eq!(rgb.buffer[i], bgr.buffer[i]);
        }
    }
}

#[test]
fn fill_rectangle_covers_exactly_the_block() {
    let mut w = writer(10, 8, 6, PIXEL_RGB_RESERVED_8BIT_PER_COLOR);
    w.fill_rectangle(Vector2D::new(1, 2), Vector2D::new(3, 2), &COLOR);
    for y in 0..6u32 {
        for x in 0..10u32 {
            let p = pixel(&w, x, y);
            if (1..4).contains(&x) && (2..4).contains(&y) {
                assert_eq!(p, [0x11, 0x22, 0x33, 0x00], "pixel ({}, {})", x, y);
            } else {
                assert_eq!(p, [0, 0, 0, 0], "pixel ({}, {})", x, y);
            }
        }
    }
}

#[test]
fn draw_rectangle_touches_only_the_border() {
    let mut w = writer(10, 8, 6, PIXEL_RGB_RESERVED_8BIT_PER_COLOR);
    w.draw_rectangle(Vector2D::new(1, 1), Vector2D::new(4, 3), &COLOR);
    for y in 0..6u32 {
        for x in 0..10u32 {
            let p = pixel(&w, x, y);
            let inside_x = (1..5).contains(&x);
            let inside_y = (1..4).contains(&y);
            let on_border = (inside_x && (y == 1 || y == 3)) || (inside_y && (x == 1 || x == 4));
            if on_border {
                assert_eq!(p, [0x11, 0x22, 0x33, 0x00], "pixel ({}, {})", x, y);
            } else {
                assert_eq!(p, [0, 0, 0, 0], "pixel ({}, {})", x, y);
            }
        }
    }
}

#[test]
fn write_ascii_draws_set_bits_most_significant_first() {
    // A font covering character codes up to 'B'; 'A' gets a recognizable
    // pattern: top row full, second row leftmost pixel only.
    let mut font = vec![0u8; 16 * 66];
    font[16 * 65] = 0xff;
    font[16 * 65 + 1] = 0x80;
    let mut w = writer(16, 16, 16, PIXEL_RGB_RESERVED_8BIT_PER_COLOR);
    w.write_ascii(0, 0, 'A', &COLOR, &font);
    for x in 0..8u32 {
        assert_eq!(pixel(&w, x, 0), [0x11, 0x22, 0x33, 0x00]);
    }
    assert_eq!(pixel(&w, 0, 1), [0x11, 0x22, 0x33, 0x00]);
    for x in 1..8u32 {
        assert_eq!(pixel(&w, x, 1), [0, 0, 0, 0]);
    }
    for y in 2..16u32 {
        for x in 0..8u32 {
            assert_eq!(pixel(&w, x, y), [0, 0, 0, 0]);
        }
    }
}

#[test]
fn write_ascii_out_of_font_range_is_a_no_op() {
    let font = vec![0xffu8; 16 * 66];
    let mut w = writer(16, 16, 16, PIXEL_RGB_RESERVED_8BIT_PER_COLOR);
    w.write_ascii(0, 0, 'z', &COLOR, &font);
    assert!(w.buffer.iter().all(|b| *b == 0));
}

#[test]
fn write_string_advances_by_glyph_width() {
    let mut font = vec![0u8; 16 * 67];
    font[16 * 65] = 0x80; // 'A': one pixel top left
    font[16 * 66] = 0x80; // 'B': one pixel top left
    let mut w = writer(32, 32, 16, PIXEL_RGB_RESERVED_8BIT_PER_COLOR);
    w.write_string(4, 0, "AB", &COLOR, &font);
    assert_eq!(pixel(&w, 4, 0), [0x11, 0x22, 0x33, 0x00]);
    assert_eq!(pixel(&w, 12, 0), [0x11, 0x22, 0x33, 0x00]);
    for x in 5..12u32 {
        assert_eq!(pixel(&w, x, 0), [0, 0, 0, 0]);
    }
}

#[test]
fn refresh_clears_console_area_to_background_and_draws_cells() {
    let fg = PixelColor { r: 1, g: 2, b: 3 };
    let bg = PixelColor {
        r: 9,
        g: 8,
        b: 7,
    };
    let mut console = Console::new(fg, bg);
    // A font whose 'H' glyph has one pixel top left; the null glyph is blank.
    let mut font = vec![0u8; 16 * 128];
    font[16 * ('H' as usize)] = 0x80;
    console.put_string("H");
    let mut w = writer(660, 650, 400, PIXEL_RGB_RESERVED_8BIT_PER_COLOR);
    console.refresh(&mut w, &font);
    // The one set bit of the one glyph, in the foreground color.
    assert_eq!(pixel(&w, 0, 0), [1, 2, 3, 0]);
    // Background fill elsewhere inside the 640 x 400 block.
    assert_eq!(pixel(&w, 1, 0), [9, 8, 7, 0]);
    assert_eq!(pixel(&w, 639, 399), [9, 8, 7, 0]);
    assert_eq!(pixel(&w, 300, 200), [9, 8, 7, 0]);
    // Outside the console's pixel block nothing was painted: the sentinel
    // column's null glyphs are blank and the fill stops at column 640.
    assert_eq!(pixel(&w, 649, 0), [0, 0, 0, 0]);
    assert_eq!(pixel(&w, 648, 399), [0, 0, 0, 0]);
}
