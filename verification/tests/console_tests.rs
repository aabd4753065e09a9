use kernel_core::console::{Console, COLUMNS, ROWS, ROW_CELLS};
use kernel_core::frame_buffer::PixelColor;
use kernel_core::pci::{make_address, ConfigSpace, Pci};

fn colors() -> (PixelColor, PixelColor) {
    (
        PixelColor {
            r: 255,
            g: 255,
            b: 255,
        },
        PixelColor {
            r: 45,
            g: 118,
            b: 237,
        },
    )
}

fn cell(console: &Console, row: usize, col: usize) -> char {
    console.buffer[row * ROW_CELLS + col]
}

fn row_text(console: &Console, row: usize) -> String {
    let mut s = String::new();
    for col in 0..ROW_CELLS {
        let c = cell(console, row, col);
        if c == '\0' {
            break;
        }
        s.push(c);
    }
    s
}

#[test]
fn new_console_is_empty_with_cursor_at_origin() {
    let (fg, bg) = colors();
    let console = Console::new(fg, bg);
    assert_eq!(console.cursor_row, 0);
    assert_eq!(console.cursor_column, 0);
    assert_eq!(console.fg_color, fg);
    assert_eq!(console.bg_color, bg);
    for row in 0..ROWS {
        for col in 0..ROW_CELLS {
            assert_eq!(cell(&console, row, col), '\0');
        }
    }
}

#[test]
fn put_string_writes_and_advances() {
    let (fg, bg) = colors();
    let mut console = Console::new(fg, bg);
    console.put_string("ab\ncd");
    assert_eq!(row_text(&console, 0), "ab");
    assert_eq!(row_text(&console, 1), "cd");
    assert_eq!(console.cursor_row, 1);
    assert_eq!(console.cursor_column, 2);
}

#[test]
fn thirty_lines_leave_last_twenty_five_oldest_evicted() {
    let (fg, bg) = colors();
    let mut console = Console::new(fg, bg);
    let labels: Vec<char> = "0123456789abcdefghijklmnopqrst".chars().collect();
    assert_eq!(labels.len(), 30);
    let mut text = String::new();
    for (i, c) in labels.iter().enumerate() {
        if i > 0 {
            text.push('\n');
        }
        text.push(*c);
    }
    console.put_string(&text);
    // 25 rows hold the last 25 one-character lines, in order; lines 0..5
    // are gone, the oldest evicted first.
    for row in 0..ROWS {
        assert_eq!(cell(&console, row, 0), labels[row + 5]);
        assert_eq!(cell(&console, row, 1), '\0');
    }
    assert_eq!(console.cursor_row, ROWS - 1);
    assert_eq!(console.cursor_column, 1);
}

#[test]
fn overlong_line_truncates_at_column_bound() {
    let (fg, bg) = colors();
    let mut console = Console::new(fg, bg);
    let long: String = std::iter::repeat('x').take(100).collect();
    console.put_string(&long);
    assert_eq!(console.cursor_row, 0);
    assert_eq!(console.cursor_column, COLUMNS);
    for col in 0..COLUMNS {
        assert_eq!(cell(&console, 0, col), 'x');
    }
    assert_eq!(cell(&console, 0, COLUMNS), '\0');
    // The next logical line is unaffected by the dropped overflow.
    console.put_string("\nnext");
    assert_eq!(row_text(&console, 1), "next");
    assert_eq!(row_text(&console, 0), {
        let mut s = String::new();
        for _ in 0..COLUMNS {
            s.push('x');
        }
        s
    });
}

#[test]
fn scroll_shifts_rows_up_and_clears_last() {
    let (fg, bg) = colors();
    let mut console = Console::new(fg, bg);
    for _ in 0..(ROWS - 1) {
        console.put_string("\n");
    }
    assert_eq!(console.cursor_row, ROWS - 1);
    console.put_string("last");
    console.put_string("\n");
    // The "last" line moved up one row; the bottom row is clear and keeps
    // the cursor.
    assert_eq!(row_text(&console, ROWS - 2), "last");
    assert_eq!(row_text(&console, ROWS - 1), "");
    assert_eq!(console.cursor_row, ROWS - 1);
    assert_eq!(console.cursor_column, 0);
}

#[test]
fn show_device_lists_one_line_per_device() {
    let (fg, bg) = colors();
    let mut console = Console::new(fg, bg);
    let mut cs = ConfigSpace::new();
    cs.write(make_address(0, 0, 0, 0x00), 0x1234);
    cs.write(make_address(0, 0, 0, 0x08), 0x0c03_3000);
    cs.write(make_address(0, 0, 0, 0x0c), 0x0000_0000);
    let mut pci = Pci::new();
    pci.scan_all_bus(&cs).unwrap();
    assert_eq!(pci.num_device, 1);
    pci.show_device(&cs, &mut console);
    assert_eq!(row_text(&console, 0), "0:0:0: vend 1234, class 0c,03,30, head 00");
    assert_eq!(console.cursor_row, 1);
    assert_eq!(console.cursor_column, 0);
}

#[test]
fn show_device_decimal_coordinates_and_live_vendor() {
    let (fg, bg) = colors();
    let mut console = Console::new(fg, bg);
    let mut cs = ConfigSpace::new();
    cs.write(make_address(13, 31, 7, 0x00), 0xabcd);
    cs.write(make_address(13, 31, 7, 0x08), 0x0106_0100);
    let mut pci = Pci::new();
    pci.add_device(kernel_core::pci::Device {
        bus: 13,
        device: 31,
        function: 7,
        header_type: 0x80,
        class_code: kernel_core::pci::ClassCode {
            base: 0x01,
            sub: 0x06,
            interface: 0x01,
        },
    })
    .unwrap();
    pci.show_device(&cs, &mut console);
    assert_eq!(
        row_text(&console, 0),
        "13:31:7: vend abcd, class 01,06,01, head 80"
    );
}
