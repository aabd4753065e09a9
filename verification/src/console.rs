use crate::frame_buffer::{
    spec_fill_rect, spec_write_ascii, PixelColor, PixelFormat, PixelWriter, Vector2D,
    HANKAKU_FONT_HEIGHT, HANKAKU_FONT_WIDTH,
};
use vstd::prelude::*;

verus! {

/// Rows of the fixed character grid.
pub const ROWS: usize = 25;

/// Columns a logical line can show; what runs past them is dropped.
pub const COLUMNS: usize = 80;

/// Cells stored per row: the visible columns and one trailing null sentinel.
pub const ROW_CELLS: usize = COLUMNS + 1;

// ---------------------------------------------------------------------------
// The grid, as a mathematical function
//
// The grid is a flat row-major sequence of `ROWS * ROW_CELLS` characters;
// `'\0'` is the null sentinel of an empty cell. The functions below say what
// one appended character does to grid and cursor; `Console::put_string`
// promises exactly their fold.
// ---------------------------------------------------------------------------

/// Scrolling: every row takes the content of the one below it and the last
/// row clears to the null sentinel — the oldest visible line is evicted.
pub open spec fn spec_scroll(grid: Seq<char>) -> Seq<char> {
    Seq::new(
        (ROWS * ROW_CELLS) as nat,
        |i: int|
            if i < (ROWS - 1) * ROW_CELLS {
                grid[i + ROW_CELLS]
            } else {
                '\0'
            },
    )
}

/// A line break: move to the next row, or scroll when already on the last
/// one; the cursor row never leaves the grid.
pub open spec fn spec_new_line(grid: Seq<char>, row: int) -> (Seq<char>, int) {
    if row < ROWS - 1 {
        (grid, row + 1)
    } else {
        (spec_scroll(grid), (ROWS - 1) as int)
    }
}

/// One appended character: a newline breaks the line and resets the column;
/// any other character lands in the cursor cell and advances the column
/// while the column is under the bound, and is silently dropped once at it.
pub open spec fn spec_put_char(grid: Seq<char>, row: int, col: int, c: char) -> (
    Seq<char>,
    int,
    int,
) {
    if c == '\n' {
        let (g, r) = spec_new_line(grid, row);
        (g, r, 0)
    } else if col < COLUMNS {
        (grid.update(row * ROW_CELLS + col, c), row, col + 1)
    } else {
        (grid, row, col)
    }
}

/// A whole string appended character by character.
pub open spec fn spec_put_string(grid: Seq<char>, row: int, col: int, s: Seq<char>) -> (
    Seq<char>,
    int,
    int,
)
    decreases s.len(),
{
    if s.len() == 0 {
        (grid, row, col)
    } else {
        let (g, r, c) = spec_put_char(grid, row, col, s[0]);
        spec_put_string(g, r, c, s.drop_first())
    }
}

/// Appending a single character is one character step.
pub proof fn lemma_put_one(grid: Seq<char>, row: int, col: int, c: char)
    ensures
        spec_put_string(grid, row, col, seq![c]) == spec_put_char(grid, row, col, c),
{
    let (g1, r1, c1) = spec_put_char(grid, row, col, c);
    assert(seq![c][0] == c);
    assert(seq![c].drop_first() =~= Seq::<char>::empty());
    assert(spec_put_string(g1, r1, c1, Seq::<char>::empty()) == (g1, r1, c1));
}

/// Appending splits over concatenation: the second part starts where the
/// first one left grid and cursor.
pub proof fn lemma_put_string_concat(grid: Seq<char>, row: int, col: int, a: Seq<char>, b: Seq<char>)
    ensures
        spec_put_string(grid, row, col, a + b) == ({
            let (g, r, c) = spec_put_string(grid, row, col, a);
            spec_put_string(g, r, c, b)
        }),
    decreases a.len(),
{
    if a.len() == 0 {
        assert(a + b =~= b);
    } else {
        let (g, r, c) = spec_put_char(grid, row, col, a[0]);
        assert((a + b).drop_first() =~= a.drop_first() + b);
        assert((a + b)[0] == a[0]);
        lemma_put_string_concat(g, r, c, a.drop_first(), b);
    }
}

// ---------------------------------------------------------------------------
// The console
// ---------------------------------------------------------------------------

/// A fixed character grid with a cursor and a pair of colors; text is
/// appended, wraps to new rows only at newlines, and scrolls the grid when
/// the last row overflows.
pub struct Console {
    pub cursor_row: usize,
    pub cursor_column: usize,
    pub fg_color: PixelColor,
    pub bg_color: PixelColor,
    pub buffer: Vec<char>,
}

impl Console {
    /// The grid keeps its fixed size and the cursor stays on it; the column
    /// may rest at the bound itself, where characters are being dropped.
    pub open spec fn wf(self) -> bool {
        &&& self.buffer@.len() == ROWS * ROW_CELLS
        &&& self.cursor_row < ROWS
        &&& self.cursor_column <= COLUMNS
    }

    /// An empty console: every cell holds the null sentinel and the cursor
    /// sits at the top left.
    pub fn new(fg_color: PixelColor, bg_color: PixelColor) -> (r: Console)
        ensures
            r.wf(),
            r.cursor_row == 0,
            r.cursor_column == 0,
            r.fg_color == fg_color,
            r.bg_color == bg_color,
            forall|i: int| 0 <= i < r.buffer@.len() ==> r.buffer@[i] == '\0',
    {
        Console {
            cursor_row: 0,
            cursor_column: 0,
            fg_color,
            bg_color,
            buffer: vec!['\0'; ROWS * ROW_CELLS],
        }
    }

    /// Append one character.
    pub fn put_char(&mut self, c: char)
        requires
            old(self).wf(),
        ensures
            final(self).wf(),
            (final(self).buffer@, final(self).cursor_row as int, final(self).cursor_column as int)
                == spec_put_char(
                old(self).buffer@,
                old(self).cursor_row as int,
                old(self).cursor_column as int,
                c,
            ),
            final(self).fg_color == old(self).fg_color,
            final(self).bg_color == old(self).bg_color,
    {
        if c == '\n' {
            self.new_line();
        } else {
            if self.cursor_column < COLUMNS {
                let idx = self.cursor_row * ROW_CELLS + self.cursor_column;
                self.buffer[idx] = c;
                self.cursor_column = self.cursor_column + 1;
            }
        }
    }

    /// Append a string character by character.
    pub fn put_string(&mut self, s: &str)
        requires
            old(self).wf(),
        ensures
            final(self).wf(),
            (final(self).buffer@, final(self).cursor_row as int, final(self).cursor_column as int)
                == spec_put_string(
                old(self).buffer@,
                old(self).cursor_row as int,
                old(self).cursor_column as int,
                s@,
            ),
            final(self).fg_color == old(self).fg_color,
            final(self).bg_color == old(self).bg_color,
    {
        let n = s.unicode_len();
        let mut i: usize = 0;
        proof {
            assert(s@.take(0) =~= Seq::<char>::empty());
        }
        while i < n
            invariant
                self.wf(),
                i <= n,
                n == s@.len(),
                (self.buffer@, self.cursor_row as int, self.cursor_column as int)
                    == spec_put_string(
                    old(self).buffer@,
                    old(self).cursor_row as int,
                    old(self).cursor_column as int,
                    s@.take(i as int),
                ),
                self.fg_color == old(self).fg_color,
                self.bg_color == old(self).bg_color,
            decreases n - i,
        {
            let c = s.get_char(i);
            let ghost pre = (self.buffer@, self.cursor_row as int, self.cursor_column as int);
            self.put_char(c);
            proof {
                assert(s@.take(i + 1).drop_last() =~= s@.take(i as int));
                assert(s@.take(i + 1) =~= s@.take(i as int).push(s@[i as int]));
                lemma_put_string_concat(
                    old(self).buffer@,
                    old(self).cursor_row as int,
                    old(self).cursor_column as int,
                    s@.take(i as int),
                    seq![s@[i as int]],
                );
                assert(s@.take(i as int) + seq![s@[i as int]] =~= s@.take(i + 1));
                let ghost (g1, r1, c1) = spec_put_char(pre.0, pre.1, pre.2, c);
                assert(seq![c][0] == c);
                assert(seq![c].drop_first() =~= Seq::<char>::empty());
                assert(spec_put_string(g1, r1, c1, Seq::<char>::empty()) == (g1, r1, c1));
                assert(spec_put_string(pre.0, pre.1, pre.2, seq![c]) == (g1, r1, c1));
            }
            i = i + 1;
        }
        proof {
            assert(s@.take(n as int) =~= s@);
        }
    }

    /// Break the line: advance the cursor row, or, on the last row, scroll
    /// the grid up by one and clear the new bottom row.
    fn new_line(&mut self)
        requires
            old(self).wf(),
        ensures
            final(self).wf(),
            final(self).cursor_column == 0,
            (final(self).buffer@, final(self).cursor_row as int) == spec_new_line(
                old(self).buffer@,
                old(self).cursor_row as int,
            ),
            final(self).fg_color == old(self).fg_color,
            final(self).bg_color == old(self).bg_color,
    {
        self.cursor_column = 0;
        if self.cursor_row < ROWS - 1 {
            self.cursor_row = self.cursor_row + 1;
        } else {
            let mut i: usize = 0;
            while i < (ROWS - 1) * ROW_CELLS
                invariant
                    old(self).wf(),
                    i <= (ROWS - 1) * ROW_CELLS,
                    self.buffer@.len() == ROWS * ROW_CELLS,
                    forall|j: int| 0 <= j < i ==> self.buffer@[j] == old(self).buffer@[j + ROW_CELLS],
                    forall|j: int|
                        i <= j < ROWS * ROW_CELLS ==> self.buffer@[j] == old(self).buffer@[j],
                    self.cursor_row == old(self).cursor_row,
                    self.cursor_column == 0,
                    self.fg_color == old(self).fg_color,
                    self.bg_color == old(self).bg_color,
                decreases (ROWS - 1) * ROW_CELLS - i,
            {
                let c = self.buffer[i + ROW_CELLS];
                self.buffer[i] = c;
                i = i + 1;
            }
            let mut j: usize = (ROWS - 1) * ROW_CELLS;
            while j < ROWS * ROW_CELLS
                invariant
                    old(self).wf(),
                    (ROWS - 1) * ROW_CELLS <= j <= ROWS * ROW_CELLS,
                    self.buffer@.len() == ROWS * ROW_CELLS,
                    forall|k: int|
                        0 <= k < (ROWS - 1) * ROW_CELLS ==> self.buffer@[k] == old(
                            self,
                        ).buffer@[k + ROW_CELLS],
                    forall|k: int| (ROWS - 1) * ROW_CELLS <= k < j ==> self.buffer@[k] == '\0',
                    self.cursor_row == old(self).cursor_row,
                    self.cursor_column == 0,
                    self.fg_color == old(self).fg_color,
                    self.bg_color == old(self).bg_color,
                decreases ROWS * ROW_CELLS - j,
            {
                self.buffer[j] = '\0';
                j = j + 1;
            }
            self.cursor_row = ROWS - 1;
            proof {
                assert(self.buffer@ =~= spec_scroll(old(self).buffer@));
            }
        }
    }
}

// ---------------------------------------------------------------------------
// Repainting
// ---------------------------------------------------------------------------

/// The first `n` cells of one console row drawn as glyphs, left to right;
/// the trailing sentinel cell is drawn like any other and renders blank in a
/// font whose null glyph is empty.
pub open spec fn spec_refresh_row(
    buf: Seq<u8>,
    stride: int,
    format: PixelFormat,
    grid: Seq<char>,
    row: int,
    n: nat,
    fg: PixelColor,
    font: Seq<u8>,
) -> Seq<u8>
    decreases n,
{
    if n == 0 {
        buf
    } else {
        spec_write_ascii(
            spec_refresh_row(buf, stride, format, grid, row, (n - 1) as nat, fg, font),
            stride,
            format,
            HANKAKU_FONT_WIDTH * (n - 1),
            HANKAKU_FONT_HEIGHT * row,
            grid[row * ROW_CELLS + n - 1],
            fg,
            font,
        )
    }
}

/// The first `n` console rows drawn, top to bottom.
pub open spec fn spec_refresh_rows(
    buf: Seq<u8>,
    stride: int,
    format: PixelFormat,
    grid: Seq<char>,
    n: nat,
    fg: PixelColor,
    font: Seq<u8>,
) -> Seq<u8>
    decreases n,
{
    if n == 0 {
        buf
    } else {
        spec_refresh_row(
            spec_refresh_rows(buf, stride, format, grid, (n - 1) as nat, fg, font),
            stride,
            format,
            grid,
            n - 1,
            ROW_CELLS as nat,
            fg,
            font,
        )
    }
}

/// A full repaint: the console's visible pixel block cleared to the
/// background color, then every cell drawn as a glyph in the foreground
/// color.
pub open spec fn spec_refresh(
    buf: Seq<u8>,
    stride: int,
    format: PixelFormat,
    grid: Seq<char>,
    fg: PixelColor,
    bg: PixelColor,
    font: Seq<u8>,
) -> Seq<u8> {
    spec_refresh_rows(
        spec_fill_rect(
            buf,
            stride,
            format,
            0,
            0,
            (HANKAKU_FONT_WIDTH * COLUMNS) as nat,
            (HANKAKU_FONT_HEIGHT * ROWS) as nat,
            bg,
        ),
        stride,
        format,
        grid,
        ROWS as nat,
        fg,
        font,
    )
}

impl Console {
    /// Repaint the whole grid onto the writer: clear the console's pixel
    /// area to the background color, then draw every cell — null cells
    /// render blank — in the foreground color. No damage tracking; the cost
    /// does not depend on what changed.
    pub fn refresh(&self, writer: &mut PixelWriter, font: &Vec<u8>)
        requires
            self.wf(),
            old(writer).wf(),
            HANKAKU_FONT_WIDTH * ROW_CELLS <= old(writer).horizontal_resolution,
            HANKAKU_FONT_HEIGHT * ROWS <= old(writer).vertical_resolution,
        ensures
            final(writer).wf(),
            final(writer).same_shape(*old(writer)),
            final(writer).buffer@ == spec_refresh(
                old(writer).buffer@,
                old(writer).pixels_per_scan_line as int,
                old(writer).format,
                self.buffer@,
                self.fg_color,
                self.bg_color,
                font@,
            ),
    {
        writer.fill_rectangle(
            Vector2D::new(0u32, 0u32),
            Vector2D::new((HANKAKU_FONT_WIDTH * COLUMNS) as u32, (HANKAKU_FONT_HEIGHT * ROWS) as u32),
            &self.bg_color,
        );
        let ghost cleared = writer.buffer@;
        let mut i: usize = 0;
        while i < ROWS
            invariant
                self.wf(),
                writer.wf(),
                writer.same_shape(*old(writer)),
                i <= ROWS,
                font@.len() == font.len(),
                HANKAKU_FONT_WIDTH * ROW_CELLS <= writer.horizontal_resolution,
                HANKAKU_FONT_HEIGHT * ROWS <= writer.vertical_resolution,
                writer.buffer@ == spec_refresh_rows(
                    cleared,
                    writer.pixels_per_scan_line as int,
                    writer.format,
                    self.buffer@,
                    i as nat,
                    self.fg_color,
                    font@,
                ),
            decreases ROWS - i,
        {
            let ghost row_base = writer.buffer@;
            let mut j: usize = 0;
            while j < ROW_CELLS
                invariant
                    self.wf(),
                    writer.wf(),
                    writer.same_shape(*old(writer)),
                    i < ROWS,
                    j <= ROW_CELLS,
                    font@.len() == font.len(),
                    HANKAKU_FONT_WIDTH * ROW_CELLS <= writer.horizontal_resolution,
                    HANKAKU_FONT_HEIGHT * ROWS <= writer.vertical_resolution,
                    writer.buffer@ == spec_refresh_row(
                        row_base,
                        writer.pixels_per_scan_line as int,
                        writer.format,
                        self.buffer@,
                        i as int,
                        j as nat,
                        self.fg_color,
                        font@,
                    ),
                decreases ROW_CELLS - j,
            {
                let c = self.buffer[i * ROW_CELLS + j];
                writer.write_ascii(
                    (j * HANKAKU_FONT_WIDTH) as u32,
                    (i * HANKAKU_FONT_HEIGHT) as u32,
                    c,
                    &self.fg_color,
                    font,
                );
                j = j + 1;
            }
            i = i + 1;
        }
    }
}

// ---------------------------------------------------------------------------
// Truncation of an overlong line
// ---------------------------------------------------------------------------

/// A newline-free string appended at the start of a row shows its first
/// `COLUMNS` characters and drops the rest: the cursor stays on the row, the
/// column comes to rest at the string length or at the bound, whichever is
/// smaller, and no cell outside the written stretch of that row — no other
/// row, in particular — changes.
pub proof fn lemma_line_truncation(grid: Seq<char>, row: int, col: int, s: Seq<char>)
    requires
        grid.len() == ROWS * ROW_CELLS,
        0 <= row < ROWS,
        0 <= col <= COLUMNS,
        forall|i: int| 0 <= i < s.len() ==> s[i] != '\n',
    ensures
        ({
            let (g, r, c) = spec_put_string(grid, row, col, s);
            &&& r == row
            &&& c == if col + s.len() < COLUMNS {
                col + s.len()
            } else {
                COLUMNS as int
            }
            &&& g.len() == grid.len()
            &&& forall|j: int|
                col <= j < COLUMNS && j - col < s.len() ==> #[trigger] g[row * ROW_CELLS + j] == s[
                    j - col
                ]
            &&& forall|k: int|
                0 <= k < grid.len() && !(row * ROW_CELLS + col <= k < row * ROW_CELLS + COLUMNS)
                    ==> g[k] == grid[k]
        }),
    decreases s.len(),
{
    if s.len() == 0 {
    } else {
        assert(s[0] != '\n');
        let (g1, r1, c1) = spec_put_char(grid, row, col, s[0]);
        assert(g1.len() == grid.len());
        assert forall|i: int| 0 <= i < s.drop_first().len() implies s.drop_first()[i] != '\n' by {
            assert(s.drop_first()[i] == s[i + 1]);
        }
        lemma_line_truncation(g1, r1, c1, s.drop_first());
    }
}

} // verus!
