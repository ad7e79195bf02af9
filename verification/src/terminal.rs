use crate::font::BitmapFontTable;
use crate::gfx::Color;
use crate::gfx::FrameBuffer;
use crate::gfx::FrameBufferMode;
use vstd::prelude::*;
use vstd::string::StringSliceAdditionalSpecFns;

verus! {

/// The terminal's text state as a mathematical value: the cell storage in
/// row-major order and the cursor position.
pub struct TermText {
    pub cells: Seq<u8>,
    pub cursor_x: int,
    pub cursor_y: int,
}

/// Size of the fixed cell storage, in cells.
pub open spec fn buff_cells() -> int {
    (256 * 128) as int
}

/// The cell storage after scrolling one text row up: every visible row
/// moves up by one, and the storage past the second-to-last visible row is
/// cleared.
pub open spec fn spec_scroll_cells(cells: Seq<u8>, w: int, h: int) -> Seq<u8> {
    Seq::new(
        cells.len(),
        |i: int|
            if i < w * (h - 1) {
                cells[i + w]
            } else {
                0u8
            },
    )
}

/// The text state after the cursor leaves its row: the cursor returns to
/// the left edge one row down, and leaving the last row scrolls.
pub open spec fn spec_new_line(m: TermText, w: int, h: int) -> TermText {
    if m.cursor_y + 1 == h {
        TermText { cells: spec_scroll_cells(m.cells, w, h), cursor_x: 0, cursor_y: h - 1 }
    } else {
        TermText { cells: m.cells, cursor_x: 0, cursor_y: m.cursor_y + 1 }
    }
}

/// The text state after the cursor advances one cell, wrapping at the
/// right edge.
pub open spec fn spec_seek(m: TermText, w: int, h: int) -> TermText {
    if m.cursor_x + 1 == w {
        spec_new_line(m, w, h)
    } else {
        TermText { cells: m.cells, cursor_x: m.cursor_x + 1, cursor_y: m.cursor_y }
    }
}

/// The text state after one byte is written: a line feed breaks the line,
/// a carriage return rewinds the cursor, any other byte fills the cursor's
/// cell and advances.
pub open spec fn spec_put(m: TermText, w: int, h: int, ascii: u8) -> TermText {
    if ascii == 10 {
        spec_new_line(m, w, h)
    } else if ascii == 13 {
        TermText { cells: m.cells, cursor_x: 0, cursor_y: m.cursor_y }
    } else {
        spec_seek(
            TermText {
                cells: m.cells.update(m.cursor_x + m.cursor_y * w, ascii),
                cursor_x: m.cursor_x,
                cursor_y: m.cursor_y,
            },
            w,
            h,
        )
    }
}

/// The text state after a byte sequence is written, front to back.
pub open spec fn spec_put_seq(m: TermText, w: int, h: int, s: Seq<u8>) -> TermText
    decreases s.len(),
{
    if s.len() == 0 {
        m
    } else {
        spec_put_seq(spec_put(m, w, h, s[0]), w, h, s.skip(1))
    }
}

/// A cell index lies inside the fixed storage.
proof fn lemma_cell_index(x: int, y: int, w: int, h: int)
    requires
        0 <= x < w,
        0 <= y < h,
        w <= 256,
        h <= 128,
    ensures
        0 <= x + y * w < 256 * 128,
        x + y * w < w * h,
{
    assert(0 <= x + y * w < w * h && w * h <= 256 * 128) by (nonlinear_arith)
        requires
            0 <= x < w,
            0 <= y < h,
            w <= 256,
            h <= 128;
}

/// A text console drawn over a frame buffer: a grid of 8 by 16 pixel
/// cells, a cursor, and a fixed backing store of cell contents.
#[derive(Debug)]
pub struct Terminal {
    frame_buffer: FrameBuffer,
    font: BitmapFontTable,
    cursor_x: usize,
    cursor_y: usize,
    width: usize,
    height: usize,
    buffer: Vec<u8>,
}

/// The pixel a cell shows at one of its glyph offsets, before the cursor
/// overlay: the cell's glyph in the foreground colour over the background,
/// or bare background for an empty cell.
pub open spec fn spec_cell_pixel(t: &Terminal, cx: int, cy: int, dx: int, dy: int) -> u32 {
    let mode = t.spec_frame_buffer().spec_mode();
    let a = t.text().cells[cx + cy * t.spec_width()];
    if a != 0 {
        if t.spec_font().spec_glyph_of(a).spec_is_on(dx, dy) {
            Terminal::spec_foreground().spec_as_raw(mode)
        } else {
            Terminal::spec_background().spec_as_raw(mode)
        }
    } else {
        Terminal::spec_background().spec_as_raw(mode)
    }
}

/// The pixel a cell shows at one of its glyph offsets, cursor overlay
/// included.
pub open spec fn spec_rendered_pixel(t: &Terminal, cx: int, cy: int, dx: int, dy: int) -> u32 {
    if cx == t.text().cursor_x && cy == t.text().cursor_y && 1 <= dx < 7 && 14 <= dy < 16 {
        Terminal::spec_cursor_color().spec_as_raw(t.spec_frame_buffer().spec_mode())
    } else {
        spec_cell_pixel(t, cx, cy, dx, dy)
    }
}

impl Terminal {
    pub const BUFF_WIDTH_MAX: usize = 256;

    pub const BUFF_HEIGHT_MAX: usize = 128;

    /// The console's background colour.
    pub open spec fn spec_background() -> Color {
        Color { red: 0x0D, green: 0x1B, blue: 0x2A }
    }

    /// The console's text colour.
    pub open spec fn spec_foreground() -> Color {
        Color { red: 0xE0, green: 0xFB, blue: 0xFC }
    }

    /// The cursor's colour.
    pub open spec fn spec_cursor_color() -> Color {
        Color { red: 0x00, green: 0xFF, blue: 0xFF }
    }

    /// The console's background colour.
    pub fn background() -> (c: Color)
        ensures
            c == Terminal::spec_background(),
    {
        Color::new(0x0D, 0x1B, 0x2A)
    }

    /// The console's text colour.
    pub fn foreground() -> (c: Color)
        ensures
            c == Terminal::spec_foreground(),
    {
        Color::new(0xE0, 0xFB, 0xFC)
    }

    /// The cursor's colour.
    pub fn cursor_color() -> (c: Color)
        ensures
            c == Terminal::spec_cursor_color(),
    {
        Color::new(0x00, 0xFF, 0xFF)
    }

    /// The console's width, in cells.
    pub closed spec fn spec_width(&self) -> int {
        self.width as int
    }

    /// The console's height, in cells.
    pub closed spec fn spec_height(&self) -> int {
        self.height as int
    }

    /// The frame buffer the console draws on.
    pub closed spec fn spec_frame_buffer(&self) -> &FrameBuffer {
        &self.frame_buffer
    }

    /// The glyph table the console draws with.
    pub closed spec fn spec_font(&self) -> &BitmapFontTable {
        &self.font
    }

    /// The console's text state.
    pub closed spec fn text(&self) -> TermText {
        TermText {
            cells: self.buffer@,
            cursor_x: self.cursor_x as int,
            cursor_y: self.cursor_y as int,
        }
    }

    /// The console's geometry fits its frame buffer and its fixed storage.
    pub open spec fn wf_geometry(&self) -> bool {
        &&& self.spec_frame_buffer().wf()
        &&& self.spec_frame_buffer().spec_mode() != FrameBufferMode::Unknown
        &&& self.spec_font().wf()
        &&& self.spec_width() == self.spec_frame_buffer().spec_width() / 8
        &&& self.spec_height() == self.spec_frame_buffer().spec_height() / 16
        &&& 1 <= self.spec_width() <= 256
        &&& 1 <= self.spec_height() <= 128
        &&& self.text().cells.len() == buff_cells()
    }

    /// The console is well formed: its geometry fits and the cursor sits
    /// on a cell.
    pub open spec fn wf(&self) -> bool {
        &&& self.wf_geometry()
        &&& 0 <= self.text().cursor_x < self.spec_width()
        &&& 0 <= self.text().cursor_y < self.spec_height()
    }

    /// The console keeps its geometry, font and frame-buffer shape.
    pub open spec fn same_console(&self, other: &Terminal) -> bool {
        &&& self.spec_width() == other.spec_width()
        &&& self.spec_height() == other.spec_height()
        &&& self.spec_font() == other.spec_font()
        &&& self.spec_frame_buffer().same_shape(other.spec_frame_buffer())
    }

    /// Builds a console over a frame buffer of known pixel layout, with
    /// the embedder's glyph table.
    pub fn new(frame_buffer: FrameBuffer, font: BitmapFontTable) -> (r: Terminal)
        requires
            frame_buffer.wf(),
            frame_buffer.spec_mode() != FrameBufferMode::Unknown,
            font.wf(),
            8 <= frame_buffer.spec_width() <= 2048,
            16 <= frame_buffer.spec_height() <= 2048,
        ensures
            r.wf(),
            r.spec_frame_buffer()@ == frame_buffer@,
            r.spec_frame_buffer().same_shape(&frame_buffer),
            r.spec_font() == font,
            r.text().cursor_x == 0,
            r.text().cursor_y == 0,
            r.text().cells == Seq::new(buff_cells() as nat, |i: int| 0u8),
    {
        let width = frame_buffer.width() / 8;
        let height = frame_buffer.height() / 16;
        let total = Self::BUFF_WIDTH_MAX * Self::BUFF_HEIGHT_MAX;
        let mut buffer: Vec<u8> = Vec::new();
        while buffer.len() < total
            invariant
                buffer@.len() <= total,
                forall|i: int| 0 <= i < buffer@.len() ==> buffer@[i] == 0u8,
            decreases total - buffer@.len(),
        {
            buffer.push(0u8);
        }
        proof {
            assert(buffer@ =~= Seq::new(buff_cells() as nat, |i: int| 0u8));
        }
        Terminal { frame_buffer, font, cursor_x: 0, cursor_y: 0, width, height, buffer }
    }

    /// Where the cursor stands, as `(column, row)`.
    pub fn cursor(&self) -> (r: (usize, usize))
        ensures
            r.0 == self.text().cursor_x,
            r.1 == self.text().cursor_y,
    {
        (self.cursor_x, self.cursor_y)
    }

    /// The console's width, in cells.
    pub fn text_width(&self) -> (r: usize)
        ensures
            r == self.spec_width(),
    {
        self.width
    }

    /// The console's height, in cells.
    pub fn text_height(&self) -> (r: usize)
        ensures
            r == self.spec_height(),
    {
        self.height
    }

    /// The pixel at `(x, y)` of the underlying frame buffer.
    pub fn pixel(&self, x: usize, y: usize) -> (r: u32)
        requires
            self.wf(),
            x < self.spec_frame_buffer().spec_scanline(),
            y < self.spec_frame_buffer().spec_height(),
        ensures
            r == self.spec_frame_buffer().spec_pixel(x as int, y as int),
    {
        self.frame_buffer.pixel(x, y)
    }

    /// The byte stored in the cell at `(x, y)`.
    pub fn cell(&self, x: usize, y: usize) -> (r: u8)
        requires
            self.wf(),
            x < self.spec_width(),
            y < self.spec_height(),
        ensures
            r == self.text().cells[x + y * self.spec_width()],
    {
        proof {
            lemma_cell_index(x as int, y as int, self.spec_width(), self.spec_height());
        }
        self.buffer[x + y * self.width]
    }

    fn new_line(&mut self)
        requires
            old(self).wf_geometry(),
            0 <= old(self).text().cursor_y < old(self).spec_height(),
        ensures
            final(self).wf(),
            old(self).same_console(final(self)),
            final(self).text() == spec_new_line(
                old(self).text(),
                old(self).spec_width(),
                old(self).spec_height(),
            ),
    {
        self.cursor_x = 0;
        self.cursor_y = self.cursor_y + 1;
        if self.cursor_y == self.height {
            self.scroll();
        }
    }

    fn scroll(&mut self)
        requires
            old(self).wf_geometry(),
            0 <= old(self).text().cursor_x < old(self).spec_width(),
            0 <= old(self).text().cursor_y <= old(self).spec_height(),
        ensures
            final(self).wf(),
            old(self).same_console(final(self)),
            final(self).text().cells == spec_scroll_cells(
                old(self).text().cells,
                old(self).spec_width(),
                old(self).spec_height(),
            ),
            final(self).text().cursor_x == old(self).text().cursor_x,
            final(self).text().cursor_y == if old(self).text().cursor_y > 0 {
                old(self).text().cursor_y - 1
            } else {
                0int
            },
    {
        if 0 < self.cursor_y {
            self.cursor_y = self.cursor_y - 1;
        }
        let ghost mid = *self;

        proof {
            assert(self.spec_width() * (self.spec_height() - 1) + self.spec_width()
                == self.spec_width() * self.spec_height() && self.spec_width() * (
            self.spec_height() - 1) >= 0 && self.spec_width() * self.spec_height() <= 256 * 128)
                by (nonlinear_arith)
                requires
                    1 <= self.spec_width() <= 256,
                    1 <= self.spec_height() <= 128;
        }
        let copy_len = self.width * (self.height - 1);
        let w = self.width;
        let total = self.buffer.len();
        let mut i: usize = 0;
        while i < copy_len
            invariant
                i <= copy_len,
                w == mid.spec_width(),
                copy_len + w <= mid.text().cells.len(),
                total == mid.text().cells.len(),
                self.text().cells.len() == mid.text().cells.len(),
                self.spec_width() == mid.spec_width(),
                self.spec_height() == mid.spec_height(),
                self.spec_font() == mid.spec_font(),
                self.spec_frame_buffer() == mid.spec_frame_buffer(),
                self.text().cursor_x == mid.text().cursor_x,
                self.text().cursor_y == mid.text().cursor_y,
                forall|j: int| 0 <= j < i ==> self.text().cells[j] == mid.text().cells[j + w],
                forall|j: int|
                    i <= j < self.text().cells.len() ==> self.text().cells[j]
                        == mid.text().cells[j],
            decreases copy_len - i,
        {
            let b = self.buffer[i + w];
            self.buffer.set(i, b);
            i = i + 1;
        }

        let mut k = copy_len;
        while k < total
            invariant
                copy_len <= k <= total,
                w == mid.spec_width(),
                copy_len + w <= mid.text().cells.len(),
                total == mid.text().cells.len(),
                self.text().cells.len() == mid.text().cells.len(),
                self.spec_width() == mid.spec_width(),
                self.spec_height() == mid.spec_height(),
                self.spec_font() == mid.spec_font(),
                self.spec_frame_buffer() == mid.spec_frame_buffer(),
                self.text().cursor_x == mid.text().cursor_x,
                self.text().cursor_y == mid.text().cursor_y,
                forall|j: int| 0 <= j < copy_len ==> self.text().cells[j] == mid.text().cells[j
                    + w],
                forall|j: int| copy_len <= j < k ==> self.text().cells[j] == 0u8,
            decreases total - k,
        {
            self.buffer.set(k, 0u8);
            k = k + 1;
        }
        proof {
            assert(self.text().cells =~= spec_scroll_cells(
                mid.text().cells,
                mid.spec_width(),
                mid.spec_height(),
            ));
        }

        self.flush();
    }

    fn seek_cursor(&mut self)
        requires
            old(self).wf(),
        ensures
            final(self).wf(),
            old(self).same_console(final(self)),
            final(self).text() == spec_seek(
                old(self).text(),
                old(self).spec_width(),
                old(self).spec_height(),
            ),
    {
        self.cursor_x = self.cursor_x + 1;

        if self.width == self.cursor_x {
            self.new_line();
        }
    }

    fn draw_cursor(&mut self)
        requires
            old(self).wf(),
        ensures
            final(self).wf(),
            old(self).same_console(final(self)),
            final(self).text() == old(self).text(),
            forall|dx: int, dy: int|
                1 <= dx < 7 && 14 <= dy < 16 ==> #[trigger] final(self).spec_frame_buffer()
                    .spec_pixel(
                    old(self).text().cursor_x * 8 + dx,
                    old(self).text().cursor_y * 16 + dy,
                ) == Terminal::spec_cursor_color().spec_as_raw(
                    old(self).spec_frame_buffer().spec_mode(),
                ),
            forall|px: int, py: int|
                0 <= px < old(self).spec_frame_buffer().spec_scanline() && 0 <= py < old(self).spec_frame_buffer().spec_height() && !(old(self).text().cursor_x * 8 + 1 <= px
                    < old(self).text().cursor_x * 8 + 7 && old(self).text().cursor_y * 16 + 14
                    <= py < old(self).text().cursor_y * 16 + 16) ==> #[trigger] final(self).spec_frame_buffer().spec_pixel(px, py) == old(self).spec_frame_buffer()
                    .spec_pixel(px, py),
    {
        proof {
            lemma_cell_region(
                self.text().cursor_x,
                self.text().cursor_y,
                self.spec_width(),
                self.spec_height(),
                self.spec_frame_buffer().spec_width() as int,
                self.spec_frame_buffer().spec_height() as int,
            );
        }
        let c = Self::cursor_color();
        self.frame_buffer.draw_rect(
            self.cursor_x * 8 + 1,
            self.cursor_y * 16 + 14,
            6,
            2,
            c,
        );
    }

    fn clean_cursor(&mut self)
        requires
            old(self).wf(),
        ensures
            final(self).wf(),
            old(self).same_console(final(self)),
            final(self).text() == old(self).text(),
    {
        let x = self.cursor_x;
        let y = self.cursor_y;
        self.draw_at(x, y);
    }

    fn draw_at(&mut self, x: usize, y: usize)
        requires
            old(self).wf(),
            x < old(self).spec_width(),
            y < old(self).spec_height(),
        ensures
            final(self).wf(),
            old(self).same_console(final(self)),
            final(self).text() == old(self).text(),
            forall|dx: int, dy: int|
                0 <= dx < 8 && 0 <= dy < 16 ==> #[trigger] final(self).spec_frame_buffer()
                    .spec_pixel(x * 8 + dx, y * 16 + dy) == spec_cell_pixel(
                    old(self),
                    x as int,
                    y as int,
                    dx,
                    dy,
                ),
            forall|px: int, py: int|
                0 <= px < old(self).spec_frame_buffer().spec_scanline() && 0 <= py < old(self).spec_frame_buffer().spec_height() && !(x * 8 <= px < x * 8 + 8 && y * 16 <= py
                    < y * 16 + 16) ==> #[trigger] final(self).spec_frame_buffer().spec_pixel(
                    px,
                    py,
                ) == old(self).spec_frame_buffer().spec_pixel(px, py),
    {
        proof {
            lemma_cell_region(
                x as int,
                y as int,
                self.spec_width(),
                self.spec_height(),
                self.spec_frame_buffer().spec_width() as int,
                self.spec_frame_buffer().spec_height() as int,
            );
            lemma_cell_index(x as int, y as int, self.spec_width(), self.spec_height());
        }
        let ascii = self.buffer[x + y * self.width];
        let fg = Self::foreground();
        let bg = Self::background();
        if ascii != 0 {
            let glyph = self.font.get(ascii);
            self.frame_buffer.draw_font(&glyph, x * 8, y * 16, fg, bg);
        } else {
            self.frame_buffer.draw_rect(x * 8, y * 16, 8, 16, bg);
        }
    }

    /// Redraws every cell and the cursor, so that the frame buffer shows
    /// exactly the console's text state.
    pub fn flush(&mut self)
        requires
            old(self).wf(),
        ensures
            final(self).wf(),
            old(self).same_console(final(self)),
            final(self).text() == old(self).text(),
            forall|cx: int, cy: int, dx: int, dy: int|
                0 <= cx < old(self).spec_width() && 0 <= cy < old(self).spec_height() && 0 <= dx
                    < 8 && 0 <= dy < 16 ==> #[trigger] final(self).spec_frame_buffer().spec_pixel(
                    cx * 8 + dx,
                    cy * 16 + dy,
                ) == spec_rendered_pixel(old(self), cx, cy, dx, dy),
            forall|px: int, py: int|
                0 <= px < old(self).spec_frame_buffer().spec_scanline() && 0 <= py < old(
                    self,
                ).spec_frame_buffer().spec_height() && !(px < old(self).spec_width() * 8 && py
                    < old(self).spec_height() * 16) ==> #[trigger] final(self).spec_frame_buffer()
                    .spec_pixel(px, py) == old(self).spec_frame_buffer().spec_pixel(px, py),
    {
        let ghost start = *self;
        let mut y: usize = 0;
        while y < self.height
            invariant
                self.wf(),
                start.wf(),
                start.same_console(self),
                self.text() == start.text(),
                y <= self.spec_height(),
                forall|cx: int, cy: int, dx: int, dy: int|
                    0 <= cx < start.spec_width() && 0 <= cy < y && 0 <= dx < 8 && 0 <= dy < 16
                        ==> #[trigger] self.spec_frame_buffer().spec_pixel(
                        cx * 8 + dx,
                        cy * 16 + dy,
                    ) == spec_cell_pixel(&start, cx, cy, dx, dy),
                forall|px: int, py: int|
                    0 <= px < start.spec_frame_buffer().spec_scanline() && 0 <= py
                        < start.spec_frame_buffer().spec_height() && !(px < start.spec_width() * 8
                        && py < start.spec_height() * 16) ==> #[trigger] self.spec_frame_buffer()
                        .spec_pixel(px, py) == start.spec_frame_buffer().spec_pixel(px, py),
            decreases self.spec_height() - y,
        {
            let mut x: usize = 0;
            while x < self.width
                invariant
                    self.wf(),
                    start.wf(),
                    start.same_console(self),
                    self.text() == start.text(),
                    y < self.spec_height(),
                    x <= self.spec_width(),
                    forall|cx: int, cy: int, dx: int, dy: int|
                        0 <= cx < start.spec_width() && 0 <= cy < y && 0 <= dx < 8 && 0 <= dy < 16
                            ==> #[trigger] self.spec_frame_buffer().spec_pixel(
                            cx * 8 + dx,
                            cy * 16 + dy,
                        ) == spec_cell_pixel(&start, cx, cy, dx, dy),
                    forall|cx: int, dx: int, dy: int|
                        0 <= cx < x && 0 <= dx < 8 && 0 <= dy < 16
                            ==> #[trigger] self.spec_frame_buffer().spec_pixel(
                            cx * 8 + dx,
                            y * 16 + dy,
                        ) == spec_cell_pixel(&start, cx, y as int, dx, dy),
                    forall|px: int, py: int|
                        0 <= px < start.spec_frame_buffer().spec_scanline() && 0 <= py
                            < start.spec_frame_buffer().spec_height() && !(px < start.spec_width()
                            * 8 && py < start.spec_height() * 16) ==> #[trigger] self
                            .spec_frame_buffer().spec_pixel(px, py) == start.spec_frame_buffer()
                            .spec_pixel(px, py),
                decreases self.spec_width() - x,
            {
                let ghost mid = *self;
                self.draw_at(x, y);
                proof {
                    lemma_cell_region(
                        x as int,
                        y as int,
                        start.spec_width(),
                        start.spec_height(),
                        start.spec_frame_buffer().spec_width() as int,
                        start.spec_frame_buffer().spec_height() as int,
                    );
                    assert forall|cx: int, cy: int, dx: int, dy: int|
                        0 <= cx < start.spec_width() && 0 <= cy < y && 0 <= dx < 8 && 0 <= dy < 16
                        implies #[trigger] self.spec_frame_buffer().spec_pixel(
                        cx * 8 + dx,
                        cy * 16 + dy,
                    ) == spec_cell_pixel(&start, cx, cy, dx, dy) by {
                        lemma_cell_region(
                            cx,
                            cy,
                            start.spec_width(),
                            start.spec_height(),
                            start.spec_frame_buffer().spec_width() as int,
                            start.spec_frame_buffer().spec_height() as int,
                        );
                        assert(mid.spec_frame_buffer().spec_pixel(cx * 8 + dx, cy * 16 + dy)
                            == spec_cell_pixel(&start, cx, cy, dx, dy));
                        assert(cy * 16 + dy < y * 16);
                    }
                    assert forall|cx: int, dx: int, dy: int|
                        0 <= cx < x + 1 && 0 <= dx < 8 && 0 <= dy < 16
                        implies #[trigger] self.spec_frame_buffer().spec_pixel(
                        cx * 8 + dx,
                        y * 16 + dy,
                    ) == spec_cell_pixel(&start, cx, y as int, dx, dy) by {
                        lemma_cell_region(
                            cx,
                            y as int,
                            start.spec_width(),
                            start.spec_height(),
                            start.spec_frame_buffer().spec_width() as int,
                            start.spec_frame_buffer().spec_height() as int,
                        );
                        if cx < x {
                            assert(mid.spec_frame_buffer().spec_pixel(cx * 8 + dx, y * 16 + dy)
                                == spec_cell_pixel(&start, cx, y as int, dx, dy));
                            assert(cx * 8 + dx < x * 8);
                        }
                    }
                }
                x = x + 1;
            }
            y = y + 1;
        }

        self.draw_cursor();
        proof {
            assert forall|cx: int, cy: int, dx: int, dy: int|
                0 <= cx < start.spec_width() && 0 <= cy < start.spec_height() && 0 <= dx < 8 && 0
                    <= dy < 16 implies #[trigger] self.spec_frame_buffer().spec_pixel(
                cx * 8 + dx,
                cy * 16 + dy,
            ) == spec_rendered_pixel(&start, cx, cy, dx, dy) by {
                lemma_cell_region(
                    cx,
                    cy,
                    start.spec_width(),
                    start.spec_height(),
                    start.spec_frame_buffer().spec_width() as int,
                    start.spec_frame_buffer().spec_height() as int,
                );
                lemma_cell_region(
                    start.text().cursor_x,
                    start.text().cursor_y,
                    start.spec_width(),
                    start.spec_height(),
                    start.spec_frame_buffer().spec_width() as int,
                    start.spec_frame_buffer().spec_height() as int,
                );
                assert(cx * 8 + dx < start.spec_frame_buffer().spec_width());
                assert(cy * 16 + dy < start.spec_frame_buffer().spec_height());
                if !(cx == start.text().cursor_x && cy == start.text().cursor_y && 1 <= dx < 7
                    && 14 <= dy < 16) {
                    assert(cx != start.text().cursor_x || cy != start.text().cursor_y ==> (cx * 8
                        + dx < start.text().cursor_x * 8 + 1 || cx * 8 + dx
                        >= start.text().cursor_x * 8 + 7 || cy * 16 + dy < start.text().cursor_y
                        * 16 + 14 || cy * 16 + dy >= start.text().cursor_y * 16 + 16) || (cx
                        == start.text().cursor_x && cy == start.text().cursor_y));
                }
            }
        }
    }

    /// Clears every visible cell, homes the cursor and redraws.
    pub fn clean(&mut self)
        requires
            old(self).wf(),
        ensures
            final(self).wf(),
            old(self).same_console(final(self)),
            final(self).text().cursor_x == 0,
            final(self).text().cursor_y == 0,
            forall|j: int|
                0 <= j < old(self).spec_width() * old(self).spec_height() ==> final(self).text().cells[j] == 0u8,
            forall|j: int|
                old(self).spec_width() * old(self).spec_height() <= j < buff_cells()
                    ==> #[trigger] final(self).text().cells[j] == old(self).text().cells[j],
            forall|cx: int, cy: int, dx: int, dy: int|
                0 <= cx < old(self).spec_width() && 0 <= cy < old(self).spec_height() && 0 <= dx
                    < 8 && 0 <= dy < 16 ==> #[trigger] final(self).spec_frame_buffer().spec_pixel(
                    cx * 8 + dx,
                    cy * 16 + dy,
                ) == spec_rendered_pixel(final(self), cx, cy, dx, dy),
    {
        proof {
            assert(0 <= self.spec_width() * self.spec_height() <= 256 * 128) by (nonlinear_arith)
                requires
                    1 <= self.spec_width() <= 256,
                    1 <= self.spec_height() <= 128;
        }
        let end = self.width * self.height;
        let ghost start = *self;
        let mut i: usize = 0;
        while i < end
            invariant
                i <= end,
                end <= self.text().cells.len(),
                self.text().cells.len() == start.text().cells.len(),
                self.spec_width() == start.spec_width(),
                self.spec_height() == start.spec_height(),
                self.spec_font() == start.spec_font(),
                self.spec_frame_buffer() == start.spec_frame_buffer(),
                self.text().cursor_x == start.text().cursor_x,
                self.text().cursor_y == start.text().cursor_y,
                forall|j: int| 0 <= j < i ==> self.text().cells[j] == 0u8,
                forall|j: int|
                    i <= j < self.text().cells.len() ==> self.text().cells[j]
                        == start.text().cells[j],
            decreases end - i,
        {
            self.buffer.set(i, 0u8);
            i = i + 1;
        }
        self.cursor_x = 0;
        self.cursor_y = 0;

        self.flush();
    }

    /// Writes one byte at the cursor and redraws what it touched.
    pub fn write_ascii(&mut self, ascii: u8)
        requires
            old(self).wf(),
        ensures
            final(self).wf(),
            old(self).same_console(final(self)),
            final(self).text() == spec_put(
                old(self).text(),
                old(self).spec_width(),
                old(self).spec_height(),
                ascii,
            ),
    {
        self.clean_cursor();

        if ascii == 10 {
            self.new_line();
        } else if ascii == 13 {
            self.cursor_x = 0;
        } else {
            proof {
                lemma_cell_index(
                    self.text().cursor_x,
                    self.text().cursor_y,
                    self.spec_width(),
                    self.spec_height(),
                );
            }
            let idx = self.cursor_x + self.cursor_y * self.width;
            self.buffer.set(idx, ascii);
            let glyph = self.font.get(ascii);
            let fg = Self::foreground();
            let bg = Self::background();
            proof {
                lemma_cell_region(
                    self.text().cursor_x,
                    self.text().cursor_y,
                    self.spec_width(),
                    self.spec_height(),
                    self.spec_frame_buffer().spec_width() as int,
                    self.spec_frame_buffer().spec_height() as int,
                );
            }
            let cx = self.cursor_x * 8;
            let cy = self.cursor_y * 16;
            self.frame_buffer.draw_font(&glyph, cx, cy, fg, bg);
            self.seek_cursor();
        }

        self.draw_cursor();
    }

    /// Writes a string's bytes, front to back.
    pub fn write(&mut self, s: &str)
        requires
            old(self).wf(),
        ensures
            final(self).wf(),
            old(self).same_console(final(self)),
            final(self).text() == spec_put_seq(
                old(self).text(),
                old(self).spec_width(),
                old(self).spec_height(),
                s.spec_bytes(),
            ),
    {
        let bytes = s.as_bytes();
        let n = bytes.len();
        let ghost start = *self;
        proof {
            assert(s.spec_bytes().skip(0) =~= s.spec_bytes());
        }
        let mut i: usize = 0;
        while i < n
            invariant
                self.wf(),
                start.same_console(self),
                i <= n,
                n == s.spec_bytes().len(),
                bytes@ == s.spec_bytes(),
                spec_put_seq(
                    self.text(),
                    start.spec_width(),
                    start.spec_height(),
                    s.spec_bytes().skip(i as int),
                ) == spec_put_seq(
                    start.text(),
                    start.spec_width(),
                    start.spec_height(),
                    s.spec_bytes(),
                ),
            decreases n - i,
        {
            let b = *vstd::slice::slice_index_get(bytes, i);
            self.write_ascii(b);
            proof {
                assert(s.spec_bytes().skip(i as int).skip(1) =~= s.spec_bytes().skip(i + 1));
                assert(s.spec_bytes().skip(i as int)[0] == s.spec_bytes()[i as int]);
            }
            i = i + 1;
        }
        proof {
            assert(s.spec_bytes().skip(n as int) =~= Seq::<u8>::empty());
        }
    }
}

/// A cell's pixel region lies inside the frame buffer's visible area.
proof fn lemma_cell_region(x: int, y: int, w: int, h: int, fbw: int, fbh: int)
    requires
        0 <= x < w,
        0 <= y < h,
        w == fbw / 8,
        h == fbh / 16,
        0 <= fbw,
        0 <= fbh,
    ensures
        x * 8 + 8 <= fbw,
        y * 16 + 16 <= fbh,
        x * 8 + 8 <= w * 8,
        y * 16 + 16 <= h * 16,
{
    vstd::arithmetic::div_mod::lemma_fundamental_div_mod(fbw, 8);
    vstd::arithmetic::div_mod::lemma_fundamental_div_mod(fbh, 16);
    assert(x * 8 + 8 <= w * 8 && w * 8 <= fbw) by (nonlinear_arith)
        requires
            0 <= x < w,
            fbw == w * 8 + fbw % 8,
            0 <= fbw % 8 < 8;
    assert(y * 16 + 16 <= h * 16 && h * 16 <= fbh) by (nonlinear_arith)
        requires
            0 <= y < h,
            fbh == h * 16 + fbh % 16,
            0 <= fbh % 16 < 16;
}

} // verus!
