use bootcore::font::BitmapFont;
use bootcore::font::BitmapFontTable;
use bootcore::gfx::Color;
use bootcore::gfx::FrameBuffer;
use bootcore::gfx::FrameBufferMode;
use bootcore::terminal::Terminal;

/// A table whose printable glyphs are a full block and whose first entry
/// is blank.
fn block_table() -> BitmapFontTable {
    let mut glyphs = Vec::new();
    glyphs.push(BitmapFont::new([0u8; 16]));
    for _ in 1..128 {
        glyphs.push(BitmapFont::new([0xFFu8; 16]));
    }
    BitmapFontTable::new(glyphs)
}

/// A console of 4 by 2 cells.
fn small_terminal() -> Terminal {
    let fb = FrameBuffer::new(FrameBufferMode::RGB, 32, 32, 32);
    Terminal::new(fb, block_table())
}

#[test]
fn new_terminal_sizes_its_grid() {
    let t = small_terminal();
    assert_eq!(t.text_width(), 4);
    assert_eq!(t.text_height(), 2);
    assert_eq!(t.cursor(), (0, 0));
    assert_eq!(t.cell(0, 0), 0);
    assert_eq!(t.cell(3, 1), 0);
}

#[test]
fn write_ascii_fills_the_cursor_cell() {
    let mut t = small_terminal();
    t.write_ascii(b'A');
    assert_eq!(t.cell(0, 0), b'A');
    assert_eq!(t.cursor(), (1, 0));
    t.write_ascii(b'B');
    assert_eq!(t.cell(1, 0), b'B');
    assert_eq!(t.cursor(), (2, 0));
}

#[test]
fn line_feed_and_carriage_return_move_the_cursor() {
    let mut t = small_terminal();
    t.write_ascii(b'A');
    t.write_ascii(b'\n');
    assert_eq!(t.cursor(), (0, 1));
    t.write_ascii(b'C');
    assert_eq!(t.cursor(), (1, 1));
    t.write_ascii(b'\r');
    assert_eq!(t.cursor(), (0, 1));
    assert_eq!(t.cell(0, 1), b'C');
}

#[test]
fn the_cursor_wraps_at_the_right_edge() {
    let mut t = small_terminal();
    t.write("abcd");
    assert_eq!(t.cursor(), (0, 1));
    assert_eq!(t.cell(3, 0), b'd');
}

#[test]
fn writing_past_the_last_row_scrolls() {
    let mut t = small_terminal();
    t.write("abcdWXYZ");
    // Both rows are full and the cursor wrapped off the last row, so the
    // first row scrolled away.
    assert_eq!(t.cursor(), (0, 1));
    assert_eq!(t.cell(0, 0), b'W');
    assert_eq!(t.cell(3, 0), b'Z');
    assert_eq!(t.cell(0, 1), 0);
}

#[test]
fn clean_clears_cells_and_homes_the_cursor() {
    let mut t = small_terminal();
    t.write("hi");
    t.clean();
    assert_eq!(t.cursor(), (0, 0));
    for y in 0..2 {
        for x in 0..4 {
            assert_eq!(t.cell(x, y), 0);
        }
    }
}

#[test]
fn flush_renders_cells_and_cursor() {
    let mut t = small_terminal();
    t.write_ascii(b'A');
    t.flush();
    let fg = Terminal::foreground().as_raw(FrameBufferMode::RGB);
    let bg = Terminal::background().as_raw(FrameBufferMode::RGB);
    let cur = Terminal::cursor_color().as_raw(FrameBufferMode::RGB);
    // Cell (0, 0) holds 'A', drawn as a full block.
    assert_eq!(t.pixel(0, 0), fg);
    assert_eq!(t.pixel(7, 15), fg);
    // Cell (2, 0) is empty: background.
    assert_eq!(t.pixel(16, 0), bg);
    // The cursor sits on cell (1, 0): its bar overlays rows 14 and 15.
    assert_eq!(t.pixel(8 + 1, 14), cur);
    assert_eq!(t.pixel(8 + 6, 15), cur);
    assert_eq!(t.pixel(8, 14), bg);
}

#[test]
fn colors_match_the_palette() {
    assert_eq!(Terminal::background(), Color::new(0x0D, 0x1B, 0x2A));
    assert_eq!(Terminal::foreground(), Color::new(0xE0, 0xFB, 0xFC));
    assert_eq!(Terminal::cursor_color(), Color::new(0x00, 0xFF, 0xFF));
}
