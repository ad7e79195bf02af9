use bootcore::font::BitmapFont;
use bootcore::font::BitmapFontTable;
use bootcore::gfx::Color;
use bootcore::gfx::FrameBuffer;
use bootcore::gfx::FrameBufferMode;

/// A table whose printable glyphs are a full block, and whose first entry
/// is blank, so that drawn pixels are easy to predict.
fn block_table() -> BitmapFontTable {
    let mut glyphs = Vec::new();
    glyphs.push(BitmapFont::new([0u8; 16]));
    for _ in 1..128 {
        glyphs.push(BitmapFont::new([0xFFu8; 16]));
    }
    BitmapFontTable::new(glyphs)
}

#[test]
fn color_packs_rgb() {
    let c = Color::new(0x11, 0x22, 0x33);
    assert_eq!(c.as_rgb(), 0x0033_2211);
    assert_eq!(c.as_bgr(), 0x0011_2233);
    assert_eq!(c.as_raw(FrameBufferMode::RGB), 0x0033_2211);
    assert_eq!(c.as_raw(FrameBufferMode::BGR), 0x0011_2233);
    assert_eq!(c.as_raw(FrameBufferMode::Unknown), 0);
}

#[test]
fn new_frame_buffer_is_dark() {
    let fb = FrameBuffer::new(FrameBufferMode::RGB, 16, 16, 20);
    assert_eq!(fb.width(), 16);
    assert_eq!(fb.height(), 16);
    assert_eq!(fb.pixel(0, 0), 0);
    assert_eq!(fb.pixel(19, 15), 0);
}

#[test]
fn draw_rect_fills_exactly_the_rectangle() {
    let mut fb = FrameBuffer::new(FrameBufferMode::RGB, 8, 8, 8);
    let c = Color::new(1, 0, 0);
    fb.draw_rect(2, 3, 3, 2, c);
    for y in 0..8 {
        for x in 0..8 {
            let expected = if (2..5).contains(&x) && (3..5).contains(&y) { 1 } else { 0 };
            assert_eq!(fb.pixel(x, y), expected, "pixel {} {}", x, y);
        }
    }
}

#[test]
fn draw_rect_clamps_to_the_visible_area() {
    let mut fb = FrameBuffer::new(FrameBufferMode::BGR, 4, 4, 4);
    let c = Color::new(0, 0, 9);
    fb.draw_rect(2, 2, 100, 100, c);
    assert_eq!(fb.pixel(3, 3), 9);
    assert_eq!(fb.pixel(1, 1), 0);
    // A start beyond the visible area draws nothing.
    fb.draw_rect(4, 0, 1, 1, c);
    fb.draw_rect(0, 4, 1, 1, c);
    for y in 0..4 {
        for x in 0..4 {
            let expected = if x >= 2 && y >= 2 { 9 } else { 0 };
            assert_eq!(fb.pixel(x, y), expected);
        }
    }
}

#[test]
fn unknown_mode_draws_no_rect() {
    let mut fb = FrameBuffer::new(FrameBufferMode::Unknown, 4, 4, 4);
    fb.draw_rect(0, 0, 4, 4, Color::new(1, 2, 3));
    assert_eq!(fb.pixel(0, 0), 0);
}

#[test]
fn bitmap_font_reads_its_rows() {
    let mut rows = [0u8; 16];
    rows[0] = 0b1000_0001;
    rows[15] = 0b0100_0000;
    let f = BitmapFont::new(rows);
    assert!(f.is_on(0, 0));
    assert!(f.is_off(1, 0));
    assert!(f.is_on(7, 0));
    assert!(f.is_on(1, 15));
    // Out-of-range positions are off.
    assert!(f.is_off(8, 0));
    assert!(f.is_off(0, 16));
}

#[test]
fn glyph_table_falls_back_to_its_first_entry() {
    let table = block_table();
    assert!(table.get(b'A').is_on(0, 0));
    assert!(table.get(200).is_off(0, 0));
}

#[test]
fn draw_font_paints_glyph_and_background() {
    let mut fb = FrameBuffer::new(FrameBufferMode::RGB, 16, 32, 16);
    let mut rows = [0u8; 16];
    rows[0] = 0b1000_0000;
    let glyph = BitmapFont::new(rows);
    let fg = Color::new(5, 0, 0);
    let bg = Color::new(7, 0, 0);
    fb.draw_font(&glyph, 4, 8, fg, bg);
    assert_eq!(fb.pixel(4, 8), 5); // the one set glyph pixel
    assert_eq!(fb.pixel(5, 8), 7); // glyph background
    assert_eq!(fb.pixel(4, 9), 7);
    assert_eq!(fb.pixel(11, 23), 7); // glyph corner
    assert_eq!(fb.pixel(12, 8), 0); // outside the glyph
    assert_eq!(fb.pixel(3, 8), 0);
}

#[test]
fn draw_font_outside_the_visible_area_is_a_no_op() {
    let mut fb = FrameBuffer::new(FrameBufferMode::RGB, 8, 16, 8);
    let glyph = BitmapFont::new([0xFF; 16]);
    fb.draw_font(&glyph, 8, 0, Color::new(1, 0, 0), Color::new(2, 0, 0));
    for y in 0..16 {
        for x in 0..8 {
            assert_eq!(fb.pixel(x, y), 0);
        }
    }
}

#[test]
fn draw_str_advances_eight_pixels_per_glyph() {
    let mut fb = FrameBuffer::new(FrameBufferMode::RGB, 24, 16, 24);
    let table = block_table();
    let fg = Color::new(3, 0, 0);
    let bg = Color::new(4, 0, 0);
    // Entry 0 is blank, so the middle glyph shows only background.
    fb.draw_str(&table, "A\u{0}B", 0, 0, fg, bg);
    assert_eq!(fb.pixel(0, 0), 3);
    assert_eq!(fb.pixel(7, 15), 3);
    assert_eq!(fb.pixel(8, 0), 4);
    assert_eq!(fb.pixel(15, 15), 4);
    assert_eq!(fb.pixel(16, 0), 3);
    assert_eq!(fb.pixel(23, 15), 3);
}
