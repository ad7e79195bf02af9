use vstd::prelude::*;

verus! {

/// An 8 by 16 pixel glyph: one byte per pixel row, the high bit of a row
/// is its leftmost column.
#[derive(Clone, Copy, Debug)]
pub struct BitmapFont {
    bitmap: [u8; 16],
}

impl BitmapFont {
    /// The glyph's rows, top to bottom.
    pub closed spec fn rows(&self) -> Seq<u8> {
        self.bitmap@
    }

    /// Whether the glyph pixel at column `x` of row `y` is set; positions
    /// outside the glyph are off.
    pub open spec fn spec_is_on(&self, x: int, y: int) -> bool {
        &&& 0 <= x < 8
        &&& 0 <= y < 16
        &&& self.rows()[y] & (0x80u8 >> (x as u8)) != 0
    }

    /// Wraps sixteen rows of pixels as a glyph.
    pub fn new(bitmap: [u8; 16]) -> (r: Self)
        ensures
            r.rows() == bitmap@,
    {
        Self { bitmap }
    }

    /// Whether the pixel at `(x, y)` is set.
    pub fn is_on(&self, x: usize, y: usize) -> (r: bool)
        ensures
            r == self.spec_is_on(x as int, y as int),
    {
        if 8 <= x || 16 <= y {
            false
        } else {
            self.bitmap[y] & (0x80u8 >> x) != 0
        }
    }

    /// Whether the pixel at `(x, y)` is clear.
    pub fn is_off(&self, x: usize, y: usize) -> (r: bool)
        ensures
            r == !self.spec_is_on(x as int, y as int),
    {
        !self.is_on(x, y)
    }
}

/// A glyph table over the 7-bit code range, supplied by the embedder: the
/// glyph bitmaps are data, not logic, so they are injected rather than
/// built in. A code outside the table falls back to its first entry.
#[derive(Debug)]
pub struct BitmapFontTable {
    glyphs: Vec<BitmapFont>,
}

impl BitmapFontTable {
    /// How many code points the table covers.
    pub const GLYPH_COUNT: usize = 128;

    /// The table's glyphs, by code point.
    pub closed spec fn spec_glyphs(&self) -> Seq<BitmapFont> {
        self.glyphs@
    }

    /// The table covers the whole 7-bit range.
    pub open spec fn wf(&self) -> bool {
        self.spec_glyphs().len() == BitmapFontTable::GLYPH_COUNT
    }

    /// The glyph a code point renders as, with the fallback applied.
    pub open spec fn spec_glyph_of(&self, ascii: u8) -> BitmapFont {
        if ascii < BitmapFontTable::GLYPH_COUNT {
            self.spec_glyphs()[ascii as int]
        } else {
            self.spec_glyphs()[0]
        }
    }

    /// Wraps one glyph per code point of the 7-bit range.
    pub fn new(glyphs: Vec<BitmapFont>) -> (r: Self)
        requires
            glyphs@.len() == BitmapFontTable::GLYPH_COUNT,
        ensures
            r.wf(),
            r.spec_glyphs() == glyphs@,
    {
        Self { glyphs }
    }

    /// The glyph for `ascii`; a code beyond the table falls back to the
    /// first entry.
    pub fn get(&self, ascii: u8) -> (r: BitmapFont)
        requires
            self.wf(),
        ensures
            r == self.spec_glyph_of(ascii),
    {
        let mut index = ascii as usize;
        if self.glyphs.len() <= index {
            index = 0;
        }
        self.glyphs[index]
    }
}

} // verus!
