use crate::font::BitmapFont;
use crate::font::BitmapFontTable;
use vstd::prelude::*;
use vstd::string::StringSliceAdditionalSpecFns;

verus! {

/// The pixel layout of the frame buffer.
#[derive(Clone, Copy, Debug, PartialEq, Eq, Structural)]
pub enum FrameBufferMode {
    RGB,
    BGR,
    Unknown,
}

/// A colour, by its three channels.
#[derive(Clone, Copy, Debug, PartialEq, Eq, Structural)]
pub struct Color {
    pub red: u8,
    pub green: u8,
    pub blue: u8,
}

impl Color {
    /// The red channel.
    pub open spec fn spec_red(&self) -> u8 {
        self.red
    }

    /// The green channel.
    pub open spec fn spec_green(&self) -> u8 {
        self.green
    }

    /// The blue channel.
    pub open spec fn spec_blue(&self) -> u8 {
        self.blue
    }

    /// The colour packed with red in the low byte.
    pub open spec fn spec_as_rgb(&self) -> u32 {
        self.spec_red() as u32 | (self.spec_green() as u32) << 8 | (self.spec_blue() as u32) << 16
    }

    /// The colour packed with blue in the low byte.
    pub open spec fn spec_as_bgr(&self) -> u32 {
        self.spec_blue() as u32 | (self.spec_green() as u32) << 8 | (self.spec_red() as u32) << 16
    }

    /// The colour packed for a frame buffer of the given mode; an unknown
    /// mode packs to zero.
    pub open spec fn spec_as_raw(&self, mode: FrameBufferMode) -> u32 {
        match mode {
            FrameBufferMode::RGB => self.spec_as_rgb(),
            FrameBufferMode::BGR => self.spec_as_bgr(),
            FrameBufferMode::Unknown => 0,
        }
    }

    pub fn new(red: u8, green: u8, blue: u8) -> (r: Self)
        ensures
            r.spec_red() == red,
            r.spec_green() == green,
            r.spec_blue() == blue,
    {
        Self { red, green, blue }
    }

    pub fn as_rgb(&self) -> (r: u32)
        ensures
            r == self.spec_as_rgb(),
    {
        let red = self.red as u32;
        let green = self.green as u32;
        let blue = self.blue as u32;
        red | (green << 8) | (blue << 16)
    }

    pub fn as_bgr(&self) -> (r: u32)
        ensures
            r == self.spec_as_bgr(),
    {
        let blue = self.blue as u32;
        let green = self.green as u32;
        let red = self.red as u32;
        blue | (green << 8) | (red << 16)
    }

    pub fn as_raw(&self, mode: FrameBufferMode) -> (r: u32)
        ensures
            r == self.spec_as_raw(mode),
    {
        match mode {
            FrameBufferMode::RGB => self.as_rgb(),
            FrameBufferMode::BGR => self.as_bgr(),
            FrameBufferMode::Unknown => 0,
        }
    }
}

/// The pixel at `(x, y)` of a pixel store with `scan` pixels per scanline.
pub open spec fn pix(v: Seq<u32>, scan: int, x: int, y: int) -> u32 {
    v[y * scan + x]
}

/// `(x, y)` indexes inside a store of `scan` pixels per line and `h` lines.
pub proof fn lemma_pixel_index(x: int, y: int, scan: int, h: int)
    requires
        0 <= x < scan,
        0 <= y < h,
    ensures
        0 <= y * scan + x < scan * h,
        scan * y + x == y * scan + x,
{
    assert(0 <= y * scan + x < scan * h && scan * y == y * scan) by (nonlinear_arith)
        requires
            0 <= x < scan,
            0 <= y < h;
}

/// A frame buffer that owns its pixel store: `y_pixels` scanlines of
/// `scanline_pixels` pixels each, of which the leftmost `x_pixels` are
/// visible.
#[derive(Debug)]
pub struct FrameBuffer {
    mode: FrameBufferMode,
    pixels: Vec<u32>,
    x_pixels: usize,
    y_pixels: usize,
    scanline_pixels: usize,
}

impl View for FrameBuffer {
    type V = Seq<u32>;

    closed spec fn view(&self) -> Seq<u32> {
        self.pixels@
    }
}

impl FrameBuffer {
    /// The pixel layout.
    pub closed spec fn spec_mode(&self) -> FrameBufferMode {
        self.mode
    }

    /// The visible width, in pixels.
    pub closed spec fn spec_width(&self) -> nat {
        self.x_pixels as nat
    }

    /// The height, in scanlines.
    pub closed spec fn spec_height(&self) -> nat {
        self.y_pixels as nat
    }

    /// The full scanline stride, in pixels.
    pub closed spec fn spec_scanline(&self) -> nat {
        self.scanline_pixels as nat
    }

    /// The store covers every scanline in full.
    pub open spec fn wf(&self) -> bool {
        &&& self.spec_width() <= self.spec_scanline()
        &&& self@.len() == self.spec_scanline() * self.spec_height()
    }

    /// The pixel at `(x, y)`.
    pub open spec fn spec_pixel(&self, x: int, y: int) -> u32 {
        pix(self@, self.spec_scanline() as int, x, y)
    }

    /// The geometry `other` has the same mode, dimensions and stride.
    pub open spec fn same_shape(&self, other: &FrameBuffer) -> bool {
        &&& self.spec_mode() == other.spec_mode()
        &&& self.spec_width() == other.spec_width()
        &&& self.spec_height() == other.spec_height()
        &&& self.spec_scanline() == other.spec_scanline()
        &&& self@.len() == other@.len()
    }

    /// A frame buffer of the given geometry with every pixel dark.
    pub fn new(
        mode: FrameBufferMode,
        x_pixels: usize,
        y_pixels: usize,
        scanline_pixels: usize,
    ) -> (r: Self)
        requires
            x_pixels <= scanline_pixels,
            scanline_pixels * y_pixels <= usize::MAX,
        ensures
            r.wf(),
            r.spec_mode() == mode,
            r.spec_width() == x_pixels,
            r.spec_height() == y_pixels,
            r.spec_scanline() == scanline_pixels,
            r@ == Seq::new((scanline_pixels * y_pixels) as nat, |i: int| 0u32),
    {
        let total = scanline_pixels * y_pixels;
        let mut pixels: Vec<u32> = Vec::new();
        while pixels.len() < total
            invariant
                pixels@.len() <= total,
                forall|i: int| 0 <= i < pixels@.len() ==> pixels@[i] == 0u32,
            decreases total - pixels@.len(),
        {
            pixels.push(0u32);
        }
        proof {
            assert(pixels@ =~= Seq::new(total as nat, |i: int| 0u32));
        }
        Self { mode, pixels, x_pixels, y_pixels, scanline_pixels }
    }

    /// The visible width, in pixels.
    pub fn width(&self) -> (r: usize)
        ensures
            r == self.spec_width(),
    {
        self.x_pixels
    }

    /// The height, in scanlines.
    pub fn height(&self) -> (r: usize)
        ensures
            r == self.spec_height(),
    {
        self.y_pixels
    }

    /// The pixel at `(x, y)`.
    pub fn pixel(&self, x: usize, y: usize) -> (r: u32)
        requires
            self.wf(),
            x < self.spec_scanline(),
            y < self.spec_height(),
        ensures
            r == self.spec_pixel(x as int, y as int),
    {
        let n = self.pixels.len();
        proof {
            lemma_pixel_index(
                x as int,
                y as int,
                self.spec_scanline() as int,
                self.spec_height() as int,
            );
            assert(self.spec_scanline() * y + x < n);
        }
        self.pixels[self.scanline_pixels * y + x]
    }

    fn set_pixel(&mut self, x: usize, y: usize, v: u32)
        requires
            old(self).wf(),
            x < old(self).spec_scanline(),
            y < old(self).spec_height(),
        ensures
            final(self).wf(),
            old(self).same_shape(final(self)),
            final(self)@ == old(self)@.update(
                y * old(self).spec_scanline() + x,
                v,
            ),
    {
        let n = self.pixels.len();
        proof {
            lemma_pixel_index(
                x as int,
                y as int,
                self.spec_scanline() as int,
                self.spec_height() as int,
            );
            assert(self.spec_scanline() * y + x < n);
        }
        let i = self.scanline_pixels * y + x;
        self.pixels.set(i, v);
    }

    /// Fills the part of the rectangle at `(x, y)` of size
    /// `width` by `height` that lies inside the visible area with `color`.
    /// A start beyond the visible area draws nothing; a frame buffer of
    /// unknown mode is left untouched.
    pub fn draw_rect(
        &mut self,
        x: usize,
        y: usize,
        width: usize,
        height: usize,
        color: Color,
    )
        requires
            old(self).wf(),
        ensures
            final(self).wf(),
            old(self).same_shape(final(self)),
            final(self).spec_mode() == FrameBufferMode::Unknown ==> final(self)@ == old(self)@,
            final(self).spec_mode() != FrameBufferMode::Unknown ==> {
                let cx = if old(self).spec_width() <= x {
                    0int
                } else {
                    x as int
                };
                let cw = if old(self).spec_width() <= x {
                    0int
                } else if old(self).spec_width() <= x + width {
                    old(self).spec_width() - x
                } else {
                    width as int
                };
                let cy = if old(self).spec_height() <= y {
                    0int
                } else {
                    y as int
                };
                let ch = if old(self).spec_height() <= y {
                    0int
                } else if old(self).spec_height() <= y + height {
                    old(self).spec_height() - y
                } else {
                    height as int
                };
                forall|px: int, py: int|
                    0 <= px < old(self).spec_scanline() && 0 <= py < old(self).spec_height()
                        ==> #[trigger] final(self).spec_pixel(px, py) == if cx <= px < cx + cw && cy
                        <= py < cy + ch {
                        color.spec_as_raw(old(self).spec_mode())
                    } else {
                        old(self).spec_pixel(px, py)
                    }
            },
    {
        let mut x = x;
        let mut y = y;
        let mut width = width;
        let mut height = height;
        if self.mode == FrameBufferMode::RGB || self.mode == FrameBufferMode::BGR {
            if self.x_pixels <= x {
                x = 0;
                width = 0;
            }
            if self.y_pixels <= y {
                y = 0;
                height = 0;
            }
            if width > self.x_pixels - x {
                width = self.x_pixels - x;
            }
            if height > self.y_pixels - y {
                height = self.y_pixels - y;
            }

            let color_raw = color.as_raw(self.mode);
            let ghost start = *self;
            let mut i = y;
            while i < y + height
                invariant
                    self.wf(),
                    start.same_shape(self),
                    y <= i <= y + height,
                    x + width <= self.spec_width(),
                    y + height <= self.spec_height(),
                    self.spec_mode() == start.spec_mode(),
                    color_raw == color.spec_as_raw(start.spec_mode()),
                    forall|px: int, py: int|
                        0 <= px < self.spec_scanline() && 0 <= py < self.spec_height()
                            ==> #[trigger] self.spec_pixel(px, py) == if x <= px < x + width && y
                            <= py < i {
                            color_raw
                        } else {
                            start.spec_pixel(px, py)
                        },
                decreases y + height - i,
            {
                let mut k = x;
                while k < x + width
                    invariant
                        self.wf(),
                        start.same_shape(self),
                        y <= i < y + height,
                        x <= k <= x + width,
                        x + width <= self.spec_width(),
                        y + height <= self.spec_height(),
                        forall|px: int, py: int|
                            0 <= px < self.spec_scanline() && 0 <= py < self.spec_height()
                                ==> #[trigger] self.spec_pixel(px, py) == if (x <= px < x + width
                                && y <= py < i) || (x <= px < k && py == i) {
                                color_raw
                            } else {
                                start.spec_pixel(px, py)
                            },
                    decreases x + width - k,
                {
                    let ghost mid = *self;
                    self.set_pixel(k, i, color_raw);
                    proof {
                        let scan = start.spec_scanline() as int;
                        let h = start.spec_height() as int;
                        lemma_pixel_index(k as int, i as int, scan, h);
                        assert forall|px: int, py: int|
                            0 <= px < self.spec_scanline() && 0 <= py < self.spec_height()
                                implies #[trigger] self.spec_pixel(px, py) == if (x <= px < x
                            + width && y <= py < i) || (x <= px < k + 1 && py == i) {
                            color_raw
                        } else {
                            start.spec_pixel(px, py)
                        } by {
                            lemma_pixel_index(px, py, scan, h);
                            assert(mid.spec_pixel(px, py) == (if (x <= px < x + width && y <= py
                                < i) || (x <= px < k && py == i) {
                                color_raw
                            } else {
                                start.spec_pixel(px, py)
                            }));
                            assert(py * scan + px == i * scan + k ==> py == i && px == k)
                                by (nonlinear_arith)
                                requires
                                    0 <= px < scan,
                                    0 <= k < scan,
                                    0 <= py,
                                    0 <= i;
                        }
                    }
                    k = k + 1;
                }
                i = i + 1;
            }
        }
    }

    /// Draws a glyph with its top-left corner at `(x, y)`: set glyph
    /// pixels get `color`, clear ones `background`, clipped to the visible
    /// area. A corner outside the visible area draws nothing.
    pub fn draw_font(
        &mut self,
        font: &BitmapFont,
        x: usize,
        y: usize,
        color: Color,
        background: Color,
    )
        requires
            old(self).wf(),
        ensures
            final(self).wf(),
            old(self).same_shape(final(self)),
            !(x < old(self).spec_width() && y < old(self).spec_height()) ==> final(self)@ == old(
                self,
            )@,
            x < old(self).spec_width() && y < old(self).spec_height() ==> {
                let gw = if 8 <= old(self).spec_width() - x {
                    8int
                } else {
                    old(self).spec_width() - x
                };
                let gh = if 16 <= old(self).spec_height() - y {
                    16int
                } else {
                    old(self).spec_height() - y
                };
                forall|px: int, py: int|
                    0 <= px < old(self).spec_scanline() && 0 <= py < old(self).spec_height()
                        ==> #[trigger] final(self).spec_pixel(px, py) == if x <= px < x + gw && y
                        <= py < y + gh {
                        if font.spec_is_on(px - x, py - y) {
                            color.spec_as_raw(old(self).spec_mode())
                        } else {
                            background.spec_as_raw(old(self).spec_mode())
                        }
                    } else {
                        old(self).spec_pixel(px, py)
                    }
            },
    {
        if x < self.x_pixels && y < self.y_pixels {
            let width = if 8 <= self.x_pixels - x {
                8
            } else {
                self.x_pixels - x
            };
            let height = if 16 <= self.y_pixels - y {
                16
            } else {
                self.y_pixels - y
            };

            let color_raw = color.as_raw(self.mode);
            let background_raw = background.as_raw(self.mode);
            let ghost start = *self;

            let mut i: usize = 0;
            while i < height
                invariant
                    self.wf(),
                    start.same_shape(self),
                    i <= height,
                    x + width <= self.spec_width(),
                    y + height <= self.spec_height(),
                    width <= 8,
                    height <= 16,
                    color_raw == color.spec_as_raw(start.spec_mode()),
                    background_raw == background.spec_as_raw(start.spec_mode()),
                    forall|px: int, py: int|
                        0 <= px < self.spec_scanline() && 0 <= py < self.spec_height()
                            ==> #[trigger] self.spec_pixel(px, py) == if x <= px < x + width && y
                            <= py < y + i {
                            if font.spec_is_on(px - x, py - y) {
                                color_raw
                            } else {
                                background_raw
                            }
                        } else {
                            start.spec_pixel(px, py)
                        },
                decreases height - i,
            {
                let mut k: usize = 0;
                while k < width
                    invariant
                        self.wf(),
                        start.same_shape(self),
                        i < height,
                        k <= width,
                        x + width <= self.spec_width(),
                        y + height <= self.spec_height(),
                        width <= 8,
                        height <= 16,
                        color_raw == color.spec_as_raw(start.spec_mode()),
                        background_raw == background.spec_as_raw(start.spec_mode()),
                        forall|px: int, py: int|
                            0 <= px < self.spec_scanline() && 0 <= py < self.spec_height()
                                ==> #[trigger] self.spec_pixel(px, py) == if (x <= px < x + width
                                && y <= py < y + i) || (x <= px < x + k && py == y + i) {
                                if font.spec_is_on(px - x, py - y) {
                                    color_raw
                                } else {
                                    background_raw
                                }
                            } else {
                                start.spec_pixel(px, py)
                            },
                    decreases width - k,
                {
                    let v = if font.is_on(k, i) {
                        color_raw
                    } else {
                        background_raw
                    };
                    let ghost mid = *self;
                    self.set_pixel(x + k, y + i, v);
                    proof {
                        let scan = start.spec_scanline() as int;
                        let h = start.spec_height() as int;
                        lemma_pixel_index((x + k) as int, (y + i) as int, scan, h);
                        assert forall|px: int, py: int|
                            0 <= px < self.spec_scanline() && 0 <= py < self.spec_height()
                                implies #[trigger] self.spec_pixel(px, py) == if (x <= px < x
                            + width && y <= py < y + i) || (x <= px < x + k + 1 && py == y + i) {
                            if font.spec_is_on(px - x, py - y) {
                                color_raw
                            } else {
                                background_raw
                            }
                        } else {
                            start.spec_pixel(px, py)
                        } by {
                            lemma_pixel_index(px, py, scan, h);
                            assert(mid.spec_pixel(px, py) == (if (x <= px < x + width && y <= py
                                < y + i) || (x <= px < x + k && py == y + i) {
                                if font.spec_is_on(px - x, py - y) {
                                    color_raw
                                } else {
                                    background_raw
                                }
                            } else {
                                start.spec_pixel(px, py)
                            }));
                            assert(py * scan + px == (y + i) * scan + (x + k) ==> py == y + i && px
                                == x + k) by (nonlinear_arith)
                                requires
                                    0 <= px < scan,
                                    0 <= x + k < scan,
                                    0 <= py,
                                    0 <= y + i;
                        }
                    }
                    k = k + 1;
                }
                i = i + 1;
            }
        }
    }

    /// Draws a string of glyph codes left to right from `(x, y)`, eight
    /// pixels per glyph, using the embedder's glyph table. Glyphs that
    /// fall outside the visible area are clipped away.
    pub fn draw_str(
        &mut self,
        table: &BitmapFontTable,
        s: &str,
        x: usize,
        y: usize,
        color: Color,
        background: Color,
    )
        requires
            old(self).wf(),
            table.wf(),
            x + 8 * s.spec_bytes().len() <= usize::MAX,
        ensures
            final(self).wf(),
            old(self).same_shape(final(self)),
            y < old(self).spec_height() ==> {
                let gh = if 16 <= old(self).spec_height() - y {
                    16int
                } else {
                    old(self).spec_height() - y
                };
                &&& forall|c: int, dx: int, py: int|
                    0 <= c < s.spec_bytes().len() && 0 <= dx < 8 && x + 8 * c + dx < old(self).spec_width()
                        && y <= py < y + gh ==> #[trigger] final(self).spec_pixel(
                        x + 8 * c + dx,
                        py,
                    ) == if table.spec_glyph_of(s.spec_bytes()[c]).spec_is_on(dx, py - y) {
                        color.spec_as_raw(old(self).spec_mode())
                    } else {
                        background.spec_as_raw(old(self).spec_mode())
                    }
                &&& forall|px: int, py: int|
                    0 <= px < old(self).spec_scanline() && 0 <= py < old(self).spec_height() && !(x
                        <= px < x + 8 * s.spec_bytes().len() && px < old(self).spec_width() && y <= py < y
                        + gh) ==> #[trigger] final(self).spec_pixel(px, py) == old(
                        self,
                    ).spec_pixel(px, py)
            },
            y >= old(self).spec_height() ==> final(self)@ == old(self)@,
    {
        let ghost start = *self;
        let bytes = s.as_bytes();
        let mut cursor_x = x;
        let n = bytes.len();
        let mut c: usize = 0;
        while c < n
            invariant
                self.wf(),
                start.same_shape(self),
                table.wf(),
                c <= n,
                n == s.spec_bytes().len(),
                bytes@ == s.spec_bytes(),
                x + 8 * n <= usize::MAX,
                cursor_x == x + 8 * c,
                ({
                    let gh = if 16 <= start.spec_height() - y {
                        16int
                    } else {
                        start.spec_height() - y
                    };
                    y < start.spec_height() ==> {
                        &&& forall|ci: int, dx: int, py: int|
                            0 <= ci < c && 0 <= dx < 8 && x + 8 * ci + dx < start.spec_width() && y
                                <= py < y + gh ==> #[trigger] self.spec_pixel(x + 8 * ci + dx, py)
                                == if table.spec_glyph_of(s.spec_bytes()[ci]).spec_is_on(dx, py - y) {
                                color.spec_as_raw(start.spec_mode())
                            } else {
                                background.spec_as_raw(start.spec_mode())
                            }
                        &&& forall|px: int, py: int|
                            0 <= px < start.spec_scanline() && 0 <= py < start.spec_height() && !(x
                                <= px < x + 8 * c && px < start.spec_width() && y <= py < y + gh)
                                ==> #[trigger] self.spec_pixel(px, py) == start.spec_pixel(px, py)
                    }
                }),
                y >= start.spec_height() ==> self@ == start@,
            decreases n - c,
        {
            let ghost mid = *self;
            let code = *vstd::slice::slice_index_get(bytes, c);
            let glyph = table.get(code);
            self.draw_font(&glyph, cursor_x, y, color, background);
            proof {
                let scanl0 = start.spec_scanline() as int;
                let w0 = start.spec_width() as int;
                let hh0 = start.spec_height() as int;
                let gh0 = if 16 <= hh0 - y { 16int } else { hh0 - y };
                if cursor_x < w0 && y < hh0 {
                    let gw0 = if 8 <= w0 - cursor_x { 8int } else { w0 - cursor_x };
                    assert(forall|px: int, py: int| 0 <= px < scanl0 && 0 <= py < hh0
                        ==> #[trigger] self.spec_pixel(px, py) == if cursor_x <= px < cursor_x
                        + gw0 && y <= py < y + gh0 {
                        if glyph.spec_is_on(px - cursor_x, py - y) {
                            color.spec_as_raw(start.spec_mode())
                        } else {
                            background.spec_as_raw(start.spec_mode())
                        }
                    } else {
                        mid.spec_pixel(px, py)
                    });
                } else {
                    assert(self@ == mid@);
                }
            }
            proof {
                let scanl = start.spec_scanline() as int;
                let w = start.spec_width() as int;
                let hh = start.spec_height() as int;
                let gh = if 16 <= hh - y {
                    16int
                } else {
                    hh - y
                };
                if y < hh {
                    assert forall|ci: int, dx: int, py: int|
                        0 <= ci < c + 1 && 0 <= dx < 8 && x + 8 * ci + dx < w && y <= py < y + gh
                        implies #[trigger] self.spec_pixel(x + 8 * ci + dx, py) == if table
                        .spec_glyph_of(s.spec_bytes()[ci]).spec_is_on(dx, py - y) {
                        color.spec_as_raw(start.spec_mode())
                    } else {
                        background.spec_as_raw(start.spec_mode())
                    } by {
                        let px = x + 8 * ci + dx;
                        assert(mid.spec_pixel(px, py) == mid.spec_pixel(px, py));
                        assert(self.spec_pixel(px, py) == self.spec_pixel(px, py));
                        if ci < c {
                            assert(px < x + 8 * c);
                            assert(mid.spec_pixel(px, py) == (if table.spec_glyph_of(
                                s.spec_bytes()[ci],
                            ).spec_is_on(dx, py - y) {
                                color.spec_as_raw(start.spec_mode())
                            } else {
                                background.spec_as_raw(start.spec_mode())
                            }));
                            assert(self.spec_pixel(px, py) == mid.spec_pixel(px, py));
                        } else {
                            assert(ci == c);
                            assert(px == cursor_x + dx);
                            assert(px < w ==> px < cursor_x + (if 8 <= w - cursor_x { 8int } else { w - cursor_x }));
                        }
                    }
                    assert forall|px: int, py: int|
                        0 <= px < scanl && 0 <= py < hh && !(x <= px < x + 8 * (c + 1) && px < w
                            && y <= py < y + gh) implies #[trigger] self.spec_pixel(px, py)
                        == start.spec_pixel(px, py) by {
                        assert(mid.spec_pixel(px, py) == start.spec_pixel(px, py));
                        assert(self.spec_pixel(px, py) == mid.spec_pixel(px, py));
                    }
                }
            }
            c = c + 1;
            cursor_x = cursor_x + 8;
        }
    }
}

} // verus!
