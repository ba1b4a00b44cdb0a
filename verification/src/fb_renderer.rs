use crate::framebuffer::{in_part, pixel_index, Framebuffer};
use crate::utils::bytes::{le_u32, read_u32};
use vstd::prelude::*;

verus! {

/// The rows of the glyph that a font holds for a character code, each row a
/// sequence of pixels, `true` where the pixel is filled.
pub uninterp spec fn glyph_rows(font: Seq<u8>, c: u8) -> Option<Seq<Seq<bool>>>;

/// The size of a font's header, from its bytes.
pub open spec fn header_size(font: Seq<u8>) -> int {
    le_u32(font, 8)
}

/// The number of glyphs of a font.
pub open spec fn glyph_count(font: Seq<u8>) -> int {
    le_u32(font, 16)
}

/// The number of bytes of each glyph of a font.
pub open spec fn glyph_bytes(font: Seq<u8>) -> int {
    le_u32(font, 20)
}

/// The number of rows of each glyph of a font.
pub open spec fn glyph_height(font: Seq<u8>) -> int {
    le_u32(font, 24)
}

/// The number of columns of each glyph of a font.
pub open spec fn glyph_width(font: Seq<u8>) -> int {
    le_u32(font, 28)
}

/// The bytes are a version 2 PC screen font: they start with its magic
/// number and a header of 32 bytes, and hold the glyphs that the header
/// counts, behind the header, at sizes that fit 32 bits.
pub open spec fn font_valid(font: Seq<u8>) -> bool {
    &&& font.len() >= 32
    &&& font[0] == 0x72 && font[1] == 0xb5 && font[2] == 0x4a && font[3] == 0x86
    &&& glyph_bytes(font) * glyph_count(font) <= u32::MAX
    &&& header_size(font) + glyph_bytes(font) * glyph_count(font) <= u32::MAX
    &&& header_size(font) + glyph_bytes(font) * glyph_count(font) <= font.len()
}

/// A font that the console can draw with: fewer than 4 GiB that parse as a
/// font.
pub open spec fn font_usable(font: Seq<u8>) -> bool {
    font.len() <= u32::MAX && font_valid(font)
}

/// `psf2::Font::new` and `Font::width`: the number of columns of a glyph,
/// the 32-bit number at byte 28 of the header, of bytes that parse as a font;
/// `None` of any others. The bytes parse when they are at least 32, start
/// with the magic number, and the glyph table that the header describes
/// neither overflows 32 bits nor ends behind the bytes. Asked only of fewer
/// than 4 GiB, so that the entries of a table behind the glyphs are counted
/// within 32 bits.
#[verifier::external_body]
fn font_width(font: &[u8]) -> (r: Option<u32>)
    requires
        font@.len() <= u32::MAX,
    ensures
        r == if font_valid(font@) {
            Some(glyph_width(font@) as u32)
        } else {
            None
        },
{
    match psf2::Font::new(font) {
        Ok(f) => Some(f.width()),
        Err(_) => None,
    }
}

/// `psf2::Font::new` and `Font::height`: the number of rows of a glyph,
/// the 32-bit number at byte 24 of the header, of bytes that parse as a font;
/// `None` of any others. Asked only of fewer than 4 GiB.
#[verifier::external_body]
fn font_height(font: &[u8]) -> (r: Option<u32>)
    requires
        font@.len() <= u32::MAX,
    ensures
        r == if font_valid(font@) {
            Some(glyph_height(font@) as u32)
        } else {
            None
        },
{
    match psf2::Font::new(font) {
        Ok(f) => Some(f.height()),
        Err(_) => None,
    }
}

/// The rows as sequences.
pub open spec fn rows_of(glyph: &Vec<Vec<bool>>) -> Seq<Seq<bool>> {
    Seq::new(glyph@.len(), |r: int| glyph@[r]@)
}

/// `psf2::Font::new` and `Font::get_ascii`, its rows and their pixels
/// collected: the glyph of character code `c`. Asked only of a font that
/// parses, whose glyphs are at least one column wide (rows without columns
/// never end) and not so wide that rounding the width up to whole bytes
/// overflows, of fewer than 4 GiB, and for a code below the number of glyphs
/// (so that the glyph's place is computed within 32 bits). The contract only
/// gives the result its name: the same font and code always give the same
/// glyph.
#[verifier::external_body]
fn font_glyph(font: &[u8], c: u8) -> (r: Option<Vec<Vec<bool>>>)
    requires
        font@.len() <= u32::MAX,
        font_valid(font@),
        0 < glyph_width(font@) <= usize::MAX - 7,
        c < glyph_count(font@),
    ensures
        match r {
            Some(g) => glyph_rows(font@, c) == Some(rows_of(&g)),
            None => glyph_rows(font@, c) is None,
        },
{
    match psf2::Font::new(font) {
        Ok(f) => f.get_ascii(c).map(|g| g.map(|row| row.collect()).collect()),
        Err(_) => None,
    }
}

/// The pixel at which row `r` of a glyph drawn at column `x` of row `y`
/// starts.
pub open spec fn row_base(x: int, y: int, r: int, stride: int) -> int {
    pixel_index(x, y + r, stride)
}

/// The last of the first `upto` rows of a glyph drawn at column `x` of row
/// `y` that covers pixel `i`.
pub open spec fn covering_row(
    glyph: Seq<Seq<bool>>,
    i: int,
    x: int,
    y: int,
    stride: int,
    upto: int,
) -> Option<int>
    decreases upto,
{
    if upto <= 0 {
        None
    } else if row_base(x, y, upto - 1, stride) <= i < row_base(x, y, upto - 1, stride) + glyph[upto
        - 1].len() {
        Some(upto - 1)
    } else {
        covering_row(glyph, i, x, y, stride, upto - 1)
    }
}

/// The pixels after the first `upto` rows of a glyph have been drawn at
/// column `x` of row `y`: a pixel that a row of the glyph covers has the
/// colour where the glyph is filled and the background colour where it is
/// not, as the last such row says; every other pixel is as before.
pub open spec fn drawn(
    pixels: Seq<u32>,
    glyph: Seq<Seq<bool>>,
    x: int,
    y: int,
    stride: int,
    color: u32,
    bg: u32,
    upto: int,
) -> Seq<u32> {
    Seq::new(
        pixels.len(),
        |i: int|
            match covering_row(glyph, i, x, y, stride, upto) {
                Some(r) => if glyph[r][i - row_base(x, y, r, stride)] {
                    color
                } else {
                    bg
                },
                None => pixels[i],
            },
    )
}

/// Every row of the glyph, drawn at column `x` of row `y`, lies within the
/// `len` pixels of the buffer.
pub open spec fn glyph_fits(glyph: Seq<Seq<bool>>, x: int, y: int, stride: int, len: int) -> bool {
    &&& x <= usize::MAX
    &&& y + glyph.len() <= usize::MAX
    &&& forall|r: int|
        0 <= r < glyph.len() && (#[trigger] glyph[r]).len() > 0 ==> row_base(x, y, r, stride)
            + glyph[r].len() <= len
}

/// The colour that a parameter of a "select graphic rendition" sequence sets,
/// if it sets one.
pub open spec fn sgr_color(param: Seq<u16>) -> Option<u32> {
    if param == seq![0u16] {
        Some(0u32)
    } else if param == seq![31u16] {
        Some(0xFFAA0000u32)
    } else if param == seq![32u16] {
        Some(0xFF00AA00u32)
    } else if param == seq![33u16] {
        Some(0xFFFF9F06u32)
    } else if param == seq![34u16] {
        Some(0xFF0000AAu32)
    } else if param == seq![35u16] {
        Some(0xFFAA00AAu32)
    } else {
        None
    }
}

/// A parameter that the console knows: one that sets a colour, or bold or
/// 0x25, which it takes and ignores.
pub open spec fn sgr_known(param: Seq<u16>) -> bool {
    sgr_color(param) is Some || param == seq![1u16] || param == seq![0x25u16]
}

/// The colour after the first `upto` parameters have been applied, one after
/// the other, to `color`.
pub open spec fn color_after(color: u32, params: Seq<Vec<u16>>, upto: int) -> u32
    decreases upto,
{
    if upto <= 0 {
        color
    } else {
        match sgr_color(params[upto - 1]@) {
            Some(c) => c,
            None => color_after(color, params, upto - 1),
        }
    }
}

/// What a parameter of one number does: the colour it sets, or nothing; no
/// answer for a parameter that the console does not know.
pub fn sgr_param(param: &[u16]) -> (r: Option<Option<u32>>)
    ensures
        r is Some <==> sgr_known(param@),
        r matches Some(c) ==> c == sgr_color(param@),
{
    if param.len() != 1 {
        proof {
            assert(seq![0u16].len() == 1 && seq![31u16].len() == 1 && seq![32u16].len() == 1);
            assert(seq![33u16].len() == 1 && seq![34u16].len() == 1 && seq![35u16].len() == 1);
            assert(seq![1u16].len() == 1 && seq![0x25u16].len() == 1);
        }
        return None;
    }
    let p: u16 = param[0];
    proof {
        assert(param@ =~= seq![p]);
        assert(seq![0u16][0] == 0 && seq![31u16][0] == 31 && seq![32u16][0] == 32);
        assert(seq![33u16][0] == 33 && seq![34u16][0] == 34 && seq![35u16][0] == 35);
        assert(seq![1u16][0] == 1 && seq![0x25u16][0] == 0x25);
    }
    if p == 0 {
        Some(Some(0))
    } else if p == 0x1 || p == 0x25 {
        Some(None)
    } else if p == 31 {
        Some(Some(0xFFAA0000))
    } else if p == 32 {
        Some(Some(0xFF00AA00))
    } else if p == 33 {
        Some(Some(0xFFFF9F06))
    } else if p == 34 {
        Some(Some(0xFF0000AA))
    } else if p == 35 {
        Some(Some(0xFFAA00AA))
    } else {
        None
    }
}

/// The console: it draws the characters it is given into a window of the
/// frame buffer, one after the other, and starts over at the top when the
/// window is full.
pub struct Performer<'fb, 'font> {
    pub framebuffer: Framebuffer<'fb>,
    /// The font, as a version 2 PC screen font.
    pub font: &'font [u8],
    /// Where the next character goes, relative to the window.
    pub cursor_x: usize,
    pub cursor_y: usize,
    /// The window's upper left corner.
    pub offset: (usize, usize),
    /// The window's width and height.
    pub max: (usize, usize),
    /// The colour of the text.
    pub color: u32,
    /// The colour behind the text.
    pub bg: u32,
}

impl<'fb, 'font> Performer<'fb, 'font> {
    /// The window, with the margin of three pixels that is cleared with it,
    /// lies within the frame buffer.
    pub open spec fn window_fits(&self) -> bool {
        &&& self.max.0 + 3 <= usize::MAX
        &&& self.max.1 + 3 <= usize::MAX
        &&& self.offset.1 + self.max.1 + 2 <= usize::MAX
        &&& pixel_index(
            self.offset.0 + self.max.0 + 2,
            self.offset.1 + self.max.1 + 2,
            self.framebuffer.spec_stride(),
        ) < self.framebuffer.pixels().len()
    }

    /// The font parses, the cursor is inside the window or at its start, a
    /// step of the cursor cannot overflow, and the window fits the frame
    /// buffer.
    pub open spec fn wf(&self) -> bool {
        &&& font_usable(self.font@)
        &&& self.cursor_x == 0 || self.cursor_x < self.max.0
        &&& self.cursor_y == 0 || self.cursor_y < self.max.1
        &&& self.max.0 + glyph_width(self.font@) <= usize::MAX
        &&& self.max.1 + glyph_height(self.font@) <= usize::MAX
        &&& self.window_fits()
    }

    /// A console that draws with `font` into the window of `max.0` by `max.1`
    /// pixels at `offset` of `framebuffer`, in black on white, its cursor at
    /// the window's start. `None` where the bytes of `font` are 4 GiB or more
    /// or do not parse as a font.
    pub fn new(
        framebuffer: Framebuffer<'fb>,
        font: &'font [u8],
        offset: (usize, usize),
        max: (usize, usize),
    ) -> (r: Option<Performer<'fb, 'font>>)
        ensures
            r is Some <==> font_usable(font@),
            r matches Some(p) ==> {
                &&& p.framebuffer == framebuffer
                &&& p.font@ == font@
                &&& p.cursor_x == 0
                &&& p.cursor_y == 0
                &&& p.offset == offset
                &&& p.max == max
                &&& p.color == 0
                &&& p.bg == 0xFFFF_FFFF
            },
    {
        assert(!0u32 == 0xFFFF_FFFFu32) by (bit_vector);
        if font.len() > 0xFFFF_FFFF {
            return None;
        }
        match font_width(font) {
            Some(_) => Some(
                Performer {
                    framebuffer,
                    font,
                    cursor_x: 0,
                    cursor_y: 0,
                    offset,
                    max,
                    color: 0,
                    bg: !0u32,
                },
            ),
            None => None,
        }
    }

    /// Whether the console is well formed: what every drawing function asks
    /// for.
    pub fn valid(&self) -> (r: bool)
        ensures
            r == self.wf(),
    {
        if self.font.len() > 0xFFFF_FFFF {
            return false;
        }
        let width: usize = match font_width(self.font) {
            Some(w) => w as usize,
            None => {
                return false;
            },
        };
        let height: usize = match font_height(self.font) {
            Some(h) => h as usize,
            None => {
                return false;
            },
        };
        if !(self.cursor_x == 0 || self.cursor_x < self.max.0) {
            return false;
        }
        if !(self.cursor_y == 0 || self.cursor_y < self.max.1) {
            return false;
        }
        if self.max.0 > usize::MAX - width || self.max.1 > usize::MAX - height {
            return false;
        }
        if self.max.0 > usize::MAX - 3 || self.max.1 > usize::MAX - 3 {
            return false;
        }
        let len: usize = self.framebuffer.len();
        let stride: usize = self.framebuffer.stride();
        let x: usize = match self.offset.0.checked_add(self.max.0 + 2) {
            Some(x) => x,
            None => {
                return false;
            },
        };
        let y: usize = match self.offset.1.checked_add(self.max.1 + 2) {
            Some(y) => y,
            None => {
                return false;
            },
        };
        assert(y * stride >= 0) by (nonlinear_arith)
            requires
                y >= 0,
                stride >= 0,
        ;
        match y.checked_mul(stride) {
            Some(row) => match row.checked_add(x) {
                Some(i) => i < len,
                None => false,
            },
            None => false,
        }
    }
}

/// The code of a character in the font: its scalar value cut to the lowest
/// eight bits.
pub fn char_code(chr: char) -> (r: u8)
    ensures
        r == (chr as u32) % 256,
{
    ((chr as u32) % 256) as u8
}

/// The pixels with the console's window and its margin of three pixels set
/// to white.
pub open spec fn window_cleared(
    pixels: Seq<u32>,
    offset: (usize, usize),
    max: (usize, usize),
    stride: int,
) -> Seq<u32> {
    Seq::new(
        pixels.len(),
        |i: int|
            if in_part(i, offset.0 as int, offset.1 as int, max.0 + 3, max.1 + 3, stride) {
                0xFFFF_FFFFu32
            } else {
                pixels[i]
            },
    )
}

/// Where the cursor goes from column `cx`, row `cy`, after a character of
/// `w` by `h` pixels: to the right, to the start of the next line when the
/// window's width is reached, and to the window's start, which is then
/// cleared, when its height is reached.
pub open spec fn after_print(cx: int, cy: int, w: int, h: int, max: (usize, usize)) -> (
    int,
    int,
    bool,
) {
    let (x, y) = if cx + w >= max.0 {
        (0int, cy + h)
    } else {
        (cx + w, cy)
    };
    if y >= max.1 {
        (0int, 0int, true)
    } else {
        (x, y, false)
    }
}

/// Where the cursor goes from row `cy` at the end of a line: to the start of
/// the next line, or to the window's start, which is then cleared, when the
/// window's height is reached.
pub open spec fn after_newline(cy: int, h: int, max: (usize, usize)) -> (int, int, bool) {
    if cy + h >= max.1 {
        (0int, 0int, true)
    } else {
        (0int, cy + h, false)
    }
}

impl Performer<'_, '_> {
    /// The frame buffer but for its pixels, the font, the window and the
    /// colours are the same.
    pub open spec fn same_setup(&self, other: &Self) -> bool {
        &&& self.framebuffer.spec_width() == other.framebuffer.spec_width()
        &&& self.framebuffer.spec_stride() == other.framebuffer.spec_stride()
        &&& self.framebuffer.spec_height() == other.framebuffer.spec_height()
        &&& self.framebuffer.pixels().len() == other.framebuffer.pixels().len()
        &&& self.font@ == other.font@
        &&& self.offset == other.offset
        &&& self.max == other.max
        &&& self.color == other.color
        &&& self.bg == other.bg
    }

    /// The glyph of `chr` drawn at column `x` of row `y` of the window lies
    /// within the frame buffer.
    pub open spec fn glyph_in_buffer(&self, glyph: Seq<Seq<bool>>, x: usize, y: usize) -> bool {
        &&& x + self.offset.0 <= usize::MAX
        &&& y + self.offset.1 <= usize::MAX
        &&& glyph_fits(
            glyph,
            x + self.offset.0,
            y + self.offset.1,
            self.framebuffer.spec_stride(),
            self.framebuffer.pixels().len() as int,
        )
    }

    /// The font has a glyph for `chr`, and drawn at column `x` of row `y` of
    /// the window it lies within the frame buffer.
    pub open spec fn drawable(&self, chr: char, x: usize, y: usize) -> bool {
        let code = ((chr as u32) % 256) as u8;
        &&& 0 < glyph_width(self.font@) <= usize::MAX - 7
        &&& code < glyph_count(self.font@)
        &&& glyph_rows(self.font@, code) matches Some(g) && self.glyph_in_buffer(g, x, y)
    }

    /// The pixels after `glyph` has been drawn at column `x` of row `y` of
    /// the window.
    pub open spec fn with_glyph(&self, glyph: Seq<Seq<bool>>, x: usize, y: usize) -> Seq<u32> {
        drawn(
            self.framebuffer.pixels(),
            glyph,
            x + self.offset.0,
            y + self.offset.1,
            self.framebuffer.spec_stride(),
            self.color,
            self.bg,
            glyph.len() as int,
        )
    }

    /// Whether `glyph`, drawn at column `x` of row `y` of the window, lies
    /// within the frame buffer.
    pub fn fits(&self, glyph: &Vec<Vec<bool>>, x: usize, y: usize) -> (r: bool)
        ensures
            r == self.glyph_in_buffer(rows_of(glyph), x, y),
    {
        let len: usize = self.framebuffer.len();
        let stride: usize = self.framebuffer.stride();
        let gx: usize = match x.checked_add(self.offset.0) {
            Some(v) => v,
            None => {
                return false;
            },
        };
        let gy: usize = match y.checked_add(self.offset.1) {
            Some(v) => v,
            None => {
                return false;
            },
        };
        let rows: usize = glyph.len();
        if rows > usize::MAX - gy {
            return false;
        }
        let ghost g = rows_of(glyph);
        let mut r: usize = 0;
        while r < rows
            invariant
                r <= rows,
                rows == glyph@.len(),
                g == rows_of(glyph),
                gx == x + self.offset.0,
                gy == y + self.offset.1,
                gy + rows <= usize::MAX,
                len == self.framebuffer.pixels().len(),
                stride == self.framebuffer.spec_stride(),
                forall|k: int|
                    0 <= k < r && (#[trigger] g[k]).len() > 0 ==> row_base(
                        gx as int,
                        gy as int,
                        k,
                        stride as int,
                    ) + g[k].len() <= len,
            decreases rows - r,
        {
            let w: usize = glyph[r].len();
            assert(g[r as int].len() == w);
            if w > 0 {
                assert((gy + r) * stride >= 0) by (nonlinear_arith)
                    requires
                        gy + r >= 0,
                        stride >= 0,
                ;
                let end: Option<usize> = match (gy + r).checked_mul(stride) {
                    Some(b) => match b.checked_add(gx) {
                        Some(s) => s.checked_add(w),
                        None => None,
                    },
                    None => None,
                };
                let inside: bool = match end {
                    Some(e) => e <= len,
                    None => false,
                };
                if !inside {
                    proof {
                        assert(g[r as int].len() > 0);
                        assert(row_base(gx as int, gy as int, r as int, stride as int) + g[r as int].len()
                            > len);
                    }
                    return false;
                }
            }
            r += 1;
        }
        true
    }

    /// Draws `glyph` at column `x` of row `y` of the window: every pixel of
    /// the glyph in the background colour, and the filled ones in the text
    /// colour over it.
    pub fn draw_glyph(&mut self, glyph: &Vec<Vec<bool>>, x: usize, y: usize)
        requires
            old(self).glyph_in_buffer(rows_of(glyph), x, y),
        ensures
            final(self).framebuffer.pixels() == old(self).with_glyph(rows_of(glyph), x, y),
            final(self).same_setup(old(self)),
            final(self).cursor_x == old(self).cursor_x,
            final(self).cursor_y == old(self).cursor_y,
    {
        let ghost g = rows_of(glyph);
        let ghost before = self.framebuffer.pixels();
        let ghost gx = x + self.offset.0;
        let ghost gy = y + self.offset.1;
        let ghost stride = self.framebuffer.spec_stride();
        let ghost len = before.len() as int;
        let total: usize = self.framebuffer.len();
        let step: usize = self.framebuffer.stride();
        let rows: usize = glyph.len();
        let mut y_idx: usize = 0;
        while y_idx < rows
            invariant
                y_idx <= rows,
                rows == glyph@.len(),
                g == rows_of(glyph),
                gx == x + self.offset.0,
                gy == y + self.offset.1,
                stride == self.framebuffer.spec_stride(),
                stride == step,
                len == total,
                len == self.framebuffer.pixels().len(),
                len == before.len(),
                before == old(self).framebuffer.pixels(),
                old(self).glyph_in_buffer(g, x, y),
                self.same_setup(old(self)),
                self.cursor_x == old(self).cursor_x,
                self.cursor_y == old(self).cursor_y,
                self.framebuffer.pixels() == drawn(
                    before,
                    g,
                    gx,
                    gy,
                    stride,
                    self.color,
                    self.bg,
                    y_idx as int,
                ),
            decreases rows - y_idx,
        {
            let row = &glyph[y_idx];
            let cols: usize = row.len();
            let ghost base = row_base(gx, gy, y_idx as int, stride);
            let ghost row_start = self.framebuffer.pixels();
            assert(g[y_idx as int] == row@);
            assert((gy + y_idx) * stride >= 0) by (nonlinear_arith)
                requires
                    gy + y_idx >= 0,
                    stride >= 0,
            ;
            let mut x_idx: usize = 0;
            while x_idx < cols
                invariant
                    x_idx <= cols,
                    cols == row@.len(),
                    y_idx < rows,
                    gx == x + self.offset.0,
                    gy == y + self.offset.1,
                    gy + y_idx <= usize::MAX,
                    base == row_base(gx, gy, y_idx as int, stride),
                    base >= gx,
                    cols > 0 ==> base + cols <= len,
                    stride == self.framebuffer.spec_stride(),
                    len == total,
                    len == self.framebuffer.pixels().len(),
                    len == row_start.len(),
                    self.same_setup(old(self)),
                    self.cursor_x == old(self).cursor_x,
                    self.cursor_y == old(self).cursor_y,
                    forall|i: int|
                        0 <= i < len ==> self.framebuffer.pixels()[i] == if base <= i < base
                            + x_idx {
                            if row@[i - base] {
                                self.color
                            } else {
                                self.bg
                            }
                        } else {
                            row_start[i]
                        },
                decreases cols - x_idx,
            {
                self.framebuffer.write(x + x_idx + self.offset.0, y + y_idx + self.offset.1, self.bg);
                if row[x_idx] {
                    self.framebuffer.write(
                        x + x_idx + self.offset.0,
                        y + y_idx + self.offset.1,
                        self.color,
                    );
                }
                x_idx += 1;
            }
            proof {
                let next = drawn(before, g, gx, gy, stride, self.color, self.bg, y_idx + 1);
                assert forall|i: int| 0 <= i < len implies self.framebuffer.pixels()[i]
                    == next[i] by {
                    assert(covering_row(g, i, gx, gy, stride, y_idx + 1) == if base <= i < base
                        + cols {
                        Some(y_idx as int)
                    } else {
                        covering_row(g, i, gx, gy, stride, y_idx as int)
                    });
                }
                assert(self.framebuffer.pixels() =~= next);
            }
            y_idx += 1;
        }
    }

    /// The glyph of `chr`: that of its code, where the font's glyphs have
    /// columns and the font has a glyph with that code.
    pub fn glyph(&self, chr: char) -> (r: Option<Vec<Vec<bool>>>)
        requires
            font_usable(self.font@),
        ensures
            match r {
                Some(g) => {
                    &&& 0 < glyph_width(self.font@) <= usize::MAX - 7
                    &&& ((chr as u32) % 256) < glyph_count(self.font@)
                    &&& glyph_rows(self.font@, ((chr as u32) % 256) as u8) == Some(rows_of(&g))
                },
                None => !(0 < glyph_width(self.font@) <= usize::MAX - 7) || ((chr as u32) % 256)
                    >= glyph_count(self.font@) || glyph_rows(
                    self.font@,
                    ((chr as u32) % 256) as u8,
                ) is None,
            },
    {
        let code: u8 = char_code(chr);
        let width: u32 = match font_width(self.font) {
            Some(w) => w,
            None => 0,
        };
        let count: u32 = read_u32(self.font, 16);
        if width == 0 || width as usize > usize::MAX - 7 || code as u32 >= count {
            return None;
        }
        font_glyph(self.font, code)
    }

    /// Draws `chr` at column `x` of row `y` of the window, if the font has a
    /// glyph for it that lies within the frame buffer there, and says
    /// whether it did.
    pub fn write_char(&mut self, chr: char, x: usize, y: usize) -> (r: bool)
        requires
            font_usable(old(self).font@),
        ensures
            r == old(self).drawable(chr, x, y),
            final(self).framebuffer.pixels() == if r {
                old(self).with_glyph(
                    glyph_rows(old(self).font@, ((chr as u32) % 256) as u8).unwrap(),
                    x,
                    y,
                )
            } else {
                old(self).framebuffer.pixels()
            },
            final(self).same_setup(old(self)),
            final(self).cursor_x == old(self).cursor_x,
            final(self).cursor_y == old(self).cursor_y,
    {
        match self.glyph(chr) {
            Some(g) => {
                if self.fits(&g, x, y) {
                    self.draw_glyph(&g, x, y);
                    true
                } else {
                    false
                }
            },
            None => false,
        }
    }

    /// Sets the window and its margin to white.
    pub fn clear(&mut self)
        requires
            old(self).window_fits(),
        ensures
            final(self).framebuffer.pixels() == window_cleared(
                old(self).framebuffer.pixels(),
                old(self).offset,
                old(self).max,
                old(self).framebuffer.spec_stride(),
            ),
            final(self).same_setup(old(self)),
            final(self).cursor_x == old(self).cursor_x,
            final(self).cursor_y == old(self).cursor_y,
    {
        let offset = self.offset;
        let max = self.max;
        assert(!0u32 == 0xFFFF_FFFFu32) by (bit_vector);
        self.framebuffer.clear_part(!0, offset.0, offset.1, max.0 + 3, max.1 + 3);
        assert(self.framebuffer.pixels() =~= window_cleared(
            old(self).framebuffer.pixels(),
            old(self).offset,
            old(self).max,
            old(self).framebuffer.spec_stride(),
        ));
    }

    /// Moves the cursor to `(x, y)` and clears the window if `wrapped`.
    fn settle(&mut self, x: usize, y: usize, wrapped: bool)
        requires
            old(self).window_fits(),
        ensures
            final(self).framebuffer.pixels() == if wrapped {
                window_cleared(
                    old(self).framebuffer.pixels(),
                    old(self).offset,
                    old(self).max,
                    old(self).framebuffer.spec_stride(),
                )
            } else {
                old(self).framebuffer.pixels()
            },
            final(self).same_setup(old(self)),
            final(self).cursor_x == x,
            final(self).cursor_y == y,
    {
        self.cursor_x = x;
        self.cursor_y = y;
        if wrapped {
            self.clear();
        }
    }

    /// Draws `chr` at the cursor and moves the cursor on. Where the
    /// character cannot be drawn nothing changes, and the answer is `false`.
    pub fn print(&mut self, chr: char) -> (r: bool)
        requires
            old(self).wf(),
        ensures
            final(self).wf(),
            final(self).same_setup(old(self)),
            r == old(self).drawable(chr, old(self).cursor_x, old(self).cursor_y),
            !r ==> final(self).framebuffer.pixels() == old(self).framebuffer.pixels()
                && final(self).cursor_x == old(self).cursor_x && final(self).cursor_y == old(
                self,
            ).cursor_y,
            r ==> ({
                let glyph = glyph_rows(old(self).font@, ((chr as u32) % 256) as u8).unwrap();
                let pixels = old(self).with_glyph(glyph, old(self).cursor_x, old(self).cursor_y);
                let (x, y, wrapped) = after_print(
                    old(self).cursor_x as int,
                    old(self).cursor_y as int,
                    glyph_width(old(self).font@),
                    glyph_height(old(self).font@),
                    old(self).max,
                );
                &&& final(self).cursor_x == x
                &&& final(self).cursor_y == y
                &&& final(self).framebuffer.pixels() == if wrapped {
                    window_cleared(
                        pixels,
                        old(self).offset,
                        old(self).max,
                        old(self).framebuffer.spec_stride(),
                    )
                } else {
                    pixels
                }
            }),
    {
        if !self.write_char(chr, self.cursor_x, self.cursor_y) {
            return false;
        }
        let width: usize = match font_width(self.font) {
            Some(w) => w as usize,
            None => 0,
        };
        let height: usize = match font_height(self.font) {
            Some(h) => h as usize,
            None => 0,
        };
        let mut x: usize = self.cursor_x + width;
        let mut y: usize = self.cursor_y;
        if x >= self.max.0 {
            x = 0;
            y = y + height;
        }
        if y >= self.max.1 {
            self.settle(0, 0, true);
        } else {
            self.settle(x, y, false);
        }
        true
    }

    /// Carries out the control character `b`, a line feed: the cursor goes
    /// to the start of the next line.
    pub fn execute(&mut self, b: u8)
        requires
            old(self).wf(),
            b == 0x0A,
        ensures
            final(self).wf(),
            final(self).same_setup(old(self)),
            ({
                let (x, y, wrapped) = after_newline(
                    old(self).cursor_y as int,
                    glyph_height(old(self).font@),
                    old(self).max,
                );
                &&& final(self).cursor_x == x
                &&& final(self).cursor_y == y
                &&& final(self).framebuffer.pixels() == if wrapped {
                    window_cleared(
                        old(self).framebuffer.pixels(),
                        old(self).offset,
                        old(self).max,
                        old(self).framebuffer.spec_stride(),
                    )
                } else {
                    old(self).framebuffer.pixels()
                }
            }),
    {
        let height: usize = match font_height(self.font) {
            Some(h) => h as usize,
            None => 0,
        };
        let y: usize = self.cursor_y + height;
        if y >= self.max.1 {
            self.settle(0, 0, true);
        } else {
            self.settle(0, y, false);
        }
    }

    /// Carries out a control sequence: each of its parameters in turn sets
    /// the text colour or is taken and ignored. A sequence marked `ignore`
    /// does nothing.
    pub fn csi_dispatch(&mut self, params: &[Vec<u16>], ignore: bool, action: char)
        requires
            !ignore ==> forall|i: int| 0 <= i < params@.len() ==> sgr_known(#[trigger] params@[i]@),
        ensures
            final(self).color == if ignore {
                old(self).color
            } else {
                color_after(old(self).color, params@, params@.len() as int)
            },
            final(self).framebuffer == old(self).framebuffer,
            final(self).font@ == old(self).font@,
            final(self).cursor_x == old(self).cursor_x,
            final(self).cursor_y == old(self).cursor_y,
            final(self).offset == old(self).offset,
            final(self).max == old(self).max,
            final(self).bg == old(self).bg,
    {
        if ignore {
            return ;
        }
        let mut i: usize = 0;
        while i < params.len()
            invariant
                i <= params@.len(),
                forall|k: int| 0 <= k < params@.len() ==> sgr_known(#[trigger] params@[k]@),
                self.color == color_after(old(self).color, params@, i as int),
                self.framebuffer == old(self).framebuffer,
                self.font@ == old(self).font@,
                self.cursor_x == old(self).cursor_x,
                self.cursor_y == old(self).cursor_y,
                self.offset == old(self).offset,
                self.max == old(self).max,
                self.bg == old(self).bg,
            decreases params@.len() - i,
        {
            assert(sgr_known(params@[i as int]@));
            match sgr_param(params[i].as_slice()) {
                Some(Some(c)) => {
                    self.color = c;
                },
                _ => {},
            }
            i += 1;
        }
    }
}

/// The pixels with the part at column `x` of row `y`, `width` by `height`
/// pixels, set to `color`.
pub open spec fn filled(
    pixels: Seq<u32>,
    color: u32,
    x: int,
    y: int,
    width: int,
    height: int,
    stride: int,
) -> Seq<u32> {
    Seq::new(
        pixels.len(),
        |i: int|
            if in_part(i, x, y, width, height, stride) {
                color
            } else {
                pixels[i]
            },
    )
}

/// The colour of the `k`th frame of the console's window, from the outside
/// in.
pub open spec fn frame_color(k: int) -> u32 {
    if k == 0 || k == 5 {
        0u32
    } else if k == 1 || k == 6 {
        0xFFFF_FFFFu32
    } else if k == 2 || k == 3 {
        0xE0E0_E0E0u32
    } else {
        0xB7B7_B7B7u32
    }
}

/// The pixels of a screen of `width` by `height` pixels with the first
/// `upto` frames of the console's window drawn over a teal background:
/// frame `k` starts `100 + k` pixels from the left and from the top and
/// ends as far from the right and from the bottom.
pub open spec fn window_frames(pixels: Seq<u32>, width: int, height: int, stride: int, upto: int) -> Seq<
    u32,
>
    decreases upto,
{
    if upto <= 0 {
        Seq::new(pixels.len(), |i: int| 0x0000_8083u32)
    } else {
        filled(
            window_frames(pixels, width, height, stride, upto - 1),
            frame_color(upto - 1),
            99 + upto,
            99 + upto,
            width - 198 - 2 * upto,
            height - 198 - 2 * upto,
            stride,
        )
    }
}

/// The last pixel of each frame of the console's window lies on the screen.
proof fn lemma_frame_inside(k: int, width: int, height: int, stride: int)
    requires
        1 <= k <= 7,
        225 <= width <= stride,
        225 <= height,
    ensures
        0 <= pixel_index(width - 100 - k, height - 100 - k, stride) < stride * height,
{
    assert((height - 100 - k) * stride + stride <= stride * height) by (nonlinear_arith)
        requires
            height - 100 - k + 1 <= height,
            stride >= 0,
    ;
    assert((height - 100 - k) * stride >= 0) by (nonlinear_arith)
        requires
            height - 100 - k >= 0,
            stride >= 0,
    ;
}

/// Draws the console's window on `framebuffer`, seven frames one inside the
/// other over a teal background, and sets up the console that writes into
/// it with `font`: at 110 pixels from the left and from the top, 225 pixels
/// narrower and lower than the screen. `None` where the bytes of `font` are
/// 4 GiB or more or do not parse as a font.
pub fn init<'fb, 'font>(framebuffer: Framebuffer<'fb>, font: &'font [u8]) -> (r: Option<
    Performer<'fb, 'font>,
>)
    requires
        framebuffer.wf(),
        framebuffer.spec_width() >= 225,
        framebuffer.spec_height() >= 225,
    ensures
        r is Some <==> font_usable(font@),
        r matches Some(p) ==> {
            &&& p.framebuffer.pixels() == window_frames(
                framebuffer.pixels(),
                framebuffer.spec_width(),
                framebuffer.spec_height(),
                framebuffer.spec_stride(),
                7,
            )
            &&& p.framebuffer.spec_width() == framebuffer.spec_width()
            &&& p.framebuffer.spec_stride() == framebuffer.spec_stride()
            &&& p.framebuffer.spec_height() == framebuffer.spec_height()
            &&& p.font@ == font@
            &&& p.cursor_x == 0
            &&& p.cursor_y == 0
            &&& p.offset == (110usize, 110usize)
            &&& p.max == ((framebuffer.spec_width() - 225) as usize, (framebuffer.spec_height()
                - 225) as usize)
            &&& p.color == 0
            &&& p.bg == 0xFFFF_FFFF
        },
{
    let mut fb = framebuffer;
    let width: usize = fb.width();
    let height: usize = fb.height();
    let stride: usize = fb.stride();
    let len: usize = fb.len();
    let ghost before = fb.pixels();
    assert(!0u32 == 0xFFFF_FFFFu32) by (bit_vector);
    proof {
        lemma_frame_inside(1, width as int, height as int, stride as int);
        lemma_frame_inside(2, width as int, height as int, stride as int);
        lemma_frame_inside(3, width as int, height as int, stride as int);
        lemma_frame_inside(4, width as int, height as int, stride as int);
        lemma_frame_inside(5, width as int, height as int, stride as int);
        lemma_frame_inside(6, width as int, height as int, stride as int);
        lemma_frame_inside(7, width as int, height as int, stride as int);
    }
    fb.clear(0x00_00_80_83);
    assert(fb.pixels() =~= window_frames(before, width as int, height as int, stride as int, 0));

    // Pseudo console window
    fb.clear_part(0, 100, 100, width - 200, height - 200);
    assert(fb.pixels() =~= window_frames(before, width as int, height as int, stride as int, 1));
    fb.clear_part(!0, 101, 101, width - 202, height - 202);
    assert(fb.pixels() =~= window_frames(before, width as int, height as int, stride as int, 2));
    fb.clear_part(0xE0_E0_E0_E0, 102, 102, width - 204, height - 204);
    assert(fb.pixels() =~= window_frames(before, width as int, height as int, stride as int, 3));
    fb.clear_part(0xE0_E0_E0_E0, 103, 103, width - 206, height - 206);
    assert(fb.pixels() =~= window_frames(before, width as int, height as int, stride as int, 4));
    fb.clear_part(0xB7_B7_B7_B7, 104, 104, width - 208, height - 208);
    assert(fb.pixels() =~= window_frames(before, width as int, height as int, stride as int, 5));
    fb.clear_part(0, 105, 105, width - 210, height - 210);
    assert(fb.pixels() =~= window_frames(before, width as int, height as int, stride as int, 6));
    fb.clear_part(!0, 106, 106, width - 212, height - 212);
    assert(fb.pixels() =~= window_frames(before, width as int, height as int, stride as int, 7));

    Performer::new(fb, font, (110, 110), (width - 225, height - 225))
}

} // verus!
