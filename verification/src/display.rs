//! A text console drawn into a framebuffer: one 8x8 glyph per square cell.
use vstd::prelude::*;
use crate::framebuffer::{clip, color_byte, lemma_decompose, Color, Framebuffer};

verus! {

/// Cursor and colours of a text console over a framebuffer. Rows and
/// columns count cells of `cell_size` pixels; the cursor starts and returns
/// to column `padding`.
#[derive(Clone, Copy, Debug)]
pub struct DisplayWriter {
    pub fb: Framebuffer,
    pub padding: usize,
    pub max_row: usize,
    pub max_col: usize,
    pub cur_row: usize,
    pub cur_col: usize,
    pub cell_size: u8,
    pub active_foreground: Color,
    pub active_background: Color,
}

/// The console with its cursor at the start of the next row.
pub open spec fn after_new_line(w: DisplayWriter) -> DisplayWriter {
    DisplayWriter { cur_row: (w.cur_row + 1) as usize, cur_col: w.padding, ..w }
}

/// The console with its cursor moved past a drawn cell: the next column, or
/// the next row once the last column was drawn.
pub open spec fn after_cell(w: DisplayWriter) -> DisplayWriter {
    if w.cur_col == w.max_col {
        after_new_line(w)
    } else {
        DisplayWriter { cur_col: (w.cur_col + 1) as usize, ..w }
    }
}

/// `c` is a character the console draws in a cell.
pub open spec fn is_drawn(c: char) -> bool {
    (c as u32) < 128 && c != '\n' && c != '\r'
}

/// The console after writing `c`: characters outside ASCII are skipped,
/// a line feed starts the next row, a carriage return goes back to the
/// padding column and any other character takes a cell.
pub open spec fn after_symbol(w: DisplayWriter, c: char) -> DisplayWriter {
    if (c as u32) >= 128 {
        w
    } else if c == '\n' {
        after_new_line(w)
    } else if c == '\r' {
        DisplayWriter { cur_col: w.padding, ..w }
    } else {
        after_cell(w)
    }
}

/// The pixel memory `s` with pixel `(x, y)` given the packed colour `raw`,
/// when the pixel lies in the framebuffer.
pub open spec fn pixel_painted(fb: Framebuffer, s: Seq<u8>, raw: u64, x: int, y: int) -> Seq<u8> {
    if x < fb.width && y < fb.height {
        fb.painted(s, raw, x, y, x + 1, y + 1)
    } else {
        s
    }
}

/// The first `n` of the 64 pixels of glyph `code` (row by row, bit `k` of
/// a row byte being column `k`) drawn at `(x0, y0)` in the packed colour
/// `raw`; a clear bit leaves its pixel as it was.
pub open spec fn glyph_drawn(
    fb: Framebuffer,
    s: Seq<u8>,
    raw: u64,
    font: Seq<u8>,
    code: int,
    x0: int,
    y0: int,
    n: nat,
) -> Seq<u8>
    decreases n,
{
    if n == 0 {
        s
    } else {
        let k = n - 1;
        let prev = glyph_drawn(fb, s, raw, font, code, x0, y0, (n - 1) as nat);
        let row = k / 8;
        let bit = k % 8;
        if font[code * 8 + row] & (1u8 << (bit as u8)) != 0 {
            pixel_painted(fb, prev, raw, x0 + bit, y0 + row)
        } else {
            prev
        }
    }
}

/// The pixel memory after writing `c` at the cursor: a drawn character
/// first fills its cell with the background colour, then, unless it is a
/// space, draws its glyph in the foreground colour.
pub open spec fn symbol_pixels(w: DisplayWriter, s: Seq<u8>, font: Seq<u8>, c: char) -> Seq<u8> {
    if !is_drawn(c) {
        s
    } else {
        let cell = w.cell_size as int;
        let x0 = w.cur_col * cell;
        let y0 = w.cur_row * cell;
        let filled = if x0 < w.fb.width && y0 < w.fb.height {
            w.fb.painted(
                s,
                w.fb.packed(w.active_background),
                x0,
                y0,
                clip(x0 + cell, w.fb.width as int),
                clip(y0 + cell, w.fb.height as int),
            )
        } else {
            s
        };
        if c == ' ' {
            filled
        } else {
            glyph_drawn(w.fb, filled, w.fb.packed(w.active_foreground), font, c as int, x0, y0, 64)
        }
    }
}

/// Writing `c` at the cursor neither runs past the last row nor overflows
/// a pixel coordinate, and the font has a glyph for it.
pub open spec fn symbol_fits(w: DisplayWriter, font_len: nat, c: char) -> bool {
    let cell = w.cell_size as int;
    &&& c == '\n' ==> w.cur_row < w.max_row
    &&& is_drawn(c) ==> {
        &&& w.cur_col == w.max_col ==> w.cur_row < w.max_row
        &&& w.cur_col < usize::MAX
        &&& w.cur_col * cell + cell + 8 <= usize::MAX
        &&& w.cur_row * cell + cell + 8 <= usize::MAX
        &&& (c as int) * 8 + 8 <= font_len
    }
}

/// The console and pixel memory after writing the characters of `cs` in
/// order.
pub open spec fn string_written(w: DisplayWriter, s: Seq<u8>, font: Seq<u8>, cs: Seq<char>) -> (
    DisplayWriter,
    Seq<u8>,
)
    decreases cs.len(),
{
    if cs.len() == 0 {
        (w, s)
    } else {
        let (w1, s1) = string_written(w, s, font, cs.drop_last());
        (after_symbol(w1, cs.last()), symbol_pixels(w1, s1, font, cs.last()))
    }
}

/// Every character of `cs` fits when its turn comes.
pub open spec fn string_fits(w: DisplayWriter, s: Seq<u8>, font: Seq<u8>, cs: Seq<char>) -> bool
    decreases cs.len(),
{
    if cs.len() == 0 {
        true
    } else {
        let (w1, s1) = string_written(w, s, font, cs.drop_last());
        string_fits(w, s, font, cs.drop_last()) && symbol_fits(w1, font.len(), cs.last())
    }
}

/// Writing `a + b` leaves the console and the pixels as writing `a` and then
/// `b` does, and `a + b` fits exactly when `a` fits and then `b` fits.
pub proof fn lemma_string_written_concat(w: DisplayWriter, s: Seq<u8>, font: Seq<u8>, a: Seq<char>, b: Seq<char>)
    ensures
        ({
            let (w1, s1) = string_written(w, s, font, a);
            &&& string_written(w, s, font, a + b) == string_written(w1, s1, font, b)
            &&& string_fits(w, s, font, a + b) == (string_fits(w, s, font, a) && string_fits(w1, s1, font, b))
        }),
    decreases b.len(),
{
    let (w1, s1) = string_written(w, s, font, a);
    if b.len() == 0 {
        assert(a + b =~= a);
    } else {
        lemma_string_written_concat(w, s, font, a, b.drop_last());
        assert((a + b).drop_last() =~= a + b.drop_last());
        assert((a + b).last() == b.last());
    }
}

impl DisplayWriter {
    /// Whether `c` fits when written at the cursor, with a font of
    /// `font_len` bytes (see `symbol_fits`).
    pub fn symbol_fits_check(&self, font_len: usize, c: char) -> (b: bool)
        ensures
            b == symbol_fits(*self, font_len as nat, c),
    {
        let cell = self.cell_size as usize;
        if c == '\n' {
            return self.cur_row < self.max_row;
        }
        if !((c as u32) < 128 && c != '\r') {
            return true;
        }
        if self.cur_col == self.max_col && self.cur_row >= self.max_row {
            return false;
        }
        if self.cur_col == usize::MAX {
            return false;
        }
        let col_ok = match self.cur_col.checked_mul(cell) {
            Some(x) => x <= usize::MAX - 8 - cell,
            None => false,
        };
        let row_ok = match self.cur_row.checked_mul(cell) {
            Some(y) => y <= usize::MAX - 8 - cell,
            None => false,
        };
        let code = (c as u32) as usize;
        col_ok && row_ok && code * 8 + 8 <= font_len
    }

    /// A console over `fb` with `padding` cells of margin, its cursor at
    /// row and column `padding`.
    pub fn new(fb: &Framebuffer, padding: usize, apf: Color, apb: Color, cell_size: u8) -> (w: Self)
        requires
            cell_size > 0,
            fb.width <= usize::MAX,
            fb.height <= usize::MAX,
            padding <= (fb.height as int) / (cell_size as int),
            padding <= (fb.width as int) / (cell_size as int),
        ensures
            w.fb == *fb,
            w.padding == padding,
            w.max_row == (fb.height as int) / (cell_size as int) - padding,
            w.max_col == (fb.width as int) / (cell_size as int) - padding,
            w.cur_row == padding,
            w.cur_col == padding,
            w.cell_size == cell_size,
            w.active_foreground == apf,
            w.active_background == apb,
    {
        let width = fb.width as usize;
        let height = fb.height as usize;
        DisplayWriter {
            fb: *fb,
            padding,
            max_row: height / (cell_size as usize) - padding,
            max_col: width / (cell_size as usize) - padding,
            cur_col: padding,
            cur_row: padding,
            active_background: apb,
            active_foreground: apf,
            cell_size,
        }
    }

    fn new_line(&mut self)
        requires
            old(self).cur_row < old(self).max_row,
        ensures
            *final(self) == after_new_line(*old(self)),
    {
        self.cur_row = self.cur_row + 1;
        self.cur_col = self.padding;
    }

    fn calculate_offset_after_symbol(&mut self)
        requires
            old(self).cur_col == old(self).max_col ==> old(self).cur_row < old(self).max_row,
            old(self).cur_col < usize::MAX,
        ensures
            *final(self) == after_cell(*old(self)),
    {
        if self.cur_col == self.max_col {
            self.new_line();
        } else {
            self.cur_col = self.cur_col + 1;
        }
    }

    /// Draws glyph `code` of `font` in `color` with its top left pixel at
    /// `(x_start, y_start)`.
    fn write_foreground(
        &self,
        pixels: &mut [u8],
        font: &[u8],
        color: Color,
        code: usize,
        x_start: usize,
        y_start: usize,
    )
        requires
            self.fb.fits(old(pixels)@.len()),
            self.fb.masks_valid(),
            code * 8 + 8 <= font@.len(),
            x_start + 8 <= usize::MAX,
            y_start + 8 <= usize::MAX,
        ensures
            final(pixels)@ == glyph_drawn(
                self.fb,
                old(pixels)@,
                self.fb.packed(color),
                font@,
                code as int,
                x_start as int,
                y_start as int,
                64,
            ),
    {
        let ghost orig = pixels@;
        let ghost raw = self.fb.packed(color);
        let font_len = font.len();
        let mut byte: usize = 0;
        while byte < 8
            invariant
                self.fb.fits(orig.len()),
                self.fb.masks_valid(),
                code * 8 + 8 <= font@.len(),
                font@.len() == font_len,
                x_start + 8 <= usize::MAX,
                y_start + 8 <= usize::MAX,
                byte <= 8,
                raw == self.fb.packed(color),
                pixels@.len() == orig.len(),
                pixels@ == glyph_drawn(
                    self.fb,
                    orig,
                    raw,
                    font@,
                    code as int,
                    x_start as int,
                    y_start as int,
                    (byte * 8) as nat,
                ),
            decreases 8 - byte,
        {
            let row_bits: u8 = font[code * 8 + byte];
            let mut bit: u8 = 0;
            while bit < 8
                invariant
                    self.fb.fits(orig.len()),
                    self.fb.masks_valid(),
                    code * 8 + 8 <= font@.len(),
                    x_start + 8 <= usize::MAX,
                    y_start + 8 <= usize::MAX,
                    byte < 8,
                    bit <= 8,
                    row_bits == font@[code * 8 + byte],
                    raw == self.fb.packed(color),
                    pixels@.len() == orig.len(),
                    pixels@ == glyph_drawn(
                        self.fb,
                        orig,
                        raw,
                        font@,
                        code as int,
                        x_start as int,
                        y_start as int,
                        (byte * 8 + bit) as nat,
                    ),
                decreases 8 - bit,
            {
                let ghost k: int = byte * 8 + bit;
                assert(k / 8 == byte && k % 8 == bit);
                if row_bits & (1u8 << bit) != 0 {
                    self.fb.write_pixel(pixels, color, x_start + bit as usize, y_start + byte);
                }
                bit = bit + 1;
            }
            byte = byte + 1;
        }
    }

    /// Writes one character at the cursor and moves the cursor on.
    pub fn write_symbol(&mut self, pixels: &mut [u8], font: &[u8], c: char)
        requires
            old(self).fb.fits(old(pixels)@.len()),
            old(self).fb.masks_valid(),
            symbol_fits(*old(self), font@.len(), c),
        ensures
            *final(self) == after_symbol(*old(self), c),
            final(pixels)@ == symbol_pixels(*old(self), old(pixels)@, font@, c),
    {
        let code = c as u32;
        if code >= 128 {
            return;
        }
        if c == '\n' {
            self.new_line();
            return;
        }
        if c == '\r' {
            self.cur_col = self.padding;
            return;
        }
        let cell = self.cell_size as usize;
        let x_start = self.cur_col * cell;
        let y_start = self.cur_row * cell;
        let fb = self.fb;
        fb.fill_rect(pixels, self.active_background, x_start, y_start, cell, cell);
        if c != ' ' {
            self.write_foreground(pixels, font, self.active_foreground, code as usize, x_start, y_start);
        }
        self.calculate_offset_after_symbol();
    }

    /// Writes the characters of `string` in order.
    pub fn write_string(&mut self, pixels: &mut [u8], font: &[u8], string: &str)
        requires
            old(self).fb.fits(old(pixels)@.len()),
            old(self).fb.masks_valid(),
            string_fits(*old(self), old(pixels)@, font@, string@),
        ensures
            (*final(self), final(pixels)@) == string_written(*old(self), old(pixels)@, font@, string@),
    {
        let ghost w0 = *self;
        let ghost s0 = pixels@;
        for c in it: string.chars()
            invariant
                it.seq() == string@,
                self.fb == w0.fb,
                self.fb.fits(pixels@.len()),
                self.fb.masks_valid(),
                pixels@.len() == s0.len(),
                string_fits(w0, s0, font@, string@),
                (*self, pixels@) == string_written(w0, s0, font@, string@.take(it.index() as int)),
        {
            proof {
                let i = it.index() as int;
                assert(string@.take(i + 1).drop_last() == string@.take(i));
                lemma_string_fits_prefix(w0, s0, font@, string@, i + 1);
            }
            let ghost before = pixels@;
            let ghost wb = *self;
            self.write_symbol(pixels, font, c);
            proof {
                lemma_symbol_len(wb, before, font@, c);
            }
        }
        proof {
            assert(string@.take(string@.len() as int) == string@);
        }
    }
}

/// Byte `i` of pixel `(x, y)` of a framebuffer that fits its memory sits at
/// `y * pitch + x * bpp + i`, inside the memory.
proof fn lemma_pixel_byte(fb: Framebuffer, len: nat, x: int, y: int, i: int)
    requires
        fb.fits(len),
        0 <= x < fb.width,
        0 <= y < fb.height,
        0 <= i < fb.bpp,
    ensures
        ({
            let j = y * fb.pitch + x * fb.bpp + i;
            &&& fb.pitch > 0
            &&& 0 <= j < len
            &&& j / (fb.pitch as int) == y
            &&& (j % (fb.pitch as int)) / (fb.bpp as int) == x
            &&& (j % (fb.pitch as int)) % (fb.bpp as int) == i
        }),
{
    let pitch = fb.pitch as int;
    let bpp = fb.bpp as int;
    let width = fb.width as int;
    let height = fb.height as int;
    assert(x * bpp + bpp <= pitch && pitch > 0) by (nonlinear_arith)
        requires
            x < width,
            bpp >= 1,
            width * bpp <= pitch,
            x >= 0,
    ;
    assert(y * pitch + pitch <= len) by (nonlinear_arith)
        requires
            y < height,
            pitch >= 1,
            height * pitch <= len,
    ;
    assert(x * bpp >= 0 && y * pitch >= 0) by (nonlinear_arith)
        requires
            x >= 0,
            y >= 0,
            bpp >= 1,
            pitch >= 1,
    ;
    lemma_decompose(pitch, bpp, x, y, i);
}

/// Drawing the first `n` pixels of glyph `code` at `(x0, y0)` touches byte
/// `i` of the pixel `k` columns right and `r` rows down exactly when that is
/// one of those pixels and bit `k` of row byte `r` is set.
proof fn lemma_glyph_pixel(
    fb: Framebuffer,
    base: Seq<u8>,
    raw: u64,
    font: Seq<u8>,
    code: int,
    x0: int,
    y0: int,
    n: nat,
    k: int,
    r: int,
    i: int,
)
    requires
        fb.fits(base.len()),
        0 <= x0,
        0 <= y0,
        0 <= k < 8,
        0 <= r < 8,
        x0 + k < fb.width,
        y0 + r < fb.height,
        0 <= i < fb.bpp,
    ensures
        ({
            let j = (y0 + r) * fb.pitch + (x0 + k) * fb.bpp + i;
            glyph_drawn(fb, base, raw, font, code, x0, y0, n)[j] == if 8 * r + k < n && font[code * 8 + r] & (1u8
                << (k as u8)) != 0 {
                color_byte(raw, i)
            } else {
                base[j]
            }
        }),
    decreases n,
{
    let j = (y0 + r) * fb.pitch + (x0 + k) * fb.bpp + i;
    lemma_pixel_byte(fb, base.len(), x0 + k, y0 + r, i);
    if n > 0 {
        let q = n - 1;
        let prev = glyph_drawn(fb, base, raw, font, code, x0, y0, (n - 1) as nat);
        lemma_glyph_pixel(fb, base, raw, font, code, x0, y0, (n - 1) as nat, k, r, i);
        lemma_glyph_len(fb, base, raw, font, code, x0, y0, (n - 1) as nat);
        let row = q / 8;
        let bit = q % 8;
        assert(q == 8 * row + bit && 0 <= bit < 8 && row >= 0);
        if font[code * 8 + row] & (1u8 << (bit as u8)) != 0 {
            let xx = x0 + bit;
            let yy = y0 + row;
            if xx < fb.width && yy < fb.height {
                let painted = fb.painted(prev, raw, xx, yy, xx + 1, yy + 1);
                assert(painted[j] == if fb.covers(j, xx, yy, xx + 1, yy + 1) {
                    color_byte(raw, (j % (fb.pitch as int)) % (fb.bpp as int))
                } else {
                    prev[j]
                });
                if q == 8 * r + k {
                    assert(row == r && bit == k);
                }
            }
        }
    }
}

/// Writing a drawn character other than a space draws its glyph row by row
/// into its cell at `(x0, y0)`: byte `i` of the pixel `k` columns right of
/// and `r` rows below the corner becomes byte `i` of the foreground colour
/// exactly when bit `k` of the glyph's row byte `r` is set; otherwise it
/// is what the background fill left, the background colour inside the cell
/// and the old value outside it.
pub proof fn lemma_glyph_rows_are_screen_rows(
    w: DisplayWriter,
    s: Seq<u8>,
    font: Seq<u8>,
    c: char,
    k: int,
    r: int,
    i: int,
)
    requires
        w.fb.fits(s.len()),
        is_drawn(c),
        c != ' ',
        0 <= k < 8,
        0 <= r < 8,
        0 <= i < w.fb.bpp,
        w.cur_col * w.cell_size + k < w.fb.width,
        w.cur_row * w.cell_size + r < w.fb.height,
    ensures
        ({
            let x = w.cur_col * w.cell_size + k;
            let y = w.cur_row * w.cell_size + r;
            let j = y * w.fb.pitch + x * w.fb.bpp + i;
            let after = symbol_pixels(w, s, font, c);
            &&& 0 <= j < s.len()
            &&& after.len() == s.len()
            &&& font[(c as int) * 8 + r] & (1u8 << (k as u8)) != 0 ==> after[j] == color_byte(
                w.fb.packed(w.active_foreground),
                i,
            )
            &&& font[(c as int) * 8 + r] & (1u8 << (k as u8)) == 0 ==> after[j] == if k < w.cell_size && r
                < w.cell_size {
                color_byte(w.fb.packed(w.active_background), i)
            } else {
                s[j]
            }
        }),
{
    let cell = w.cell_size as int;
    let x0 = w.cur_col * cell;
    let y0 = w.cur_row * cell;
    assert(x0 >= 0 && y0 >= 0) by (nonlinear_arith)
        requires
            x0 == w.cur_col * cell,
            y0 == w.cur_row * cell,
            w.cur_col >= 0,
            w.cur_row >= 0,
            cell >= 0,
    ;
    let x = x0 + k;
    let y = y0 + r;
    let j = y * w.fb.pitch + x * w.fb.bpp + i;
    lemma_pixel_byte(w.fb, s.len(), x, y, i);
    lemma_symbol_len(w, s, font, c);
    let x1 = clip(x0 + cell, w.fb.width as int);
    let y1 = clip(y0 + cell, w.fb.height as int);
    let filled = w.fb.painted(s, w.fb.packed(w.active_background), x0, y0, x1, y1);
    assert(filled[j] == if k < cell && r < cell {
        color_byte(w.fb.packed(w.active_background), i)
    } else {
        s[j]
    });
    lemma_glyph_pixel(w.fb, filled, w.fb.packed(w.active_foreground), font, c as int, x0, y0, 64, k, r, i);
}

/// Drawing a glyph keeps the length of the pixel memory.
proof fn lemma_glyph_len(fb: Framebuffer, s: Seq<u8>, raw: u64, font: Seq<u8>, code: int, x0: int, y0: int, n: nat)
    ensures
        glyph_drawn(fb, s, raw, font, code, x0, y0, n).len() == s.len(),
    decreases n,
{
    if n > 0 {
        lemma_glyph_len(fb, s, raw, font, code, x0, y0, (n - 1) as nat);
    }
}

/// Writing a character keeps the length of the pixel memory.
proof fn lemma_symbol_len(w: DisplayWriter, s: Seq<u8>, font: Seq<u8>, c: char)
    ensures
        symbol_pixels(w, s, font, c).len() == s.len(),
{
    if is_drawn(c) {
        let cell = w.cell_size as int;
        let x0 = w.cur_col * cell;
        let y0 = w.cur_row * cell;
        let filled = if x0 < w.fb.width && y0 < w.fb.height {
            w.fb.painted(
                s,
                w.fb.packed(w.active_background),
                x0,
                y0,
                clip(x0 + cell, w.fb.width as int),
                clip(y0 + cell, w.fb.height as int),
            )
        } else {
            s
        };
        lemma_glyph_len(w.fb, filled, w.fb.packed(w.active_foreground), font, c as int, x0, y0, 64);
    }
}

/// Every prefix of a string that fits fits too.
proof fn lemma_string_fits_prefix(w: DisplayWriter, s: Seq<u8>, font: Seq<u8>, cs: Seq<char>, n: int)
    requires
        string_fits(w, s, font, cs),
        0 <= n <= cs.len(),
    ensures
        string_fits(w, s, font, cs.take(n)),
    decreases cs.len(),
{
    if n < cs.len() {
        assert(cs.drop_last().take(n) == cs.take(n));
        lemma_string_fits_prefix(w, s, font, cs.drop_last(), n);
    } else {
        assert(cs.take(n) == cs);
    }
}

} // verus!
