//! Linear framebuffers: colour packing and drawing into the pixel memory.
//!
//! The pixel memory is handed in as a byte slice: pixel `(x, y)` starts at
//! byte `y * pitch + x * bpp` and takes `bpp` bytes, the packed colour in
//! little-endian order.
use vstd::prelude::*;
use vstd::arithmetic::div_mod::lemma_fundamental_div_mod_converse;
use vstd::arithmetic::mul::lemma_mul_inequality;

verus! {

/// An RGB colour with eight bits per channel.
#[derive(Clone, Copy, Debug, PartialEq, Eq, Structural)]
pub struct Color {
    pub r: u8,
    pub g: u8,
    pub b: u8,
}

impl Color {
    /// Splits `0xRRGGBB` into its channels; bits above the low 24 are ignored.
    pub fn from_hex_rgb(hex_code: u32) -> (c: Self)
        ensures
            c.r == (hex_code / 0x10000) % 0x100,
            c.g == (hex_code / 0x100) % 0x100,
            c.b == hex_code % 0x100,
    {
        let r = ((hex_code >> 16) & 0xFF) as u8;
        let g = ((hex_code >> 8) & 0xFF) as u8;
        let b = (hex_code & 0xFF) as u8;
        assert(((hex_code >> 16) & 0xFF) == (hex_code / 0x10000) % 0x100) by (bit_vector);
        assert(((hex_code >> 8) & 0xFF) == (hex_code / 0x100) % 0x100) by (bit_vector);
        assert((hex_code & 0xFF) == hex_code % 0x100) by (bit_vector);
        Color { r, g, b }
    }
}

/// The order of the colour channels in a four-byte pixel.
#[derive(Clone, Copy, Debug, PartialEq, Eq, Structural)]
pub enum PixelFormat {
    RGBA,
    RBGA,
    BGRA,
    BRGA,
    GBRA,
    GRBA,
    UNKNOWN,
}

/// A linear framebuffer as the boot loader describes it; `bpp` is in bytes
/// per pixel and `start_addr` is where its pixel memory is mapped.
#[derive(Clone, Copy, Debug)]
pub struct Framebuffer {
    pub start_addr: usize,
    pub width: u64,
    pub height: u64,
    pub pitch: u64,
    pub red_mask_shift: u8,
    pub green_mask_shift: u8,
    pub blue_mask_shift: u8,
    pub red_mask_size: u8,
    pub green_mask_size: u8,
    pub blue_mask_size: u8,
    pub bpp: u16,
}

/// The pixel format named by the channel shifts of a four-byte pixel.
pub open spec fn format_of(bpp: u16, blue: u8, green: u8, red: u8) -> PixelFormat {
    if bpp != 4 {
        PixelFormat::UNKNOWN
    } else if blue == 0 && green == 8 && red == 16 {
        PixelFormat::BGRA
    } else if blue == 0 && green == 16 && red == 8 {
        PixelFormat::BRGA
    } else if blue == 16 && green == 8 && red == 0 {
        PixelFormat::RGBA
    } else if blue == 8 && green == 16 && red == 0 {
        PixelFormat::RBGA
    } else if blue == 16 && green == 0 && red == 8 {
        PixelFormat::GRBA
    } else if blue == 8 && green == 0 && red == 16 {
        PixelFormat::GBRA
    } else {
        PixelFormat::UNKNOWN
    }
}

/// One channel of a packed pixel: the top `size` bits of the eight-bit
/// value, placed at bit `shift`.
pub open spec fn channel_bits(value: u8, size: u8, shift: u8) -> u64 {
    let down: u64 = if size >= 8 { 0 } else { (8 - size) as u64 };
    (((value as u64 >> down) & (((1u64 << size) - 1) as u64)) << shift) as u64
}

/// Byte `i` (counted from the least significant) of a packed colour.
pub open spec fn color_byte(raw: u64, i: int) -> u8 {
    ((raw >> ((8 * i) as u64)) & 0xff) as u8
}

impl Framebuffer {
    /// The geometry fits a pixel memory of `len` bytes: pixels are one to
    /// eight bytes wide, a row of pixels fits in the pitch and all rows fit
    /// in the memory.
    pub open spec fn fits(&self, len: nat) -> bool {
        &&& 1 <= self.bpp <= 8
        &&& self.width * self.bpp <= self.pitch
        &&& self.height * self.pitch <= len
    }

    /// The channel masks and shifts all stay inside a 64-bit pixel value.
    pub open spec fn masks_valid(&self) -> bool {
        &&& self.red_mask_size < 64
        &&& self.green_mask_size < 64
        &&& self.blue_mask_size < 64
        &&& self.red_mask_shift < 64
        &&& self.green_mask_shift < 64
        &&& self.blue_mask_shift < 64
    }

    /// The packed value of `color` in this framebuffer's channel layout.
    pub open spec fn packed(&self, color: Color) -> u64 {
        channel_bits(color.r, self.red_mask_size, self.red_mask_shift) | channel_bits(
            color.g,
            self.green_mask_size,
            self.green_mask_shift,
        ) | channel_bits(color.b, self.blue_mask_size, self.blue_mask_shift)
    }

    /// Byte `j` of the pixel memory lies in the pixel `(x, y)` with
    /// `x0 <= x < x1` and `y0 <= y < y1`.
    pub open spec fn covers(&self, j: int, x0: int, y0: int, x1: int, y1: int) -> bool {
        &&& self.pitch > 0
        &&& y0 <= j / (self.pitch as int) < y1
        &&& x0 <= (j % (self.pitch as int)) / (self.bpp as int) < x1
    }

    /// The pixel memory `s` after every pixel of the rectangle
    /// `[x0, x1) x [y0, y1)` was given the packed colour `raw`.
    pub open spec fn painted(&self, s: Seq<u8>, raw: u64, x0: int, y0: int, x1: int, y1: int) -> Seq<
        u8,
    > {
        Seq::new(
            s.len(),
            |j: int|
                if x0 < x1 && y0 < y1 && self.covers(j, x0, y0, x1, y1) {
                    color_byte(raw, (j % (self.pitch as int)) % (self.bpp as int))
                } else {
                    s[j]
                },
        )
    }

    /// Byte `j` was written by the time the drawing loop reached byte `i`
    /// of pixel `(xc, yc)`: rows are drawn top to bottom, pixels left to
    /// right, bytes from the least significant.
    pub open spec fn drawn_before(
        &self,
        j: int,
        x0: int,
        y0: int,
        x1: int,
        xc: int,
        yc: int,
        ic: int,
    ) -> bool {
        let y = j / (self.pitch as int);
        let x = (j % (self.pitch as int)) / (self.bpp as int);
        let i = (j % (self.pitch as int)) % (self.bpp as int);
        &&& self.pitch > 0
        &&& x0 <= x < x1
        &&& y0 <= y
        &&& (y < yc || (y == yc && (x < xc || (x == xc && i < ic))))
    }

    /// A framebuffer with the given geometry and channel layout.
    pub fn new(
        start_addr: usize,
        width: u64,
        height: u64,
        pitch: u64,
        red_mask_size: u8,
        green_mask_size: u8,
        blue_mask_size: u8,
        red_mask_shift: u8,
        green_mask_shift: u8,
        blue_mask_shift: u8,
        bpp: u16,
    ) -> (fb: Self)
        ensures
            fb.start_addr == start_addr,
            fb.width == width,
            fb.height == height,
            fb.pitch == pitch,
            fb.red_mask_size == red_mask_size,
            fb.green_mask_size == green_mask_size,
            fb.blue_mask_size == blue_mask_size,
            fb.red_mask_shift == red_mask_shift,
            fb.green_mask_shift == green_mask_shift,
            fb.blue_mask_shift == blue_mask_shift,
            fb.bpp == bpp,
    {
        Framebuffer {
            start_addr,
            width,
            height,
            pitch,
            red_mask_shift,
            green_mask_shift,
            blue_mask_shift,
            red_mask_size,
            green_mask_size,
            blue_mask_size,
            bpp,
        }
    }

    /// The channel order of a four-byte pixel, read off the channel shifts;
    /// `UNKNOWN` for other pixel widths and layouts.
    pub fn pixel_format(&self) -> (f: PixelFormat)
        ensures
            f == format_of(self.bpp, self.blue_mask_shift, self.green_mask_shift, self.red_mask_shift),
    {
        if self.bpp != 4 {
            return PixelFormat::UNKNOWN;
        }
        let b = self.blue_mask_shift;
        let g = self.green_mask_shift;
        let r = self.red_mask_shift;
        if b == 0 && g == 8 && r == 16 {
            PixelFormat::BGRA
        } else if b == 0 && g == 16 && r == 8 {
            PixelFormat::BRGA
        } else if b == 16 && g == 8 && r == 0 {
            PixelFormat::RGBA
        } else if b == 8 && g == 16 && r == 0 {
            PixelFormat::RBGA
        } else if b == 16 && g == 0 && r == 8 {
            PixelFormat::GRBA
        } else if b == 8 && g == 0 && r == 16 {
            PixelFormat::GBRA
        } else {
            PixelFormat::UNKNOWN
        }
    }

    /// Packs `color` into this framebuffer's channel layout.
    pub fn convert_color(&self, color: Color) -> (raw: u64)
        requires
            self.masks_valid(),
        ensures
            raw == self.packed(color),
    {
        let r = Self::channel(color.r, self.red_mask_size, self.red_mask_shift);
        let g = Self::channel(color.g, self.green_mask_size, self.green_mask_shift);
        let b = Self::channel(color.b, self.blue_mask_size, self.blue_mask_shift);
        r | g | b
    }

    fn channel(value: u8, size: u8, shift: u8) -> (bits: u64)
        requires
            size < 64,
            shift < 64,
        ensures
            bits == channel_bits(value, size, shift),
    {
        let down: u64 = if size >= 8 {
            0
        } else {
            (8 - size) as u64
        };
        assert(1u64 << size >= 1) by (bit_vector)
            requires
                size < 64,
        ;
        ((value as u64 >> down) & ((1u64 << size) - 1)) << shift
    }

    /// Writes the packed colour `raw` into the `bpp` bytes of pixel `(x, y)`.
    fn put_pixel(&self, pixels: &mut [u8], raw: u64, x: usize, y: usize, Ghost(x0): Ghost<int>, Ghost(
        y0,
    ): Ghost<int>, Ghost(x1): Ghost<int>, Ghost(orig): Ghost<Seq<u8>>)
        requires
            self.fits(old(pixels)@.len()),
            x0 <= x < x1 <= self.width,
            y0 <= y < self.height,
            old(pixels)@.len() == orig.len(),
            forall|j: int|
                #![trigger old(pixels)@[j]]
                0 <= j < orig.len() ==> old(pixels)@[j] == if self.drawn_before(
                    j,
                    x0,
                    y0,
                    x1,
                    x as int,
                    y as int,
                    0,
                ) {
                    color_byte(raw, (j % (self.pitch as int)) % (self.bpp as int))
                } else {
                    orig[j]
                },
        ensures
            final(pixels)@.len() == orig.len(),
            forall|j: int|
                #![trigger final(pixels)@[j]]
                0 <= j < orig.len() ==> final(pixels)@[j] == if self.drawn_before(
                    j,
                    x0,
                    y0,
                    x1,
                    x + 1,
                    y as int,
                    0,
                ) {
                    color_byte(raw, (j % (self.pitch as int)) % (self.bpp as int))
                } else {
                    orig[j]
                },
    {
        let ghost pitch = self.pitch as int;
        let ghost bpp = self.bpp as int;
        let bpp_u: usize = self.bpp as usize;
        let len = pixels.len();
        proof {
            lemma_mul_inequality(x as int + 1, self.width as int, bpp);
            lemma_mul_inequality(y as int + 1, self.height as int, pitch);
            assert((x as int + 1) * bpp == x * bpp + bpp) by (nonlinear_arith);
            assert((y as int + 1) * pitch == y * pitch + pitch) by (nonlinear_arith);
            assert(0 <= y * pitch) by (nonlinear_arith)
                requires
                    y >= 0,
                    pitch >= 0,
            ;
            assert(0 <= x * bpp) by (nonlinear_arith)
                requires
                    x >= 0,
                    bpp >= 0,
            ;
        }
        let row: usize = y * (self.pitch as usize);
        let col: usize = x * bpp_u;
        let base: usize = row + col;
        let mut i: usize = 0;
        while i < bpp_u
            invariant
                self.fits(orig.len()),
                bpp_u == self.bpp,
                pitch == self.pitch,
                bpp == self.bpp,
                x0 <= x < x1 <= self.width,
                y0 <= y < self.height,
                base == y * pitch + x * bpp,
                x * bpp + bpp <= pitch,
                y * pitch + pitch <= orig.len(),
                i <= bpp_u,
                bpp_u <= 8,
                orig.len() <= usize::MAX,
                pixels@.len() == orig.len(),
                forall|j: int|
                    #![trigger pixels@[j]]
                    0 <= j < orig.len() ==> pixels@[j] == if self.drawn_before(
                        j,
                        x0,
                        y0,
                        x1,
                        x as int,
                        y as int,
                        i as int,
                    ) {
                        color_byte(raw, (j % pitch) % bpp)
                    } else {
                        orig[j]
                    },
            decreases bpp_u - i,
        {
            let byte: u8 = ((raw >> ((i * 8) as u64)) & 0xFF) as u8;
            let ghost target = base + i;
            proof {
                lemma_decompose(pitch, bpp, x as int, y as int, i as int);
                assert(byte == color_byte(raw, i as int));
            }
            pixels[base + i] = byte;
            proof {
                assert forall|j: int| 0 <= j < orig.len() implies #[trigger] pixels@[j] == if self.drawn_before(
                    j,
                    x0,
                    y0,
                    x1,
                    x as int,
                    y as int,
                    i + 1,
                ) {
                    color_byte(raw, (j % pitch) % bpp)
                } else {
                    orig[j]
                } by {
                    if j != target {
                        lemma_same_position(pitch, bpp, j, x as int, y as int, i as int);
                    }
                }
            }
            i = i + 1;
        }
        proof {
            assert forall|j: int| 0 <= j < orig.len() implies #[trigger] pixels@[j] == if self.drawn_before(
                j,
                x0,
                y0,
                x1,
                x + 1,
                y as int,
                0,
            ) {
                color_byte(raw, (j % pitch) % bpp)
            } else {
                orig[j]
            } by {
                lemma_mod_parts(pitch, bpp, j);
            }
        }
    }

    /// Gives pixel `(x, y)` the colour `color`; a pixel outside the
    /// framebuffer leaves the memory unchanged.
    pub fn write_pixel(&self, pixels: &mut [u8], color: Color, x: usize, y: usize)
        requires
            self.fits(old(pixels)@.len()),
            self.masks_valid(),
        ensures
            x >= self.width || y >= self.height ==> final(pixels)@ == old(pixels)@,
            x < self.width && y < self.height ==> final(pixels)@ == self.painted(
                old(pixels)@,
                self.packed(color),
                x as int,
                y as int,
                x + 1,
                y + 1,
            ),
    {
        if x as u64 >= self.width || y as u64 >= self.height {
            return;
        }
        let raw = self.convert_color(color);
        let ghost orig = pixels@;
        proof {
            assert forall|j: int| 0 <= j < orig.len() implies #[trigger] pixels@[j] == if self.drawn_before(
                j,
                x as int,
                y as int,
                x + 1,
                x as int,
                y as int,
                0,
            ) {
                color_byte(raw, (j % (self.pitch as int)) % (self.bpp as int))
            } else {
                orig[j]
            } by {
                lemma_mod_parts(self.pitch as int, self.bpp as int, j);
            }
        }
        self.put_pixel(pixels, raw, x, y, Ghost(x as int), Ghost(y as int), Ghost(x + 1), Ghost(orig));
        proof {
            assert(pixels@ =~= self.painted(orig, raw, x as int, y as int, x + 1, y + 1)) by {
                assert forall|j: int| 0 <= j < orig.len() implies pixels@[j] == self.painted(
                    orig,
                    raw,
                    x as int,
                    y as int,
                    x + 1,
                    y + 1,
                )[j] by {
                    lemma_mod_parts(self.pitch as int, self.bpp as int, j);
                    assert(pixels@[j] == pixels@[j]);
                }
            }
        }
    }

    /// Gives every pixel of the rectangle of `width` by `height` pixels at
    /// `(x_start, y_start)` the colour `color`, clipped to the framebuffer;
    /// a start outside the framebuffer leaves the memory unchanged.
    pub fn fill_rect(
        &self,
        pixels: &mut [u8],
        color: Color,
        x_start: usize,
        y_start: usize,
        width: usize,
        height: usize,
    )
        requires
            self.fits(old(pixels)@.len()),
            self.masks_valid(),
            x_start + width <= usize::MAX,
            y_start + height <= usize::MAX,
        ensures
            x_start >= self.width || y_start >= self.height ==> final(pixels)@ == old(pixels)@,
            x_start < self.width && y_start < self.height ==> final(pixels)@ == self.painted(
                old(pixels)@,
                self.packed(color),
                x_start as int,
                y_start as int,
                clip(x_start + width, self.width as int),
                clip(y_start + height, self.height as int),
            ),
    {
        if x_start as u64 >= self.width || y_start as u64 >= self.height {
            return;
        }
        let len = pixels.len();
        proof {
            lemma_geometry(self, len as int);
        }
        let x_end: usize = if ((x_start + width) as u64) < self.width {
            x_start + width
        } else {
            self.width as usize
        };
        let y_end: usize = if ((y_start + height) as u64) < self.height {
            y_start + height
        } else {
            self.height as usize
        };
        let raw = self.convert_color(color);
        let ghost orig = pixels@;
        let ghost pitch = self.pitch as int;
        let ghost bpp = self.bpp as int;
        let mut y: usize = y_start;
        while y < y_end
            invariant
                self.fits(orig.len()),
                pitch == self.pitch,
                bpp == self.bpp,
                x_start <= x_end <= self.width,
                y_start <= y <= y_end <= self.height,
                pixels@.len() == orig.len(),
                forall|j: int|
                    #![trigger pixels@[j]]
                    0 <= j < orig.len() ==> pixels@[j] == if self.drawn_before(
                        j,
                        x_start as int,
                        y_start as int,
                        x_end as int,
                        x_start as int,
                        y as int,
                        0,
                    ) {
                        color_byte(raw, (j % pitch) % bpp)
                    } else {
                        orig[j]
                    },
            decreases y_end - y,
        {
            let mut x: usize = x_start;
            while x < x_end
                invariant
                    self.fits(orig.len()),
                    pitch == self.pitch,
                    bpp == self.bpp,
                    x_start <= x <= x_end <= self.width,
                    y_start <= y < y_end <= self.height,
                    pixels@.len() == orig.len(),
                    forall|j: int|
                        #![trigger pixels@[j]]
                        0 <= j < orig.len() ==> pixels@[j] == if self.drawn_before(
                            j,
                            x_start as int,
                            y_start as int,
                            x_end as int,
                            x as int,
                            y as int,
                            0,
                        ) {
                            color_byte(raw, (j % pitch) % bpp)
                        } else {
                            orig[j]
                        },
                decreases x_end - x,
            {
                self.put_pixel(
                    pixels,
                    raw,
                    x,
                    y,
                    Ghost(x_start as int),
                    Ghost(y_start as int),
                    Ghost(x_end as int),
                    Ghost(orig),
                );
                x = x + 1;
            }
            proof {
                assert forall|j: int| 0 <= j < orig.len() implies #[trigger] pixels@[j] == if self.drawn_before(
                    j,
                    x_start as int,
                    y_start as int,
                    x_end as int,
                    x_start as int,
                    y + 1,
                    0,
                ) {
                    color_byte(raw, (j % pitch) % bpp)
                } else {
                    orig[j]
                } by {
                    lemma_mod_parts(pitch, bpp, j);
                }
            }
            y = y + 1;
        }
        proof {
            assert(pixels@ =~= self.painted(
                orig,
                raw,
                x_start as int,
                y_start as int,
                x_end as int,
                y_end as int,
            )) by {
                assert forall|j: int| 0 <= j < orig.len() implies pixels@[j] == self.painted(
                    orig,
                    raw,
                    x_start as int,
                    y_start as int,
                    x_end as int,
                    y_end as int,
                )[j] by {
                    lemma_mod_parts(pitch, bpp, j);
                    assert(pixels@[j] == pixels@[j]);
                }
            }
        }
    }
}

/// A framebuffer with a row in it is no larger than its pixel memory.
proof fn lemma_geometry(fb: &Framebuffer, len: int)
    requires
        fb.fits(len as nat),
        fb.height >= 1,
        len >= 0,
    ensures
        fb.pitch <= len,
        fb.width <= fb.pitch,
{
    lemma_mul_inequality(1, fb.height as int, fb.pitch as int);
    lemma_mul_inequality(1, fb.bpp as int, fb.width as int);
    vstd::arithmetic::mul::lemma_mul_is_commutative(fb.bpp as int, fb.width as int);
}

/// `value` capped at `limit`.
pub open spec fn clip(value: int, limit: int) -> int {
    if value < limit {
        value
    } else {
        limit
    }
}

/// The byte at `y * pitch + x * bpp + i` of a pixel memory belongs to byte
/// `i` of pixel `(x, y)`.
pub(crate) proof fn lemma_decompose(pitch: int, bpp: int, x: int, y: int, i: int)
    requires
        bpp >= 1,
        0 <= x,
        0 <= y,
        0 <= i < bpp,
        x * bpp + bpp <= pitch,
    ensures
        (y * pitch + x * bpp + i) / pitch == y,
        (y * pitch + x * bpp + i) % pitch == x * bpp + i,
        (x * bpp + i) / bpp == x,
        (x * bpp + i) % bpp == i,
{
    assert(x * bpp >= 0) by (nonlinear_arith)
        requires
            x >= 0,
            bpp >= 1,
    ;
    lemma_fundamental_div_mod_converse(y * pitch + x * bpp + i, pitch, y, x * bpp + i);
    lemma_fundamental_div_mod_converse(x * bpp + i, bpp, x, i);
}

/// A byte other than `y * pitch + x * bpp + i` does not sit at row `y`,
/// pixel `x`, byte `i`.
proof fn lemma_same_position(pitch: int, bpp: int, j: int, x: int, y: int, i: int)
    requires
        pitch >= 1,
        bpp >= 1,
        0 <= j,
        j != y * pitch + x * bpp + i,
    ensures
        !(j / pitch == y && (j % pitch) / bpp == x && (j % pitch) % bpp == i),
{
    lemma_mod_parts(pitch, bpp, j);
    if j / pitch == y && (j % pitch) / bpp == x && (j % pitch) % bpp == i {
        assert(j == y * pitch + x * bpp + i) by (nonlinear_arith)
            requires
                j == (j / pitch) * pitch + j % pitch,
                j % pitch == ((j % pitch) / bpp) * bpp + (j % pitch) % bpp,
                j / pitch == y,
                (j % pitch) / bpp == x,
                (j % pitch) % bpp == i,
        ;
    }
}

/// The parts that a byte offset splits into: its row, the offset in the row
/// and the pixel and byte within the row.
proof fn lemma_mod_parts(pitch: int, bpp: int, j: int)
    requires
        bpp >= 1,
    ensures
        pitch >= 1 ==> j == (j / pitch) * pitch + j % pitch,
        pitch >= 1 ==> 0 <= j % pitch < pitch,
        pitch >= 1 ==> j % pitch == ((j % pitch) / bpp) * bpp + (j % pitch) % bpp,
        pitch >= 1 ==> 0 <= (j % pitch) % bpp < bpp,
        pitch >= 1 ==> 0 <= (j % pitch) / bpp,
        pitch >= 1 && 0 <= j ==> 0 <= j / pitch,
{
    if pitch >= 1 {
        vstd::arithmetic::div_mod::lemma_fundamental_div_mod(j, pitch);
        vstd::arithmetic::div_mod::lemma_mod_bound(j, pitch);
        vstd::arithmetic::div_mod::lemma_fundamental_div_mod(j % pitch, bpp);
        vstd::arithmetic::mul::lemma_mul_is_commutative(j / pitch, pitch);
        vstd::arithmetic::mul::lemma_mul_is_commutative((j % pitch) / bpp, bpp);
        vstd::arithmetic::div_mod::lemma_mod_bound(j % pitch, bpp);
        vstd::arithmetic::div_mod::lemma_div_pos_is_pos(j % pitch, bpp);
        if 0 <= j {
            vstd::arithmetic::div_mod::lemma_div_pos_is_pos(j, pitch);
        }
    }
}

} // verus!
