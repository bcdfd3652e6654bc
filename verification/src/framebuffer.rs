//! Pixel formats and a framebuffer writer for linear RGB framebuffers.

pub mod font;
pub mod glyph_laws;
pub mod laws;

use vstd::prelude::*;
use self::font::{GLYPH_WIDTH, GLYPH_HEIGHT, GLYPH_SPACING, Glyph, ink, glyph_rows, glyph_for};
use vstd::arithmetic::power2::{pow2, lemma2_to64, lemma_pow2_adds, lemma_pow2_pos, lemma_pow2_strictly_increases};
use vstd::bits::lemma_u32_shl_is_mul;
use vstd::arithmetic::div_mod::{lemma_fundamental_div_mod, lemma_fundamental_div_mod_converse, lemma_mod_pos_bound, lemma_div_pos_is_pos};

verus! {

/// A color given by its 8-bit red, green and blue intensities.
#[derive(Clone, Copy, Debug, PartialEq, Eq, Structural)]
pub struct Color {
    red: u8,
    green: u8,
    blue: u8,
}

impl View for Color {
    type V = (u8, u8, u8);

    closed spec fn view(&self) -> (u8, u8, u8) {
        (self.red, self.green, self.blue)
    }
}

impl Color {
    /// Colors with the same components are the same color.
    pub proof fn lemma_view_determines(a: Color, b: Color)
        requires
            a@ == b@,
        ensures
            a == b,
    {
    }

    /// Builds a color from its red, green and blue intensities.
    pub fn rgb(red: u8, green: u8, blue: u8) -> (c: Self)
        ensures
            c@ == (red, green, blue),
    {
        Self { red, green, blue }
    }
}

/// `true` when a framebuffer with `bpp` bits per pixel can be written:
/// a whole number of bytes, between one and four.
pub open spec fn bpp_supported(bpp: u16) -> bool {
    bpp % 8 == 0 && bpp != 0 && bpp <= 32
}

/// `true` when a channel mask of `size` bits shifted left by `shift` is at
/// most eight bits wide and, unless empty, lies within a 32-bit pixel.
pub open spec fn mask_fits_spec(size: u8, shift: u8) -> bool {
    size <= 8 && (size == 0 || size + shift <= 32)
}

/// An 8-bit intensity rescaled, with rounding, to a channel of `size` bits
/// (`1 <= size <= 8`): `value * (2^size - 1) / 255`, rounded to nearest.
pub open spec fn scaled_channel(value: u8, size: u8) -> int {
    if size == 8 {
        value as int
    } else {
        (value * (pow2(size as nat) - 1) + 127) / 255
    }
}

/// The bits that one channel contributes to an encoded pixel: the rescaled
/// intensity placed `shift` bits up, or nothing for an empty mask.
pub open spec fn channel_bits(value: u8, size: u8, shift: u8) -> u32 {
    if size == 0 {
        0
    } else {
        (scaled_channel(value, size) * pow2(shift as nat)) as u32
    }
}

/// The pixel value of `color` for channel masks given as `(size, shift)`:
/// the bitwise or of the three channels' bits.
pub open spec fn pixel_value(red: (u8, u8), green: (u8, u8), blue: (u8, u8), color: (u8, u8, u8)) -> u32 {
    channel_bits(color.0, red.0, red.1) | channel_bits(color.1, green.0, green.1) | channel_bits(
        color.2,
        blue.0,
        blue.1,
    )
}

/// The layout of one pixel in a linear framebuffer: its width in bits and,
/// for each color channel, the size and position of the channel's mask.
#[derive(Clone, Copy, Debug, PartialEq, Eq, Structural)]
pub struct PixelFormat {
    bpp: u16,
    red_mask_size: u8,
    red_mask_shift: u8,
    green_mask_size: u8,
    green_mask_shift: u8,
    blue_mask_size: u8,
    blue_mask_shift: u8,
}

impl PixelFormat {
    #[verifier::type_invariant]
    spec fn inv(self) -> bool {
        &&& bpp_supported(self.bpp)
        &&& mask_fits_spec(self.red_mask_size, self.red_mask_shift)
        &&& mask_fits_spec(self.green_mask_size, self.green_mask_shift)
        &&& mask_fits_spec(self.blue_mask_size, self.blue_mask_shift)
    }

    /// Formats with the same bits per pixel and masks are the same format.
    pub proof fn lemma_layout_determines(a: PixelFormat, b: PixelFormat)
        requires
            a.bits_per_pixel() == b.bits_per_pixel(),
            a.red_mask() == b.red_mask(),
            a.green_mask() == b.green_mask(),
            a.blue_mask() == b.blue_mask(),
        ensures
            a == b,
    {
    }

    /// Bits per pixel.
    pub closed spec fn bits_per_pixel(self) -> u16 {
        self.bpp
    }

    /// `(size, shift)` of the red mask.
    pub closed spec fn red_mask(self) -> (u8, u8) {
        (self.red_mask_size, self.red_mask_shift)
    }

    /// `(size, shift)` of the green mask.
    pub closed spec fn green_mask(self) -> (u8, u8) {
        (self.green_mask_size, self.green_mask_shift)
    }

    /// `(size, shift)` of the blue mask.
    pub closed spec fn blue_mask(self) -> (u8, u8) {
        (self.blue_mask_size, self.blue_mask_shift)
    }

    /// What every pixel format satisfies.
    pub open spec fn valid(self) -> bool {
        &&& bpp_supported(self.bits_per_pixel())
        &&& mask_fits_spec(self.red_mask().0, self.red_mask().1)
        &&& mask_fits_spec(self.green_mask().0, self.green_mask().1)
        &&& mask_fits_spec(self.blue_mask().0, self.blue_mask().1)
    }

    /// Number of bytes one pixel takes.
    pub open spec fn pixel_bytes(self) -> int {
        self.bits_per_pixel() as int / 8
    }

    /// The 32-bit value that encodes `color` in this format.
    pub open spec fn encoding(self, color: (u8, u8, u8)) -> u32 {
        pixel_value(self.red_mask(), self.green_mask(), self.blue_mask(), color)
    }

    /// Builds the format, or `None` when `bpp` is not a whole number of bytes
    /// between one and four, or a channel mask does not fit.
    pub fn new(
        bpp: u16,
        red_mask_size: u8,
        red_mask_shift: u8,
        green_mask_size: u8,
        green_mask_shift: u8,
        blue_mask_size: u8,
        blue_mask_shift: u8,
    ) -> (r: Option<Self>)
        ensures
            r is Some <==> (bpp_supported(bpp)
                && mask_fits_spec(red_mask_size, red_mask_shift)
                && mask_fits_spec(green_mask_size, green_mask_shift)
                && mask_fits_spec(blue_mask_size, blue_mask_shift)),
            r matches Some(f) ==> {
                &&& f.bits_per_pixel() == bpp
                &&& f.red_mask() == (red_mask_size, red_mask_shift)
                &&& f.green_mask() == (green_mask_size, green_mask_shift)
                &&& f.blue_mask() == (blue_mask_size, blue_mask_shift)
            },
    {
        if bpp % 8 != 0 || bpp == 0 || bpp > 32 {
            return None;
        }
        if !mask_fits(red_mask_size, red_mask_shift) || !mask_fits(green_mask_size, green_mask_shift)
            || !mask_fits(blue_mask_size, blue_mask_shift) {
            return None;
        }
        Some(
            Self {
                bpp,
                red_mask_size,
                red_mask_shift,
                green_mask_size,
                green_mask_shift,
                blue_mask_size,
                blue_mask_shift,
            },
        )
    }

    /// Number of bytes one pixel takes: one to four.
    pub fn bytes_per_pixel(self) -> (n: usize)
        ensures
            n == self.pixel_bytes(),
            1 <= n <= 4,
    {
        proof {
            use_type_invariant(self);
        }
        (self.bpp / 8) as usize
    }

    /// Encodes `color` as a pixel value of this format.
    pub fn encode(self, color: Color) -> (v: u32)
        ensures
            v == self.encoding(color@),
    {
        proof {
            use_type_invariant(self);
        }
        encode_channel(color.red, self.red_mask_size, self.red_mask_shift) | encode_channel(
            color.green,
            self.green_mask_size,
            self.green_mask_shift,
        ) | encode_channel(color.blue, self.blue_mask_size, self.blue_mask_shift)
    }
}

fn mask_fits(size: u8, shift: u8) -> (r: bool)
    ensures
        r == mask_fits_spec(size, shift),
{
    size <= 8 && (size == 0 || (size as u16 + shift as u16) <= 32)
}

proof fn lemma_pow2_small(size: u8)
    requires
        1 <= size <= 8,
    ensures
        2 <= pow2(size as nat) <= 256,
        size < 8 ==> pow2(size as nat) <= 128,
{
    lemma2_to64();
    if size < 7 {
        lemma_pow2_strictly_increases(size as nat, 7);
    }
    if size < 8 {
        lemma_pow2_strictly_increases(size as nat, 8);
    }
    if size > 1 {
        lemma_pow2_strictly_increases(1, size as nat);
    }
}

/// The rescaled intensity is at most the channel's largest value.
proof fn lemma_scaled_channel_bound(value: u8, size: u8)
    requires
        1 <= size <= 8,
    ensures
        0 <= scaled_channel(value, size) < pow2(size as nat),
{
    lemma_pow2_small(size);
    lemma2_to64();
    if size < 8 {
        let m = pow2(size as nat) - 1;
        assert((value * m + 127) / 255 <= m) by (nonlinear_arith)
            requires
                0 <= value <= 255,
                0 <= m,
        ;
        assert(0 <= (value * m + 127) / 255) by (nonlinear_arith)
            requires
                0 <= value,
                0 <= m,
        ;
    }
}

fn encode_channel(value: u8, mask_size: u8, mask_shift: u8) -> (v: u32)
    requires
        mask_fits_spec(mask_size, mask_shift),
    ensures
        v == channel_bits(value, mask_size, mask_shift),
{
    if mask_size == 0 {
        return 0;
    }
    proof {
        lemma_pow2_small(mask_size);
        lemma_u32_shl_is_mul(1, mask_size as u32);
        lemma_scaled_channel_bound(value, mask_size);
    }
    let max = (1u32 << mask_size as u32) - 1;
    let scaled = if mask_size == 8 {
        value as u32
    } else {
        assert(value * max + 127 <= 255 * 127 + 127) by (nonlinear_arith)
            requires
                value <= 255,
                max <= 127,
        ;
        ((value as u32 * max) + 127) / 255
    };
    assert(scaled == scaled_channel(value, mask_size));
    let masked = scaled & max;
    assert(masked == scaled) by (bit_vector)
        requires
            scaled <= max,
            max == (1u32 << mask_size as u32) - 1,
            1 <= mask_size <= 8,
            masked == scaled & max,
    ;
    proof {
        let s = mask_size as nat;
        let t = mask_shift as nat;
        lemma2_to64();
        lemma_pow2_adds(s, t);
        lemma_pow2_pos(t);
        assert(pow2(s + t) <= pow2(32)) by {
            if s + t < 32 {
                lemma_pow2_strictly_increases(s + t, 32);
            }
        }
        assert(masked * pow2(t) <= u32::MAX) by (nonlinear_arith)
            requires
                masked < pow2(s),
                pow2(s + t) == pow2(s) * pow2(t),
                pow2(s + t) <= pow2(32),
                pow2(32) == 0x1_0000_0000,
                0 < pow2(t),
        ;
        lemma_u32_shl_is_mul(masked, mask_shift as u32);
    }
    masked << mask_shift as u32
}


/// The Limine memory-model code of an RGB framebuffer.
pub const FRAMEBUFFER_RGB: u8 = 1;

/// What the drawing code reads of a framebuffer that the bootloader
/// describes: its size in pixels, the distance between rows in bytes, its
/// memory model and its pixel layout.
pub struct FramebufferInfo {
    pub width: u64,
    pub height: u64,
    pub pitch: u64,
    pub bpp: u16,
    pub memory_model: u8,
    pub red_mask_size: u8,
    pub red_mask_shift: u8,
    pub green_mask_size: u8,
    pub green_mask_shift: u8,
    pub blue_mask_size: u8,
    pub blue_mask_shift: u8,
}

/// `true` when `PixelFormat::new` accepts these parameters.
pub open spec fn format_accepted(
    bpp: u16,
    red_mask_size: u8,
    red_mask_shift: u8,
    green_mask_size: u8,
    green_mask_shift: u8,
    blue_mask_size: u8,
    blue_mask_shift: u8,
) -> bool {
    &&& bpp_supported(bpp)
    &&& mask_fits_spec(red_mask_size, red_mask_shift)
    &&& mask_fits_spec(green_mask_size, green_mask_shift)
    &&& mask_fits_spec(blue_mask_size, blue_mask_shift)
}

impl PixelFormat {
    /// `true` when this format has exactly the given parameters.
    pub open spec fn has_layout(
        self,
        bpp: u16,
        red_mask_size: u8,
        red_mask_shift: u8,
        green_mask_size: u8,
        green_mask_shift: u8,
        blue_mask_size: u8,
        blue_mask_shift: u8,
    ) -> bool {
        &&& self.bits_per_pixel() == bpp
        &&& self.red_mask() == (red_mask_size, red_mask_shift)
        &&& self.green_mask() == (green_mask_size, green_mask_shift)
        &&& self.blue_mask() == (blue_mask_size, blue_mask_shift)
    }

    /// The pixel format that a framebuffer description announces, or `None`
    /// where `PixelFormat::new` refuses it.
    pub fn from_limine(framebuffer: &FramebufferInfo) -> (r: Option<Self>)
        ensures
            r is Some <==> format_accepted(
                framebuffer.bpp,
                framebuffer.red_mask_size,
                framebuffer.red_mask_shift,
                framebuffer.green_mask_size,
                framebuffer.green_mask_shift,
                framebuffer.blue_mask_size,
                framebuffer.blue_mask_shift,
            ),
            r matches Some(f) ==> f.has_layout(
                framebuffer.bpp,
                framebuffer.red_mask_size,
                framebuffer.red_mask_shift,
                framebuffer.green_mask_size,
                framebuffer.green_mask_shift,
                framebuffer.blue_mask_size,
                framebuffer.blue_mask_shift,
            ),
    {
        Self::new(
            framebuffer.bpp,
            framebuffer.red_mask_size,
            framebuffer.red_mask_shift,
            framebuffer.green_mask_size,
            framebuffer.green_mask_shift,
            framebuffer.blue_mask_size,
            framebuffer.blue_mask_shift,
        )
    }
}

/// The shape of a framebuffer in memory: `width` by `height` pixels of
/// `bytes_per_pixel` bytes each, rows `pitch` bytes apart.
pub struct Geometry {
    pub width: int,
    pub height: int,
    pub pitch: int,
    pub bytes_per_pixel: int,
}

impl Geometry {
    /// Pixels are one to four bytes and a row of pixels fits in the pitch.
    pub open spec fn valid(self) -> bool {
        &&& 1 <= self.bytes_per_pixel <= 4
        &&& 0 <= self.width
        &&& 0 <= self.height
        &&& self.width * self.bytes_per_pixel <= self.pitch
    }

    /// Index of the first byte of pixel `(x, y)`.
    pub open spec fn pixel_offset(self, x: int, y: int) -> int {
        y * self.pitch + x * self.bytes_per_pixel
    }

    /// The row that byte `i` lies in.
    pub open spec fn row_of(self, i: int) -> int {
        i / self.pitch
    }

    /// The pixel column that byte `i` lies in.
    pub open spec fn column_of(self, i: int) -> int {
        (i % self.pitch) / self.bytes_per_pixel
    }

    /// The position of byte `i` within its pixel.
    pub open spec fn lane_of(self, i: int) -> int {
        (i % self.pitch) % self.bytes_per_pixel
    }

    /// `true` when byte `i` belongs to a visible pixel (not to the padding at
    /// the end of a row, nor past the last row).
    pub open spec fn shows(self, i: int) -> bool {
        &&& self.pitch > 0
        &&& self.bytes_per_pixel > 0
        &&& 0 <= i
        &&& self.row_of(i) < self.height
        &&& self.column_of(i) < self.width
    }
}

/// Byte `lane` (0 to 3) of `value` in little-endian order.
pub open spec fn le_byte(value: u32, lane: int) -> u8 {
    if lane == 0 {
        (value & 0xff) as u8
    } else if lane == 1 {
        ((value >> 8) & 0xff) as u8
    } else if lane == 2 {
        ((value >> 16) & 0xff) as u8
    } else {
        ((value >> 24) & 0xff) as u8
    }
}

/// `bytes` after every visible pixel `(x, y)` with `pixels(x, y)` has been set
/// to `value`, stored little-endian in its first `bytes_per_pixel` bytes.
pub open spec fn paint(bytes: Seq<u8>, g: Geometry, pixels: spec_fn(int, int) -> bool, value: u32) -> Seq<u8> {
    Seq::new(
        bytes.len(),
        |i: int|
            if g.shows(i) && pixels(g.column_of(i), g.row_of(i)) {
                le_byte(value, g.lane_of(i))
            } else {
                bytes[i]
            },
    )
}

/// The bytes of a visible pixel are exactly the `bytes_per_pixel` bytes that
/// start at its offset.
pub proof fn lemma_pixel_bytes(g: Geometry, x: int, y: int, i: int)
    requires
        g.valid(),
        0 <= x < g.width,
        0 <= y < g.height,
        0 <= i,
    ensures
        (g.shows(i) && g.column_of(i) == x && g.row_of(i) == y) <==> (g.pixel_offset(x, y) <= i
            < g.pixel_offset(x, y) + g.bytes_per_pixel),
        g.pixel_offset(x, y) <= i < g.pixel_offset(x, y) + g.bytes_per_pixel ==> g.lane_of(i) == i
            - g.pixel_offset(x, y),
{
    let p = g.pitch;
    let b = g.bytes_per_pixel;
    let w = g.width;
    assert((x + 1) * b <= w * b) by (nonlinear_arith)
        requires
            x + 1 <= w,
            b >= 0,
    ;
    assert((x + 1) * b == x * b + b) by (nonlinear_arith);
    assert(x * b >= 0) by (nonlinear_arith)
        requires
            x >= 0,
            b >= 0,
    ;
    assert(p > 0);
    let o = y * p + x * b;
    assert(o == g.pixel_offset(x, y));
    if o <= i < o + b {
        let r = i - y * p;
        lemma_fundamental_div_mod_converse(i, p, y, r);
        lemma_fundamental_div_mod_converse(r, b, x, i - o);
    }
    if g.shows(i) && g.column_of(i) == x && g.row_of(i) == y {
        lemma_fundamental_div_mod(i, p);
        lemma_fundamental_div_mod(i % p, b);
        lemma_mod_pos_bound(i, p);
        lemma_mod_pos_bound(i % p, b);
        assert(p * y == y * p) by (nonlinear_arith);
        assert(b * x == x * b) by (nonlinear_arith);
    }
}

/// Painting one set of pixels and then another with the same value is
/// painting their union.
pub proof fn lemma_paint_union(
    bytes: Seq<u8>,
    g: Geometry,
    first: spec_fn(int, int) -> bool,
    second: spec_fn(int, int) -> bool,
    value: u32,
)
    ensures
        paint(paint(bytes, g, first, value), g, second, value) == paint(
            bytes,
            g,
            |x: int, y: int| first(x, y) || second(x, y),
            value,
        ),
{
    assert(paint(paint(bytes, g, first, value), g, second, value) =~= paint(
        bytes,
        g,
        |x: int, y: int| first(x, y) || second(x, y),
        value,
    ));
}

/// Painting depends only on which visible pixels are chosen.
pub proof fn lemma_paint_same_pixels(
    bytes: Seq<u8>,
    g: Geometry,
    first: spec_fn(int, int) -> bool,
    second: spec_fn(int, int) -> bool,
    value: u32,
)
    requires
        forall|x: int, y: int|
            #![trigger first(x, y)]
            #![trigger second(x, y)]
            0 <= x < g.width && 0 <= y < g.height ==> first(x, y) == second(x, y),
    ensures
        paint(bytes, g, first, value) == paint(bytes, g, second, value),
{
    assert forall|i: int| g.shows(i) implies 0 <= #[trigger] g.column_of(i) && 0 <= g.row_of(i) by {
        lemma_div_pos_is_pos(i, g.pitch);
        lemma_mod_pos_bound(i, g.pitch);
        lemma_div_pos_is_pos(i % g.pitch, g.bytes_per_pixel);
    }
    assert(paint(bytes, g, first, value) =~= paint(bytes, g, second, value));
}

/// `true` when pixel `(px, py)` is inked by the glyph with `rows` drawn with
/// its top left corner at `(x0, y0)`, every glyph pixel widened to a `scale`
/// by `scale` square.
pub open spec fn glyph_covers(x0: int, y0: int, rows: Seq<u16>, scale: int, px: int, py: int) -> bool {
    &&& scale > 0
    &&& x0 <= px
    &&& y0 <= py
    &&& (px - x0) / scale < GLYPH_WIDTH
    &&& (py - y0) / scale < GLYPH_HEIGHT
    &&& ink(rows[(py - y0) / scale], (px - x0) / scale)
}

/// Lexicographic order on (glyph row, glyph column, row in square, column in
/// square): the order in which a glyph's pixels are drawn.
spec fn drawn_before(a: (int, int, int, int), b: (int, int, int, int)) -> bool {
    ||| a.0 < b.0
    ||| a.0 == b.0 && a.1 < b.1
    ||| a.0 == b.0 && a.1 == b.1 && a.2 < b.2
    ||| a.0 == b.0 && a.1 == b.1 && a.2 == b.2 && a.3 < b.3
}

/// Where pixel `(px, py)` of a glyph drawn at `(x0, y0)` lies: glyph row,
/// glyph column, row in square, column in square.
spec fn glyph_position(x0: int, y0: int, scale: int, px: int, py: int) -> (int, int, int, int) {
    ((py - y0) / scale, (px - x0) / scale, (py - y0) % scale, (px - x0) % scale)
}

/// The pixels of the glyph that come before position `upto` in drawing order.
spec fn glyph_drawn(
    x0: int,
    y0: int,
    rows: Seq<u16>,
    scale: int,
    upto: (int, int, int, int),
) -> spec_fn(int, int) -> bool {
    |px: int, py: int|
        glyph_covers(x0, y0, rows, scale, px, py) && drawn_before(
            glyph_position(x0, y0, scale, px, py),
            upto,
        )
}

/// Splits an offset from a glyph's corner into a glyph cell and a position
/// in that cell's square, and back.
proof fn lemma_cell_split(origin: int, scale: int, p: int)
    requires
        scale > 0,
        origin <= p,
    ensures
        p == origin + ((p - origin) / scale) * scale + (p - origin) % scale,
        0 <= (p - origin) / scale,
        0 <= (p - origin) % scale < scale,
{
    lemma_fundamental_div_mod(p - origin, scale);
    lemma_div_pos_is_pos(p - origin, scale);
    lemma_mod_pos_bound(p - origin, scale);
    assert(scale * ((p - origin) / scale) == ((p - origin) / scale) * scale) by (nonlinear_arith);
}

proof fn lemma_cell_join(origin: int, scale: int, cell: int, offset: int)
    requires
        scale > 0,
        0 <= cell,
        0 <= offset < scale,
    ensures
        origin <= origin + cell * scale + offset,
        (origin + cell * scale + offset - origin) / scale == cell,
        (origin + cell * scale + offset - origin) % scale == offset,
{
    assert(cell * scale >= 0) by (nonlinear_arith)
        requires
            cell >= 0,
            scale > 0,
    ;
    lemma_fundamental_div_mod_converse(cell * scale + offset, scale, cell, offset);
}

/// Two drawing positions that order the glyph's pixels alike select the same
/// pixels.
proof fn lemma_glyph_drawn_same(
    x0: int,
    y0: int,
    rows: Seq<u16>,
    scale: int,
    a: (int, int, int, int),
    b: (int, int, int, int),
)
    requires
        scale > 0,
        forall|gy: int, gx: int, dy: int, dx: int|
            0 <= gy < GLYPH_HEIGHT && 0 <= gx < GLYPH_WIDTH && 0 <= dy < scale && 0 <= dx < scale
                ==> #[trigger] drawn_before((gy, gx, dy, dx), a) == drawn_before((gy, gx, dy, dx), b),
    ensures
        forall|px: int, py: int|
            #[trigger] glyph_drawn(x0, y0, rows, scale, a)(px, py) == glyph_drawn(x0, y0, rows, scale, b)(
                px,
                py,
            ),
{
    assert forall|px: int, py: int|
        #[trigger] glyph_drawn(x0, y0, rows, scale, a)(px, py) == glyph_drawn(x0, y0, rows, scale, b)(
            px,
            py,
        ) by {
        if glyph_covers(x0, y0, rows, scale, px, py) {
            lemma_cell_split(x0, scale, px);
            lemma_cell_split(y0, scale, py);
            let d = glyph_position(x0, y0, scale, px, py);
            assert(drawn_before((d.0, d.1, d.2, d.3), a) == drawn_before((d.0, d.1, d.2, d.3), b));
        }
    }
}

/// Drawing the pixel at position `at` extends the drawn pixels to the next
/// position in the square.
proof fn lemma_glyph_drawn_step(
    x0: int,
    y0: int,
    rows: Seq<u16>,
    scale: int,
    at: (int, int, int, int),
)
    requires
        scale > 0,
        0 <= at.0 < GLYPH_HEIGHT,
        0 <= at.1 < GLYPH_WIDTH,
        0 <= at.2 < scale,
        0 <= at.3 < scale,
        ink(rows[at.0], at.1),
    ensures
        forall|px: int, py: int|
            #[trigger] glyph_drawn(x0, y0, rows, scale, (at.0, at.1, at.2, at.3 + 1))(px, py) == (
            glyph_drawn(x0, y0, rows, scale, at)(px, py) || (px == x0 + at.1 * scale + at.3 && py == y0
                + at.0 * scale + at.2)),
{
    let x = x0 + at.1 * scale + at.3;
    let y = y0 + at.0 * scale + at.2;
    lemma_cell_join(x0, scale, at.1, at.3);
    lemma_cell_join(y0, scale, at.0, at.2);
    assert forall|px: int, py: int|
        #[trigger] glyph_drawn(x0, y0, rows, scale, (at.0, at.1, at.2, at.3 + 1))(px, py) == (
        glyph_drawn(x0, y0, rows, scale, at)(px, py) || (px == x && py == y)) by {
        if glyph_covers(x0, y0, rows, scale, px, py) {
            lemma_cell_split(x0, scale, px);
            lemma_cell_split(y0, scale, py);
        }
    }
}

/// Horizontal distance between the left edges of two consecutive glyphs of
/// a line of text drawn at `scale` (a scale of zero advances as one).
pub open spec fn glyph_advance(scale: int) -> int {
    (GLYPH_WIDTH + GLYPH_SPACING) * (if scale == 0 {
        1
    } else {
        scale
    })
}

/// `true` when pixel `(px, py)` is inked by one of the first `count`
/// characters of `text` drawn as a line from `(x, y)` at `scale`: the glyph
/// of character `j` has its top left corner at `(x + j * advance, y)`, and
/// characters the font lacks are left blank.
pub open spec fn text_covers_first(
    x: int,
    y: int,
    text: Seq<char>,
    scale: int,
    count: int,
    px: int,
    py: int,
) -> bool {
    let advance = glyph_advance(scale);
    let j = (px - x) / advance;
    &&& x <= px
    &&& 0 <= j < count
    &&& j < text.len()
    &&& glyph_rows(text[j]) is Some
    &&& glyph_covers(x + j * advance, y, glyph_rows(text[j]).unwrap(), scale, px, py)
}

/// `true` when pixel `(px, py)` is inked by `text` drawn as a line from
/// `(x, y)` at `scale`.
pub open spec fn text_covers(x: int, y: int, text: Seq<char>, scale: int, px: int, py: int) -> bool {
    text_covers_first(x, y, text, scale, text.len() as int, px, py)
}

/// Drawing character `i` of a line adds exactly its glyph's pixels.
proof fn lemma_text_step(x: int, y: int, text: Seq<char>, scale: int, i: int)
    requires
        0 <= i < text.len(),
        scale >= 0,
    ensures
        forall|px: int, py: int|
            #[trigger] text_covers_first(x, y, text, scale, i + 1, px, py) == (text_covers_first(
                x,
                y,
                text,
                scale,
                i,
                px,
                py,
            ) || (glyph_rows(text[i]) is Some && glyph_covers(
                x + i * glyph_advance(scale),
                y,
                glyph_rows(text[i]).unwrap(),
                scale,
                px,
                py,
            ))),
{
    let a = glyph_advance(scale);
    assert(a >= 18);
    assert forall|px: int, py: int|
        #[trigger] text_covers_first(x, y, text, scale, i + 1, px, py) == (text_covers_first(
            x,
            y,
            text,
            scale,
            i,
            px,
            py,
        ) || (glyph_rows(text[i]) is Some && glyph_covers(
            x + i * a,
            y,
            glyph_rows(text[i]).unwrap(),
            scale,
            px,
            py,
        ))) by {
        if glyph_rows(text[i]) is Some && glyph_covers(x + i * a, y, glyph_rows(text[i]).unwrap(), scale, px, py) {
            lemma_cell_split(x + i * a, scale, px);
            let q = (px - (x + i * a)) / scale;
            let r = (px - (x + i * a)) % scale;
            assert(q * scale + r < a) by (nonlinear_arith)
                requires
                    0 <= q < 16,
                    0 <= r < scale,
                    a == 18 * scale,
            ;
            assert(i * a >= 0) by (nonlinear_arith)
                requires
                    i >= 0,
                    a >= 0,
            ;
            lemma_fundamental_div_mod_converse(px - x, a, i, q * scale + r);
        }
    }
}

/// A writer that draws pixels into a framebuffer held as bytes.
pub struct FramebufferWriter<'a> {
    bytes: &'a mut [u8],
    width: usize,
    height: usize,
    pitch: usize,
    format: PixelFormat,
}

impl<'a> FramebufferWriter<'a> {
    #[verifier::type_invariant]
    spec fn inv(self) -> bool {
        &&& self.format.valid()
        &&& self.width * self.format.pixel_bytes() <= self.pitch
        &&& self.pitch * self.height <= self.bytes@.len()
    }

    /// The framebuffer's bytes.
    pub closed spec fn contents(&self) -> Seq<u8> {
        self.bytes@
    }

    /// The framebuffer's shape.
    pub closed spec fn geometry(&self) -> Geometry {
        Geometry {
            width: self.width as int,
            height: self.height as int,
            pitch: self.pitch as int,
            bytes_per_pixel: self.format.pixel_bytes(),
        }
    }

    /// The borrowed bytes. `into_bytes` hands them back to the caller; what
    /// they hold once the caller's borrow ends is `final(w.buffer())`.
    pub closed spec fn buffer(&self) -> &'a mut [u8] {
        self.bytes
    }

    /// The layout of its pixels.
    pub closed spec fn pixel_format(&self) -> PixelFormat {
        self.format
    }

    /// What holds of every writer: its shape is valid and its rows lie
    /// within its bytes.
    pub open spec fn well_formed(&self) -> bool {
        &&& self.geometry().valid()
        &&& self.geometry().pitch * self.geometry().height <= self.contents().len()
        &&& self.geometry().bytes_per_pixel == self.pixel_format().pixel_bytes()
    }

    /// Wraps `bytes` as a `width` by `height` framebuffer with rows `pitch`
    /// bytes apart, or `None` when a row of pixels does not fit in the pitch
    /// or the rows do not fit in `bytes`.
    pub fn new(bytes: &'a mut [u8], width: usize, height: usize, pitch: usize, format: PixelFormat) -> (r:
        Option<Self>)
        ensures
            r is Some <==> (width * format.pixel_bytes() <= pitch && pitch * height <= old(bytes)@.len()),
            r matches Some(w) ==> {
                &&& w.contents() == old(bytes)@
                &&& w.geometry() == Geometry {
                    width: width as int,
                    height: height as int,
                    pitch: pitch as int,
                    bytes_per_pixel: format.pixel_bytes(),
                }
                &&& w.pixel_format() == format
                &&& w.well_formed()
                &&& final(w.buffer())@ == final(bytes)@
            },
            r is None ==> final(bytes)@ == old(bytes)@,
    {
        proof {
            use_type_invariant(format);
        }
        let len = bytes.len();
        let bytes_per_pixel = format.bytes_per_pixel();
        let visible_row_bytes = width.checked_mul(bytes_per_pixel)?;
        let framebuffer_bytes = pitch.checked_mul(height)?;
        if pitch < visible_row_bytes || len < framebuffer_bytes {
            return None;
        }
        Some(Self { bytes, width, height, pitch, format })
    }

    /// Ends the writer and hands back its bytes, which hold what the writer
    /// drew.
    pub fn into_bytes(self) -> (bytes: &'a mut [u8])
        ensures
            bytes@ == self.contents(),
            final(bytes)@ == final(self.buffer())@,
    {
        let FramebufferWriter { bytes, .. } = self;
        bytes
    }

    /// Sets pixel `(x, y)` to `color`; does nothing when the pixel lies
    /// outside the framebuffer.
    pub fn put_pixel(&mut self, x: usize, y: usize, color: Color)
        ensures
            final(self).geometry() == old(self).geometry(),
            final(self).well_formed(),
            final(self).pixel_format() == old(self).pixel_format(),
            final(final(self).buffer())@ == final(old(self).buffer())@,
            final(self).contents() == paint(
                old(self).contents(),
                old(self).geometry(),
                |px: int, py: int| px == x && py == y,
                old(self).pixel_format().encoding(color@),
            ),
    {
        proof {
            use_type_invariant(&*self);
        }
        let ghost g = self.geometry();
        let ghost old_bytes = self.bytes@;
        let ghost target = |px: int, py: int| px == x && py == y;
        if x >= self.width || y >= self.height {
            assert(paint(old_bytes, g, target, self.format.encoding(color@)) =~= old_bytes);
            return;
        }
        let len = self.bytes.len();
        let bytes_per_pixel = self.format.bytes_per_pixel();
        proof {
            let b = bytes_per_pixel as int;
            assert((x + 1) * b <= self.width * b) by (nonlinear_arith)
                requires
                    x + 1 <= self.width,
                    b >= 0,
            ;
            assert((x + 1) * b == x * b + b) by (nonlinear_arith);
            assert((y + 1) * self.pitch <= self.height * self.pitch) by (nonlinear_arith)
                requires
                    y + 1 <= self.height,
                    self.pitch >= 0,
            ;
            assert((y + 1) * self.pitch == y * self.pitch + self.pitch) by (nonlinear_arith);
            assert(self.pitch * self.height == self.height * self.pitch) by (nonlinear_arith);
            assert(x * b >= 0 && y * self.pitch >= 0) by (nonlinear_arith)
                requires
                    x >= 0,
                    b >= 0,
                    y >= 0,
                    self.pitch >= 0,
            ;
        }
        let offset = y * self.pitch + x * bytes_per_pixel;
        let value = self.format.encode(color);
        let encoded: [u8; 4] = [
            (value & 0xff) as u8,
            ((value >> 8) & 0xff) as u8,
            ((value >> 16) & 0xff) as u8,
            ((value >> 24) & 0xff) as u8,
        ];
        let mut k: usize = 0;
        while k < bytes_per_pixel
            invariant
                k <= bytes_per_pixel <= 4,
                bytes_per_pixel == g.bytes_per_pixel,
                offset == g.pixel_offset(x as int, y as int),
                offset + bytes_per_pixel <= len,
                len == old_bytes.len(),
                g == self.geometry(),
                self.format.valid(),
                self.width * self.format.pixel_bytes() <= self.pitch,
                self.pitch * self.height <= len,
                self.format == old(self).format,
                final(self.buffer())@ == final(old(self).buffer())@,
                encoded@ == seq![le_byte(value, 0), le_byte(value, 1), le_byte(value, 2), le_byte(value, 3)],
                self.bytes@ == Seq::new(
                    old_bytes.len(),
                    |i: int|
                        if offset <= i < offset + k {
                            le_byte(value, i - offset)
                        } else {
                            old_bytes[i]
                        },
                ),
            decreases bytes_per_pixel - k,
        {
            self.bytes[offset + k] = encoded[k];
            k = k + 1;
        }
        proof {
            assert forall|i: int| 0 <= i < old_bytes.len() implies #[trigger] self.bytes@[i] == paint(
                old_bytes,
                g,
                target,
                value,
            )[i] by {
                lemma_pixel_bytes(g, x as int, y as int, i);
            }
            assert(self.bytes@ =~= paint(old_bytes, g, target, value));
        }
    }

    /// Sets every pixel of the framebuffer to `color`.
    pub fn clear(&mut self, color: Color)
        ensures
            final(self).geometry() == old(self).geometry(),
            final(self).well_formed(),
            final(self).pixel_format() == old(self).pixel_format(),
            final(final(self).buffer())@ == final(old(self).buffer())@,
            final(self).contents() == paint(
                old(self).contents(),
                old(self).geometry(),
                |px: int, py: int| true,
                old(self).pixel_format().encoding(color@),
            ),
    {
        let ghost g = self.geometry();
        let ghost start = self.contents();
        let ghost value = self.format.encoding(color@);
        let height = self.height;
        let width = self.width;
        assert(paint(start, g, |px: int, py: int| py < 0, value) =~= start);
        for y in 0..height
            invariant
                height == g.height,
                width == g.width,
                self.geometry() == g,
                self.pixel_format() == old(self).pixel_format(),
                value == self.pixel_format().encoding(color@),
                final(self.buffer())@ == final(old(self).buffer())@,
                self.contents() == paint(start, g, |px: int, py: int| py < y, value),
        {
            assert(paint(start, g, |px: int, py: int| py < y || (py == y && px < 0), value) == paint(
                start,
                g,
                |px: int, py: int| py < y,
                value,
            )) by {
                lemma_paint_same_pixels(
                    start,
                    g,
                    |px: int, py: int| py < y || (py == y && px < 0),
                    |px: int, py: int| py < y,
                    value,
                );
            }
            for x in 0..width
                invariant
                    height == g.height,
                    width == g.width,
                    y < height,
                    self.geometry() == g,
                    self.pixel_format() == old(self).pixel_format(),
                    value == self.pixel_format().encoding(color@),
                    final(self.buffer())@ == final(old(self).buffer())@,
                    self.contents() == paint(start, g, |px: int, py: int| py < y || (py == y && px < x), value),
            {
                self.put_pixel(x, y, color);
                proof {
                    let before = |px: int, py: int| py < y || (py == y && px < x);
                    let here = |px: int, py: int| px == x && py == y;
                    lemma_paint_union(start, g, before, here, value);
                    lemma_paint_same_pixels(
                        start,
                        g,
                        |px: int, py: int| before(px, py) || here(px, py),
                        |px: int, py: int| py < y || (py == y && px < x + 1),
                        value,
                    );
                }
            }
            proof {
                lemma_paint_same_pixels(
                    start,
                    g,
                    |px: int, py: int| py < y || (py == y && px < width),
                    |px: int, py: int| py < y + 1,
                    value,
                );
            }
        }
        proof {
            lemma_paint_same_pixels(start, g, |px: int, py: int| py < height, |px: int, py: int| true, value);
            use_type_invariant(&*self);
        }
    }

    /// Draws the inked pixels of `glyph` in `color`, with its top left corner
    /// at `(x, y)`, each glyph pixel widened to a `scale` by `scale` square;
    /// a scale of zero draws nothing.
    fn draw_glyph(&mut self, x: usize, y: usize, glyph: &Glyph, color: Color, scale: usize)
        requires
            x + GLYPH_WIDTH * scale <= usize::MAX,
            y + GLYPH_HEIGHT * scale <= usize::MAX,
        ensures
            final(self).geometry() == old(self).geometry(),
            final(self).well_formed(),
            final(self).pixel_format() == old(self).pixel_format(),
            final(final(self).buffer())@ == final(old(self).buffer())@,
            final(self).contents() == paint(
                old(self).contents(),
                old(self).geometry(),
                |px: int, py: int| glyph_covers(x as int, y as int, glyph.rows@, scale as int, px, py),
                old(self).pixel_format().encoding(color@),
            ),
    {
        let ghost g = self.geometry();
        let ghost start = self.contents();
        let ghost value = self.format.encoding(color@);
        let ghost rows = glyph.rows@;
        let ghost sc = scale as int;
        if scale == 0 {
            assert(paint(
                start,
                g,
                |px: int, py: int| glyph_covers(x as int, y as int, rows, sc, px, py),
                value,
            ) =~= start);
            proof {
                use_type_invariant(&*self);
            }
            return;
        }
        proof {
            lemma_glyph_drawn_same(x as int, y as int, rows, sc, (0, 0, 0, 0), (0, 0, 0, 0));
            assert forall|px: int, py: int| !#[trigger] glyph_drawn(x as int, y as int, rows, sc, (0, 0, 0, 0))(px, py) by {
                if glyph_covers(x as int, y as int, rows, sc, px, py) {
                    lemma_cell_split(x as int, sc, px);
                    lemma_cell_split(y as int, sc, py);
                }
            }
            assert(paint(start, g, glyph_drawn(x as int, y as int, rows, sc, (0, 0, 0, 0)), value) =~= start);
        }
        for glyph_y in 0..GLYPH_HEIGHT
            invariant
                scale > 0,
                sc == scale,
                rows == glyph.rows@,
                x + GLYPH_WIDTH * scale <= usize::MAX,
                y + GLYPH_HEIGHT * scale <= usize::MAX,
                self.geometry() == g,
                self.pixel_format() == old(self).pixel_format(),
                value == self.pixel_format().encoding(color@),
                final(self.buffer())@ == final(old(self).buffer())@,
                self.contents() == paint(start, g, glyph_drawn(x as int, y as int, rows, sc, (glyph_y as int, 0, 0, 0)), value),
        {
            let row = glyph.rows[glyph_y];
            for glyph_x in 0..GLYPH_WIDTH
                invariant
                    scale > 0,
                    sc == scale,
                    glyph_y < GLYPH_HEIGHT,
                    rows == glyph.rows@,
                    row == rows[glyph_y as int],
                    x + GLYPH_WIDTH * scale <= usize::MAX,
                    y + GLYPH_HEIGHT * scale <= usize::MAX,
                    self.geometry() == g,
                    self.pixel_format() == old(self).pixel_format(),
                    value == self.pixel_format().encoding(color@),
                    final(self.buffer())@ == final(old(self).buffer())@,
                    self.contents() == paint(
                        start,
                        g,
                        glyph_drawn(x as int, y as int, rows, sc, (glyph_y as int, glyph_x as int, 0, 0)),
                        value,
                    ),
            {
                let mask = 1u16 << (GLYPH_WIDTH - 1 - glyph_x);
                if row & mask != 0 {
                    assert(ink(rows[glyph_y as int], glyph_x as int));
                    proof {
                        assert(glyph_x * scale <= 15 * scale && glyph_y * scale <= 15 * scale) by (nonlinear_arith)
                            requires
                                glyph_x <= 15,
                                glyph_y <= 15,
                                scale > 0,
                        ;
                    }
                    let pixel_x = x + glyph_x * scale;
                    let pixel_y = y + glyph_y * scale;
                    for dy in 0..scale
                        invariant
                            scale > 0,
                            sc == scale,
                            glyph_y < GLYPH_HEIGHT,
                            glyph_x < GLYPH_WIDTH,
                            rows == glyph.rows@,
                            ink(rows[glyph_y as int], glyph_x as int),
                            pixel_x == x + glyph_x * scale,
                            pixel_y == y + glyph_y * scale,
                            pixel_x + scale <= x + GLYPH_WIDTH * scale,
                            pixel_y + scale <= y + GLYPH_HEIGHT * scale,
                            x + GLYPH_WIDTH * scale <= usize::MAX,
                            y + GLYPH_HEIGHT * scale <= usize::MAX,
                            self.geometry() == g,
                            self.pixel_format() == old(self).pixel_format(),
                            value == self.pixel_format().encoding(color@),
                            final(self.buffer())@ == final(old(self).buffer())@,
                            self.contents() == paint(
                                start,
                                g,
                                glyph_drawn(x as int, y as int, rows, sc, (glyph_y as int, glyph_x as int, dy as int, 0)),
                                value,
                            ),
                    {
                        for dx in 0..scale
                            invariant
                                scale > 0,
                                sc == scale,
                                dy < scale,
                                glyph_y < GLYPH_HEIGHT,
                                glyph_x < GLYPH_WIDTH,
                                rows == glyph.rows@,
                                ink(rows[glyph_y as int], glyph_x as int),
                                pixel_x == x + glyph_x * scale,
                                pixel_y == y + glyph_y * scale,
                                pixel_x + scale <= x + GLYPH_WIDTH * scale,
                                pixel_y + scale <= y + GLYPH_HEIGHT * scale,
                                x + GLYPH_WIDTH * scale <= usize::MAX,
                                y + GLYPH_HEIGHT * scale <= usize::MAX,
                                self.geometry() == g,
                                self.pixel_format() == old(self).pixel_format(),
                                value == self.pixel_format().encoding(color@),
                                final(self.buffer())@ == final(old(self).buffer())@,
                                self.contents() == paint(
                                    start,
                                    g,
                                    glyph_drawn(
                                        x as int,
                                        y as int,
                                        rows,
                                        sc,
                                        (glyph_y as int, glyph_x as int, dy as int, dx as int),
                                    ),
                                    value,
                                ),
                        {
                            self.put_pixel(pixel_x + dx, pixel_y + dy, color);
                            proof {
                                let at = (glyph_y as int, glyph_x as int, dy as int, dx as int);
                                let before = glyph_drawn(x as int, y as int, rows, sc, at);
                                let px0 = (pixel_x + dx) as int;
                                let py0 = (pixel_y + dy) as int;
                                let here = |px: int, py: int| px == px0 && py == py0;
                                lemma_paint_union(start, g, before, here, value);
                                lemma_glyph_drawn_step(x as int, y as int, rows, sc, at);
                                lemma_paint_same_pixels(
                                    start,
                                    g,
                                    |px: int, py: int| before(px, py) || here(px, py),
                                    glyph_drawn(x as int, y as int, rows, sc, (at.0, at.1, at.2, at.3 + 1)),
                                    value,
                                );
                            }
                        }
                        proof {
                            lemma_glyph_drawn_same(
                                x as int,
                                y as int,
                                rows,
                                sc,
                                (glyph_y as int, glyph_x as int, dy as int, sc),
                                (glyph_y as int, glyph_x as int, dy + 1, 0),
                            );
                            lemma_paint_same_pixels(
                                start,
                                g,
                                glyph_drawn(x as int, y as int, rows, sc, (glyph_y as int, glyph_x as int, dy as int, sc)),
                                glyph_drawn(x as int, y as int, rows, sc, (glyph_y as int, glyph_x as int, dy + 1, 0)),
                                value,
                            );
                        }
                    }
                    proof {
                        lemma_glyph_drawn_same(
                            x as int,
                            y as int,
                            rows,
                            sc,
                            (glyph_y as int, glyph_x as int, sc, 0),
                            (glyph_y as int, glyph_x + 1, 0, 0),
                        );
                        lemma_paint_same_pixels(
                            start,
                            g,
                            glyph_drawn(x as int, y as int, rows, sc, (glyph_y as int, glyph_x as int, sc, 0)),
                            glyph_drawn(x as int, y as int, rows, sc, (glyph_y as int, glyph_x + 1, 0, 0)),
                            value,
                        );
                    }
                } else {
                    proof {
                        assert(!ink(rows[glyph_y as int], glyph_x as int));
                        let a = (glyph_y as int, glyph_x as int, 0int, 0int);
                        let b = (glyph_y as int, glyph_x + 1, 0int, 0int);
                        assert forall|px: int, py: int|
                            #[trigger] glyph_drawn(x as int, y as int, rows, sc, a)(px, py)
                                == glyph_drawn(x as int, y as int, rows, sc, b)(px, py) by {
                            if glyph_covers(x as int, y as int, rows, sc, px, py) {
                                lemma_cell_split(x as int, sc, px);
                                lemma_cell_split(y as int, sc, py);
                            }
                        }
                        lemma_paint_same_pixels(
                            start,
                            g,
                            glyph_drawn(x as int, y as int, rows, sc, a),
                            glyph_drawn(x as int, y as int, rows, sc, b),
                            value,
                        );
                    }
                }
            }
            proof {
                lemma_glyph_drawn_same(
                    x as int,
                    y as int,
                    rows,
                    sc,
                    (glyph_y as int, GLYPH_WIDTH as int, 0, 0),
                    (glyph_y + 1, 0, 0, 0),
                );
                lemma_paint_same_pixels(
                    start,
                    g,
                    glyph_drawn(x as int, y as int, rows, sc, (glyph_y as int, GLYPH_WIDTH as int, 0, 0)),
                    glyph_drawn(x as int, y as int, rows, sc, (glyph_y + 1, 0, 0, 0)),
                    value,
                );
            }
        }
        proof {
            assert forall|px: int, py: int|
                #[trigger] glyph_drawn(x as int, y as int, rows, sc, (GLYPH_HEIGHT as int, 0, 0, 0))(px, py)
                    == glyph_covers(x as int, y as int, rows, sc, px, py) by {
                if glyph_covers(x as int, y as int, rows, sc, px, py) {
                    lemma_cell_split(x as int, sc, px);
                    lemma_cell_split(y as int, sc, py);
                }
            }
            lemma_paint_same_pixels(
                start,
                g,
                glyph_drawn(x as int, y as int, rows, sc, (GLYPH_HEIGHT as int, 0, 0, 0)),
                |px: int, py: int| glyph_covers(x as int, y as int, rows, sc, px, py),
                value,
            );
            use_type_invariant(&*self);
        }
    }
}
/// Draws `text` as one line of glyphs in `color` from `(x, y)`, each glyph
/// pixel widened to a `scale` by `scale` square; consecutive glyphs start
/// `(GLYPH_WIDTH + GLYPH_SPACING) * max(scale, 1)` pixels apart, and
/// characters without a glyph leave their cell blank.
pub fn draw_text(writer: &mut FramebufferWriter<'_>, x: usize, y: usize, text: &str, color: Color, scale: usize)
    requires
        glyph_advance(scale as int) <= usize::MAX,
        x + text@.len() * glyph_advance(scale as int) <= usize::MAX,
        (exists|j: int| 0 <= j < text@.len() && #[trigger] glyph_rows(text@[j]) is Some) ==> y
            + GLYPH_HEIGHT * scale <= usize::MAX,
    ensures
        final(writer).geometry() == old(writer).geometry(),
        final(writer).well_formed(),
        final(writer).pixel_format() == old(writer).pixel_format(),
        final(final(writer).buffer())@ == final(old(writer).buffer())@,
        final(writer).contents() == paint(
            old(writer).contents(),
            old(writer).geometry(),
            |px: int, py: int| text_covers(x as int, y as int, text@, scale as int, px, py),
            old(writer).pixel_format().encoding(color@),
        ),
{
    proof {
        use_type_invariant(&*writer);
    }
    let ghost g = writer.geometry();
    let ghost start = writer.contents();
    let ghost value = writer.pixel_format().encoding(color@);
    let ghost chars = text@;
    let ghost sc = scale as int;
    let mut cursor_x = x;
    let advance = (GLYPH_WIDTH + GLYPH_SPACING) * scale.max(1);
    assert(advance == glyph_advance(sc));
    assert(paint(start, g, |px: int, py: int| text_covers_first(x as int, y as int, chars, sc, 0, px, py), value) =~= start);
    for character in it: text.chars()
        invariant
            it.seq() == chars,
            advance == glyph_advance(sc),
            sc == scale,
            x + chars.len() * advance <= usize::MAX,
            (exists|j: int| 0 <= j < chars.len() && #[trigger] glyph_rows(chars[j]) is Some) ==> y
                + GLYPH_HEIGHT * scale <= usize::MAX,
            cursor_x == x + it.index() * advance,
            writer.geometry() == g,
            writer.pixel_format() == old(writer).pixel_format(),
            value == writer.pixel_format().encoding(color@),
            writer.well_formed(),
            final(writer.buffer())@ == final(old(writer).buffer())@,
            writer.contents() == paint(
                start,
                g,
                |px: int, py: int| text_covers_first(x as int, y as int, chars, sc, it.index(), px, py),
                value,
            ),
    {
        let ghost i = it.index();
        proof {
            lemma_text_step(x as int, y as int, chars, sc, i);
            assert(cursor_x + advance <= x + chars.len() * advance) by (nonlinear_arith)
                requires
                    cursor_x == x + i * advance,
                    0 <= i < chars.len(),
                    advance >= 0,
            ;
        }
        if let Some(glyph) = glyph_for(character) {
            assert(glyph_rows(chars[i]) is Some);
            writer.draw_glyph(cursor_x, y, &glyph, color, scale);
            proof {
                let before = |px: int, py: int| text_covers_first(x as int, y as int, chars, sc, i, px, py);
                let here = |px: int, py: int| glyph_covers(cursor_x as int, y as int, glyph.rows@, sc, px, py);
                lemma_paint_union(start, g, before, here, value);
                lemma_paint_same_pixels(
                    start,
                    g,
                    |px: int, py: int| before(px, py) || here(px, py),
                    |px: int, py: int| text_covers_first(x as int, y as int, chars, sc, i + 1, px, py),
                    value,
                );
            }
        } else {
            proof {
                lemma_paint_same_pixels(
                    start,
                    g,
                    |px: int, py: int| text_covers_first(x as int, y as int, chars, sc, i, px, py),
                    |px: int, py: int| text_covers_first(x as int, y as int, chars, sc, i + 1, px, py),
                    value,
                );
            }
        }
        assert(x + (i + 1) * advance == cursor_x + advance) by (nonlinear_arith)
            requires
                cursor_x == x + i * advance,
        ;
        cursor_x += advance;
    }
}

/// The greeting: "hello, world" in Chinese.
const MESSAGE: &'static str = "你好，世界";

/// The characters of the greeting.
pub open spec fn hello_message() -> Seq<char> {
    seq!['你', '好', '，', '世', '界']
}

/// The color the greeting clears the screen to.
pub open spec fn background_rgb() -> (u8, u8, u8) {
    (0x08, 0x0a, 0x0d)
}

/// The color the greeting is written in.
pub open spec fn foreground_rgb() -> (u8, u8, u8) {
    (0xf4, 0xf7, 0xfb)
}

fn background() -> (c: Color)
    ensures
        c@ == background_rgb(),
{
    Color::rgb(0x08, 0x0a, 0x0d)
}

fn foreground() -> (c: Color)
    ensures
        c@ == foreground_rgb(),
{
    Color::rgb(0xf4, 0xf7, 0xfb)
}

/// The scale of the greeting on a `width` by `height` screen: 4 from
/// 640 by 360 up, 2 from 320 by 180 up, else 1.
pub open spec fn hello_scale(width: int, height: int) -> int {
    if width >= 640 && height >= 360 {
        4
    } else if width >= 320 && height >= 180 {
        2
    } else {
        1
    }
}

/// Width in pixels of a line of `count` glyphs at `scale`, without the
/// spacing after the last one.
pub open spec fn line_width(count: int, scale: int) -> int {
    count * GLYPH_WIDTH * scale + (count - 1) * GLYPH_SPACING * scale
}

/// Top left corner of the greeting: centered, or at the left or top edge
/// where the screen is too small for it.
pub open spec fn hello_origin(width: int, height: int) -> (int, int) {
    let scale = hello_scale(width, height);
    let text_width = line_width(hello_message().len() as int, scale);
    let text_height = GLYPH_HEIGHT * scale;
    (
        (if width >= text_width { width - text_width } else { 0 }) / 2,
        (if height >= text_height { height - text_height } else { 0 }) / 2,
    )
}

/// `bytes` after the greeting has been drawn: every visible pixel set to
/// `background`, then the greeting's glyphs drawn in `foreground`.
pub open spec fn hello_image(bytes: Seq<u8>, g: Geometry, background: u32, foreground: u32) -> Seq<u8> {
    let origin = hello_origin(g.width, g.height);
    paint(
        paint(bytes, g, |px: int, py: int| true, background),
        g,
        |px: int, py: int|
            text_covers(origin.0, origin.1, hello_message(), hello_scale(g.width, g.height), px, py),
        foreground,
    )
}

/// Clears the framebuffer to the background color and draws the greeting
/// centered on it, as large as the screen allows.
pub fn draw_hello_world(writer: &mut FramebufferWriter<'_>)
    ensures
        final(writer).geometry() == old(writer).geometry(),
        final(writer).well_formed(),
        final(writer).pixel_format() == old(writer).pixel_format(),
        final(final(writer).buffer())@ == final(old(writer).buffer())@,
        final(writer).contents() == hello_image(
            old(writer).contents(),
            old(writer).geometry(),
            old(writer).pixel_format().encoding(background_rgb()),
            old(writer).pixel_format().encoding(foreground_rgb()),
        ),
{
    proof {
        use_type_invariant(&*writer);
        reveal_strlit("你好，世界");
    }
    writer.clear(background());
    let scale: usize = if writer.width >= 640 && writer.height >= 360 {
        4
    } else if writer.width >= 320 && writer.height >= 180 {
        2
    } else {
        1
    };
    let glyph_count = MESSAGE.unicode_len();
    assert(MESSAGE@ == hello_message());
    let text_width = glyph_count * GLYPH_WIDTH * scale + (glyph_count - 1) * GLYPH_SPACING * scale;
    let text_height = GLYPH_HEIGHT * scale;
    let x = writer.width.saturating_sub(text_width) / 2;
    let y = writer.height.saturating_sub(text_height) / 2;
    draw_text(writer, x, y, MESSAGE, foreground(), scale);
}

/// `true` when a framebuffer that the bootloader describes as `framebuffer`,
/// whose memory is `len` bytes long, gets the greeting: it is an RGB
/// framebuffer, its pixel format is accepted and a writer can be made for it.
pub open spec fn hello_drawable(framebuffer: FramebufferInfo, len: int) -> bool {
    let bpp = framebuffer.bpp;
    &&& framebuffer.memory_model == FRAMEBUFFER_RGB
    &&& format_accepted(
        bpp,
        framebuffer.red_mask_size,
        framebuffer.red_mask_shift,
        framebuffer.green_mask_size,
        framebuffer.green_mask_shift,
        framebuffer.blue_mask_size,
        framebuffer.blue_mask_shift,
    )
    &&& (framebuffer.width as usize) * (bpp / 8) <= framebuffer.pitch as usize
    &&& (framebuffer.pitch as usize) * (framebuffer.height as usize) <= len
}

/// The shape of the framebuffer that `framebuffer` describes, its sizes
/// taken as `usize`.
pub open spec fn described_geometry(framebuffer: FramebufferInfo) -> Geometry {
    Geometry {
        width: (framebuffer.width as usize) as int,
        height: (framebuffer.height as usize) as int,
        pitch: (framebuffer.pitch as usize) as int,
        bytes_per_pixel: framebuffer.bpp as int / 8,
    }
}

/// The pixel value of `color` in the format that `framebuffer` describes.
pub open spec fn described_value(framebuffer: FramebufferInfo, color: (u8, u8, u8)) -> u32 {
    pixel_value(
        (framebuffer.red_mask_size, framebuffer.red_mask_shift),
        (framebuffer.green_mask_size, framebuffer.green_mask_shift),
        (framebuffer.blue_mask_size, framebuffer.blue_mask_shift),
        color,
    )
}

/// Draws the greeting into the framebuffer that `framebuffer` describes and
/// whose memory is `bytes`; leaves it untouched when it is not an RGB
/// framebuffer, its pixel format is refused or its rows do not fit.
pub fn draw_hello_world_to_framebuffer(framebuffer: &FramebufferInfo, bytes: &mut [u8])
    ensures
        hello_drawable(*framebuffer, old(bytes)@.len() as int) ==> final(bytes)@ == hello_image(
            old(bytes)@,
            described_geometry(*framebuffer),
            described_value(*framebuffer, background_rgb()),
            described_value(*framebuffer, foreground_rgb()),
        ),
        !hello_drawable(*framebuffer, old(bytes)@.len() as int) ==> final(bytes)@ == old(bytes)@,
{
    if framebuffer.memory_model != FRAMEBUFFER_RGB {
        return;
    }
    let format = match PixelFormat::from_limine(framebuffer) {
        Some(format) => format,
        None => return,
    };
    let width = framebuffer.width as usize;
    let height = framebuffer.height as usize;
    let pitch = framebuffer.pitch as usize;
    if let Some(mut writer) = FramebufferWriter::new(bytes, width, height, pitch, format) {
        draw_hello_world(&mut writer);
    }
}

} // verus!
