//! Properties of pixel encoding and drawing that hold for every input.

use vstd::prelude::*;
use vstd::arithmetic::power2::{pow2, lemma2_to64, lemma_pow2_adds, lemma_pow2_pos, lemma_pow2_strictly_increases};
use vstd::bits::lemma_u32_shl_is_mul;
use vstd::arithmetic::div_mod::{lemma_fundamental_div_mod, lemma_fundamental_div_mod_converse, lemma_mod_pos_bound};
use super::font::{GLYPH_WIDTH, GLYPH_HEIGHT};
use super::{
    Geometry,
    le_byte,
    paint,
    pixel_value,
    scaled_channel,
    channel_bits,
    mask_fits_spec,
    glyph_advance,
    glyph_covers,
    text_covers,
    lemma_paint_union,
    lemma_paint_same_pixels,
    lemma_scaled_channel_bound,
    lemma_pow2_small,
    hello_scale,
    hello_origin,
    hello_message,
    background_rgb,
    foreground_rgb,
    bpp_supported,
    hello_drawable,
    FramebufferInfo,
    FRAMEBUFFER_RGB,
};

verus! {

/// With 8-bit channels at shifts 16, 8 and 0 (the usual 32-bit RGB layout)
/// a color is packed as `0x00RRGGBB`.
pub proof fn lemma_rgb888_packing(red: u8, green: u8, blue: u8)
    ensures
        pixel_value((8, 16), (8, 8), (8, 0), (red, green, blue)) == red as int * 0x10000 + green as int
            * 0x100 + blue as int,
{
    lemma2_to64();
    let r = red as u32;
    let g = green as u32;
    let b = blue as u32;
    assert(channel_bits(red, 8, 16) == (r * 0x10000) as u32);
    assert(channel_bits(green, 8, 8) == (g * 0x100) as u32);
    assert(channel_bits(blue, 8, 0) == b);
    assert(((r * 0x10000) as u32) | ((g * 0x100) as u32) | b == r * 0x10000 + g * 0x100 + b) by (bit_vector)
        requires
            r < 256,
            g < 256,
            b < 256,
    ;
}

/// Rescaling keeps the ends of the range: intensity 0 gives 0 and intensity
/// 255 gives the largest value of the channel.
pub proof fn lemma_channel_extremes(size: u8)
    requires
        1 <= size <= 8,
    ensures
        scaled_channel(0, size) == 0,
        scaled_channel(255, size) == pow2(size as nat) - 1,
{
    lemma2_to64();
    if size < 8 {
        let m = pow2(size as nat) - 1;
        assert((255 * m + 127) / 255 == m) by (nonlinear_arith)
            requires
                m >= 0,
        ;
    }
}

/// Rescaling preserves order: a brighter intensity never gives a smaller
/// channel value.
pub proof fn lemma_channel_monotonic(a: u8, b: u8, size: u8)
    requires
        1 <= size <= 8,
        a <= b,
    ensures
        scaled_channel(a, size) <= scaled_channel(b, size),
{
    if size < 8 {
        lemma_pow2_pos(size as nat);
        let m = pow2(size as nat) - 1;
        assert((a * m + 127) / 255 <= (b * m + 127) / 255) by (nonlinear_arith)
            requires
                a <= b,
                m >= 0,
                a >= 0,
        ;
    }
}

/// A channel's bits lie inside its mask: they are a multiple of
/// `2^shift` below `2^(size + shift)`.
pub proof fn lemma_channel_in_mask(value: u8, size: u8, shift: u8)
    requires
        1 <= size,
        mask_fits_spec(size, shift),
    ensures
        channel_bits(value, size, shift) as int % pow2(shift as nat) as int == 0,
        channel_bits(value, size, shift) < pow2((size + shift) as nat),
{
    lemma2_to64();
    let s = size as nat;
    let t = shift as nat;
    lemma_pow2_adds(s, t);
    lemma_pow2_pos(t);
    let v = scaled_channel(value, size);
    assert(0 <= v < pow2(s)) by {
        if size < 8 {
            let m = pow2(s) - 1;
            lemma_pow2_pos(s);
            assert(0 <= (value * m + 127) / 255 <= m) by (nonlinear_arith)
                requires
                    0 <= value <= 255,
                    0 <= m,
            ;
        }
    }
    assert(v * pow2(t) < pow2(s) * pow2(t)) by (nonlinear_arith)
        requires
            0 <= v < pow2(s),
            pow2(t) > 0,
    ;
    assert(pow2(s + t) <= 0x1_0000_0000) by {
        if s + t < 32 {
            vstd::arithmetic::power2::lemma_pow2_strictly_increases(s + t, 32);
        }
    }
    assert(v * pow2(t) >= 0) by (nonlinear_arith)
        requires
            v >= 0,
            pow2(t) > 0,
    ;
    assert((v * pow2(t)) % (pow2(t) as int) == 0) by (nonlinear_arith)
        requires
            pow2(t) > 0,
    ;
}

/// The four little-endian bytes of a value read back as the value.
pub proof fn lemma_le_bytes_read_back(value: u32)
    ensures
        (le_byte(value, 0) as u32) | ((le_byte(value, 1) as u32) << 8) | ((le_byte(value, 2) as u32) << 16)
            | ((le_byte(value, 3) as u32) << 24) == value,
{
    assert(((value & 0xff) as u8 as u32) | ((((value >> 8) & 0xff) as u8 as u32) << 8) | ((((value >> 16)
        & 0xff) as u8 as u32) << 16) | ((((value >> 24) & 0xff) as u8 as u32) << 24) == value)
        by (bit_vector);
}

/// Painting never touches a byte outside the visible pixels: the padding at
/// the end of each row and the bytes past the last row keep their values.
pub proof fn lemma_paint_keeps_hidden_bytes(
    bytes: Seq<u8>,
    g: Geometry,
    pixels: spec_fn(int, int) -> bool,
    value: u32,
    i: int,
)
    requires
        0 <= i < bytes.len(),
        !g.shows(i),
    ensures
        paint(bytes, g, pixels, value)[i] == bytes[i],
        paint(bytes, g, pixels, value).len() == bytes.len(),
{
}

/// Painting a visible pixel stores the value's low bytes, little-endian, in
/// its bytes; every other byte is left alone.
pub proof fn lemma_paint_pixel_bytes(bytes: Seq<u8>, g: Geometry, x: int, y: int, value: u32, i: int)
    requires
        g.valid(),
        0 <= x < g.width,
        0 <= y < g.height,
        0 <= i < bytes.len(),
    ensures
        g.pixel_offset(x, y) <= i < g.pixel_offset(x, y) + g.bytes_per_pixel ==> paint(
            bytes,
            g,
            |px: int, py: int| px == x && py == y,
            value,
        )[i] == le_byte(value, i - g.pixel_offset(x, y)),
        !(g.pixel_offset(x, y) <= i < g.pixel_offset(x, y) + g.bytes_per_pixel) ==> paint(
            bytes,
            g,
            |px: int, py: int| px == x && py == y,
            value,
        )[i] == bytes[i],
{
    super::lemma_pixel_bytes(g, x, y, i);
}

/// Painting a pixel that lies off the framebuffer changes nothing.
pub proof fn lemma_paint_off_screen(bytes: Seq<u8>, g: Geometry, x: int, y: int, value: u32)
    requires
        x >= g.width || y >= g.height,
    ensures
        paint(bytes, g, |px: int, py: int| px == x && py == y, value) == bytes,
{
    assert(paint(bytes, g, |px: int, py: int| px == x && py == y, value) =~= bytes);
}

/// Painting the same pixels with the same value twice is painting them once.
pub proof fn lemma_paint_idempotent(bytes: Seq<u8>, g: Geometry, pixels: spec_fn(int, int) -> bool, value: u32)
    ensures
        paint(paint(bytes, g, pixels, value), g, pixels, value) == paint(bytes, g, pixels, value),
{
    assert(paint(paint(bytes, g, pixels, value), g, pixels, value) =~= paint(bytes, g, pixels, value));
}

/// Painting every pixel leaves the framebuffer the same whatever it held
/// before, in its visible bytes.
pub proof fn lemma_paint_all_overwrites(a: Seq<u8>, b: Seq<u8>, g: Geometry, value: u32, i: int)
    requires
        0 <= i < a.len(),
        0 <= i < b.len(),
        g.shows(i),
    ensures
        paint(a, g, |px: int, py: int| true, value)[i] == paint(b, g, |px: int, py: int| true, value)[i],
{
}

/// The ink of a glyph lies in its `16 * scale` by `16 * scale` square.
pub proof fn lemma_glyph_in_square(x0: int, y0: int, rows: Seq<u16>, scale: int, px: int, py: int)
    requires
        glyph_covers(x0, y0, rows, scale, px, py),
    ensures
        x0 <= px < x0 + GLYPH_WIDTH * scale,
        y0 <= py < y0 + GLYPH_HEIGHT * scale,
{
    lemma_fundamental_div_mod(px - x0, scale);
    lemma_fundamental_div_mod(py - y0, scale);
    lemma_mod_pos_bound(px - x0, scale);
    lemma_mod_pos_bound(py - y0, scale);
    let qx = (px - x0) / scale;
    let qy = (py - y0) / scale;
    assert(scale * qx + scale <= GLYPH_WIDTH * scale) by (nonlinear_arith)
        requires
            qx < GLYPH_WIDTH,
            scale > 0,
    ;
    assert(scale * qy + scale <= GLYPH_HEIGHT * scale) by (nonlinear_arith)
        requires
            qy < GLYPH_HEIGHT,
            scale > 0,
    ;
}

/// A line of `n` characters drawn from `(x, y)` inks nothing outside the
/// band of `n` glyph cells that starts there: `x <= px < x + n * advance`
/// and `y <= py < y + 16 * scale`. Drawn at scale zero it inks nothing.
pub proof fn lemma_text_in_band(x: int, y: int, text: Seq<char>, scale: int, px: int, py: int)
    requires
        scale >= 0,
        text_covers(x, y, text, scale, px, py),
    ensures
        scale > 0,
        x <= px < x + text.len() * glyph_advance(scale),
        y <= py < y + GLYPH_HEIGHT * scale,
{
    let a = glyph_advance(scale);
    let j = (px - x) / a;
    let rows = super::font::glyph_rows(text[j]).unwrap();
    lemma_glyph_in_square(x + j * a, y, rows, scale, px, py);
    assert(x + j * a + GLYPH_WIDTH * scale <= x + text.len() * a) by (nonlinear_arith)
        requires
            0 <= j < text.len(),
            a == 18 * scale,
            scale > 0,
    ;
}

/// In a well-formed framebuffer every visible pixel's bytes lie within the
/// framebuffer: the offset of `(x, y)` plus the pixel size is at most the
/// length. Every drawing operation keeps the shape and the length, so this
/// holds in every state a writer reaches.
pub proof fn lemma_pixel_in_bounds(g: Geometry, len: int, x: int, y: int)
    requires
        g.valid(),
        g.pitch * g.height <= len,
        0 <= x < g.width,
        0 <= y < g.height,
    ensures
        0 <= g.pixel_offset(x, y),
        g.pixel_offset(x, y) + g.bytes_per_pixel <= len,
{
    let p = g.pitch;
    let b = g.bytes_per_pixel;
    assert((x + 1) * b <= g.width * b) by (nonlinear_arith)
        requires
            x + 1 <= g.width,
            b >= 0,
    ;
    assert((x + 1) * b == x * b + b) by (nonlinear_arith);
    assert((y + 1) * p <= g.height * p) by (nonlinear_arith)
        requires
            y + 1 <= g.height,
            p >= 0,
    ;
    assert((y + 1) * p == y * p + p) by (nonlinear_arith);
    assert(p * g.height == g.height * p) by (nonlinear_arith);
    assert(x * b >= 0 && y * p >= 0) by (nonlinear_arith)
        requires
            x >= 0,
            b >= 0,
            y >= 0,
            p >= 0,
    ;
}

/// Clearing wipes out whatever was painted before it: painting any pixels
/// with any value and then painting every pixel gives the same bytes as
/// painting every pixel alone.
pub proof fn lemma_clear_absorbs(
    bytes: Seq<u8>,
    g: Geometry,
    earlier: spec_fn(int, int) -> bool,
    earlier_value: u32,
    value: u32,
)
    ensures
        paint(paint(bytes, g, earlier, earlier_value), g, |px: int, py: int| true, value) == paint(
            bytes,
            g,
            |px: int, py: int| true,
            value,
        ),
{
    assert(paint(paint(bytes, g, earlier, earlier_value), g, |px: int, py: int| true, value) =~= paint(
        bytes,
        g,
        |px: int, py: int| true,
        value,
    ));
}

/// The ink of a line made of `first` followed by `second` is the ink of
/// `first` drawn from `(x, y)` together with the ink of `second` drawn from
/// where `first` leaves the cursor, `x + first.len() * advance`.
pub proof fn lemma_text_concat(x: int, y: int, first: Seq<char>, second: Seq<char>, scale: int)
    requires
        scale >= 0,
    ensures
        forall|px: int, py: int|
            #[trigger] text_covers(x, y, first + second, scale, px, py) == (text_covers(
                x,
                y,
                first,
                scale,
                px,
                py,
            ) || text_covers(x + first.len() * glyph_advance(scale), y, second, scale, px, py)),
{
    let a = glyph_advance(scale);
    let n = first.len() as int;
    let both = first + second;
    let x2 = x + n * a;
    assert(a >= 18);
    assert(n * a >= 0) by (nonlinear_arith)
        requires
            n >= 0,
            a >= 0,
    ;
    assert forall|px: int, py: int|
        #[trigger] text_covers(x, y, both, scale, px, py) == (text_covers(x, y, first, scale, px, py)
            || text_covers(x2, y, second, scale, px, py)) by {
        if x <= px {
            let j = (px - x) / a;
            lemma_fundamental_div_mod(px - x, a);
            lemma_mod_pos_bound(px - x, a);
            let r = (px - x) % a;
            assert(px - x == j * a + r) by (nonlinear_arith)
                requires
                    px - x == a * j + r,
            ;
            if j >= n {
                assert(px - x2 == (j - n) * a + r) by (nonlinear_arith)
                    requires
                        px - x == j * a + r,
                        x2 == x + n * a,
                ;
                lemma_fundamental_div_mod_converse(px - x2, a, j - n, r);
                assert(x2 + (j - n) * a == x + j * a) by (nonlinear_arith)
                    requires
                        x2 == x + n * a,
                ;
                if j < both.len() {
                    assert(both[j] == second[j - n]);
                }
            } else {
                if j >= 0 {
                    assert(both[j] == first[j]);
                }
                if x2 <= px {
                    assert(j * a >= n * a) by (nonlinear_arith)
                        requires
                            px - x == j * a + r,
                            x2 == x + n * a,
                            x2 <= px,
                            r < a,
                            j < n,
                            a > 0,
                    ;
                    assert(false) by (nonlinear_arith)
                        requires
                            j * a >= n * a,
                            j < n,
                            a > 0,
                    ;
                }
            }
        } else {
            assert(!(x2 <= px));
        }
    }
}

/// Drawing `first` and then `second` from where `first` leaves the cursor,
/// in one color, gives the same bytes as drawing `first + second` at once.
pub proof fn lemma_draw_text_concat(
    bytes: Seq<u8>,
    g: Geometry,
    x: int,
    y: int,
    first: Seq<char>,
    second: Seq<char>,
    scale: int,
    value: u32,
)
    requires
        scale >= 0,
    ensures
        paint(
            paint(bytes, g, |px: int, py: int| text_covers(x, y, first, scale, px, py), value),
            g,
            |px: int, py: int|
                text_covers(x + first.len() * glyph_advance(scale), y, second, scale, px, py),
            value,
        ) == paint(bytes, g, |px: int, py: int| text_covers(x, y, first + second, scale, px, py), value),
{
    let x2 = x + first.len() * glyph_advance(scale);
    let p1 = |px: int, py: int| text_covers(x, y, first, scale, px, py);
    let p2 = |px: int, py: int| text_covers(x2, y, second, scale, px, py);
    lemma_paint_union(bytes, g, p1, p2, value);
    lemma_text_concat(x, y, first, second, scale);
    lemma_paint_same_pixels(
        bytes,
        g,
        |px: int, py: int| p1(px, py) || p2(px, py),
        |px: int, py: int| text_covers(x, y, first + second, scale, px, py),
        value,
    );
}

/// The value held in the mask field of `size` bits at `shift` of the pixel
/// value `v`.
pub open spec fn mask_field(v: u32, size: u8, shift: u8) -> u32 {
    (v >> (shift as u32)) & (((1u32 << (size as u32)) - 1) as u32)
}

/// `true` when two masks, given as `(size, shift)`, share no bit.
pub open spec fn masks_disjoint(a: (u8, u8), b: (u8, u8)) -> bool {
    a.1 + a.0 <= b.1 || b.1 + b.0 <= a.1
}

proof fn lemma_field_of_own(x: u32, size: u32, shift: u32)
    by (bit_vector)
    requires
        1 <= size <= 8,
        size + shift <= 32,
        x < (1u32 << size),
    ensures
        ((x << shift) >> shift) & (((1u32 << size) - 1) as u32) == x,
{
}

proof fn lemma_field_of_other(x: u32, size: u32, shift: u32, size2: u32, shift2: u32)
    by (bit_vector)
    requires
        1 <= size <= 8,
        size + shift <= 32,
        1 <= size2 <= 8,
        size2 + shift2 <= 32,
        x < (1u32 << size),
        shift + size <= shift2 || shift2 + size2 <= shift,
    ensures
        ((x << shift) >> shift2) & (((1u32 << size2) - 1) as u32) == 0,
{
}

proof fn lemma_field_of_or(a: u32, b: u32, c: u32, shift: u32, m: u32)
    by (bit_vector)
    ensures
        ((a | b | c) >> shift) & m == (((a >> shift) & m) | ((b >> shift) & m) | ((c >> shift) & m)),
{
}

/// A non-empty channel's bits are its rescaled intensity shifted up to its
/// mask, and the intensity fits in the mask.
proof fn lemma_channel_bits_shifted(value: u8, size: u8, shift: u8)
    requires
        1 <= size,
        mask_fits_spec(size, shift),
    ensures
        0 <= scaled_channel(value, size),
        scaled_channel(value, size) < (1u32 << (size as u32)),
        channel_bits(value, size, shift) == (scaled_channel(value, size) as u32) << (shift as u32),
{
    lemma2_to64();
    lemma_pow2_small(size);
    lemma_scaled_channel_bound(value, size);
    lemma_u32_shl_is_mul(1, size as u32);
    let v = scaled_channel(value, size);
    let s = size as nat;
    let t = shift as nat;
    lemma_pow2_adds(s, t);
    lemma_pow2_pos(t);
    assert(pow2(s + t) <= 0x1_0000_0000) by {
        if s + t < 32 {
            lemma_pow2_strictly_increases(s + t, 32);
        }
    }
    assert(v * pow2(t) <= u32::MAX) by (nonlinear_arith)
        requires
            0 <= v < pow2(s),
            pow2(s + t) == pow2(s) * pow2(t),
            pow2(s + t) <= 0x1_0000_0000,
            0 < pow2(t),
    ;
    lemma_u32_shl_is_mul(v as u32, shift as u32);
}

/// Each channel lands in its own mask: when the three masks are non-empty
/// and pairwise disjoint, the field of each mask in the encoded pixel holds
/// exactly that channel's rescaled intensity. With 8-bit channels the
/// fields hold the color's own components, wherever the masks are.
pub proof fn lemma_channels_read_back(red: (u8, u8), green: (u8, u8), blue: (u8, u8), color: (u8, u8, u8))
    requires
        1 <= red.0 && mask_fits_spec(red.0, red.1),
        1 <= green.0 && mask_fits_spec(green.0, green.1),
        1 <= blue.0 && mask_fits_spec(blue.0, blue.1),
        masks_disjoint(red, green),
        masks_disjoint(red, blue),
        masks_disjoint(green, blue),
    ensures
        mask_field(pixel_value(red, green, blue, color), red.0, red.1) == scaled_channel(color.0, red.0),
        mask_field(pixel_value(red, green, blue, color), green.0, green.1) == scaled_channel(color.1, green.0),
        mask_field(pixel_value(red, green, blue, color), blue.0, blue.1) == scaled_channel(color.2, blue.0),
        red.0 == 8 ==> mask_field(pixel_value(red, green, blue, color), red.0, red.1) == color.0,
        green.0 == 8 ==> mask_field(pixel_value(red, green, blue, color), green.0, green.1) == color.1,
        blue.0 == 8 ==> mask_field(pixel_value(red, green, blue, color), blue.0, blue.1) == color.2,
{
    lemma_channel_bits_shifted(color.0, red.0, red.1);
    lemma_channel_bits_shifted(color.1, green.0, green.1);
    lemma_channel_bits_shifted(color.2, blue.0, blue.1);
    let r = scaled_channel(color.0, red.0) as u32;
    let g = scaled_channel(color.1, green.0) as u32;
    let b = scaled_channel(color.2, blue.0) as u32;
    let (rz, rs) = (red.0 as u32, red.1 as u32);
    let (gz, gs) = (green.0 as u32, green.1 as u32);
    let (bz, bs) = (blue.0 as u32, blue.1 as u32);
    let v = pixel_value(red, green, blue, color);
    assert(v == (r << rs) | (g << gs) | (b << bs));
    lemma_field_of_or(r << rs, g << gs, b << bs, rs, ((1u32 << rz) - 1) as u32);
    lemma_field_of_own(r, rz, rs);
    lemma_field_of_other(g, gz, gs, rz, rs);
    lemma_field_of_other(b, bz, bs, rz, rs);
    lemma_field_of_or(r << rs, g << gs, b << bs, gs, ((1u32 << gz) - 1) as u32);
    lemma_field_of_own(g, gz, gs);
    lemma_field_of_other(r, rz, rs, gz, gs);
    lemma_field_of_other(b, bz, bs, gz, gs);
    lemma_field_of_or(r << rs, g << gs, b << bs, bs, ((1u32 << bz) - 1) as u32);
    lemma_field_of_own(b, bz, bs);
    lemma_field_of_other(r, rz, rs, bz, bs);
    lemma_field_of_other(g, gz, gs, bz, bs);
    assert(r | 0u32 | 0u32 == r && 0u32 | g | 0u32 == g && 0u32 | 0u32 | b == b) by (bit_vector);
}

/// Rescaling rounds to the nearest value: the rescaled intensity `s` of an
/// 8-bit intensity `v` on a channel with largest value `m = 2^size - 1` is
/// within half a step of `v * m / 255`, that is `|255 * s - v * m| <= 127`.
pub proof fn lemma_channel_rounds_to_nearest(value: u8, size: u8)
    requires
        1 <= size <= 8,
    ensures
        -127 <= 255 * scaled_channel(value, size) - value * (pow2(size as nat) - 1) <= 127,
{
    lemma2_to64();
    if size < 8 {
        let m = pow2(size as nat) - 1;
        let n = value * m + 127;
        let q = n / 255;
        assert(255 * q <= n && n < 255 * q + 255) by (nonlinear_arith)
            requires
                q == n / 255,
                n >= 0,
        ;
    }
}

/// The greeting's layout: its scale is 4 on screens of at least 640 by 360,
/// else 2 on screens of at least 320 by 180, else 1; at that scale the line
/// of five glyphs is `88 * scale` pixels wide and `16 * scale` high, and it
/// is centered on each axis where it fits (the two margins differ by at
/// most one pixel) and starts at the edge where it does not. It is drawn
/// in `(0xf4, 0xf7, 0xfb)` over `(0x08, 0x0a, 0x0d)`.
pub proof fn lemma_hello_layout(width: int, height: int)
    requires
        width >= 0,
        height >= 0,
    ensures
        hello_message().len() == 5,
        width >= 640 && height >= 360 ==> hello_scale(width, height) == 4,
        !(width >= 640 && height >= 360) && width >= 320 && height >= 180 ==> hello_scale(width, height) == 2,
        !(width >= 320 && height >= 180) ==> hello_scale(width, height) == 1,
        ({
            let s = hello_scale(width, height);
            let (x, y) = hello_origin(width, height);
            &&& width >= 88 * s ==> x == (width - 88 * s) / 2 && 0 <= (width - 88 * s - x) - x <= 1
            &&& width < 88 * s ==> x == 0
            &&& height >= 16 * s ==> y == (height - 16 * s) / 2 && 0 <= (height - 16 * s - y) - y <= 1
            &&& height < 16 * s ==> y == 0
        }),
        background_rgb() == (0x08u8, 0x0au8, 0x0du8),
        foreground_rgb() == (0xf4u8, 0xf7u8, 0xfbu8),
{
    let s = hello_scale(width, height);
    assert(s == 1 || s == 2 || s == 4);
    assert(super::line_width(5, s) == 88 * s) by (nonlinear_arith)
        requires
            s == 1 || s == 2 || s == 4,
    ;
}

/// The formats the writer accepts: 8, 16, 24 or 32 bits per pixel, and
/// channel masks that are empty or one to eight bits wide ending at or
/// below bit 32.
pub proof fn lemma_accepted_formats(bpp: u16, size: u8, shift: u8)
    ensures
        bpp_supported(bpp) <==> (bpp == 8 || bpp == 16 || bpp == 24 || bpp == 32),
        mask_fits_spec(size, shift) <==> (size == 0 || (1 <= size <= 8 && shift + size <= 32)),
{
}

/// The greeting is drawn only on framebuffers whose memory model is RGB
/// (Limine's code 1) and whose pixels are a whole number of bytes, one to
/// four.
pub proof fn lemma_hello_needs_rgb(framebuffer: FramebufferInfo, len: int)
    ensures
        FRAMEBUFFER_RGB == 1,
        hello_drawable(framebuffer, len) ==> framebuffer.memory_model == 1,
        hello_drawable(framebuffer, len) ==> (framebuffer.bpp == 8 || framebuffer.bpp == 16 || framebuffer.bpp
            == 24 || framebuffer.bpp == 32),
{
}

} // verus!
