//! What the glyphs of the built-in font look like, stated pixel by pixel.

use vstd::prelude::*;
use super::{text_covers, glyph_advance};
use super::font::{glyph_rows, ink, GLYPH_WIDTH, GLYPH_HEIGHT, GLYPH_SPACING};
use super::glyph_covers;
use vstd::arithmetic::div_mod::{lemma_fundamental_div_mod_converse, lemma_fundamental_div_mod, lemma_mod_pos_bound, lemma_div_pos_is_pos};

verus! {

/// The look of the font: `true` when column `px` of row `py` (both counted
/// from 0 at the top left) of the glyph for `c` holds ink. Characters
/// without a glyph hold no ink.
pub open spec fn glyph_pixel(c: char, px: int, py: int) -> bool {
    if c == '你' {
        if py == 0 {
            px == 3 || px == 9
        } else if py == 1 {
            px == 3 || px == 9
        } else if py == 2 {
            px == 2 || 8 <= px <= 13
        } else if py == 3 {
            px == 2 || 5 <= px <= 6 || px == 9 || px == 13
        } else if py == 4 {
            1 <= px <= 4 || px == 9 || px == 13
        } else if py == 5 {
            px == 2 || px == 9 || px == 12
        } else if py == 6 {
            px == 2 || 8 <= px <= 12
        } else if py == 7 {
            px == 2 || px == 9 || px == 11
        } else if py == 8 {
            px == 2 || 8 <= px <= 9 || 11 <= px <= 12
        } else if py == 9 {
            px == 2 || px == 7 || px == 9 || px == 11 || px == 13
        } else if py == 10 {
            px == 2 || px == 6 || px == 9 || px == 11 || px == 14
        } else if py == 11 {
            px == 2 || px == 5 || px == 9
        } else if py == 12 {
            px == 2 || px == 4 || px == 9
        } else if py == 13 {
            2 <= px <= 3 || px == 9
        } else if py == 14 {
            px == 2 || px == 9
        } else if py == 15 {
            false
        } else {
            false
        }
    } else if c == '好' {
        if py == 0 {
            px == 4 || px == 11
        } else if py == 1 {
            px == 4 || px == 11
        } else if py == 2 {
            1 <= px <= 5 || 9 <= px <= 14
        } else if py == 3 {
            px == 3 || px == 14
        } else if py == 4 {
            px == 3 || px == 13
        } else if py == 5 {
            px == 2 || px == 4 || px == 12
        } else if py == 6 {
            px == 2 || px == 4 || px == 11
        } else if py == 7 {
            px == 1 || px == 5 || 9 <= px <= 13
        } else if py == 8 {
            px == 0 || px == 6 || px == 11
        } else if py == 9 {
            px == 5 || px == 11
        } else if py == 10 {
            px == 4 || px == 11
        } else if py == 11 {
            px == 3 || px == 11
        } else if py == 12 {
            px == 2 || px == 11
        } else if py == 13 {
            px == 1 || px == 11
        } else if py == 14 {
            px == 10
        } else if py == 15 {
            false
        } else {
            false
        }
    } else if c == '，' {
        if py == 0 {
            false
        } else if py == 1 {
            false
        } else if py == 2 {
            false
        } else if py == 3 {
            false
        } else if py == 4 {
            false
        } else if py == 5 {
            false
        } else if py == 6 {
            false
        } else if py == 7 {
            false
        } else if py == 8 {
            false
        } else if py == 9 {
            false
        } else if py == 10 {
            6 <= px <= 8
        } else if py == 11 {
            6 <= px <= 8
        } else if py == 12 {
            px == 7
        } else if py == 13 {
            px == 6
        } else if py == 14 {
            px == 5
        } else if py == 15 {
            false
        } else {
            false
        }
    } else if c == '世' {
        if py == 0 {
            px == 5 || px == 9
        } else if py == 1 {
            px == 5 || px == 9
        } else if py == 2 {
            1 <= px <= 14
        } else if py == 3 {
            px == 3 || px == 5 || px == 9
        } else if py == 4 {
            px == 3 || px == 5 || px == 9
        } else if py == 5 {
            px == 3 || px == 5 || px == 9
        } else if py == 6 {
            px == 3 || 5 <= px <= 9
        } else if py == 7 {
            px == 3 || px == 5 || px == 9
        } else if py == 8 {
            px == 3 || px == 5 || px == 9
        } else if py == 9 {
            px == 3 || px == 5 || px == 9
        } else if py == 10 {
            3 <= px <= 9
        } else if py == 11 {
            px == 3
        } else if py == 12 {
            px == 3 || px == 14
        } else if py == 13 {
            3 <= px <= 14
        } else if py == 14 {
            false
        } else if py == 15 {
            false
        } else {
            false
        }
    } else if c == '界' {
        if py == 0 {
            2 <= px <= 12
        } else if py == 1 {
            px == 2 || px == 6 || px == 10 || px == 12
        } else if py == 2 {
            px == 2 || px == 6 || px == 10 || px == 12
        } else if py == 3 {
            2 <= px <= 12
        } else if py == 4 {
            px == 2 || px == 6 || px == 10 || px == 12
        } else if py == 5 {
            px == 2 || px == 6 || px == 10 || px == 12
        } else if py == 6 {
            2 <= px <= 12
        } else if py == 7 {
            px == 5 || px == 9
        } else if py == 8 {
            px == 4 || px == 10
        } else if py == 9 {
            px == 3 || px == 11
        } else if py == 10 {
            2 <= px <= 12
        } else if py == 11 {
            px == 3 || px == 6 || px == 9
        } else if py == 12 {
            px == 3 || px == 6 || px == 9
        } else if py == 13 {
            px == 2 || px == 6 || px == 10
        } else if py == 14 {
            px == 1 || px == 6 || px == 11
        } else if py == 15 {
            false
        } else {
            false
        }
    } else {
        false
    }
}

/// Which bits of the rows of the glyph for `你` are set.
proof fn lemma_ni_bits()
    by (bit_vector)
    ensures
        forall|s: usize| s < 16 ==> ((#[trigger] (0b0001000001000000u16 & (1u16 << s)) != 0) <==> (s == 12 || s == 6)),
        forall|s: usize| s < 16 ==> ((#[trigger] (0b0001000001000000u16 & (1u16 << s)) != 0) <==> (s == 12 || s == 6)),
        forall|s: usize| s < 16 ==> ((#[trigger] (0b0010000011111100u16 & (1u16 << s)) != 0) <==> (s == 13 || 2 <= s <= 7)),
        forall|s: usize| s < 16 ==> ((#[trigger] (0b0010011001000100u16 & (1u16 << s)) != 0) <==> (s == 13 || 9 <= s <= 10 || s == 6 || s == 2)),
        forall|s: usize| s < 16 ==> ((#[trigger] (0b0111100001000100u16 & (1u16 << s)) != 0) <==> (11 <= s <= 14 || s == 6 || s == 2)),
        forall|s: usize| s < 16 ==> ((#[trigger] (0b0010000001001000u16 & (1u16 << s)) != 0) <==> (s == 13 || s == 6 || s == 3)),
        forall|s: usize| s < 16 ==> ((#[trigger] (0b0010000011111000u16 & (1u16 << s)) != 0) <==> (s == 13 || 3 <= s <= 7)),
        forall|s: usize| s < 16 ==> ((#[trigger] (0b0010000001010000u16 & (1u16 << s)) != 0) <==> (s == 13 || s == 6 || s == 4)),
        forall|s: usize| s < 16 ==> ((#[trigger] (0b0010000011011000u16 & (1u16 << s)) != 0) <==> (s == 13 || 6 <= s <= 7 || 3 <= s <= 4)),
        forall|s: usize| s < 16 ==> ((#[trigger] (0b0010000101010100u16 & (1u16 << s)) != 0) <==> (s == 13 || s == 8 || s == 6 || s == 4 || s == 2)),
        forall|s: usize| s < 16 ==> ((#[trigger] (0b0010001001010010u16 & (1u16 << s)) != 0) <==> (s == 13 || s == 9 || s == 6 || s == 4 || s == 1)),
        forall|s: usize| s < 16 ==> ((#[trigger] (0b0010010001000000u16 & (1u16 << s)) != 0) <==> (s == 13 || s == 10 || s == 6)),
        forall|s: usize| s < 16 ==> ((#[trigger] (0b0010100001000000u16 & (1u16 << s)) != 0) <==> (s == 13 || s == 11 || s == 6)),
        forall|s: usize| s < 16 ==> ((#[trigger] (0b0011000001000000u16 & (1u16 << s)) != 0) <==> (12 <= s <= 13 || s == 6)),
        forall|s: usize| s < 16 ==> ((#[trigger] (0b0010000001000000u16 & (1u16 << s)) != 0) <==> (s == 13 || s == 6)),
        forall|s: usize| s < 16 ==> ((#[trigger] (0b0000000000000000u16 & (1u16 << s)) != 0) <==> (false)),
{
}

/// Which bits of the rows of the glyph for `好` are set.
proof fn lemma_hao_bits()
    by (bit_vector)
    ensures
        forall|s: usize| s < 16 ==> ((#[trigger] (0b0000100000010000u16 & (1u16 << s)) != 0) <==> (s == 11 || s == 4)),
        forall|s: usize| s < 16 ==> ((#[trigger] (0b0000100000010000u16 & (1u16 << s)) != 0) <==> (s == 11 || s == 4)),
        forall|s: usize| s < 16 ==> ((#[trigger] (0b0111110001111110u16 & (1u16 << s)) != 0) <==> (10 <= s <= 14 || 1 <= s <= 6)),
        forall|s: usize| s < 16 ==> ((#[trigger] (0b0001000000000010u16 & (1u16 << s)) != 0) <==> (s == 12 || s == 1)),
        forall|s: usize| s < 16 ==> ((#[trigger] (0b0001000000000100u16 & (1u16 << s)) != 0) <==> (s == 12 || s == 2)),
        forall|s: usize| s < 16 ==> ((#[trigger] (0b0010100000001000u16 & (1u16 << s)) != 0) <==> (s == 13 || s == 11 || s == 3)),
        forall|s: usize| s < 16 ==> ((#[trigger] (0b0010100000010000u16 & (1u16 << s)) != 0) <==> (s == 13 || s == 11 || s == 4)),
        forall|s: usize| s < 16 ==> ((#[trigger] (0b0100010001111100u16 & (1u16 << s)) != 0) <==> (s == 14 || s == 10 || 2 <= s <= 6)),
        forall|s: usize| s < 16 ==> ((#[trigger] (0b1000001000010000u16 & (1u16 << s)) != 0) <==> (s == 15 || s == 9 || s == 4)),
        forall|s: usize| s < 16 ==> ((#[trigger] (0b0000010000010000u16 & (1u16 << s)) != 0) <==> (s == 10 || s == 4)),
        forall|s: usize| s < 16 ==> ((#[trigger] (0b0000100000010000u16 & (1u16 << s)) != 0) <==> (s == 11 || s == 4)),
        forall|s: usize| s < 16 ==> ((#[trigger] (0b0001000000010000u16 & (1u16 << s)) != 0) <==> (s == 12 || s == 4)),
        forall|s: usize| s < 16 ==> ((#[trigger] (0b0010000000010000u16 & (1u16 << s)) != 0) <==> (s == 13 || s == 4)),
        forall|s: usize| s < 16 ==> ((#[trigger] (0b0100000000010000u16 & (1u16 << s)) != 0) <==> (s == 14 || s == 4)),
        forall|s: usize| s < 16 ==> ((#[trigger] (0b0000000000100000u16 & (1u16 << s)) != 0) <==> (s == 5)),
        forall|s: usize| s < 16 ==> ((#[trigger] (0b0000000000000000u16 & (1u16 << s)) != 0) <==> (false)),
{
}

/// Which bits of the rows of the glyph for `，` are set.
proof fn lemma_comma_bits()
    by (bit_vector)
    ensures
        forall|s: usize| s < 16 ==> ((#[trigger] (0b0000000000000000u16 & (1u16 << s)) != 0) <==> (false)),
        forall|s: usize| s < 16 ==> ((#[trigger] (0b0000000000000000u16 & (1u16 << s)) != 0) <==> (false)),
        forall|s: usize| s < 16 ==> ((#[trigger] (0b0000000000000000u16 & (1u16 << s)) != 0) <==> (false)),
        forall|s: usize| s < 16 ==> ((#[trigger] (0b0000000000000000u16 & (1u16 << s)) != 0) <==> (false)),
        forall|s: usize| s < 16 ==> ((#[trigger] (0b0000000000000000u16 & (1u16 << s)) != 0) <==> (false)),
        forall|s: usize| s < 16 ==> ((#[trigger] (0b0000000000000000u16 & (1u16 << s)) != 0) <==> (false)),
        forall|s: usize| s < 16 ==> ((#[trigger] (0b0000000000000000u16 & (1u16 << s)) != 0) <==> (false)),
        forall|s: usize| s < 16 ==> ((#[trigger] (0b0000000000000000u16 & (1u16 << s)) != 0) <==> (false)),
        forall|s: usize| s < 16 ==> ((#[trigger] (0b0000000000000000u16 & (1u16 << s)) != 0) <==> (false)),
        forall|s: usize| s < 16 ==> ((#[trigger] (0b0000000000000000u16 & (1u16 << s)) != 0) <==> (false)),
        forall|s: usize| s < 16 ==> ((#[trigger] (0b0000001110000000u16 & (1u16 << s)) != 0) <==> (7 <= s <= 9)),
        forall|s: usize| s < 16 ==> ((#[trigger] (0b0000001110000000u16 & (1u16 << s)) != 0) <==> (7 <= s <= 9)),
        forall|s: usize| s < 16 ==> ((#[trigger] (0b0000000100000000u16 & (1u16 << s)) != 0) <==> (s == 8)),
        forall|s: usize| s < 16 ==> ((#[trigger] (0b0000001000000000u16 & (1u16 << s)) != 0) <==> (s == 9)),
        forall|s: usize| s < 16 ==> ((#[trigger] (0b0000010000000000u16 & (1u16 << s)) != 0) <==> (s == 10)),
        forall|s: usize| s < 16 ==> ((#[trigger] (0b0000000000000000u16 & (1u16 << s)) != 0) <==> (false)),
{
}

/// Which bits of the rows of the glyph for `世` are set.
proof fn lemma_shi_bits()
    by (bit_vector)
    ensures
        forall|s: usize| s < 16 ==> ((#[trigger] (0b0000010001000000u16 & (1u16 << s)) != 0) <==> (s == 10 || s == 6)),
        forall|s: usize| s < 16 ==> ((#[trigger] (0b0000010001000000u16 & (1u16 << s)) != 0) <==> (s == 10 || s == 6)),
        forall|s: usize| s < 16 ==> ((#[trigger] (0b0111111111111110u16 & (1u16 << s)) != 0) <==> (1 <= s <= 14)),
        forall|s: usize| s < 16 ==> ((#[trigger] (0b0001010001000000u16 & (1u16 << s)) != 0) <==> (s == 12 || s == 10 || s == 6)),
        forall|s: usize| s < 16 ==> ((#[trigger] (0b0001010001000000u16 & (1u16 << s)) != 0) <==> (s == 12 || s == 10 || s == 6)),
        forall|s: usize| s < 16 ==> ((#[trigger] (0b0001010001000000u16 & (1u16 << s)) != 0) <==> (s == 12 || s == 10 || s == 6)),
        forall|s: usize| s < 16 ==> ((#[trigger] (0b0001011111000000u16 & (1u16 << s)) != 0) <==> (s == 12 || 6 <= s <= 10)),
        forall|s: usize| s < 16 ==> ((#[trigger] (0b0001010001000000u16 & (1u16 << s)) != 0) <==> (s == 12 || s == 10 || s == 6)),
        forall|s: usize| s < 16 ==> ((#[trigger] (0b0001010001000000u16 & (1u16 << s)) != 0) <==> (s == 12 || s == 10 || s == 6)),
        forall|s: usize| s < 16 ==> ((#[trigger] (0b0001010001000000u16 & (1u16 << s)) != 0) <==> (s == 12 || s == 10 || s == 6)),
        forall|s: usize| s < 16 ==> ((#[trigger] (0b0001111111000000u16 & (1u16 << s)) != 0) <==> (6 <= s <= 12)),
        forall|s: usize| s < 16 ==> ((#[trigger] (0b0001000000000000u16 & (1u16 << s)) != 0) <==> (s == 12)),
        forall|s: usize| s < 16 ==> ((#[trigger] (0b0001000000000010u16 & (1u16 << s)) != 0) <==> (s == 12 || s == 1)),
        forall|s: usize| s < 16 ==> ((#[trigger] (0b0001111111111110u16 & (1u16 << s)) != 0) <==> (1 <= s <= 12)),
        forall|s: usize| s < 16 ==> ((#[trigger] (0b0000000000000000u16 & (1u16 << s)) != 0) <==> (false)),
        forall|s: usize| s < 16 ==> ((#[trigger] (0b0000000000000000u16 & (1u16 << s)) != 0) <==> (false)),
{
}

/// Which bits of the rows of the glyph for `界` are set.
proof fn lemma_jie_bits()
    by (bit_vector)
    ensures
        forall|s: usize| s < 16 ==> ((#[trigger] (0b0011111111111000u16 & (1u16 << s)) != 0) <==> (3 <= s <= 13)),
        forall|s: usize| s < 16 ==> ((#[trigger] (0b0010001000101000u16 & (1u16 << s)) != 0) <==> (s == 13 || s == 9 || s == 5 || s == 3)),
        forall|s: usize| s < 16 ==> ((#[trigger] (0b0010001000101000u16 & (1u16 << s)) != 0) <==> (s == 13 || s == 9 || s == 5 || s == 3)),
        forall|s: usize| s < 16 ==> ((#[trigger] (0b0011111111111000u16 & (1u16 << s)) != 0) <==> (3 <= s <= 13)),
        forall|s: usize| s < 16 ==> ((#[trigger] (0b0010001000101000u16 & (1u16 << s)) != 0) <==> (s == 13 || s == 9 || s == 5 || s == 3)),
        forall|s: usize| s < 16 ==> ((#[trigger] (0b0010001000101000u16 & (1u16 << s)) != 0) <==> (s == 13 || s == 9 || s == 5 || s == 3)),
        forall|s: usize| s < 16 ==> ((#[trigger] (0b0011111111111000u16 & (1u16 << s)) != 0) <==> (3 <= s <= 13)),
        forall|s: usize| s < 16 ==> ((#[trigger] (0b0000010001000000u16 & (1u16 << s)) != 0) <==> (s == 10 || s == 6)),
        forall|s: usize| s < 16 ==> ((#[trigger] (0b0000100000100000u16 & (1u16 << s)) != 0) <==> (s == 11 || s == 5)),
        forall|s: usize| s < 16 ==> ((#[trigger] (0b0001000000010000u16 & (1u16 << s)) != 0) <==> (s == 12 || s == 4)),
        forall|s: usize| s < 16 ==> ((#[trigger] (0b0011111111111000u16 & (1u16 << s)) != 0) <==> (3 <= s <= 13)),
        forall|s: usize| s < 16 ==> ((#[trigger] (0b0001001001000000u16 & (1u16 << s)) != 0) <==> (s == 12 || s == 9 || s == 6)),
        forall|s: usize| s < 16 ==> ((#[trigger] (0b0001001001000000u16 & (1u16 << s)) != 0) <==> (s == 12 || s == 9 || s == 6)),
        forall|s: usize| s < 16 ==> ((#[trigger] (0b0010001000100000u16 & (1u16 << s)) != 0) <==> (s == 13 || s == 9 || s == 5)),
        forall|s: usize| s < 16 ==> ((#[trigger] (0b0100001000010000u16 & (1u16 << s)) != 0) <==> (s == 14 || s == 9 || s == 4)),
        forall|s: usize| s < 16 ==> ((#[trigger] (0b0000000000000000u16 & (1u16 << s)) != 0) <==> (false)),
{
}

/// Each character of the font is drawn with its own bitmap: drawn at
/// scale 1 from the origin, the character `c` inks pixel `(px, py)` of its
/// 16 by 16 cell exactly where `glyph_pixel` says the glyph for `c` holds
/// ink; a character without a glyph inks nothing.
pub proof fn lemma_glyph_pictures(c: char, px: int, py: int)
    requires
        0 <= px < 16,
        0 <= py < 16,
    ensures
        text_covers(0, 0, seq![c], 1, px, py) == glyph_pixel(c, px, py),
{
    let text = seq![c];
    assert(text[0] == c);
    assert(px / 18 == 0);
    assert((px - 0) / 1 == px);
    assert((py - 0) / 1 == py);
    assert(glyph_advance(1) == 18);
    assert(0 + 0 * glyph_advance(1) == 0);
    let s = (15 - px) as usize;
    if let Some(rows) = glyph_rows(c) {
        assert(ink(rows[py], px) == ((rows[py] & (1u16 << s)) != 0));
        if c == '你' {
            lemma_ni_bits();
            if py == 0 {
                assert(rows[py] == 0b0001000001000000u16);
            } else if py == 1 {
                assert(rows[py] == 0b0001000001000000u16);
            } else if py == 2 {
                assert(rows[py] == 0b0010000011111100u16);
            } else if py == 3 {
                assert(rows[py] == 0b0010011001000100u16);
            } else if py == 4 {
                assert(rows[py] == 0b0111100001000100u16);
            } else if py == 5 {
                assert(rows[py] == 0b0010000001001000u16);
            } else if py == 6 {
                assert(rows[py] == 0b0010000011111000u16);
            } else if py == 7 {
                assert(rows[py] == 0b0010000001010000u16);
            } else if py == 8 {
                assert(rows[py] == 0b0010000011011000u16);
            } else if py == 9 {
                assert(rows[py] == 0b0010000101010100u16);
            } else if py == 10 {
                assert(rows[py] == 0b0010001001010010u16);
            } else if py == 11 {
                assert(rows[py] == 0b0010010001000000u16);
            } else if py == 12 {
                assert(rows[py] == 0b0010100001000000u16);
            } else if py == 13 {
                assert(rows[py] == 0b0011000001000000u16);
            } else if py == 14 {
                assert(rows[py] == 0b0010000001000000u16);
            } else if py == 15 {
                assert(rows[py] == 0b0000000000000000u16);
            }
        } else if c == '好' {
            lemma_hao_bits();
            if py == 0 {
                assert(rows[py] == 0b0000100000010000u16);
            } else if py == 1 {
                assert(rows[py] == 0b0000100000010000u16);
            } else if py == 2 {
                assert(rows[py] == 0b0111110001111110u16);
            } else if py == 3 {
                assert(rows[py] == 0b0001000000000010u16);
            } else if py == 4 {
                assert(rows[py] == 0b0001000000000100u16);
            } else if py == 5 {
                assert(rows[py] == 0b0010100000001000u16);
            } else if py == 6 {
                assert(rows[py] == 0b0010100000010000u16);
            } else if py == 7 {
                assert(rows[py] == 0b0100010001111100u16);
            } else if py == 8 {
                assert(rows[py] == 0b1000001000010000u16);
            } else if py == 9 {
                assert(rows[py] == 0b0000010000010000u16);
            } else if py == 10 {
                assert(rows[py] == 0b0000100000010000u16);
            } else if py == 11 {
                assert(rows[py] == 0b0001000000010000u16);
            } else if py == 12 {
                assert(rows[py] == 0b0010000000010000u16);
            } else if py == 13 {
                assert(rows[py] == 0b0100000000010000u16);
            } else if py == 14 {
                assert(rows[py] == 0b0000000000100000u16);
            } else if py == 15 {
                assert(rows[py] == 0b0000000000000000u16);
            }
        } else if c == '，' {
            lemma_comma_bits();
            if py == 0 {
                assert(rows[py] == 0b0000000000000000u16);
            } else if py == 1 {
                assert(rows[py] == 0b0000000000000000u16);
            } else if py == 2 {
                assert(rows[py] == 0b0000000000000000u16);
            } else if py == 3 {
                assert(rows[py] == 0b0000000000000000u16);
            } else if py == 4 {
                assert(rows[py] == 0b0000000000000000u16);
            } else if py == 5 {
                assert(rows[py] == 0b0000000000000000u16);
            } else if py == 6 {
                assert(rows[py] == 0b0000000000000000u16);
            } else if py == 7 {
                assert(rows[py] == 0b0000000000000000u16);
            } else if py == 8 {
                assert(rows[py] == 0b0000000000000000u16);
            } else if py == 9 {
                assert(rows[py] == 0b0000000000000000u16);
            } else if py == 10 {
                assert(rows[py] == 0b0000001110000000u16);
            } else if py == 11 {
                assert(rows[py] == 0b0000001110000000u16);
            } else if py == 12 {
                assert(rows[py] == 0b0000000100000000u16);
            } else if py == 13 {
                assert(rows[py] == 0b0000001000000000u16);
            } else if py == 14 {
                assert(rows[py] == 0b0000010000000000u16);
            } else if py == 15 {
                assert(rows[py] == 0b0000000000000000u16);
            }
        } else if c == '世' {
            lemma_shi_bits();
            if py == 0 {
                assert(rows[py] == 0b0000010001000000u16);
            } else if py == 1 {
                assert(rows[py] == 0b0000010001000000u16);
            } else if py == 2 {
                assert(rows[py] == 0b0111111111111110u16);
            } else if py == 3 {
                assert(rows[py] == 0b0001010001000000u16);
            } else if py == 4 {
                assert(rows[py] == 0b0001010001000000u16);
            } else if py == 5 {
                assert(rows[py] == 0b0001010001000000u16);
            } else if py == 6 {
                assert(rows[py] == 0b0001011111000000u16);
            } else if py == 7 {
                assert(rows[py] == 0b0001010001000000u16);
            } else if py == 8 {
                assert(rows[py] == 0b0001010001000000u16);
            } else if py == 9 {
                assert(rows[py] == 0b0001010001000000u16);
            } else if py == 10 {
                assert(rows[py] == 0b0001111111000000u16);
            } else if py == 11 {
                assert(rows[py] == 0b0001000000000000u16);
            } else if py == 12 {
                assert(rows[py] == 0b0001000000000010u16);
            } else if py == 13 {
                assert(rows[py] == 0b0001111111111110u16);
            } else if py == 14 {
                assert(rows[py] == 0b0000000000000000u16);
            } else if py == 15 {
                assert(rows[py] == 0b0000000000000000u16);
            }
        } else if c == '界' {
            lemma_jie_bits();
            if py == 0 {
                assert(rows[py] == 0b0011111111111000u16);
            } else if py == 1 {
                assert(rows[py] == 0b0010001000101000u16);
            } else if py == 2 {
                assert(rows[py] == 0b0010001000101000u16);
            } else if py == 3 {
                assert(rows[py] == 0b0011111111111000u16);
            } else if py == 4 {
                assert(rows[py] == 0b0010001000101000u16);
            } else if py == 5 {
                assert(rows[py] == 0b0010001000101000u16);
            } else if py == 6 {
                assert(rows[py] == 0b0011111111111000u16);
            } else if py == 7 {
                assert(rows[py] == 0b0000010001000000u16);
            } else if py == 8 {
                assert(rows[py] == 0b0000100000100000u16);
            } else if py == 9 {
                assert(rows[py] == 0b0001000000010000u16);
            } else if py == 10 {
                assert(rows[py] == 0b0011111111111000u16);
            } else if py == 11 {
                assert(rows[py] == 0b0001001001000000u16);
            } else if py == 12 {
                assert(rows[py] == 0b0001001001000000u16);
            } else if py == 13 {
                assert(rows[py] == 0b0010001000100000u16);
            } else if py == 14 {
                assert(rows[py] == 0b0100001000010000u16);
            } else if py == 15 {
                assert(rows[py] == 0b0000000000000000u16);
            }
        }
    }
}

/// One character drawn anywhere at any scale: glyphs are 16 by 16, lines
/// advance 18 glyph pixels per character (16 plus 2 of spacing, at least one
/// pixel each), and the character `c` drawn from `(x, y)` at `scale > 0`
/// inks pixel `(px, py)` exactly when it lies in the `16 * scale` square
/// from `(x, y)` and its glyph holds ink at `((px - x) / scale, (py - y) /
/// scale)`: every glyph pixel becomes a `scale` by `scale` square.
pub proof fn lemma_character_drawn(c: char, x: int, y: int, scale: int, px: int, py: int)
    requires
        scale > 0,
    ensures
        GLYPH_WIDTH == 16 && GLYPH_HEIGHT == 16 && GLYPH_SPACING == 2,
        glyph_advance(scale) == 18 * scale,
        glyph_advance(0) == 18,
        text_covers(x, y, seq![c], scale, px, py) == (x <= px < x + 16 * scale && y <= py < y + 16 * scale
            && glyph_pixel(c, (px - x) / scale, (py - y) / scale)),
{
    let a = glyph_advance(scale);
    assert(a == 18 * scale);
    let text = seq![c];
    assert(text[0] == c);
    if x <= px && y <= py {
        let u = px - x;
        let v = py - y;
        lemma_fundamental_div_mod(u, scale);
        lemma_fundamental_div_mod(v, scale);
        lemma_mod_pos_bound(u, scale);
        lemma_mod_pos_bound(v, scale);
        lemma_div_pos_is_pos(u, scale);
        lemma_div_pos_is_pos(v, scale);
        let gx = u / scale;
        let gy = v / scale;
        assert(u < 16 * scale <==> gx < 16) by (nonlinear_arith)
            requires
                u == scale * gx + u % scale,
                0 <= u % scale < scale,
                scale > 0,
        ;
        assert(v < 16 * scale <==> gy < 16) by (nonlinear_arith)
            requires
                v == scale * gy + v % scale,
                0 <= v % scale < scale,
                scale > 0,
        ;
        if u < a {
            lemma_fundamental_div_mod_converse(u, a, 0, u);
        } else {
            lemma_div_pos_is_pos(u, a);
            assert(u / a != 0) by {
                lemma_fundamental_div_mod(u, a);
                lemma_mod_pos_bound(u, a);
            }
        }
        if gx < 16 && gy < 16 {
            lemma_glyph_pictures(c, gx, gy);
            assert(gx / 18 == 0);
            assert((gx - 0) / 1 == gx);
            assert((gy - 0) / 1 == gy);
            assert(glyph_advance(1) == 18);
            assert(0 + 0 * glyph_advance(1) == 0);
            assert(u < a);
            assert(0 + 0 * a == 0);
        }
    }
}

} // verus!
