//! The built-in bitmap font: one 16 by 16 glyph for each character of the
//! greeting.

use vstd::prelude::*;

verus! {

/// Width of a glyph in pixels.
pub const GLYPH_WIDTH: usize = 16;

/// Height of a glyph in pixels.
pub const GLYPH_HEIGHT: usize = 16;

/// Blank columns between two glyphs of a line of text, before scaling.
pub const GLYPH_SPACING: usize = 2;

/// A 16 by 16 bitmap; bit 15 of a row is its leftmost pixel.
pub struct Glyph {
    pub rows: [u16; 16],
}

/// `true` when column `gx` of a glyph row holds ink.
pub open spec fn ink(row: u16, gx: int) -> bool {
    row & (1u16 << ((GLYPH_WIDTH - 1 - gx) as usize)) != 0
}

/// The rows of the glyph that the font has for `c`, if it has one.
pub open spec fn glyph_rows(c: char) -> Option<Seq<u16>> {
    if c == '你' {
        Some(
            seq![
                0b0001000001000000,
                0b0001000001000000,
                0b0010000011111100,
                0b0010011001000100,
                0b0111100001000100,
                0b0010000001001000,
                0b0010000011111000,
                0b0010000001010000,
                0b0010000011011000,
                0b0010000101010100,
                0b0010001001010010,
                0b0010010001000000,
                0b0010100001000000,
                0b0011000001000000,
                0b0010000001000000,
                0b0000000000000000,
            ],
        )
    } else if c == '好' {
        Some(
            seq![
                0b0000100000010000,
                0b0000100000010000,
                0b0111110001111110,
                0b0001000000000010,
                0b0001000000000100,
                0b0010100000001000,
                0b0010100000010000,
                0b0100010001111100,
                0b1000001000010000,
                0b0000010000010000,
                0b0000100000010000,
                0b0001000000010000,
                0b0010000000010000,
                0b0100000000010000,
                0b0000000000100000,
                0b0000000000000000,
            ],
        )
    } else if c == '，' {
        Some(
            seq![
                0b0000000000000000,
                0b0000000000000000,
                0b0000000000000000,
                0b0000000000000000,
                0b0000000000000000,
                0b0000000000000000,
                0b0000000000000000,
                0b0000000000000000,
                0b0000000000000000,
                0b0000000000000000,
                0b0000001110000000,
                0b0000001110000000,
                0b0000000100000000,
                0b0000001000000000,
                0b0000010000000000,
                0b0000000000000000,
            ],
        )
    } else if c == '世' {
        Some(
            seq![
                0b0000010001000000,
                0b0000010001000000,
                0b0111111111111110,
                0b0001010001000000,
                0b0001010001000000,
                0b0001010001000000,
                0b0001011111000000,
                0b0001010001000000,
                0b0001010001000000,
                0b0001010001000000,
                0b0001111111000000,
                0b0001000000000000,
                0b0001000000000010,
                0b0001111111111110,
                0b0000000000000000,
                0b0000000000000000,
            ],
        )
    } else if c == '界' {
        Some(
            seq![
                0b0011111111111000,
                0b0010001000101000,
                0b0010001000101000,
                0b0011111111111000,
                0b0010001000101000,
                0b0010001000101000,
                0b0011111111111000,
                0b0000010001000000,
                0b0000100000100000,
                0b0001000000010000,
                0b0011111111111000,
                0b0001001001000000,
                0b0001001001000000,
                0b0010001000100000,
                0b0100001000010000,
                0b0000000000000000,
            ],
        )
    } else {
        None
    }
}

/// The glyph that the font has for `character`, if it has one.
pub fn glyph_for(character: char) -> (g: Option<Glyph>)
    ensures
        g is Some <==> glyph_rows(character) is Some,
        g matches Some(glyph) ==> glyph_rows(character) == Some(glyph.rows@),
{
    let rows: [u16; 16] = match character {
        '你' => [
            0b0001000001000000,
            0b0001000001000000,
            0b0010000011111100,
            0b0010011001000100,
            0b0111100001000100,
            0b0010000001001000,
            0b0010000011111000,
            0b0010000001010000,
            0b0010000011011000,
            0b0010000101010100,
            0b0010001001010010,
            0b0010010001000000,
            0b0010100001000000,
            0b0011000001000000,
            0b0010000001000000,
            0b0000000000000000,
        ],
        '好' => [
            0b0000100000010000,
            0b0000100000010000,
            0b0111110001111110,
            0b0001000000000010,
            0b0001000000000100,
            0b0010100000001000,
            0b0010100000010000,
            0b0100010001111100,
            0b1000001000010000,
            0b0000010000010000,
            0b0000100000010000,
            0b0001000000010000,
            0b0010000000010000,
            0b0100000000010000,
            0b0000000000100000,
            0b0000000000000000,
        ],
        '，' => [
            0b0000000000000000,
            0b0000000000000000,
            0b0000000000000000,
            0b0000000000000000,
            0b0000000000000000,
            0b0000000000000000,
            0b0000000000000000,
            0b0000000000000000,
            0b0000000000000000,
            0b0000000000000000,
            0b0000001110000000,
            0b0000001110000000,
            0b0000000100000000,
            0b0000001000000000,
            0b0000010000000000,
            0b0000000000000000,
        ],
        '世' => [
            0b0000010001000000,
            0b0000010001000000,
            0b0111111111111110,
            0b0001010001000000,
            0b0001010001000000,
            0b0001010001000000,
            0b0001011111000000,
            0b0001010001000000,
            0b0001010001000000,
            0b0001010001000000,
            0b0001111111000000,
            0b0001000000000000,
            0b0001000000000010,
            0b0001111111111110,
            0b0000000000000000,
            0b0000000000000000,
        ],
        '界' => [
            0b0011111111111000,
            0b0010001000101000,
            0b0010001000101000,
            0b0011111111111000,
            0b0010001000101000,
            0b0010001000101000,
            0b0011111111111000,
            0b0000010001000000,
            0b0000100000100000,
            0b0001000000010000,
            0b0011111111111000,
            0b0001001001000000,
            0b0001001001000000,
            0b0010001000100000,
            0b0100001000010000,
            0b0000000000000000,
        ],
        _ => return None,
    };
    let glyph = Glyph { rows };
    assert(glyph_rows(character) == Some(glyph.rows@)) by {
        assert(glyph_rows(character).unwrap() =~= glyph.rows@);
    }
    Some(glyph)
}

} // verus!
