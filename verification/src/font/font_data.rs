//! The bitmaps of the font, kept apart so that the table stays out of the
//! proofs that only need to name it.

use vstd::prelude::*;

verus! {

/// The printable ASCII characters, eight row bytes each, from the space on.
pub const FONT: [u8; 760] = [
    0x00, 0x00, 0x00, 0x00, 0x00, 0x00, 0x00, 0x00, // ' '
    0x18, 0x3C, 0x3C, 0x18, 0x18, 0x00, 0x18, 0x00, // '!'
    0x36, 0x36, 0x00, 0x00, 0x00, 0x00, 0x00, 0x00, // '"'
    0x36, 0x36, 0x7F, 0x36, 0x7F, 0x36, 0x36, 0x00, // '#'
    0x0C, 0x3E, 0x03, 0x1E, 0x30, 0x1F, 0x0C, 0x00, // '$'
    0x00, 0x63, 0x33, 0x18, 0x0C, 0x66, 0x63, 0x00, // '%'
    0x1C, 0x36, 0x1C, 0x6E, 0x3B, 0x33, 0x6E, 0x00, // '&'
    0x06, 0x06, 0x03, 0x00, 0x00, 0x00, 0x00, 0x00, // "'"
    0x18, 0x0C, 0x06, 0x06, 0x06, 0x0C, 0x18, 0x00, // '('
    0x06, 0x0C, 0x18, 0x18, 0x18, 0x0C, 0x06, 0x00, // ')'
    0x00, 0x66, 0x3C, 0xFF, 0x3C, 0x66, 0x00, 0x00, // '*'
    0x00, 0x0C, 0x0C, 0x3F, 0x0C, 0x0C, 0x00, 0x00, // '+'
    0x00, 0x00, 0x00, 0x00, 0x00, 0x0C, 0x0C, 0x06, // ','
    0x00, 0x00, 0x00, 0x3F, 0x00, 0x00, 0x00, 0x00, // '-'
    0x00, 0x00, 0x00, 0x00, 0x00, 0x0C, 0x0C, 0x00, // '.'
    0x60, 0x30, 0x18, 0x0C, 0x06, 0x03, 0x01, 0x00, // '/'
    0x3E, 0x63, 0x73, 0x7B, 0x6F, 0x67, 0x3E, 0x00, // '0'
    0x0C, 0x0E, 0x0C, 0x0C, 0x0C, 0x0C, 0x3F, 0x00, // '1'
    0x1E, 0x33, 0x30, 0x1C, 0x06, 0x33, 0x3F, 0x00, // '2'
    0x1E, 0x33, 0x30, 0x1C, 0x30, 0x33, 0x1E, 0x00, // '3'
    0x38, 0x3C, 0x36, 0x33, 0x7F, 0x30, 0x78, 0x00, // '4'
    0x3F, 0x03, 0x1F, 0x30, 0x30, 0x33, 0x1E, 0x00, // '5'
    0x1C, 0x06, 0x03, 0x1F, 0x33, 0x33, 0x1E, 0x00, // '6'
    0x3F, 0x33, 0x30, 0x18, 0x0C, 0x0C, 0x0C, 0x00, // '7'
    0x1E, 0x33, 0x33, 0x1E, 0x33, 0x33, 0x1E, 0x00, // '8'
    0x1E, 0x33, 0x33, 0x3E, 0x30, 0x18, 0x0E, 0x00, // '9'
    0x00, 0x0C, 0x0C, 0x00, 0x00, 0x0C, 0x0C, 0x00, // ':'
    0x00, 0x0C, 0x0C, 0x00, 0x00, 0x0C, 0x0C, 0x06, // ';'
    0x18, 0x0C, 0x06, 0x03, 0x06, 0x0C, 0x18, 0x00, // '<'
    0x00, 0x00, 0x3F, 0x00, 0x00, 0x3F, 0x00, 0x00, // '='
    0x06, 0x0C, 0x18, 0x30, 0x18, 0x0C, 0x06, 0x00, // '>'
    0x1E, 0x33, 0x30, 0x18, 0x0C, 0x00, 0x0C, 0x00, // '?'
    0x3E, 0x63, 0x7B, 0x7B, 0x7B, 0x03, 0x1E, 0x00, // '@'
    0x0C, 0x1E, 0x33, 0x33, 0x3F, 0x33, 0x33, 0x00, // 'A'
    0x3F, 0x66, 0x66, 0x3E, 0x66, 0x66, 0x3F, 0x00, // 'B'
    0x3C, 0x66, 0x03, 0x03, 0x03, 0x66, 0x3C, 0x00, // 'C'
    0x1F, 0x36, 0x66, 0x66, 0x66, 0x36, 0x1F, 0x00, // 'D'
    0x7F, 0x46, 0x16, 0x1E, 0x16, 0x46, 0x7F, 0x00, // 'E'
    0x7F, 0x46, 0x16, 0x1E, 0x16, 0x06, 0x0F, 0x00, // 'F'
    0x3C, 0x66, 0x03, 0x03, 0x73, 0x66, 0x7C, 0x00, // 'G'
    0x33, 0x33, 0x33, 0x3F, 0x33, 0x33, 0x33, 0x00, // 'H'
    0x1E, 0x0C, 0x0C, 0x0C, 0x0C, 0x0C, 0x1E, 0x00, // 'I'
    0x78, 0x30, 0x30, 0x30, 0x33, 0x33, 0x1E, 0x00, // 'J'
    0x67, 0x66, 0x36, 0x1E, 0x36, 0x66, 0x67, 0x00, // 'K'
    0x0F, 0x06, 0x06, 0x06, 0x46, 0x66, 0x7F, 0x00, // 'L'
    0x63, 0x77, 0x7F, 0x7F, 0x6B, 0x63, 0x63, 0x00, // 'M'
    0x63, 0x67, 0x6F, 0x7B, 0x73, 0x63, 0x63, 0x00, // 'N'
    0x1C, 0x36, 0x63, 0x63, 0x63, 0x36, 0x1C, 0x00, // 'O'
    0x3F, 0x66, 0x66, 0x3E, 0x06, 0x06, 0x0F, 0x00, // 'P'
    0x1E, 0x33, 0x33, 0x33, 0x3B, 0x1E, 0x38, 0x00, // 'Q'
    0x3F, 0x66, 0x66, 0x3E, 0x36, 0x66, 0x67, 0x00, // 'R'
    0x1E, 0x33, 0x07, 0x0E, 0x38, 0x33, 0x1E, 0x00, // 'S'
    0x3F, 0x2D, 0x0C, 0x0C, 0x0C, 0x0C, 0x1E, 0x00, // 'T'
    0x33, 0x33, 0x33, 0x33, 0x33, 0x33, 0x3F, 0x00, // 'U'
    0x33, 0x33, 0x33, 0x33, 0x33, 0x1E, 0x0C, 0x00, // 'V'
    0x63, 0x63, 0x63, 0x6B, 0x7F, 0x77, 0x63, 0x00, // 'W'
    0x63, 0x63, 0x36, 0x1C, 0x1C, 0x36, 0x63, 0x00, // 'X'
    0x33, 0x33, 0x33, 0x1E, 0x0C, 0x0C, 0x1E, 0x00, // 'Y'
    0x7F, 0x63, 0x31, 0x18, 0x4C, 0x66, 0x7F, 0x00, // 'Z'
    0x1E, 0x06, 0x06, 0x06, 0x06, 0x06, 0x1E, 0x00, // '['
    0x03, 0x06, 0x0C, 0x18, 0x30, 0x60, 0x40, 0x00, // '\\'
    0x1E, 0x18, 0x18, 0x18, 0x18, 0x18, 0x1E, 0x00, // ']'
    0x08, 0x1C, 0x36, 0x63, 0x00, 0x00, 0x00, 0x00, // '^'
    0x00, 0x00, 0x00, 0x00, 0x00, 0x00, 0x00, 0xFF, // '_'
    0x0C, 0x0C, 0x18, 0x00, 0x00, 0x00, 0x00, 0x00, // '`'
    0x00, 0x00, 0x1E, 0x30, 0x3E, 0x33, 0x6E, 0x00, // 'a'
    0x07, 0x06, 0x06, 0x3E, 0x66, 0x66, 0x3B, 0x00, // 'b'
    0x00, 0x00, 0x1E, 0x33, 0x03, 0x33, 0x1E, 0x00, // 'c'
    0x38, 0x30, 0x30, 0x3E, 0x33, 0x33, 0x6E, 0x00, // 'd'
    0x00, 0x00, 0x1E, 0x33, 0x3F, 0x03, 0x1E, 0x00, // 'e'
    0x1C, 0x36, 0x06, 0x0F, 0x06, 0x06, 0x0F, 0x00, // 'f'
    0x00, 0x00, 0x6E, 0x33, 0x33, 0x3E, 0x30, 0x1F, // 'g'
    0x07, 0x06, 0x36, 0x6E, 0x66, 0x66, 0x67, 0x00, // 'h'
    0x0C, 0x00, 0x0E, 0x0C, 0x0C, 0x0C, 0x1E, 0x00, // 'i'
    0x30, 0x00, 0x30, 0x30, 0x30, 0x33, 0x33, 0x1E, // 'j'
    0x07, 0x06, 0x66, 0x36, 0x1E, 0x36, 0x67, 0x00, // 'k'
    0x0E, 0x0C, 0x0C, 0x0C, 0x0C, 0x0C, 0x1E, 0x00, // 'l'
    0x00, 0x00, 0x33, 0x7F, 0x7F, 0x6B, 0x63, 0x00, // 'm'
    0x00, 0x00, 0x1F, 0x33, 0x33, 0x33, 0x33, 0x00, // 'n'
    0x00, 0x00, 0x1E, 0x33, 0x33, 0x33, 0x1E, 0x00, // 'o'
    0x00, 0x00, 0x3B, 0x66, 0x66, 0x3E, 0x06, 0x0F, // 'p'
    0x00, 0x00, 0x6E, 0x33, 0x33, 0x3E, 0x30, 0x78, // 'q'
    0x00, 0x00, 0x3B, 0x6E, 0x66, 0x06, 0x0F, 0x00, // 'r'
    0x00, 0x00, 0x3E, 0x03, 0x1E, 0x30, 0x1F, 0x00, // 's'
    0x08, 0x0C, 0x3E, 0x0C, 0x0C, 0x2C, 0x18, 0x00, // 't'
    0x00, 0x00, 0x33, 0x33, 0x33, 0x33, 0x6E, 0x00, // 'u'
    0x00, 0x00, 0x33, 0x33, 0x33, 0x1E, 0x0C, 0x00, // 'v'
    0x00, 0x00, 0x63, 0x6B, 0x7F, 0x7F, 0x36, 0x00, // 'w'
    0x00, 0x00, 0x63, 0x36, 0x1C, 0x36, 0x63, 0x00, // 'x'
    0x00, 0x00, 0x33, 0x33, 0x33, 0x3E, 0x30, 0x1F, // 'y'
    0x00, 0x00, 0x3F, 0x19, 0x0C, 0x26, 0x3F, 0x00, // 'z'
    0x38, 0x0C, 0x0C, 0x07, 0x0C, 0x0C, 0x38, 0x00, // '{'
    0x18, 0x18, 0x18, 0x00, 0x18, 0x18, 0x18, 0x00, // '|'
    0x07, 0x0C, 0x0C, 0x38, 0x0C, 0x0C, 0x07, 0x00, // '}'
    0x6E, 0x3B, 0x00, 0x00, 0x00, 0x00, 0x00, 0x00, // '~'
];

/// Byte `i` of the font table.
pub closed spec fn font_byte(i: int) -> u8 {
    FONT@[i]
}

/// Byte `i` of the font table is entry `i` of [`FONT`]: call this to learn
/// the bits of a glyph row.
pub proof fn lemma_font_byte(i: int)
    ensures
        font_byte(i) == FONT@[i],
{
}

/// Reads byte `i` of the font table.
pub fn byte_at(i: usize) -> (b: u8)
    requires
        i < 760,
    ensures
        b == font_byte(i as int),
{
    FONT[i]
}

} // verus!
