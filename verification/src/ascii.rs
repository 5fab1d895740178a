//! The intermediate representation every renderer consumes.
//!
//! Extraction produces an [`AsciiArt`] and stops there: it knows nothing about
//! output formats, and renderers know nothing about images.

use vstd::prelude::*;
use vstd::string::StringSliceAdditionalSpecFns;
use vstd::utf8::{encode_utf8, is_ascii_chars, is_ascii_chars_encode_utf8};

use crate::font::{Glyph, GLYPH_HEIGHT, GLYPH_WIDTH};
use crate::textfmt::{HEX_DIGITS, hex_byte, push_char, push_hex_byte};

verus! {

/// The value of an ASCII hexadecimal digit, in either case.
pub open spec fn hex_value(b: u8) -> Option<u8> {
    if 0x30 <= b <= 0x39 {
        Some((b - 0x30) as u8)
    } else if 0x61 <= b <= 0x66 {
        Some((b - 0x61 + 10) as u8)
    } else if 0x41 <= b <= 0x46 {
        Some((b - 0x41 + 10) as u8)
    } else {
        None
    }
}

/// A one-digit hexadecimal number.
pub open spec fn parse_hex_digit(d: u8) -> Option<u8> {
    hex_value(d)
}

/// A two-digit hexadecimal number: hex digits only, no sign.
pub open spec fn parse_hex_pair(hi: u8, lo: u8) -> Option<u8> {
    match (hex_value(hi), hex_value(lo)) {
        (Some(h), Some(l)) => Some((h * 16 + l) as u8),
        _ => None,
    }
}

/// Whether `u8::from_str_radix(.., 16)` accepts the two bytes: two digits,
/// or a `+` sign and one digit. The text is read a pair at a time, and the
/// next pair is cut off the text only after this one was accepted.
pub open spec fn radix_accepts_pair(hi: u8, lo: u8) -> bool {
    if hi == 0x2b {
        hex_value(lo) is Some
    } else {
        parse_hex_pair(hi, lo) is Some
    }
}

/// `s` without one leading `#`, if it has one.
pub open spec fn strip_hash(s: Seq<u8>) -> Seq<u8> {
    if s.len() > 0 && s[0] == 0x23 {
        s.drop_first()
    } else {
        s
    }
}

/// Whether a byte continues a UTF-8 sequence, so that no character starts
/// there.
pub open spec fn is_continuation(b: u8) -> bool {
    0x80 <= b <= 0xbf
}

/// Whether reading the UTF-8 `bytes` as a hex color only ever cuts the text
/// between characters. The text is cut one digit (or pair of digits) at a
/// time, each cut read with `u8::from_str_radix` before the next is made,
/// and every cut that is reached must start and end on a character boundary:
/// cutting inside a character panics.
pub open spec fn hex_cuts_on_boundaries(bytes: Seq<u8>) -> bool {
    let h = strip_hash(bytes);
    &&& h.len() == 3 ==> !is_continuation(h[1]) && (parse_hex_digit(h[0]) is Some ==> !is_continuation(h[2]))
    &&& h.len() == 6 ==> !is_continuation(h[2]) && (radix_accepts_pair(h[0], h[1]) ==> !is_continuation(h[4]))
}

/// The color that `#rgb`, `#rrggbb`, or the same without the `#` spell, in
/// UTF-8 bytes.
pub open spec fn color_from_hex(bytes: Seq<u8>) -> Option<Color> {
    let h = strip_hash(bytes);
    if h.len() == 3 {
        match (parse_hex_digit(h[0]), parse_hex_digit(h[1]), parse_hex_digit(h[2])) {
            (Some(r), Some(g), Some(b)) => Some(
                Color { r: (r * 17) as u8, g: (g * 17) as u8, b: (b * 17) as u8 },
            ),
            _ => None,
        }
    } else if h.len() == 6 {
        match (parse_hex_pair(h[0], h[1]), parse_hex_pair(h[2], h[3]), parse_hex_pair(h[4], h[5])) {
            (Some(r), Some(g), Some(b)) => Some(Color { r, g, b }),
            _ => None,
        }
    } else {
        None
    }
}

/// The text of `#rrggbb` for `c`, in lowercase hex.
pub open spec fn hex_text(c: Color) -> Seq<char> {
    seq!['#'] + hex_byte(c.r) + hex_byte(c.g) + hex_byte(c.b)
}

/// The lowercase hex digits read back as their values.
proof fn lemma_hex_digits_read_back()
    ensures
        forall|d: int| 0 <= d < 16 ==> hex_value(#[trigger] HEX_DIGITS@[d] as u8) == Some(d as u8),
        forall|d: int| 0 <= d < 16 ==> '\0' <= #[trigger] HEX_DIGITS@[d] <= '\u{7f}',
{
    assert forall|d: int| 0 <= d < 16 implies hex_value(#[trigger] HEX_DIGITS@[d] as u8) == Some(d as u8) by {
        if d == 0 { } else if d == 1 { } else if d == 2 { } else if d == 3 { } else if d == 4 { }
        else if d == 5 { } else if d == 6 { } else if d == 7 { } else if d == 8 { } else if d == 9 { }
        else if d == 10 { } else if d == 11 { } else if d == 12 { } else if d == 13 { } else if d == 14 { }
        else { }
    }
}

/// What [`Color::to_hex`] writes is what [`Color::from_hex`] reads back:
/// parsing the UTF-8 of the hex text of `c` gives `c`, and cuts the text only
/// between characters.
pub proof fn law_hex_round_trip(c: Color)
    ensures
        hex_cuts_on_boundaries(encode_utf8(hex_text(c))),
        color_from_hex(encode_utf8(hex_text(c))) == Some(c),
{
    let text = hex_text(c);
    lemma_hex_digits_read_back();
    assert(is_ascii_chars(text));
    is_ascii_chars_encode_utf8(text);
    let bytes = encode_utf8(text);
    let h = strip_hash(bytes);
    assert(bytes[0] == 0x23);
    assert(h.len() == 6);
    assert forall|v: u8| (#[trigger] parse_hex_pair(HEX_DIGITS@[(v / 16) as int] as u8, HEX_DIGITS@[(v % 16) as int] as u8)) == Some(v) by {
        assert((v / 16) * 16 + v % 16 == v);
    }
    assert(h[0] == HEX_DIGITS@[(c.r / 16) as int] as u8);
    assert(h[1] == HEX_DIGITS@[(c.r % 16) as int] as u8);
    assert(h[2] == HEX_DIGITS@[(c.g / 16) as int] as u8);
    assert(h[3] == HEX_DIGITS@[(c.g % 16) as int] as u8);
    assert(h[4] == HEX_DIGITS@[(c.b / 16) as int] as u8);
    assert(h[5] == HEX_DIGITS@[(c.b % 16) as int] as u8);
}

/// The hex text of `c` reads back as `c` without its `#` too: `rrggbb`
/// alone is read as `#rrggbb` is, and cut only between characters.
pub proof fn law_hex_round_trip_without_hash(c: Color)
    ensures
        hex_cuts_on_boundaries(encode_utf8(hex_text(c).drop_first())),
        color_from_hex(encode_utf8(hex_text(c).drop_first())) == Some(c),
{
    let digits = hex_text(c).drop_first();
    lemma_hex_digits_read_back();
    assert(is_ascii_chars(digits));
    is_ascii_chars_encode_utf8(digits);
    let bytes = encode_utf8(digits);
    assert(bytes.len() == 6);
    assert forall|v: u8| (#[trigger] parse_hex_pair(HEX_DIGITS@[(v / 16) as int] as u8, HEX_DIGITS@[(v % 16) as int] as u8)) == Some(v) by {
        assert((v / 16) * 16 + v % 16 == v);
    }
    assert(bytes[0] == HEX_DIGITS@[(c.r / 16) as int] as u8);
    assert(hex_value(bytes[0]) is Some);
    assert(strip_hash(bytes) == bytes);
    assert(bytes[1] == HEX_DIGITS@[(c.r % 16) as int] as u8);
    assert(bytes[2] == HEX_DIGITS@[(c.g / 16) as int] as u8);
    assert(bytes[3] == HEX_DIGITS@[(c.g % 16) as int] as u8);
    assert(bytes[4] == HEX_DIGITS@[(c.b / 16) as int] as u8);
    assert(bytes[5] == HEX_DIGITS@[(c.b % 16) as int] as u8);
}

/// The short form `#rgb` is the long form with every digit doubled:
/// `#abc` reads as `#aabbcc`.
pub proof fn law_short_hex_doubles(d0: u8, d1: u8, d2: u8)
    ensures
        color_from_hex(seq![d0, d1, d2]) == color_from_hex(seq![d0, d0, d1, d1, d2, d2]),
{
    assert forall|d: u8| #[trigger] parse_hex_pair(d, d) == (match parse_hex_digit(d) {
        Some(v) => Some((v * 17) as u8),
        None => None::<u8>,
    }) by {
    }
    assert(strip_hash(seq![d0, d1, d2]) =~= seq![d0, d1, d2] || d0 == 0x23);
    if d0 == 0x23 {
        assert(parse_hex_digit(d0) is None);
        assert(strip_hash(seq![d0, d1, d2]) =~= seq![d1, d2]);
        assert(strip_hash(seq![d0, d0, d1, d1, d2, d2]) =~= seq![d0, d1, d1, d2, d2]);
    } else {
        assert(strip_hash(seq![d0, d0, d1, d1, d2, d2]) =~= seq![d0, d0, d1, d1, d2, d2]);
    }
}

/// An 8-bit-per-channel RGB color.
#[derive(Clone, Copy, PartialEq, Eq, Debug, Structural)]
pub struct Color {
    pub r: u8,
    pub g: u8,
    pub b: u8,
}

/// The value of one ASCII hex digit.
fn hex_digit_value(d: u8) -> (v: Option<u8>)
    ensures
        v == hex_value(d),
{
    if 0x30 <= d && d <= 0x39 {
        Some(d - 0x30)
    } else if 0x61 <= d && d <= 0x66 {
        Some(d - 0x61 + 10)
    } else if 0x41 <= d && d <= 0x46 {
        Some(d - 0x41 + 10)
    } else {
        None
    }
}

/// Reads two bytes as one hexadecimal number.
fn hex_pair_value(hi: u8, lo: u8) -> (v: Option<u8>)
    ensures
        v == parse_hex_pair(hi, lo),
{
    match (hex_digit_value(hi), hex_digit_value(lo)) {
        (Some(h), Some(l)) => Some(h * 16 + l),
        _ => None,
    }
}

impl Color {
    pub fn new(r: u8, g: u8, b: u8) -> (c: Color)
        ensures
            c == (Color { r, g, b }),
    {
        Color { r, g, b }
    }

    /// The gray whose three channels are `level`.
    pub fn gray(level: u8) -> (c: Color)
        ensures
            c == (Color { r: level, g: level, b: level }),
    {
        Color::new(level, level, level)
    }

    /// Parses `#rgb`, `#rrggbb`, or the same without the leading `#`.
    pub fn from_hex(hex: &str) -> (color: Option<Color>)
        requires
            hex_cuts_on_boundaries(hex.spec_bytes()),
        ensures
            color == color_from_hex(hex.spec_bytes()),
    {
        let all = hex.as_bytes();
        let skip: usize = if all.len() > 0 && all[0] == 0x23 { 1 } else { 0 };
        let n = all.len() - skip;
        let ghost h = strip_hash(hex.spec_bytes());
        assert(h.len() == n);
        assert(forall|i: int| 0 <= i < n ==> h[i] == all@[i + skip]);
        if n == 3 {
            let r = match hex_digit_value(all[skip]) {
                Some(v) => v,
                None => return None,
            };
            let g = match hex_digit_value(all[skip + 1]) {
                Some(v) => v,
                None => return None,
            };
            let b = match hex_digit_value(all[skip + 2]) {
                Some(v) => v,
                None => return None,
            };
            Some(Color::new(r * 0x11, g * 0x11, b * 0x11))
        } else if n == 6 {
            let r = match hex_pair_value(all[skip], all[skip + 1]) {
                Some(v) => v,
                None => return None,
            };
            let g = match hex_pair_value(all[skip + 2], all[skip + 3]) {
                Some(v) => v,
                None => return None,
            };
            let b = match hex_pair_value(all[skip + 4], all[skip + 5]) {
                Some(v) => v,
                None => return None,
            };
            Some(Color::new(r, g, b))
        } else {
            None
        }
    }

    /// `#rrggbb`, in lowercase hex.
    pub fn to_hex(self) -> (hex: String)
        ensures
            hex@ == hex_text(self),
    {
        let mut hex = String::new();
        push_char(&mut hex, '#');
        push_hex_byte(&mut hex, self.r);
        push_hex_byte(&mut hex, self.g);
        push_hex_byte(&mut hex, self.b);
        hex
    }

    /// The channels as `[r, g, b]`.
    pub fn channels(self) -> (channels: [u8; 3])
        ensures
            channels@ == seq![self.r, self.g, self.b],
    {
        [self.r, self.g, self.b]
    }
}

/// Whether cells keep the color they were sampled from, or are flattened to
/// their lightness.
#[derive(Clone, Copy, PartialEq, Eq, Debug, Structural)]
pub enum ColorMode {
    Monochrome,
    Color,
}

/// The color a cell of `color` and `lightness` is drawn in under `mode`.
pub open spec fn color_under(mode: ColorMode, color: Color, lightness: u8) -> Color {
    match mode {
        ColorMode::Color => color,
        ColorMode::Monochrome => Color { r: lightness, g: lightness, b: lightness },
    }
}

/// One character of the output: which glyph to draw, and in what color.
#[derive(Clone, Copy, Debug)]
pub struct Cell {
    pub glyph: Glyph,
    /// Average color of the source region this cell was sampled from.
    pub color: Color,
    /// Lightness of that same region, which is what picked the glyph.
    pub lightness: u8,
}

impl Cell {
    /// The color to draw this cell in under `mode`.
    pub fn color_in(&self, mode: ColorMode) -> (c: Color)
        ensures
            c == color_under(mode, self.color, self.lightness),
    {
        match mode {
            ColorMode::Color => self.color,
            ColorMode::Monochrome => Color::gray(self.lightness),
        }
    }
}

/// What an [`AsciiArt`] holds: its size in cells, and the cells row by row,
/// left to right.
pub struct ArtView {
    pub columns: u32,
    pub rows: u32,
    pub cells: Seq<Cell>,
}

impl ArtView {
    /// One cell per grid position, and a grid small enough to count in `u32`.
    pub open spec fn well_formed(self) -> bool {
        &&& self.columns * self.rows <= u32::MAX
        &&& self.cells.len() == self.columns * self.rows
    }

    /// The cell at `(column, row)`.
    pub open spec fn cell_at(self, column: int, row: int) -> Cell {
        self.cells[column + row * self.columns]
    }
}

/// A position inside the grid is a position inside the cells.
pub proof fn lemma_cell_index(columns: int, rows: int, column: int, row: int)
    requires
        0 <= column < columns,
        0 <= row < rows,
    ensures
        0 <= row * columns,
        0 <= column + row * columns < columns * rows,
{
    assert(0 <= column + row * columns < columns * rows) by (nonlinear_arith)
        requires 0 <= column < columns, 0 <= row < rows;
    assert(0 <= row * columns) by (nonlinear_arith)
        requires 0 <= column < columns, 0 <= row < rows;
}

/// A grid of [`Cell`]s: the picture, as characters.
pub struct AsciiArt {
    columns: u32,
    rows: u32,
    cells: Vec<Cell>,
}

impl View for AsciiArt {
    type V = ArtView;

    closed spec fn view(&self) -> ArtView {
        ArtView { columns: self.columns, rows: self.rows, cells: self.cells@ }
    }
}

impl AsciiArt {
    #[verifier::type_invariant]
    spec fn grid_is_full(self) -> bool {
        self@.well_formed()
    }

    /// The art of `columns` by `rows` cells, given row by row.
    pub fn new(columns: u32, rows: u32, cells: Vec<Cell>) -> (art: AsciiArt)
        requires
            columns * rows <= u32::MAX,
            cells@.len() == columns * rows,
        ensures
            art@ == (ArtView { columns, rows, cells: cells@ }),
    {
        AsciiArt { columns, rows, cells }
    }

    pub fn columns(&self) -> (columns: u32)
        ensures
            columns == self@.columns,
            self@.well_formed(),
    {
        proof {
            use_type_invariant(self);
        }
        self.columns
    }

    pub fn rows(&self) -> (rows: u32)
        ensures
            rows == self@.rows,
            self@.well_formed(),
    {
        proof {
            use_type_invariant(self);
        }
        self.rows
    }

    /// Width of the art in glyph pixels, before any render scaling.
    pub fn width_in_glyph_px(&self) -> (width: u32)
        requires
            self@.columns * GLYPH_WIDTH <= u32::MAX,
        ensures
            width == self@.columns * GLYPH_WIDTH,
    {
        self.columns * GLYPH_WIDTH
    }

    /// Height of the art in glyph pixels, before any render scaling.
    pub fn height_in_glyph_px(&self) -> (height: u32)
        requires
            self@.rows * GLYPH_HEIGHT <= u32::MAX,
        ensures
            height == self@.rows * GLYPH_HEIGHT,
    {
        self.rows * GLYPH_HEIGHT
    }

    /// The cell at `(column, row)`, counting the grid row by row.
    pub fn cell(&self, column: u32, row: u32) -> (cell: &Cell)
        requires
            column + row * self@.columns < self@.cells.len(),
        ensures
            *cell == self@.cells[column + row * self@.columns],
    {
        proof {
            use_type_invariant(self);
            assert(row * self.columns <= column + row * self.columns);
        }
        &self.cells[(column + row * self.columns) as usize]
    }

    /// The rows of the grid, top to bottom, each left to right.
    pub fn rows_iter(&self) -> (rows: Vec<&[Cell]>)
        requires
            self@.columns > 0,
        ensures
            rows@.len() == self@.rows,
            forall|r: int|
                0 <= r < self@.rows ==> (#[trigger] rows@[r])@ == self@.cells.subrange(
                    r * self@.columns,
                    (r + 1) * self@.columns,
                ),
    {
        proof {
            use_type_invariant(self);
        }
        let mut rows: Vec<&[Cell]> = Vec::new();
        let mut r: u32 = 0;
        let width = self.columns as usize;
        while r < self.rows
            invariant
                self@.well_formed(),
                width == self.columns,
                width > 0,
                r <= self.rows,
                rows@.len() == r,
                forall|i: int|
                    0 <= i < r ==> (#[trigger] rows@[i])@ == self@.cells.subrange(
                        i * self@.columns,
                        (i + 1) * self@.columns,
                    ),
            decreases self.rows - r,
        {
            proof {
                assert(r * self.columns + self.columns <= self.columns * self.rows) by (nonlinear_arith)
                    requires r < self.rows;
                assert((r + 1) * self.columns == r * self.columns + self.columns) by (nonlinear_arith);
                assert(self.cells@.len() <= usize::MAX);
            }
            let start = r as usize * width;
            let row = vstd::slice::slice_subrange(self.cells.as_slice(), start, start + width);
            rows.push(row);
            r = r + 1;
        }
        rows
    }
}

} // verus!
