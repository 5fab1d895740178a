//! The 8x8 bitmap font the art is drawn with, and the ramp of glyphs that
//! lightness is mapped onto.
//!
//! Each glyph is eight rows of eight pixels. In a row byte, bit `x` is the
//! pixel in column `x`, counted from the left.

use vstd::prelude::*;

pub mod font_data;

use font_data::font_byte;

verus! {

/// Width of a glyph, in glyph pixels.
pub const GLYPH_WIDTH: u32 = 8;

/// Height of a glyph, in glyph pixels.
pub const GLYPH_HEIGHT: u32 = 8;

/// Code of the first character the font covers (the space).
pub const FIRST_CODE: u32 = 0x20;

/// Code of the last character the font covers (the tilde).
pub const LAST_CODE: u32 = 0x7e;


/// Whether the font has a glyph for `c`: printable ASCII, space included.
pub open spec fn is_printable(c: char) -> bool {
    FIRST_CODE <= (c as u32) && (c as u32) <= LAST_CODE
}

/// Row `y` of the glyph for the character with code `code`.
pub open spec fn code_row(code: int, y: int) -> u8 {
    font_byte((code - FIRST_CODE) * 8 + y)
}

/// Row `y` of the glyph for `c`.
pub open spec fn glyph_row(c: char, y: int) -> u8 {
    code_row(c as u32 as int, y)
}

/// Whether the glyph for the character with code `code` sets no pixel.
pub open spec fn blank_code(code: int) -> bool {
    forall|y: int| 0 <= y < 8 ==> #[trigger] code_row(code, y) == 0
}

/// Whether column `x` of a glyph row is set.
pub open spec fn pixel_set(row: u8, x: u32) -> bool {
    (row >> x) & 1u8 == 1u8
}

/// Whether the glyph for `c` sets pixel `(x, y)`.
pub open spec fn glyph_pixel(c: char, x: u32, y: u32) -> bool {
    pixel_set(glyph_row(c, y as int), x)
}

/// Length of the run of set pixels in `row` that starts at column `x`.
pub open spec fn run_length(row: u8, x: u32) -> nat
    decreases 8 - x,
{
    if x >= 8 || !pixel_set(row, x) {
        0
    } else {
        1 + run_length(row, (x + 1) as u32)
    }
}

/// The runs of set pixels in `row`, from column `x` rightwards, as
/// `(start, length)` pairs.
pub open spec fn runs_from(row: u8, x: u32) -> Seq<(u32, u32)>
    decreases 8 - x, 1int,
{
    if x >= 8 {
        Seq::empty()
    } else if !pixel_set(row, x) {
        runs_from(row, (x + 1) as u32)
    } else {
        proof {
            lemma_run_length_bounds(row, x);
        }
        seq![(x, run_length(row, x) as u32)] + runs_from(row, (x + run_length(row, x)) as u32)
    }
}

/// A run starting at a set pixel is at least one pixel long, and stops at the
/// right edge.
pub proof fn lemma_run_length_bounds(row: u8, x: u32)
    ensures
        x <= 8 ==> x + run_length(row, x) <= 8,
        x < 8 && pixel_set(row, x) ==> run_length(row, x) >= 1,
    decreases 8 - x,
{
    if x < 8 && pixel_set(row, x) {
        lemma_run_length_bounds(row, (x + 1) as u32);
    }
}

/// The pixels from `x` on that a run starting at `x` covers are all set, and
/// the pixel just past it is not (or is past the right edge).
proof fn lemma_run_length_covers(row: u8, x: u32)
    requires
        x <= 8,
    ensures
        forall|p: u32| x <= p < x + run_length(row, x) ==> pixel_set(row, p),
        x + run_length(row, x) < 8 ==> !pixel_set(row, (x + run_length(row, x)) as u32),
        x + run_length(row, x) <= 8,
    decreases 8 - x,
{
    lemma_run_length_bounds(row, x);
    if x < 8 && pixel_set(row, x) {
        lemma_run_length_covers(row, (x + 1) as u32);
        assert forall|p: u32| x <= p < x + run_length(row, x) implies pixel_set(row, p) by {
            if p > x {
                assert((x + 1) as u32 <= p);
            }
        }
    }
}

/// The runs from column `x` on: each is one or more set pixels inside the
/// row, runs come left to right with unset pixels between them, none can be
/// extended by a set pixel on either side, and together they cover exactly
/// the set pixels from `x` on.
proof fn lemma_runs_from(row: u8, x: u32)
    requires
        x <= 8,
        x == 0 || x == 8 || !pixel_set(row, x) || !pixel_set(row, (x - 1) as u32),
    ensures
        ({
            let runs = runs_from(row, x);
            &&& forall|i: int| #![trigger runs[i]]
                0 <= i < runs.len() ==> x <= runs[i].0 && runs[i].1 >= 1 && runs[i].0 + runs[i].1 <= 8
            &&& forall|i: int| #![trigger runs[i]]
                0 <= i < runs.len() ==> (runs[i].0 == 0 || !pixel_set(row, (runs[i].0 - 1) as u32))
                    && (runs[i].0 + runs[i].1 == 8 || !pixel_set(row, (runs[i].0 + runs[i].1) as u32))
            &&& forall|i: int| #![trigger runs[i], runs[i + 1]]
                0 <= i < runs.len() - 1 ==> runs[i].0 + runs[i].1 < runs[i + 1].0
            &&& forall|p: u32|
                x <= p < 8 ==> (pixel_set(row, p) <==> exists|i: int|
                    0 <= i < runs.len() && #[trigger] runs[i].0 <= p < runs[i].0 + runs[i].1)
        }),
    decreases 8 - x, 1int,
{
    let runs = runs_from(row, x);
    if x >= 8 {
    } else if !pixel_set(row, x) {
        lemma_runs_from(row, (x + 1) as u32);
        let rest = runs_from(row, (x + 1) as u32);
        assert(runs == rest);
        assert forall|p: u32| x <= p < 8 implies (pixel_set(row, p) <==> exists|i: int|
            0 <= i < runs.len() && #[trigger] runs[i].0 <= p < runs[i].0 + runs[i].1) by {
            if p == x {
                if exists|i: int| 0 <= i < runs.len() && #[trigger] runs[i].0 <= p < runs[i].0 + runs[i].1 {
                    let i = choose|i: int| 0 <= i < runs.len() && #[trigger] runs[i].0 <= p < runs[i].0 + runs[i].1;
                    assert(x + 1 <= runs[i].0);
                }
            }
        }
    } else {
        lemma_run_length_bounds(row, x);
        lemma_run_length_covers(row, x);
        let len = run_length(row, x);
        let next = (x + len) as u32;
        lemma_runs_from(row, next);
        let rest = runs_from(row, next);
        assert(runs == seq![(x, len as u32)] + rest);
        assert(runs[0] == (x, len as u32));
        assert forall|i: int| #![trigger runs[i]] 1 <= i < runs.len() implies runs[i] == rest[i - 1] by {}
        assert forall|i: int| #![trigger runs[i], runs[i + 1]]
            0 <= i < runs.len() - 1 implies runs[i].0 + runs[i].1 < runs[i + 1].0 by {
            if i == 0 {
                assert(runs[1] == rest[0]);
                assert(next <= rest[0].0);
                assert(rest[0].0 <= rest[0].0 < rest[0].0 + rest[0].1);
                assert(pixel_set(row, rest[0].0));
                assert(!pixel_set(row, next));
            } else {
                let j = i - 1;
                assert(runs[i] == rest[j]);
                assert(runs[i + 1] == rest[j + 1]);
                assert(rest[j].0 + rest[j].1 < rest[j + 1].0);
            }
        }
        assert forall|p: u32| x <= p < 8 implies (pixel_set(row, p) <==> exists|i: int|
            0 <= i < runs.len() && #[trigger] runs[i].0 <= p < runs[i].0 + runs[i].1) by {
            if p < next {
                assert(runs[0].0 <= p < runs[0].0 + runs[0].1);
            } else {
                if pixel_set(row, p) {
                    let j = choose|j: int| 0 <= j < rest.len() && #[trigger] rest[j].0 <= p < rest[j].0 + rest[j].1;
                    assert(runs[j + 1] == rest[j]);
                }
                if exists|i: int| 0 <= i < runs.len() && #[trigger] runs[i].0 <= p < runs[i].0 + runs[i].1 {
                    let i = choose|i: int| 0 <= i < runs.len() && #[trigger] runs[i].0 <= p < runs[i].0 + runs[i].1;
                    if i > 0 {
                        assert(runs[i] == rest[i - 1]);
                    }
                }
            }
        }
    }
}

/// The runs of a row, as `row_runs` returns them, are the row's set pixels
/// merged: each run is one or more set pixels inside the row, runs come left
/// to right with at least one unset pixel between them (a gap is never
/// bridged), no run can be extended by a set pixel on either side, and a
/// pixel is set exactly when a run covers it.
pub proof fn law_runs_cover_set_pixels(row: u8)
    ensures
        ({
            let runs = runs_from(row, 0);
            &&& forall|i: int| #![trigger runs[i]]
                0 <= i < runs.len() ==> runs[i].1 >= 1 && runs[i].0 + runs[i].1 <= 8
            &&& forall|i: int| #![trigger runs[i]]
                0 <= i < runs.len() ==> (runs[i].0 == 0 || !pixel_set(row, (runs[i].0 - 1) as u32))
                    && (runs[i].0 + runs[i].1 == 8 || !pixel_set(row, (runs[i].0 + runs[i].1) as u32))
            &&& forall|i: int| #![trigger runs[i], runs[i + 1]]
                0 <= i < runs.len() - 1 ==> runs[i].0 + runs[i].1 < runs[i + 1].0
            &&& forall|p: u32|
                p < 8 ==> (pixel_set(row, p) <==> exists|i: int|
                    0 <= i < runs.len() && #[trigger] runs[i].0 <= p < runs[i].0 + runs[i].1)
        }),
{
    lemma_runs_from(row, 0);
}

/// Inverting a ramp twice gives back the ramp.
pub proof fn law_invert_twice(ramp: Ramp)
    ensures
        ramp@.reverse().reverse() == ramp@,
{
    assert(ramp@.reverse().reverse() =~= ramp@);
}

/// Lightness 0 is drawn with the darkest glyph and 255 with the lightest,
/// whatever the length of the ramp.
pub proof fn law_ramp_ends(len: nat)
    requires
        len >= 1,
    ensures
        ramp_index(0, len) == 0,
        ramp_index(255, len) == len - 1,
{
    assert((255 * (len - 1) + 127) / 255 == len - 1) by (nonlinear_arith)
        requires len >= 1;
}

/// A lighter cell never gets a darker glyph.
pub proof fn law_ramp_monotone(lighter: u8, darker: u8, len: nat)
    requires
        darker <= lighter,
        len >= 1,
    ensures
        ramp_index(darker, len) <= ramp_index(lighter, len),
{
    assert((darker * (len - 1) + 127) / 255 <= (lighter * (len - 1) + 127) / 255) by (nonlinear_arith)
        requires darker <= lighter, len >= 1;
}

/// On an inverted ramp, a lightness picks the glyph that sits as far from
/// the end of the ramp as it picked from the start before inverting.
pub proof fn law_inverted_mirrors(glyphs: Seq<Glyph>, lightness: u8)
    requires
        glyphs.len() >= 1,
    ensures
        glyphs.reverse()[ramp_index(lightness, glyphs.len())] == glyphs[glyphs.len() - 1 - ramp_index(
            lightness,
            glyphs.len(),
        )],
{
    lemma_ramp_index_split(lightness, glyphs.len(), (glyphs.len() - 1) / 255, (glyphs.len() - 1) % 255);
}

/// A character of the font: which of the printable ASCII characters it is.
#[derive(Clone, Copy, Debug, PartialEq, Eq, Structural)]
pub struct Glyph {
    ch: char,
}

impl View for Glyph {
    type V = char;

    closed spec fn view(&self) -> char {
        self.ch
    }
}

impl Glyph {
    #[verifier::type_invariant]
    spec fn in_font(self) -> bool {
        is_printable(self.ch)
    }

    /// The glyph for `c`, if the font has one.
    pub fn from_char(c: char) -> (glyph: Option<Glyph>)
        ensures
            glyph is Some <==> is_printable(c),
            glyph matches Some(g) ==> g@ == c,
    {
        let code = c as u32;
        if FIRST_CODE <= code && code <= LAST_CODE {
            Some(Glyph { ch: c })
        } else {
            None
        }
    }

    /// The character this glyph draws.
    pub fn char(&self) -> (c: char)
        ensures
            c == self@,
            is_printable(c),
    {
        proof {
            use_type_invariant(self);
        }
        self.ch
    }

    /// Row `y` of the bitmap.
    pub fn row(&self, y: u32) -> (bits: u8)
        requires
            y < GLYPH_HEIGHT,
        ensures
            bits == glyph_row(self@, y as int),
    {
        proof {
            use_type_invariant(self);
        }
        let index = ((self.ch as u32 - FIRST_CODE) * 8 + y) as usize;
        font_data::byte_at(index)
    }

    /// Whether pixel `(x, y)` of the bitmap is set.
    pub fn is_set(&self, x: u32, y: u32) -> (set: bool)
        requires
            x < GLYPH_WIDTH,
            y < GLYPH_HEIGHT,
        ensures
            set == glyph_pixel(self@, x, y),
    {
        (self.row(y) >> x) & 1u8 == 1u8
    }

    /// The set pixels of row `y`, merged into maximal horizontal runs, left to
    /// right, as `(start, length)` pairs.
    pub fn row_runs(&self, y: u32) -> (runs: Vec<(u32, u32)>)
        requires
            y < GLYPH_HEIGHT,
        ensures
            runs@ == runs_from(glyph_row(self@, y as int), 0),
    {
        let bits = self.row(y);
        let mut runs: Vec<(u32, u32)> = Vec::new();
        let mut x: u32 = 0;
        while x < GLYPH_WIDTH
            invariant
                x <= 8,
                runs@ + runs_from(bits, x) == runs_from(bits, 0),
            decreases 8 - x,
        {
            if (bits >> x) & 1u8 == 1u8 {
                let start = x;
                proof {
                    lemma_run_length_bounds(bits, start);
                }
                while x < GLYPH_WIDTH && (bits >> x) & 1u8 == 1u8
                    invariant
                        start <= x <= 8,
                        start < 8,
                        pixel_set(bits, start),
                        run_length(bits, start) == (x - start) + run_length(bits, x),
                    decreases 8 - x,
                {
                    x = x + 1;
                }
                let ghost before = runs@;
                runs.push((start, x - start));
                assert(runs@ + runs_from(bits, x) == before + runs_from(bits, start));
            } else {
                x = x + 1;
            }
        }
        runs
    }
}

/// Which entry of a ramp of `len` glyphs a cell of `lightness` is drawn
/// with: the lightness scaled onto the ramp and rounded to the nearest entry,
/// so that 0 picks the darkest glyph and 255 the lightest.
pub open spec fn ramp_index(lightness: u8, len: nat) -> int {
    (lightness * (len - 1) + 127) / 255
}

/// The characters of a sequence of glyphs.
pub open spec fn glyph_chars(glyphs: Seq<Glyph>) -> Seq<char> {
    glyphs.map_values(|g: Glyph| g@)
}

/// The first character of `s` that the font cannot draw, if there is one.
pub open spec fn first_unrenderable(s: Seq<char>) -> Option<char>
    decreases s.len(),
{
    if s.len() == 0 {
        None
    } else if !is_printable(s[0]) {
        Some(s[0])
    } else {
        first_unrenderable(s.drop_first())
    }
}

/// The glyphs that lightness is mapped onto, darkest first. Never empty: it
/// is held as its darkest glyph and the ones after it.
#[derive(Clone, Debug)]
pub struct Ramp {
    darkest: Glyph,
    rest: Vec<Glyph>,
}

impl View for Ramp {
    type V = Seq<Glyph>;

    closed spec fn view(&self) -> Seq<Glyph> {
        seq![self.darkest] + self.rest@
    }
}

impl Ramp {
    /// The ramp used when none is given, darkest first.
    pub const DEFAULT: &'static str = " .:-=+*#%@";

    /// A ramp drawing with the characters of `chars`, darkest first.
    ///
    /// Fails with the first character the font has no glyph for, or with
    /// `None` when `chars` is empty.
    pub fn new(chars: &str) -> (ramp: Result<Ramp, Option<char>>)
        ensures
            match ramp {
                Ok(r) => {
                    &&& first_unrenderable(chars@) is None
                    &&& chars@.len() > 0
                    &&& glyph_chars(r@) == chars@
                },
                Err(Some(c)) => first_unrenderable(chars@) == Some(c),
                Err(None) => first_unrenderable(chars@) is None && chars@.len() == 0,
            },
    {
        let n = chars.unicode_len();
        assert(chars@.skip(0) == chars@);
        let mut glyphs: Vec<Glyph> = Vec::new();
        let mut i: usize = 0;
        while i < n
            invariant
                n == chars@.len(),
                i <= n,
                glyphs@.len() == i,
                glyph_chars(glyphs@) == chars@.take(i as int),
                first_unrenderable(chars@) == first_unrenderable(chars@.skip(i as int)),
            decreases n - i,
        {
            let c = chars.get_char(i);
            assert(chars@.skip(i as int)[0] == c);
            assert(chars@.skip(i as int).drop_first() == chars@.skip(i + 1));
            match Glyph::from_char(c) {
                Some(g) => {
                    glyphs.push(g);
                    assert(chars@.take(i + 1) == chars@.take(i as int).push(c));
                    assert(glyph_chars(glyphs@) == glyph_chars(glyphs@.drop_last()).push(g@));
                },
                None => {
                    return Err(Some(c));
                },
            }
            i = i + 1;
        }
        assert(chars@.skip(n as int).len() == 0);
        if n == 0 {
            return Err(None);
        }
        assert(chars@.take(n as int) == chars@);
        Ok(Ramp::from_glyphs(glyphs))
    }

    /// The ramp of `glyphs`, which must not be empty.
    fn from_glyphs(glyphs: Vec<Glyph>) -> (ramp: Ramp)
        requires
            glyphs@.len() > 0,
        ensures
            ramp@ == glyphs@,
    {
        let darkest = glyphs[0];
        let mut rest: Vec<Glyph> = Vec::new();
        let mut i: usize = 1;
        while i < glyphs.len()
            invariant
                1 <= i <= glyphs@.len(),
                rest@ == glyphs@.subrange(1, i as int),
            decreases glyphs@.len() - i,
        {
            rest.push(glyphs[i]);
            assert(rest@ == glyphs@.subrange(1, i + 1));
            i = i + 1;
        }
        assert(seq![darkest] + rest@ == glyphs@);
        Ramp { darkest, rest }
    }

    /// Entry `i` of the ramp, darkest first.
    fn at(&self, i: usize) -> (glyph: Glyph)
        requires
            i < self@.len(),
        ensures
            glyph == self@[i as int],
    {
        if i == 0 {
            self.darkest
        } else {
            self.rest[i - 1]
        }
    }


    /// The same glyphs, lightest first.
    pub fn inverted(&self) -> (ramp: Ramp)
        ensures
            ramp@ == self@.reverse(),
    {
        let last = self.rest.len();
        let mut glyphs: Vec<Glyph> = Vec::new();
        let mut i: usize = 0;
        while i < last
            invariant
                last + 1 == self@.len(),
                i <= last,
                glyphs@ == self@.reverse().take(i as int),
            decreases last - i,
        {
            glyphs.push(self.at(last - i));
            assert(glyphs@ == self@.reverse().take(i + 1));
            i = i + 1;
        }
        glyphs.push(self.darkest);
        assert(glyphs@ == self@.reverse());
        Ramp::from_glyphs(glyphs)
    }

    /// The glyph that a cell of `lightness` is drawn with.
    pub fn glyph_for(&self, lightness: u8) -> (glyph: Glyph)
        ensures
            self@.len() > 0,
            0 <= ramp_index(lightness, self@.len()) < self@.len(),
            glyph == self@[ramp_index(lightness, self@.len())],
    {
        let last = self.rest.len();
        let whole = last / 255;
        let rest = last % 255;
        let l = lightness as usize;
        proof {
            lemma_ramp_index_split(lightness, self@.len(), whole as int, rest as int);
        }
        let index = l * whole + (l * rest + 127) / 255;
        self.at(index)
    }
}

/// The ramp index computed without overflow: the last index split into whole
/// multiples of 255 and a remainder.
proof fn lemma_ramp_index_split(lightness: u8, len: nat, whole: int, rest: int)
    requires
        len >= 1,
        whole == (len - 1) / 255,
        rest == (len - 1) % 255,
    ensures
        ramp_index(lightness, len) == lightness * whole + (lightness * rest + 127) / 255,
        0 <= ramp_index(lightness, len) < len,
        lightness * whole <= len - 1,
        lightness * rest + 127 < 255 * 256,
{
    let l = lightness as int;
    let m = len - 1;
    assert(m == 255 * whole + rest) by (nonlinear_arith)
        requires whole == m / 255, rest == m % 255, m >= 0;
    assert(l * m + 127 == 255 * (l * whole) + (l * rest + 127)) by (nonlinear_arith)
        requires m == 255 * whole + rest;
    assert((l * m + 127) / 255 == l * whole + (l * rest + 127) / 255) by (nonlinear_arith)
        requires l * m + 127 == 255 * (l * whole) + (l * rest + 127), l * rest + 127 >= 0;
    assert(l * m + 127 <= 255 * m + 127) by (nonlinear_arith)
        requires 0 <= l <= 255, m >= 0;
    assert((l * m + 127) / 255 <= m) by (nonlinear_arith)
        requires l * m + 127 <= 255 * m + 127, m >= 0;
    assert(0 <= (l * m + 127) / 255) by (nonlinear_arith)
        requires l >= 0, m >= 0;
    assert(l * whole <= m) by (nonlinear_arith)
        requires 0 <= l <= 255, m == 255 * whole + rest, whole >= 0, rest >= 0;
    assert(l * rest + 127 < 255 * 256) by (nonlinear_arith)
        requires 0 <= l <= 255, 0 <= rest < 255;
}

} // verus!
