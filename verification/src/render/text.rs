//! Plain characters, one line per cell row.

use vstd::prelude::*;

use crate::ascii::{AsciiArt, ArtView, lemma_cell_index};
use crate::render::{Output, Renderer};
use crate::textfmt::push_char;

verus! {

/// The characters of row `row`, left to right.
pub open spec fn row_chars(art: ArtView, row: int) -> Seq<char> {
    Seq::new(art.columns as nat, |c: int| art.cell_at(c, row).glyph@)
}

/// The first `n` rows as lines of characters, each ended by a newline.
pub open spec fn text_lines(art: ArtView, n: nat) -> Seq<char>
    decreases n,
{
    if n == 0 {
        Seq::empty()
    } else {
        text_lines(art, (n - 1) as nat) + row_chars(art, n - 1) + seq!['\n']
    }
}

/// The whole grid as text: one line per row of cells.
pub open spec fn text_of(art: ArtView) -> Seq<char> {
    text_lines(art, art.rows as nat)
}

/// Two grids of the same shape whose cells hold the same glyphs.
pub open spec fn same_glyphs(a: ArtView, b: ArtView) -> bool {
    &&& a.columns == b.columns
    &&& a.rows == b.rows
    &&& a.cells.len() == b.cells.len()
    &&& forall|i: int| 0 <= i < a.cells.len() ==> #[trigger] a.cells[i].glyph == b.cells[i].glyph
}

/// The first `n` rows of two grids with the same glyphs are the same lines.
proof fn lemma_same_glyphs_same_lines(a: ArtView, b: ArtView, n: nat)
    requires
        a.well_formed(),
        same_glyphs(a, b),
        n <= a.rows,
    ensures
        text_lines(a, n) == text_lines(b, n),
    decreases n,
{
    if n > 0 {
        lemma_same_glyphs_same_lines(a, b, (n - 1) as nat);
        let row = n - 1;
        assert forall|c: int| 0 <= c < a.columns implies #[trigger] row_chars(a, row)[c] == row_chars(b, row)[c] by {
            lemma_cell_index(a.columns as int, a.rows as int, c, row);
            assert(a.cells[c + row * a.columns].glyph == b.cells[c + row * a.columns].glyph);
        }
        assert(row_chars(a, row) =~= row_chars(b, row));
    }
}

/// Color never reaches the text output: two grids of the same shape with the
/// same glyph in every cell render to the same text, whatever their colors
/// and lightness.
pub proof fn law_text_ignores_color(a: ArtView, b: ArtView)
    requires
        a.well_formed(),
        same_glyphs(a, b),
    ensures
        text_of(a) == text_of(b),
{
    lemma_same_glyphs_same_lines(a, b, a.rows as nat);
}

/// Plain characters, one line per cell row. Ignores color entirely.
pub struct TextRenderer;

impl Renderer for TextRenderer {
    open spec fn can_render(&self, art: ArtView) -> bool {
        art.columns > 0
    }

    fn extension(&self) -> (extension: &'static str)
        ensures
            extension@ == "txt"@,
    {
        "txt"
    }

    fn is_textual(&self) -> (textual: bool)
        ensures
            textual == true,
    {
        true
    }

    fn render(&self, art: &AsciiArt) -> (out: Result<Output, String>)
        ensures
            out matches Ok(Output::Text(text)) && text@ == text_of(art@),
    {
        let columns = art.columns();
        let rows = art.rows();
        let mut text = String::new();
        let mut r: u32 = 0;
        while r < rows
            invariant
                columns == art@.columns,
                rows == art@.rows,
                art@.well_formed(),
                r <= rows,
                text@ == text_lines(art@, r as nat),
            decreases rows - r,
        {
            let ghost before = text@;
            let mut c: u32 = 0;
            while c < columns
                invariant
                    columns == art@.columns,
                    rows == art@.rows,
                    art@.well_formed(),
                    r < rows,
                    c <= columns,
                    text@ == before + row_chars(art@, r as int).take(c as int),
                decreases columns - c,
            {
                proof {
                    lemma_cell_index(columns as int, rows as int, c as int, r as int);
                }
                let cell = art.cell(c, r);
                push_char(&mut text, cell.glyph.char());
                assert(row_chars(art@, r as int).take(c + 1) == row_chars(art@, r as int).take(c as int).push(
                    cell.glyph@,
                ));
                c = c + 1;
            }
            assert(row_chars(art@, r as int).take(columns as int) == row_chars(art@, r as int));
            push_char(&mut text, '\n');
            r = r + 1;
        }
        Ok(Output::Text(text))
    }
}

} // verus!
