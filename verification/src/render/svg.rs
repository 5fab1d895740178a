//! Vector output: each glyph of the 8x8 font is defined once in `<defs>` as a
//! handful of rectangles, then stamped per cell with `<use>`.

use vstd::prelude::*;

use crate::ascii::{AsciiArt, ArtView, Cell, ColorMode, color_under, hex_text};
use crate::font::{Glyph, GLYPH_HEIGHT, GLYPH_WIDTH, FIRST_CODE, blank_code, code_row, runs_from};
use crate::render::{Options, Output, Renderer};
use crate::textfmt::{decimal, push_char, push_decimal, push_str};
use std::collections::BTreeMap;

verus! {

/// The `id` a glyph is stamped under: `g` and its character's code point.
/// Glyph chars are printable ASCII, but plenty of them (`#`, `%`, `"`) are
/// awkward in an id.
pub open spec fn glyph_id_text(code: int) -> Seq<char> {
    seq!['g'] + decimal(code as nat)
}

/// One run of set glyph pixels, as a rectangle one glyph pixel high.
pub open spec fn rect_text(x: u32, y: int, length: u32) -> Seq<char> {
    "<rect x=\""@ + decimal(x as nat) + "\" y=\""@ + decimal(y as nat) + "\" width=\""@ + decimal(length as nat)
        + "\" height=\"1\"/>"@
}

/// The rectangles of `runs` on glyph row `y`, in order.
pub open spec fn runs_text(runs: Seq<(u32, u32)>, y: int) -> Seq<char>
    decreases runs.len(),
{
    if runs.len() == 0 {
        Seq::empty()
    } else {
        runs_text(runs.drop_last(), y) + rect_text(runs.last().0, y, runs.last().1)
    }
}

/// The rectangles of the first `n` rows of the glyph with code `code`.
pub open spec fn glyph_rects(code: int, n: nat) -> Seq<char>
    decreases n,
{
    if n == 0 {
        Seq::empty()
    } else {
        glyph_rects(code, (n - 1) as nat) + runs_text(runs_from(code_row(code, n - 1), 0), n - 1)
    }
}

/// The definition of the glyph with code `code`: a `<g>` holding its set
/// pixels merged into horizontal runs. No `fill` here: each `<use>` supplies
/// its own, and it inherits into the referenced shapes.
pub open spec fn glyph_def(code: int) -> Seq<char> {
    "    <g id=\""@ + glyph_id_text(code) + "\">"@ + glyph_rects(code, 8) + "</g>\n"@
}

/// The code of the glyph of cell `i`.
pub open spec fn cell_code(art: ArtView, i: int) -> int {
    art.cells[i].glyph@ as u32 as int
}

/// Whether one of the first `k` cells draws the character with code `code`.
pub open spec fn used_before(art: ArtView, code: int, k: int) -> bool {
    exists|i: int| 0 <= i < k && #[trigger] cell_code(art, i) == code
}

/// The definitions of the drawn, non-blank glyphs among the first `n` codes
/// of the font, in code order: each at most once.
pub open spec fn defs_upto(art: ArtView, n: nat) -> Seq<char>
    decreases n,
{
    if n == 0 {
        Seq::empty()
    } else {
        let code = FIRST_CODE + n - 1;
        defs_upto(art, (n - 1) as nat) + if used_before(art, code, art.cells.len() as int) && !blank_code(code) {
            glyph_def(code)
        } else {
            Seq::empty()
        }
    }
}

/// The `<defs>` block: one definition per distinct non-blank glyph.
pub open spec fn defs_text(art: ArtView) -> Seq<char> {
    "  <defs>\n"@ + defs_upto(art, 95) + "  </defs>\n"@
}

/// The `<use>` stamping the cell at `(column, row)` in its color, or nothing
/// for a blank glyph.
pub open spec fn use_text(art: ArtView, mode: ColorMode, column: int, row: int) -> Seq<char> {
    use_line(art.cell_at(column, row), mode, column, row)
}

/// The `<use>` stamping `cell` at `(column, row)` in its color, or nothing
/// for a blank glyph.
pub open spec fn use_line(cell: Cell, mode: ColorMode, column: int, row: int) -> Seq<char> {
    let code = cell.glyph@ as u32 as int;
    if blank_code(code) {
        Seq::empty()
    } else {
        "  <use href=\"#"@ + glyph_id_text(code) + "\" x=\""@ + decimal((column * 8) as nat) + "\" y=\""@
            + decimal((row * 8) as nat) + "\" fill=\""@ + hex_text(color_under(mode, cell.color, cell.lightness))
            + "\"/>"@ + seq!['\n']
    }
}

/// The `<use>`s of the first `n` cells of row `row`.
pub open spec fn use_row(art: ArtView, mode: ColorMode, row: int, n: nat) -> Seq<char>
    decreases n,
{
    if n == 0 {
        Seq::empty()
    } else {
        use_row(art, mode, row, (n - 1) as nat) + use_text(art, mode, n - 1, row)
    }
}

/// The `<use>`s of the first `n` rows.
pub open spec fn use_rows(art: ArtView, mode: ColorMode, n: nat) -> Seq<char>
    decreases n,
{
    if n == 0 {
        Seq::empty()
    } else {
        use_rows(art, mode, (n - 1) as nat) + use_row(art, mode, n - 1, art.columns as nat)
    }
}

/// The opening tag: user units are glyph pixels, and the scale only sets the
/// default width and height.
pub open spec fn svg_open(art: ArtView, scale: u32) -> Seq<char> {
    let wide = art.columns * 8;
    let high = art.rows * 8;
    "<svg xmlns=\"http://www.w3.org/2000/svg\" width=\""@ + decimal((wide * scale) as nat) + "\" height=\""@
        + decimal((high * scale) as nat) + "\" viewBox=\"0 0 "@ + decimal(wide as nat) + " "@ + decimal(
        high as nat,
    ) + "\" shape-rendering=\"crispEdges\">\n"@
}

/// The whole document.
pub open spec fn svg_of(art: ArtView, options: Options) -> Seq<char> {
    svg_open(art, options.scale) + "  <title>sita</title>\n"@ + "  <rect width=\"100%\" height=\"100%\" fill=\""@
        + hex_text(options.background) + "\"/>\n"@ + defs_text(art) + use_rows(
        art,
        options.color_mode,
        art.rows as nat,
    ) + "</svg>\n"@
}

/// The start of a `<use>`: the glyph with code `code` placed at `(x, y)`,
/// up to the opening quote of its fill.
pub open spec fn stamp(code: int, x: int, y: int) -> Seq<char> {
    "  <use href=\"#"@ + glyph_id_text(code) + "\" x=\""@ + decimal(x as nat) + "\" y=\""@ + decimal(y as nat)
        + "\" fill=\""@
}

/// The view box of an SVG `width` by `height` user units.
pub open spec fn view_box(width: int, height: int) -> Seq<char> {
    "\" viewBox=\"0 0 "@ + decimal(width as nat) + " "@ + decimal(height as nat) + "\" shape-rendering=\"crispEdges\">\n"@
}

/// Whether `part` occurs in `text`.
pub open spec fn occurs_in(part: Seq<char>, text: Seq<char>) -> bool {
    exists|p: Seq<char>, q: Seq<char>| #[trigger] (p + part + q) == text
}

/// What occurs in a piece of a text occurs in the text.
proof fn lemma_occurs_within(part: Seq<char>, mid: Seq<char>, a: Seq<char>, b: Seq<char>)
    requires
        occurs_in(part, mid),
    ensures
        occurs_in(part, a + mid + b),
{
    let (p, q) = choose|p: Seq<char>, q: Seq<char>| #[trigger] (p + part + q) == mid;
    assert((a + p) + part + (q + b) =~= a + mid + b);
}

/// The `<use>`s of the first `n` cells of a row are those of the first `c`,
/// then that of cell `c`, then the rest.
proof fn lemma_use_row_split(art: ArtView, mode: ColorMode, row: int, c: nat, n: nat) -> (rest: Seq<char>)
    requires
        c < n,
    ensures
        use_row(art, mode, row, n) == use_row(art, mode, row, c) + use_text(art, mode, c as int, row) + rest,
    decreases n,
{
    if n == c + 1 {
        assert(use_row(art, mode, row, n) =~= use_row(art, mode, row, c) + use_text(art, mode, c as int, row)
            + Seq::empty());
        Seq::empty()
    } else {
        let rest = lemma_use_row_split(art, mode, row, c, (n - 1) as nat);
        let more = rest + use_text(art, mode, n - 1, row);
        assert(use_row(art, mode, row, n) =~= use_row(art, mode, row, c) + use_text(art, mode, c as int, row) + more);
        more
    }
}

/// The `<use>`s of the first `n` rows are those of the first `r`, then those
/// of row `r`, then the rest.
proof fn lemma_use_rows_split(art: ArtView, mode: ColorMode, r: nat, n: nat) -> (rest: Seq<char>)
    requires
        r < n,
    ensures
        use_rows(art, mode, n) == use_rows(art, mode, r) + use_row(art, mode, r as int, art.columns as nat) + rest,
    decreases n,
{
    if n == r + 1 {
        assert(use_rows(art, mode, n) =~= use_rows(art, mode, r) + use_row(art, mode, r as int, art.columns as nat)
            + Seq::empty());
        Seq::empty()
    } else {
        let rest = lemma_use_rows_split(art, mode, r, (n - 1) as nat);
        let more = rest + use_row(art, mode, n - 1, art.columns as nat);
        assert(use_rows(art, mode, n) =~= use_rows(art, mode, r) + use_row(art, mode, r as int, art.columns as nat)
            + more);
        more
    }
}

/// The view box is in the opening tag.
proof fn lemma_view_box_in_open(art: ArtView, scale: u32)
    ensures
        occurs_in(view_box(8 * art.columns, 8 * art.rows), svg_open(art, scale)),
{
    let wide = art.columns * 8;
    let high = art.rows * 8;
    let head = "<svg xmlns=\"http://www.w3.org/2000/svg\" width=\""@ + decimal((wide * scale) as nat) + "\" height=\""@
        + decimal((high * scale) as nat);
    let vb = view_box(8 * art.columns, 8 * art.rows);
    assert(svg_open(art, scale) =~= head + vb + Seq::empty());
}

/// Where the SVG stamps each cell: the view box is `8 * columns` by
/// `8 * rows` user units, and the cell at `(column, row)`, unless its glyph
/// is blank, is stamped with its glyph at `x = 8 * column`, `y = 8 * row`,
/// inside the view box, beside its left neighbour and below the cell above.
pub proof fn law_cells_are_stamped_in_place(art: ArtView, options: Options, column: int, row: int)
    requires
        0 <= column < art.columns,
        0 <= row < art.rows,
        !blank_code(art.cell_at(column, row).glyph@ as u32 as int),
    ensures
        occurs_in(view_box(8 * art.columns, 8 * art.rows), svg_of(art, options)),
        occurs_in(stamp(art.cell_at(column, row).glyph@ as u32 as int, 8 * column, 8 * row), svg_of(art, options)),
        0 <= 8 * column && 8 * column + 8 <= 8 * art.columns,
        0 <= 8 * row && 8 * row + 8 <= 8 * art.rows,
{
    let mode = options.color_mode;
    let cell = art.cell_at(column, row);
    let code = cell.glyph@ as u32 as int;
    let part = stamp(code, 8 * column, 8 * row);
    let e = Seq::<char>::empty();
    let open = svg_open(art, options.scale);
    let after_open = "  <title>sita</title>\n"@ + "  <rect width=\"100%\" height=\"100%\" fill=\""@ + hex_text(
        options.background,
    ) + "\"/>\n"@ + defs_text(art) + use_rows(art, mode, art.rows as nat) + "</svg>\n"@;
    assert(svg_of(art, options) =~= e + open + after_open) by {
        assert(svg_of(art, options) =~= open + after_open);
    }
    lemma_view_box_in_open(art, options.scale);
    lemma_occurs_within(view_box(8 * art.columns, 8 * art.rows), open, e, after_open);

    let fill_tail = hex_text(color_under(mode, cell.color, cell.lightness)) + "\"/>"@ + seq!['\n'];
    assert(use_text(art, mode, column, row) =~= e + part + fill_tail);
    assert(occurs_in(part, use_text(art, mode, column, row)));
    let tail_row = lemma_use_row_split(art, mode, row, column as nat, art.columns as nat);
    lemma_occurs_within(part, use_text(art, mode, column, row), use_row(art, mode, row, column as nat), tail_row);
    let tail_rows = lemma_use_rows_split(art, mode, row as nat, art.rows as nat);
    lemma_occurs_within(
        part,
        use_row(art, mode, row, art.columns as nat),
        use_rows(art, mode, row as nat),
        tail_rows,
    );
    let before = open + "  <title>sita</title>\n"@ + "  <rect width=\"100%\" height=\"100%\" fill=\""@ + hex_text(
        options.background,
    ) + "\"/>\n"@ + defs_text(art);
    assert(svg_of(art, options) == before + use_rows(art, mode, art.rows as nat) + "</svg>\n"@);
    lemma_occurs_within(part, use_rows(art, mode, art.rows as nat), before, "</svg>\n"@);
}

/// A glyph with no set pixels draws nothing, so it is worth neither a
/// definition nor a `<use>`.
fn is_blank(glyph: Glyph) -> (blank: bool)
    ensures
        blank == blank_code(glyph@ as u32 as int),
{
    let mut y: u32 = 0;
    while y < GLYPH_HEIGHT
        invariant
            y <= 8,
            forall|j: int| 0 <= j < y ==> #[trigger] code_row(glyph@ as u32 as int, j) == 0,
        decreases 8 - y,
    {
        if glyph.row(y) != 0 {
            return false;
        }
        y = y + 1;
    }
    true
}

/// Vector output: each glyph of the 8x8 font is defined once in `<defs>` as a
/// handful of rectangles, then stamped per cell with `<use>`.
///
/// The document's user units are glyph pixels, so the whole thing stays crisp
/// at any size; `scale` only sets the default `width`/`height`.
pub struct SvgRenderer {
    options: Options,
}

impl SvgRenderer {
    pub fn new(options: Options) -> (renderer: SvgRenderer)
        ensures
            renderer.options() == options,
    {
        SvgRenderer { options }
    }

    /// The options this renderer draws with.
    pub closed spec fn options(&self) -> Options {
        self.options
    }

    /// Appends the `id` a glyph is stamped under.
    fn glyph_id(glyph: Glyph, out: &mut String)
        ensures
            final(out)@ == old(out)@ + glyph_id_text(glyph@ as u32 as int),
    {
        push_char(out, 'g');
        push_decimal(out, glyph.char() as u32 as u64);
    }

    /// Appends the definition of `glyph`.
    fn write_def(glyph: Glyph, out: &mut String)
        ensures
            final(out)@ == old(out)@ + glyph_def(glyph@ as u32 as int),
    {
        let ghost code = glyph@ as u32 as int;
        let ghost start = out@;
        push_str(out, "    <g id=\"");
        SvgRenderer::glyph_id(glyph, out);
        push_str(out, "\">");
        let ghost opened = out@;
        let mut y: u32 = 0;
        while y < GLYPH_HEIGHT
            invariant
                y <= 8,
                code == glyph@ as u32 as int,
                out@ == opened + glyph_rects(code, y as nat),
            decreases 8 - y,
        {
            let runs = glyph.row_runs(y);
            let ghost row_start = out@;
            let mut i: usize = 0;
            while i < runs.len()
                invariant
                    y < 8,
                    runs@ == runs_from(code_row(code, y as int), 0),
                    i <= runs@.len(),
                    out@ == row_start + runs_text(runs@.take(i as int), y as int),
                decreases runs@.len() - i,
            {
                let (x, length) = runs[i];
                push_str(out, "<rect x=\"");
                push_decimal(out, x as u64);
                push_str(out, "\" y=\"");
                push_decimal(out, y as u64);
                push_str(out, "\" width=\"");
                push_decimal(out, length as u64);
                push_str(out, "\" height=\"1\"/>");
                assert(runs@.take(i + 1).drop_last() == runs@.take(i as int));
                i = i + 1;
            }
            assert(runs@.take(runs@.len() as int) == runs@);
            y = y + 1;
        }
        push_str(out, "</g>\n");
    }

    /// One `<g>` per distinct glyph, holding its set pixels merged into
    /// horizontal runs.
    fn write_defs(&self, art: &AsciiArt, out: &mut String)
        requires
            art@.columns > 0,
        ensures
            final(out)@ == old(out)@ + defs_text(art@),
    {
        let rows = art.rows_iter();
        let columns = art.columns();
        let ghost v = art@;
        let mut seen: BTreeMap<u32, Glyph> = BTreeMap::new();
        let mut r: usize = 0;
        while r < rows.len()
            invariant
                v == art@,
                v.well_formed(),
                columns == v.columns,
                rows@.len() == v.rows,
                forall|q: int|
                    0 <= q < v.rows ==> (#[trigger] rows@[q])@ == v.cells.subrange(q * v.columns, (q + 1) * v.columns),
                r <= rows@.len(),
                forall|key: u32| #![trigger seen@.contains_key(key)]
                    seen@.contains_key(key) <==> used_before(v, key as int, r * columns),
                forall|key: u32| #![trigger seen@[key]]
                    seen@.contains_key(key) ==> seen@[key]@ as u32 == key,
            decreases rows@.len() - r,
        {
            let row = rows[r];
            proof {
                assert(r * columns + columns <= columns * v.rows) by (nonlinear_arith)
                    requires r < v.rows;
                assert((r + 1) * columns == r * columns + columns) by (nonlinear_arith);
            }
            let mut c: usize = 0;
            while c < row.len()
                invariant
                    v == art@,
                    v.well_formed(),
                    columns == v.columns,
                    r < v.rows,
                    r * columns + columns <= v.cells.len(),
                    row@ == v.cells.subrange(r * columns, r * columns + columns),
                    c <= row@.len(),
                    forall|key: u32| #![trigger seen@.contains_key(key)]
                        seen@.contains_key(key) <==> used_before(v, key as int, r * columns + c),
                    forall|key: u32| #![trigger seen@[key]]
                        seen@.contains_key(key) ==> seen@[key]@ as u32 == key,
                decreases row@.len() - c,
            {
                let glyph = row[c].glyph;
                let code = glyph.char() as u32;
                let ghost at = r * columns + c;
                assert(cell_code(v, at) == code);
                seen.insert(code, glyph);
                assert forall|key: u32| #![trigger seen@.contains_key(key)]
                    seen@.contains_key(key) <==> used_before(v, key as int, at + 1) by {
                    if key != code && used_before(v, key as int, at + 1) {
                        let i = choose|i: int| 0 <= i < at + 1 && #[trigger] cell_code(v, i) == key;
                        assert(i != at);
                        assert(used_before(v, key as int, at));
                    }
                }
                c = c + 1;
            }
            r = r + 1;
        }
        proof {
            assert(r * columns == v.cells.len()) by (nonlinear_arith)
                requires r == v.rows, columns == v.columns, v.cells.len() == v.columns * v.rows;
        }
        push_str(out, "  <defs>\n");
        let ghost opened = out@;
        let mut k: u32 = 0;
        while k < 95
            invariant
                v == art@,
                forall|key: u32| #![trigger seen@.contains_key(key)]
                    seen@.contains_key(key) <==> used_before(v, key as int, v.cells.len() as int),
                forall|key: u32| #![trigger seen@[key]]
                    seen@.contains_key(key) ==> seen@[key]@ as u32 == key,
                k <= 95,
                out@ == opened + defs_upto(v, k as nat),
            decreases 95 - k,
        {
            let code = FIRST_CODE + k;
            match seen.get(&code) {
                Some(found) => {
                    let glyph = *found;
                    assert(seen@.contains_key(code));
                    if !is_blank(glyph) {
                        SvgRenderer::write_def(glyph, out);
                    }
                },
                None => {
                    assert(!seen@.contains_key(code));
                },
            }
            k = k + 1;
        }
        push_str(out, "  </defs>\n");
    }

    /// Appends the `<use>` of `cell` at `(column, row)`, if its glyph draws
    /// anything.
    fn write_use(cell: Cell, mode: ColorMode, column: u32, row: u32, out: &mut String)
        requires
            column * 8 <= u32::MAX,
            row * 8 <= u32::MAX,
        ensures
            final(out)@ == old(out)@ + use_line(cell, mode, column as int, row as int),
    {
        if !is_blank(cell.glyph) {
            let x = column * GLYPH_WIDTH;
            let y = row * GLYPH_HEIGHT;
            push_str(out, "  <use href=\"#");
            SvgRenderer::glyph_id(cell.glyph, out);
            push_str(out, "\" x=\"");
            push_decimal(out, x as u64);
            push_str(out, "\" y=\"");
            push_decimal(out, y as u64);
            push_str(out, "\" fill=\"");
            let fill = cell.color_in(mode).to_hex();
            push_str(out, fill.as_str());
            push_str(out, "\"/>");
            push_char(out, '\n');
        }
    }

    /// The `<use>` of every non-blank cell, row by row, in its own color.
    fn write_cells(&self, art: &AsciiArt, out: &mut String)
        requires
            art@.columns > 0,
            art@.columns * 8 <= u32::MAX,
            art@.rows * 8 <= u32::MAX,
        ensures
            final(out)@ == old(out)@ + use_rows(art@, self.options().color_mode, art@.rows as nat),
    {
        let rows = art.rows_iter();
        let columns = art.columns();
        let mode = self.options.color_mode;
        let ghost v = art@;
        let ghost start = out@;
        let mut r: usize = 0;
        while r < rows.len()
            invariant
                v == art@,
                v.well_formed(),
                v.columns * 8 <= u32::MAX,
                v.rows * 8 <= u32::MAX,
                mode == self.options().color_mode,
                columns == v.columns,
                rows@.len() == v.rows,
                forall|q: int|
                    0 <= q < v.rows ==> (#[trigger] rows@[q])@ == v.cells.subrange(q * v.columns, (q + 1) * v.columns),
                r <= rows@.len(),
                out@ == start + use_rows(v, mode, r as nat),
            decreases rows@.len() - r,
        {
            let row = rows[r];
            proof {
                assert(r * columns + columns <= columns * v.rows) by (nonlinear_arith)
                    requires r < v.rows;
                assert((r + 1) * columns == r * columns + columns) by (nonlinear_arith);
            }
            let ghost row_start = out@;
            let mut c: usize = 0;
            while c < row.len()
                invariant
                    v == art@,
                    v.well_formed(),
                    v.columns * 8 <= u32::MAX,
                    v.rows * 8 <= u32::MAX,
                    mode == self.options().color_mode,
                    columns == v.columns,
                    r < v.rows,
                    r * columns + columns <= v.cells.len(),
                    row@ == v.cells.subrange(r * columns, r * columns + columns),
                    c <= row@.len(),
                    out@ == row_start + use_row(v, mode, r as int, c as nat),
                decreases row@.len() - c,
            {
                let cell = row[c];
                assert(cell == v.cell_at(c as int, r as int));
                proof {
                    assert(c * 8 <= v.columns * 8 && r * 8 <= v.rows * 8);
                }
                SvgRenderer::write_use(cell, mode, c as u32, r as u32, out);
                c = c + 1;
            }
            r = r + 1;
        }
    }
}

impl Renderer for SvgRenderer {
    open spec fn can_render(&self, art: ArtView) -> bool {
        &&& art.columns > 0
        &&& art.columns * 8 * self.options().scale <= u32::MAX
        &&& art.rows * 8 * self.options().scale <= u32::MAX
        &&& art.columns * 8 <= u32::MAX
        &&& art.rows * 8 <= u32::MAX
    }

    fn extension(&self) -> (extension: &'static str)
        ensures
            extension@ == "svg"@,
    {
        "svg"
    }

    fn is_textual(&self) -> (textual: bool)
        ensures
            textual == false,
    {
        false
    }

    fn render(&self, art: &AsciiArt) -> (out: Result<Output, String>)
        ensures
            out matches Ok(Output::Text(text)) && text@ == svg_of(art@, self.options()),
    {
        let units_wide = art.width_in_glyph_px();
        let units_high = art.height_in_glyph_px();
        let scale = self.options.scale;
        let mut doc = String::new();
        push_str(&mut doc, "<svg xmlns=\"http://www.w3.org/2000/svg\" width=\"");
        push_decimal(&mut doc, (units_wide * scale) as u64);
        push_str(&mut doc, "\" height=\"");
        push_decimal(&mut doc, (units_high * scale) as u64);
        push_str(&mut doc, "\" viewBox=\"0 0 ");
        push_decimal(&mut doc, units_wide as u64);
        push_str(&mut doc, " ");
        push_decimal(&mut doc, units_high as u64);
        push_str(&mut doc, "\" shape-rendering=\"crispEdges\">\n");
        push_str(&mut doc, "  <title>sita</title>\n");
        push_str(&mut doc, "  <rect width=\"100%\" height=\"100%\" fill=\"");
        let background = self.options.background.to_hex();
        push_str(&mut doc, background.as_str());
        push_str(&mut doc, "\"/>\n");
        self.write_defs(art, &mut doc);
        self.write_cells(art, &mut doc);
        push_str(&mut doc, "</svg>\n");
        Ok(Output::Text(doc))
    }
}

} // verus!
