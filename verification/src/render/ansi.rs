//! Characters with 24-bit terminal color escapes, for piping straight to a
//! terminal.

use vstd::prelude::*;

use crate::ascii::{AsciiArt, ArtView, Color, ColorMode, color_under, lemma_cell_index};
use crate::render::{Options, Output, Renderer};
use crate::textfmt::{DECIMAL_DIGITS, decimal, push_char, push_decimal, push_str};
use crate::font::is_printable;
use crate::render::text::{row_chars, text_lines, text_of};

verus! {

/// The escape that sets the foreground to `c`: `ESC[38;2;r;g;bm`.
pub open spec fn foreground(c: Color) -> Seq<char> {
    "\x1b[38;2;"@ + decimal(c.r as nat) + seq![';'] + decimal(c.g as nat) + seq![';'] + decimal(c.b as nat)
        + seq!['m']
}

/// The escape that resets all attributes: `ESC[0m`.
pub open spec fn reset() -> Seq<char> {
    "\x1b[0m"@
}

/// The color the cell at `(column, row)` is drawn in under `mode`.
pub open spec fn drawn_color(art: ArtView, mode: ColorMode, column: int, row: int) -> Color {
    color_under(mode, art.cell_at(column, row).color, art.cell_at(column, row).lightness)
}

/// The first `n` cells of row `row`: each cell's character, preceded by a
/// color escape when it is the first of the row or its color differs from
/// the cell before it.
pub open spec fn ansi_cells(art: ArtView, mode: ColorMode, row: int, n: nat) -> Seq<char>
    decreases n,
{
    if n == 0 {
        Seq::empty()
    } else {
        let c = n - 1;
        let color = drawn_color(art, mode, c, row);
        let escape = if c == 0 || drawn_color(art, mode, c - 1, row) != color {
            foreground(color)
        } else {
            Seq::empty()
        };
        ansi_cells(art, mode, row, (n - 1) as nat) + escape + seq![art.cell_at(c, row).glyph@]
    }
}

/// The first `n` rows, each a line of escapes and characters that resets the
/// color before its newline.
pub open spec fn ansi_lines(art: ArtView, mode: ColorMode, n: nat) -> Seq<char>
    decreases n,
{
    if n == 0 {
        Seq::empty()
    } else {
        ansi_lines(art, mode, (n - 1) as nat) + ansi_cells(art, mode, n - 1, art.columns as nat) + reset()
            + seq!['\n']
    }
}

/// The whole grid as colored terminal text.
pub open spec fn ansi_of(art: ArtView, mode: ColorMode) -> Seq<char> {
    ansi_lines(art, mode, art.rows as nat)
}

/// `s` after its first `m`, which ends an escape sequence: empty where `s`
/// has none.
pub open spec fn after_escape(s: Seq<char>) -> Seq<char>
    decreases s.len(),
{
    if s.len() == 0 {
        s
    } else if s[0] == 'm' {
        s.drop_first()
    } else {
        after_escape(s.drop_first())
    }
}

/// What is left after an escape is never longer than what it was cut from.
pub proof fn lemma_after_escape_shorter(s: Seq<char>)
    ensures
        after_escape(s).len() <= s.len(),
    decreases s.len(),
{
    if s.len() > 0 && s[0] != 'm' {
        lemma_after_escape_shorter(s.drop_first());
    }
}

/// The characters of terminal text that show: everything but the escape
/// sequences, each running from an `ESC` to the next `m`.
pub open spec fn visible(s: Seq<char>) -> Seq<char>
    decreases s.len(),
{
    if s.len() == 0 {
        Seq::empty()
    } else if s[0] == '\x1b' {
        proof {
            lemma_after_escape_shorter(s.drop_first());
        }
        visible(after_escape(s.drop_first()))
    } else {
        seq![s[0]] + visible(s.drop_first())
    }
}

/// Whether every escape sequence in `s` is closed by an `m`.
pub open spec fn escapes_closed(s: Seq<char>) -> bool
    decreases s.len(),
{
    if s.len() == 0 {
        true
    } else if s[0] == '\x1b' {
        proof {
            lemma_after_escape_shorter(s.drop_first());
        }
        s.drop_first().contains('m') && escapes_closed(after_escape(s.drop_first()))
    } else {
        escapes_closed(s.drop_first())
    }
}

/// Cutting an escape out of `t + y`, where `t` closes it, leaves the rest
/// of `t` and all of `y`.
proof fn lemma_after_escape_concat(t: Seq<char>, y: Seq<char>)
    requires
        t.contains('m'),
    ensures
        after_escape(t + y) == after_escape(t) + y,
    decreases t.len(),
{
    assert((t + y).drop_first() == t.drop_first() + y);
    if t[0] != 'm' {
        let i = choose|i: int| 0 <= i < t.len() && t[i] == 'm';
        assert(t.drop_first()[i - 1] == 'm');
        lemma_after_escape_concat(t.drop_first(), y);
    }
}

/// Text whose escapes are closed shows the same whatever follows it, and
/// keeps its escapes closed when text with closed escapes follows.
proof fn lemma_visible_concat(x: Seq<char>, y: Seq<char>)
    requires
        escapes_closed(x),
    ensures
        visible(x + y) == visible(x) + visible(y),
        escapes_closed(y) ==> escapes_closed(x + y),
    decreases x.len(),
{
    if x.len() == 0 {
        assert(x + y == y);
    } else {
        assert((x + y)[0] == x[0]);
        assert((x + y).drop_first() == x.drop_first() + y);
        if x[0] == '\x1b' {
            lemma_after_escape_concat(x.drop_first(), y);
            lemma_after_escape_shorter(x.drop_first());
            lemma_visible_concat(after_escape(x.drop_first()), y);
            let i = choose|i: int| 0 <= i < x.drop_first().len() && x.drop_first()[i] == 'm';
            assert((x.drop_first() + y)[i] == 'm');
        } else {
            lemma_visible_concat(x.drop_first(), y);
            assert(seq![x[0]] + visible(x.drop_first()) + visible(y) == seq![x[0]] + (visible(x.drop_first())
                + visible(y)));
        }
    }
}

/// Text without `ESC` shows as it is.
proof fn lemma_plain(p: Seq<char>)
    requires
        forall|i: int| 0 <= i < p.len() ==> p[i] != '\x1b',
    ensures
        escapes_closed(p),
        visible(p) == p,
    decreases p.len(),
{
    if p.len() > 0 {
        lemma_plain(p.drop_first());
        assert(seq![p[0]] + p.drop_first() == p);
    }
}

/// `ESC` followed by a body whose only `m` is its last character is one
/// closed escape, and shows nothing.
proof fn lemma_escape(body: Seq<char>)
    requires
        body.len() > 0,
        body.last() == 'm',
        forall|i: int| 0 <= i < body.len() - 1 ==> body[i] != 'm',
    ensures
        escapes_closed(seq!['\x1b'] + body),
        visible(seq!['\x1b'] + body) == Seq::<char>::empty(),
{
    let e = seq!['\x1b'] + body;
    assert(e[0] == '\x1b');
    assert(e.drop_first() == body);
    lemma_after_escape_of_body(body);
    assert(body[body.len() - 1] == 'm');
    assert(body.contains('m'));
    let none = Seq::<char>::empty();
    assert(escapes_closed(none));
    assert(visible(none) == none);
    assert(after_escape(e.drop_first()) == none);
}

/// A body whose only `m` is its last character is cut away whole.
proof fn lemma_after_escape_of_body(body: Seq<char>)
    requires
        body.len() > 0,
        body.last() == 'm',
        forall|i: int| 0 <= i < body.len() - 1 ==> body[i] != 'm',
    ensures
        after_escape(body) == Seq::<char>::empty(),
    decreases body.len(),
{
    if body.len() > 1 {
        assert(body[0] != 'm');
        lemma_after_escape_of_body(body.drop_first());
    }
}

/// Decimal numbers are written with digits only.
proof fn lemma_decimal_digits(n: nat)
    ensures
        forall|i: int| 0 <= i < decimal(n).len() ==> '0' <= #[trigger] decimal(n)[i] <= '9',
    decreases n,
{
    assert forall|k: int| 0 <= k < 10 implies '0' <= #[trigger] DECIMAL_DIGITS@[k] <= '9' by {
        if k == 0 { } else if k == 1 { } else if k == 2 { } else if k == 3 { } else if k == 4 { }
        else if k == 5 { } else if k == 6 { } else if k == 7 { } else if k == 8 { } else { }
    }
    if n >= 10 {
        lemma_decimal_digits(n / 10);
        assert(decimal(n) == decimal(n / 10).push(DECIMAL_DIGITS@[(n % 10) as int]));
    } else {
        assert(decimal(n) == seq![DECIMAL_DIGITS@[n as int]]);
    }
}

/// A color escape is one closed escape, and shows nothing.
proof fn lemma_foreground_hidden(c: Color)
    ensures
        escapes_closed(foreground(c)),
        visible(foreground(c)) == Seq::<char>::empty(),
{
    reveal_strlit("\x1b[38;2;");
    lemma_decimal_digits(c.r as nat);
    lemma_decimal_digits(c.g as nat);
    lemma_decimal_digits(c.b as nat);
    let body = seq!['[', '3', '8', ';', '2', ';'] + decimal(c.r as nat) + seq![';'] + decimal(c.g as nat)
        + seq![';'] + decimal(c.b as nat) + seq!['m'];
    assert(foreground(c) == seq!['\x1b'] + body);
    lemma_escape(body);
}

/// The reset escape is one closed escape, and shows nothing.
proof fn lemma_reset_hidden()
    ensures
        escapes_closed(reset()),
        visible(reset()) == Seq::<char>::empty(),
{
    reveal_strlit("\x1b[0m");
    let body = seq!['[', '0', 'm'];
    assert(reset() == seq!['\x1b'] + body);
    lemma_escape(body);
}

/// The first `n` cells of a row show their characters, and close their
/// escapes.
proof fn lemma_cells_show_text(art: ArtView, mode: ColorMode, row: int, n: nat)
    requires
        n <= art.columns,
        forall|c: int| 0 <= c < art.columns ==> is_printable(#[trigger] art.cell_at(c, row).glyph@),
    ensures
        escapes_closed(ansi_cells(art, mode, row, n)),
        visible(ansi_cells(art, mode, row, n)) == row_chars(art, row).take(n as int),
    decreases n,
{
    if n > 0 {
        let c = n - 1;
        lemma_cells_show_text(art, mode, row, (n - 1) as nat);
        let before = ansi_cells(art, mode, row, (n - 1) as nat);
        let color = drawn_color(art, mode, c, row);
        let escape = if c == 0 || drawn_color(art, mode, c - 1, row) != color {
            foreground(color)
        } else {
            Seq::empty()
        };
        let ch = seq![art.cell_at(c, row).glyph@];
        assert(is_printable(art.cell_at(c, row).glyph@));
        lemma_plain(ch);
        lemma_foreground_hidden(color);
        lemma_plain(Seq::<char>::empty());
        lemma_visible_concat(escape, ch);
        lemma_visible_concat(before, escape + ch);
        assert(ansi_cells(art, mode, row, n) == before + (escape + ch));
        assert(row_chars(art, row).take(n as int) == row_chars(art, row).take(c) + ch);
    }
}

/// The first `n` lines show the first `n` lines of plain text, and close
/// their escapes.
proof fn lemma_lines_show_text(art: ArtView, mode: ColorMode, n: nat)
    requires
        n <= art.rows,
        forall|c: int, r: int|
            0 <= c < art.columns && 0 <= r < art.rows ==> is_printable(#[trigger] art.cell_at(c, r).glyph@),
    ensures
        escapes_closed(ansi_lines(art, mode, n)),
        visible(ansi_lines(art, mode, n)) == text_lines(art, n),
    decreases n,
{
    if n > 0 {
        let r = n - 1;
        lemma_lines_show_text(art, mode, (n - 1) as nat);
        lemma_cells_show_text(art, mode, r, art.columns as nat);
        assert(row_chars(art, r).take(art.columns as int) == row_chars(art, r));
        lemma_reset_hidden();
        lemma_plain(seq!['\n']);
        let before = ansi_lines(art, mode, (n - 1) as nat);
        let cells = ansi_cells(art, mode, r, art.columns as nat);
        lemma_visible_concat(reset(), seq!['\n']);
        lemma_visible_concat(cells, reset() + seq!['\n']);
        lemma_visible_concat(before, cells + (reset() + seq!['\n']));
        assert(ansi_lines(art, mode, n) == before + (cells + (reset() + seq!['\n'])));
    }
}

/// Colored terminal text shows the same characters as plain text: with its
/// escapes taken out, the colored rendering of `art` is the plain one, in
/// either color mode.
pub proof fn law_ansi_shows_the_text(art: ArtView, mode: ColorMode)
    requires
        forall|c: int, r: int|
            0 <= c < art.columns && 0 <= r < art.rows ==> is_printable(#[trigger] art.cell_at(c, r).glyph@),
    ensures
        visible(ansi_of(art, mode)) == text_of(art),
{
    lemma_lines_show_text(art, mode, art.rows as nat);
}

/// The text of a row up to and including the character of cell `c` ends
/// with the escape for that cell's color, then only characters, no escape,
/// then the cell's character.
proof fn lemma_last_escape(art: ArtView, mode: ColorMode, row: int, c: nat) -> (parts: (Seq<char>, Seq<char>))
    requires
        c < art.columns,
        forall|k: int| 0 <= k < art.columns ==> is_printable(#[trigger] art.cell_at(k, row).glyph@),
    ensures
        ansi_cells(art, mode, row, c + 1) == parts.0 + foreground(drawn_color(art, mode, c as int, row)) + parts.1
            + seq![art.cell_at(c as int, row).glyph@],
        !parts.1.contains('\x1b'),
    decreases c,
{
    let color = drawn_color(art, mode, c as int, row);
    let ch = seq![art.cell_at(c as int, row).glyph@];
    if c == 0 || drawn_color(art, mode, c - 1, row) != color {
        (ansi_cells(art, mode, row, c), Seq::empty())
    } else {
        let (p, q) = lemma_last_escape(art, mode, row, (c - 1) as nat);
        let before = seq![art.cell_at(c - 1, row).glyph@];
        assert(is_printable(art.cell_at(c - 1, row).glyph@));
        let q2 = q + before;
        assert(!q2.contains('\x1b')) by {
            if q2.contains('\x1b') {
                let i = choose|i: int| 0 <= i < q2.len() && q2[i] == '\x1b';
                if i < q.len() {
                    assert(q[i] == '\x1b');
                }
            }
        }
        assert(ansi_cells(art, mode, row, c + 1) =~= p + foreground(color) + q2 + ch);
        (p, q2)
    }
}

/// A row's cells are a prefix of the row's text.
proof fn lemma_cells_prefix(art: ArtView, mode: ColorMode, row: int, m: nat, n: nat) -> (rest: Seq<char>)
    requires
        m <= n,
    ensures
        ansi_cells(art, mode, row, n) == ansi_cells(art, mode, row, m) + rest,
    decreases n,
{
    if n == m {
        assert(ansi_cells(art, mode, row, n) =~= ansi_cells(art, mode, row, m) + Seq::empty());
        Seq::empty()
    } else {
        let rest = lemma_cells_prefix(art, mode, row, m, (n - 1) as nat);
        let shorter = ansi_cells(art, mode, row, (n - 1) as nat);
        let added = ansi_cells(art, mode, row, n).skip(shorter.len() as int);
        assert(ansi_cells(art, mode, row, n) =~= shorter + added);
        let more = rest + added;
        assert(ansi_cells(art, mode, row, n) =~= ansi_cells(art, mode, row, m) + more);
        more
    }
}

/// The first lines are a prefix of the whole text.
proof fn lemma_lines_prefix(art: ArtView, mode: ColorMode, m: nat, n: nat) -> (rest: Seq<char>)
    requires
        m <= n,
    ensures
        ansi_lines(art, mode, n) == ansi_lines(art, mode, m) + rest,
    decreases n,
{
    if n == m {
        assert(ansi_lines(art, mode, n) =~= ansi_lines(art, mode, m) + Seq::empty());
        Seq::empty()
    } else {
        let rest = lemma_lines_prefix(art, mode, m, (n - 1) as nat);
        let more = rest + ansi_cells(art, mode, n - 1, art.columns as nat) + reset() + seq!['\n'];
        assert(ansi_lines(art, mode, n) =~= ansi_lines(art, mode, m) + more);
        more
    }
}

/// Every character shows in its own color: the colored text of `art` is the
/// lines before row `row`, then that row's text up to the character of the
/// cell at `(column, row)`, then the rest; and in that row's text the last
/// escape before the cell's character sets exactly the cell's drawn color
/// (its sampled color in color mode, the gray of its lightness in
/// monochrome), with nothing but characters between them.
pub proof fn law_each_char_in_its_own_color(art: ArtView, mode: ColorMode, column: int, row: int)
    requires
        0 <= column < art.columns,
        0 <= row < art.rows,
        forall|c: int, r: int|
            0 <= c < art.columns && 0 <= r < art.rows ==> is_printable(#[trigger] art.cell_at(c, r).glyph@),
    ensures
        exists|rest: Seq<char>|
            ansi_of(art, mode) == #[trigger] (ansi_lines(art, mode, row as nat) + ansi_cells(
                art,
                mode,
                row,
                (column + 1) as nat,
            ) + rest),
        exists|p: Seq<char>, q: Seq<char>|
            ansi_cells(art, mode, row, (column + 1) as nat) == #[trigger] (p + foreground(
                drawn_color(art, mode, column, row),
            ) + q) + seq![art.cell_at(column, row).glyph@] && !q.contains('\x1b'),
{
    assert forall|k: int| 0 <= k < art.columns implies is_printable(#[trigger] art.cell_at(k, row).glyph@) by {
        assert(is_printable(art.cell_at(k, row).glyph@));
    }
    let (p, q) = lemma_last_escape(art, mode, row, column as nat);
    let in_row = lemma_cells_prefix(art, mode, row, (column + 1) as nat, art.columns as nat);
    let later = lemma_lines_prefix(art, mode, (row + 1) as nat, art.rows as nat);
    let rest = in_row + reset() + seq!['\n'] + later;
    assert(ansi_of(art, mode) =~= ansi_lines(art, mode, row as nat) + ansi_cells(art, mode, row, (column + 1) as nat)
        + rest);
}

/// Appends the escape that sets the foreground to `c`.
fn push_foreground(s: &mut String, c: Color)
    ensures
        final(s)@ == old(s)@ + foreground(c),
{
    push_str(s, "\x1b[38;2;");
    push_decimal(s, c.r as u64);
    push_char(s, ';');
    push_decimal(s, c.g as u64);
    push_char(s, ';');
    push_decimal(s, c.b as u64);
    push_char(s, 'm');
}

/// Characters with 24-bit terminal color escapes, for piping straight to a
/// terminal.
pub struct AnsiRenderer {
    options: Options,
}

impl AnsiRenderer {
    pub fn new(options: Options) -> (renderer: AnsiRenderer)
        ensures
            renderer.options() == options,
    {
        AnsiRenderer { options }
    }

    /// The options this renderer draws with.
    pub closed spec fn options(&self) -> Options {
        self.options
    }
}

impl Renderer for AnsiRenderer {
    open spec fn can_render(&self, art: ArtView) -> bool {
        art.columns > 0
    }

    fn extension(&self) -> (extension: &'static str)
        ensures
            extension@ == "ansi"@,
    {
        "ansi"
    }

    fn is_textual(&self) -> (textual: bool)
        ensures
            textual == true,
    {
        true
    }

    /// The colored text of `art`. Only re-emits an escape when the color
    /// actually changes along a row; runs of one color are common, and the
    /// escapes dwarf the characters otherwise.
    fn render(&self, art: &AsciiArt) -> (out: Result<Output, String>)
        ensures
            out matches Ok(Output::Text(text)) && text@ == ansi_of(art@, self.options().color_mode),
    {
        let mode = self.options.color_mode;
        let columns = art.columns();
        let rows = art.rows();
        let mut text = String::new();
        let mut r: u32 = 0;
        while r < rows
            invariant
                mode == self.options().color_mode,
                columns == art@.columns,
                rows == art@.rows,
                art@.well_formed(),
                r <= rows,
                text@ == ansi_lines(art@, mode, r as nat),
            decreases rows - r,
        {
            let ghost before = text@;
            let mut current: Option<Color> = None;
            let mut c: u32 = 0;
            while c < columns
                invariant
                    mode == self.options().color_mode,
                    columns == art@.columns,
                    rows == art@.rows,
                    art@.well_formed(),
                    r < rows,
                    c <= columns,
                    current == (if c == 0 {
                        None
                    } else {
                        Some(drawn_color(art@, mode, c - 1, r as int))
                    }),
                    text@ == before + ansi_cells(art@, mode, r as int, c as nat),
                decreases columns - c,
            {
                proof {
                    lemma_cell_index(columns as int, rows as int, c as int, r as int);
                }
                let cell = art.cell(c, r);
                let color = cell.color_in(mode);
                let changed = match current {
                    Some(previous) => previous != color,
                    None => true,
                };
                if changed {
                    push_foreground(&mut text, color);
                    current = Some(color);
                }
                push_char(&mut text, cell.glyph.char());
                c = c + 1;
            }
            push_str(&mut text, "\x1b[0m");
            push_char(&mut text, '\n');
            r = r + 1;
        }
        Ok(Output::Text(text))
    }
}

} // verus!
