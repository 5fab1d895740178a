//! Turning pixels into characters.
//!
//! The source is cut into cells of `8 * scale` source pixels on a side; each
//! cell's pixels are averaged, and its lightness picks a glyph off the ramp.

use vstd::prelude::*;

use crate::ascii::{AsciiArt, ArtView, Cell, Color};
use crate::font::{Glyph, Ramp, GLYPH_HEIGHT, GLYPH_WIDTH, ramp_index};
use crate::source::{Source, SourceView, well_formed_source};

pub mod px;

use px::{Px, PxSums, average_of, lightness_fits, lightness_of, max3, min3};

verus! {

/// Channel `k` summed over `len` pixels of row `y`, starting at column `x0`.
pub open spec fn row_sum(src: SourceView, y: int, x0: int, len: nat, k: int) -> int
    decreases len,
{
    if len == 0 {
        0
    } else {
        row_sum(src, y, x0, (len - 1) as nat, k) + src.channel(x0 + len - 1, y, k)
    }
}

/// Channel `k` summed over the rectangle of `width` by `height` pixels whose
/// top-left pixel is `(x0, y0)`.
pub open spec fn rect_sum(src: SourceView, x0: int, width: nat, y0: int, height: nat, k: int) -> int
    decreases height,
{
    if height == 0 {
        0
    } else {
        rect_sum(src, x0, width, y0, (height - 1) as nat, k) + row_sum(src, y0 + height - 1, x0, width, k)
    }
}

/// How many of the `cell` source pixels of a cell starting at `start` lie
/// inside a picture `size` pixels long: cells at the right or bottom edge may
/// be cut short.
pub open spec fn span(start: int, cell: int, size: int) -> nat {
    if start + cell <= size {
        cell as nat
    } else if start < size {
        (size - start) as nat
    } else {
        0
    }
}

/// The sums of the source pixels that the cell at `(column, row)` covers,
/// for cells `cell_size` source pixels on a side.
pub open spec fn cell_sums(src: SourceView, cell_size: int, column: int, row: int) -> PxSums {
    let x0 = column * cell_size;
    let y0 = row * cell_size;
    let w = span(x0, cell_size, src.width as int);
    let h = span(y0, cell_size, src.height as int);
    PxSums {
        r: rect_sum(src, x0, w, y0, h, 0),
        g: rect_sum(src, x0, w, y0, h, 1),
        b: rect_sum(src, x0, w, y0, h, 2),
        count: (h * w) as int,
    }
}

/// `n` divided by `d`, rounded up.
pub open spec fn div_ceil(n: int, d: int) -> int {
    (n + d - 1) / d
}

/// Number of cell columns that a source is cut into.
pub open spec fn grid_columns(src: SourceView, cell_size: int) -> int {
    div_ceil(src.width as int, cell_size)
}

/// Number of cell rows that a source is cut into.
pub open spec fn grid_rows(src: SourceView, cell_size: int) -> int {
    div_ceil(src.height as int, cell_size)
}

/// The cell drawn for a region with sums `s`: its lightness picks the glyph
/// off `ramp`, and its average is its color.
pub open spec fn cell_for(ramp: Seq<Glyph>, s: PxSums) -> Cell {
    let l = lightness_of(s) as u8;
    let a = average_of(s);
    Cell {
        glyph: ramp[ramp_index(l, ramp.len())],
        color: Color { r: a[0] as u8, g: a[1] as u8, b: a[2] as u8 },
        lightness: l,
    }
}

/// What sampling `src` with cells `cell_size` pixels on a side and drawing
/// with `ramp` gives: cell `i` sits at column `i % columns`, row
/// `i / columns`.
pub open spec fn extracted(src: SourceView, cell_size: int, ramp: Seq<Glyph>) -> ArtView {
    let columns = grid_columns(src, cell_size);
    let rows = grid_rows(src, cell_size);
    ArtView {
        columns: columns as u32,
        rows: rows as u32,
        cells: Seq::new(
            (columns * rows) as nat,
            |i: int| cell_for(ramp, cell_sums(src, cell_size, i % columns, i / columns)),
        ),
    }
}

/// Whether sampling `src` with cells `cell_size` pixels on a side stays
/// within `u32`: the cell size itself, the number of cells, and the sums of
/// every cell.
pub open spec fn sampling_fits(src: SourceView, cell_size: int) -> bool {
    &&& cell_size <= u32::MAX
    &&& grid_columns(src, cell_size) * grid_rows(src, cell_size) <= u32::MAX
    &&& forall|c: int, r: int|
        0 <= c < grid_columns(src, cell_size) && 0 <= r < grid_rows(src, cell_size)
            ==> lightness_fits(#[trigger] cell_sums(src, cell_size, c, r))
}

/// A row sum grows with its length, and is never negative.
proof fn lemma_row_sum_grows(src: SourceView, y: int, x0: int, a: nat, b: nat, k: int)
    requires
        a <= b,
    ensures
        0 <= row_sum(src, y, x0, a, k) <= row_sum(src, y, x0, b, k),
    decreases b,
{
    if a < b {
        lemma_row_sum_grows(src, y, x0, a, (b - 1) as nat, k);
    } else if b > 0 {
        lemma_row_sum_grows(src, y, x0, (b - 1) as nat, (b - 1) as nat, k);
    }
}

/// A rectangle sum grows with its height, and is never negative.
proof fn lemma_rect_sum_grows(src: SourceView, x0: int, w: nat, y0: int, a: nat, b: nat, k: int)
    requires
        a <= b,
    ensures
        0 <= rect_sum(src, x0, w, y0, a, k) <= rect_sum(src, x0, w, y0, b, k),
    decreases b,
{
    if b > 0 {
        lemma_row_sum_grows(src, y0 + b - 1, x0, 0, w, k);
        if a < b {
            lemma_rect_sum_grows(src, x0, w, y0, a, (b - 1) as nat, k);
        } else {
            lemma_rect_sum_grows(src, x0, w, y0, (b - 1) as nat, (b - 1) as nat, k);
        }
    }
}

/// The channel sums of any part of a rectangle summed so far stay within
/// the largest channel sum plus the smallest.
proof fn lemma_partial_within(src: SourceView, x0: int, w: nat, y0: int, h: nat, j: nat, i: nat, k: int)
    requires
        j < h,
        i <= w,
        0 <= k < 3,
    ensures
        0 <= rect_sum(src, x0, w, y0, j, k) + row_sum(src, y0 + j, x0, i, k) <= rect_sum(src, x0, w, y0, h, k),
{
    lemma_row_sum_grows(src, y0 + j, x0, i, w, k);
    lemma_rect_sum_grows(src, x0, w, y0, j, j, k);
    lemma_rect_sum_grows(src, x0, w, y0, j + 1, h, k);
}

/// `div_ceil` computed as a quotient and a rounding step.
proof fn lemma_div_ceil(n: int, d: int)
    requires
        n >= 0,
        d > 0,
    ensures
        div_ceil(n, d) == n / d + if n % d == 0 { 0int } else { 1int },
        forall|c: int| 0 <= c < div_ceil(n, d) ==> #[trigger] (c * d) < n,
        div_ceil(n, d) <= n,
        n > 0 ==> div_ceil(n, d) >= 1,
{
    let q = n / d;
    let r = n % d;
    assert(n == q * d + r && 0 <= r < d) by (nonlinear_arith)
        requires q == n / d, r == n % d, d > 0;
    if r == 0 {
        assert((n + d - 1) / d == q) by (nonlinear_arith)
            requires n == q * d, d > 0;
    } else {
        assert((n + d - 1) / d == q + 1) by (nonlinear_arith)
            requires n == q * d + r, 0 < r < d;
    }
    assert((n + d - 1) / d <= n) by (nonlinear_arith)
        requires n >= 0, d >= 1;
    assert(n > 0 ==> (n + d - 1) / d >= 1) by (nonlinear_arith)
        requires n >= 0, d >= 1;
    assert forall|c: int| 0 <= c < div_ceil(n, d) implies #[trigger] (c * d) < n by {
        assert(c * d < n) by (nonlinear_arith)
            requires c < q + (if r == 0 { 0int } else { 1int }), n == q * d + r, 0 <= r < d, d > 0, c >= 0;
    }
}

/// Where pixel `(x, y)` starts in the pixel bytes of a `width` by `height`
/// picture.
proof fn lemma_pixel_index(x: int, y: int, width: int, height: int)
    requires
        0 <= x < width,
        0 <= y < height,
    ensures
        0 <= y * width <= y * width + x,
        (y * width + x) * 3 + 2 < width * height * 3,
{
    assert(y * width + x < width * height) by (nonlinear_arith)
        requires 0 <= x < width, 0 <= y < height;
    assert(0 <= y * width) by (nonlinear_arith)
        requires 0 <= y, 0 <= width;
}

/// Sums the pixels of the `w` by `h` rectangle of `src` whose top-left pixel
/// is `(x0, y0)`.
fn sum_rect(src: &Source, x0: u32, w: u32, y0: u32, h: u32) -> (px: Px)
    requires
        x0 + w <= src@.width,
        y0 + h <= src@.height,
        lightness_fits(
            PxSums {
                r: rect_sum(src@, x0 as int, w as nat, y0 as int, h as nat, 0),
                g: rect_sum(src@, x0 as int, w as nat, y0 as int, h as nat, 1),
                b: rect_sum(src@, x0 as int, w as nat, y0 as int, h as nat, 2),
                count: h * w,
            },
        ),
    ensures
        px@ == (PxSums {
            r: rect_sum(src@, x0 as int, w as nat, y0 as int, h as nat, 0),
            g: rect_sum(src@, x0 as int, w as nat, y0 as int, h as nat, 1),
            b: rect_sum(src@, x0 as int, w as nat, y0 as int, h as nat, 2),
            count: h * w,
        }),
{
    let pixels = src.pixels();
    let width = src.width();
    let n = pixels.len();
    let ghost v = src@;
    let ghost total = PxSums {
        r: rect_sum(v, x0 as int, w as nat, y0 as int, h as nat, 0),
        g: rect_sum(v, x0 as int, w as nat, y0 as int, h as nat, 1),
        b: rect_sum(v, x0 as int, w as nat, y0 as int, h as nat, 2),
        count: h * w,
    };
    let mut px = Px::new();
    let mut j: u32 = 0;
    while j < h
        invariant
            well_formed_source(v),
            pixels@ == v.pixels,
            n == pixels@.len(),
            width == v.width,
            x0 + w <= v.width,
            y0 + h <= v.height,
            lightness_fits(total),
            total == (PxSums {
                r: rect_sum(v, x0 as int, w as nat, y0 as int, h as nat, 0),
                g: rect_sum(v, x0 as int, w as nat, y0 as int, h as nat, 1),
                b: rect_sum(v, x0 as int, w as nat, y0 as int, h as nat, 2),
                count: h * w,
            }),
            j <= h,
            px@ == (PxSums {
                r: rect_sum(v, x0 as int, w as nat, y0 as int, j as nat, 0),
                g: rect_sum(v, x0 as int, w as nat, y0 as int, j as nat, 1),
                b: rect_sum(v, x0 as int, w as nat, y0 as int, j as nat, 2),
                count: j * w,
            }),
        decreases h - j,
    {
        let y = y0 + j;
        let mut i: u32 = 0;
        while i < w
            invariant
                well_formed_source(v),
                pixels@ == v.pixels,
                n == pixels@.len(),
                width == v.width,
                x0 + w <= v.width,
                y0 + h <= v.height,
                lightness_fits(total),
                total == (PxSums {
                    r: rect_sum(v, x0 as int, w as nat, y0 as int, h as nat, 0),
                    g: rect_sum(v, x0 as int, w as nat, y0 as int, h as nat, 1),
                    b: rect_sum(v, x0 as int, w as nat, y0 as int, h as nat, 2),
                    count: h * w,
                }),
                j < h,
                y == y0 + j,
                i <= w,
                px@ == (PxSums {
                    r: rect_sum(v, x0 as int, w as nat, y0 as int, j as nat, 0)
                        + row_sum(v, y as int, x0 as int, i as nat, 0),
                    g: rect_sum(v, x0 as int, w as nat, y0 as int, j as nat, 1)
                        + row_sum(v, y as int, x0 as int, i as nat, 1),
                    b: rect_sum(v, x0 as int, w as nat, y0 as int, j as nat, 2)
                        + row_sum(v, y as int, x0 as int, i as nat, 2),
                    count: j * w + i,
                }),
            decreases w - i,
        {
            let x = x0 + i;
            proof {
                lemma_pixel_index(x as int, y as int, width as int, v.height as int);
                lemma_partial_within(v, x0 as int, w as nat, y0 as int, h as nat, j as nat, (i + 1) as nat, 0);
                lemma_partial_within(v, x0 as int, w as nat, y0 as int, h as nat, j as nat, (i + 1) as nat, 1);
                lemma_partial_within(v, x0 as int, w as nat, y0 as int, h as nat, j as nat, (i + 1) as nat, 2);
                lemma_rect_sum_grows(v, x0 as int, w as nat, y0 as int, 0, h as nat, 0);
                lemma_rect_sum_grows(v, x0 as int, w as nat, y0 as int, 0, h as nat, 1);
                lemma_rect_sum_grows(v, x0 as int, w as nat, y0 as int, 0, h as nat, 2);
                assert(j * w + i + 1 <= h * w) by (nonlinear_arith)
                    requires j < h, i < w;
            }
            assert(v.pixels.len() == v.width * v.height * 3);
            let base = (y as usize * width as usize + x as usize) * 3;
            let red = pixels[base];
            let green = pixels[base + 1];
            let blue = pixels[base + 2];
            assert(red == v.channel(x as int, y as int, 0));
            assert(green == v.channel(x as int, y as int, 1));
            assert(blue == v.channel(x as int, y as int, 2));
            assert(row_sum(v, y as int, x0 as int, (i + 1) as nat, 0) == row_sum(v, y as int, x0 as int, i as nat, 0) + red);
            assert(row_sum(v, y as int, x0 as int, (i + 1) as nat, 1) == row_sum(v, y as int, x0 as int, i as nat, 1) + green);
            assert(row_sum(v, y as int, x0 as int, (i + 1) as nat, 2) == row_sum(v, y as int, x0 as int, i as nat, 2) + blue);
            px.add(red, green, blue);
            i = i + 1;
        }
        proof {
            assert(j * w + w == (j + 1) * w) by (nonlinear_arith);
        }
        assert(px@.r == rect_sum(v, x0 as int, w as nat, y0 as int, (j + 1) as nat, 0));
        j = j + 1;
    }
    px
}

/// Whether every pixel of `src` is `fill`.
pub open spec fn filled_with(src: SourceView, fill: Color) -> bool {
    forall|x: int, y: int|
        0 <= x < src.width && 0 <= y < src.height ==> {
            &&& #[trigger] src.channel(x, y, 0) == fill.r
            &&& src.channel(x, y, 1) == fill.g
            &&& src.channel(x, y, 2) == fill.b
        }
}

/// Channel `k` (0 red, 1 green, 2 blue) of `c`.
pub open spec fn channel_value(c: Color, k: int) -> int {
    if k == 0 {
        c.r as int
    } else if k == 1 {
        c.g as int
    } else {
        c.b as int
    }
}

/// In a picture of one color, a row sum is the length times the channel.
proof fn lemma_filled_row_sum(src: SourceView, fill: Color, y: int, x0: int, len: nat, k: int)
    requires
        filled_with(src, fill),
        0 <= y < src.height,
        0 <= x0,
        x0 + len <= src.width,
        0 <= k < 3,
    ensures
        row_sum(src, y, x0, len, k) == len * channel_value(fill, k),
    decreases len,
{
    if len > 0 {
        lemma_filled_row_sum(src, fill, y, x0, (len - 1) as nat, k);
        assert(src.channel(x0 + len - 1, y, 0) == fill.r);
        assert(src.channel(x0 + len - 1, y, k) == channel_value(fill, k));
        let v = channel_value(fill, k);
        let l = len as int;
        assert(l * v == (l - 1) * v + v) by (nonlinear_arith);
    } else {
        assert(len * channel_value(fill, k) == 0) by (nonlinear_arith)
            requires len == 0;
    }
}

/// In a picture of one color, a rectangle sum is its area times the channel.
proof fn lemma_filled_rect_sum(src: SourceView, fill: Color, x0: int, w: nat, y0: int, h: nat, k: int)
    requires
        filled_with(src, fill),
        0 <= y0,
        y0 + h <= src.height,
        0 <= x0,
        x0 + w <= src.width,
        0 <= k < 3,
    ensures
        rect_sum(src, x0, w, y0, h, k) == (h * w) * channel_value(fill, k),
    decreases h,
{
    if h > 0 {
        lemma_filled_rect_sum(src, fill, x0, w, y0, (h - 1) as nat, k);
        lemma_filled_row_sum(src, fill, y0 + h - 1, x0, w, k);
        let v = channel_value(fill, k);
        let hh = h as int;
        let ww = w as int;
        assert((hh * ww) * v == ((hh - 1) * ww) * v + ww * v) by (nonlinear_arith);
    } else {
        assert((h * w) * channel_value(fill, k) == 0) by (nonlinear_arith)
            requires h == 0;
    }
}

/// Sampling a picture of one color gives every cell that color, and the
/// lightness of that color: the midpoint of its brightest and darkest
/// channel, which picks the glyph. So a black picture is drawn with the
/// darkest glyph of the ramp throughout, and a white one with the lightest.
pub proof fn law_one_color_in_one_color_out(
    src: SourceView,
    fill: Color,
    cell_size: int,
    ramp: Seq<Glyph>,
    column: int,
    row: int,
)
    requires
        well_formed_source(src),
        filled_with(src, fill),
        cell_size >= 1,
        ramp.len() >= 1,
        0 <= column < grid_columns(src, cell_size),
        0 <= row < grid_rows(src, cell_size),
    ensures
        ({
            let lightness = ((max3(fill.r as int, fill.g as int, fill.b as int) + min3(
                fill.r as int,
                fill.g as int,
                fill.b as int,
            )) / 2) as u8;
            cell_for(ramp, cell_sums(src, cell_size, column, row)) == Cell {
                glyph: ramp[ramp_index(lightness, ramp.len())],
                color: fill,
                lightness,
            }
        }),
{
    lemma_div_ceil(src.width as int, cell_size);
    lemma_div_ceil(src.height as int, cell_size);
    let x0 = column * cell_size;
    let y0 = row * cell_size;
    assert(x0 < src.width && y0 < src.height);
    assert(0 <= x0 && 0 <= y0) by (nonlinear_arith)
        requires x0 == column * cell_size, y0 == row * cell_size, column >= 0, row >= 0, cell_size >= 1;
    let w = span(x0, cell_size, src.width as int);
    let h = span(y0, cell_size, src.height as int);
    lemma_filled_rect_sum(src, fill, x0, w, y0, h, 0);
    lemma_filled_rect_sum(src, fill, x0, w, y0, h, 1);
    lemma_filled_rect_sum(src, fill, x0, w, y0, h, 2);
    let n: int = (h * w) as int;
    assert(n > 0) by (nonlinear_arith)
        requires n == h * w, h > 0, w > 0;
    let s = cell_sums(src, cell_size, column, row);
    assert(s.r == n * fill.r && s.g == n * fill.g && s.b == n * fill.b && s.count == n);
    assert forall|v: int| 0 <= v <= 255 implies #[trigger] ((n * v) / n) == v by {
        assert((n * v) / n == v) by (nonlinear_arith)
            requires n > 0;
    }
    assert((n * fill.r) / n == fill.r as int);
    assert((n * fill.g) / n == fill.g as int);
    assert((n * fill.b) / n == fill.b as int);
    let hi = max3(fill.r as int, fill.g as int, fill.b as int);
    let lo = min3(fill.r as int, fill.g as int, fill.b as int);
    assert(max3(s.r, s.g, s.b) == n * hi && min3(s.r, s.g, s.b) == n * lo) by {
        assert(fill.r <= fill.g ==> n * fill.r <= n * fill.g) by (nonlinear_arith)
            requires n > 0;
        assert(fill.g <= fill.r ==> n * fill.g <= n * fill.r) by (nonlinear_arith)
            requires n > 0;
        assert(fill.r <= fill.b ==> n * fill.r <= n * fill.b) by (nonlinear_arith)
            requires n > 0;
        assert(fill.b <= fill.r ==> n * fill.b <= n * fill.r) by (nonlinear_arith)
            requires n > 0;
        assert(fill.g <= fill.b ==> n * fill.g <= n * fill.b) by (nonlinear_arith)
            requires n > 0;
        assert(fill.b <= fill.g ==> n * fill.b <= n * fill.g) by (nonlinear_arith)
            requires n > 0;
        assert(fill.r < fill.g ==> n * fill.r < n * fill.g) by (nonlinear_arith)
            requires n > 0;
        assert(fill.g < fill.r ==> n * fill.g < n * fill.r) by (nonlinear_arith)
            requires n > 0;
        assert(fill.r < fill.b ==> n * fill.r < n * fill.b) by (nonlinear_arith)
            requires n > 0;
        assert(fill.b < fill.r ==> n * fill.b < n * fill.r) by (nonlinear_arith)
            requires n > 0;
        assert(fill.g < fill.b ==> n * fill.g < n * fill.b) by (nonlinear_arith)
            requires n > 0;
        assert(fill.b < fill.g ==> n * fill.b < n * fill.g) by (nonlinear_arith)
            requires n > 0;
    }
    assert((n * hi + n * lo) / (2 * n) == (hi + lo) / 2) by (nonlinear_arith)
        requires n > 0, hi >= 0, lo >= 0;
}

/// Whether `a` and `b` hold the same pixels in the `w` by `h` rectangle whose
/// top-left pixel is `(x0, y0)`.
pub open spec fn agree_on(a: SourceView, b: SourceView, x0: int, w: int, y0: int, h: int) -> bool {
    forall|x: int, y: int, k: int|
        x0 <= x < x0 + w && y0 <= y < y0 + h && 0 <= k < 3 ==> #[trigger] a.channel(x, y, k) == b.channel(
            x,
            y,
            k,
        )
}

/// Whether every pixel of `src` in the `w` by `h` rectangle whose top-left
/// pixel is `(x0, y0)` is `fill`.
pub open spec fn rect_filled_with(src: SourceView, fill: Color, x0: int, w: int, y0: int, h: int) -> bool {
    forall|x: int, y: int|
        x0 <= x < x0 + w && y0 <= y < y0 + h ==> {
            &&& #[trigger] src.channel(x, y, 0) == fill.r
            &&& src.channel(x, y, 1) == fill.g
            &&& src.channel(x, y, 2) == fill.b
        }
}

/// Row sums over pixels on which two pictures agree are equal.
proof fn lemma_row_sum_local(a: SourceView, b: SourceView, y: int, x0: int, len: nat, k: int)
    requires
        forall|x: int| x0 <= x < x0 + len ==> #[trigger] a.channel(x, y, k) == b.channel(x, y, k),
    ensures
        row_sum(a, y, x0, len, k) == row_sum(b, y, x0, len, k),
    decreases len,
{
    if len > 0 {
        lemma_row_sum_local(a, b, y, x0, (len - 1) as nat, k);
        assert(a.channel(x0 + len - 1, y, k) == b.channel(x0 + len - 1, y, k));
    }
}

/// Rectangle sums over pixels on which two pictures agree are equal.
proof fn lemma_rect_sum_local(a: SourceView, b: SourceView, x0: int, w: nat, y0: int, h: nat, k: int)
    requires
        0 <= k < 3,
        agree_on(a, b, x0, w as int, y0, h as int),
    ensures
        rect_sum(a, x0, w, y0, h, k) == rect_sum(b, x0, w, y0, h, k),
    decreases h,
{
    if h > 0 {
        lemma_rect_sum_local(a, b, x0, w, y0, (h - 1) as nat, k);
        let y = y0 + h - 1;
        assert forall|x: int| x0 <= x < x0 + w implies #[trigger] a.channel(x, y, k) == b.channel(x, y, k) by {
        }
        lemma_row_sum_local(a, b, y, x0, w, k);
    }
}

/// Where the cell at `(column, row)` stands among the cells: at
/// `column + row * columns`, which is read back as that column and row.
proof fn lemma_cell_position(column: int, row: int, columns: int, rows: int)
    requires
        0 <= column < columns,
        0 <= row < rows,
    ensures
        0 <= column + row * columns < columns * rows,
        (column + row * columns) % columns == column,
        (column + row * columns) / columns == row,
{
    assert(0 <= column + row * columns < columns * rows) by (nonlinear_arith)
        requires 0 <= column < columns, 0 <= row < rows;
    vstd::arithmetic::div_mod::lemma_fundamental_div_mod_converse(column + row * columns, columns, row, column);
}

/// Each cell is sampled from its own part of the picture and nothing else:
/// the cell at `(column, row)` reads the square of `cell_size` pixels whose
/// top-left pixel is `(column * cell_size, row * cell_size)`. Two pictures
/// of the same size that agree there give that cell alike, whatever the
/// rest of them holds; so the art is the picture the right way up and the
/// right way round.
pub proof fn law_cell_reads_its_own_square(
    a: SourceView,
    b: SourceView,
    cell_size: int,
    ramp: Seq<Glyph>,
    column: int,
    row: int,
)
    requires
        a.width == b.width,
        a.height == b.height,
        cell_size >= 1,
        0 <= column < grid_columns(a, cell_size),
        0 <= row < grid_rows(a, cell_size),
        agree_on(a, b, column * cell_size, cell_size, row * cell_size, cell_size),
    ensures
        ({
            let i = column + row * grid_columns(a, cell_size);
            &&& extracted(a, cell_size, ramp).columns == extracted(b, cell_size, ramp).columns
            &&& extracted(a, cell_size, ramp).rows == extracted(b, cell_size, ramp).rows
            &&& 0 <= i < extracted(a, cell_size, ramp).cells.len()
            &&& extracted(a, cell_size, ramp).cells[i] == extracted(b, cell_size, ramp).cells[i]
        }),
{
    let columns = grid_columns(a, cell_size);
    let rows = grid_rows(a, cell_size);
    lemma_div_ceil(a.width as int, cell_size);
    lemma_div_ceil(a.height as int, cell_size);
    lemma_cell_position(column, row, columns, rows);
    let x0 = column * cell_size;
    let y0 = row * cell_size;
    let w = span(x0, cell_size, a.width as int);
    let h = span(y0, cell_size, a.height as int);
    assert(w <= cell_size && h <= cell_size);
    assert(agree_on(a, b, x0, w as int, y0, h as int));
    lemma_rect_sum_local(a, b, x0, w, y0, h, 0);
    lemma_rect_sum_local(a, b, x0, w, y0, h, 1);
    lemma_rect_sum_local(a, b, x0, w, y0, h, 2);
    assert(cell_sums(a, cell_size, column, row) == cell_sums(b, cell_size, column, row));
}

/// A cell whose square of the picture is one color is drawn in that color,
/// with its lightness, whatever the rest of the picture holds: a picture
/// whose top `cell_size` rows are white has a white first row of cells.
pub proof fn law_one_color_square_one_color_cell(
    src: SourceView,
    fill: Color,
    cell_size: int,
    ramp: Seq<Glyph>,
    column: int,
    row: int,
)
    requires
        well_formed_source(src),
        cell_size >= 1,
        ramp.len() >= 1,
        0 <= column < grid_columns(src, cell_size),
        0 <= row < grid_rows(src, cell_size),
        rect_filled_with(src, fill, column * cell_size, cell_size, row * cell_size, cell_size),
    ensures
        ({
            let lightness = ((max3(fill.r as int, fill.g as int, fill.b as int) + min3(
                fill.r as int,
                fill.g as int,
                fill.b as int,
            )) / 2) as u8;
            extracted(src, cell_size, ramp).cells[column + row * grid_columns(src, cell_size)] == Cell {
                glyph: ramp[ramp_index(lightness, ramp.len())],
                color: fill,
                lightness,
            }
        }),
{
    let n = (src.width * src.height * 3) as nat;
    let plain = SourceView {
        width: src.width,
        height: src.height,
        pixels: Seq::new(n, |i: int| channel_value(fill, i % 3) as u8),
    };
    assert forall|x: int, y: int| 0 <= x < plain.width && 0 <= y < plain.height implies {
        &&& #[trigger] plain.channel(x, y, 0) == fill.r
        &&& plain.channel(x, y, 1) == fill.g
        &&& plain.channel(x, y, 2) == fill.b
    } by {
        lemma_pixel_index(x, y, src.width as int, src.height as int);
        let p = y * plain.width + x;
        assert((p * 3) % 3 == 0 && (p * 3 + 1) % 3 == 1 && (p * 3 + 2) % 3 == 2) by (nonlinear_arith)
            requires p >= 0;
    }
    assert(filled_with(plain, fill));
    assert forall|x: int, y: int, k: int|
        column * cell_size <= x < column * cell_size + cell_size && row * cell_size <= y < row * cell_size
            + cell_size && 0 <= k < 3 && x < src.width && y < src.height
        implies #[trigger] src.channel(x, y, k) == plain.channel(x, y, k) by {
        assert(src.channel(x, y, 0) == fill.r);
        assert(plain.channel(x, y, 0) == fill.r);
        assert(0 <= x) by (nonlinear_arith) requires column * cell_size <= x, column >= 0, cell_size >= 1;
        assert(0 <= y) by (nonlinear_arith) requires row * cell_size <= y, row >= 0, cell_size >= 1;
    }
    let x0 = column * cell_size;
    let y0 = row * cell_size;
    let w = span(x0, cell_size, src.width as int);
    let h = span(y0, cell_size, src.height as int);
    lemma_div_ceil(src.width as int, cell_size);
    lemma_div_ceil(src.height as int, cell_size);
    assert(agree_on(src, plain, x0, w as int, y0, h as int)) by {
        assert forall|x: int, y: int, k: int| x0 <= x < x0 + w && y0 <= y < y0 + h && 0 <= k < 3
            implies #[trigger] src.channel(x, y, k) == plain.channel(x, y, k) by {
            assert(x < src.width && y < src.height);
        }
    }
    lemma_rect_sum_local(src, plain, x0, w, y0, h, 0);
    lemma_rect_sum_local(src, plain, x0, w, y0, h, 1);
    lemma_rect_sum_local(src, plain, x0, w, y0, h, 2);
    assert(cell_sums(src, cell_size, column, row) == cell_sums(plain, cell_size, column, row));
    law_one_color_in_one_color_out(plain, fill, cell_size, ramp, column, row);
    lemma_cell_position(column, row, grid_columns(src, cell_size), grid_rows(src, cell_size));
}

/// The scale an extractor samples at: the one asked for, and 1 for 0, so
/// that a cell is never empty.
pub open spec fn effective_scale(scale: u32) -> u32 {
    if scale >= 1 {
        scale
    } else {
        1
    }
}

/// Scale 0 samples as scale 1: extractors made with either, from ramps of the
/// same glyphs, are the same extractor, so they extract every source into
/// the same art.
pub proof fn law_zero_scale_samples_as_one(ramp: Seq<Glyph>, src: SourceView)
    ensures
        (effective_scale(0), ramp) == (effective_scale(1), ramp),
        extracted(src, 8 * effective_scale(0), ramp) == extracted(src, 8 * effective_scale(1), ramp),
{
}

/// Samples a [`Source`] into an [`AsciiArt`].
pub struct Extractor {
    /// Source pixels per glyph pixel. A cell covers `8 * scale` source pixels
    /// on each side.
    scale: u32,
    ramp: Ramp,
}

impl View for Extractor {
    type V = (u32, Seq<Glyph>);

    /// The scale, and the glyphs of the ramp.
    closed spec fn view(&self) -> (u32, Seq<Glyph>) {
        (self.scale, self.ramp@)
    }
}

impl Extractor {
    #[verifier::type_invariant]
    spec fn samples_something(self) -> bool {
        self.scale >= 1
    }

    /// An extractor sampling at `scale` (at least 1) and drawing with `ramp`.
    pub fn new(scale: u32, ramp: Ramp) -> (extractor: Extractor)
        ensures
            extractor@ == (effective_scale(scale), ramp@),
    {
        Extractor { scale: if scale >= 1 { scale } else { 1 }, ramp }
    }

    /// Width of a cell, in source pixels.
    fn cell_width(&self) -> (width: u32)
        requires
            GLYPH_WIDTH * self@.0 <= u32::MAX,
        ensures
            width == GLYPH_WIDTH * self@.0,
    {
        GLYPH_WIDTH * self.scale
    }

    /// Height of a cell, in source pixels.
    fn cell_height(&self) -> (height: u32)
        requires
            GLYPH_HEIGHT * self@.0 <= u32::MAX,
        ensures
            height == GLYPH_HEIGHT * self@.0,
    {
        GLYPH_HEIGHT * self.scale
    }

    /// Samples `source` into one cell per `8 * scale` source pixels on a side,
    /// rounding up so that a partial cell at the right or bottom edge still
    /// gets a character.
    pub fn extract(&self, source: &Source) -> (art: AsciiArt)
        requires
            sampling_fits(source@, 8 * self@.0),
        ensures
            art@ == extracted(source@, 8 * self@.0, self@.1),
    {
        proof {
            use_type_invariant(self);
        }
        let cell_w = self.cell_width();
        let cell_h = self.cell_height();
        let width = source.width();
        let height = source.height();
        let ghost v = source@;
        let ghost size = 8 * self@.0;
        proof {
            lemma_div_ceil(width as int, cell_w as int);
            lemma_div_ceil(height as int, cell_h as int);
        }
        let columns = width / cell_w + if width % cell_w == 0 { 0 } else { 1 };
        let rows = height / cell_h + if height % cell_h == 0 { 0 } else { 1 };
        let total = columns * rows;
        let ghost expected = extracted(v, size, self@.1);
        let mut cells: Vec<Cell> = Vec::new();
        let mut i: u32 = 0;
        while i < total
            invariant
                sampling_fits(v, size),
                v == source@,
                size == cell_w,
                cell_w == cell_h,
                cell_w > 0,
                width == v.width,
                height == v.height,
                columns == grid_columns(v, size),
                rows == grid_rows(v, size),
                total == columns * rows,
                columns > 0,
                forall|c: int| 0 <= c < columns ==> #[trigger] (c * cell_w) < width,
                forall|r: int| 0 <= r < rows ==> #[trigger] (r * cell_h) < height,
                expected == extracted(v, size, self@.1),
                i <= total,
                cells@ == expected.cells.take(i as int),
            decreases total - i,
        {
            let column = i % columns;
            let row = i / columns;
            proof {
                assert(0 <= column < columns && 0 <= row < rows) by (nonlinear_arith)
                    requires column == i % columns, row == i / columns, i < columns * rows, columns > 0;
                assert(column * cell_w < width);
                assert(row * cell_h < height);
            }
            let x0 = column * cell_w;
            let y0 = row * cell_h;
            let w = if cell_w <= width - x0 { cell_w } else { width - x0 };
            let h = if cell_h <= height - y0 { cell_h } else { height - y0 };
            let ghost sums = cell_sums(v, size, column as int, row as int);
            assert(lightness_fits(sums));
            let px = sum_rect(source, x0, w, y0, h);
            let lightness = px.lightness();
            let rgb = px.average();
            let cell = Cell {
                glyph: self.ramp.glyph_for(lightness),
                color: Color::new(rgb[0], rgb[1], rgb[2]),
                lightness,
            };
            assert(cell == cell_for(self@.1, sums));
            cells.push(cell);
            assert(cells@ == expected.cells.take(i + 1));
            i = i + 1;
        }
        assert(cells@ == expected.cells);
        AsciiArt::new(columns, rows, cells)
    }
}

} // verus!
