//! A raster image, one output pixel per glyph pixel times the scale.

use image::ImageEncoder;
use vstd::prelude::*;

use crate::ascii::{AsciiArt, ArtView, Color, ColorMode, color_under, lemma_cell_index};
use crate::font::{GLYPH_HEIGHT, GLYPH_WIDTH, glyph_pixel};
use crate::render::{Options, Output, Renderer};

verus! {

/// Channel `k` (0 red, 1 green, 2 blue) of `c`.
pub open spec fn channel_of(c: Color, k: int) -> u8 {
    if k == 0 {
        c.r
    } else if k == 1 {
        c.g
    } else {
        c.b
    }
}

/// The color of output pixel `(x, y)`: each glyph pixel covers a block of
/// `scale` by `scale` output pixels, a set glyph pixel takes its cell's
/// color, and everything else is the background.
pub open spec fn raster_color(art: ArtView, options: Options, x: int, y: int) -> Color {
    let glyph_x = x / options.scale as int;
    let glyph_y = y / options.scale as int;
    let column = glyph_x / 8;
    let row = glyph_y / 8;
    let cell = art.cell_at(column, row);
    if column < art.columns && row < art.rows && glyph_pixel(cell.glyph@, (glyph_x % 8) as u32, (glyph_y % 8) as u32) {
        color_under(options.color_mode, cell.color, cell.lightness)
    } else {
        options.background
    }
}

/// The RGB8 bytes of a `width` by `height` raster of `art`, row by row, left
/// to right.
pub open spec fn raster(art: ArtView, options: Options, width: int, height: int) -> Seq<u8> {
    Seq::new(
        (width * height * 3) as nat,
        |i: int| channel_of(raster_color(art, options, (i / 3) % width, (i / 3) / width), i % 3),
    )
}

/// The scale grows every glyph pixel into a block: output pixel `(x, y)` at
/// scale `s` has the color of pixel `(x / s, y / s)` of the same art drawn at
/// scale 1.
pub proof fn law_scale_makes_blocks(art: ArtView, options: Options, x: int, y: int)
    requires
        options.scale >= 1,
        x >= 0,
        y >= 0,
    ensures
        raster_color(art, options, x, y) == raster_color(
            art,
            Options { scale: 1, ..options },
            x / options.scale as int,
            y / options.scale as int,
        ),
{
    let s = options.scale as int;
    assert((x / s) / 1 == x / s);
    assert((y / s) / 1 == y / s);
}

/// Channel `k` of output pixel `(x, y)` of the raster of `art`, read from the
/// raster's bytes.
pub open spec fn raster_byte(art: ArtView, options: Options, x: int, y: int, k: int) -> u8 {
    raster(art, options, raster_width(art, options), raster_height(art, options))[(y * raster_width(
        art,
        options,
    ) + x) * 3 + k]
}

/// What the raster paints: output pixel `(x, y)` lies in the cell at column
/// `x / (8 * scale)` and row `y / (8 * scale)`, on glyph pixel
/// `((x / scale) % 8, (y / scale) % 8)`. Where that glyph pixel is set, a
/// monochrome raster is the gray of the cell's lightness, all three channels
/// equal to it, and a color raster is the cell's sampled color; everywhere
/// else it is the background. So the default, monochrome, PNG is gray, and
/// the sampled color shows only in color mode.
pub proof fn law_raster_paints_by_mode(art: ArtView, options: Options, x: int, y: int, k: int)
    requires
        art.well_formed(),
        options.scale >= 1,
        0 <= x < raster_width(art, options),
        0 <= y < raster_height(art, options),
        0 <= k < 3,
    ensures
        ({
            let s = options.scale as int;
            let cell = art.cell_at((x / s) / 8, (y / s) / 8);
            let set = glyph_pixel(cell.glyph@, ((x / s) % 8) as u32, ((y / s) % 8) as u32);
            &&& 0 <= (x / s) / 8 < art.columns
            &&& 0 <= (y / s) / 8 < art.rows
            &&& raster_byte(art, options, x, y, k) == if !set {
                channel_of(options.background, k)
            } else if options.color_mode == ColorMode::Monochrome {
                cell.lightness
            } else {
                channel_of(cell.color, k)
            }
        }),
{
    let s = options.scale as int;
    let w = raster_width(art, options);
    let h = raster_height(art, options);
    assert(0 <= (x / s) / 8 < art.columns && 0 <= (y / s) / 8 < art.rows) by (nonlinear_arith)
        requires
            0 <= x < art.columns * 8 * s,
            0 <= y < art.rows * 8 * s,
            s >= 1;
    lemma_raster_index(x, y, k, w, h);
}

/// The width of the raster of `art` in output pixels.
pub open spec fn raster_width(art: ArtView, options: Options) -> int {
    art.columns * 8 * options.scale
}

/// The height of the raster of `art` in output pixels.
pub open spec fn raster_height(art: ArtView, options: Options) -> int {
    art.rows * 8 * options.scale
}

/// The PNG file that `image`'s `PngEncoder` writes for the RGB8 `pixels` of
/// a `width` by `height` picture; the message of the error where it fails.
pub uninterp spec fn png_file(pixels: Seq<u8>, width: u32, height: u32) -> Result<Seq<u8>, Seq<char>>;

/// Encodes RGB8 `pixels` as a PNG file with `image`'s
/// `PngEncoder::write_image`, at the default compression and filter.
///
/// Trusted: the bytes, or the message of the error, are what `png_file`
/// names. `write_image` panics unless the buffer holds three bytes per
/// pixel, which `requires` rules out.
#[verifier::external_body]
fn encode_png(pixels: &[u8], width: u32, height: u32) -> (file: Result<Vec<u8>, String>)
    requires
        pixels@.len() == width * height * 3,
    ensures
        png_file(pixels@, width, height) == match file {
            Ok(bytes) => Ok::<Seq<u8>, Seq<char>>(bytes@),
            Err(message) => Err(message@),
        },
{
    let mut out: Vec<u8> = Vec::new();
    let encoder = image::codecs::png::PngEncoder::new(&mut out);
    match encoder.write_image(pixels, width, height, image::ExtendedColorType::Rgb8) {
        Ok(()) => Ok(out),
        Err(error) => Err(error.to_string()),
    }
}

/// Where byte `i` of a raster `width` pixels wide sits: pixel `(x, y)`,
/// channel `k`.
proof fn lemma_raster_index(x: int, y: int, k: int, width: int, height: int)
    requires
        0 <= x < width,
        0 <= y < height,
        0 <= k < 3,
    ensures
        ((y * width + x) * 3 + k) / 3 == y * width + x,
        ((y * width + x) * 3 + k) % 3 == k,
        (y * width + x) % width == x,
        (y * width + x) / width == y,
        (y * width + x) * 3 + k < width * height * 3,
{
    let p = y * width + x;
    assert((p * 3 + k) / 3 == p && (p * 3 + k) % 3 == k) by (nonlinear_arith)
        requires 0 <= k < 3, p >= 0;
    assert(p % width == x && p / width == y) by (nonlinear_arith)
        requires p == y * width + x, 0 <= x < width, y >= 0;
    assert(p * 3 + k < width * height * 3) by (nonlinear_arith)
        requires p == y * width + x, 0 <= x < width, 0 <= y < height, 0 <= k < 3;
}

/// A raster image, one output pixel per glyph pixel times the scale.
pub struct PngRenderer {
    options: Options,
}

impl PngRenderer {
    pub fn new(options: Options) -> (renderer: PngRenderer)
        ensures
            renderer.options() == options,
    {
        PngRenderer { options }
    }

    /// The options this renderer draws with.
    pub closed spec fn options(&self) -> Options {
        self.options
    }

    /// The color of output pixel `(x, y)` of the raster of `art`.
    fn color_at(&self, art: &AsciiArt, x: u32, y: u32) -> (color: Color)
        requires
            self.options().scale > 0,
            x < raster_width(art@, self.options()),
            y < raster_height(art@, self.options()),
        ensures
            color == raster_color(art@, self.options(), x as int, y as int),
    {
        let columns = art.columns();
        let rows = art.rows();
        let scale = self.options.scale;
        let glyph_x = x / scale;
        let glyph_y = y / scale;
        let column = glyph_x / GLYPH_WIDTH;
        let row = glyph_y / GLYPH_HEIGHT;
        proof {
            assert(column < columns && row < rows) by (nonlinear_arith)
                requires
                    column == (x / scale) / 8,
                    row == (y / scale) / 8,
                    x < columns * 8 * scale,
                    y < rows * 8 * scale,
                    scale > 0;
            lemma_cell_index(columns as int, rows as int, column as int, row as int);
        }
        let cell = art.cell(column, row);
        if cell.glyph.is_set(glyph_x % GLYPH_WIDTH, glyph_y % GLYPH_HEIGHT) {
            cell.color_in(self.options.color_mode)
        } else {
            self.options.background
        }
    }

    /// Paints the art into a flat RGB8 buffer of `width * height * 3` bytes,
    /// for the `width` and `height` of the art at this renderer's scale.
    pub fn rasterize(&self, art: &AsciiArt, width: u32, height: u32) -> (buffer: Vec<u8>)
        requires
            width == raster_width(art@, self.options()),
            height == raster_height(art@, self.options()),
            width * 3 <= u32::MAX,
            width * 3 * height <= usize::MAX,
        ensures
            buffer@ == raster(art@, self.options(), width as int, height as int),
    {
        let ghost expected = raster(art@, self.options(), width as int, height as int);
        let mut buffer: Vec<u8> = Vec::new();
        let mut y: u32 = 0;
        while y < height
            invariant
                width == raster_width(art@, self.options()),
                height == raster_height(art@, self.options()),
                width * 3 * height <= usize::MAX,
                expected == raster(art@, self.options(), width as int, height as int),
                y <= height,
                buffer@ == expected.take(y * width * 3),
            decreases height - y,
        {
            let mut x: u32 = 0;
            while x < width
                invariant
                    width == raster_width(art@, self.options()),
                    height == raster_height(art@, self.options()),
                    width * 3 * height <= usize::MAX,
                    expected == raster(art@, self.options(), width as int, height as int),
                    y < height,
                    x <= width,
                    buffer@ == expected.take((y * width + x) * 3),
                decreases width - x,
            {
                proof {
                    assert(self.options().scale > 0) by (nonlinear_arith)
                        requires width == art@.columns * 8 * self.options().scale, x < width;
                    lemma_raster_index(x as int, y as int, 0, width as int, height as int);
                    lemma_raster_index(x as int, y as int, 1, width as int, height as int);
                    lemma_raster_index(x as int, y as int, 2, width as int, height as int);
                }
                let color = self.color_at(art, x, y);
                let ghost at = (y * width + x) * 3;
                buffer.push(color.r);
                buffer.push(color.g);
                buffer.push(color.b);
                assert(buffer@ == expected.take(at + 3));
                x = x + 1;
            }
            proof {
                assert((y * width + width) * 3 == (y + 1) * width * 3) by (nonlinear_arith);
            }
            y = y + 1;
        }
        proof {
            assert(height * width * 3 == width * height * 3) by (nonlinear_arith);
        }
        assert(buffer@ == expected);
        buffer
    }
}

/// Whether the raster of `art` at `options` can be sized in `u32` and held
/// in memory.
pub open spec fn raster_fits(art: ArtView, options: Options) -> bool {
    &&& art.columns * 8 <= u32::MAX
    &&& art.rows * 8 <= u32::MAX
    &&& raster_width(art, options) * 3 <= u32::MAX
    &&& raster_height(art, options) <= u32::MAX
    &&& raster_width(art, options) * 3 * raster_height(art, options) <= usize::MAX
}

impl Renderer for PngRenderer {
    open spec fn can_render(&self, art: ArtView) -> bool {
        raster_fits(art, self.options())
    }

    fn extension(&self) -> (extension: &'static str)
        ensures
            extension@ == "png"@,
    {
        "png"
    }

    fn is_textual(&self) -> (textual: bool)
        ensures
            textual == false,
    {
        false
    }

    fn render(&self, art: &AsciiArt) -> (out: Result<Output, String>)
        ensures
            ({
                let pixels = raster(
                    art@,
                    self.options(),
                    raster_width(art@, self.options()),
                    raster_height(art@, self.options()),
                );
                let file = png_file(
                    pixels,
                    raster_width(art@, self.options()) as u32,
                    raster_height(art@, self.options()) as u32,
                );
                match out {
                    Ok(Output::Bytes(bytes)) => file == Ok::<Seq<u8>, Seq<char>>(bytes@),
                    Ok(Output::Text(_)) => false,
                    Err(message) => file == Err::<Seq<u8>, Seq<char>>(message@),
                }
            }),
    {
        let scale = self.options.scale;
        proof {
            assert(art@.columns * 8 * scale <= u32::MAX) by (nonlinear_arith)
                requires art@.columns * 8 * scale * 3 <= u32::MAX;
        }
        let width = art.width_in_glyph_px() * scale;
        let height = art.height_in_glyph_px() * scale;
        let buffer = self.rasterize(art, width, height);
        proof {
            assert(width * 3 * height == width * height * 3) by (nonlinear_arith);
        }
        match encode_png(buffer.as_slice(), width, height) {
            Ok(bytes) => Ok(Output::Bytes(bytes)),
            Err(message) => Err(message),
        }
    }
}

} // verus!
