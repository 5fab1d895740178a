//! The command line, resolved into what the pipeline needs.

use vstd::prelude::*;
use vstd::string::StringSliceAdditionalSpecFns;

use crate::ascii::{Color, ColorMode, color_from_hex, hex_cuts_on_boundaries};
use crate::error::Error;
use crate::extract::{extracted, grid_columns, grid_rows};
use crate::font::{Glyph, Ramp, first_unrenderable};
use crate::render::png::{raster_height, raster_width};
use crate::source::{SourceView, well_formed_source};
use crate::render::{AnsiRenderer, AnyRenderer, Options, PngRenderer, Renderer, SvgRenderer, TextRenderer};
use crate::textfmt::push_str;

verus! {

/// Output formats.
#[derive(Copy, Clone, PartialEq, Eq, Debug, Structural)]
pub enum Format {
    /// Raster image.
    Png,
    /// Vector image, one shape per run of glyph pixels.
    Svg,
    /// Plain characters.
    Txt,
    /// Characters with 24-bit terminal color escapes.
    Ansi,
}

/// The file extension of a format, which is also its name in messages.
pub open spec fn format_extension(format: Format) -> Seq<char> {
    match format {
        Format::Png => "png"@,
        Format::Svg => "svg"@,
        Format::Txt => "txt"@,
        Format::Ansi => "ansi"@,
    }
}

/// `c` in lower case, if it is an ASCII capital; unchanged otherwise.
pub open spec fn ascii_lower_char(c: char) -> char {
    if 'A' <= c && c <= 'Z' {
        ((c as u32) + 32) as char
    } else {
        c
    }
}

/// `s` with its ASCII capitals in lower case.
pub open spec fn ascii_lower(s: Seq<char>) -> Seq<char> {
    s.map_values(|c: char| ascii_lower_char(c))
}

/// The format an output extension names, in any case: `png`, `svg`, `txt` or
/// `text`, `ansi`.
pub open spec fn format_for_extension(extension: Seq<char>) -> Option<Format> {
    let e = ascii_lower(extension);
    if e == seq!['p', 'n', 'g'] {
        Some(Format::Png)
    } else if e == seq!['s', 'v', 'g'] {
        Some(Format::Svg)
    } else if e == seq!['t', 'x', 't'] || e == seq!['t', 'e', 'x', 't'] {
        Some(Format::Txt)
    } else if e == seq!['a', 'n', 's', 'i'] {
        Some(Format::Ansi)
    } else {
        None
    }
}

/// The extension of the last component of `path`, as
/// `std::path::Path::extension` reads it.
pub uninterp spec fn path_extension(path: Seq<char>) -> Option<Seq<char>>;

/// `path` with its extension set to `extension`, as
/// `std::path::Path::with_extension` writes it.
pub uninterp spec fn path_with_extension(path: Seq<char>, extension: Seq<char>) -> Seq<char>;

/// The extension of the file that `path` names, with
/// `std::path::Path::extension`, as text.
///
/// Trusted: the result is what `path_extension` names. The extension of a
/// path given as UTF-8 is UTF-8, so nothing is lost in the conversion.
#[verifier::external_body]
fn extension_of(path: &str) -> (extension: Option<String>)
    ensures
        match extension {
            Some(e) => path_extension(path@) == Some(e@),
            None => path_extension(path@) is None,
        },
{
    match std::path::Path::new(path).extension() {
        Some(e) => Some(e.to_string_lossy().into_owned()),
        None => None,
    }
}

/// Whether `s` holds no path separator, `/` or `\\`.
pub open spec fn holds_no_separator(s: Seq<char>) -> bool {
    forall|i: int| 0 <= i < s.len() ==> s[i] != '/' && s[i] != '\\'
}

/// The extension of every format is a plain word, with no path separator.
proof fn lemma_format_extension_is_plain(format: Format)
    ensures
        holds_no_separator(format_extension(format)),
{
    reveal_strlit("png");
    reveal_strlit("svg");
    reveal_strlit("txt");
    reveal_strlit("ansi");
}

/// `path` with its extension replaced by (or completed with) `extension`,
/// with `std::path::Path::with_extension`, as text.
///
/// Trusted: the result is what `path_with_extension` names. A UTF-8 path
/// with a UTF-8 extension stays UTF-8, so nothing is lost in the conversion.
/// `PathBuf::set_extension` panics on an extension that holds a path
/// separator, which `requires` rules out.
#[verifier::external_body]
fn with_extension(path: &str, extension: &str) -> (completed: String)
    requires
        holds_no_separator(extension@),
    ensures
        completed@ == path_with_extension(path@, extension@),
{
    std::path::Path::new(path).with_extension(extension).to_string_lossy().into_owned()
}

impl Format {
    /// The format an output extension names, ignoring ASCII case.
    pub fn from_extension(extension: &str) -> (format: Option<Format>)
        ensures
            format == format_for_extension(extension@),
    {
        let n = extension.unicode_len();
        let mut lower: Vec<char> = Vec::new();
        let mut i: usize = 0;
        while i < n
            invariant
                n == extension@.len(),
                i <= n,
                lower@ == ascii_lower(extension@.take(i as int)),
            decreases n - i,
        {
            let c = extension.get_char(i);
            let l = if 'A' <= c && c <= 'Z' {
                ((c as u8) + 32) as char
            } else {
                c
            };
            assert(l == ascii_lower_char(c));
            lower.push(l);
            assert(extension@.take(i + 1) == extension@.take(i as int).push(c));
            assert(ascii_lower(extension@.take(i + 1)) == ascii_lower(extension@.take(i as int)).push(l));
            i = i + 1;
        }
        assert(extension@.take(n as int) == extension@);
        let e = &lower;
        if e.len() == 3 && e[0] == 'p' && e[1] == 'n' && e[2] == 'g' {
            assert(lower@ == seq!['p', 'n', 'g']);
            Some(Format::Png)
        } else if e.len() == 3 && e[0] == 's' && e[1] == 'v' && e[2] == 'g' {
            assert(lower@ == seq!['s', 'v', 'g']);
            Some(Format::Svg)
        } else if e.len() == 3 && e[0] == 't' && e[1] == 'x' && e[2] == 't' {
            assert(lower@ == seq!['t', 'x', 't']);
            Some(Format::Txt)
        } else if e.len() == 4 && e[0] == 't' && e[1] == 'e' && e[2] == 'x' && e[3] == 't' {
            assert(lower@ == seq!['t', 'e', 'x', 't']);
            Some(Format::Txt)
        } else if e.len() == 4 && e[0] == 'a' && e[1] == 'n' && e[2] == 's' && e[3] == 'i' {
            assert(lower@ == seq!['a', 'n', 's', 'i']);
            Some(Format::Ansi)
        } else {
            None
        }
    }

    /// The renderer for this format, drawing with `options`.
    pub fn renderer(self, options: Options) -> (renderer: AnyRenderer)
        ensures
            renderer.draws(self, options),
    {
        match self {
            Format::Png => AnyRenderer::Png(PngRenderer::new(options)),
            Format::Svg => AnyRenderer::Svg(SvgRenderer::new(options)),
            Format::Txt => AnyRenderer::Txt(TextRenderer),
            Format::Ansi => AnyRenderer::Ansi(AnsiRenderer::new(options)),
        }
    }
}

/// The message for a background that is not a hex color.
pub open spec fn bad_color_message(raw: Seq<char>) -> Seq<char> {
    "`"@ + raw + "` is not a #rgb or #rrggbb color"@
}

/// Parses a `--background` value: `#rgb` or `#rrggbb`, the `#` optional.
pub fn parse_color(raw: &str) -> (color: Result<Color, String>)
    requires
        hex_cuts_on_boundaries(raw.spec_bytes()),
    ensures
        match color_from_hex(raw.spec_bytes()) {
            Some(c) => color == Ok::<Color, String>(c),
            None => color matches Err(message) && message@ == bad_color_message(raw@),
        },
{
    match Color::from_hex(raw) {
        Some(c) => Ok(c),
        None => {
            let mut message = String::new();
            push_str(&mut message, "`");
            push_str(&mut message, raw);
            push_str(&mut message, "` is not a #rgb or #rrggbb color");
            Err(message)
        },
    }
}

/// The command line, as given: what was typed, before any defaults that
/// depend on other arguments are filled in.
pub struct Cli {
    /// PNG file to convert.
    pub input: String,
    /// Where to write the result; textual formats go to stdout without one.
    pub output: Option<String>,
    /// Output format; inferred from the output extension when not given.
    pub format: Option<Format>,
    /// Source pixels per glyph pixel.
    pub scale: u32,
    /// Output pixels (or SVG units) per glyph pixel; defaults to `scale`.
    pub output_scale: Option<u32>,
    /// Whether characters keep the color they were sampled from.
    pub color: ColorMode,
    /// Characters to draw with, darkest first.
    pub ramp: String,
    /// Reverse the ramp, for dark characters on a light background.
    pub invert: bool,
    /// Background color.
    pub background: Color,
    /// Report timings on stderr.
    pub verbose: bool,
}

/// The command line, resolved into what the pipeline actually needs.
pub struct Config {
    pub input: String,
    /// Where the rendered bytes go; `None` means stdout.
    pub output: Option<String>,
    pub scale: u32,
    pub ramp: Ramp,
    pub renderer: AnyRenderer,
    pub verbose: bool,
}

/// The format a run uses: the one asked for, else the one the output
/// extension (`output_extension`) names, else PNG.
pub open spec fn chosen_format(format: Option<Format>, output_extension: Option<Seq<char>>) -> Format {
    match format {
        Some(f) => f,
        None => match output_extension {
            Some(e) => match format_for_extension(e) {
                Some(f) => f,
                None => Format::Png,
            },
            None => Format::Png,
        },
    }
}

/// Whether a format writes text for a terminal.
pub open spec fn is_textual_format(format: Format) -> bool {
    format == Format::Txt || format == Format::Ansi
}

/// Where a run writes: a path without an extension gets the format's own,
/// any other path is kept as it is, and no path means stdout for the textual
/// formats. `None` where a binary format has nowhere to go.
pub open spec fn chosen_output(output: Option<Seq<char>>, output_extension: Option<Seq<char>>, format: Format) -> Option<Option<Seq<char>>> {
    match output {
        Some(path) => if output_extension is None {
            Some(Some(path_with_extension(path, format_extension(format))))
        } else {
            Some(Some(path))
        },
        None => if is_textual_format(format) {
            Some(None)
        } else {
            None
        },
    }
}

/// The options the drawing renderers get: the output scale (the sampling
/// scale unless given), the color mode and the background.
pub open spec fn chosen_options(cli: Cli) -> Options {
    Options {
        scale: match cli.output_scale {
            Some(s) => s,
            None => cli.scale,
        },
        color_mode: cli.color,
        background: cli.background,
    }
}

/// A picture `size` pixels long, a whole number of cells of `cell` pixels,
/// is cut into `size / cell` cells, which cover it exactly.
proof fn lemma_whole_cells(size: int, cell: int)
    requires
        cell >= 1,
        size >= 0,
        size % cell == 0,
    ensures
        crate::extract::div_ceil(size, cell) * cell == size,
{
    let q = size / cell;
    assert(size == q * cell) by (nonlinear_arith)
        requires size % cell == 0, q == size / cell, cell >= 1;
    vstd::arithmetic::div_mod::lemma_fundamental_div_mod_converse(size + cell - 1, cell, q, cell - 1);
}

/// Without `--output-scale`, the output is drawn at the sampling scale, so it
/// keeps the size of the input: every renderer that draws glyphs gets the
/// scale that the picture is sampled at, and the PNG of a `width` by
/// `height` picture, sampled at that scale into cells that cut it exactly,
/// is `width` by `height` pixels; the SVG's default size is the same.
pub proof fn law_output_scale_defaults_to_scale(
    cli: Cli,
    output_extension: Option<Seq<char>>,
    config: Result<Config, Error>,
    src: SourceView,
    ramp: Seq<Glyph>,
)
    requires
        cli.resolved(output_extension, config),
        config is Ok,
        cli.output_scale is None,
        cli.scale >= 1,
        well_formed_source(src),
        (src.width as int) % (8 * cli.scale as int) == 0,
        (src.height as int) % (8 * cli.scale as int) == 0,
    ensures
        config->Ok_0.scale == cli.scale,
        match config->Ok_0.renderer {
            AnyRenderer::Png(r) => {
                let art = extracted(src, 8 * config->Ok_0.scale, ramp);
                &&& r.options().scale == cli.scale
                &&& raster_width(art, r.options()) == src.width
                &&& raster_height(art, r.options()) == src.height
            },
            AnyRenderer::Svg(r) => {
                let art = extracted(src, 8 * config->Ok_0.scale, ramp);
                &&& r.options().scale == cli.scale
                &&& art.columns * 8 * r.options().scale == src.width
                &&& art.rows * 8 * r.options().scale == src.height
            },
            AnyRenderer::Ansi(r) => r.options().scale == cli.scale,
            AnyRenderer::Txt(_) => true,
        },
{
    let cell = 8 * cli.scale as int;
    lemma_whole_cells(src.width as int, cell);
    lemma_whole_cells(src.height as int, cell);
    let columns = grid_columns(src, cell);
    let rows = grid_rows(src, cell);
    assert(0 <= columns <= src.width && 0 <= rows <= src.height) by (nonlinear_arith)
        requires columns * cell == src.width, rows * cell == src.height, cell >= 8;
    assert(columns * 8 * cli.scale == src.width && rows * 8 * cli.scale == src.height) by (nonlinear_arith)
        requires columns * cell == src.width, rows * cell == src.height, cell == 8 * cli.scale;
}

impl Cli {
    /// Fills in the defaults that depend on other arguments: the format from
    /// the output extension, the output extension from the format, and the
    /// output scale from the sampling scale.
    pub fn resolve(self) -> (config: Result<Config, Error>)
        ensures
            ({
                let extension = match self.output {
                    Some(p) => path_extension(p@),
                    None => None,
                };
                self.resolved(extension, config)
            }),
    {
        let extension = match &self.output {
            Some(path) => extension_of(path.as_str()),
            None => None,
        };
        self.resolve_with(extension)
    }

    /// What resolving this command line gives, when the output path has the
    /// extension `output_extension`.
    pub open spec fn resolved(self, output_extension: Option<Seq<char>>, config: Result<Config, Error>) -> bool {
        let format = chosen_format(self.format, output_extension);
        let output = match self.output {
            Some(p) => Some(p@),
            None => None,
        };
        match first_unrenderable(self.ramp@) {
            Some(c) => config == Err::<Config, Error>(Error::UnrenderableRampChar(c)),
            None => if self.ramp@.len() == 0 {
                config == Err::<Config, Error>(Error::EmptyRamp)
            } else {
                match chosen_output(output, output_extension, format) {
                    None => config matches Err(Error::OutputRequired(name)) && name@ == format_extension(format),
                    Some(target) => config matches Ok(c) && {
                        &&& c.input == self.input
                        &&& c.scale == self.scale
                        &&& c.verbose == self.verbose
                        &&& crate::font::glyph_chars(c.ramp@) == (if self.invert {
                            self.ramp@.reverse()
                        } else {
                            self.ramp@
                        })
                        &&& c.renderer.draws(format, chosen_options(self))
                        &&& match (c.output, target) {
                            (Some(p), Some(t)) => p@ == t,
                            (None, None) => true,
                            _ => false,
                        }
                    },
                }
            },
        }
    }

    /// Resolves this command line for an output path whose extension, as
    /// `std::path::Path::extension` reads it, is `output_extension` (`None`
    /// when there is no output path).
    pub fn resolve_with(self, output_extension: Option<String>) -> (config: Result<Config, Error>)
        ensures
            self.resolved(
                match output_extension {
                    Some(e) => Some(e@),
                    None => None,
                },
                config,
            ),
    {
        let ramp = match Ramp::new(self.ramp.as_str()) {
            Ok(ramp) => ramp,
            Err(Some(ch)) => return Err(Error::UnrenderableRampChar(ch)),
            Err(None) => return Err(Error::EmptyRamp),
        };
        let ghost glyphs = ramp@;
        let ramp = if self.invert {
            ramp.inverted()
        } else {
            ramp
        };
        assert(crate::font::glyph_chars(glyphs.reverse()) =~= crate::font::glyph_chars(glyphs).reverse());
        let format = match self.format {
            Some(f) => f,
            None => match &output_extension {
                Some(e) => match Format::from_extension(e.as_str()) {
                    Some(f) => f,
                    None => Format::Png,
                },
                None => Format::Png,
            },
        };
        let renderer = format.renderer(
            Options {
                scale: match self.output_scale {
                    Some(s) => s,
                    None => self.scale,
                },
                color_mode: self.color,
                background: self.background,
            },
        );
        let output = match self.output {
            Some(path) => {
                if output_extension.is_none() {
                    let extension = renderer.extension();
                    proof {
                        lemma_format_extension_is_plain(format);
                    }
                    Some(with_extension(path.as_str(), extension))
                } else {
                    Some(path)
                }
            },
            None => {
                if renderer.is_textual() {
                    None
                } else {
                    let mut name = String::new();
                    push_str(&mut name, renderer.extension());
                    return Err(Error::OutputRequired(name));
                }
            },
        };
        Ok(
            Config {
                input: self.input,
                output,
                scale: self.scale,
                ramp,
                renderer,
                verbose: self.verbose,
            },
        )
    }
}

} // verus!
