//! Output backends.
//!
//! A renderer turns an [`AsciiArt`] into the bytes of a file. It only ever
//! sees the cell grid, so adding a format means adding a [`Renderer`] here:
//! nothing in the extraction path needs to know about it.

use vstd::prelude::*;

use crate::ascii::{AsciiArt, ArtView, Color, ColorMode};
use crate::cli::{Format, format_extension};

pub mod ansi;
pub mod png;
pub mod svg;
pub mod text;

pub use ansi::AnsiRenderer;
pub use png::PngRenderer;
pub use svg::SvgRenderer;
pub use text::TextRenderer;

verus! {

/// Settings shared by the renderers that draw glyphs rather than emit text.
#[derive(Clone, Copy, Debug)]
pub struct Options {
    /// Output pixels (or SVG units) per glyph pixel.
    pub scale: u32,
    pub color_mode: ColorMode,
    /// What to paint where no glyph pixel is set.
    pub background: Color,
}

impl Default for Options {
    fn default() -> (options: Options)
        ensures
            options.scale == 1,
            options.color_mode == ColorMode::Monochrome,
            options.background == (Color { r: 0, g: 0, b: 0 }),
    {
        Options { scale: 1, color_mode: ColorMode::Monochrome, background: Color::gray(0) }
    }
}

/// What a renderer produces: text for a terminal, or the bytes of a binary
/// file.
#[derive(Debug)]
pub enum Output {
    Text(String),
    Bytes(Vec<u8>),
}

pub trait Renderer {
    /// Whether this renderer can draw `art` without its sizes overflowing.
    spec fn can_render(&self, art: ArtView) -> bool;

    /// Extension for this format, without the dot. Used to complete an output
    /// path that does not have one.
    fn extension(&self) -> &'static str;

    /// Whether the output is text meant for a terminal, in which case the CLI
    /// will write it to stdout when no output path is given.
    fn is_textual(&self) -> bool;

    /// Draws `art`; fails only where encoding the file fails, with a message.
    fn render(&self, art: &AsciiArt) -> Result<Output, String>
        requires
            self.can_render(art@),
    ;
}

/// One renderer of any of the formats: what the command line resolves to.
pub enum AnyRenderer {
    Png(PngRenderer),
    Svg(SvgRenderer),
    Txt(TextRenderer),
    Ansi(AnsiRenderer),
}

impl AnyRenderer {
    /// Whether this is the renderer for `format`, drawing with `options`
    /// where the format draws glyphs (plain text takes no options).
    pub open spec fn draws(&self, format: Format, options: Options) -> bool {
        match self {
            AnyRenderer::Png(r) => format == Format::Png && r.options() == options,
            AnyRenderer::Svg(r) => format == Format::Svg && r.options() == options,
            AnyRenderer::Txt(_) => format == Format::Txt,
            AnyRenderer::Ansi(r) => format == Format::Ansi && r.options() == options,
        }
    }
}

impl Renderer for AnyRenderer {
    open spec fn can_render(&self, art: ArtView) -> bool {
        match self {
            AnyRenderer::Png(r) => r.can_render(art),
            AnyRenderer::Svg(r) => r.can_render(art),
            AnyRenderer::Txt(r) => r.can_render(art),
            AnyRenderer::Ansi(r) => r.can_render(art),
        }
    }

    fn extension(&self) -> (extension: &'static str)
        ensures
            extension@ == format_extension(
                match self {
                    AnyRenderer::Png(_) => Format::Png,
                    AnyRenderer::Svg(_) => Format::Svg,
                    AnyRenderer::Txt(_) => Format::Txt,
                    AnyRenderer::Ansi(_) => Format::Ansi,
                },
            ),
    {
        match self {
            AnyRenderer::Png(_) => "png",
            AnyRenderer::Svg(_) => "svg",
            AnyRenderer::Txt(_) => "txt",
            AnyRenderer::Ansi(_) => "ansi",
        }
    }

    fn is_textual(&self) -> (textual: bool)
        ensures
            textual == (self is Txt || self is Ansi),
    {
        match self {
            AnyRenderer::Png(_) => false,
            AnyRenderer::Svg(_) => false,
            AnyRenderer::Txt(_) => true,
            AnyRenderer::Ansi(_) => true,
        }
    }

    fn render(&self, art: &AsciiArt) -> (out: Result<Output, String>)
        ensures
            match self {
                AnyRenderer::Png(r) => {
                    let pixels = png::raster(
                        art@,
                        r.options(),
                        png::raster_width(art@, r.options()),
                        png::raster_height(art@, r.options()),
                    );
                    let file = png::png_file(
                        pixels,
                        png::raster_width(art@, r.options()) as u32,
                        png::raster_height(art@, r.options()) as u32,
                    );
                    match out {
                        Ok(Output::Bytes(bytes)) => file == Ok::<Seq<u8>, Seq<char>>(bytes@),
                        Ok(Output::Text(_)) => false,
                        Err(message) => file == Err::<Seq<u8>, Seq<char>>(message@),
                    }
                },
                AnyRenderer::Svg(r) => out matches Ok(Output::Text(text)) && text@ == svg::svg_of(art@, r.options()),
                AnyRenderer::Txt(_) => out matches Ok(Output::Text(text)) && text@ == text::text_of(art@),
                AnyRenderer::Ansi(r) => out matches Ok(Output::Text(text)) && text@ == ansi::ansi_of(
                    art@,
                    r.options().color_mode,
                ),
            },
    {
        match self {
            AnyRenderer::Png(r) => r.render(art),
            AnyRenderer::Svg(r) => r.render(art),
            AnyRenderer::Txt(r) => r.render(art),
            AnyRenderer::Ansi(r) => r.render(art),
        }
    }
}

} // verus!
