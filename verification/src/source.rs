//! The pictures we turn into ascii.
//!
//! PNG is the only format we accept for now; everything downstream works off
//! [`Source`], so widening this is a matter of adding decoders here.

use vstd::prelude::*;

use crate::error::Error;

verus! {

/// What a [`Source`] holds: its size, and its pixels row by row, left to
/// right, three bytes (red, green, blue) each.
pub struct SourceView {
    pub width: u32,
    pub height: u32,
    pub pixels: Seq<u8>,
}

impl SourceView {
    /// Channel `k` (0 red, 1 green, 2 blue) of the pixel at `(x, y)`.
    pub open spec fn channel(self, x: int, y: int, k: int) -> u8 {
        self.pixels[(y * self.width + x) * 3 + k]
    }
}

/// What `image` decodes the PNG file `bytes` into: its pixels converted to
/// 8-bit RGBA, as `(width, height, pixels)`; or, where decoding fails, `None`
/// for bytes that are not a PNG it can read, and the message of any other
/// failure.
pub uninterp spec fn png_decoded(bytes: Seq<u8>) -> Result<(u32, u32, Seq<u8>), Option<Seq<char>>>;

/// How decoding a PNG failed.
#[derive(Debug, Clone, PartialEq, Eq)]
pub enum PngFailure {
    /// The bytes are not a PNG the decoder can read.
    NotAPng,
    /// Decoding failed for another reason, described by the message.
    Other(String),
}

/// Decodes `bytes` as a PNG with `image::ImageReader::decode`, then converts
/// the picture with `DynamicImage::to_rgba8`; a picture without alpha comes
/// back opaque.
///
/// Trusted: the result is what `png_decoded` names, and the pixel buffer of
/// an RGBA8 image holds four bytes per pixel. A `Decoding` error of `image`
/// comes back as `NotAPng`, any other as `Other` with its message.
#[verifier::external_body]
fn decode_png_rgba8(bytes: &[u8]) -> (decoded: Result<(u32, u32, Vec<u8>), PngFailure>)
    ensures
        png_decoded(bytes@) == match decoded {
            Ok((width, height, pixels)) => Ok((width, height, pixels@)),
            Err(PngFailure::NotAPng) => Err(None),
            Err(PngFailure::Other(message)) => Err(Some(message@)),
        },
        decoded matches Ok((width, height, pixels)) ==> pixels@.len() == width * height * 4,
{
    let reader = image::ImageReader::with_format(std::io::Cursor::new(bytes), image::ImageFormat::Png);
    match reader.decode() {
        Ok(picture) => {
            let rgba = picture.to_rgba8();
            Ok((rgba.width(), rgba.height(), rgba.into_raw()))
        },
        Err(image::ImageError::Decoding(_)) => Err(PngFailure::NotAPng),
        Err(other) => Err(PngFailure::Other(other.to_string())),
    }
}

/// Channel value `c` at opacity `alpha` over black, rounded to the nearest
/// value.
pub open spec fn over_black(c: u8, alpha: u8) -> u8 {
    ((c * alpha + 127) / 255) as u8
}

/// RGBA8 pixels composited over black: three bytes (red, green, blue) per
/// pixel, each channel scaled by the pixel's opacity.
pub open spec fn composited(rgba: Seq<u8>) -> Seq<u8> {
    Seq::new(
        (rgba.len() / 4 * 3) as nat,
        |i: int| over_black(rgba[(i / 3) * 4 + i % 3], rgba[(i / 3) * 4 + 3]),
    )
}

/// An opaque pixel keeps its color, and a fully transparent one reads as
/// black.
pub proof fn law_transparent_reads_as_black(c: u8)
    ensures
        over_black(c, 255) == c,
        over_black(c, 0) == 0,
{
    assert((c * 255 + 127) / 255 == c as int) by (nonlinear_arith);
}

/// Where byte `i` of the composited pixels comes from.
proof fn lemma_composite_index(p: int, k: int)
    requires
        p >= 0,
        0 <= k < 3,
    ensures
        (p * 3 + k) / 3 == p,
        (p * 3 + k) % 3 == k,
{
    assert((p * 3 + k) / 3 == p && (p * 3 + k) % 3 == k) by (nonlinear_arith)
        requires p >= 0, 0 <= k < 3;
}

/// Composites RGBA8 pixels over black, so that transparent pixels read as
/// black.
pub fn composite_over_black(rgba: &Vec<u8>) -> (rgb: Vec<u8>)
    requires
        rgba@.len() % 4 == 0,
    ensures
        rgb@ == composited(rgba@),
{
    let len = rgba.len();
    let n = len / 4;
    let ghost expected = composited(rgba@);
    let mut rgb: Vec<u8> = Vec::new();
    let mut p: usize = 0;
    while p < n
        invariant
            len == rgba@.len(),
            n == rgba@.len() / 4,
            rgba@.len() % 4 == 0,
            expected == composited(rgba@),
            p <= n,
            rgb@ == expected.take(p * 3),
        decreases n - p,
    {
        proof {
            assert(p * 4 + 3 < len) by (nonlinear_arith)
                requires p < n, n == len / 4, len % 4 == 0;
        }
        let alpha = rgba[p * 4 + 3];
        let mut k: usize = 0;
        while k < 3
            invariant
                len == rgba@.len(),
                n == rgba@.len() / 4,
                rgba@.len() % 4 == 0,
                expected == composited(rgba@),
                p < n,
                p * 4 + 3 < len,
                k <= 3,
                alpha == rgba@[p * 4 + 3],
                rgb@ == expected.take(p * 3 + k),
            decreases 3 - k,
        {
            proof {
                lemma_composite_index(p as int, k as int);
                assert((p * 3 + k) < n * 3);
            }
            let c = rgba[p * 4 + k];
            proof {
                assert(c * alpha + 127 <= 255 * 255 + 127) by (nonlinear_arith)
                    requires c <= 255, alpha <= 255;
            }
            let v = ((c as u32 * alpha as u32 + 127) / 255) as u8;
            rgb.push(v);
            assert(rgb@ == expected.take(p * 3 + k + 1));
            k = k + 1;
        }
        p = p + 1;
    }
    assert(rgb@ == expected);
    rgb
}

/// A decoded picture, ready to be sampled. Never empty.
pub struct Source {
    width: u32,
    height: u32,
    pixels: Vec<u8>,
}

impl View for Source {
    type V = SourceView;

    closed spec fn view(&self) -> SourceView {
        SourceView { width: self.width, height: self.height, pixels: self.pixels@ }
    }
}

/// Whether `v` is a picture with at least one pixel and three bytes for each.
pub open spec fn well_formed_source(v: SourceView) -> bool {
    &&& v.width > 0
    &&& v.height > 0
    &&& v.pixels.len() == v.width * v.height * 3
}

impl Source {
    #[verifier::type_invariant]
    spec fn pixels_fill_picture(self) -> bool {
        well_formed_source(self@)
    }

    /// Decodes the PNG file `bytes`, read from `path`. Any alpha channel is
    /// composited over black, so transparent pixels read as black.
    pub fn load_png(path: &str, bytes: &[u8]) -> (source: Result<Source, Error>)
        ensures
            match png_decoded(bytes@) {
                Ok((w, h, px)) => if w == 0 || h == 0 {
                    source matches Err(Error::EmptyImage(p)) && p@ == path@
                } else {
                    source matches Ok(s) && s@ == (SourceView { width: w, height: h, pixels: composited(px) })
                },
                Err(None) => source matches Err(Error::NotAPng(p)) && p@ == path@,
                Err(Some(m)) => source matches Err(Error::Decode { path: p, message }) && p@ == path@
                    && message@ == m,
            },
    {
        let decoded = decode_png_rgba8(bytes);
        Source::from_decoded(path, decoded)
    }

    /// The source for what decoding `path` gave: its failure mapped to an
    /// [`Error`] naming `path`, or its RGBA pixels composited over black,
    /// which must not be empty.
    pub fn from_decoded(path: &str, decoded: Result<(u32, u32, Vec<u8>), PngFailure>) -> (source: Result<Source, Error>)
        requires
            decoded matches Ok((w, h, px)) ==> px@.len() == w * h * 4,
        ensures
            match decoded {
                Ok((w, h, px)) => if w == 0 || h == 0 {
                    source matches Err(Error::EmptyImage(p)) && p@ == path@
                } else {
                    source matches Ok(s) && s@ == (SourceView { width: w, height: h, pixels: composited(px@) })
                },
                Err(PngFailure::NotAPng) => source matches Err(Error::NotAPng(p)) && p@ == path@,
                Err(PngFailure::Other(m)) => source matches Err(Error::Decode { path: p, message }) && p@
                    == path@ && message == m,
            },
    {
        match decoded {
            Ok((width, height, pixels)) => {
                if width == 0 || height == 0 {
                    return Err(Error::EmptyImage(path.to_string()));
                }
                proof {
                    assert(pixels@.len() % 4 == 0 && pixels@.len() / 4 * 3 == width * height * 3)
                        by (nonlinear_arith)
                        requires pixels@.len() == width * height * 4;
                }
                let rgb = composite_over_black(&pixels);
                Ok(Source { width, height, pixels: rgb })
            },
            Err(PngFailure::NotAPng) => Err(Error::NotAPng(path.to_string())),
            Err(PngFailure::Other(message)) => Err(Error::Decode { path: path.to_string(), message }),
        }
    }

    /// Wraps already-decoded pixels, bypassing the decoders.
    pub fn from_pixels(width: u32, height: u32, pixels: Vec<u8>) -> (source: Source)
        requires
            width > 0,
            height > 0,
            pixels@.len() == width * height * 3,
        ensures
            source@ == (SourceView { width, height, pixels: pixels@ }),
    {
        Source { width, height, pixels }
    }

    pub fn width(&self) -> (width: u32)
        ensures
            width == self@.width,
            well_formed_source(self@),
    {
        proof {
            use_type_invariant(self);
        }
        self.width
    }

    pub fn height(&self) -> (height: u32)
        ensures
            height == self@.height,
            well_formed_source(self@),
    {
        proof {
            use_type_invariant(self);
        }
        self.height
    }

    /// The pixels, row by row, three bytes each.
    pub fn pixels(&self) -> (pixels: &Vec<u8>)
        ensures
            pixels@ == self@.pixels,
            well_formed_source(self@),
    {
        proof {
            use_type_invariant(self);
        }
        &self.pixels
    }
}

} // verus!
