//! Simple Image To Ascii: redraws a picture with the characters of an 8x8
//! bitmap font, as a PNG, an SVG, plain text or colored terminal text.
//!
//! The pipeline is three independent stages: [`source`] decodes the input
//! into pixels, [`extract`] samples the pixels into the cells of an
//! [`ascii::AsciiArt`], and the renderers of [`render`] turn the cells into a
//! file. [`cli`] resolves the command line into what the pipeline needs.

pub mod ascii;
pub mod cli;
pub mod error;
pub mod extract;
pub mod font;
pub mod input;
pub mod px;
pub mod render;
pub mod source;
pub mod textfmt;
