//! What can go wrong between the command line and the rendered output.

use vstd::prelude::*;

use crate::textfmt::push_str;

verus! {

/// Why a run failed. Paths are kept as the text they were given as.
#[derive(Debug, Clone, PartialEq, Eq)]
pub enum Error {
    /// The input file could not be read, or the output file could not be
    /// written.
    Io { path: String, message: String },
    /// The input is not something we can decode as a PNG.
    NotAPng(String),
    /// The input decoded, but not into anything we can turn into ascii.
    Decode { path: String, message: String },
    /// The input has no pixels to sample.
    EmptyImage(String),
    /// The requested ramp contains a character the font cannot render.
    UnrenderableRampChar(char),
    /// The requested ramp is empty.
    EmptyRamp,
    /// A binary format was asked for with nowhere to put it.
    OutputRequired(String),
}

/// How `{:?}` writes `c`: quoted, with escapes, as `char`'s `Debug` does.
pub uninterp spec fn char_debug_text(c: char) -> Seq<char>;

/// Writes `c` as `{:?}` does, with `char`'s `Debug`.
///
/// Trusted: the result is what `char_debug_text` names.
#[verifier::external_body]
fn char_debug(c: char) -> (text: String)
    ensures
        text@ == char_debug_text(c),
{
    format!("{c:?}")
}

/// What `error` says to the person who ran the command.
pub open spec fn error_text(error: Error) -> Seq<char> {
    match error {
        Error::Io { path, message } => path@ + ": "@ + message@,
        Error::NotAPng(path) => path@ + ": only PNG input is supported for now"@,
        Error::Decode { path, message } => path@ + ": could not decode PNG: "@ + message@,
        Error::EmptyImage(path) => path@ + ": image has no pixels"@,
        Error::UnrenderableRampChar(ch) => "the ramp character "@ + char_debug_text(ch)
            + " is not in the 8x8 font (printable ASCII only)"@,
        Error::EmptyRamp => "the ramp must contain at least one character"@,
        Error::OutputRequired(format) => "the "@ + format@
            + " format needs an output path; pass one, or use --format txt to print to stdout"@,
    }
}

impl Error {
    /// What this error says to the person who ran the command.
    pub fn message(&self) -> (text: String)
        ensures
            text@ == error_text(*self),
    {
        let mut text = String::new();
        match self {
            Error::Io { path, message } => {
                push_str(&mut text, path.as_str());
                push_str(&mut text, ": ");
                push_str(&mut text, message.as_str());
            },
            Error::NotAPng(path) => {
                push_str(&mut text, path.as_str());
                push_str(&mut text, ": only PNG input is supported for now");
            },
            Error::Decode { path, message } => {
                push_str(&mut text, path.as_str());
                push_str(&mut text, ": could not decode PNG: ");
                push_str(&mut text, message.as_str());
            },
            Error::EmptyImage(path) => {
                push_str(&mut text, path.as_str());
                push_str(&mut text, ": image has no pixels");
            },
            Error::UnrenderableRampChar(ch) => {
                push_str(&mut text, "the ramp character ");
                let quoted = char_debug(*ch);
                push_str(&mut text, quoted.as_str());
                push_str(&mut text, " is not in the 8x8 font (printable ASCII only)");
            },
            Error::EmptyRamp => {
                push_str(&mut text, "the ramp must contain at least one character");
            },
            Error::OutputRequired(format) => {
                push_str(&mut text, "the ");
                push_str(&mut text, format.as_str());
                push_str(
                    &mut text,
                    " format needs an output path; pass one, or use --format txt to print to stdout",
                );
            },
        }
        text
    }

    /// The error for a failed read or write of `path`, described by `message`.
    pub fn io(path: String, message: String) -> (error: Error)
        ensures
            error == (Error::Io { path, message }),
    {
        Error::Io { path, message }
    }
}

} // verus!
