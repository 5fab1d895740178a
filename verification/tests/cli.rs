use sita::ascii::{Color, ColorMode};
use sita::cli::{parse_color, Cli, Config, Format};
use sita::error::Error;
use sita::font::Ramp;
use sita::render::Renderer;

/// The command line `sita <input> [output] [-f format] [--ramp r] [--invert]`
/// with every other option at its default.
fn cli(input: &str, output: Option<&str>, format: Option<Format>) -> Cli {
    Cli {
        input: input.to_string(),
        output: output.map(|o| o.to_string()),
        format,
        scale: 1,
        output_scale: None,
        color: ColorMode::Monochrome,
        ramp: Ramp::DEFAULT.to_string(),
        invert: false,
        background: Color::new(0, 0, 0),
        verbose: false,
    }
}

fn resolve(cli: Cli) -> Result<Config, Error> {
    cli.resolve()
}

#[test]
fn the_format_comes_from_the_output_extension() {
    let config = resolve(cli("in.png", Some("out.svg"), None)).unwrap();

    assert_eq!(config.renderer.extension(), "svg");
    assert_eq!(config.output.unwrap(), "out.svg");
}

#[test]
fn an_explicit_format_wins_over_the_extension() {
    let config = resolve(cli("in.png", Some("out.svg"), Some(Format::Png))).unwrap();

    assert_eq!(config.renderer.extension(), "png");
    // The path is left as the user typed it.
    assert_eq!(config.output.unwrap(), "out.svg");
}

#[test]
fn an_extensionless_output_gets_the_formats_extension() {
    let config = resolve(cli("in.png", Some("out"), Some(Format::Svg))).unwrap();

    assert_eq!(config.output.unwrap(), "out.svg");
}

#[test]
fn textual_formats_default_to_stdout_and_others_require_a_path() {
    assert!(resolve(cli("in.png", None, Some(Format::Txt))).unwrap().output.is_none());
    assert!(resolve(cli("in.png", None, Some(Format::Ansi))).unwrap().output.is_none());
    assert!(resolve(cli("in.png", None, None)).is_err());
}

#[test]
fn the_ramp_is_validated_and_can_be_inverted() {
    let mut plain = cli("in.png", Some("out.txt"), None);
    plain.ramp = "ab".to_string();
    let config = resolve(plain).unwrap();

    assert_eq!(config.ramp.glyph_for(0).char(), 'a');

    let mut inverted = cli("in.png", Some("out.txt"), None);
    inverted.ramp = "ab".to_string();
    inverted.invert = true;
    let inverted = resolve(inverted).unwrap();

    assert_eq!(inverted.ramp.glyph_for(0).char(), 'b');

    let mut accented = cli("in.png", Some("out.txt"), None);
    accented.ramp = "é".to_string();
    assert!(resolve(accented).is_err());

    let mut empty = cli("in.png", Some("out.txt"), None);
    empty.ramp = "".to_string();
    assert!(resolve(empty).is_err());
}

#[test]
fn scale_must_be_positive_and_colors_must_be_hex() {
    // `-s` is held to 1..=256 by the `sita` command's argument parser, before
    // the library sees it; what is left here is the background color.
    assert!(parse_color("nope").is_err());
    assert!(parse_color("#fff").is_ok());
}

#[test]
fn the_errors_name_what_went_wrong() {
    let mut accented = cli("in.png", Some("out.txt"), None);
    accented.ramp = "aé".to_string();
    assert_eq!(resolve(accented).err(), Some(Error::UnrenderableRampChar('é')));

    let mut empty = cli("in.png", Some("out.txt"), None);
    empty.ramp = String::new();
    assert_eq!(resolve(empty).err(), Some(Error::EmptyRamp));

    assert_eq!(resolve(cli("in.png", None, None)).err(), Some(Error::OutputRequired("png".to_string())));
    assert_eq!(
        resolve(cli("in.png", None, Some(Format::Svg))).err(),
        Some(Error::OutputRequired("svg".to_string()))
    );
}

#[test]
fn the_extension_is_read_in_any_case_and_text_counts_as_txt() {
    let upper = resolve(cli("in.png", Some("OUT.SVG"), None)).unwrap();
    assert_eq!(upper.renderer.extension(), "svg");
    assert_eq!(upper.output.unwrap(), "OUT.SVG");

    let text = resolve(cli("in.png", Some("notes.text"), None)).unwrap();
    assert_eq!(text.renderer.extension(), "txt");
    assert!(text.renderer.is_textual());

    let unknown = resolve(cli("in.png", Some("out.bmp"), None)).unwrap();
    assert_eq!(unknown.renderer.extension(), "png");
    assert_eq!(unknown.output.unwrap(), "out.bmp");
}

#[test]
fn an_extensionless_output_defaults_to_png() {
    let config = resolve(cli("in.png", Some("dir/out"), None)).unwrap();

    assert_eq!(config.renderer.extension(), "png");
    assert_eq!(config.output.unwrap(), "dir/out.png");
}

#[test]
fn the_rest_of_the_command_line_is_carried_over() {
    let mut given = cli("photo.png", Some("art.ansi"), None);
    given.scale = 3;
    given.verbose = true;
    let config = resolve(given).unwrap();

    assert_eq!(config.input, "photo.png");
    assert_eq!(config.scale, 3);
    assert!(config.verbose);
    assert_eq!(config.renderer.extension(), "ansi");
    assert!(config.renderer.is_textual());
}

#[test]
fn from_extension_names_each_format() {
    assert_eq!(Format::from_extension("png"), Some(Format::Png));
    assert_eq!(Format::from_extension("Svg"), Some(Format::Svg));
    assert_eq!(Format::from_extension("TXT"), Some(Format::Txt));
    assert_eq!(Format::from_extension("text"), Some(Format::Txt));
    assert_eq!(Format::from_extension("ansi"), Some(Format::Ansi));
    assert_eq!(Format::from_extension("jpg"), None);
    assert_eq!(Format::from_extension(""), None);
}

#[test]
fn a_bad_background_says_what_was_given() {
    assert_eq!(parse_color("nope").err().unwrap(), "`nope` is not a #rgb or #rrggbb color");
    assert_eq!(parse_color("#112233"), Ok(Color::new(0x11, 0x22, 0x33)));
}
