use image::ImageEncoder;
use sita::ascii::{AsciiArt, Cell, Color, ColorMode};
use sita::error::Error;
use sita::font::{Glyph, Ramp, GLYPH_HEIGHT, GLYPH_WIDTH};
use sita::source::Source;

#[test]
fn colors_are_written_and_read_as_hex() {
    let c = Color::new(0x12, 0xab, 0x0f);

    assert_eq!(c.to_hex(), "#12ab0f");
    assert_eq!(Color::from_hex(&c.to_hex()), Some(c));
    assert_eq!(Color::from_hex("12AB0F"), Some(c));
    assert_eq!(Color::gray(7).channels(), [7, 7, 7]);
}

#[test]
fn the_short_form_doubles_each_digit() {
    assert_eq!(Color::from_hex("#fff"), Some(Color::new(255, 255, 255)));
    assert_eq!(Color::from_hex("#abc"), Color::from_hex("#aabbcc"));
    assert_eq!(Color::from_hex("1a2"), Some(Color::new(0x11, 0xaa, 0x22)));
}

#[test]
fn hex_colors_reject_other_lengths_and_non_digits() {
    assert_eq!(Color::from_hex(""), None);
    assert_eq!(Color::from_hex("#"), None);
    assert_eq!(Color::from_hex("#ffff"), None);
    assert_eq!(Color::from_hex("#gggggg"), None);
    assert_eq!(Color::from_hex("##fff"), None);
    assert_eq!(Color::from_hex("#-f0000"), None);
    assert_eq!(Color::from_hex("éaaaa"), None);
}

#[test]
fn hex_colors_take_digits_only() {
    assert_eq!(Color::from_hex("#+f0000"), None);
    assert_eq!(Color::from_hex("#+f+f+f"), None);
    assert_eq!(Color::from_hex("#+00"), None);
    assert_eq!(Color::from_hex(" 1a2"), None);
}

#[test]
fn cells_are_found_row_by_row() {
    let glyph = Glyph::from_char('x').unwrap();
    let cells: Vec<Cell> = (0..6u8)
        .map(|i| Cell {
            glyph,
            color: Color::gray(i),
            lightness: i,
        })
        .collect();
    let art = AsciiArt::new(3, 2, cells);

    assert_eq!(art.columns(), 3);
    assert_eq!(art.rows(), 2);
    assert_eq!(art.width_in_glyph_px(), 3 * GLYPH_WIDTH);
    assert_eq!(art.height_in_glyph_px(), 2 * GLYPH_HEIGHT);
    assert_eq!(art.cell(2, 1).lightness, 5);
    assert_eq!(art.cell(0, 1).lightness, 3);

    let rows = art.rows_iter();
    assert_eq!(rows.len(), 2);
    assert_eq!(rows[1].iter().map(|c| c.lightness).collect::<Vec<_>>(), vec![3, 4, 5]);
}

#[test]
fn the_color_of_a_cell_depends_on_the_mode() {
    let cell = Cell {
        glyph: Glyph::from_char('#').unwrap(),
        color: Color::new(10, 20, 30),
        lightness: 20,
    };

    assert_eq!(cell.color_in(ColorMode::Color), Color::new(10, 20, 30));
    assert_eq!(cell.color_in(ColorMode::Monochrome), Color::gray(20));
}

#[test]
fn the_font_covers_printable_ascii_only() {
    assert!(Glyph::from_char(' ').is_some());
    assert!(Glyph::from_char('~').is_some());
    assert!(Glyph::from_char('\u{7f}').is_none());
    assert!(Glyph::from_char('\n').is_none());
    assert!(Glyph::from_char('é').is_none());
    assert_eq!(Glyph::from_char('A').unwrap().char(), 'A');
}

#[test]
fn the_at_sign_has_its_bitmap() {
    let at = Glyph::from_char('@').unwrap();
    let rows: Vec<u8> = (0..8).map(|y| at.row(y)).collect();

    assert_eq!(rows, vec![0x3E, 0x63, 0x7B, 0x7B, 0x7B, 0x03, 0x1E, 0x00]);
    assert!(at.is_set(1, 0));
    assert!(!at.is_set(0, 0));
    assert!(!at.is_set(6, 0));
    assert_eq!(at.row_runs(1), vec![(0, 2), (5, 2)]);
    assert_eq!(at.row_runs(7), vec![]);
    assert_eq!(Glyph::from_char('_').unwrap().row_runs(7), vec![(0, 8)]);
}

#[test]
fn ramps_run_dark_to_light_and_invert() {
    let ramp = Ramp::new(Ramp::DEFAULT).unwrap();

    assert_eq!(ramp.glyph_for(0).char(), ' ');
    assert_eq!(ramp.glyph_for(255).char(), '@');
    assert_eq!(ramp.glyph_for(128).char(), '+');

    let inverted = ramp.inverted();
    assert_eq!(inverted.glyph_for(0).char(), '@');
    assert_eq!(inverted.glyph_for(255).char(), ' ');

    let twice = inverted.inverted();
    for l in 0..=255u8 {
        assert_eq!(twice.glyph_for(l), ramp.glyph_for(l));
    }
}

#[test]
fn lighter_never_picks_a_darker_glyph() {
    let ramp = Ramp::new("0123456789").unwrap();
    let mut last = '0';

    for l in 0..=255u8 {
        let c = ramp.glyph_for(l).char();
        assert!(c >= last);
        last = c;
    }
}

#[test]
fn ramps_reject_what_the_font_cannot_draw() {
    assert_eq!(Ramp::new("ab\tc").err(), Some(Some('\t')));
    assert_eq!(Ramp::new("").err(), Some(None));
    assert_eq!(Ramp::new("x").unwrap().glyph_for(200).char(), 'x');
}

#[test]
fn a_png_is_decoded_into_its_pixels() {
    let mut bytes = Vec::new();
    image::codecs::png::PngEncoder::new(&mut bytes)
        .write_image(&[1, 2, 3, 4, 5, 6], 2, 1, image::ExtendedColorType::Rgb8)
        .unwrap();

    let source = Source::load_png("pic.png", &bytes).unwrap();

    assert_eq!((source.width(), source.height()), (2, 1));
    assert_eq!(source.pixels(), &vec![1, 2, 3, 4, 5, 6]);
}

#[test]
fn what_is_not_a_png_is_refused() {
    assert_eq!(Source::load_png("notes.txt", b"hello").err(), Some(Error::NotAPng("notes.txt".to_string())));
}

#[test]
fn an_empty_decode_is_refused() {
    assert_eq!(
        Source::from_decoded("pic.png", Ok((0, 3, vec![]))).err(),
        Some(Error::EmptyImage("pic.png".to_string()))
    );
    assert_eq!(
        Source::from_decoded("pic.png", Err(sita::source::PngFailure::Other("too big".to_string()))).err(),
        Some(Error::Decode {
            path: "pic.png".to_string(),
            message: "too big".to_string()
        })
    );
}

#[test]
fn io_errors_name_the_path() {
    assert_eq!(
        Error::io("out.png".to_string(), "denied".to_string()),
        Error::Io {
            path: "out.png".to_string(),
            message: "denied".to_string()
        }
    );
}

#[test]
fn errors_say_what_went_wrong() {
    assert_eq!(
        Error::io("out.png".to_string(), "Permission denied".to_string()).message(),
        "out.png: Permission denied"
    );
    assert_eq!(Error::NotAPng("a.jpg".to_string()).message(), "a.jpg: only PNG input is supported for now");
    assert_eq!(
        Error::Decode {
            path: "a.png".to_string(),
            message: "bad".to_string()
        }
        .message(),
        "a.png: could not decode PNG: bad"
    );
    assert_eq!(Error::EmptyImage("a.png".to_string()).message(), "a.png: image has no pixels");
    assert_eq!(
        Error::UnrenderableRampChar('é').message(),
        "the ramp character 'é' is not in the 8x8 font (printable ASCII only)"
    );
    assert_eq!(
        Error::UnrenderableRampChar('\t').message(),
        "the ramp character '\\t' is not in the 8x8 font (printable ASCII only)"
    );
    assert_eq!(Error::EmptyRamp.message(), "the ramp must contain at least one character");
    assert_eq!(
        Error::OutputRequired("svg".to_string()).message(),
        "the svg format needs an output path; pass one, or use --format txt to print to stdout"
    );
}

#[test]
fn transparent_pixels_read_as_black() {
    let mut bytes = Vec::new();
    image::codecs::png::PngEncoder::new(&mut bytes)
        .write_image(
            &[255, 255, 255, 0, 10, 20, 30, 255, 200, 100, 50, 128],
            3,
            1,
            image::ExtendedColorType::Rgba8,
        )
        .unwrap();

    let source = Source::load_png("clear.png", &bytes).unwrap();

    assert_eq!(source.pixels(), &vec![0, 0, 0, 10, 20, 30, 100, 50, 25]);
}

#[test]
fn decoded_pixels_are_composited_over_black() {
    let source = Source::from_decoded("pic.png", Ok((2, 1, vec![9, 8, 7, 255, 90, 60, 30, 51]))).unwrap();

    // 90 * 51 / 255 = 18, 60 * 51 / 255 = 12, 30 * 51 / 255 = 6.
    assert_eq!(source.pixels(), &vec![9, 8, 7, 18, 12, 6]);
    assert_eq!(source.width(), 2);
}

#[test]
fn hex_text_reads_back_without_its_hash() {
    for c in [Color::new(0x12, 0xab, 0x0f), Color::new(0, 0, 0), Color::new(255, 255, 255), Color::new(0xa0, 0x0b, 0xc9)] {
        let text = c.to_hex();
        assert_eq!(Color::from_hex(&text), Some(c));
        assert_eq!(Color::from_hex(&text[1..]), Some(c));
    }
}
