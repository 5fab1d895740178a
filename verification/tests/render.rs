use sita::ascii::{AsciiArt, Cell, Color, ColorMode};
use sita::font::Glyph;
use sita::render::{AnsiRenderer, Options, Output, PngRenderer, Renderer, SvgRenderer, TextRenderer};

/// A 2x2 grid alternating a white `@` and a black space, which exercises
/// both a drawn and a blank glyph and two distinct colors.
fn checkerboard() -> AsciiArt {
    let lit = Cell {
        glyph: Glyph::from_char('@').unwrap(),
        color: Color::gray(255),
        lightness: 255,
    };

    let dark = Cell {
        glyph: Glyph::from_char(' ').unwrap(),
        color: Color::new(0, 0, 0),
        lightness: 0,
    };

    AsciiArt::new(2, 2, vec![lit, dark, dark, lit])
}

fn text_of(output: Output) -> String {
    match output {
        Output::Text(text) => text,
        Output::Bytes(_) => panic!("expected text"),
    }
}

#[test]
fn it_writes_one_line_per_row() {
    let art = checkerboard();

    let out = text_of(TextRenderer.render(&art).unwrap());

    assert_eq!(out, "@ \n @\n");
}

fn render_ansi(mode: ColorMode) -> String {
    let art = checkerboard();

    text_of(
        AnsiRenderer::new(Options {
            color_mode: mode,
            ..Options::default()
        })
        .render(&art)
        .unwrap(),
    )
}

#[test]
fn it_colors_each_run_once_and_resets_per_line() {
    let out = render_ansi(ColorMode::Color);

    assert_eq!(
        out,
        format!(
            "\x1b[38;2;255;255;255m@\x1b[38;2;0;0;0m \x1b[0m\n\
             \x1b[38;2;0;0;0m \x1b[38;2;255;255;255m@\x1b[0m\n"
        )
    );
}

#[test]
fn monochrome_uses_the_lightness_as_a_gray() {
    assert!(render_ansi(ColorMode::Monochrome).contains("\x1b[38;2;255;255;255m@"));
}

#[test]
fn a_run_of_one_color_gets_one_escape() {
    let cell = Cell {
        glyph: Glyph::from_char('#').unwrap(),
        color: Color::new(1, 2, 3),
        lightness: 2,
    };
    let art = AsciiArt::new(3, 1, vec![cell, cell, cell]);

    let out = text_of(
        AnsiRenderer::new(Options {
            color_mode: ColorMode::Color,
            ..Options::default()
        })
        .render(&art)
        .unwrap(),
    );

    assert_eq!(out, "\x1b[38;2;1;2;3m###\x1b[0m\n");
}

fn rasterize(scale: u32, background: Color) -> (u32, Vec<u8>) {
    let art = checkerboard();
    let renderer = PngRenderer::new(Options {
        scale,
        background,
        ..Options::default()
    });

    let width = art.width_in_glyph_px() * scale;
    let height = art.height_in_glyph_px() * scale;

    (width, renderer.rasterize(&art, width, height))
}

fn pixel_at(buffer: &[u8], width: u32, x: u32, y: u32) -> [u8; 3] {
    let start = (y * width * 3 + x * 3) as usize;

    buffer[start..start + 3].try_into().unwrap()
}

#[test]
fn unset_pixels_keep_the_background() {
    let (width, buffer) = rasterize(1, Color::new(1, 2, 3));

    // '@' row 0 is 0x3E, so its column 0 is unset, and the cell at (1, 0)
    // is a space throughout.
    assert_eq!(pixel_at(&buffer, width, 0, 0), [1, 2, 3]);
    assert_eq!(pixel_at(&buffer, width, 11, 4), [1, 2, 3]);
}

#[test]
fn set_pixels_take_the_cell_color() {
    let (width, buffer) = rasterize(1, Color::new(0, 0, 0));

    // '@' row 0 is 0x3E: columns 1..=5 are set, 0 and 6..=7 are not.
    assert_eq!(pixel_at(&buffer, width, 1, 0), [255, 255, 255]);
    assert_eq!(pixel_at(&buffer, width, 5, 0), [255, 255, 255]);
    assert_eq!(pixel_at(&buffer, width, 6, 0), [0, 0, 0]);
}

#[test]
fn scale_grows_every_glyph_pixel_into_a_block() {
    let (width, buffer) = rasterize(3, Color::new(0, 0, 0));

    assert_eq!(width, 2 * 8 * 3);

    // '@' row 1 is 0x63: glyph pixel (1, 1) is set, (2, 1) is not. At
    // scale 3 they cover x 3..6 and 6..9, both on rows y 3..6.
    for y in 3..6 {
        for x in 3..6 {
            assert_eq!(pixel_at(&buffer, width, x, y), [255, 255, 255]);
        }

        for x in 6..9 {
            assert_eq!(pixel_at(&buffer, width, x, y), [0, 0, 0]);
        }
    }
}

#[test]
fn every_output_pixel_is_its_glyph_pixel_scaled_up() {
    let (small_width, small) = rasterize(1, Color::new(9, 8, 7));
    let (large_width, large) = rasterize(2, Color::new(9, 8, 7));

    assert_eq!(large.len(), small.len() * 4);
    for y in 0..32 {
        for x in 0..32 {
            assert_eq!(pixel_at(&large, large_width, x, y), pixel_at(&small, small_width, x / 2, y / 2));
        }
    }
}

#[test]
fn it_writes_a_decodable_png() {
    let art = checkerboard();

    let out = match PngRenderer::new(Options::default()).render(&art).unwrap() {
        Output::Bytes(bytes) => bytes,
        Output::Text(_) => panic!("expected bytes"),
    };

    let decoded = image::load_from_memory_with_format(&out, image::ImageFormat::Png).unwrap();

    assert_eq!((decoded.width(), decoded.height()), (16, 16));
}

#[test]
fn the_png_holds_the_raster() {
    let art = checkerboard();
    let renderer = PngRenderer::new(Options {
        background: Color::new(1, 2, 3),
        ..Options::default()
    });

    let out = match renderer.render(&art).unwrap() {
        Output::Bytes(bytes) => bytes,
        Output::Text(_) => panic!("expected bytes"),
    };
    let decoded = image::load_from_memory_with_format(&out, image::ImageFormat::Png).unwrap().to_rgb8();

    assert_eq!(decoded.into_raw(), renderer.rasterize(&art, 16, 16));
}

fn render_svg(options: Options) -> String {
    text_of(SvgRenderer::new(options).render(&checkerboard()).unwrap())
}

#[test]
fn the_viewbox_is_in_glyph_pixels_and_the_size_follows_the_scale() {
    let svg = render_svg(Options {
        scale: 4,
        ..Options::default()
    });

    assert!(svg.contains("viewBox=\"0 0 16 16\""), "{svg}");
    assert!(svg.contains("width=\"64\" height=\"64\""), "{svg}");
}

#[test]
fn each_distinct_glyph_is_defined_once_and_stamped_per_cell() {
    let svg = render_svg(Options::default());
    let at_sign = format!("g{}", '@' as u32);

    assert_eq!(svg.matches(&format!("<g id=\"{at_sign}\">")).count(), 1);
    assert_eq!(svg.matches(&format!("href=\"#{at_sign}\"")).count(), 2);
}

#[test]
fn blank_glyphs_are_left_out() {
    let svg = render_svg(Options::default());

    assert!(!svg.contains(&format!("g{}", ' ' as u32)), "{svg}");
}

#[test]
fn set_pixels_become_runs_rather_than_one_rect_each() {
    let svg = render_svg(Options::default());

    // '@' row 0 is 0x3E: columns 1..=5, one rect rather than five.
    assert!(svg.contains("<rect x=\"1\" y=\"0\" width=\"5\" height=\"1\"/>"), "{svg}");

    // Row 1 is 0x63: two runs, so a gap is never bridged.
    assert!(
        svg.contains("<rect x=\"0\" y=\"1\" width=\"2\" height=\"1\"/>")
            && svg.contains("<rect x=\"5\" y=\"1\" width=\"2\" height=\"1\"/>"),
        "{svg}"
    );
}

#[test]
fn cells_carry_their_own_fill() {
    let colored = render_svg(Options {
        color_mode: ColorMode::Color,
        background: Color::new(0x11, 0x22, 0x33),
        ..Options::default()
    });

    assert!(colored.contains("fill=\"#ffffff\""), "{colored}");
    assert!(
        colored.contains("<rect width=\"100%\" height=\"100%\" fill=\"#112233\"/>"),
        "{colored}"
    );
}

#[test]
fn the_whole_svg_document() {
    let svg = render_svg(Options::default());

    let expected = [
        "<svg xmlns=\"http://www.w3.org/2000/svg\" width=\"16\" height=\"16\" viewBox=\"0 0 16 16\" shape-rendering=\"crispEdges\">\n",
        "  <title>sita</title>\n",
        "  <rect width=\"100%\" height=\"100%\" fill=\"#000000\"/>\n",
        "  <defs>\n",
        "    <g id=\"g64\">",
        "<rect x=\"1\" y=\"0\" width=\"5\" height=\"1\"/>",
        "<rect x=\"0\" y=\"1\" width=\"2\" height=\"1\"/><rect x=\"5\" y=\"1\" width=\"2\" height=\"1\"/>",
        "<rect x=\"0\" y=\"2\" width=\"2\" height=\"1\"/><rect x=\"3\" y=\"2\" width=\"4\" height=\"1\"/>",
        "<rect x=\"0\" y=\"3\" width=\"2\" height=\"1\"/><rect x=\"3\" y=\"3\" width=\"4\" height=\"1\"/>",
        "<rect x=\"0\" y=\"4\" width=\"2\" height=\"1\"/><rect x=\"3\" y=\"4\" width=\"4\" height=\"1\"/>",
        "<rect x=\"0\" y=\"5\" width=\"2\" height=\"1\"/>",
        "<rect x=\"1\" y=\"6\" width=\"4\" height=\"1\"/>",
        "</g>\n",
        "  </defs>\n",
        "  <use href=\"#g64\" x=\"0\" y=\"0\" fill=\"#ffffff\"/>\n",
        "  <use href=\"#g64\" x=\"8\" y=\"8\" fill=\"#ffffff\"/>\n",
        "</svg>\n",
    ]
    .concat();

    assert_eq!(svg, expected);
}

#[test]
fn the_renderers_name_their_formats() {
    assert_eq!(TextRenderer.extension(), "txt");
    assert!(TextRenderer.is_textual());
    assert_eq!(AnsiRenderer::new(Options::default()).extension(), "ansi");
    assert!(AnsiRenderer::new(Options::default()).is_textual());
    assert_eq!(SvgRenderer::new(Options::default()).extension(), "svg");
    assert!(!SvgRenderer::new(Options::default()).is_textual());
    assert_eq!(PngRenderer::new(Options::default()).extension(), "png");
    assert!(!PngRenderer::new(Options::default()).is_textual());
}

/// The characters of terminal text that show: everything but the escapes,
/// each from an ESC to the next `m`.
fn strip_escapes(text: &str) -> String {
    let mut shown = String::new();
    let mut in_escape = false;
    for c in text.chars() {
        if in_escape {
            in_escape = c != 'm';
        } else if c == '\x1b' {
            in_escape = true;
        } else {
            shown.push(c);
        }
    }
    shown
}

#[test]
fn colored_text_shows_the_plain_text() {
    let cells: Vec<Cell> = "mm@ #m"
        .chars()
        .enumerate()
        .map(|(i, c)| Cell {
            glyph: Glyph::from_char(c).unwrap(),
            color: Color::gray(i as u8 * 40),
            lightness: (i as u8) * 40,
        })
        .collect();
    let art = AsciiArt::new(3, 2, cells);
    let plain = text_of(TextRenderer.render(&art).unwrap());

    for mode in [ColorMode::Color, ColorMode::Monochrome] {
        let colored = text_of(
            AnsiRenderer::new(Options {
                color_mode: mode,
                ..Options::default()
            })
            .render(&art)
            .unwrap(),
        );
        assert_eq!(strip_escapes(&colored), plain);
    }
    assert_eq!(plain, "mm@\n #m\n");
}

#[test]
fn an_inverted_ramp_mirrors_the_lookup() {
    let ramp = sita::font::Ramp::new("abcdef").unwrap();
    let inverted = ramp.inverted();

    for l in 0..=255u8 {
        let forward = ramp.glyph_for(l).char() as u8 - b'a';
        let backward = inverted.glyph_for(l).char() as u8 - b'a';
        assert_eq!(forward + backward, 5);
    }
}

#[test]
fn color_never_reaches_the_text_output() {
    let at = Glyph::from_char('@').unwrap();
    let dot = Glyph::from_char('.').unwrap();
    let red = Cell { glyph: at, color: Color::new(255, 0, 0), lightness: 128 };
    let blue = Cell { glyph: dot, color: Color::new(0, 0, 255), lightness: 30 };
    let gray = Cell { glyph: at, color: Color::gray(90), lightness: 90 };
    let white = Cell { glyph: dot, color: Color::gray(255), lightness: 255 };

    let first = AsciiArt::new(2, 1, vec![red, blue]);
    let second = AsciiArt::new(2, 1, vec![gray, white]);

    let one = text_of(TextRenderer.render(&first).unwrap());
    let two = text_of(TextRenderer.render(&second).unwrap());
    assert_eq!(one, two);
    assert_eq!(one, "@.\n");
}
