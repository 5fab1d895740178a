use sita::ascii::{AsciiArt, Color, ColorMode};
use sita::extract::Extractor;
use sita::font::Ramp;
use sita::source::Source;

fn art_from(width: u32, height: u32, scale: u32, fill: [u8; 3]) -> AsciiArt {
    let mut pixels = Vec::new();

    for _ in 0..width * height {
        pixels.extend_from_slice(&fill);
    }

    let extractor = Extractor::new(scale, Ramp::new(Ramp::DEFAULT).unwrap());

    extractor.extract(&Source::from_pixels(width, height, pixels))
}

#[test]
fn a_partial_cell_still_gets_a_column() {
    let art = art_from(9, 8, 1, [255, 255, 255]);

    assert_eq!(art.columns(), 2);
    assert_eq!(art.rows(), 1);
}

#[test]
fn scale_shrinks_the_grid() {
    let art = art_from(32, 32, 2, [0, 0, 0]);

    assert_eq!((art.columns(), art.rows()), (2, 2));
}

#[test]
fn a_black_image_is_all_spaces_and_a_white_one_is_all_at_signs() {
    assert_eq!(art_from(8, 8, 1, [0, 0, 0]).cell(0, 0).glyph.char(), ' ');
    assert_eq!(art_from(8, 8, 1, [255, 255, 255]).cell(0, 0).glyph.char(), '@');
}

#[test]
fn monochrome_flattens_the_sampled_color() {
    let art = art_from(8, 8, 1, [255, 0, 0]);
    let cell = art.cell(0, 0);

    assert_eq!(cell.color_in(ColorMode::Color), Color::new(255, 0, 0));
    assert_eq!(cell.color_in(ColorMode::Monochrome), Color::gray(cell.lightness));
}

#[test]
fn one_color_in_gives_that_color_and_its_lightness_everywhere() {
    // 20 x 12 at scale 1: 3 x 2 cells, the last column and row cut short.
    let art = art_from(20, 12, 1, [200, 100, 40]);

    assert_eq!((art.columns(), art.rows()), (3, 2));

    for row in 0..2 {
        for column in 0..3 {
            let cell = art.cell(column, row);
            assert_eq!(cell.color, Color::new(200, 100, 40));
            // (max 200 + min 40) / 2
            assert_eq!(cell.lightness, 120);
            // 120 on the ten-glyph default ramp: (120 * 9 + 127) / 255 = 4.
            assert_eq!(cell.glyph.char(), '=');
        }
    }
}

#[test]
fn cells_average_only_their_own_pixels() {
    // Two cells side by side: the left one black, the right one white.
    let mut pixels = Vec::new();
    for _y in 0..8 {
        for x in 0..16 {
            let v = if x < 8 { 0 } else { 255 };
            pixels.extend_from_slice(&[v, v, v]);
        }
    }
    let extractor = Extractor::new(1, Ramp::new(Ramp::DEFAULT).unwrap());
    let art = extractor.extract(&Source::from_pixels(16, 8, pixels));

    assert_eq!(art.cell(0, 0).glyph.char(), ' ');
    assert_eq!(art.cell(1, 0).glyph.char(), '@');
    assert_eq!(art.cell(1, 0).color, Color::gray(255));
}

#[test]
fn a_partial_cell_averages_what_it_covers() {
    // 9 x 8: the second column covers one source column, of a single gray.
    let mut pixels = Vec::new();
    for _y in 0..8 {
        for x in 0..9 {
            let v = if x < 8 { 0 } else { 90 };
            pixels.extend_from_slice(&[v, v, v]);
        }
    }
    let art = Extractor::new(1, Ramp::new(Ramp::DEFAULT).unwrap()).extract(&Source::from_pixels(9, 8, pixels));

    assert_eq!(art.cell(1, 0).color, Color::gray(90));
    assert_eq!(art.cell(1, 0).lightness, 90);
}

#[test]
fn a_zero_scale_samples_as_one() {
    let art = art_from(16, 8, 0, [0, 0, 0]);

    assert_eq!((art.columns(), art.rows()), (2, 1));
}
