# sita

Simple Image To Ascii: redraws a PNG with the characters of an 8x8 bitmap
font, to a raster image, an SVG, plain text or colored terminal text.

`src/` is the library, written in Verus: its functions carry contracts and
are proved against them. Six small functions are believed rather than
proved: each makes one call into std or the `image` crate and states what
that call returns (`push_char`, `decode_png_rgba8`, `encode_png`,
`extension_of`, `with_extension`, `char_debug`).

| Module | What it holds |
| --- | --- |
| `font` | The 8x8 font, its glyphs and their runs of set pixels, and the lightness ramp. |
| `ascii` | Colors, cells and the `AsciiArt` grid that extraction and rendering meet on. |
| `source` | Decoding PNG bytes into RGB pixels, alpha composited over black. |
| `extract` | Sampling pixels into cells: average color, lightness, and the glyph it picks. |
| `render` | The `Renderer` trait and its backends: `png`, `svg`, `text`, `ansi`. |
| `cli` | Resolving the command line: format, output path, output scale. |
| `error` | What can go wrong, and what each error says. |
| `textfmt` | Decimal and hex numbers written into strings. |
| `px`, `input` | The first forms of the per-cell sum and of the command line. |

`app/` is the `sita` command around the library: argument parsing, reading
and writing files, timings. `tests/` runs the library on concrete values.
