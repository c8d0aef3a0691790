//! True-colour rendering: each sample keeps the colour of its pixel, either
//! as a coloured block for a terminal or as a coloured element of an HTML
//! page.

use crate::error::RenderError;
use crate::raster::dimensions;
use crate::raster::grid_of;
use crate::raster::has_cells;
use crate::raster::height_of;
use crate::raster::image_dimensions;
use crate::raster::image_has_integer_samples;
use crate::raster::pixel_at;
use crate::raster::pixel_of;
use crate::raster::refusal_of;
use crate::raster::width_of;
use crate::sampling::lemma_origin_iff_counted;
use crate::sampling::origin_at;
use crate::sampling::sample_count;
use colored::ColoredString;
use colored::Colorize;
use image::DynamicImage;
use vstd::prelude::*;
use vstd::string::StringExecFns;

verus! {

/// `colored::ColoredString`, a text with its colours and style. The proofs
/// see nothing inside it; what it holds has the names below.
#[verifier::external_type_specification]
#[verifier::external_body]
pub struct ExColoredString(colored::ColoredString);

/// The plain text that a coloured string shows.
pub uninterp spec fn colored_text(cell: colored::ColoredString) -> Seq<char>;

/// The true colour in which a coloured string shows its text, if it has one.
pub uninterp spec fn colored_rgb(cell: colored::ColoredString) -> Option<(u8, u8, u8)>;

/// Whether a coloured string has a background colour.
pub uninterp spec fn colored_has_background(cell: colored::ColoredString) -> bool;

/// Whether a coloured string has any style, such as bold or underline.
pub uninterp spec fn colored_is_styled(cell: colored::ColoredString) -> bool;

/// `Colorize::truecolor` on a string slice: a coloured string that holds the
/// slice's text and has the given true colour as its foreground, with no
/// background colour and no style.
#[verifier::external_body]
pub(crate) fn truecolor(text: &str, r: u8, g: u8, b: u8) -> (cell: ColoredString)
    ensures
        colored_text(cell) == text@,
        colored_rgb(cell) == Some((r, g, b)),
        !colored_has_background(cell),
        !colored_is_styled(cell),
{
    text.truecolor(r, g, b)
}

/// The glyphs of a coloured cell: three solid blocks.
pub open spec fn solid_blocks() -> Seq<char> {
    seq!['█', '█', '█']
}

/// Whether a coloured string is the cell of a colour: three solid blocks in
/// that colour, on no background and in no style.
pub open spec fn is_cell_of(cell: ColoredString, rgb: (u8, u8, u8)) -> bool {
    &&& colored_text(cell) == solid_blocks()
    &&& colored_rgb(cell) == Some(rgb)
    &&& !colored_has_background(cell)
    &&& !colored_is_styled(cell)
}

/// Whether rows of coloured strings are the colour frame of an image: one
/// row for each sampled row, one cell for each sampled pixel, each cell three
/// solid blocks in the colour of its pixel.
pub open spec fn is_color_frame(frame: Seq<Vec<ColoredString>>, img: DynamicImage, c: int) -> bool {
    &&& frame.len() == sample_count(height_of(img), c, 1)
    &&& forall|row: int|
        0 <= row < frame.len() ==> (#[trigger] frame[row])@.len() == sample_count(
            width_of(img),
            c,
            1,
        )
    &&& forall|row: int, col: int|
        0 <= row < frame.len() && 0 <= col < frame[row]@.len() ==> is_cell_of(
            #[trigger] frame[row]@[col],
            pixel_of(img, origin_at(col, c, 1), origin_at(row, c, 1)),
        )
}

/// The coloured cell of a pixel.
pub fn color_cell(r: u8, g: u8, b: u8) -> (cell: ColoredString)
    ensures
        is_cell_of(cell, (r, g, b)),
{
    proof {
        reveal_strlit("███");
    }
    let cell = truecolor("███", r, g, b);
    assert(colored_text(cell) =~= solid_blocks());
    cell
}

/// The coloured cells of one row of the frame.
fn color_row(img: &DynamicImage, row: u32, cols: u32, c: u32) -> (line: Vec<ColoredString>)
    requires
        image_has_integer_samples(*img),
        c >= 1,
        cols == sample_count(width_of(*img), c as int, 1),
        row < sample_count(height_of(*img), c as int, 1),
    ensures
        line@.len() == sample_count(width_of(*img), c as int, 1),
        forall|col: int|
            0 <= col < line@.len() ==> is_cell_of(
                #[trigger] line@[col],
                pixel_of(*img, origin_at(col, c as int, 1), origin_at(row as int, c as int, 1)),
            ),
{
    proof {
        lemma_origin_iff_counted(row as int, height_of(*img), c as int, 1);
        assert(origin_at(row as int, c as int, 1) == row * c) by (nonlinear_arith);
    }
    let y: u32 = ((row as u64) * (c as u64)) as u32;
    let mut line: Vec<ColoredString> = Vec::new();
    let mut col: u32 = 0;
    while col < cols
        invariant
            image_has_integer_samples(*img),
            c >= 1,
            col <= cols,
            cols == sample_count(width_of(*img), c as int, 1),
            y == origin_at(row as int, c as int, 1),
            y < height_of(*img),
            line@.len() == col,
            forall|i: int|
                0 <= i < col ==> is_cell_of(
                    #[trigger] line@[i],
                    pixel_of(*img, origin_at(i, c as int, 1), origin_at(row as int, c as int, 1)),
                ),
        decreases cols - col,
    {
        proof {
            lemma_origin_iff_counted(col as int, width_of(*img), c as int, 1);
            assert(origin_at(col as int, c as int, 1) == col * c) by (nonlinear_arith);
        }
        let x: u32 = ((col as u64) * (c as u64)) as u32;
        let rgb = pixel_at(img, x, y);
        line.push(color_cell(rgb.0, rgb.1, rgb.2));
        col = col + 1;
    }
    line
}

/// Renders an image as rows of coloured cells. Every `compress`-th pixel of
/// every `compress`-th row becomes three solid blocks in the pixel's own
/// colour; no cell is trimmed.
///
/// The request is refused where the image holds floating-point samples,
/// `compress` is zero or the image has no pixel.
pub fn img_to_cblock(img: &DynamicImage, compress: u32) -> (out: Result<
    Vec<Vec<ColoredString>>,
    RenderError,
>)
    ensures
        out is Ok <==> has_cells(*img, compress as int, 1, 1),
        out matches Ok(frame) ==> is_color_frame(frame@, *img, compress as int),
        out matches Err(reason) ==> reason == refusal_of(*img),
{
    let (cols, rows) = match grid_of(img, compress, compress, 1, 1) {
        Ok(grid) => grid,
        Err(reason) => {
            return Err(reason);
        },
    };
    let mut frame: Vec<Vec<ColoredString>> = Vec::new();
    let mut row: u32 = 0;
    while row < rows
        invariant
            image_has_integer_samples(*img),
            compress >= 1,
            row <= rows,
            cols == sample_count(width_of(*img), compress as int, 1),
            rows == sample_count(height_of(*img), compress as int, 1),
            frame@.len() == row,
            forall|done: int|
                0 <= done < row ==> (#[trigger] frame@[done])@.len() == sample_count(
                    width_of(*img),
                    compress as int,
                    1,
                ),
            forall|done: int, col: int|
                0 <= done < row && 0 <= col < frame@[done]@.len() ==> is_cell_of(
                    #[trigger] frame@[done]@[col],
                    pixel_of(
                        *img,
                        origin_at(col, compress as int, 1),
                        origin_at(done, compress as int, 1),
                    ),
                ),
        decreases rows - row,
    {
        let line = color_row(img, row, cols, compress);
        frame.push(line);
        row = row + 1;
    }
    Ok(frame)
}

/// The sixteen hexadecimal digits, in lower case.
pub open spec fn hex_digits() -> Seq<char> {
    seq!['0', '1', '2', '3', '4', '5', '6', '7', '8', '9', 'a', 'b', 'c', 'd', 'e', 'f']
}

/// A byte as two hexadecimal digits.
pub open spec fn hex_pair(value: u8) -> Seq<char> {
    seq![hex_digits()[value as int / 16], hex_digits()[value as int % 16]]
}

/// The HTML element of one coloured glyph: a solid block inside a `font`
/// element whose colour is written as `#rrggbb`.
pub open spec fn font_element(rgb: (u8, u8, u8)) -> Seq<char> {
    "<font color='#"@ + hex_pair(rgb.0) + hex_pair(rgb.1) + hex_pair(rgb.2) + "'>█</font>"@
}

/// The HTML of a pixel: its element, twice.
pub open spec fn html_cell(rgb: (u8, u8, u8)) -> Seq<char> {
    font_element(rgb) + font_element(rgb)
}

/// The HTML of a row of pixels: the cell of each pixel, and a line
/// terminator.
pub open spec fn html_row(img: DynamicImage, y: int) -> Seq<char> {
    Seq::new(width_of(img) as nat, |x: int| html_cell(pixel_of(img, x, y))).flatten() + seq!['\n']
}

/// The HTML page of an image at full resolution: every row of pixels inside
/// one preformatted block.
pub open spec fn html_color_page(img: DynamicImage) -> Seq<char> {
    "<pre>\n"@ + Seq::new(height_of(img) as nat, |y: int| html_row(img, y)).flatten()
        + "</pre>"@
}

/// The hexadecimal digit of a number below sixteen.
pub fn hex_digit(value: u8) -> (digit: char)
    requires
        value < 16,
    ensures
        digit == hex_digits()[value as int],
{
    if value == 0 {
        '0'
    } else if value == 1 {
        '1'
    } else if value == 2 {
        '2'
    } else if value == 3 {
        '3'
    } else if value == 4 {
        '4'
    } else if value == 5 {
        '5'
    } else if value == 6 {
        '6'
    } else if value == 7 {
        '7'
    } else if value == 8 {
        '8'
    } else if value == 9 {
        '9'
    } else if value == 10 {
        'a'
    } else if value == 11 {
        'b'
    } else if value == 12 {
        'c'
    } else if value == 13 {
        'd'
    } else if value == 14 {
        'e'
    } else {
        'f'
    }
}

/// Appends a byte as two hexadecimal digits.
fn push_hex_pair(out: &mut String, value: u8)
    ensures
        final(out)@ == old(out)@ + hex_pair(value),
{
    out.push(hex_digit(value / 16));
    out.push(hex_digit(value % 16));
    assert(out@ =~= old(out)@ + hex_pair(value));
}

/// Appends the HTML element of one coloured glyph.
fn push_font_element(out: &mut String, rgb: (u8, u8, u8))
    ensures
        final(out)@ == old(out)@ + font_element(rgb),
{
    out.append("<font color='#");
    push_hex_pair(out, rgb.0);
    push_hex_pair(out, rgb.1);
    push_hex_pair(out, rgb.2);
    out.append("'>█</font>");
    assert(out@ =~= old(out)@ + font_element(rgb));
}

/// Renders an image as an HTML page in full colour and at full resolution:
/// every pixel of every row becomes two solid blocks in the pixel's own
/// colour, every row ends in a line terminator, and the rows stand inside one
/// preformatted block.
///
/// The request is refused where the image holds floating-point samples or
/// has no pixel.
pub fn img_to_chtml(img: &DynamicImage) -> (out: Result<String, RenderError>)
    ensures
        out is Ok <==> has_cells(*img, 1, 1, 1),
        out matches Ok(page) ==> page@ == html_color_page(*img),
        out matches Err(reason) ==> reason == refusal_of(*img),
{
    if let Err(reason) = grid_of(img, 1, 1, 1, 1) {
        return Err(reason);
    }
    let (width, height) = dimensions(img);
    let ghost rows = Seq::new(height as nat, |y: int| html_row(*img, y));
    let mut page = String::from_str("<pre>\n");
    let mut y: u32 = 0;
    assert(rows.take(0) =~= Seq::<Seq<char>>::empty());
    while y < height
        invariant
            image_has_integer_samples(*img),
            y <= height,
            (width, height) == image_dimensions(*img),
            rows == Seq::new(height as nat, |y: int| html_row(*img, y)),
            page@ == "<pre>\n"@ + rows.take(y as int).flatten(),
        decreases height - y,
    {
        let ghost cells = Seq::new(width as nat, |x: int| html_cell(pixel_of(*img, x, y as int)));
        let ghost before = page@;
        let mut x: u32 = 0;
        assert(cells.take(0) =~= Seq::<Seq<char>>::empty());
        while x < width
            invariant
                image_has_integer_samples(*img),
                x <= width,
                y < height,
                (width, height) == image_dimensions(*img),
                cells == Seq::new(width as nat, |x: int| html_cell(pixel_of(*img, x, y as int))),
                page@ == before + cells.take(x as int).flatten(),
            decreases width - x,
        {
            let rgb = pixel_at(img, x, y);
            push_font_element(&mut page, rgb);
            push_font_element(&mut page, rgb);
            proof {
                assert(cells.take(x + 1) =~= cells.take(x as int).push(cells[x as int]));
                cells.take(x as int).lemma_flatten_push(cells[x as int]);
                assert(page@ =~= before + cells.take(x + 1).flatten());
            }
            x = x + 1;
        }
        page.push('\n');
        proof {
            assert(cells.take(width as int) =~= cells);
            assert(rows[y as int] == cells.flatten() + seq!['\n']);
            assert(rows.take(y + 1) =~= rows.take(y as int).push(rows[y as int]));
            rows.take(y as int).lemma_flatten_push(rows[y as int]);
            assert(page@ =~= "<pre>\n"@ + rows.take(y + 1).flatten());
        }
        y = y + 1;
    }
    page.append("</pre>");
    assert(rows.take(height as int) =~= rows);
    Ok(page)
}

} // verus!
