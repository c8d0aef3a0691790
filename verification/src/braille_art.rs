//! Braille rendering of an image: one character for each block of two by
//! four sampled pixels.

use crate::braille::braille_char;
use crate::braille::braille_glyph;
use crate::braille::dot_mask;
use crate::braille::lemma_mask_bits;
use crate::braille::mask_of;
use crate::error::RenderError;
use crate::frame::frame_text;
use crate::frame::lemma_trim_blanks;
use crate::frame::push_line;
use crate::frame::trim_blanks;
use crate::intensity::is_dark;
use crate::intensity::luma;
use crate::intensity::DARK_BELOW;
use crate::raster::grid_of;
use crate::raster::has_cells;
use crate::raster::height_of;
use crate::raster::image_has_integer_samples;
use crate::raster::pixel_at;
use crate::raster::pixel_of;
use crate::raster::refusal_of;
use crate::raster::width_of;
use crate::sampling::lemma_origin_iff_counted;
use crate::sampling::origin_at;
use crate::sampling::sample_count;
use image::DynamicImage;
use vstd::prelude::*;

verus! {

/// Whether a pixel raises its dot: a dark pixel does, and under `swap` a
/// bright one.
pub open spec fn is_raised(rgb: (u8, u8, u8), swap: bool) -> bool {
    is_dark(rgb.0, rgb.1, rgb.2) != swap
}

/// The dots of eight pixels, each at the position of its pixel.
pub open spec fn dots_of_pixels(pixels: Seq<(u8, u8, u8)>, swap: bool) -> Seq<bool> {
    Seq::new(8, |p: int| is_raised(pixels[p], swap))
}

/// The character of eight pixels given row by row.
pub open spec fn cell_char(pixels: Seq<(u8, u8, u8)>, whitespace: bool, swap: bool) -> char {
    braille_char(mask_of(dots_of_pixels(pixels, swap)), whitespace)
}

/// The eight pixels of the cell whose top left pixel is `(x, y)`, row by row:
/// two columns and four rows of pixels, `c` apart.
pub open spec fn cell_pixels(img: DynamicImage, x: int, y: int, c: int) -> Seq<(u8, u8, u8)> {
    Seq::new(8, |p: int| pixel_of(img, x + (p % 2) * c, y + (p / 2) * c))
}

/// The character of the cell in column `col` of row `row` of the frame.
pub open spec fn braille_cell_char(
    img: DynamicImage,
    col: int,
    row: int,
    c: int,
    whitespace: bool,
    swap: bool,
) -> char {
    cell_char(cell_pixels(img, origin_at(col, c, 2), origin_at(row, c, 4), c), whitespace, swap)
}

/// A row of the frame before trimming: one character for each whole cell.
pub open spec fn braille_line(
    img: DynamicImage,
    row: int,
    c: int,
    whitespace: bool,
    swap: bool,
) -> Seq<char> {
    Seq::new(
        sample_count(width_of(img), c, 2) as nat,
        |col: int| braille_cell_char(img, col, row, c, whitespace, swap),
    )
}

/// The braille frame of an image: one trimmed line for each whole row of
/// cells.
pub open spec fn braille_frame(img: DynamicImage, c: int, whitespace: bool, swap: bool) -> Seq<
    Seq<char>,
> {
    Seq::new(
        sample_count(height_of(img), c, 4) as nat,
        |row: int| trim_blanks(braille_line(img, row, c, whitespace, swap)),
    )
}

/// The frame has one line for each whole row of cells, and no line is longer
/// than the cells across; the characters of a line are those of its cells,
/// up to the blanks at its end.
pub proof fn lemma_braille_frame_shape(
    img: DynamicImage,
    c: int,
    whitespace: bool,
    swap: bool,
    row: int,
)
    requires
        c >= 1,
        0 <= row < sample_count(height_of(img), c, 4),
    ensures
        braille_frame(img, c, whitespace, swap).len() == sample_count(height_of(img), c, 4),
        braille_frame(img, c, whitespace, swap)[row].len() <= sample_count(width_of(img), c, 2),
        forall|col: int|
            0 <= col < braille_frame(img, c, whitespace, swap)[row].len() ==> braille_frame(
                img,
                c,
                whitespace,
                swap,
            )[row][col] == braille_cell_char(img, col, row, c, whitespace, swap),
        !whitespace ==> braille_frame(img, c, whitespace, swap)[row].len() == sample_count(
            width_of(img),
            c,
            2,
        ),
{
    let line = braille_line(img, row, c, whitespace, swap);
    lemma_origin_iff_counted(0, width_of(img), c, 2);
    lemma_trim_blanks(line);
    if !whitespace && line.len() > 0 {
        let dots = dots_of_pixels(
            cell_pixels(img, origin_at(line.len() - 1, c, 2), origin_at(row, c, 4), c),
            swap,
        );
        lemma_mask_bits(dots);
        assert(line.last() == braille_char(mask_of(dots), whitespace));
        assert(line.last() != ' ');
    }
}

/// A cell of dark pixels shows all eight dots, and a cell of bright pixels
/// shows the empty cell: a space or the placeholder. Under `swap` it is the
/// other way round.
pub proof fn lemma_uniform_cells(pixels: Seq<(u8, u8, u8)>, whitespace: bool, swap: bool)
    requires
        pixels.len() == 8,
    ensures
        (forall|p: int| 0 <= p < 8 ==> is_raised(pixels[p], swap)) ==> cell_char(
            pixels,
            whitespace,
            swap,
        ) == '\u{28FF}',
        (forall|p: int| 0 <= p < 8 ==> !is_raised(pixels[p], swap)) ==> cell_char(
            pixels,
            whitespace,
            swap,
        ) == if whitespace {
            ' '
        } else {
            '\u{2840}'
        },
{
    let dots = dots_of_pixels(pixels, swap);
    lemma_mask_bits(dots);
    assert(forall|p: int| 0 <= p < 8 ==> dots[p] == is_raised(pixels[p], swap));
}

/// Whether a pixel raises its dot.
pub fn raises_dot(rgb: (u8, u8, u8), swap: bool) -> (raised: bool)
    ensures
        raised == is_raised(rgb, swap),
{
    (luma(rgb.0, rgb.1, rgb.2) < DARK_BELOW) != swap
}

/// The character of a cell of eight pixels given row by row, left before
/// right. A pixel darker than the middle of the luma range raises its dot;
/// under `swap` the brighter ones do.
pub fn encode_cell(pixels: &[(u8, u8, u8); 8], whitespace: bool, swap: bool) -> (glyph: char)
    ensures
        glyph == cell_char(pixels@, whitespace, swap),
{
    let dots = [
        raises_dot(pixels[0], swap),
        raises_dot(pixels[1], swap),
        raises_dot(pixels[2], swap),
        raises_dot(pixels[3], swap),
        raises_dot(pixels[4], swap),
        raises_dot(pixels[5], swap),
        raises_dot(pixels[6], swap),
        raises_dot(pixels[7], swap),
    ];
    assert(dots@ =~= dots_of_pixels(pixels@, swap));
    braille_glyph(dot_mask(&dots), whitespace)
}

/// The pixels of the cell whose top left pixel is `(x, y)`.
fn read_cell(img: &DynamicImage, x: u32, y: u32, c: u32) -> (pixels: [(u8, u8, u8); 8])
    requires
        image_has_integer_samples(*img),
        x + c < width_of(*img),
        y + 3 * c < height_of(*img),
    ensures
        pixels@ == cell_pixels(*img, x as int, y as int, c as int),
{
    let right: u32 = x + c;
    let second: u32 = y + c;
    let third: u32 = second + c;
    let fourth: u32 = third + c;
    let pixels = [
        pixel_at(img, x, y),
        pixel_at(img, right, y),
        pixel_at(img, x, second),
        pixel_at(img, right, second),
        pixel_at(img, x, third),
        pixel_at(img, right, third),
        pixel_at(img, x, fourth),
        pixel_at(img, right, fourth),
    ];
    proof {
        let ghost wanted = cell_pixels(*img, x as int, y as int, c as int);
        assert(0 * c == 0 && 1 * c == c && 2 * c == c + c && 3 * c == c + c + c);
        assert(wanted[0] == pixels@[0]);
        assert(wanted[1] == pixels@[1]);
        assert(wanted[2] == pixels@[2]);
        assert(wanted[3] == pixels@[3]);
        assert(wanted[4] == pixels@[4]);
        assert(wanted[5] == pixels@[5]);
        assert(wanted[6] == pixels@[6]);
        assert(wanted[7] == pixels@[7]);
        assert(pixels@ =~= wanted);
    }
    pixels
}

/// The characters of one row of the frame, before trimming.
fn braille_row(
    img: &DynamicImage,
    row: u32,
    cols: u32,
    c: u32,
    whitespace: bool,
    swap: bool,
) -> (line: Vec<char>)
    requires
        image_has_integer_samples(*img),
        c >= 1,
        cols == sample_count(width_of(*img), c as int, 2),
        row < sample_count(height_of(*img), c as int, 4),
    ensures
        line@ == braille_line(*img, row as int, c as int, whitespace, swap),
{
    proof {
        lemma_origin_iff_counted(row as int, height_of(*img), c as int, 4);
        assert(origin_at(row as int, c as int, 4) == row * (4 * c)) by (nonlinear_arith);
    }
    let y: u32 = ((row as u64) * (4 * (c as u64))) as u32;
    let mut line: Vec<char> = Vec::new();
    let mut col: u32 = 0;
    while col < cols
        invariant
            image_has_integer_samples(*img),
            c >= 1,
            col <= cols,
            cols == sample_count(width_of(*img), c as int, 2),
            y == origin_at(row as int, c as int, 4),
            y + 3 * c < height_of(*img),
            line@.len() == col,
            forall|i: int|
                0 <= i < col ==> line@[i] == braille_cell_char(
                    *img,
                    i,
                    row as int,
                    c as int,
                    whitespace,
                    swap,
                ),
        decreases cols - col,
    {
        proof {
            lemma_origin_iff_counted(col as int, width_of(*img), c as int, 2);
            assert(origin_at(col as int, c as int, 2) == col * (2 * c)) by (nonlinear_arith);
        }
        let x: u32 = ((col as u64) * (2 * (c as u64))) as u32;
        let pixels = read_cell(img, x, y, c);
        line.push(encode_cell(&pixels, whitespace, swap));
        col = col + 1;
    }
    assert(line@ =~= braille_line(*img, row as int, c as int, whitespace, swap));
    line
}

/// Renders an image as braille text. Every block of two by four pixels,
/// sampled `compress` pixels apart, becomes one character; blocks that would
/// reach past the image are left out. Each line loses the blanks at its end
/// and ends in a line terminator.
///
/// The request is refused where the image holds floating-point samples,
/// `compress` is zero or the image holds no whole block.
pub fn img_to_braillestring(img: &DynamicImage, compress: u32, whitespace: bool, swap: bool) -> (out:
    Result<String, RenderError>)
    ensures
        out is Ok <==> has_cells(*img, compress as int, 2, 4),
        out matches Ok(text) ==> text@ == frame_text(
            braille_frame(*img, compress as int, whitespace, swap),
        ),
        out matches Err(reason) ==> reason == refusal_of(*img),
{
    let (cols, rows) = match grid_of(img, compress, compress, 2, 4) {
        Ok(grid) => grid,
        Err(reason) => {
            return Err(reason);
        },
    };
    let ghost frame = braille_frame(*img, compress as int, whitespace, swap);
    let mut text = String::new();
    let mut row: u32 = 0;
    assert(frame.take(0) =~= Seq::<Seq<char>>::empty());
    while row < rows
        invariant
            image_has_integer_samples(*img),
            compress >= 1,
            row <= rows,
            cols == sample_count(width_of(*img), compress as int, 2),
            rows == sample_count(height_of(*img), compress as int, 4),
            frame == braille_frame(*img, compress as int, whitespace, swap),
            text@ == frame_text(frame.take(row as int)),
        decreases rows - row,
    {
        let line = braille_row(img, row, cols, compress, whitespace, swap);
        push_line(&mut text, &line, true);
        proof {
            let ghost done = frame.take(row + 1);
            assert(done.drop_last() =~= frame.take(row as int));
            assert(done.last() == trim_blanks(line@));
        }
        row = row + 1;
    }
    assert(frame.take(rows as int) =~= frame);
    Ok(text)
}

} // verus!
