//! Block rendering of an image: each sampled pixel becomes a shading glyph,
//! written several times in a row to make up for the height of a text cell.

use crate::error::RenderError;
use crate::frame::frame_text;
use crate::frame::lemma_trim_blanks;
use crate::frame::push_line;
use crate::frame::trim_blanks;
use crate::intensity::glyph_for;
use crate::intensity::luma_of;
use crate::intensity::shade;
use crate::raster::grid_of;
use crate::raster::has_cells;
use crate::raster::has_grid;
use crate::raster::height_of;
use crate::raster::image_has_integer_samples;
use crate::raster::pixel_at;
use crate::raster::pixel_of;
use crate::raster::refusal_of;
use crate::raster::width_of;
use crate::sampling::lemma_origin_iff_counted;
use crate::sampling::origin_at;
use crate::sampling::sample_count;
use image::DynamicImage;
use vstd::arithmetic::div_mod::lemma_fundamental_div_mod_converse;
use vstd::prelude::*;

verus! {

/// The shading glyph of a colour.
pub open spec fn shade_of(rgb: (u8, u8, u8), swap: bool) -> char {
    glyph_for(luma_of(rgb.0, rgb.1, rgb.2), swap)
}

/// The glyph of the sample in column `col` of row `row` of the frame, for
/// the strides `cx` across and `cy` down.
pub open spec fn block_glyph(
    img: DynamicImage,
    col: int,
    row: int,
    cx: int,
    cy: int,
    swap: bool,
) -> char {
    shade_of(pixel_of(img, origin_at(col, cx, 1), origin_at(row, cy, 1)), swap)
}

/// A row of the frame before trimming: the glyph of each sample, `repeat`
/// times.
pub open spec fn block_line(
    img: DynamicImage,
    row: int,
    cx: int,
    cy: int,
    repeat: int,
    swap: bool,
) -> Seq<char> {
    Seq::new(
        (sample_count(width_of(img), cx, 1) * repeat) as nat,
        |i: int| block_glyph(img, i / repeat, row, cx, cy, swap),
    )
}

/// The block frame of an image: one trimmed line for each sampled row.
pub open spec fn block_frame(img: DynamicImage, cx: int, cy: int, repeat: int, swap: bool) -> Seq<
    Seq<char>,
> {
    Seq::new(
        sample_count(height_of(img), cy, 1) as nat,
        |row: int| trim_blanks(block_line(img, row, cx, cy, repeat, swap)),
    )
}

/// The frame has one line for each sampled row, and no line is longer than
/// the samples across times the repeat; the glyphs of a line are those of
/// its samples, up to the blanks at its end.
pub proof fn lemma_block_frame_shape(
    img: DynamicImage,
    cx: int,
    cy: int,
    repeat: int,
    swap: bool,
    row: int,
)
    requires
        cx >= 1,
        cy >= 1,
        0 <= row < sample_count(height_of(img), cy, 1),
        repeat >= 0,
    ensures
        block_frame(img, cx, cy, repeat, swap).len() == sample_count(height_of(img), cy, 1),
        block_frame(img, cx, cy, repeat, swap)[row].len() <= sample_count(width_of(img), cx, 1)
            * repeat,
        forall|i: int|
            0 <= i < block_frame(img, cx, cy, repeat, swap)[row].len() ==> block_frame(
                img,
                cx,
                cy,
                repeat,
                swap,
            )[row][i] == block_glyph(img, i / repeat, row, cx, cy, swap),
{
    let line = block_line(img, row, cx, cy, repeat, swap);
    lemma_origin_iff_counted(0, width_of(img), cx, 1);
    assert(sample_count(width_of(img), cx, 1) * repeat >= 0) by (nonlinear_arith)
        requires
            sample_count(width_of(img), cx, 1) >= 0,
            repeat >= 0,
    ;
    lemma_trim_blanks(line);
}

/// The glyphs of one row of the frame, before trimming.
fn block_row(
    img: &DynamicImage,
    row: u32,
    cols: u32,
    cx: u32,
    cy: u32,
    charamount: usize,
    swap: bool,
) -> (line: Vec<char>)
    requires
        image_has_integer_samples(*img),
        cx >= 1,
        cy >= 1,
        cols == sample_count(width_of(*img), cx as int, 1),
        row < sample_count(height_of(*img), cy as int, 1),
    ensures
        line@ == block_line(*img, row as int, cx as int, cy as int, charamount as int, swap),
{
    proof {
        lemma_origin_iff_counted(row as int, height_of(*img), cy as int, 1);
        assert(origin_at(row as int, cy as int, 1) == row * cy) by (nonlinear_arith);
    }
    let y: u32 = ((row as u64) * (cy as u64)) as u32;
    let mut line: Vec<char> = Vec::new();
    let mut col: u32 = 0;
    assert(0 * charamount == 0);
    while col < cols
        invariant
            image_has_integer_samples(*img),
            cx >= 1,
            col <= cols,
            cols == sample_count(width_of(*img), cx as int, 1),
            y == origin_at(row as int, cy as int, 1),
            y < height_of(*img),
            line@.len() == col * charamount,
            forall|i: int|
                0 <= i < line@.len() ==> line@[i] == block_glyph(
                    *img,
                    i / (charamount as int),
                    row as int,
                    cx as int,
                    cy as int,
                    swap,
                ),
        decreases cols - col,
    {
        proof {
            lemma_origin_iff_counted(col as int, width_of(*img), cx as int, 1);
            assert(origin_at(col as int, cx as int, 1) == col * cx) by (nonlinear_arith);
        }
        let x: u32 = ((col as u64) * (cx as u64)) as u32;
        let rgb = pixel_at(img, x, y);
        let glyph = shade(rgb.0, rgb.1, rgb.2, swap);
        let mut copies: usize = 0;
        while copies < charamount
            invariant
                copies <= charamount,
                line@.len() == col * charamount + copies,
                glyph == block_glyph(*img, col as int, row as int, cx as int, cy as int, swap),
                forall|i: int|
                    0 <= i < line@.len() ==> line@[i] == block_glyph(
                        *img,
                        i / (charamount as int),
                        row as int,
                        cx as int,
                        cy as int,
                        swap,
                    ),
            decreases charamount - copies,
        {
            proof {
                lemma_fundamental_div_mod_converse(
                    col * charamount + copies,
                    charamount as int,
                    col as int,
                    copies as int,
                );
            }
            line.push(glyph);
            copies = copies + 1;
        }
        assert((col + 1) * charamount == col * charamount + charamount) by (nonlinear_arith);
        col = col + 1;
    }
    assert(line@ =~= block_line(
        *img,
        row as int,
        cx as int,
        cy as int,
        charamount as int,
        swap,
    ));
    line
}

/// Renders an image as lines of shading glyphs, with a stride of its own in
/// each direction. Every `compressx`-th pixel of every `compressy`-th row is
/// sampled and its glyph written `charamount` times; `swap` reverses the
/// palette for output that is light on dark. Each line loses the blanks at
/// its end and ends in a line terminator.
///
/// The request is refused where the image holds floating-point samples, a
/// stride is zero or the image has no pixel.
pub fn img_to_asciistring_xy(
    img: &DynamicImage,
    compressx: u32,
    compressy: u32,
    charamount: usize,
    swap: bool,
) -> (out: Result<String, RenderError>)
    ensures
        out is Ok <==> has_grid(*img, compressx as int, compressy as int, 1, 1),
        out matches Ok(text) ==> text@ == frame_text(
            block_frame(*img, compressx as int, compressy as int, charamount as int, swap),
        ),
        out matches Err(reason) ==> reason == refusal_of(*img),
{
    let (cols, rows) = match grid_of(img, compressx, compressy, 1, 1) {
        Ok(grid) => grid,
        Err(reason) => {
            return Err(reason);
        },
    };
    let ghost frame = block_frame(
        *img,
        compressx as int,
        compressy as int,
        charamount as int,
        swap,
    );
    let mut text = String::new();
    let mut row: u32 = 0;
    assert(frame.take(0) =~= Seq::<Seq<char>>::empty());
    while row < rows
        invariant
            image_has_integer_samples(*img),
            compressx >= 1,
            compressy >= 1,
            row <= rows,
            cols == sample_count(width_of(*img), compressx as int, 1),
            rows == sample_count(height_of(*img), compressy as int, 1),
            frame == block_frame(
                *img,
                compressx as int,
                compressy as int,
                charamount as int,
                swap,
            ),
            text@ == frame_text(frame.take(row as int)),
        decreases rows - row,
    {
        let line = block_row(img, row, cols, compressx, compressy, charamount, swap);
        push_line(&mut text, &line, true);
        proof {
            let ghost done = frame.take(row + 1);
            assert(done.drop_last() =~= frame.take(row as int));
            assert(done.last() == trim_blanks(line@));
        }
        row = row + 1;
    }
    assert(frame.take(rows as int) =~= frame);
    Ok(text)
}

/// Renders an image as lines of shading glyphs. Every `compress`-th pixel of
/// every `compress`-th row is sampled and its glyph written `charamount`
/// times; `swap` reverses the palette for output that is light on dark. Each
/// line loses the blanks at its end and ends in a line terminator.
///
/// The request is refused where the image holds floating-point samples,
/// `compress` is zero or the image has no pixel.
pub fn img_to_asciistring(img: &DynamicImage, compress: u32, charamount: usize, swap: bool) -> (out:
    Result<String, RenderError>)
    ensures
        out is Ok <==> has_cells(*img, compress as int, 1, 1),
        out matches Ok(text) ==> text@ == frame_text(
            block_frame(*img, compress as int, compress as int, charamount as int, swap),
        ),
        out matches Err(reason) ==> reason == refusal_of(*img),
{
    img_to_asciistring_xy(img, compress, compress, charamount, swap)
}

} // verus!
