//! The decoded image as the encoders see it: its dimensions and the colour
//! of each pixel, read through `image::DynamicImage`.

use crate::error::RenderError;
use crate::sampling::count_samples;
use crate::sampling::sample_count;
use image::DynamicImage;
use image::GenericImageView;
use vstd::prelude::*;

verus! {

/// `image::DynamicImage`, a decoded image. The proofs see nothing inside it;
/// what it holds has the names below.
#[verifier::external_type_specification]
#[verifier::external_body]
pub struct ExDynamicImage(image::DynamicImage);

/// Width and height of a decoded image, in pixels.
pub uninterp spec fn image_dimensions(img: image::DynamicImage) -> (u32, u32);

/// Red, green and blue of each pixel of a decoded image, by column and row.
pub uninterp spec fn image_pixels(img: image::DynamicImage) -> Map<(int, int), (u8, u8, u8)>;

/// Whether a decoded image holds its samples as integers, of eight or
/// sixteen bits, and not as floating-point numbers.
pub uninterp spec fn image_has_integer_samples(img: image::DynamicImage) -> bool;

/// Width of a decoded image.
pub open spec fn width_of(img: image::DynamicImage) -> int {
    image_dimensions(img).0 as int
}

/// Height of a decoded image.
pub open spec fn height_of(img: image::DynamicImage) -> int {
    image_dimensions(img).1 as int
}

/// Colour of the pixel in column `x` of row `y`.
pub open spec fn pixel_of(img: image::DynamicImage, x: int, y: int) -> (u8, u8, u8) {
    image_pixels(img)[(x, y)]
}

/// Whether an image can be sampled at the strides `cx` across and `cy` down,
/// in cells of `across` by `down` samples: its samples are integers, both
/// strides are at least one, and it holds a whole cell in each direction.
pub open spec fn has_grid(
    img: image::DynamicImage,
    cx: int,
    cy: int,
    across: int,
    down: int,
) -> bool {
    &&& image_has_integer_samples(img)
    &&& cx >= 1
    &&& cy >= 1
    &&& sample_count(width_of(img), cx, across) >= 1
    &&& sample_count(height_of(img), cy, down) >= 1
}

/// Whether an image can be sampled at one stride `c` in both directions, in
/// cells of `across` by `down` samples.
pub open spec fn has_cells(img: image::DynamicImage, c: int, across: int, down: int) -> bool {
    has_grid(img, c, c, across, down)
}

/// Why an image that cannot be sampled is refused: for its floating-point
/// samples, else for its geometry.
pub open spec fn refusal_of(img: image::DynamicImage) -> RenderError {
    if image_has_integer_samples(img) {
        RenderError::InvalidSampleGeometry
    } else {
        RenderError::UnsupportedImage
    }
}

/// `GenericImageView::dimensions` of a `DynamicImage`: the width and the
/// height of the buffer that the image holds.
#[verifier::external_body]
pub(crate) fn dimensions(img: &DynamicImage) -> (size: (u32, u32))
    ensures
        size == image_dimensions(*img),
{
    img.dimensions()
}

/// The variant of a `DynamicImage`: whether it is one of the eight whose
/// buffers hold `u8` or `u16` samples. The two with `f32` samples, and any
/// variant not named here, count as not.
#[verifier::external_body]
pub(crate) fn has_integer_samples(img: &DynamicImage) -> (integer: bool)
    ensures
        integer == image_has_integer_samples(*img),
{
    match img {
        DynamicImage::ImageLuma8(_) => true,
        DynamicImage::ImageLumaA8(_) => true,
        DynamicImage::ImageRgb8(_) => true,
        DynamicImage::ImageRgba8(_) => true,
        DynamicImage::ImageLuma16(_) => true,
        DynamicImage::ImageLumaA16(_) => true,
        DynamicImage::ImageRgb16(_) => true,
        DynamicImage::ImageRgba16(_) => true,
        _ => false,
    }
}

/// `GenericImageView::get_pixel` of a `DynamicImage`: the pixel in column `x`
/// of row `y`, brought to eight bits per channel; its alpha is left out. The
/// call panics outside the image, and on a floating-point sample that is not
/// a number; the precondition excludes both.
#[verifier::external_body]
pub(crate) fn pixel_at(img: &DynamicImage, x: u32, y: u32) -> (rgb: (u8, u8, u8))
    requires
        image_has_integer_samples(*img),
        x < image_dimensions(*img).0,
        y < image_dimensions(*img).1,
    ensures
        rgb == image_pixels(*img)[(x as int, y as int)],
{
    let pixel = img.get_pixel(x, y);
    (pixel.0[0], pixel.0[1], pixel.0[2])
}

/// Number of cells across and down an image, for the strides `cx` and `cy`
/// and cells of `across` by `down` samples. The image is refused where it
/// cannot be sampled so.
pub(crate) fn grid_of(img: &DynamicImage, cx: u32, cy: u32, across: u32, down: u32) -> (out:
    Result<(u32, u32), RenderError>)
    requires
        across >= 1,
        down >= 1,
    ensures
        out is Ok <==> has_grid(*img, cx as int, cy as int, across as int, down as int),
        out matches Ok(grid) ==> {
            &&& grid.0 == sample_count(width_of(*img), cx as int, across as int)
            &&& grid.1 == sample_count(height_of(*img), cy as int, down as int)
        },
        out matches Err(reason) ==> reason == refusal_of(*img),
{
    if !has_integer_samples(img) {
        return Err(RenderError::UnsupportedImage);
    }
    if cx == 0 || cy == 0 {
        return Err(RenderError::InvalidSampleGeometry);
    }
    let (width, height) = dimensions(img);
    let cols: u32 = count_samples(width, cx, across);
    let rows: u32 = count_samples(height, cy, down);
    if rows == 0 || cols == 0 {
        return Err(RenderError::InvalidSampleGeometry);
    }
    Ok((cols, rows))
}

} // verus!
