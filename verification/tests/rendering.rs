use image::DynamicImage;
use image::GrayImage;
use image::Luma;
use image::ImageBuffer;
use image::Rgb;
use image::Rgb32FImage;
use image::RgbImage;
use image::Rgba;
use image::Rgba32FImage;
use image::RgbaImage;
use img_to_ascii::html_page;
use img_to_ascii::img_to_asciistring;
use img_to_ascii::img_to_asciistring_xy;
use img_to_ascii::img_to_braillestring;
use img_to_ascii::RenderError;

fn solid(width: u32, height: u32, value: u8) -> DynamicImage {
    DynamicImage::ImageRgb8(RgbImage::from_pixel(width, height, Rgb([value, value, value])))
}

fn black_left_of(width: u32, height: u32, split: u32) -> DynamicImage {
    DynamicImage::ImageRgb8(RgbImage::from_fn(width, height, |x, _| {
        if x < split {
            Rgb([0, 0, 0])
        } else {
            Rgb([255, 255, 255])
        }
    }))
}

#[test]
fn solid_grey_block_art() {
    let img = solid(4, 4, 128);
    let art = img_to_asciistring(&img, 1, 1, false);
    assert_eq!(art, Ok("▒▒▒▒\n▒▒▒▒\n▒▒▒▒\n▒▒▒▒\n".to_string()));
}

#[test]
fn block_art_repeats_each_glyph() {
    let img = solid(2, 1, 0);
    assert_eq!(img_to_asciistring(&img, 1, 3, false), Ok("██████\n".to_string()));
    assert_eq!(img_to_asciistring(&img, 1, 0, false), Ok("\n".to_string()));
}

#[test]
fn block_art_trims_trailing_blanks() {
    let img = black_left_of(4, 2, 2);
    assert_eq!(img_to_asciistring(&img, 1, 2, false), Ok("████\n████\n".to_string()));
    let white = solid(3, 2, 255);
    assert_eq!(img_to_asciistring(&white, 1, 2, false), Ok("\n\n".to_string()));
}

#[test]
fn block_art_keeps_leading_blanks() {
    let img = DynamicImage::ImageRgb8(RgbImage::from_fn(3, 1, |x, _| {
        if x == 1 {
            Rgb([0, 0, 0])
        } else {
            Rgb([255, 255, 255])
        }
    }));
    assert_eq!(img_to_asciistring(&img, 1, 1, false), Ok(" █\n".to_string()));
    assert_eq!(img_to_asciistring(&img, 1, 1, true), Ok("█ █\n".to_string()));
}

#[test]
fn block_art_swapped_for_the_terminal() {
    let img = black_left_of(4, 1, 2);
    assert_eq!(img_to_asciistring(&img, 1, 1, true), Ok("  ██\n".to_string()));
}

#[test]
fn block_art_samples_every_nth_pixel() {
    let img = DynamicImage::ImageRgb8(RgbImage::from_fn(5, 5, |x, y| {
        if x % 2 == 0 && y % 2 == 0 {
            Rgb([0, 0, 0])
        } else {
            Rgb([200, 200, 200])
        }
    }));
    assert_eq!(img_to_asciistring(&img, 2, 1, false), Ok("███\n███\n███\n".to_string()));
    assert_eq!(
        img_to_asciistring(&img, 1, 1, false),
        Ok("█░█░█\n░░░░░\n█░█░█\n░░░░░\n█░█░█\n".to_string())
    );
    assert_eq!(img_to_asciistring(&img, 3, 1, false), Ok("█░\n░░\n".to_string()));
    assert_eq!(img_to_asciistring(&img, 5, 1, false), Ok("█\n".to_string()));
    assert_eq!(img_to_asciistring(&img, 100, 1, false), Ok("█\n".to_string()));
}

#[test]
fn block_art_reads_columns_and_rows_in_order() {
    let img = DynamicImage::ImageRgb8(RgbImage::from_fn(3, 2, |x, y| {
        let value = (x * 60 + y * 120) as u8;
        Rgb([value, value, value])
    }));
    // Lumas 0, 60, 120 in the first row and 120, 180, 240 in the second.
    assert_eq!(img_to_asciistring(&img, 1, 1, false), Ok("██▓\n▓░\n".to_string()));
}

#[test]
fn block_art_of_grey_and_transparent_images() {
    let grey = DynamicImage::ImageLuma8(GrayImage::from_pixel(2, 1, Luma([128])));
    assert_eq!(img_to_asciistring(&grey, 1, 1, false), Ok("▒▒\n".to_string()));
    let clear = DynamicImage::ImageRgba8(RgbaImage::from_pixel(2, 1, Rgba([0, 0, 0, 0])));
    assert_eq!(img_to_asciistring(&clear, 1, 1, false), Ok("██\n".to_string()));
}

#[test]
fn block_art_refuses_a_zero_stride() {
    let img = solid(4, 4, 128);
    assert_eq!(img_to_asciistring(&img, 0, 1, false), Err(RenderError::InvalidSampleGeometry));
}

#[test]
fn block_art_refuses_an_empty_image() {
    assert_eq!(
        img_to_asciistring(&solid(0, 0, 0), 1, 1, false),
        Err(RenderError::InvalidSampleGeometry)
    );
    assert_eq!(
        img_to_asciistring(&solid(3, 0, 0), 1, 1, false),
        Err(RenderError::InvalidSampleGeometry)
    );
    assert_eq!(
        img_to_asciistring(&solid(0, 3, 0), 1, 1, false),
        Err(RenderError::InvalidSampleGeometry)
    );
}

#[test]
fn black_left_column_in_braille() {
    let img = black_left_of(2, 4, 1);
    let art = img_to_braillestring(&img, 1, false, false);
    assert_eq!(art, Ok("⡇\n".to_string()));
    let text = art.unwrap();
    assert_eq!(text.chars().next().map(|c| c as u32), Some(0x2800 + 0b0100_0111));
}

#[test]
fn black_left_column_in_braille_swapped() {
    let img = black_left_of(2, 4, 1);
    assert_eq!(img_to_braillestring(&img, 1, false, true), Ok("⢸\n".to_string()));
}

#[test]
fn dark_and_bright_blocks_in_braille() {
    assert_eq!(img_to_braillestring(&solid(2, 4, 0), 1, false, false), Ok("⣿\n".to_string()));
    assert_eq!(img_to_braillestring(&solid(2, 4, 255), 1, false, false), Ok("⡀\n".to_string()));
    assert_eq!(img_to_braillestring(&solid(2, 4, 255), 1, true, false), Ok("\n".to_string()));
    assert_eq!(img_to_braillestring(&solid(2, 4, 255), 1, true, true), Ok("⣿\n".to_string()));
}

#[test]
fn braille_threshold_is_the_middle_of_the_range() {
    assert_eq!(img_to_braillestring(&solid(2, 4, 127), 1, false, false), Ok("⣿\n".to_string()));
    assert_eq!(img_to_braillestring(&solid(2, 4, 128), 1, false, false), Ok("⡀\n".to_string()));
}

#[test]
fn braille_drops_partial_cells() {
    let img = solid(5, 17, 0);
    assert_eq!(
        img_to_braillestring(&img, 1, false, false),
        Ok("⣿⣿\n⣿⣿\n⣿⣿\n⣿⣿\n".to_string())
    );
    let wide = solid(9, 7, 0);
    assert_eq!(img_to_braillestring(&wide, 1, false, false), Ok("⣿⣿⣿⣿\n".to_string()));
}

#[test]
fn braille_samples_at_a_stride() {
    // Dark at even columns and rows only: a stride of two sees only dark
    // pixels, a stride of one sees the upper left dot of every second row.
    let img = DynamicImage::ImageRgb8(RgbImage::from_fn(8, 8, |x, y| {
        if x % 2 == 0 && y % 2 == 0 {
            Rgb([0, 0, 0])
        } else {
            Rgb([255, 255, 255])
        }
    }));
    assert_eq!(img_to_braillestring(&img, 2, false, false), Ok("⣿⣿\n".to_string()));
    assert_eq!(
        img_to_braillestring(&img, 1, false, false),
        Ok("⠅⠅⠅⠅\n⠅⠅⠅⠅\n".to_string())
    );
    assert_eq!(
        img_to_braillestring(&img, 3, false, false),
        Err(RenderError::InvalidSampleGeometry)
    );
}

#[test]
fn braille_places_each_pixel_at_its_dot() {
    let raised: [(u32, u32, u32); 8] = [
        (0, 0, 0x01),
        (0, 1, 0x02),
        (0, 2, 0x04),
        (1, 0, 0x08),
        (1, 1, 0x10),
        (1, 2, 0x20),
        (0, 3, 0x40),
        (1, 3, 0x80),
    ];
    for (dark_x, dark_y, bit) in raised {
        let img = DynamicImage::ImageRgb8(RgbImage::from_fn(2, 4, |x, y| {
            if x == dark_x && y == dark_y {
                Rgb([0, 0, 0])
            } else {
                Rgb([255, 255, 255])
            }
        }));
        let expected: String = [char::from_u32(0x2800 + bit).unwrap(), '\n'].iter().collect();
        assert_eq!(img_to_braillestring(&img, 1, false, false), Ok(expected));
    }
}

#[test]
fn braille_trims_trailing_spaces_only() {
    let img = black_left_of(6, 4, 2);
    assert_eq!(img_to_braillestring(&img, 1, true, false), Ok("⣿\n".to_string()));
    assert_eq!(img_to_braillestring(&img, 1, false, false), Ok("⣿⡀⡀\n".to_string()));
    assert_eq!(img_to_braillestring(&img, 1, true, true), Ok(" ⣿⣿\n".to_string()));
}

#[test]
fn braille_refuses_what_holds_no_cell() {
    assert_eq!(
        img_to_braillestring(&solid(2, 4, 0), 0, false, false),
        Err(RenderError::InvalidSampleGeometry)
    );
    assert_eq!(
        img_to_braillestring(&solid(1, 4, 0), 1, false, false),
        Err(RenderError::InvalidSampleGeometry)
    );
    assert_eq!(
        img_to_braillestring(&solid(2, 3, 0), 1, false, false),
        Err(RenderError::InvalidSampleGeometry)
    );
    assert_eq!(
        img_to_braillestring(&solid(4, 8, 0), 3, false, false),
        Err(RenderError::InvalidSampleGeometry)
    );
    assert_eq!(
        img_to_braillestring(&solid(0, 0, 0), 1, false, false),
        Err(RenderError::InvalidSampleGeometry)
    );
}

#[test]
fn html_page_wraps_the_art() {
    assert_eq!(html_page("ab\ncd\n"), "<pre>\nab\ncd\n\n</pre>");
    assert_eq!(html_page(""), "<pre>\n\n</pre>");
}

#[test]
fn block_art_with_a_stride_for_each_direction() {
    let img = DynamicImage::ImageRgb8(RgbImage::from_fn(5, 5, |x, y| {
        if x % 2 == 0 && y % 2 == 0 {
            Rgb([0, 0, 0])
        } else {
            Rgb([200, 200, 200])
        }
    }));
    assert_eq!(
        img_to_asciistring_xy(&img, 2, 1, 1, false),
        Ok("███\n░░░\n███\n░░░\n███\n".to_string())
    );
    assert_eq!(
        img_to_asciistring_xy(&img, 1, 2, 1, false),
        Ok("█░█░█\n█░█░█\n█░█░█\n".to_string())
    );
    assert_eq!(img_to_asciistring_xy(&img, 4, 3, 2, false), Ok("████\n░░░░\n".to_string()));
    assert_eq!(
        img_to_asciistring_xy(&img, 2, 2, 1, false),
        img_to_asciistring(&img, 2, 1, false)
    );
}

#[test]
fn block_art_refuses_a_zero_stride_in_either_direction() {
    let img = solid(4, 4, 128);
    assert_eq!(
        img_to_asciistring_xy(&img, 0, 1, 1, false),
        Err(RenderError::InvalidSampleGeometry)
    );
    assert_eq!(
        img_to_asciistring_xy(&img, 1, 0, 1, false),
        Err(RenderError::InvalidSampleGeometry)
    );
}

#[test]
fn sixteen_bit_images_are_rendered() {
    let deep: ImageBuffer<Rgb<u16>, Vec<u16>> =
        ImageBuffer::from_pixel(2, 4, Rgb([0x8080, 0x8080, 0x8080]));
    let img = DynamicImage::ImageRgb16(deep);
    assert_eq!(img_to_asciistring(&img, 1, 1, false), Ok("▒▒\n▒▒\n▒▒\n▒▒\n".to_string()));
    assert_eq!(img_to_braillestring(&img, 1, false, false), Ok("⡀\n".to_string()));
}

#[test]
fn floating_point_images_are_refused() {
    let img = DynamicImage::ImageRgb32F(Rgb32FImage::from_pixel(2, 4, Rgb([0.0, 0.0, 0.0])));
    assert_eq!(img_to_asciistring(&img, 1, 1, false), Err(RenderError::UnsupportedImage));
    assert_eq!(img_to_asciistring_xy(&img, 1, 2, 1, false), Err(RenderError::UnsupportedImage));
    assert_eq!(img_to_braillestring(&img, 1, false, false), Err(RenderError::UnsupportedImage));
    let clear = DynamicImage::ImageRgba32F(Rgba32FImage::from_pixel(
        2,
        4,
        Rgba([1.0, 1.0, 1.0, 1.0]),
    ));
    assert_eq!(img_to_asciistring(&clear, 1, 1, false), Err(RenderError::UnsupportedImage));
    assert_eq!(img_to_braillestring(&clear, 1, true, true), Err(RenderError::UnsupportedImage));
}

#[test]
fn floating_point_images_are_refused_whatever_the_geometry() {
    let img = DynamicImage::ImageRgb32F(Rgb32FImage::from_pixel(1, 1, Rgb([0.0, 0.0, 0.0])));
    assert_eq!(img_to_asciistring(&img, 0, 1, false), Err(RenderError::UnsupportedImage));
    assert_eq!(img_to_braillestring(&img, 1, false, false), Err(RenderError::UnsupportedImage));
    let empty = DynamicImage::ImageRgb32F(Rgb32FImage::new(0, 0));
    assert_eq!(img_to_asciistring(&empty, 1, 1, false), Err(RenderError::UnsupportedImage));
}

#[test]
fn a_sample_that_is_no_number_is_refused() {
    let buffer = Rgb32FImage::from_raw(2, 4, vec![f32::NAN; 24]).unwrap();
    let img = DynamicImage::ImageRgb32F(buffer);
    assert_eq!(img_to_asciistring(&img, 1, 1, false), Err(RenderError::UnsupportedImage));
    assert_eq!(img_to_braillestring(&img, 1, false, false), Err(RenderError::UnsupportedImage));
}
