use img_to_ascii::get_ascii_char;
use img_to_ascii::intensity::luma;
use img_to_ascii::intensity::palette_glyph;
use img_to_ascii::intensity::quantize;
use img_to_ascii::intensity::shade;
use img_to_ascii::intensity::LUMA_MAX;
use img_to_ascii::intensity::PALETTE_LEN;

#[test]
fn luma_weighs_the_channels() {
    assert_eq!(luma(0, 0, 0), 0);
    assert_eq!(luma(1, 0, 0), 299);
    assert_eq!(luma(0, 1, 0), 587);
    assert_eq!(luma(0, 0, 1), 114);
    assert_eq!(luma(255, 255, 255), 255000);
    assert_eq!(luma(128, 128, 128), 128000);
    assert_eq!(luma(10, 20, 30), 2990 + 11740 + 3420);
}

#[test]
fn quantize_stays_inside_the_palette() {
    for n in 1usize..=12 {
        let mut value: u32 = 0;
        while value <= LUMA_MAX {
            assert!(quantize(value, n) < n);
            value += 125;
        }
        assert_eq!(quantize(0, n), 0);
        assert_eq!(quantize(LUMA_MAX, n), n - 1);
    }
}

#[test]
fn quantize_never_darkens_a_brighter_luma() {
    for n in 1usize..=7 {
        let mut last = 0;
        let mut value: u32 = 0;
        while value <= LUMA_MAX {
            let index = quantize(value, n);
            assert!(index >= last);
            last = index;
            value += 100;
        }
    }
}

#[test]
fn quantize_sections_of_five_glyphs() {
    assert_eq!(quantize(0, 5), 0);
    assert_eq!(quantize(42_499, 5), 0);
    assert_eq!(quantize(42_500, 5), 0);
    assert_eq!(quantize(84_999, 5), 0);
    assert_eq!(quantize(85_000, 5), 1);
    assert_eq!(quantize(127_499, 5), 1);
    assert_eq!(quantize(127_500, 5), 2);
    assert_eq!(quantize(128_000, 5), 2);
    assert_eq!(quantize(169_999, 5), 2);
    assert_eq!(quantize(170_000, 5), 3);
    assert_eq!(quantize(212_499, 5), 3);
    assert_eq!(quantize(212_500, 5), 4);
    assert_eq!(quantize(254_999, 5), 4);
    assert_eq!(quantize(255_000, 5), 4);
}

#[test]
fn quantize_with_one_glyph() {
    assert_eq!(quantize(0, 1), 0);
    assert_eq!(quantize(127_500, 1), 0);
    assert_eq!(quantize(255_000, 1), 0);
}

#[test]
fn palette_runs_from_dark_to_light() {
    assert_eq!(PALETTE_LEN, 5);
    let glyphs: Vec<char> = (0..5).map(|i| palette_glyph(i, false)).collect();
    assert_eq!(glyphs, vec!['█', '▓', '▒', '░', ' ']);
    let swapped: Vec<char> = (0..5).map(|i| palette_glyph(i, true)).collect();
    assert_eq!(swapped, vec![' ', '░', '▒', '▓', '█']);
}

#[test]
fn swap_mirrors_every_glyph() {
    for value in 0u8..=255 {
        let index = quantize(luma(value, value, value), 5);
        assert_eq!(shade(value, value, value, false), palette_glyph(index, false));
        assert_eq!(shade(value, value, value, true), palette_glyph(4 - index, false));
    }
}

#[test]
fn get_ascii_char_of_black_grey_and_white() {
    assert_eq!(get_ascii_char(0, 0, 0, false), "█");
    assert_eq!(get_ascii_char(100, 100, 100, false), "▓");
    assert_eq!(get_ascii_char(128, 128, 128, false), "▒");
    assert_eq!(get_ascii_char(200, 200, 200, false), "░");
    assert_eq!(get_ascii_char(255, 255, 255, false), " ");
}

#[test]
fn get_ascii_char_swapped() {
    assert_eq!(get_ascii_char(0, 0, 0, true), " ");
    assert_eq!(get_ascii_char(100, 100, 100, true), "░");
    assert_eq!(get_ascii_char(128, 128, 128, true), "▒");
    assert_eq!(get_ascii_char(200, 200, 200, true), "▓");
    assert_eq!(get_ascii_char(255, 255, 255, true), "█");
}

#[test]
fn get_ascii_char_is_one_glyph() {
    for value in [0u8, 60, 120, 180, 240] {
        assert_eq!(get_ascii_char(value, 0, value, false).chars().count(), 1);
    }
}

#[test]
fn green_weighs_more_than_blue() {
    assert_eq!(get_ascii_char(0, 255, 0, false), "▒");
    assert_eq!(get_ascii_char(0, 0, 255, false), "█");
    assert_eq!(get_ascii_char(255, 0, 0, false), "█");
    assert_eq!(get_ascii_char(255, 255, 0, false), " ");
}
