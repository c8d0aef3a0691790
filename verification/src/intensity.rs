//! Perceptual brightness of a pixel and its quantisation against an ordered
//! palette of shading glyphs.
//!
//! Brightness is carried in thousandths, so that the weights 0.299, 0.587 and
//! 0.114 are the integers 299, 587 and 114 and every comparison is exact.

use vstd::prelude::*;
use vstd::arithmetic::div_mod::lemma_div_is_ordered;
use vstd::arithmetic::mul::lemma_mul_inequality;

verus! {

/// Number of glyphs in the shading palette.
pub const PALETTE_LEN: usize = 5;

/// Thousand times the brightest luma, the luma of a white pixel.
pub const LUMA_MAX: u32 = 255000;

/// Thousand times the threshold under which a pixel counts as dark.
pub const DARK_BELOW: u32 = 127500;

/// Luma of a pixel in thousandths: `299 r + 587 g + 114 b`.
pub open spec fn luma_of(r: u8, g: u8, b: u8) -> int {
    299 * (r as int) + 587 * (g as int) + 114 * (b as int)
}

/// Position in a palette of `n` glyphs, darkest first, of a luma given in
/// thousandths: the luma is divided by `255 / (n + 1)`, rounded down, lowered
/// by one and held inside `0 ..= n - 1`.
pub open spec fn quantize_spec(luma: int, n: int) -> int {
    let raw = (luma * (n + 1)) / 255000 - 1;
    if raw < 0 {
        0
    } else if raw > n - 1 {
        n - 1
    } else {
        raw
    }
}

/// The shading palette, darkest glyph first.
pub open spec fn palette() -> Seq<char> {
    seq!['█', '▓', '▒', '░', ' ']
}

/// The glyph that stands for a luma, with the palette reversed under `swap`.
pub open spec fn glyph_for(luma: int, swap: bool) -> char {
    let index = quantize_spec(luma, 5);
    if swap {
        palette().reverse()[index]
    } else {
        palette()[index]
    }
}

/// Whether a pixel is darker than the middle of the luma range.
pub open spec fn is_dark(r: u8, g: u8, b: u8) -> bool {
    luma_of(r, g, b) < 127500
}

/// Luma of a pixel in thousandths.
pub fn luma(r: u8, g: u8, b: u8) -> (l: u32)
    ensures
        l == luma_of(r, g, b),
        l <= LUMA_MAX,
{
    299 * (r as u32) + 587 * (g as u32) + 114 * (b as u32)
}

/// Quantises a luma in thousandths to a position in a palette of `n` glyphs,
/// darkest first.
pub fn quantize(luma: u32, n: usize) -> (index: usize)
    requires
        n >= 1,
    ensures
        index == quantize_spec(luma as int, n as int),
        index < n,
{
    let sections: u128 = n as u128 + 1;
    assert(0 <= (luma as int) * (sections as int) <= 0xffff_ffff * 0x1_0000_0000_0000_0000)
        by (nonlinear_arith)
        requires
            0 <= luma <= 0xffff_ffff,
            0 <= sections <= 0x1_0000_0000_0000_0000,
    ;
    let section: u128 = ((luma as u128) * sections) / 255000;
    if section == 0 {
        0
    } else if section > n as u128 {
        n - 1
    } else {
        (section - 1) as usize
    }
}

/// The glyph at a position of the shading palette, counted from the lightest
/// glyph when `swap` is set.
pub fn palette_glyph(index: usize, swap: bool) -> (glyph: char)
    requires
        index < PALETTE_LEN,
    ensures
        glyph == if swap {
            palette().reverse()[index as int]
        } else {
            palette()[index as int]
        },
{
    let at: usize = if swap {
        4 - index
    } else {
        index
    };
    if at == 0 {
        '█'
    } else if at == 1 {
        '▓'
    } else if at == 2 {
        '▒'
    } else if at == 3 {
        '░'
    } else {
        ' '
    }
}

/// The shading glyph of a pixel.
pub fn shade(r: u8, g: u8, b: u8, swap: bool) -> (glyph: char)
    ensures
        glyph == glyph_for(luma_of(r, g, b), swap),
{
    let index = quantize(luma(r, g, b), PALETTE_LEN);
    palette_glyph(index, swap)
}

/// The shading glyph of a pixel, as a string of that one glyph.
pub fn get_ascii_char(r: u8, g: u8, b: u8, swap: bool) -> (glyph: String)
    ensures
        glyph@ == seq![glyph_for(luma_of(r, g, b), swap)],
{
    let mut out = String::new();
    out.push(shade(r, g, b, swap));
    out
}

/// Every luma has a position inside the palette, the darkest and the
/// brightest too, whatever the palette's size.
pub proof fn lemma_quantize_in_range(luma: int, n: int)
    requires
        n >= 1,
    ensures
        0 <= quantize_spec(luma, n) <= n - 1,
{
}

/// A brighter luma never has an earlier, that is darker, position than a
/// dimmer one.
pub proof fn lemma_quantize_monotonic(dim: int, bright: int, n: int)
    requires
        dim <= bright,
        n >= 1,
    ensures
        quantize_spec(dim, n) <= quantize_spec(bright, n),
{
    lemma_mul_inequality(dim, bright, n + 1);
    lemma_div_is_ordered(dim * (n + 1), bright * (n + 1), 255000);
}

/// Under `swap` every luma gets the glyph that sits at the mirrored position
/// of the palette.
pub proof fn lemma_swap_mirrors(luma: int)
    ensures
        glyph_for(luma, true) == palette()[4 - quantize_spec(luma, 5)],
        glyph_for(luma, false) == palette()[quantize_spec(luma, 5)],
{
}

} // verus!
