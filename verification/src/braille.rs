//! Braille cells: eight dots in two columns and four rows, packed into one
//! byte and shown as one character of the Unicode braille block.
//!
//! The dots of a cell are listed row by row, left before right, so that
//! positions 0 and 1 are the top row. Braille numbers them down the left
//! column (dots 1 to 3), down the right column (dots 4 to 6), then the bottom
//! row (dots 7 and 8); dot `k + 1` is bit `k` of the mask.

use vstd::prelude::*;
use vstd::string::StrSliceExecFns;

verus! {

/// First code point of the braille block, the cell with no dot raised.
pub const BRAILLE_BASE: u32 = 0x2800;

/// The glyph that stands for a cell with no dot raised when no blank space is
/// wanted: the cell with only dot 7.
pub const BRAILLE_PLACEHOLDER: char = '\u{2840}';

/// For each bit of the mask, the row-by-row position of its dot.
pub open spec fn dot_positions() -> Seq<int> {
    seq![0, 2, 4, 1, 3, 5, 6, 7]
}

/// For each row-by-row position, the bit of the mask that holds its dot.
pub open spec fn dot_bits() -> Seq<int> {
    seq![0, 3, 1, 4, 2, 5, 6, 7]
}

/// Value of bit `k` of a byte.
pub open spec fn bit_weight(k: int) -> int {
    if k == 0 {
        1
    } else if k == 1 {
        2
    } else if k == 2 {
        4
    } else if k == 3 {
        8
    } else if k == 4 {
        16
    } else if k == 5 {
        32
    } else if k == 6 {
        64
    } else {
        128
    }
}

/// Whether bit `k` of a mask is set.
pub open spec fn has_bit(mask: int, k: int) -> bool {
    (mask / bit_weight(k)) % 2 == 1
}

/// What the dot at a position adds to the mask.
pub open spec fn dot_value(dots: Seq<bool>, position: int) -> int {
    if dots[position] {
        bit_weight(dot_bits()[position])
    } else {
        0
    }
}

/// The mask of eight dots given row by row.
pub open spec fn mask_of(dots: Seq<bool>) -> int {
    dot_value(dots, 0) + dot_value(dots, 1) + dot_value(dots, 2) + dot_value(dots, 3) + dot_value(
        dots,
        4,
    ) + dot_value(dots, 5) + dot_value(dots, 6) + dot_value(dots, 7)
}

/// The eight dots of a mask, row by row.
pub open spec fn dots_of(mask: int) -> Seq<bool> {
    Seq::new(8, |position: int| has_bit(mask, dot_bits()[position]))
}

/// The character of a mask: the braille cell with those dots, and for the
/// empty cell a space where `whitespace` is set, else the placeholder.
pub open spec fn braille_char(mask: int, whitespace: bool) -> char {
    if mask == 0 {
        if whitespace {
            ' '
        } else {
            '\u{2840}'
        }
    } else {
        (0x2800 + mask) as char
    }
}

/// Whether a text is a byte written as eight binary digits.
pub open spec fn is_bit_pattern(text: Seq<char>) -> bool {
    &&& text.len() == 8
    &&& forall|i: int| 0 <= i < 8 ==> text[i] == '0' || text[i] == '1'
}

/// The byte that eight binary digits denote, the first digit weighing most.
pub open spec fn pattern_value(text: Seq<char>) -> int
    decreases text.len(),
{
    if text.len() == 0 {
        0
    } else {
        2 * pattern_value(text.drop_last()) + if text.last() == '1' {
            1int
        } else {
            0int
        }
    }
}

/// The two tables are inverse to each other: each bit's dot sits at the
/// position that names that bit.
pub proof fn lemma_dot_tables_inverse()
    ensures
        dot_positions().len() == 8,
        dot_bits().len() == 8,
        forall|k: int| 0 <= k < 8 ==> 0 <= #[trigger] dot_positions()[k] < 8,
        forall|k: int| 0 <= k < 8 ==> dot_bits()[#[trigger] dot_positions()[k]] == k,
        forall|p: int| 0 <= p < 8 ==> dot_positions()[#[trigger] dot_bits()[p]] == p,
{
}

/// The binary digits of a sum of distinct powers of two are its terms.
proof fn lemma_sum_digits(m: u8, d0: u8, d1: u8, d2: u8, d3: u8, d4: u8, d5: u8, d6: u8, d7: u8)
    by (bit_vector)
    requires
        d0 <= 1,
        d1 <= 1,
        d2 <= 1,
        d3 <= 1,
        d4 <= 1,
        d5 <= 1,
        d6 <= 1,
        d7 <= 1,
        m == d0 + 2 * d1 + 4 * d2 + 8 * d3 + 16 * d4 + 32 * d5 + 64 * d6 + 128 * d7,
    ensures
        m % 2 == d0,
        (m / 2) % 2 == d1,
        (m / 4) % 2 == d2,
        (m / 8) % 2 == d3,
        (m / 16) % 2 == d4,
        (m / 32) % 2 == d5,
        (m / 64) % 2 == d6,
        (m / 128) % 2 == d7,
{
}

/// A byte is the sum of its binary digits, each with its weight.
proof fn lemma_digits_sum(m: u8)
    by (bit_vector)
    ensures
        m == m % 2 + 2 * ((m / 2) % 2) + 4 * ((m / 4) % 2) + 8 * ((m / 8) % 2) + 16 * ((m / 16)
            % 2) + 32 * ((m / 32) % 2) + 64 * ((m / 64) % 2) + 128 * ((m / 128) % 2),
{
}

/// One or zero, for a raised dot or a flat one.
pub open spec fn dot_digit(raised: bool) -> u8 {
    if raised {
        1
    } else {
        0
    }
}

/// A mask built from eight dots is a byte, and bit `k` of it is the dot at
/// the position that the table gives for `k`.
pub proof fn lemma_mask_bits(dots: Seq<bool>)
    requires
        dots.len() == 8,
    ensures
        0 <= mask_of(dots) <= 255,
        forall|k: int| 0 <= k < 8 ==> has_bit(mask_of(dots), k) == dots[dot_positions()[k]],
        mask_of(dots) == 0 <==> forall|p: int| 0 <= p < 8 ==> !dots[p],
        mask_of(dots) == 255 <==> forall|p: int| 0 <= p < 8 ==> dots[p],
{
    let m = mask_of(dots);
    let d0 = dot_digit(dots[0]);
    let d1 = dot_digit(dots[2]);
    let d2 = dot_digit(dots[4]);
    let d3 = dot_digit(dots[1]);
    let d4 = dot_digit(dots[3]);
    let d5 = dot_digit(dots[5]);
    let d6 = dot_digit(dots[6]);
    let d7 = dot_digit(dots[7]);
    assert(dot_value(dots, 0) == d0);
    assert(dot_value(dots, 2) == 2 * d1);
    assert(dot_value(dots, 4) == 4 * d2);
    assert(dot_value(dots, 1) == 8 * d3);
    assert(dot_value(dots, 3) == 16 * d4);
    assert(dot_value(dots, 5) == 32 * d5);
    assert(dot_value(dots, 6) == 64 * d6);
    assert(dot_value(dots, 7) == 128 * d7);
    assert(m == d0 + 2 * d1 + 4 * d2 + 8 * d3 + 16 * d4 + 32 * d5 + 64 * d6 + 128 * d7);
    lemma_sum_digits(m as u8, d0, d1, d2, d3, d4, d5, d6, d7);
    assert forall|k: int| 0 <= k < 8 implies has_bit(m, k) == dots[dot_positions()[k]] by {
        if k == 0 {
        } else if k == 1 {
        } else if k == 2 {
        } else if k == 3 {
        } else if k == 4 {
        } else if k == 5 {
        } else if k == 6 {
        } else {
        }
    }
    if m == 255 {
        assert forall|p: int| 0 <= p < 8 implies dots[p] by {
            assert(dot_value(dots, p) <= 128);
            if p == 0 {
            } else if p == 1 {
            } else if p == 2 {
            } else if p == 3 {
            } else if p == 4 {
            } else if p == 5 {
            } else if p == 6 {
            } else {
            }
        }
    }
    if m == 0 {
        assert forall|p: int| 0 <= p < 8 implies !dots[p] by {
            assert(dot_value(dots, p) >= 0);
            if p == 0 {
            } else if p == 1 {
            } else if p == 2 {
            } else if p == 3 {
            } else if p == 4 {
            } else if p == 5 {
            } else if p == 6 {
            } else {
            }
        }
    }
}

/// Packing eight dots into a mask and unpacking the mask gives the eight
/// dots back, each at its position.
pub proof fn lemma_dots_round_trip(dots: Seq<bool>)
    requires
        dots.len() == 8,
    ensures
        dots_of(mask_of(dots)) == dots,
{
    lemma_mask_bits(dots);
    lemma_dot_tables_inverse();
    assert forall|p: int| 0 <= p < 8 implies dots_of(mask_of(dots))[p] == dots[p] by {
        let k = dot_bits()[p];
        assert(dot_positions()[k] == p);
    }
    assert(dots_of(mask_of(dots)) =~= dots);
}

/// Unpacking a byte into dots and packing them gives the byte back.
pub proof fn lemma_mask_round_trip(mask: int)
    requires
        0 <= mask <= 255,
    ensures
        mask_of(dots_of(mask)) == mask,
{
    let dots = dots_of(mask);
    let m = mask as u8;
    lemma_digits_sum(m);
    assert(dot_value(dots, 0) == m % 2);
    assert(dot_value(dots, 2) == 2 * ((m / 2) % 2));
    assert(dot_value(dots, 4) == 4 * ((m / 4) % 2));
    assert(dot_value(dots, 1) == 8 * ((m / 8) % 2));
    assert(dot_value(dots, 3) == 16 * ((m / 16) % 2));
    assert(dot_value(dots, 5) == 32 * ((m / 32) % 2));
    assert(dot_value(dots, 6) == 64 * ((m / 64) % 2));
    assert(dot_value(dots, 7) == 128 * ((m / 128) % 2));
}

/// Packs eight dots, given row by row, into a mask.
pub fn dot_mask(dots: &[bool; 8]) -> (mask: u8)
    ensures
        mask == mask_of(dots@),
{
    let mut mask: u8 = 0;
    if dots[0] {
        mask = mask + 1;
    }
    if dots[2] {
        mask = mask + 2;
    }
    if dots[4] {
        mask = mask + 4;
    }
    if dots[1] {
        mask = mask + 8;
    }
    if dots[3] {
        mask = mask + 16;
    }
    if dots[5] {
        mask = mask + 32;
    }
    if dots[6] {
        mask = mask + 64;
    }
    if dots[7] {
        mask = mask + 128;
    }
    mask
}

/// Unpacks a mask into its eight dots, row by row.
pub fn mask_dots(mask: u8) -> (dots: [bool; 8])
    ensures
        dots@ == dots_of(mask as int),
{
    let dots = [
        mask % 2 == 1,
        (mask / 8) % 2 == 1,
        (mask / 2) % 2 == 1,
        (mask / 16) % 2 == 1,
        (mask / 4) % 2 == 1,
        (mask / 32) % 2 == 1,
        (mask / 64) % 2 == 1,
        (mask / 128) % 2 == 1,
    ];
    assert(dots@ =~= dots_of(mask as int));
    dots
}

/// The character that shows a mask.
pub fn braille_glyph(mask: u8, whitespace: bool) -> (glyph: char)
    ensures
        glyph == braille_char(mask as int, whitespace),
        mask != 0 ==> glyph as u32 == 0x2800 + mask,
{
    if mask == 0 {
        if whitespace {
            ' '
        } else {
            BRAILLE_PLACEHOLDER
        }
    } else {
        let code: u32 = BRAILLE_BASE + mask as u32;
        match char::from_u32(code) {
            Some(glyph) => glyph,
            None => BRAILLE_PLACEHOLDER,
        }
    }
}

/// Reads a byte written as eight binary digits.
pub fn parse_dots(bin: &str) -> (mask: Option<u8>)
    ensures
        mask is Some <==> is_bit_pattern(bin@),
        mask matches Some(value) ==> value == pattern_value(bin@),
{
    if bin.unicode_len() != 8 {
        return None;
    }
    let mut value: u8 = 0;
    let mut i: usize = 0;
    while i < 8
        invariant
            i <= 8,
            bin@.len() == 8,
            forall|j: int| 0 <= j < i ==> bin@[j] == '0' || bin@[j] == '1',
            value == pattern_value(bin@.take(i as int)),
            i < 8 ==> value <= 127,
        decreases 8 - i,
    {
        let digit = bin.get_char(i);
        if digit != '0' && digit != '1' {
            return None;
        }
        proof {
            assert(bin@.take(i + 1).drop_last() =~= bin@.take(i as int));
            lemma_pattern_bound(bin@.take(i as int));
        }
        value = 2 * value + if digit == '1' {
            1
        } else {
            0
        };
        i = i + 1;
        proof {
            lemma_pattern_bound(bin@.take(i as int));
        }
    }
    assert(bin@.take(8) =~= bin@);
    Some(value)
}

/// A text of `n` binary digits denotes a number below `2^n`.
pub proof fn lemma_pattern_bound(text: Seq<char>)
    requires
        text.len() <= 8,
    ensures
        0 <= pattern_value(text),
        text.len() == 0 ==> pattern_value(text) == 0,
        text.len() == 1 ==> pattern_value(text) < 2,
        text.len() == 2 ==> pattern_value(text) < 4,
        text.len() == 3 ==> pattern_value(text) < 8,
        text.len() == 4 ==> pattern_value(text) < 16,
        text.len() == 5 ==> pattern_value(text) < 32,
        text.len() == 6 ==> pattern_value(text) < 64,
        text.len() == 7 ==> pattern_value(text) < 128,
        text.len() == 8 ==> pattern_value(text) < 256,
    decreases text.len(),
{
    if text.len() > 0 {
        lemma_pattern_bound(text.drop_last());
    }
}

/// The character of a byte written as eight binary digits, the digit of dot 8
/// first and that of dot 1 last.
pub fn bin_to_braille(bin: &str, whitespace: bool) -> (glyph: char)
    requires
        is_bit_pattern(bin@),
    ensures
        glyph == braille_char(pattern_value(bin@), whitespace),
{
    match parse_dots(bin) {
        Some(mask) => braille_glyph(mask, whitespace),
        None => BRAILLE_PLACEHOLDER,
    }
}

} // verus!
