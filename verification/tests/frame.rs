use img_to_ascii::frame::push_line;
use img_to_ascii::frame::trimmed_len;
use img_to_ascii::intensity::quantize;

#[test]
fn trimming_stops_at_the_last_glyph() {
    assert_eq!(trimmed_len(&vec!['a', ' ', 'b', ' ', ' ']), 3);
    assert_eq!(trimmed_len(&vec![' ', ' ', 'b']), 3);
    assert_eq!(trimmed_len(&vec![' ', ' ', ' ']), 0);
    assert_eq!(trimmed_len(&Vec::new()), 0);
}

#[test]
fn trimming_takes_spaces_only() {
    assert_eq!(trimmed_len(&vec!['a', '\t']), 2);
    assert_eq!(trimmed_len(&vec!['a', '\u{2800}']), 2);
    assert_eq!(trimmed_len(&vec!['a', '\u{00A0}']), 2);
    assert_eq!(trimmed_len(&vec!['a', '\n', ' ']), 2);
}

#[test]
fn a_pushed_line_ends_in_a_terminator() {
    let mut text = String::from("x");
    push_line(&mut text, &vec!['a', ' ', ' '], true);
    assert_eq!(text, "xa\n");
    push_line(&mut text, &vec!['b', ' '], false);
    assert_eq!(text, "xa\nb \n");
    push_line(&mut text, &vec![' '], true);
    assert_eq!(text, "xa\nb \n\n");
    push_line(&mut text, &Vec::new(), false);
    assert_eq!(text, "xa\nb \n\n\n");
}

#[test]
fn quantize_beyond_the_brightest_luma() {
    assert_eq!(quantize(255_001, 5), 4);
    assert_eq!(quantize(u32::MAX, 5), 4);
    assert_eq!(quantize(u32::MAX, 1), 0);
    let sections = u32::MAX as u128 * (usize::MAX as u128 + 1) / 255_000;
    let expected = (sections - 1).min(usize::MAX as u128 - 1) as usize;
    assert_eq!(quantize(u32::MAX, usize::MAX), expected);
    assert_eq!(quantize(0, usize::MAX), 0);
}
