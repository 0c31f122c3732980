use meli::wcwidth::code_points;
use meli::wcwidth::wcwidth;
use meli::wcwidth::wcwidth_cjk;
use meli::wcwidth::CodePointsIterator;

#[test]
fn width_basics() {
    assert_eq!(wcwidth(0), Some(0));
    assert_eq!(wcwidth(9), None);
    assert_eq!(wcwidth(0x7f), None);
    assert_eq!(wcwidth(0x41), Some(1));
    // a CJK ideograph takes two cells
    assert_eq!(wcwidth(0x4E00), Some(2));
    // Hangul syllables are wide
    assert_eq!(wcwidth(0xAC00), Some(2));
    // a combining mark gets one cell in this renderer
    assert_eq!(wcwidth(0x0300), Some(1));
}

#[test]
fn width_cjk_ambiguous() {
    // ambiguous characters count two cells in the CJK variant
    assert_eq!(wcwidth_cjk(0x00A7), Some(2));
    assert_eq!(wcwidth_cjk(0x4E00), Some(2));
}

#[test]
fn code_point_decoding() {
    assert_eq!(code_points(b"ab"), vec![97, 98]);
    // U+00E9 is C3 A9 in UTF-8
    assert_eq!(code_points(&[0x61, 0xC3, 0xA9]), vec![0x61, 0xE9]);
    // U+4E00 is E4 B8 80
    assert_eq!(code_points(&[0xE4, 0xB8, 0x80]), vec![0x4E00]);
    let mut it = CodePointsIterator { rest: b"hi" };
    assert_eq!(it.next(), Some(104));
    assert_eq!(it.next(), Some(105));
    assert_eq!(it.next(), None);
}
