use ws_gateway::numeral::{digit_value, read_numeral};
use ws_gateway::text::{chars_of, is_whitespace, piece_is, split_fields, split_words};

#[test]
fn whitespace_is_the_ascii_kind() {
    for c in [' ', '\t', '\n', '\x0C', '\r'] {
        assert!(is_whitespace(c));
    }
    for c in ['a', '0', '\x0B', '\u{a0}', '\u{2003}', '\0'] {
        assert!(!is_whitespace(c));
    }
}

#[test]
fn words_are_found() {
    let chars = chars_of("  ADD \t10.0.0.5\n");
    assert_eq!(split_words(&chars), vec![(2, 5), (7, 15)]);
    assert_eq!(split_words(&chars_of("")), vec![]);
    assert_eq!(split_words(&chars_of(" \t ")), vec![]);
    assert_eq!(split_words(&chars_of("x")), vec![(0, 1)]);
    assert_eq!(split_words(&chars_of("a b c")), vec![(0, 1), (2, 3), (4, 5)]);
}

#[test]
fn fields_are_found() {
    let chars = chars_of("1.22..3");
    assert_eq!(split_fields(&chars, 0, 7, '.'), vec![(0, 1), (2, 4), (5, 5), (6, 7)]);
    assert_eq!(split_fields(&chars, 2, 4, '.'), vec![(2, 4)]);
    assert_eq!(split_fields(&chars, 3, 3, '.'), vec![(3, 3)]);
    assert_eq!(split_fields(&chars_of("."), 0, 1, '.'), vec![(0, 0), (1, 1)]);
    assert_eq!(split_fields(&chars_of(""), 0, 0, '.'), vec![(0, 0)]);
}

#[test]
fn pieces_are_compared() {
    let chars = chars_of("ADD REMOVE");
    assert!(piece_is(&chars, 0, 3, "ADD"));
    assert!(piece_is(&chars, 4, 10, "REMOVE"));
    assert!(!piece_is(&chars, 0, 3, "ADd"));
    assert!(!piece_is(&chars, 0, 2, "ADD"));
    assert!(piece_is(&chars, 5, 5, ""));
}

#[test]
fn digits_have_values() {
    assert_eq!(digit_value('0', 10), Some(0));
    assert_eq!(digit_value('9', 10), Some(9));
    assert_eq!(digit_value('a', 10), None);
    assert_eq!(digit_value('a', 16), Some(10));
    assert_eq!(digit_value('F', 16), Some(15));
    assert_eq!(digit_value('g', 16), None);
    assert_eq!(digit_value('/', 10), None);
    assert_eq!(digit_value(':', 16), None);
    assert_eq!(digit_value('٣', 10), None);
    assert_eq!(digit_value('7', 7), None);
    assert_eq!(digit_value('1', 17), None);
}

#[test]
fn numerals_are_read() {
    let chars = chars_of("0123 ffFF 18446744073709551615 18446744073709551616");
    assert_eq!(read_numeral(&chars, 0, 4, 10), Some(123));
    assert_eq!(read_numeral(&chars, 5, 9, 16), Some(0xffff));
    assert_eq!(read_numeral(&chars, 5, 9, 10), None);
    assert_eq!(read_numeral(&chars, 10, 30, 10), Some(u64::MAX));
    assert_eq!(read_numeral(&chars, 31, 51, 10), None);
    assert_eq!(read_numeral(&chars, 4, 4, 10), Some(0));
    assert_eq!(read_numeral(&chars, 3, 5, 10), None);
}
