use madx_language::chars::{
    ascii_digit, ascii_letter, start_of, start_of_where, to_digit, word_char, word_char_where,
    Start,
};
use madx_language::numeral::truncate;

#[test]
fn ascii_classes() {
    for c in ['0', '5', '9'] {
        assert!(ascii_digit(c));
        assert!(!ascii_letter(c));
    }
    for c in ['a', 'z', 'A', 'Z', 'm'] {
        assert!(ascii_letter(c));
        assert!(!ascii_digit(c));
    }
    for c in ['/', ':', '@', '[', '`', '{', ' ', '\u{e9}', '\u{663}'] {
        assert!(!ascii_digit(c));
        assert!(!ascii_letter(c));
    }
}

#[test]
fn digits_have_their_value_in_every_base() {
    assert_eq!(to_digit('0', 10), Some(0));
    assert_eq!(to_digit('9', 10), Some(9));
    assert_eq!(to_digit('7', 8), Some(7));
    assert_eq!(to_digit('8', 8), None);
    assert_eq!(to_digit('a', 16), Some(10));
    assert_eq!(to_digit('F', 16), Some(15));
    assert_eq!(to_digit('g', 16), None);
    assert_eq!(to_digit('a', 10), None);
    assert_eq!(to_digit('z', 36), Some(35));
    assert_eq!(to_digit('Z', 36), Some(35));
    assert_eq!(to_digit('1', 0), None);
    assert_eq!(to_digit('\u{663}', 10), None);
    assert_eq!(to_digit(' ', 36), None);
}

#[test]
fn digits_agree_with_the_standard_library() {
    for base in [2, 8, 10, 16, 36] {
        for code in 0..0x300u32 {
            if let Some(c) = char::from_u32(code) {
                assert_eq!(to_digit(c, base), c.to_digit(base));
            }
        }
    }
}

#[test]
fn start_is_decided_by_ascii_first() {
    assert_eq!(start_of_where('7', true, false), Start::Number);
    assert_eq!(start_of_where('x', true, true), Start::Word);
    assert_eq!(start_of_where(' ', true, false), Start::Space);
    assert_eq!(start_of_where(' ', true, true), Start::Space);
    assert_eq!(start_of_where('\u{663}', false, true), Start::Number);
    assert_eq!(start_of_where('@', false, false), Start::Word);
}

#[test]
fn start_of_a_character() {
    assert_eq!(start_of('7'), Start::Number);
    assert_eq!(start_of('x'), Start::Word);
    assert_eq!(start_of(' '), Start::Space);
    assert_eq!(start_of('\n'), Start::Space);
    assert_eq!(start_of('\u{2003}'), Start::Space);
    assert_eq!(start_of('\u{663}'), Start::Number);
    assert_eq!(start_of('\u{bd}'), Start::Number);
    assert_eq!(start_of('\u{e9}'), Start::Word);
    assert_eq!(start_of('@'), Start::Word);
}

#[test]
fn start_agrees_with_the_standard_library() {
    for code in 0..0x3000u32 {
        if let Some(c) = char::from_u32(code) {
            let expected = if c.is_whitespace() {
                Start::Space
            } else if c.is_numeric() {
                Start::Number
            } else {
                Start::Word
            };
            assert_eq!(start_of(c), expected);
        }
    }
}

#[test]
fn characters_of_names() {
    assert!(word_char('a'));
    assert!(word_char('Z'));
    assert!(word_char('0'));
    assert!(word_char('\u{e9}'));
    assert!(word_char('\u{663}'));
    assert!(!word_char('_'));
    assert!(!word_char(' '));
    assert!(!word_char('+'));
    assert!(word_char_where('a', false));
    assert!(word_char_where('5', false));
    assert!(word_char_where('\u{e9}', true));
    assert!(!word_char_where('_', false));
    for code in 0..0x3000u32 {
        if let Some(c) = char::from_u32(code) {
            assert_eq!(word_char(c), c.is_alphanumeric());
        }
    }
}

#[test]
fn truncate_moves_the_point() {
    assert_eq!(truncate(12, &vec![3, 4], 0), 12);
    assert_eq!(truncate(12, &vec![3, 4], 1), 123);
    assert_eq!(truncate(12, &vec![3, 4], 2), 1234);
    assert_eq!(truncate(12, &vec![3, 4], 3), 12340);
    assert_eq!(truncate(12, &vec![3, 4], -1), 1);
    assert_eq!(truncate(12, &vec![3, 4], -2), 0);
    assert_eq!(truncate(0, &vec![0, 0, 7], 3), 7);
    assert_eq!(truncate(0, &vec![0, 0, 7], 2), 0);
    assert_eq!(truncate(0, &vec![], 1000), 0);
}

#[test]
fn truncate_stops_at_the_largest_integer() {
    assert_eq!(truncate(2147483647, &vec![], 0), 2147483647);
    assert_eq!(truncate(214748364, &vec![7], 1), 2147483647);
    assert_eq!(truncate(214748364, &vec![8], 1), 2147483647);
    assert_eq!(truncate(214748364, &vec![6], 1), 2147483646);
    assert_eq!(truncate(1, &vec![], 9), 1000000000);
    assert_eq!(truncate(1, &vec![], 10), 2147483647);
    assert_eq!(truncate(1, &vec![], i32::MAX), 2147483647);
    assert_eq!(truncate(u32::MAX, &vec![], 0), 2147483647);
    assert_eq!(truncate(u32::MAX, &vec![], -1), 429496729);
    assert_eq!(truncate(5, &vec![], i32::MIN), 0);
}
