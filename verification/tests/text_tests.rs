use rustshooter::text::{
    contains_char, decimal_string, digit, hex_digit, is_whitespace, leading_words, line_end,
    pop_char, push_all, push_char, push_decimal, push_hex2, push_padded, slice_chars,
    string_from, string_of_range, to_chars, trim, trim_bounds, word_end,
};

#[test]
fn whitespace_matches_std() {
    for c in [' ', '\t', '\n', '\r', '\u{0b}', '\u{0c}', '\u{85}', '\u{a0}', '\u{2003}', '\u{3000}'] {
        assert!(is_whitespace(c), "{:?}", c);
        assert_eq!(is_whitespace(c), c.is_whitespace());
    }
    for c in ['a', '0', ':', '\u{200b}', '\u{feff}'] {
        assert!(!is_whitespace(c), "{:?}", c);
        assert_eq!(is_whitespace(c), c.is_whitespace());
    }
}

#[test]
fn trimming() {
    assert_eq!(trim("  hello world \n"), "hello world");
    assert_eq!(trim(""), "");
    assert_eq!(trim(" \t "), "");
    assert_eq!(trim("x"), "x");
    let v = to_chars("  ab ");
    assert_eq!(trim_bounds(&v), (2, 4));
    let v = to_chars("   ");
    let (a, b) = trim_bounds(&v);
    assert_eq!(a, b);
}

#[test]
fn decimal_and_hex_rendering() {
    assert_eq!(decimal_string(0), "0");
    assert_eq!(decimal_string(7777), "7777");
    assert_eq!(decimal_string(u64::MAX), u64::MAX.to_string());
    assert_eq!(digit(9), '9');
    assert_eq!(hex_digit(11), 'b');
    let mut s = string_from("0x");
    push_hex2(&mut s, 0x0f);
    push_hex2(&mut s, 0xa0);
    assert_eq!(s, "0x0fa0");
    let mut s = String::new();
    push_decimal(&mut s, 120);
    assert_eq!(s, "120");
}

#[test]
fn padding_to_width() {
    let mut s = String::new();
    push_padded(&mut s, "ab", 5);
    assert_eq!(s, "ab   ");
    let mut s = String::new();
    push_padded(&mut s, "abcdef", 3);
    assert_eq!(s, "abcdef");
    let mut s = string_from(">");
    push_padded(&mut s, "é", 3);
    assert_eq!(s, ">é  ");
}

#[test]
fn pushing_and_popping_characters() {
    let mut s = String::new();
    push_char(&mut s, 'a');
    push_char(&mut s, 'ß');
    push_all(&mut s, "cd");
    assert_eq!(s, "aßcd");
    assert_eq!(pop_char(&mut s), Some('d'));
    assert_eq!(pop_char(&mut s), Some('c'));
    assert_eq!(pop_char(&mut s), Some('ß'));
    assert_eq!(s, "a");
    let mut e = String::new();
    assert_eq!(pop_char(&mut e), None);
    assert_eq!(e, "");
}

#[test]
fn ranges_and_words() {
    let v = to_chars("ab cd\nef");
    assert_eq!(string_of_range(&v, 3, 5), "cd");
    assert_eq!(slice_chars(&v, 0, 2), vec!['a', 'b']);
    assert_eq!(word_end(&v, 0), 2);
    assert_eq!(word_end(&v, 2), 2);
    assert_eq!(line_end(&v, 0), 5);
    assert_eq!(line_end(&v, 6), 8);
    assert!(contains_char(&v, '\n'));
    assert!(!contains_char(&v, ':'));
    let v = to_chars("  1.0   2.5 -3 extra ");
    let n = v.len();
    assert_eq!(leading_words(&v, 0, n, 3), vec!["1.0", "2.5", "-3"]);
    assert_eq!(leading_words(&v, 0, n, 10), vec!["1.0", "2.5", "-3", "extra"]);
    assert_eq!(leading_words(&v, 0, 3, 3), vec!["1"]);
}
