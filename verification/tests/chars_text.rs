use corpus_prep::chars::{letter, lower_ascii, permitted, string_of, string_of_range, to_chars, whitespace};
use corpus_prep::text::trim_bounds;

#[test]
fn whitespace_is_the_unicode_property() {
    let mut code: u32 = 0;
    while code <= 0x10FFFF {
        if let Some(c) = char::from_u32(code) {
            assert_eq!(whitespace(c), c.is_whitespace(), "U+{:04X}", code);
        }
        code += 1;
    }
}

#[test]
fn whitespace_examples() {
    assert!(whitespace(' '));
    assert!(whitespace('\t'));
    assert!(whitespace('\n'));
    assert!(whitespace('\u{a0}'));
    assert!(whitespace('\u{3000}'));
    assert!(!whitespace('a'));
    assert!(!whitespace('<'));
    assert!(!whitespace('\u{200b}'));
}

#[test]
fn letters_are_basic_latin() {
    assert!(letter('a'));
    assert!(letter('z'));
    assert!(letter('A'));
    assert!(letter('Z'));
    assert!(!letter('0'));
    assert!(!letter('\u{e9}'));
    assert!(!letter('['));
    assert!(!letter('`'));
}

#[test]
fn permitted_alphabet_is_letters_and_slash() {
    let mut code: u32 = 0;
    while code < 0x300 {
        if let Some(c) = char::from_u32(code) {
            assert_eq!(permitted(c), c.is_ascii_alphabetic() || c == '/');
        }
        code += 1;
    }
}

#[test]
fn lower_ascii_matches_std() {
    let mut code: u32 = 0;
    while code < 0x300 {
        if let Some(c) = char::from_u32(code) {
            assert_eq!(lower_ascii(c), c.to_ascii_lowercase());
        }
        code += 1;
    }
}

#[test]
fn chars_round_trip() {
    let text = "na\u{ef}ve <DATE> \u{1f600}!";
    let chars = to_chars(text);
    assert_eq!(chars.len(), text.chars().count());
    assert_eq!(string_of(&chars), text);
    assert_eq!(string_of(&to_chars("")), "");
}

#[test]
fn string_of_range_takes_the_stretch() {
    let chars = to_chars("hello world");
    assert_eq!(string_of_range(&chars, 6, 11), "world");
    assert_eq!(string_of_range(&chars, 3, 3), "");
    assert_eq!(string_of_range(&chars, 0, 5), "hello");
}

#[test]
fn trim_bounds_cut_both_ends() {
    let chars = to_chars(" \t the word \u{a0}\n");
    let n = chars.len();
    let (a, b) = trim_bounds(&chars, 0, n);
    assert_eq!(string_of_range(&chars, a, b), "the word");
    let blank = to_chars("   ");
    let (c, d) = trim_bounds(&blank, 0, 3);
    assert_eq!(c, d);
    let inner = to_chars("ab  cd  ef");
    let (e, f) = trim_bounds(&inner, 2, 8);
    assert_eq!(string_of_range(&inner, e, f), "cd");
}
