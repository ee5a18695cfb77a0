use corpus_prep::tokens::{join, placeholder, tokenize};

fn owned_tokens(words: &[&str]) -> Vec<String> {
    words.iter().map(|w| w.to_string()).collect()
}

#[test]
fn tokenize_splits_on_runs_of_whitespace() {
    assert_eq!(tokenize("  hello   world "), owned_tokens(&["hello", "world"]));
    assert_eq!(tokenize("a\tb\nc\r\nd"), owned_tokens(&["a", "b", "c", "d"]));
    assert_eq!(tokenize("one"), owned_tokens(&["one"]));
}

#[test]
fn tokenize_of_nothing_is_nothing() {
    assert_eq!(tokenize(""), Vec::<String>::new());
    assert_eq!(tokenize(" \n\t "), Vec::<String>::new());
}

#[test]
fn tokenize_knows_unicode_whitespace() {
    assert_eq!(tokenize("a\u{a0}b\u{2003}c"), owned_tokens(&["a", "b", "c"]));
}

#[test]
fn tokenize_agrees_with_split_whitespace() {
    let texts = [
        "the quick  brown fox",
        " leading and trailing ",
        "tabs\tand\nnewlines",
        "<DATE> and <EMAIL>",
        "mixed \u{2028} separators \u{85} here",
        "",
    ];
    for text in texts.iter() {
        let expected: Vec<String> = text.split_whitespace().map(|w| w.to_string()).collect();
        assert_eq!(tokenize(text), expected);
    }
}

#[test]
fn tokenize_keeps_punctuation_in_tokens() {
    assert_eq!(tokenize("don't stop, now!"), owned_tokens(&["don't", "stop,", "now!"]));
}

#[test]
fn join_puts_the_separator_between() {
    assert_eq!(join(&owned_tokens(&["a", "b", "c"]), " "), "a b c");
    assert_eq!(join(&owned_tokens(&["2024-01-05", "5 may"]), "; "), "2024-01-05; 5 may");
    assert_eq!(join(&owned_tokens(&["x"]), "; "), "x");
    assert_eq!(join(&owned_tokens(&[]), "; "), "");
    assert_eq!(join(&owned_tokens(&["", ""]), "-"), "-");
}

#[test]
fn join_then_tokenize_gives_the_tokens_back() {
    let tokens = owned_tokens(&["alpha", "<URL>", "beta/gamma", "x"]);
    assert_eq!(tokenize(&join(&tokens, " ")), tokens);
}

#[test]
fn placeholder_is_bounded_by_angle_brackets() {
    assert!(placeholder("<DATE>"));
    assert!(placeholder("<EMAIL>"));
    assert!(placeholder("<URL>"));
    assert!(placeholder("<NUMBER>"));
    assert!(placeholder("<>"));
    assert!(placeholder("<anything>"));
    assert!(!placeholder("<"));
    assert!(!placeholder(">"));
    assert!(!placeholder(""));
    assert!(!placeholder("date"));
    assert!(!placeholder("<DATE"));
    assert!(!placeholder("DATE>"));
}
