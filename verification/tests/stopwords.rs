use corpus_prep::stopwords::{remove_stopwords, stopword, StopwordSet};

fn owned_words(words: &[&str]) -> Vec<String> {
    words.iter().map(|w| w.to_string()).collect()
}

#[test]
fn new_set_is_empty() {
    let set = StopwordSet::new();
    assert!(!set.contains("the"));
    assert!(!set.contains(""));
}

#[test]
fn insert_trims_and_lowers() {
    let mut set = StopwordSet::new();
    set.insert("  The \t");
    set.insert("AND");
    assert!(set.contains("the"));
    assert!(set.contains("and"));
    assert!(!set.contains("The"));
    assert!(!set.contains("  The \t"));
    assert!(!set.contains("or"));
}

#[test]
fn insert_lowers_beyond_ascii() {
    let mut set = StopwordSet::new();
    set.insert("\u{c9}T\u{c9}");
    assert!(set.contains("\u{e9}t\u{e9}"));
}

#[test]
fn from_lines_takes_each_line() {
    let set = StopwordSet::from_lines("The\n  and \nOF\r\nto");
    assert!(set.contains("the"));
    assert!(set.contains("and"));
    assert!(set.contains("of"));
    assert!(set.contains("to"));
    assert!(!set.contains("OF"));
    assert!(!set.contains("of\r"));
    assert!(!set.contains(""));
}

#[test]
fn from_lines_final_line_feed_adds_no_line() {
    let set = StopwordSet::from_lines("a\nb\n");
    assert!(set.contains("a"));
    assert!(set.contains("b"));
    assert!(!set.contains(""));
}

#[test]
fn from_lines_blank_line_is_the_empty_word() {
    let set = StopwordSet::from_lines("a\n\nb");
    assert!(set.contains(""));
    let none = StopwordSet::from_lines("");
    assert!(!none.contains(""));
    let one = StopwordSet::from_lines("\n");
    assert!(one.contains(""));
}

#[test]
fn from_lines_agrees_with_std_lines() {
    let text = "I\nme\n my \nMYSELF\n\nwe\r\nour\n";
    let set = StopwordSet::from_lines(text);
    for line in text.lines() {
        assert!(set.contains(&line.trim().to_lowercase()));
    }
    assert!(!set.contains("ours"));
}

#[test]
fn remove_stopwords_drops_them_and_keeps_order() {
    let set = StopwordSet::from_lines("the\nand\nis");
    let tokens = owned_words(&["the", "cat", "and", "the", "dog", "is", "cat"]);
    assert_eq!(remove_stopwords(tokens, &set), owned_words(&["cat", "dog", "cat"]));
}

#[test]
fn remove_stopwords_folds_case() {
    let set = StopwordSet::from_lines("the");
    let tokens = owned_words(&["The", "THE", "Then"]);
    assert_eq!(remove_stopwords(tokens, &set), owned_words(&["Then"]));
}

#[test]
fn remove_stopwords_never_drops_a_placeholder() {
    let mut set = StopwordSet::new();
    set.insert("<date>");
    set.insert("<url>");
    set.insert("x");
    let tokens = owned_words(&["<DATE>", "x", "<url>", "<URL>"]);
    assert_eq!(remove_stopwords(tokens, &set), owned_words(&["<DATE>", "<url>", "<URL>"]));
}

#[test]
fn remove_stopwords_never_grows() {
    let set = StopwordSet::from_lines("a\nb");
    let all = owned_words(&["a", "c", "b", "d", "a"]);
    let kept = remove_stopwords(all.clone(), &set);
    assert!(kept.len() <= all.len());
    assert_eq!(kept.len(), 2);
    let none = owned_words(&["c", "d", "<NUMBER>"]);
    let same = remove_stopwords(none.clone(), &set);
    assert_eq!(same, none);
    assert_eq!(remove_stopwords(Vec::new(), &set), Vec::<String>::new());
}

#[test]
fn stopword_tells_what_is_dropped() {
    let set = StopwordSet::from_lines("of\n<b>");
    assert!(stopword("of", &set));
    assert!(stopword("Of", &set));
    assert!(!stopword("off", &set));
    assert!(!stopword("<b>", &set));
}
