use corpus_prep::entities::{
    classify, collect_kind, placeholder_text, substitute, EntityExtractor, EntityKind,
    ENTITY_PATTERN,
};
use corpus_prep::error::PipelineError;

fn texts(words: &[&str]) -> Vec<String> {
    words.iter().map(|w| w.to_string()).collect()
}

fn groups(parts: &[Option<&str>]) -> Vec<Option<String>> {
    parts.iter().map(|p| p.map(|t| t.to_string())).collect()
}

fn standard() -> EntityExtractor {
    match EntityExtractor::new() {
        Ok(extractor) => extractor,
        Err(e) => panic!("{}", e.message()),
    }
}

#[test]
fn placeholder_texts() {
    assert_eq!(placeholder_text(EntityKind::Date), "<DATE>");
    assert_eq!(placeholder_text(EntityKind::Email), "<EMAIL>");
    assert_eq!(placeholder_text(EntityKind::Url), "<URL>");
    assert_eq!(placeholder_text(EntityKind::Number), "<NUMBER>");
}

#[test]
fn classify_takes_the_first_group_that_took_part() {
    let date = classify(&groups(&[Some("x"), Some("d"), None, None, None])).unwrap();
    assert_eq!(date.kind, EntityKind::Date);
    assert_eq!(date.text, "d");
    let email = classify(&groups(&[Some("x"), None, Some("e"), None, None])).unwrap();
    assert_eq!(email.kind, EntityKind::Email);
    assert_eq!(email.text, "e");
    let url = classify(&groups(&[Some("x"), None, None, Some("u"), None])).unwrap();
    assert_eq!(url.kind, EntityKind::Url);
    assert_eq!(url.text, "u");
    let number = classify(&groups(&[Some("x"), None, None, None, Some("7")])).unwrap();
    assert_eq!(number.kind, EntityKind::Number);
    assert_eq!(number.text, "7");
}

#[test]
fn classify_gives_precedence_by_order() {
    let both = classify(&groups(&[Some("x"), None, Some("e"), Some("u"), Some("n")])).unwrap();
    assert_eq!(both.kind, EntityKind::Email);
    assert_eq!(both.text, "e");
    let all = classify(&groups(&[Some("x"), Some("d"), Some("e"), Some("u"), Some("n")])).unwrap();
    assert_eq!(all.kind, EntityKind::Date);
}

#[test]
fn classify_without_a_group_is_none() {
    assert!(classify(&groups(&[Some("x"), None, None, None, None])).is_none());
    assert!(classify(&groups(&[Some("x")])).is_none());
    assert!(classify(&groups(&[])).is_none());
    assert!(classify(&groups(&[Some("x"), None, None, None, None, Some("late")])).is_none());
    let short = classify(&groups(&[Some("x"), None, Some("e")])).unwrap();
    assert_eq!(short.kind, EntityKind::Email);
}

#[test]
fn substitute_weaves_placeholders_between_the_pieces() {
    let pieces = texts(&["mail ", " on ", ""]);
    let found = vec![
        groups(&[Some("a@b.com"), None, Some("a@b.com"), None, None]),
        groups(&[Some("2024-01-05"), Some("2024-01-05"), None, None, None]),
    ];
    let r = substitute(&pieces, &found);
    assert_eq!(r.text, "mail  <EMAIL>  on  <DATE> ");
    assert_eq!(r.dates, texts(&["2024-01-05"]));
    assert_eq!(r.emails, texts(&["a@b.com"]));
    assert_eq!(r.urls, Vec::<String>::new());
    assert_eq!(r.numbers, Vec::<String>::new());
}

#[test]
fn substitute_keeps_the_order_within_a_kind() {
    let pieces = texts(&["", ",", ",", ""]);
    let found = vec![
        groups(&[Some("3"), None, None, None, Some("3")]),
        groups(&[Some("x.io"), None, None, Some("x.io"), None]),
        groups(&[Some("1"), None, None, None, Some("1")]),
    ];
    let r = substitute(&pieces, &found);
    assert_eq!(r.text, " <NUMBER> , <URL> , <NUMBER> ");
    assert_eq!(r.numbers, texts(&["3", "1"]));
    assert_eq!(r.urls, texts(&["x.io"]));
}

#[test]
fn substitute_without_matches_is_the_one_piece() {
    let r = substitute(&texts(&["nothing to see"]), &Vec::new());
    assert_eq!(r.text, "nothing to see");
    assert!(r.dates.is_empty() && r.emails.is_empty() && r.urls.is_empty() && r.numbers.is_empty());
    let empty = substitute(&texts(&[""]), &Vec::new());
    assert_eq!(empty.text, "");
}

#[test]
fn substitute_match_without_kind_leaves_no_trace() {
    let pieces = texts(&["a", "b"]);
    let found = vec![groups(&[Some("zzz"), None, None, None, None])];
    let r = substitute(&pieces, &found);
    assert_eq!(r.text, "ab");
    assert!(r.dates.is_empty() && r.emails.is_empty() && r.urls.is_empty() && r.numbers.is_empty());
}

#[test]
fn substitute_is_total_on_uneven_input() {
    let more_pieces = substitute(&texts(&["a", "b", "c"]), &vec![groups(&[Some("1"), None, None, None, Some("1")])]);
    assert_eq!(more_pieces.text, "a <NUMBER> bc");
    let more_matches = substitute(
        &texts(&["a"]),
        &vec![groups(&[Some("1"), None, None, None, Some("1")]), groups(&[Some("2"), None, None, None, Some("2")])],
    );
    assert_eq!(more_matches.text, "a");
    assert_eq!(more_matches.numbers, texts(&["1", "2"]));
    let nothing = substitute(&Vec::new(), &Vec::new());
    assert_eq!(nothing.text, "");
}

#[test]
fn collect_kind_picks_one_kind() {
    let found = vec![
        groups(&[Some("1"), None, None, None, Some("1")]),
        groups(&[Some("d"), Some("d"), None, None, None]),
        groups(&[Some("2"), None, None, None, Some("2")]),
    ];
    assert_eq!(collect_kind(&found, EntityKind::Number), texts(&["1", "2"]));
    assert_eq!(collect_kind(&found, EntityKind::Date), texts(&["d"]));
    assert_eq!(collect_kind(&found, EntityKind::Url), Vec::<String>::new());
}

#[test]
fn entity_precedence() {
    let r = standard().extract("contact me at a@b.com on 2024-01-05");
    assert_eq!(r.dates, texts(&["2024-01-05"]));
    assert_eq!(r.emails, texts(&["a@b.com"]));
    assert_eq!(r.urls, Vec::<String>::new());
    assert_eq!(r.numbers, Vec::<String>::new());
    assert_eq!(r.text, "contact me at  <EMAIL>  on  <DATE> ");
}

#[test]
fn extract_empty_input() {
    let r = standard().extract("");
    assert_eq!(r.text, "");
    assert!(r.dates.is_empty() && r.emails.is_empty() && r.urls.is_empty() && r.numbers.is_empty());
}

#[test]
fn extract_text_without_entities_passes_unchanged() {
    let text = "no entities here, just words & signs!";
    let r = standard().extract(text);
    assert_eq!(r.text, text);
    assert!(r.dates.is_empty() && r.emails.is_empty() && r.urls.is_empty() && r.numbers.is_empty());
}

#[test]
fn extract_again_finds_nothing_more() {
    let extractor = standard();
    let first = extractor.extract("contact me at a@b.com on 2024-01-05, see www.x.org or call 555");
    assert_eq!(first.text, "contact me at  <EMAIL>  on  <DATE> , see  <URL>  or call  <NUMBER> ");
    let second = extractor.extract(&first.text);
    assert_eq!(second.text, first.text);
    assert!(second.dates.is_empty());
    assert!(second.emails.is_empty());
    assert!(second.urls.is_empty());
    assert!(second.numbers.is_empty());
}

#[test]
fn extract_placeholders_alone_match_nothing() {
    let extractor = standard();
    for text in ["<DATE>", "<EMAIL>", "<URL>", "<NUMBER>", " <DATE>  <EMAIL>  <URL>  <NUMBER> "].iter() {
        let r = extractor.extract(text);
        assert_eq!(&r.text, text);
        assert!(r.dates.is_empty() && r.emails.is_empty() && r.urls.is_empty() && r.numbers.is_empty());
    }
}

#[test]
fn extract_date_forms() {
    let extractor = standard();
    let cases = [
        ("2024-01-05", "2024-01-05"),
        ("05/01/2024", "05/01/2024"),
        ("05.01.2024", "05.01.2024"),
        ("january 5, 2024", "january 5, 2024"),
        ("jan 5 2024", "jan 5 2024"),
        ("5 january", "5 january"),
        ("5th of january", "5th of january"),
        ("21st march", "21st march"),
    ];
    for (text, date) in cases.iter() {
        let r = extractor.extract(&format!("on {} we met", text));
        assert_eq!(r.dates, texts(&[date]), "{}", text);
        assert_eq!(r.text, "on  <DATE>  we met", "{}", text);
        assert!(r.numbers.is_empty(), "{}", text);
    }
}

#[test]
fn extract_url_forms() {
    let extractor = standard();
    let r = extractor.extract("see https://example.com/a/b?q=1 and www.test.org or example.net/path now");
    assert_eq!(r.urls, texts(&["https://example.com/a/b?q=1", "www.test.org", "example.net/path"]));
    assert_eq!(r.text, "see  <URL>  and  <URL>  or  <URL>  now");
    let plain = extractor.extract("http://a.b");
    assert_eq!(plain.urls, texts(&["http://a.b"]));
    assert_eq!(plain.text, " <URL> ");
}

#[test]
fn extract_numbers() {
    let r = standard().extract("i have 42 apples and 007 pears");
    assert_eq!(r.numbers, texts(&["42", "007"]));
    assert_eq!(r.text, "i have  <NUMBER>  apples and  <NUMBER>  pears");
    let glued = standard().extract("abc123 x9");
    assert!(glued.numbers.is_empty());
    assert_eq!(glued.text, "abc123 x9");
}

#[test]
fn extract_date_wins_over_number() {
    let r = standard().extract("2024-01-05 2024");
    assert_eq!(r.dates, texts(&["2024-01-05"]));
    assert_eq!(r.numbers, texts(&["2024"]));
    assert_eq!(r.text, " <DATE>   <NUMBER> ");
}

#[test]
fn extract_email_wins_over_url() {
    let r = standard().extract("john.doe@mail.example.org");
    assert_eq!(r.emails, texts(&["john.doe@mail.example.org"]));
    assert!(r.urls.is_empty());
    assert_eq!(r.text, " <EMAIL> ");
}

#[test]
fn extract_handles_text_beyond_ascii() {
    let r = standard().extract("caf\u{e9} \u{2014} \u{fc}ber 12 \u{1f600} a@b.de");
    assert_eq!(r.numbers, texts(&["12"]));
    assert_eq!(r.emails, texts(&["a@b.de"]));
    assert_eq!(r.text, "caf\u{e9} \u{2014} \u{fc}ber  <NUMBER>  \u{1f600}  <EMAIL> ");
}

#[test]
fn pattern_compiles() {
    assert!(EntityExtractor::new().is_ok());
    assert!(EntityExtractor::with_pattern(ENTITY_PATTERN).is_ok());
}

#[test]
fn invalid_pattern_is_an_error() {
    match EntityExtractor::with_pattern("(unclosed") {
        Ok(_) => panic!("the pattern must not compile"),
        Err(PipelineError::InvalidPattern(why)) => assert!(!why.is_empty()),
        Err(other) => panic!("{:?}", other),
    }
}

#[test]
fn with_pattern_uses_the_groups_by_position() {
    let extractor = match EntityExtractor::with_pattern("(x+)|(y+)|(z+)|(w+)") {
        Ok(e) => e,
        Err(e) => panic!("{}", e.message()),
    };
    let r = extractor.extract("a xx b y c zzz d w e");
    assert_eq!(r.text, "a  <DATE>  b  <EMAIL>  c  <URL>  d  <NUMBER>  e");
    assert_eq!(r.dates, texts(&["xx"]));
    assert_eq!(r.emails, texts(&["y"]));
    assert_eq!(r.urls, texts(&["zzz"]));
    assert_eq!(r.numbers, texts(&["w"]));
}

#[test]
fn extract_again_can_find_what_stood_against_a_match() {
    let extractor = standard();
    let first = extractor.extract("a.com5");
    assert_eq!(first.urls, texts(&["a.com"]));
    assert!(first.numbers.is_empty());
    assert_eq!(first.text, " <URL> 5");
    let second = extractor.extract(&first.text);
    assert_eq!(second.numbers, texts(&["5"]));
    assert_eq!(second.text, " <URL>  <NUMBER> ");
}

#[test]
fn from_compiled_takes_either_outcome() {
    let good = EntityExtractor::from_compiled(regex::Regex::new("(a)|(b)|(c)|(d)"));
    let extractor = match good {
        Ok(e) => e,
        Err(e) => panic!("{}", e.message()),
    };
    assert_eq!(extractor.extract("xbx").emails, texts(&["b"]));
    let bad = EntityExtractor::from_compiled(regex::Regex::new("["));
    match bad {
        Err(PipelineError::InvalidPattern(why)) => assert!(!why.is_empty()),
        other => panic!("{:?}", other.map(|_| ())),
    }
}

#[test]
fn extract_agrees_with_replace_all() {
    let pattern = regex::Regex::new(ENTITY_PATTERN).unwrap();
    let extractor = standard();
    let corpus = [
        "contact me at a@b.com on 2024-01-05",
        "on 5th of january 2021 visit http://news.example.org/a?b=c (or www.x.io) and call 12345",
        "plain words only",
        "",
        "a.com5 and 1.2.3.4 and x@y",
        "dec 25, 2020; 01/02/2003; 04.05.2006; 7 feb; mail: first.last+tag@sub.domain.co",
        "\u{fc}ber 3 caf\u{e9}s \u{2014} see example.com/\u{e9}t\u{e9} now",
        "  <DATE>  <EMAIL>  <URL>  <NUMBER>  ",
    ];
    for text in corpus.iter() {
        let mut dates: Vec<String> = Vec::new();
        let mut emails: Vec<String> = Vec::new();
        let mut urls: Vec<String> = Vec::new();
        let mut numbers: Vec<String> = Vec::new();
        let expected = pattern
            .replace_all(text, |caps: &regex::Captures<'_>| {
                if let Some(m) = caps.get(1) {
                    dates.push(m.as_str().to_string());
                    " <DATE> "
                } else if let Some(m) = caps.get(2) {
                    emails.push(m.as_str().to_string());
                    " <EMAIL> "
                } else if let Some(m) = caps.get(3) {
                    urls.push(m.as_str().to_string());
                    " <URL> "
                } else if let Some(m) = caps.get(4) {
                    numbers.push(m.as_str().to_string());
                    " <NUMBER> "
                } else {
                    ""
                }
            })
            .to_string();
        let r = extractor.extract(text);
        assert_eq!(r.text, expected, "{}", text);
        assert_eq!(r.dates, dates, "{}", text);
        assert_eq!(r.emails, emails, "{}", text);
        assert_eq!(r.urls, urls, "{}", text);
        assert_eq!(r.numbers, numbers, "{}", text);
    }
}

#[test]
fn compact_pattern_agrees_with_the_verbose_form() {
    let verbose = regex::Regex::new(
        r#"(?xi)
        (\b\d{4}-\d{2}-\d{2}\b|
        \b\d{2}/\d{2}/\d{4}\b|
        \b\d{2}\.\d{2}\.\d{4}\b|
        \b(?:jan|feb|mar|apr|may|jun|jul|aug|sep|oct|nov|dec)[a-z]*\s\d{1,2},?\s\d{4}\b|
        \b\d{1,2}\s(?:jan|feb|mar|apr|may|jun|jul|aug|sep|oct|nov|dec)[a-z]*\b|
        \b\d{1,2}(?:st|nd|rd|th)?\s(?:of\s)?(?:jan|feb|mar|apr|may|jun|jul|aug|sep|oct|nov|dec)[a-z]*\b)|
        (\b[A-Za-z0-9._%+-]+@[A-Za-z0-9.-]+\.[A-Za-z]{2,}\b)|
        (
            https?://[^\s)\]}'<>"]+|
            www\.[^\s)\]}'<>"]+|
            \b[a-z0-9-]+\.[a-z]{2,}(?:/[^\s)\]}'<>"]*)*
        )|
        (\b\d+\b)
    "#,
    )
    .unwrap();
    let compact = regex::Regex::new(ENTITY_PATTERN).unwrap();
    let corpus = [
        "contact me at a@b.com on 2024-01-05",
        "on 5th of january 2021 visit http://news.example.org/a?b=c (or www.x.io) and call 12345",
        "dec 25, 2020; 01/02/2003; 04.05.2006; 7 feb; mail: first.last+tag@sub.domain.co",
        "a b  c\td 1 2 3 x.yz/w 'q' <r> \"s\" {t} [u] (v)",
        "MAY 5, 2020 and May 6 2021 HTTP://UP.CASE WWW.UP.CASE",
    ];
    for text in corpus.iter() {
        let left: Vec<Vec<Option<&str>>> = verbose
            .captures_iter(text)
            .map(|c| c.iter().map(|g| g.map(|m| m.as_str())).collect())
            .collect();
        let right: Vec<Vec<Option<&str>>> = compact
            .captures_iter(text)
            .map(|c| c.iter().map(|g| g.map(|m| m.as_str())).collect())
            .collect();
        assert_eq!(left, right, "{}", text);
    }
}
