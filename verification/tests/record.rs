use corpus_prep::entities::{EntityExtractor, Extraction};
use corpus_prep::error::PipelineError;
use corpus_prep::record::{
    append_fields, copy_fields, enrich, enriched_header, enrichment, find_column, RecordProcessor,
};
use corpus_prep::stopwords::StopwordSet;

fn fields(values: &[&str]) -> Vec<String> {
    values.iter().map(|v| v.to_string()).collect()
}

fn processor(drop_empty: bool) -> RecordProcessor {
    let extractor = match EntityExtractor::new() {
        Ok(e) => e,
        Err(e) => panic!("{}", e.message()),
    };
    let stopwords = StopwordSet::from_lines("the\nare\nto\non\na");
    match RecordProcessor::new(extractor, stopwords, fields(&["id", "content", "type"]), "content", drop_empty) {
        Ok(p) => p,
        Err(e) => panic!("{}", e.message()),
    }
}

#[test]
fn find_column_gives_the_first_position() {
    let header = fields(&["id", "content", "type", "content"]);
    assert_eq!(find_column(&header, "id"), Some(0));
    assert_eq!(find_column(&header, "content"), Some(1));
    assert_eq!(find_column(&header, "type"), Some(2));
    assert_eq!(find_column(&header, "Content"), None);
    assert_eq!(find_column(&header, ""), None);
    assert_eq!(find_column(&Vec::new(), "id"), None);
}

#[test]
fn enriched_header_appends_seven_names() {
    let header = enriched_header(&fields(&["id", "content", "type"]), "content");
    assert_eq!(
        header,
        fields(&[
            "id",
            "content",
            "type",
            "dates",
            "emails",
            "urls",
            "numbers",
            "content-tokens",
            "content-tokens_no_stop",
            "content-tokens_stemmed",
        ])
    );
    let other = enriched_header(&fields(&["body"]), "body");
    assert_eq!(other.len(), 8);
    assert_eq!(other[5], "body-tokens");
    assert_eq!(other[7], "body-tokens_stemmed");
}

#[test]
fn copy_and_append_fields() {
    let a = fields(&["x", "y"]);
    let mut b = copy_fields(&a);
    assert_eq!(a, b);
    append_fields(&mut b, fields(&["z"]));
    assert_eq!(b, fields(&["x", "y", "z"]));
    append_fields(&mut b, Vec::new());
    assert_eq!(b, fields(&["x", "y", "z"]));
}

#[test]
fn enrichment_joins_every_stage() {
    let found = Extraction {
        text: "the cats are running to <EMAIL> on <DATE>".to_string(),
        dates: fields(&["2024-01-05", "5 may"]),
        emails: fields(&["a@b.com"]),
        urls: Vec::new(),
        numbers: fields(&["1", "2", "3"]),
    };
    let stopwords = StopwordSet::from_lines("the\nare\nto\non");
    let values = enrichment(&found, &stopwords);
    assert_eq!(
        values,
        fields(&[
            "2024-01-05; 5 may",
            "a@b.com",
            "",
            "1; 2; 3",
            "the cats are running to <EMAIL> on <DATE>",
            "cats running <EMAIL> <DATE>",
            "cat run <EMAIL> <DATE>",
        ])
    );
}

#[test]
fn token_monotonicity() {
    let stopwords = StopwordSet::from_lines("the\nare");
    let texts = ["the cats are here", "no stopword here", "", "the the the", "<DATE> the"];
    let expected_equal = [false, true, true, false, false];
    let mut i = 0;
    while i < texts.len() {
        let found = Extraction {
            text: texts[i].to_string(),
            dates: Vec::new(),
            emails: Vec::new(),
            urls: Vec::new(),
            numbers: Vec::new(),
        };
        let values = enrichment(&found, &stopwords);
        let tokens = values[4].split_whitespace().count();
        let kept = values[5].split_whitespace().count();
        assert!(kept <= tokens);
        assert_eq!(kept == tokens, expected_equal[i], "{}", texts[i]);
        i += 1;
    }
}

#[test]
fn enrich_appends_or_drops() {
    let record = fields(&["1", "text"]);
    let kept = enrich(&record, fields(&["a", "b"]), true);
    assert_eq!(kept, Some(fields(&["1", "text", "a", "b"])));
    let dropped = enrich(&record, fields(&["a", ""]), true);
    assert_eq!(dropped, None);
    let not_dropped = enrich(&record, fields(&["a", ""]), false);
    assert_eq!(not_dropped, Some(fields(&["1", "text", "a", ""])));
    let nothing = enrich(&record, Vec::new(), true);
    assert_eq!(nothing, Some(fields(&["1", "text"])));
}

#[test]
fn processor_needs_the_text_column() {
    let extractor = EntityExtractor::new().unwrap();
    let r = RecordProcessor::new(extractor, StopwordSet::new(), fields(&["id", "content"]), "body", true);
    match r {
        Ok(_) => panic!("the column is not there"),
        Err(PipelineError::ColumnNotFound(name)) => assert_eq!(name, "body"),
        Err(other) => panic!("{:?}", other),
    }
}

#[test]
fn processor_output_header() {
    let header = processor(true).output_header();
    assert_eq!(header.len(), 10);
    assert_eq!(&header[..3], &fields(&["id", "content", "type"])[..]);
    assert_eq!(header[3], "dates");
    assert_eq!(header[9], "content-tokens_stemmed");
}

#[test]
fn process_text_gives_seven_fields() {
    let values = processor(true).process_text("The cats are running to a@b.com on 2024-01-05");
    assert_eq!(
        values,
        fields(&[
            "2024-01-05",
            "a@b.com",
            "",
            "",
            "the cats are running to <EMAIL> on <DATE>",
            "cats running <EMAIL> <DATE>",
            "cat run <EMAIL> <DATE>",
        ])
    );
}

#[test]
fn process_record_enriches() {
    let record = fields(&["7", "Visit www.example.com, 3 times!", "Reliable"]);
    let out = processor(true).process_record(&record, 0).unwrap().unwrap();
    assert_eq!(
        out,
        fields(&[
            "7",
            "Visit www.example.com, 3 times!",
            "Reliable",
            "",
            "",
            "www.example.com,",
            "3",
            "visit <URL> <NUMBER> times",
            "visit <URL> <NUMBER> times",
            "visit <URL> <NUMBER> time",
        ])
    );
}

#[test]
fn process_record_drops_a_record_without_stems() {
    let record = fields(&["1", "The ... are!!!", "fake"]);
    assert_eq!(processor(true).process_record(&record, 3).unwrap(), None);
    let empty = fields(&["1", "", "fake"]);
    assert_eq!(processor(true).process_record(&empty, 3).unwrap(), None);
}

#[test]
fn process_record_keeps_it_where_dropping_is_off() {
    let record = fields(&["1", "The ... are!!!", "fake"]);
    let out = processor(false).process_record(&record, 3).unwrap().unwrap();
    assert_eq!(out, fields(&["1", "The ... are!!!", "fake", "", "", "", "", "the are", "", ""]));
}

#[test]
fn process_record_rejects_a_short_record() {
    let record = fields(&["1", "text"]);
    match processor(true).process_record(&record, 4) {
        Err(PipelineError::MalformedRecord { row, found, expected }) => {
            assert_eq!(row, 4);
            assert_eq!(found, 2);
            assert_eq!(expected, 3);
        },
        other => panic!("{:?}", other),
    }
    let long = fields(&["1", "text", "fake", "extra"]);
    assert!(matches!(
        processor(true).process_record(&long, 0),
        Err(PipelineError::MalformedRecord { row: 0, found: 4, expected: 3 })
    ));
}

#[test]
fn process_all_keeps_order_and_drops() {
    let records = vec![
        fields(&["1", "Cats running", "reliable"]),
        fields(&["2", "the", "fake"]),
        fields(&["3", "Dogs", "satire"]),
    ];
    let out = processor(true).process_all(&records).unwrap();
    assert_eq!(out.len(), 2);
    assert_eq!(out[0][0], "1");
    assert_eq!(out[0][9], "cat run");
    assert_eq!(out[1][0], "3");
    assert_eq!(out[1][9], "dog");
    let all = processor(false).process_all(&records).unwrap();
    assert_eq!(all.len(), 3);
    assert_eq!(all[1][9], "");
    assert_eq!(processor(true).process_all(&Vec::new()).unwrap(), Vec::<Vec<String>>::new());
}

#[test]
fn process_all_stops_at_the_first_malformed_record() {
    let records = vec![
        fields(&["1", "Cats", "reliable"]),
        fields(&["2", "the"]),
        fields(&["3"]),
    ];
    match processor(true).process_all(&records) {
        Err(PipelineError::MalformedRecord { row, found, expected }) => {
            assert_eq!(row, 1);
            assert_eq!(found, 2);
            assert_eq!(expected, 3);
        },
        other => panic!("{:?}", other),
    }
}
