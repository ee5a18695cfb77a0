use corpus_prep::error::{push_decimal, PipelineError};

#[test]
fn message_of_column_not_found() {
    let e = PipelineError::ColumnNotFound("content".to_string());
    assert_eq!(e.message(), "Column 'content' not found");
}

#[test]
fn message_of_invalid_pattern() {
    let e = PipelineError::InvalidPattern("unclosed group".to_string());
    assert_eq!(e.message(), "Invalid entity pattern: unclosed group");
}

#[test]
fn message_of_malformed_record() {
    let e = PipelineError::MalformedRecord { row: 41, found: 2, expected: 10 };
    assert_eq!(e.message(), "Record 41 has 2 fields, expected 10");
}

#[test]
fn push_decimal_writes_digits() {
    for n in [0usize, 1, 9, 10, 11, 99, 100, 101, 12345, 1000000, usize::MAX].iter() {
        let mut out = String::from("n=");
        push_decimal(&mut out, *n);
        assert_eq!(out, format!("n={}", n));
    }
}
