//! The character-level tokenizer, line by line.
use dpt::{CsvReader, CsvReaderOptions};

fn fields(line: &str) -> Option<Vec<String>> {
    let mut rdr = CsvReader::new();
    rdr.read_line(line)
}

#[test]
fn splits_plain_fields() {
    assert_eq!(fields("a,b,c\n"), Some(vec!["a".to_string(), "b".to_string(), "c".to_string()]));
}

#[test]
fn quoted_field_keeps_delimiter() {
    assert_eq!(fields("\"a,b\",c\n"), Some(vec!["a,b".to_string(), "c".to_string()]));
}

#[test]
fn doubled_quote_is_literal_quote() {
    // the round-trip scenario: a field holding both the delimiter and the
    // qualifier, quoted and escaped per rule, comes back exactly
    let original = "he said \"hi\", ok";
    let quoted = "\"he said \"\"hi\"\", ok\"\n";
    assert_eq!(fields(quoted), Some(vec![original.to_string()]));
}

#[test]
fn round_trip_of_tricky_fields() {
    for original in ["a\"b,c", "\"", ",", "x,\"\",y", ""] {
        let mut quoted = String::from("\"");
        for c in original.chars() {
            if c == '"' {
                quoted.push('"');
            }
            quoted.push(c);
        }
        quoted.push('"');
        quoted.push('\n');
        assert_eq!(fields(&quoted), Some(vec![original.to_string()]));
    }
}

#[test]
fn empty_line_yields_nothing() {
    assert_eq!(fields(""), None);
}

#[test]
fn bare_newline_yields_one_empty_field() {
    assert_eq!(fields("\n"), Some(vec!["".to_string()]));
}

#[test]
fn carriage_returns_are_discarded() {
    assert_eq!(fields("a\r,b\r\n"), Some(vec!["a".to_string(), "b".to_string()]));
}

#[test]
fn trailing_field_is_flushed_without_newline() {
    assert_eq!(fields("a,b"), Some(vec!["a".to_string(), "b".to_string()]));
}

#[test]
fn delimiters_make_empty_fields() {
    assert_eq!(fields(",,\n"), Some(vec!["".to_string(), "".to_string(), "".to_string()]));
}

#[test]
fn custom_delimiter_and_enclosure() {
    let mut rdr = CsvReader::with_options(CsvReaderOptions { delimiter: ';', text_enclosure: '\'' });
    assert_eq!(
        rdr.read_line("'a;b';c\n"),
        Some(vec!["a;b".to_string(), "c".to_string()])
    );
}
