use city_weather::binary64::Binary64;
use city_weather::error::MyError;
use city_weather::json::{required_number, required_text};

fn value(text: &str) -> serde_json::Value {
    serde_json::from_str(text).unwrap()
}

fn number(text: &str) -> f64 {
    match required_number(&value(text), "no number") {
        Ok(Binary64 { bits }) => f64::from_bits(bits),
        Err(error) => panic!("expected a number, got {:?}", error),
    }
}

#[test]
fn required_number_reads_every_kind_of_number() {
    assert_eq!(number("0"), 0.0);
    assert_eq!(number("-0.0").to_bits(), (-0.0f64).to_bits());
    assert_eq!(number("48.85"), 48.85);
    assert_eq!(number("-7"), -7.0);
    assert_eq!(number("2.5e-3"), 0.0025);
    assert_eq!(number("18446744073709551615"), 18446744073709551615u64 as f64);
    assert_eq!(number("-9223372036854775808"), i64::MIN as f64);
    assert_eq!(number("1.7976931348623157e308"), f64::MAX);
}

#[test]
fn required_number_reports_what_is_no_number() {
    for text in ["null", "true", "\"48.85\"", "[48.85]", "{\"lat\":48.85}"] {
        match required_number(&value(text), "Latitude is missing or not a float") {
            Err(MyError::MissingField(message)) => {
                assert_eq!(message, "Latitude is missing or not a float")
            }
            other => panic!("expected a missing field for {}, got {:?}", text, other),
        }
    }
}

#[test]
fn required_number_carries_the_given_message() {
    match required_number(&value("null"), "") {
        Err(MyError::MissingField(message)) => assert_eq!(message, ""),
        other => panic!("expected a missing field, got {:?}", other),
    }
}

#[test]
fn required_text_reads_strings() {
    assert_eq!(required_text(&value("\"clear sky\""), "no text").unwrap(), "clear sky");
    assert_eq!(required_text(&value("\"\""), "no text").unwrap(), "");
    assert_eq!(required_text(&value("\"a\\n\\u00e9\""), "no text").unwrap(), "a\n\u{e9}");
}

#[test]
fn required_text_reports_what_is_no_string() {
    for text in ["null", "true", "21.4", "[\"clear sky\"]", "{\"description\":\"mist\"}"] {
        match required_text(&value(text), "no text here") {
            Err(MyError::MissingField(message)) => assert_eq!(message, "no text here"),
            other => panic!("expected a missing field for {}, got {:?}", text, other),
        }
    }
}
