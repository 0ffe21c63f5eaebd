use media_catalog::coerce::{parse_i32, parse_i64, NEParse};
use media_catalog::value::{infer_value, FieldValue, check_decimal_lexeme};
use media_catalog::timefmt::{parse_rfc3339, format_rfc3339_secs, Timestamp, opt_naive_datetime_to_utc_opt_string};

#[test]
fn infer_unquoted_integer() {
    match infer_value("42") {
        FieldValue::Int(v) => assert_eq!(v, 42),
        _ => panic!("an unquoted 42 must become an integer"),
    }
}

#[test]
fn infer_quoted_string_stays_text() {
    match infer_value("\"42\"") {
        FieldValue::Str(s) => assert_eq!(s, "42"),
        _ => panic!("a quoted 42 must stay a string"),
    }
}

#[test]
fn infer_unquoted_true_becomes_boolean() {
    match infer_value("true") {
        FieldValue::Bool(b) => assert!(b),
        _ => panic!("a bare true must become a boolean"),
    }
}

#[test]
fn infer_quoted_true_stays_text() {
    match infer_value("\"true\"") {
        FieldValue::Str(s) => assert_eq!(s, "true"),
        _ => panic!("a quoted true must stay a string"),
    }
}

#[test]
fn infer_false_becomes_boolean() {
    match infer_value("false") {
        FieldValue::Bool(b) => assert!(!b),
        _ => panic!("a bare false must become a boolean"),
    }
}

#[test]
fn infer_rfc3339_becomes_datetime() {
    match infer_value("2024-07-27T15:50:50Z") {
        FieldValue::DateTime(_) => {}
        _ => panic!("an RFC3339 stamp must parse as a datetime"),
    }
}

#[test]
fn infer_plain_word_stays_text() {
    let v = infer_value("hello");
    assert_eq!(v.as_str(), Some("hello"));
    match v {
        FieldValue::Str(s) => assert_eq!(s, "hello"),
        _ => panic!("plain text must stay a string"),
    }
    assert_eq!(infer_value("17").as_str(), None);
}

#[test]
fn infer_decimal_fraction_keeps_lexeme() {
    match infer_value("3.25") {
        FieldValue::FloatText(s) => assert_eq!(s, "3.25"),
        _ => panic!("a decimal fraction keeps its text"),
    }
}

#[test]
fn decimal_lexeme_recognizer() {
    assert!(check_decimal_lexeme("3.25"));
    assert!(check_decimal_lexeme("-0.5"));
    assert!(!check_decimal_lexeme("3"));
    assert!(!check_decimal_lexeme("3.2.5"));
    assert!(!check_decimal_lexeme(".5"));
    assert!(!check_decimal_lexeme("a.b"));
}

#[test]
fn parse_i32_accepts_signs_and_bounds() {
    assert_eq!(parse_i32("42"), Some(42));
    assert_eq!(parse_i32("+42"), Some(42));
    assert_eq!(parse_i32("-42"), Some(-42));
    assert_eq!(parse_i32("2147483647"), Some(i32::MAX));
    assert_eq!(parse_i32("-2147483648"), Some(i32::MIN));
    assert_eq!(parse_i32("2147483648"), None);
    assert_eq!(parse_i32(""), None);
    assert_eq!(parse_i32("-"), None);
    assert_eq!(parse_i32("4 2"), None);
    assert_eq!(parse_i32("12a"), None);
}

#[test]
fn parse_i64_matches_std() {
    for s in ["0", "-1", "9223372036854775807", "-9223372036854775808",
        "9223372036854775808", "junk", "007"] {
        assert_eq!(parse_i64(s), s.parse::<i64>().ok(), "mismatch on {s}");
    }
}

#[test]
fn ne_parse_opt_conversions() {
    assert_eq!(NEParse::opt_immut_str_to_opt_i32(Some("7")), Some(7));
    assert_eq!(NEParse::opt_immut_str_to_opt_i32(Some("x")), None);
    assert_eq!(NEParse::opt_immut_str_to_opt_i32(None), None);
    assert_eq!(NEParse::opt_immut_str_to_option_string(Some("a")), Some("a".to_string()));
    assert_eq!(NEParse::opt_immut_str_to_option_string(None), None);
    assert_eq!(NEParse::opt_immut_str_to_option_bool(Some("true")), Some(true));
    assert_eq!(NEParse::opt_immut_str_to_option_bool(Some("false")), Some(false));
    assert_eq!(NEParse::opt_immut_str_to_option_bool(Some("yes")), None);
}

#[test]
fn rfc3339_parse_and_render() {
    let t = parse_rfc3339("2024-07-27T15:50:50Z").expect("must parse");
    let rendered = format_rfc3339_secs(t.secs).expect("must render");
    assert_eq!(rendered, "2024-07-27T15:50:50Z");
    assert!(parse_rfc3339("not a date").is_none());
    let again = opt_naive_datetime_to_utc_opt_string(Some(Timestamp { secs: t.secs }));
    assert_eq!(again, Some("2024-07-27T15:50:50Z".to_string()));
    assert_eq!(opt_naive_datetime_to_utc_opt_string(None), None);
}

#[test]
fn rfc3339_render_truncates_to_seconds() {
    let t = parse_rfc3339("2024-07-27T15:50:50.750Z").expect("must parse");
    let rendered = format_rfc3339_secs(t.secs).expect("must render");
    assert_eq!(rendered, "2024-07-27T15:50:50Z");
}
