use radiome::error::Error;
use radiome::json::{parse, JsonValue};
use radiome::text::decimal;

#[test]
fn parses_nested_values_and_whitespace() {
    let value = parse(" {\"a\": [1, true, false, null, \"x\"], \"b\": {}} \n").unwrap();
    let a = value.object_get("a").unwrap().as_array().unwrap();
    assert_eq!(a.len(), 5);
    assert_eq!(a[0].as_i64(), Some(1));
    assert!(matches!(a[1], JsonValue::Bool(true)));
    assert!(matches!(a[2], JsonValue::Bool(false)));
    assert!(matches!(a[3], JsonValue::Null));
    assert_eq!(a[4].as_str(), Some("x"));
    assert_eq!(value.object_get("b").unwrap().as_object().unwrap().len(), 0);
    assert!(value.object_get("c").is_none());
    assert!(a[0].object_get("a").is_none());
}

#[test]
fn later_members_replace_earlier_ones() {
    let value = parse(r#"{"k": 1, "j": 2, "k": 3}"#).unwrap();
    assert_eq!(value.object_get("k").unwrap().as_i64(), Some(3));
    assert_eq!(value.as_object().unwrap().len(), 2);
}

#[test]
fn decodes_escapes_and_surrogate_pairs() {
    let value = parse(r#""a\"\\\/\b\f\n\r\t\u0041\u00e9\ud83c\udfb5""#).unwrap();
    assert_eq!(value.as_str(), Some("a\"\\/\u{8}\u{c}\n\r\tAé🎵"));
    let value = parse("\"Артист 音楽\"").unwrap();
    assert_eq!(value.as_str(), Some("Артист 音楽"));
}

#[test]
fn reports_each_kind_of_syntax_error() {
    assert!(matches!(parse(""), Err(Error::UnexpectedEnd)));
    assert!(matches!(parse("   "), Err(Error::UnexpectedEnd)));
    assert!(matches!(parse("x"), Err(Error::UnexpectedToken('x'))));
    assert!(matches!(parse("1 2"), Err(Error::TrailingInput)));
    assert!(matches!(parse("[1 2]"), Err(Error::Expected(',', Some('2')))));
    assert!(matches!(parse("[1"), Err(Error::Expected(',', None))));
    assert!(matches!(parse("{\"a\" 1}"), Err(Error::Expected(':', Some('1')))));
    assert!(matches!(parse("tru"), Err(Error::Expected('e', None))));
    assert!(matches!(parse("nul!"), Err(Error::Expected('l', Some('!')))));
    assert!(matches!(parse("\"abc"), Err(Error::UnterminatedString)));
    assert!(matches!(parse("\"a\\"), Err(Error::UnterminatedEscape)));
    assert!(matches!(parse("\"\\x\""), Err(Error::InvalidEscape('x'))));
    assert!(matches!(parse("\"\\u12"), Err(Error::UnterminatedUnicodeEscape)));
    assert!(matches!(parse("\"\\u12G4\""), Err(Error::InvalidUnicodeEscape)));
    assert!(matches!(parse("\"\\udc00\""), Err(Error::InvalidUnicodeEscape)));
    assert!(matches!(parse("\"\\ud800x\""), Err(Error::MissingLowSurrogate)));
    assert!(matches!(parse("\"\\ud800\\u0041\""), Err(Error::InvalidSurrogatePair)));
    match parse("-") {
        Err(Error::InvalidNumber(text)) => assert_eq!(text, "-"),
        other => panic!("unexpected {other:?}"),
    }
    match parse("1e+-5") {
        Err(Error::InvalidNumber(text)) => assert_eq!(text, "1e+-5"),
        other => panic!("unexpected {other:?}"),
    }
    assert!(matches!(parse("1e"), Err(Error::InvalidNumber(_))));
}

#[test]
fn numbers_keep_their_text_and_read_as_exact_integers() {
    let int = |text: &str| parse(text).unwrap().as_i64();
    assert_eq!(int("0"), Some(0));
    assert_eq!(int("-0"), Some(0));
    assert_eq!(int("42"), Some(42));
    assert_eq!(int("1.0"), Some(1));
    assert_eq!(int("1.50e1"), Some(15));
    assert_eq!(int("1e2"), Some(100));
    assert_eq!(int("1E+2"), Some(100));
    assert_eq!(int("2500e-2"), Some(25));
    assert_eq!(int("0.000e99999999999999999999"), Some(0));
    assert_eq!(int("1."), Some(1));
    assert!(matches!(parse(".5"), Err(Error::UnexpectedToken('.'))));
    assert_eq!(int("1.5"), None);
    assert_eq!(int("1e-1"), None);
    assert_eq!(int("9223372036854775807"), Some(i64::MAX));
    assert_eq!(int("-9223372036854775808"), Some(i64::MIN));
    assert_eq!(int("9223372036854775808"), Some(i64::MAX));
    assert_eq!(int("10000000000000000000"), Some(i64::MAX));
    assert_eq!(int("-9223372036854775809"), Some(i64::MIN));
    assert_eq!(int("1e300"), Some(i64::MAX));
    assert_eq!(int("-1e300"), Some(i64::MIN));
    assert_eq!(int("17976931348623158e292"), Some(i64::MAX));
    assert_eq!(int("17976931348623159e292"), None);
    assert_eq!(int("1e309"), None);
    assert_eq!(int("1e99999999999999999999"), None);
    assert_eq!(int("007"), Some(7));
    assert_eq!(parse("\"7\"").unwrap().as_i64(), None);
    match parse("-12.5e3").unwrap() {
        JsonValue::Number(text) => assert_eq!(text, "-12.5e3"),
        other => panic!("unexpected {other:?}"),
    }
}

#[test]
fn decimal_spells_integers() {
    assert_eq!(decimal(0), "0");
    assert_eq!(decimal(7), "7");
    assert_eq!(decimal(1234567890), "1234567890");
    assert_eq!(decimal(-45), "-45");
    assert_eq!(decimal(i64::MAX), "9223372036854775807");
}

#[test]
fn object_members_are_kept_in_key_order() {
    let value = parse(r#"{"b": 1, "a": 2, "é": 5, "c": 3, "a": 4, "": 0, "ab": 6}"#).unwrap();
    let members = value.as_object().unwrap();
    let keys: Vec<&str> = members.iter().map(|(k, _)| k.as_str()).collect();
    assert_eq!(keys, vec!["", "a", "ab", "b", "c", "é"]);
    assert_eq!(members[1].1.as_i64(), Some(4));
    let copy = value.clone();
    assert_eq!(copy.object_get("ab").unwrap().as_i64(), Some(6));
}
