//! Reading JSON.

use herdr_reviewr::json::{parse, Json};

#[test]
fn every_kind_of_value_reads() {
    let json = parse(
        r#" {"null": null, "yes": true, "no": false, "text": "aé\n\"",
             "list": [1, [2], {"x": 3}], "object": {"x": {"y": "z"}}} "#,
    )
    .unwrap();
    assert!(json.field("null").is_null());
    assert_eq!(json.field("yes").as_bool(), Some(true));
    assert_eq!(json.field("no").as_bool(), Some(false));
    assert_eq!(json.field("text").as_str(), Some("a\u{e9}\n\""));
    assert!(json.field("text").is_text("a\u{e9}\n\""));
    assert_eq!(json.field("list").count(), 3);
    assert_eq!(json.field("list").element(0).as_u64(), Some(1));
    assert_eq!(json.field("list").element(1).element(0).as_u64(), Some(2));
    assert_eq!(json.field("list").element(2).field("x").as_u64(), Some(3));
    assert_eq!(json.field("object").field("x").field("y").as_str(), Some("z"));
}

#[test]
fn what_is_not_there_reads_as_null_and_absent() {
    let json = parse(r#"{"list": [1], "text": "t"}"#).unwrap();
    assert!(json.field("missing").is_null());
    assert!(json.field("missing").field("deeper").element(3).is_null());
    assert!(json.field("list").element(1).is_null());
    assert!(json.field("list").field("x").is_null());
    assert!(json.element(0).is_null());
    assert_eq!(json.count(), 0);
    assert_eq!(json.field("text").as_bool(), None);
    assert_eq!(json.field("text").as_u64(), None);
    assert_eq!(json.field("text").as_i64(), None);
    assert_eq!(json.field("list").as_str(), None);
    assert_eq!(json.field("list").str_or_empty(), "");
    assert_eq!(json.field("text").str_or_empty(), "t");
    assert!(!json.field("list").is_text(""));
}

#[test]
fn numbers_read_where_they_fit() {
    let cases: [(&str, Option<u64>, Option<i64>); 12] = [
        ("0", Some(0), Some(0)),
        ("7", Some(7), Some(7)),
        ("-7", None, Some(-7)),
        ("9223372036854775807", Some(9223372036854775807), Some(i64::MAX)),
        ("9223372036854775808", Some(9223372036854775808), None),
        ("18446744073709551615", Some(u64::MAX), None),
        ("18446744073709551616", None, None),
        ("-9223372036854775808", None, Some(i64::MIN)),
        ("-9223372036854775809", None, None),
        ("1.0", None, None),
        ("1e2", None, None),
        ("-0", None, None),
    ];
    for (text, unsigned, signed) in cases {
        let json = parse(text).unwrap();
        assert_eq!(json.as_u64(), unsigned, "{text}");
        assert_eq!(json.as_i64(), signed, "{text}");
        assert!(!json.is_null());
    }
    assert!(matches!(parse("1.5").unwrap(), Json::Real));
}

#[test]
fn of_several_fields_with_one_name_the_last_counts() {
    let json = parse(r#"{"a": 1, "b": 2, "a": 3}"#).unwrap();
    assert_eq!(json.field("a").as_u64(), Some(3));
    assert_eq!(json.field("b").as_u64(), Some(2));
    let built = Json::Object(vec![
        ("a".to_string(), Json::Integer(1)),
        ("a".to_string(), Json::Bool(true)),
    ]);
    assert_eq!(built.field("a").as_bool(), Some(true));
}

#[test]
fn a_text_that_is_no_json_gives_the_message_of_the_reader() {
    assert_eq!(
        parse("").unwrap_err(),
        "EOF while parsing a value at line 1 column 0"
    );
    assert_eq!(parse("[1,]").unwrap_err(), "trailing comma at line 1 column 4");
    assert_eq!(parse("{} x").unwrap_err(), "trailing characters at line 1 column 4");
    assert!(parse("<html>").is_err());
    assert!(parse(&"[".repeat(200)).is_err());
}

#[test]
fn values_read_as_the_reader_crate_reads_them() {
    for text in [
        r#"{"id": 42, "links": {"self": [{"href": "https://x"}]}, "n": -3, "f": 2.5, "t": true}"#,
        "[]",
        "[null, \"\\ud83d\\ude00\", 12345678901234567890, -0, 1e400]",
    ] {
        match (serde_json::from_str::<serde_json::Value>(text), parse(text)) {
            (Ok(value), Ok(json)) => assert!(agrees(&value, &json), "{text}"),
            (Err(error), Err(message)) => assert_eq!(error.to_string(), message),
            (left, right) => panic!("{left:?} {right:?}"),
        }
    }
}

fn agrees(value: &serde_json::Value, json: &Json) -> bool {
    let same = value.as_str() == json.as_str()
        && value.as_bool() == json.as_bool()
        && value.as_u64() == json.as_u64()
        && value.as_i64() == json.as_i64()
        && value.is_null() == json.is_null()
        && value.as_array().map_or(0, Vec::len) == json.count();
    let elements = value.as_array().into_iter().flatten().enumerate();
    let fields = value.as_object().into_iter().flatten();
    same && elements.fold(true, |all, (i, inner)| all && agrees(inner, json.element(i)))
        && fields.fold(true, |all, (name, inner)| all && agrees(inner, json.field(name)))
}
