use codex_monitor::json::{Fields, Json};
use codex_monitor::wire::{from_value, into_value, parse, write_message};

fn nested(levels: usize) -> Json {
    let mut json = Json::Null;
    for _ in 0..levels {
        json = Json::single(json);
    }
    json
}

#[test]
fn fields_are_found_and_the_last_of_a_key_counts() {
    let json = Json::Object(vec![
        ("a".to_string(), Json::unsigned(1)),
        ("b".to_string(), Json::Null),
        ("a".to_string(), Json::unsigned(2)),
    ]);
    assert_eq!(json.get("a").and_then(|value| value.as_u64()), Some(2));
    assert!(json.has("b"));
    assert!(!json.has("c"));
    assert!(!Json::text("a").has("a"));
    assert!(!Json::Array(vec![Json::text("a")]).has("a"));
}

#[test]
fn unsigned_integers_are_told_from_other_values() {
    assert_eq!(Json::unsigned(u64::MAX).as_u64(), Some(u64::MAX));
    assert_eq!(Json::signed(7).as_u64(), Some(7));
    assert_eq!(Json::signed(-7).as_u64(), None);
    assert_eq!(Json::text("7").as_u64(), None);
    assert_eq!(parse("7.0").unwrap().as_u64(), None);
    assert_eq!(parse("18446744073709551616").unwrap().as_u64(), None);
    assert_eq!(parse("18446744073709551615").unwrap().as_u64(), Some(u64::MAX));
}

#[test]
fn values_are_converted_both_ways() {
    let text = r#"{"a":[1,-2,3.5,null,true,"x"],"b":{"c":{}}}"#;
    let value: serde_json::Value = serde_json::from_str(text).unwrap();
    assert_eq!(into_value(from_value(value.clone())), value);
    let json = from_value(value);
    assert!(matches!(json.get("a"), Some(Json::Array(items)) if items.len() == 6));
    assert_eq!(json.get("b").and_then(|b| b.get("c")), Some(&Json::Object(vec![])));
}

#[test]
fn a_later_field_replaces_an_earlier_one() {
    let json = Json::Object(vec![
        ("a".to_string(), Json::unsigned(1)),
        ("a".to_string(), Json::unsigned(2)),
    ]);
    let expected: serde_json::Value = serde_json::from_str(r#"{"a":2}"#).unwrap();
    assert_eq!(into_value(json), expected);
}

#[test]
fn an_optional_text_is_null_where_there_is_none() {
    assert_eq!(Json::optional_text(&None), Json::Null);
    assert_eq!(Json::optional_text(&Some("x".to_string())), Json::text("x"));
}

#[test]
fn text_is_read() {
    assert_eq!(parse(" [true, \"a\\nb\"] ").unwrap(), Json::Array(vec![
        Json::Bool(true),
        Json::text("a\nb"),
    ]));
    assert_eq!(parse("\"\\u00e9\"").unwrap(), Json::text("\u{e9}"));
}

#[test]
fn text_that_is_not_json_is_refused_with_the_message_of_the_parser() {
    let expected = serde_json::from_str::<serde_json::Value>("{oops").unwrap_err().to_string();
    assert_eq!(parse("{oops"), Err(expected));
    assert_eq!(parse("1 2").unwrap_err(), "trailing characters at line 1 column 3");
}

#[test]
fn a_message_is_one_line() {
    let message = Fields::new()
        .with("method", Json::text("a\nb\r\u{0}\"\\"))
        .with("id", Json::unsigned(3))
        .object();
    let line = write_message(message).unwrap();
    assert_eq!(line, "{\"id\":3,\"method\":\"a\\nb\\r\\u0000\\\"\\\\\"}\n");
    assert_eq!(line.matches('\n').count(), 1);
}

#[test]
fn a_message_is_read_back_as_it_was_written() {
    let text = r#"{"a":[0,18446744073709551615,-9223372036854775808],"b":{"":null,"x":"y\t"}}"#;
    let line = write_message(parse(text).unwrap()).unwrap();
    assert_eq!(parse(line.trim_end()).unwrap(), parse(text).unwrap());
}

#[test]
fn messages_are_read_back_up_to_the_depth_limit() {
    let line = write_message(nested(127)).unwrap();
    assert_eq!(parse(line.trim_end()).unwrap(), nested(127));
    let too_deep = write_message(nested(128)).unwrap();
    assert!(parse(too_deep.trim_end()).is_err());
}
