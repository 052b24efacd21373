//! JSON documents as plain trees.
use pkgradar::json::{outside_json, parse_json, plain_json, pretty_json, JsonRecord, JsonValue};

#[test]
fn values_are_read_by_their_kind() {
    let doc = parse_json(
        "{\"t\":\"x\",\"n\":7,\"neg\":-7,\"half\":0.5,\"l\":[1,2],\"o\":{\"k\":null},\"b\":true}",
    )
    .unwrap();
    assert_eq!(doc.str_at("t").map(|s| s.as_str()), Some("x"));
    assert_eq!(doc.u64_at("n"), Some(7));
    assert_eq!(doc.u64_at("neg"), None);
    assert_eq!(doc.u64_at("half"), None);
    assert_eq!(doc.u64_at("t"), None);
    assert_eq!(doc.array_at("l").map(|l| l.len()), Some(2));
    assert_eq!(doc.object_at("o").map(|o| o.len()), Some(1));
    assert!(doc.get("missing").is_none());
    assert!(doc.get("t").unwrap().get("x").is_none());
}

#[test]
fn text_that_is_no_document_is_refused() {
    assert!(parse_json("{").is_err());
    assert!(parse_json("").is_err());
    assert!(parse_json("1 2").is_err());
}

#[test]
fn trees_survive_the_way_out_and_back() {
    let text = "{\"a\":[1,-2,0.1,1e300,true,null,\"\\u00e9\\n\"],\"b\":{\"c\":{}}}";
    let value: serde_json::Value = serde_json::from_str(text).unwrap();
    let back = outside_json(&plain_json(&value));
    assert_eq!(back, value);
    assert_eq!(
        pretty_json(&plain_json(&value)).unwrap(),
        serde_json::to_string_pretty(&value).unwrap()
    );
}

#[test]
fn long_floats_are_printed_as_they_came() {
    let text = "[0.30000000000000004,123456789.12345679,5e-324]";
    let value: serde_json::Value = serde_json::from_str(text).unwrap();
    assert_eq!(
        pretty_json(&plain_json(&value)).unwrap(),
        serde_json::to_string_pretty(&value).unwrap()
    );
}

#[test]
fn field_written_is_read() {
    let record = JsonRecord::new()
        .with("m".to_string(), JsonValue::natural(1))
        .with("z".to_string(), JsonValue::natural(2))
        .with("a".to_string(), JsonValue::natural(3))
        .with("m".to_string(), JsonValue::natural(4));
    let value = JsonValue::record(record);
    assert_eq!(value.u64_at("m"), Some(4));
    assert_eq!(value.u64_at("z"), Some(2));
    assert_eq!(value.u64_at("a"), Some(3));
    assert_eq!(pretty_json(&value).unwrap(), "{\n  \"a\": 3,\n  \"m\": 4,\n  \"z\": 2\n}");
}
