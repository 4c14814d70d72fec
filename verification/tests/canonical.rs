use cocoindex::canonical::canonical_json;
use cocoindex::json::{Json, JsonNumber, JsonObject};
use cocoindex::record_id::{
    setup_record_id, source_state_record_id, stable_hash_json, tracking_record_id,
};
use cocoindex::text::sanitize_id_part;

const NULL_HASH: &str = "7b8b2cb83a44fca258958d85f88051e474fbcf0d5b0751f05961b3b16df60ee28e4b2e845396151a10ed6ba965c588f2cc97a8bf17f78c30a202e5d154206f76";
const A_HASH: &str = "01573cd824e656a8580d4de5f5e2c1f5d22b7cb5ce8d1e791e9532bae2899e8f0eba87080a52b4753385e5d27e36f78247d27ca269225b36f5d0ddf1ab53f400";
const OBJECT_HASH: &str = "56c26645c46a120075866cccd4c127f4de9d0ffd68ad8e0d7239cb52ed33a1de26ee0f1a57b8efbc0ee67df6041c1fc66910ee98960ca523cddb50deab876a73";

fn canonical(v: &Json) -> String {
    let mut out = String::new();
    canonical_json(v, &mut out);
    out
}

fn text(s: &str) -> Json {
    Json::Text(s.to_string())
}

fn object(members: Vec<(&str, Json)>) -> Json {
    let mut o = JsonObject::new();
    for (k, v) in members {
        o.insert(k.to_string(), v);
    }
    Json::Object(o)
}

fn sample(swapped: bool) -> Json {
    let list = Json::Array(vec![
        Json::Number(JsonNumber::PosInt(1)),
        Json::Number(JsonNumber::NegInt(-2)),
        Json::Bool(true),
        Json::Null,
    ]);
    if swapped {
        object(vec![("b", text("x\"y")), ("a", list)])
    } else {
        object(vec![("a", list), ("b", text("x\"y"))])
    }
}

#[test]
fn values_have_a_canonical_text() {
    assert_eq!(canonical(&Json::Null), "null");
    assert_eq!(canonical(&Json::Bool(false)), "false");
    assert_eq!(canonical(&Json::Number(JsonNumber::PosInt(u64::MAX))), "18446744073709551615");
    assert_eq!(canonical(&Json::Number(JsonNumber::NegInt(i64::MIN))), "-9223372036854775808");
    assert_eq!(canonical(&Json::Number(JsonNumber::Float("1.5".to_string()))), "1.5");
    assert_eq!(canonical(&Json::Array(vec![])), "[]");
    assert_eq!(canonical(&object(vec![])), "{}");
    assert_eq!(canonical(&sample(false)), r#"{"a":[1,-2,true,null],"b":"x\"y"}"#);
}

#[test]
fn strings_are_escaped() {
    assert_eq!(
        canonical(&text("\"\\/\u{8}\u{c}\n\r\t\u{1}\u{1f}\u{7f}\u{e9}\u{1f600}")),
        "\"\\\"\\\\/\\b\\f\\n\\r\\t\\u0001\\u001f\u{7f}\u{e9}\u{1f600}\""
    );
    assert_eq!(canonical(&object(vec![("k\n", Json::Null)])), r#"{"k\n":null}"#);
}

#[test]
fn the_text_is_added_to_what_is_there() {
    let mut out = "x=".to_string();
    canonical_json(&Json::Bool(true), &mut out);
    assert_eq!(out, "x=true");
}

#[test]
fn the_order_of_members_does_not_count() {
    assert_eq!(canonical(&sample(true)), canonical(&sample(false)));
    let members = vec![("b", Json::Null), ("B", Json::Null), ("a", Json::Null)];
    assert_eq!(canonical(&object(members)), r#"{"B":null,"a":null,"b":null}"#);
    assert!(sample(true).same(&sample(false)));
}

#[test]
fn values_have_a_stable_hash() {
    assert_eq!(stable_hash_json(&Json::Null), NULL_HASH);
    assert_eq!(stable_hash_json(&text("a")), A_HASH);
    assert_eq!(stable_hash_json(&sample(false)), OBJECT_HASH);
    assert_eq!(stable_hash_json(&sample(true)), OBJECT_HASH);
}

#[test]
fn record_ids_are_made_of_parts() {
    assert_eq!(sanitize_id_part("a-b_c.d e"), "a-b_c_d_e");
    assert_eq!(
        setup_record_id("my flow", "type-1", &Json::Null),
        format!("my_flow__type-1__{NULL_HASH}")
    );
    assert_eq!(tracking_record_id("t.x", -5, &text("a")), format!("t_x__-5__{A_HASH}"));
    assert_eq!(source_state_record_id("s", 12, &text("a")), format!("s__12__{A_HASH}"));
}

#[test]
fn different_sources_have_different_records() {
    let a = tracking_record_id("t", 1, &text("a"));
    assert_ne!(a, tracking_record_id("t", 2, &text("a")));
    assert_ne!(a, tracking_record_id("t", 1, &text("b")));
    assert_ne!(a, tracking_record_id("t__1", 1, &text("a")));
    assert_ne!(
        setup_record_id("f", "a", &Json::Null),
        setup_record_id("f", "b", &Json::Null)
    );
}

#[test]
fn numbers_are_equal_by_kind() {
    let float = |t: &str| Json::Number(JsonNumber::Float(t.to_string()));
    assert!(float("0.0").same(&float("-0.0")));
    assert!(!float("1.0").same(&Json::Number(JsonNumber::PosInt(1))));
    assert!(float("1.5").copy().same(&float("1.5")));
    let o = match sample(false) {
        Json::Object(o) => o,
        _ => panic!("an object"),
    };
    assert!(o.get("b").unwrap().same(&text("x\"y")));
    assert!(o.get("c").is_none());
    assert_eq!(o.keys().to_vec(), &vec!["a".to_string(), "b".to_string()]);
}

#[test]
fn different_values_have_different_texts() {
    let one = Json::Number(JsonNumber::PosInt(1));
    let values = vec![
        one.copy(),
        text("1"),
        Json::Array(vec![one.copy()]),
        Json::Array(vec![Json::Array(vec![one.copy()])]),
        Json::Array(vec![one.copy(), one.copy()]),
        object(vec![("1", Json::Null)]),
        text("null"),
        Json::Null,
        text("a\",\"b"),
        Json::Array(vec![text("a"), text("b")]),
    ];
    for (i, a) in values.iter().enumerate() {
        for (j, b) in values.iter().enumerate() {
            assert_eq!(canonical(a) == canonical(b), i == j);
        }
    }
}
