use mellea::json::{number_example, schema_to_example};
use mellea::JsonValue;

fn s(x: &str) -> JsonValue {
    JsonValue::Str(x.to_string())
}

fn n(x: &str) -> JsonValue {
    JsonValue::Number(x.to_string())
}

fn obj(entries: Vec<(&str, JsonValue)>) -> JsonValue {
    JsonValue::Object(entries.into_iter().map(|(k, v)| (k.to_string(), v)).collect())
}

fn to_serde(v: &JsonValue) -> serde_json::Value {
    match v {
        JsonValue::Null => serde_json::Value::Null,
        JsonValue::Bool(b) => serde_json::Value::Bool(*b),
        JsonValue::Number(t) => serde_json::from_str(t).unwrap(),
        JsonValue::Str(s) => serde_json::Value::String(s.clone()),
        JsonValue::Array(vs) => serde_json::Value::Array(vs.iter().map(to_serde).collect()),
        JsonValue::Object(es) => {
            let mut m = serde_json::Map::new();
            for (k, v) in es {
                m.insert(k.clone(), to_serde(v));
            }
            serde_json::Value::Object(m)
        }
    }
}

fn sentiment_schema() -> JsonValue {
    obj(vec![
        (
            "definitions",
            obj(vec![(
                "Kind",
                obj(vec![("type", s("string")), ("description", s("Person or place"))]),
            )]),
        ),
        (
            "properties",
            obj(vec![
                ("confidence", obj(vec![("description", s("Confidence score")), ("type", s("number"))])),
                ("count", obj(vec![("type", s("integer"))])),
                ("flag", obj(vec![("type", s("boolean"))])),
                ("kind", obj(vec![("$ref", s("#/definitions/Kind"))])),
                ("missing", obj(vec![("$ref", s("#/definitions/Nope"))])),
                ("score", obj(vec![("type", s("number"))])),
                ("tags", obj(vec![("type", s("array")), ("items", obj(vec![("type", s("string"))]))])),
            ]),
        ),
        ("type", s("object")),
    ])
}

#[test]
fn example_follows_the_schema() {
    let example = schema_to_example(&sentiment_schema());
    assert_eq!(
        example.to_compact_string(),
        "{\"confidence\":0.85,\"count\":0,\"flag\":true,\"kind\":\"<Person or place>\",\"missing\":{},\"score\":0,\"tags\":[\"...\"]}"
    );
}

#[test]
fn pretty_text_matches_serde_json() {
    let example = schema_to_example(&sentiment_schema());
    let expected = serde_json::to_string_pretty(&to_serde(&example)).unwrap();
    assert_eq!(example.to_pretty_string(), expected);
    let schema = sentiment_schema();
    assert_eq!(schema.to_pretty_string(), serde_json::to_string_pretty(&to_serde(&schema)).unwrap());
}

#[test]
fn compact_text_matches_serde_json() {
    let v = obj(vec![
        ("a", JsonValue::Array(vec![n("1"), JsonValue::Null, JsonValue::Bool(false)])),
        ("b", s("quote \" slash \\ newline \n tab \t bell \u{7} é")),
        ("c", JsonValue::Array(vec![])),
        ("d", obj(vec![])),
    ]);
    assert_eq!(v.to_compact_string(), to_serde(&v).to_string());
    assert_eq!(v.to_pretty_string(), serde_json::to_string_pretty(&to_serde(&v)).unwrap());
}

#[test]
fn arrays_without_items_get_a_placeholder() {
    let schema = obj(vec![("type", s("array"))]);
    assert_eq!(schema_to_example(&schema).to_compact_string(), "[\"...\"]");
    let untyped = obj(vec![]);
    assert_eq!(schema_to_example(&untyped).to_compact_string(), "{}");
    let plain = obj(vec![("type", s("string"))]);
    assert_eq!(schema_to_example(&plain).to_compact_string(), "\"...\"");
}

#[test]
fn lookup_by_key() {
    let v = obj(vec![("a", n("1")), ("b", s("x"))]);
    assert_eq!(v.get("b").unwrap().as_str(), Some("x"));
    assert!(v.get("c").is_none());
    assert!(n("1").get("a").is_none());
}

#[test]
fn looping_references_stop_at_the_definition_in_expansion() {
    let node = obj(vec![
        ("type", s("object")),
        ("properties", obj(vec![("child", obj(vec![("$ref", s("#/definitions/Node"))]))])),
    ]);
    let schema = obj(vec![
        ("definitions", obj(vec![("Node", node)])),
        ("properties", obj(vec![("root", obj(vec![("$ref", s("#/definitions/Node"))]))])),
        ("type", s("object")),
    ]);
    assert_eq!(schema_to_example(&schema).to_compact_string(), "{\"root\":{\"child\":{}}}");
}

#[test]
fn self_referencing_schema_gets_an_example() {
    let n_def = obj(vec![
        ("type", s("object")),
        ("properties", obj(vec![("next", obj(vec![("$ref", s("#/definitions/N"))]))])),
    ]);
    let schema = obj(vec![
        ("type", s("object")),
        ("properties", obj(vec![("next", obj(vec![("$ref", s("#/definitions/N"))]))])),
        ("definitions", obj(vec![("N", n_def)])),
    ]);
    assert_eq!(schema_to_example(&schema).to_compact_string(), "{\"next\":{\"next\":{}}}");
    // Two definitions that refer to each other.
    let a = obj(vec![("type", s("object")), ("properties", obj(vec![("b", obj(vec![("$ref", s("#/definitions/B"))]))]))]);
    let b = obj(vec![("type", s("object")), ("properties", obj(vec![("a", obj(vec![("$ref", s("#/definitions/A"))]))]))]);
    let schema = obj(vec![
        ("definitions", obj(vec![("A", a), ("B", b)])),
        ("$ref", s("#/definitions/A")),
    ]);
    assert_eq!(schema_to_example(&schema).to_compact_string(), "{\"b\":{\"a\":{}}}");
}

#[test]
fn a_node_example_looks_up_the_root() {
    let root = obj(vec![("definitions", obj(vec![("C", obj(vec![("type", s("boolean"))]))]))]);
    let node = obj(vec![("type", s("array")), ("items", obj(vec![("$ref", s("#/definitions/C"))]))]);
    assert_eq!(mellea::json::node_example_value(&node, &root).to_compact_string(), "[true]");
}

#[test]
fn chained_references_resolve() {
    let schema = obj(vec![
        (
            "definitions",
            obj(vec![
                ("A", obj(vec![("$ref", s("#/definitions/B"))])),
                ("B", obj(vec![("type", s("integer"))])),
            ]),
        ),
        ("properties", obj(vec![("a", obj(vec![("$ref", s("#/definitions/A"))]))])),
        ("type", s("object")),
    ]);
    let example = schema_to_example(&schema);
    assert_eq!(example.to_compact_string(), "{\"a\":0}");
}

#[test]
fn number_examples_follow_the_lowered_description() {
    let text = |v: JsonValue| match v {
        JsonValue::Number(t) => t,
        _ => panic!("not a number"),
    };
    assert_eq!(text(number_example("confidence score")), "0.85");
    assert_eq!(text(number_example("between 0.0 and 1.0")), "0.85");
    assert_eq!(text(number_example("a count")), "0");
    // The text is taken as already lowered.
    assert_eq!(text(number_example("Confidence")), "0");
}
