use mellea::{Instruction, JsonValue, Requirement};

fn s(x: &str) -> JsonValue {
    JsonValue::Str(x.to_string())
}

fn obj(entries: Vec<(&str, JsonValue)>) -> JsonValue {
    JsonValue::Object(entries.into_iter().map(|(k, v)| (k.to_string(), v)).collect())
}

/// The schema that a `struct Mood { label: String }` has.
fn mood_schema() -> JsonValue {
    obj(vec![
        ("$schema", s("http://json-schema.org/draft-07/schema#")),
        ("properties", obj(vec![("label", obj(vec![("type", s("string"))]))])),
        ("required", JsonValue::Array(vec![s("label")])),
        ("title", s("Mood")),
        ("type", s("object")),
    ])
}

#[test]
fn test_instruction_basic() {
    let inst = Instruction::new("Do something");
    let msgs = inst.to_messages();
    assert_eq!(msgs.len(), 1);
    assert!(msgs[0].content.contains("Do something"));
}

#[test]
fn test_instruction_with_requirements() {
    let inst = Instruction::new("Classify sentiment")
        .require(
            Requirement::new("must be positive or negative")
                .validate(|s| s.contains("positive") || s.contains("negative")),
        )
        .ground("text", "I love Rust");

    let msgs = inst.to_messages();
    assert!(msgs[0].content.contains("Requirements"));
    assert!(msgs[0].content.contains("must be positive or negative"));
    assert!(msgs[0].content.contains("I love Rust"));
}

#[test]
fn test_instruction_json_schema() {
    let inst = Instruction::new("Get mood").with_json_schema(mood_schema(), "Mood");
    let msgs = inst.to_messages();
    assert!(msgs[0].content.contains("JSON"));
    assert!(msgs[0].content.contains("label"));
}

#[test]
fn prompt_layout() {
    let inst = Instruction::new("Classify sentiment")
        .ground("text", "I love Rust")
        .example("great", "positive")
        .example("awful", "negative")
        .require(Requirement::new("one word").max_length(20));
    assert_eq!(
        inst.to_messages()[0].content,
        "Classify sentiment\n\n## Context\n### text\nI love Rust\n\n## Examples\n### Example 1\nInput: great\nOutput: positive\n### Example 2\nInput: awful\nOutput: negative\n\n## Requirements\n- one word"
    );
}

#[test]
fn prompt_with_schema_shows_an_example() {
    let inst = Instruction::new("Get mood").with_json_schema(mood_schema(), "Mood");
    assert_eq!(
        inst.prompt(),
        "Get mood\n\nRespond with ONLY valid JSON. Example format:\n{\n  \"label\": \"...\"\n}\nOutput raw JSON only. No other text, no markdown, no explanation."
    );
    assert_eq!(inst.schema_type.as_deref(), Some("Mood"));
}

#[test]
fn grounding_keys_are_replaced_in_place() {
    let inst = Instruction::new("t").ground("a", "1").ground("b", "2").ground("a", "3");
    let entries: Vec<(String, String)> = inst.grounding.clone();
    assert_eq!(
        entries,
        vec![("a".to_string(), "3".to_string()), ("b".to_string(), "2".to_string())]
    );
    assert_eq!(inst.prompt(), "t\n\n## Context\n### a\n3\n### b\n2");
}
