use mellea::{
    strip_json_artifacts, MelleaError, ModelOutput, Usage, ValidationAttempt, ValidationFailure,
};

#[test]
fn test_strip_json_fences() {
    assert_eq!(strip_json_artifacts("```json\n{\"a\": 1}\n```"), "{\"a\": 1}");
    assert_eq!(strip_json_artifacts("```\n{\"a\": 1}\n```"), "{\"a\": 1}");
}

#[test]
fn test_strip_leading_text() {
    let input = "Here is the result:\n{\"label\": \"positive\"}";
    assert_eq!(strip_json_artifacts(input), "{\"label\": \"positive\"}");
}

#[test]
fn test_clean_json_passthrough() {
    assert_eq!(strip_json_artifacts("{\"a\": 1}"), "{\"a\": 1}");
}

#[test]
fn strip_keeps_trailing_prose_out() {
    assert_eq!(strip_json_artifacts("  Sure! {\"x\": [1, 2]} hope it helps  "), "{\"x\": [1, 2]}");
    assert_eq!(strip_json_artifacts("list: [1, 2, 3] done"), "[1, 2, 3]");
}

#[test]
fn strip_without_json_only_trims() {
    assert_eq!(strip_json_artifacts("\t plain text \n"), "plain text");
    assert_eq!(strip_json_artifacts("} backwards {"), "} backwards {");
    assert_eq!(strip_json_artifacts(""), "");
}

#[test]
fn strip_fence_needs_a_closing_fence() {
    // An opening fence without a closing one falls through to the brace search.
    assert_eq!(strip_json_artifacts("```json\n{\"a\": 1}"), "{\"a\": 1}");
    assert_eq!(strip_json_artifacts("```json```"), "");
}

#[test]
fn json_payload_and_parse_outcome() {
    let out = ModelOutput {
        content: "```json\n{\"x\": 42}\n```".to_string(),
        model: "test".to_string(),
        usage: Usage::default(),
    };
    assert_eq!(out.json_payload(), "{\"x\": 42}");
    let ok: Result<i32, MelleaError> = out.parse_outcome("i32", Ok(42));
    assert_eq!(ok.unwrap(), 42);
    let err: Result<i32, MelleaError> = out.parse_outcome("i32", Err("bad".to_string()));
    match err {
        Err(MelleaError::Parse { target_type, reason, raw_output }) => {
            assert_eq!(target_type, "i32");
            assert_eq!(reason, "bad");
            assert_eq!(raw_output, "```json\n{\"x\": 42}\n```");
        }
        other => panic!("unexpected: {:?}", other),
    }
}

#[test]
fn usage_defaults_to_zero() {
    let u = Usage::default();
    assert_eq!((u.prompt_tokens, u.completion_tokens, u.total_tokens), (0, 0, 0));
}

#[test]
fn completion_takes_the_first_choice() {
    let o = ModelOutput::from_completion("m", vec![Some("a".to_string()), Some("b".to_string())], None);
    assert_eq!(o.content, "a");
    assert_eq!(o.model, "m");
    assert_eq!(o.usage.total_tokens, 0);
    let empty = ModelOutput::from_completion("m", vec![None, Some("b".to_string())], None);
    assert_eq!(empty.content, "");
    let none = ModelOutput::from_completion("m", vec![], Some(Usage { prompt_tokens: 1, completion_tokens: 2, total_tokens: 3 }));
    assert_eq!(none.content, "");
    assert_eq!(none.usage.total_tokens, 3);
}

#[test]
fn strip_keeps_an_array_of_objects_whole() {
    assert_eq!(strip_json_artifacts("[{\"a\": 1}]"), "[{\"a\": 1}]");
    assert_eq!(strip_json_artifacts("Here: [{\"a\": 1}, {\"b\": 2}] ok"), "[{\"a\": 1}, {\"b\": 2}]");
    assert_eq!(strip_json_artifacts("```json\n[{\"a\": [1]}]\n```"), "[{\"a\": [1]}]");
}

#[test]
fn strip_twice_is_strip_once() {
    for s in ["  Sure! {\"x\": [1, 2]} hope it helps  ", "list: [1, 2, 3] done", "plain", "[{\"a\": 1}]"] {
        let once = strip_json_artifacts(s);
        assert_eq!(strip_json_artifacts(&once), once);
    }
}

#[test]
fn validation_attempts_clone_whole() {
    let a = ValidationAttempt {
        raw_output: "out".to_string(),
        failures: vec![
            ValidationFailure { requirement: "r1".to_string(), reason: "why".to_string() },
            ValidationFailure { requirement: "r2".to_string(), reason: "because".to_string() },
        ],
    };
    let b = a.clone();
    assert_eq!(b.raw_output, "out");
    assert_eq!(b.failures.len(), 2);
    assert_eq!(b.failures[1].requirement, "r2");
    assert_eq!(b.failures[1].reason, "because");
}

#[test]
fn json_format_is_asked_for_with_a_schema_only() {
    assert_eq!(mellea::output::response_format_type(true).as_deref(), Some("json_object"));
    assert_eq!(mellea::output::response_format_type(false), None);
}
