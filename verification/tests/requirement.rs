use mellea::{DecodeFn, Requirement, TypedRequirement, ValidationResult};

#[test]
fn test_validate_closure() {
    let req = Requirement::new("must contain 'hello'").validate(|s| s.contains("hello"));
    assert!(req.check("hello world").is_pass());
    assert!(req.check("goodbye").is_fail());
}

#[test]
fn test_validate_with_reason() {
    let req = Requirement::new("must be numeric").validate_with_reason(|s| {
        s.trim().parse::<f64>().map(|_| ()).map_err(|e| format!("not a number: {e}"))
    });
    assert!(req.check("42").is_pass());
    assert!(req.check("abc").is_fail());
}

#[test]
fn test_max_length() {
    let req = Requirement::new("short output").max_length(10);
    assert!(req.check("hi").is_pass());
    assert!(req.check("this is way too long").is_fail());
}

#[test]
fn test_typed_requirement() {
    let req = TypedRequirement::new("x must be positive", |val: &i32| *val > 0);
    assert!(req.check(&5).is_pass());
    assert!(req.check(&-1).is_fail());
}

#[test]
fn failure_reasons_name_the_rule() {
    let req = Requirement::new("must contain 'hello'").validate(|s| s.contains("hello"));
    assert_eq!(req.check("bye").reason(), Some("requirement not met: must contain 'hello'"));
    assert_eq!(req.check("hello").reason(), None);

    let max = Requirement::new("short").max_length(10);
    assert_eq!(max.check("this is way too long").reason(), Some("output length 20 exceeds max 10"));
    assert!(max.check("0123456789").is_pass());

    let min = Requirement::new("long").min_length(5);
    assert_eq!(min.check("abc").reason(), Some("output length 3 below min 5"));
    assert!(min.check("abcde").is_pass());

    let typed = TypedRequirement::new("x must be positive", |val: &i32| *val > 0);
    assert_eq!(typed.check(&0).reason(), Some("typed requirement not met: x must be positive"));
}

#[test]
fn lengths_count_characters() {
    // "é" is one character, two bytes in UTF-8.
    let max = Requirement::new("tiny").max_length(1);
    assert!(max.check("é").is_pass());
    assert_eq!(max.check("ab").reason(), Some("output length 2 exceeds max 1"));
    let three = Requirement::new("tiny").max_length(3);
    assert!(three.check("éé").is_pass());
    assert!(three.check("éééé").is_fail());
    let min = Requirement::new("d").min_length(2);
    assert!(min.check("hi").is_pass());
    assert_eq!(min.check("a").reason(), Some("output length 1 below min 2"));
    assert_eq!(min.check("é").reason(), Some("output length 1 below min 2"));
}

#[test]
fn reasons_from_the_check_are_kept() {
    let req = Requirement::new("numeric").validate_with_reason(|s| {
        if s.chars().all(|c| c.is_ascii_digit()) { Ok(()) } else { Err(format!("'{s}' has letters")) }
    });
    assert_eq!(req.check("12a").reason(), Some("'12a' has letters"));
    assert!(req.check("123").is_pass());
}

fn value_error(json: &str) -> Option<String> {
    serde_json::from_str::<serde_json::Value>(json).err().map(|e| e.to_string())
}

#[test]
fn parse_rules_see_the_cleaned_output() {
    let req = Requirement::new("must be JSON").parses_with(DecodeFn::new(value_error));
    assert!(req.check("```json\n{\"x\": 1}\n```").is_pass());
    assert!(req.check("[{\"a\": 1}]").is_pass());
    assert!(req.check("Result: [1, 2]").is_pass());
    let reason = req.check("not json").reason().unwrap().to_string();
    assert!(reason.starts_with("must be JSON: JSON parse error: "), "{reason}");
}

#[test]
fn validation_result_accessors() {
    let pass = ValidationResult::Pass;
    let fail = ValidationResult::Fail { reason: "nope".to_string() };
    assert!(pass.is_pass() && !pass.is_fail());
    assert!(fail.is_fail() && !fail.is_pass());
    assert_eq!(fail.reason(), Some("nope"));
    assert_eq!(pass.reason(), None);
}

#[test]
fn parse_rules_hand_the_decoder_the_cleaned_text() {
    // The decoder accepts only text that starts with '{'; the fence is gone
    // by the time it sees the output.
    let req = Requirement::new("object").parses_with(DecodeFn::new(|s: &str| {
        if s.starts_with('{') { None } else { Some(format!("saw {s}")) }
    }));
    assert!(req.check("```json\n{\"x\": 1}\n```").is_pass());
    assert_eq!(req.check("[1]").reason(), Some("object: JSON parse error: saw [1]"));
}
