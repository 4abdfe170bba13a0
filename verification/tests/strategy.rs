use mellea::{
    ChatMessage, LoopStep, MelleaError, ModelOutput, RejectionSampling, Requirement, Role, Usage,
    ValidationResult,
};

fn out(content: &str) -> ModelOutput {
    ModelOutput { content: content.to_string(), model: "m".to_string(), usage: Usage::default() }
}

fn hello_requirement() -> Vec<Requirement> {
    vec![Requirement::new("must contain hello").validate(|s| s.contains("hello"))]
}

const REPAIR: &str = "Your previous response did not meet the requirements. Please correct it.\n\nFailures:\n- must contain hello: requirement not met: must contain hello\n\nPlease provide a corrected response that satisfies all requirements.";

#[test]
fn default_allows_two_retries() {
    assert_eq!(RejectionSampling::default().max_retries, 2);
    assert_eq!(RejectionSampling::new(5).max_retries, 5);
}

#[test]
fn passing_output_succeeds_at_once() {
    let strategy = RejectionSampling::new(2);
    let reqs = hello_requirement();
    let state = strategy.begin(vec![ChatMessage::user("greet me")]);
    assert_eq!(state.messages().len(), 1);
    match RejectionSampling::step(state, out("hello there"), &reqs) {
        LoopStep::Finished(Ok(result)) => {
            assert!(result.success);
            assert_eq!(result.output.content, "hello there");
            assert_eq!(result.attempts.len(), 1);
            assert!(result.attempts[0].validations[0].1.is_pass());
        }
        _ => panic!("expected success"),
    }
}

#[test]
fn failing_output_gets_repair_feedback() {
    let strategy = RejectionSampling::new(1);
    let reqs = hello_requirement();
    let state = strategy.begin(vec![ChatMessage::user("greet me")]);
    let next = match RejectionSampling::step(state, out("bye"), &reqs) {
        LoopStep::Generate(next) => next,
        _ => panic!("expected a retry"),
    };
    let msgs: Vec<(Role, String)> =
        next.messages().iter().map(|m| (m.role, m.content.clone())).collect();
    assert_eq!(
        msgs,
        vec![
            (Role::User, "greet me".to_string()),
            (Role::Assistant, "bye".to_string()),
            (Role::User, REPAIR.to_string()),
        ]
    );
    assert_eq!(next.attempts().len(), 1);
    match RejectionSampling::step(next, out("hello"), &reqs) {
        LoopStep::Finished(Ok(result)) => {
            assert!(result.success);
            assert_eq!(result.attempts.len(), 2);
            assert_eq!(result.attempts[0].output.content, "bye");
            assert_eq!(result.output.content, "hello");
        }
        _ => panic!("expected success"),
    }
}

#[test]
fn exhausted_budget_reports_history() {
    let strategy = RejectionSampling::new(1);
    let reqs = hello_requirement();
    let state = strategy.begin(vec![ChatMessage::user("greet me")]);
    let next = match RejectionSampling::step(state, out("bye"), &reqs) {
        LoopStep::Generate(next) => next,
        _ => panic!("expected a retry"),
    };
    match RejectionSampling::step(next, out("still no"), &reqs) {
        LoopStep::Finished(Err(MelleaError::ValidationFailed { attempts, reason, history })) => {
            assert_eq!(attempts, 2);
            assert_eq!(reason, "must contain hello: requirement not met: must contain hello");
            assert_eq!(history.len(), 2);
            assert_eq!(history[0].raw_output, "bye");
            assert_eq!(history[1].raw_output, "still no");
            assert_eq!(history[1].failures.len(), 1);
            assert_eq!(history[1].failures[0].requirement, "must contain hello");
            assert_eq!(history[1].failures[0].reason, "requirement not met: must contain hello");
        }
        _ => panic!("expected a validation failure"),
    }
}

#[test]
fn zero_retries_fail_after_one_attempt() {
    let strategy = RejectionSampling::new(0);
    let reqs = vec![
        Requirement::new("short").max_length(3),
        Requirement::new("has x").validate(|s| s.contains('x')),
    ];
    let state = strategy.begin(vec![]);
    match RejectionSampling::step(state, out("abcd"), &reqs) {
        LoopStep::Finished(Err(MelleaError::ValidationFailed { attempts, reason, history })) => {
            assert_eq!(attempts, 1);
            assert_eq!(
                reason,
                "short: output length 4 exceeds max 3; has x: requirement not met: has x"
            );
            assert_eq!(history.len(), 1);
            assert_eq!(history[0].failures.len(), 2);
        }
        _ => panic!("expected a validation failure"),
    }
}

#[test]
fn no_requirements_always_pass() {
    let strategy = RejectionSampling::new(0);
    match RejectionSampling::step(strategy.begin(vec![]), out("anything"), &[]) {
        LoopStep::Finished(Ok(result)) => assert!(result.success),
        _ => panic!("expected success"),
    }
}

#[test]
fn repair_message_lists_only_failures() {
    let failures = vec![
        ("a".to_string(), ValidationResult::Pass),
        ("b".to_string(), ValidationResult::Fail { reason: "too long".to_string() }),
    ];
    assert_eq!(
        RejectionSampling::build_repair_message(&failures),
        "Your previous response did not meet the requirements. Please correct it.\n\nFailures:\n- b: too long\n\nPlease provide a corrected response that satisfies all requirements."
    );
}

#[test]
fn validations_follow_requirement_order() {
    let reqs = vec![
        Requirement::new("first").min_length(1),
        Requirement::new("second").max_length(1),
    ];
    let vs = RejectionSampling::validate_all(&reqs, "ab");
    assert_eq!(vs.len(), 2);
    assert_eq!(vs[0].0, "first");
    assert!(vs[0].1.is_pass());
    assert_eq!(vs[1].0, "second");
    assert_eq!(vs[1].1.reason(), Some("output length 2 exceeds max 1"));
}

#[test]
fn each_retry_sees_all_earlier_feedback() {
    let strategy = RejectionSampling::new(2);
    let reqs = hello_requirement();
    let state = strategy.begin(vec![ChatMessage::system("sys"), ChatMessage::user("greet me")]);
    let second = match RejectionSampling::step(state, out("bye"), &reqs) {
        LoopStep::Generate(next) => next,
        _ => panic!("expected a retry"),
    };
    let third = match RejectionSampling::step(second, out("nope"), &reqs) {
        LoopStep::Generate(next) => next,
        _ => panic!("expected a retry"),
    };
    let contents: Vec<&str> = third.messages().iter().map(|m| m.content.as_str()).collect();
    assert_eq!(contents, vec!["sys", "greet me", "bye", REPAIR, "nope", REPAIR]);
    assert_eq!(third.attempts().len(), 2);
    match RejectionSampling::step(third, out("no again"), &reqs) {
        LoopStep::Finished(Err(MelleaError::ValidationFailed { attempts, history, .. })) => {
            assert_eq!(attempts, 3);
            assert_eq!(history.len(), 3);
        }
        _ => panic!("expected a validation failure after three attempts"),
    }
}
