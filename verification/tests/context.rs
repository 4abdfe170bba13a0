use mellea::{ChatMessage, ChatMessageExt, Context, ModelOutput, Role, Turn, Usage};

fn output(content: &str, model: &str) -> ModelOutput {
    ModelOutput { content: content.to_string(), model: model.to_string(), usage: Usage::default() }
}

#[test]
fn test_context_immutability() {
    let ctx = Context::new();
    let ctx2 = ctx.push(Turn { input: ChatMessage::user("hello"), output: None });
    assert_eq!(ctx.len(), 0);
    assert_eq!(ctx2.len(), 1);
}

#[test]
fn test_messages_roundtrip() {
    let ctx = Context::new()
        .push(Turn { input: ChatMessage::user("hi"), output: Some(output("hello!", "test")) })
        .push(Turn { input: ChatMessage::user("how are you?"), output: None });

    let msgs = ctx.messages();
    assert_eq!(msgs.len(), 3);
    assert_eq!(msgs[0].role, Role::User);
    assert_eq!(msgs[1].role, Role::Assistant);
    assert_eq!(msgs[2].role, Role::User);
}

#[test]
fn test_last_output() {
    let ctx = Context::new()
        .push(Turn { input: ChatMessage::user("test"), output: Some(output("response", "m")) });
    assert_eq!(ctx.last_output().unwrap().content, "response");
}

#[test]
fn last_output_skips_turns_without_output() {
    let ctx = Context::new()
        .push(Turn { input: ChatMessage::user("a"), output: Some(output("first", "m")) })
        .push(Turn { input: ChatMessage::user("b"), output: None });
    assert_eq!(ctx.last_output().unwrap().content, "first");
    assert!(Context::new().last_output().is_none());
}

#[test]
fn messages_hold_inputs_and_replies_in_order() {
    let ctx = Context::new()
        .push(Turn { input: ChatMessage::system("be brief"), output: None })
        .push(Turn { input: ChatMessage::user("hi"), output: Some(output("hello!", "m")) });
    let msgs = ctx.messages();
    let pairs: Vec<(Role, String)> = msgs.iter().map(|m| (m.role, m.content.clone())).collect();
    assert_eq!(
        pairs,
        vec![
            (Role::System, "be brief".to_string()),
            (Role::User, "hi".to_string()),
            (Role::Assistant, "hello!".to_string()),
        ]
    );
    assert!(msgs[0].is_system());
    assert!(msgs[1].is_user());
    assert!(msgs[2].is_assistant());
    assert!(!msgs[2].is_user());
}

#[test]
fn push_leaves_the_original_context_unchanged() {
    let base = Context::new().push(Turn { input: ChatMessage::user("a"), output: None });
    let longer = base.push(Turn { input: ChatMessage::user("b"), output: None });
    assert_eq!(base.len(), 1);
    assert_eq!(longer.len(), 2);
    assert_eq!(base.turns()[0].input.content, "a");
    assert_eq!(longer.turns()[1].input.content, "b");
    assert!(Context::new().is_empty());
    assert!(!base.is_empty());
    assert_eq!(Context::default().len(), 0);
}

#[test]
fn role_wire_names() {
    assert_eq!(Role::System.as_str(), "system");
    assert_eq!(Role::User.as_str(), "user");
    assert_eq!(Role::Assistant.as_str(), "assistant");
    assert_eq!(Role::Tool.as_str(), "tool");
}

#[test]
fn tool_messages_go_to_ollama_as_user_messages() {
    assert_eq!(Role::Tool.ollama_role(), Role::User);
    assert_eq!(Role::System.ollama_role(), Role::System);
    assert_eq!(Role::User.ollama_role(), Role::User);
    assert_eq!(Role::Assistant.ollama_role(), Role::Assistant);
}
