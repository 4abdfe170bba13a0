use mellea::session::{chat_messages, instruct_messages, record_turn, with_parse_requirement};
use mellea::{
    ChatMessage, Context, DecodeFn, GenerativeSlot, Instruction, JsonValue, ModelOutput,
    Requirement, Role, Rule, Turn, Usage,
};

fn any_json_error(json: &str) -> Option<String> {
    serde_json::from_str::<serde_json::Value>(json).err().map(|e| e.to_string())
}

fn out(content: &str) -> ModelOutput {
    ModelOutput { content: content.to_string(), model: "m".to_string(), usage: Usage::default() }
}

#[test]
fn chat_threads_the_context() {
    let ctx = Context::new();
    let msgs = chat_messages(None, &ctx, "My name is Alice.");
    assert_eq!(msgs.len(), 1);
    let ctx = record_turn(&ctx, ChatMessage::user("My name is Alice."), out("Hi Alice"));
    let msgs = chat_messages(None, &ctx, "What is my name?");
    let pairs: Vec<(Role, String)> = msgs.iter().map(|m| (m.role, m.content.clone())).collect();
    assert_eq!(
        pairs,
        vec![
            (Role::User, "My name is Alice.".to_string()),
            (Role::Assistant, "Hi Alice".to_string()),
            (Role::User, "What is my name?".to_string()),
        ]
    );
    assert_eq!(ctx.len(), 1);
}

#[test]
fn instruct_appends_the_prompt() {
    let ctx = Context::new().push(Turn { input: ChatMessage::user("hi"), output: Some(out("yo")) });
    let inst = Instruction::new("Say yes");
    let msgs = instruct_messages(None, &ctx, &inst);
    assert_eq!(msgs.len(), 3);
    assert_eq!(msgs[2].content, "Say yes");
    assert_eq!(msgs[2].role, Role::User);
}

#[test]
fn parse_requirement_always_added() {
    let inst = Instruction::new("x");
    let inst = with_parse_requirement(inst, "Color", DecodeFn::new(any_json_error));
    assert_eq!(inst.requirements.len(), 1);
    assert_eq!(inst.requirements[0].description, "output must be valid JSON that parses as Color");
    assert!(matches!(inst.requirements[0].rule, Rule::ParsesAs(_)));
    assert!(inst.requirements[0].check("not json").is_fail());
    assert!(inst.requirements[0].check("{\"a\": 1}").is_pass());

    // A requirement that only says "valid JSON" does not stand in for the
    // parse check.
    let own = Instruction::new("y").require(Requirement::new("must be valid JSON").validate(|_| true));
    let own = with_parse_requirement(own, "Color", DecodeFn::new(any_json_error));
    assert_eq!(own.requirements.len(), 2);
    assert_eq!(own.requirements[0].description, "must be valid JSON");
    assert!(own.requirements[1].check("not json").is_fail());
}

#[test]
fn system_prompt_opens_every_request() {
    let ctx = Context::new().push(Turn { input: ChatMessage::user("hi"), output: Some(out("yo")) });
    let msgs = chat_messages(Some("Be brief."), &ctx, "And now?");
    let pairs: Vec<(Role, String)> = msgs.iter().map(|m| (m.role, m.content.clone())).collect();
    assert_eq!(
        pairs,
        vec![
            (Role::System, "Be brief.".to_string()),
            (Role::User, "hi".to_string()),
            (Role::Assistant, "yo".to_string()),
            (Role::User, "And now?".to_string()),
        ]
    );
    let inst = Instruction::new("Say yes");
    let msgs = instruct_messages(Some("Be brief."), &ctx, &inst);
    assert_eq!(msgs.len(), 4);
    assert_eq!(msgs[0].role, Role::System);
    assert_eq!(msgs[0].content, "Be brief.");
    assert_eq!(msgs[3].content, "Say yes");
}

#[test]
fn generative_slot_prompt() {
    let slot: GenerativeSlot<()> = GenerativeSlot::builder()
        .name("extract")
        .description("Extract entities")
        .param_labelled("text", "alloc::string::String", "Text to process")
        .param_labelled("limit", "u32", "Max entities")
        .require(Requirement::new("non-empty").min_length(1))
        .max_retries(3)
        .build();
    assert_eq!(slot.max_retries, 3);
    let args = JsonValue::Object(vec![("text".to_string(), JsonValue::Str("Tim Cook".to_string()))]);
    assert_eq!(
        slot.describe_call(&args),
        "You are implementing the function `extract`.\n\nExtract entities\n\n## Parameters\n- `text` (alloc::string::String): Text to process = \"Tim Cook\"\n- `limit` (u32): Max entities = (not provided)\n"
    );
    assert_eq!(slot.call_record(&args), "extract({\"text\":\"Tim Cook\"})");
    let schema = JsonValue::Object(vec![("type".to_string(), JsonValue::Str("object".to_string()))]);
    let mut slot = slot;
    let inst = slot.build_instruction(&args, schema, "Entities", DecodeFn::new(any_json_error));
    assert_eq!(inst.requirements.len(), 2);
    assert_eq!(inst.requirements[0].description, "output must be valid JSON that parses as Entities");
    assert!(inst.requirements[0].check("not json").is_fail());
    // The function's own requirement keeps its own rule.
    assert_eq!(inst.requirements[1].description, "non-empty");
    assert!(matches!(inst.requirements[1].rule, Rule::MinLength(1)));
    assert!(inst.requirements[1].check("").is_fail());
    assert!(inst.requirements[1].check("not json").is_pass());
    assert!(slot.requirements.is_empty());
    slot.take_back_requirements(inst);
    assert_eq!(slot.requirements.len(), 1);
    assert_eq!(slot.requirements[0].description, "non-empty");
}

#[test]
fn generative_slot_checks_the_users_closure() {
    let mut slot: GenerativeSlot<()> = GenerativeSlot::builder()
        .name("greet")
        .require(Requirement::new("says hello").validate(|s| s.contains("hello")))
        .build();
    let args = JsonValue::Object(vec![]);
    let inst = slot.build_instruction(&args, JsonValue::Null, "String", DecodeFn::new(any_json_error));
    assert_eq!(inst.requirements[1].check("\"goodbye\"").reason(), Some("requirement not met: says hello"));
    assert!(inst.requirements[1].check("\"hello\"").is_pass());
    slot.take_back_requirements(inst);
    assert_eq!(slot.requirements.len(), 1);
}
