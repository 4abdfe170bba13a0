//! How a session threads its conversation: the messages of each request and
//! the context after each exchange.
use vstd::prelude::*;
use crate::context::{flatten_turns, message_views, Context, Turn};
use crate::instruction::{prompt_text, Instruction};
use crate::message::{ChatMessage, Role};
use crate::output::ModelOutput;
use crate::requirement::{decodes_as, JsonDecoder, Requirement};
use crate::text::push_str;

verus! {

/// The messages that open every request: the session's system prompt, if
/// it has one.
pub open spec fn system_views(system_prompt: Option<Seq<char>>) -> Seq<(Role, Seq<char>)> {
    match system_prompt {
        Some(p) => seq![(Role::System, p)],
        None => Seq::empty(),
    }
}

/// The view of an optional prompt.
pub open spec fn prompt_view(system_prompt: Option<&str>) -> Option<Seq<char>> {
    match system_prompt {
        Some(p) => Some(p@),
        None => None,
    }
}

/// A fresh message list that holds the system prompt, if any.
fn system_opening(system_prompt: Option<&str>) -> (ms: Vec<ChatMessage>)
    ensures
        message_views(ms@) == system_views(prompt_view(system_prompt)),
{
    let mut ms: Vec<ChatMessage> = Vec::new();
    match system_prompt {
        Some(p) => {
            ms.push(ChatMessage::system(p));
            assert(message_views(ms@) =~= seq![(Role::System, p@)]);
        },
        None => {
            assert(message_views(ms@) =~= Seq::<(Role, Seq<char>)>::empty());
        },
    }
    ms
}

/// Messages of a chat request: the system prompt, if any, then the
/// conversation so far, then the user's new message.
pub fn chat_messages(system_prompt: Option<&str>, context: &Context, content: &str) -> (ms: Vec<
    ChatMessage,
>)
    ensures
        message_views(ms@) == system_views(prompt_view(system_prompt)) + flatten_turns(
            context@,
        ).push((Role::User, content@)),
{
    let mut ms = system_opening(system_prompt);
    let ghost opening = ms@;
    let mut history = context.messages();
    let ghost hist = history@;
    ms.append(&mut history);
    let ghost before = ms@;
    ms.push(ChatMessage::user(content));
    assert(message_views(before) =~= message_views(opening) + message_views(hist));
    assert(message_views(ms@) =~= message_views(before).push((Role::User, content@)));
    ms
}

/// Messages of an instruction request: the system prompt, if any, then the
/// conversation so far, then the instruction's prompt as a user message.
pub fn instruct_messages(system_prompt: Option<&str>, context: &Context, instruction: &Instruction) -> (ms:
    Vec<ChatMessage>)
    ensures
        message_views(ms@) == system_views(prompt_view(system_prompt)) + flatten_turns(
            context@,
        ).push((Role::User, prompt_text(*instruction))),
{
    let mut ms = system_opening(system_prompt);
    let ghost opening = ms@;
    let mut history = context.messages();
    let ghost hist = history@;
    ms.append(&mut history);
    let ghost before = ms@;
    let mut extra = instruction.to_messages();
    ms.append(&mut extra);
    assert(message_views(before) =~= message_views(opening) + message_views(hist));
    assert(message_views(ms@) =~= message_views(before).push((Role::User, prompt_text(*instruction))));
    ms
}

/// The context after an exchange: the input message and the output are
/// appended as one turn.
pub fn record_turn(context: &Context, input: ChatMessage, output: ModelOutput) -> (c: Context)
    ensures
        c@ == context@.push(Turn { input, output: Some(output) }),
{
    context.push(Turn { input, output: Some(output) })
}

/// Description of the parse requirement added for a target type.
pub open spec fn parse_requirement_text(target: Seq<char>) -> Seq<char> {
    "output must be valid JSON that parses as "@ + target
}

/// The instruction of a typed generation: a requirement that the output
/// parses as `target` (with `decoder`) is added last, so that output that
/// does not parse is retried.
pub fn with_parse_requirement<D: JsonDecoder + 'static>(instruction: Instruction, target: &str, decoder: D) -> (r:
    Instruction)
    ensures
        r.description == instruction.description,
        r.grounding == instruction.grounding,
        r.examples == instruction.examples,
        r.json_schema == instruction.json_schema,
        r.schema_type == instruction.schema_type,
        r.requirements@.len() == instruction.requirements@.len() + 1,
        r.requirements@.take(instruction.requirements@.len() as int) == instruction.requirements@,
        r.requirements@.last().description@ == parse_requirement_text(target@),
        decodes_as(r.requirements@.last().rule, decoder),
{
    let mut text = "output must be valid JSON that parses as ".to_owned();
    push_str(&mut text, target);
    let req = Requirement::new(text.as_str()).parses_with(decoder);
    let ghost before = instruction.requirements@;
    let r = instruction.require(req);
    assert(r.requirements@.take(before.len() as int) =~= before);
    r
}

} // verus!
