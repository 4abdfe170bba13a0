//! Conversation history: an append-only list of turns.
use vstd::prelude::*;
use crate::message::{ChatMessage, Role};
use crate::output::ModelOutput;

verus! {

/// A single conversation turn: an input message and its optional output.
#[derive(Debug)]
pub struct Turn {
    pub input: ChatMessage,
    pub output: Option<ModelOutput>,
}

impl Clone for Turn {
    fn clone(&self) -> (r: Self)
        ensures
            r == *self,
    {
        let output = match &self.output {
            Some(o) => Some(o.clone()),
            None => None,
        };
        Turn { input: self.input.clone(), output }
    }
}

/// Immutable conversation history. Each operation returns a new `Context`;
/// the original is unchanged.
#[derive(Debug)]
pub struct Context {
    turns: Vec<Turn>,
}

/// The chat messages that stand for one turn: its input, then the
/// assistant's reply when there is one.
pub open spec fn turn_messages(t: Turn) -> Seq<(Role, Seq<char>)> {
    match t.output {
        Some(o) => seq![t.input.view_pair(), (Role::Assistant, o.content@)],
        None => seq![t.input.view_pair()],
    }
}

/// The flattened message list of a sequence of turns.
pub open spec fn flatten_turns(turns: Seq<Turn>) -> Seq<(Role, Seq<char>)>
    decreases turns.len(),
{
    if turns.len() == 0 {
        Seq::empty()
    } else {
        flatten_turns(turns.drop_last()) + turn_messages(turns.last())
    }
}

/// The most recent output among `turns`.
pub open spec fn last_output_of(turns: Seq<Turn>) -> Option<ModelOutput>
    decreases turns.len(),
{
    if turns.len() == 0 {
        None
    } else {
        match turns.last().output {
            Some(o) => Some(o),
            None => last_output_of(turns.drop_last()),
        }
    }
}

/// Role and text of each message.
pub open spec fn message_views(ms: Seq<ChatMessage>) -> Seq<(Role, Seq<char>)> {
    ms.map_values(|m: ChatMessage| m.view_pair())
}

impl View for Context {
    type V = Seq<Turn>;

    closed spec fn view(&self) -> Seq<Turn> {
        self.turns@
    }
}

impl Default for Context {
    fn default() -> (c: Self)
        ensures
            c@ == Seq::<Turn>::empty(),
    {
        Context::new()
    }
}

impl Clone for Context {
    fn clone(&self) -> (c: Self)
        ensures
            c@ == self@,
    {
        Context { turns: clone_turns(&self.turns) }
    }
}

fn clone_turns(turns: &Vec<Turn>) -> (r: Vec<Turn>)
    ensures
        r@ == turns@,
{
    let mut r: Vec<Turn> = Vec::new();
    let mut i: usize = 0;
    while i < turns.len()
        invariant
            i <= turns.len(),
            r@ == turns@.take(i as int),
        decreases turns.len() - i,
    {
        r.push(turns[i].clone());
        assert(turns@.take(i + 1) =~= turns@.take(i as int).push(turns@[i as int]));
        i = i + 1;
    }
    assert(turns@.take(turns.len() as int) =~= turns@);
    r
}

impl Context {
    pub fn new() -> (c: Self)
        ensures
            c@ == Seq::<Turn>::empty(),
    {
        Context { turns: Vec::new() }
    }

    /// Append a turn, returning a new Context.
    pub fn push(&self, turn: Turn) -> (c: Self)
        ensures
            c@ == self@.push(turn),
    {
        let mut turns = clone_turns(&self.turns);
        turns.push(turn);
        Context { turns }
    }

    /// Get the most recent model output, if any.
    pub fn last_output(&self) -> (r: Option<&ModelOutput>)
        ensures
            r matches Some(o) ==> last_output_of(self@) == Some(*o),
            r is None ==> last_output_of(self@) is None,
    {
        let mut i: usize = self.turns.len();
        assert(self.turns@.take(i as int) =~= self.turns@);
        while i > 0
            invariant
                i <= self.turns.len(),
                last_output_of(self.turns@) == last_output_of(self.turns@.take(i as int)),
            decreases i,
        {
            assert(self.turns@.take(i as int).drop_last() =~= self.turns@.take(i - 1));
            match &self.turns[i - 1].output {
                Some(o) => {
                    return Some(o);
                },
                None => {},
            }
            i = i - 1;
        }
        None
    }

    /// Flatten the context into a list of ChatMessages suitable for an API call.
    pub fn messages(&self) -> (ms: Vec<ChatMessage>)
        ensures
            message_views(ms@) == flatten_turns(self@),
    {
        let mut msgs: Vec<ChatMessage> = Vec::new();
        let mut i: usize = 0;
        while i < self.turns.len()
            invariant
                i <= self.turns.len(),
                message_views(msgs@) == flatten_turns(self.turns@.take(i as int)),
            decreases self.turns.len() - i,
        {
            let turn = &self.turns[i];
            msgs.push(turn.input.clone());
            match &turn.output {
                Some(output) => {
                    msgs.push(ChatMessage::assistant(output.content.as_str()));
                },
                None => {},
            }
            assert(self.turns@.take(i + 1).drop_last() =~= self.turns@.take(i as int));
            assert(message_views(msgs@) =~= flatten_turns(self.turns@.take(i + 1)));
            i = i + 1;
        }
        assert(self.turns@.take(self.turns.len() as int) =~= self.turns@);
        msgs
    }

    pub fn len(&self) -> (n: usize)
        ensures
            n == self@.len(),
    {
        self.turns.len()
    }

    pub fn is_empty(&self) -> (b: bool)
        ensures
            b == (self@.len() == 0),
    {
        self.turns.len() == 0
    }

    pub fn turns(&self) -> (ts: &[Turn])
        ensures
            ts@ == self@,
    {
        self.turns.as_slice()
    }
}

/// Appending a turn adds exactly that turn's messages to the flattened
/// history, after the messages that were there.
pub proof fn law_messages_of_push(turns: Seq<Turn>, t: Turn)
    ensures
        flatten_turns(turns.push(t)) == flatten_turns(turns) + turn_messages(t),
{
    assert(turns.push(t).drop_last() =~= turns);
}

/// After a turn with an output is appended, that output is the most recent
/// one; a turn without output leaves the most recent output as it was.
pub proof fn law_last_output_of_push(turns: Seq<Turn>, t: Turn)
    ensures
        t.output is Some ==> last_output_of(turns.push(t)) == t.output,
        t.output is None ==> last_output_of(turns.push(t)) == last_output_of(turns),
{
    assert(turns.push(t).drop_last() =~= turns);
}

/// The flattened history has one message per turn plus one per output.
pub open spec fn count_outputs(turns: Seq<Turn>) -> nat
    decreases turns.len(),
{
    if turns.len() == 0 {
        0
    } else {
        count_outputs(turns.drop_last()) + if turns.last().output is Some {
            1nat
        } else {
            0nat
        }
    }
}

/// The number of flattened messages is the number of turns plus the number
/// of turns that carry an output.
pub proof fn law_messages_len(turns: Seq<Turn>)
    ensures
        flatten_turns(turns).len() == turns.len() + count_outputs(turns),
    decreases turns.len(),
{
    if turns.len() > 0 {
        law_messages_len(turns.drop_last());
    }
}

} // verus!
