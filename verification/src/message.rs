//! Chat messages: a role and a text body.
use vstd::prelude::*;

verus! {

/// Who authored a chat message.
#[derive(Clone, Copy, Debug, PartialEq, Eq, Structural)]
pub enum Role {
    System,
    User,
    Assistant,
    Tool,
}

impl Role {
    /// Wire name of the role in chat-completion APIs.
    pub open spec fn wire_name(self) -> Seq<char> {
        match self {
            Role::System => seq!['s', 'y', 's', 't', 'e', 'm'],
            Role::User => seq!['u', 's', 'e', 'r'],
            Role::Assistant => seq!['a', 's', 's', 'i', 's', 't', 'a', 'n', 't'],
            Role::Tool => seq!['t', 'o', 'o', 'l'],
        }
    }

    /// The lower-case wire name of this role.
    pub fn as_str(&self) -> (s: String)
        ensures
            s@ == self.wire_name(),
    {
        let mut s = String::new();
        match self {
            Role::System => {
                crate::text::push_char(&mut s, 's');
                crate::text::push_char(&mut s, 'y');
                crate::text::push_char(&mut s, 's');
                crate::text::push_char(&mut s, 't');
                crate::text::push_char(&mut s, 'e');
                crate::text::push_char(&mut s, 'm');
            },
            Role::User => {
                crate::text::push_char(&mut s, 'u');
                crate::text::push_char(&mut s, 's');
                crate::text::push_char(&mut s, 'e');
                crate::text::push_char(&mut s, 'r');
            },
            Role::Assistant => {
                crate::text::push_char(&mut s, 'a');
                crate::text::push_char(&mut s, 's');
                crate::text::push_char(&mut s, 's');
                crate::text::push_char(&mut s, 'i');
                crate::text::push_char(&mut s, 's');
                crate::text::push_char(&mut s, 't');
                crate::text::push_char(&mut s, 'a');
                crate::text::push_char(&mut s, 'n');
                crate::text::push_char(&mut s, 't');
            },
            Role::Tool => {
                crate::text::push_char(&mut s, 't');
                crate::text::push_char(&mut s, 'o');
                crate::text::push_char(&mut s, 'o');
                crate::text::push_char(&mut s, 'l');
            },
        }
        assert(s@ =~= self.wire_name());
        s
    }

    /// The role under which a message goes to a backend that knows no tool
    /// role: a tool message is sent as a user message.
    pub fn ollama_role(&self) -> (r: Role)
        ensures
            r == (if *self == Role::Tool { Role::User } else { *self }),
    {
        match self {
            Role::Tool => Role::User,
            other => *other,
        }
    }
}

/// One message of a conversation.
#[derive(Debug)]
pub struct ChatMessage {
    pub role: Role,
    pub content: String,
}

impl ChatMessage {
    /// Role and text of the message.
    pub open spec fn view_pair(&self) -> (Role, Seq<char>) {
        (self.role, self.content@)
    }

    pub fn new(role: Role, content: &str) -> (m: ChatMessage)
        ensures
            m.role == role,
            m.content@ == content@,
    {
        ChatMessage { role, content: content.to_owned() }
    }

    pub fn system(content: &str) -> (m: ChatMessage)
        ensures
            m.role == Role::System,
            m.content@ == content@,
    {
        ChatMessage::new(Role::System, content)
    }

    pub fn user(content: &str) -> (m: ChatMessage)
        ensures
            m.role == Role::User,
            m.content@ == content@,
    {
        ChatMessage::new(Role::User, content)
    }

    pub fn assistant(content: &str) -> (m: ChatMessage)
        ensures
            m.role == Role::Assistant,
            m.content@ == content@,
    {
        ChatMessage::new(Role::Assistant, content)
    }
}

impl Clone for ChatMessage {
    fn clone(&self) -> (r: Self)
        ensures
            r == *self,
    {
        ChatMessage { role: self.role, content: self.content.clone() }
    }
}

/// Role tests on chat messages.
pub trait ChatMessageExt {
    spec fn role_of(&self) -> Role;

    fn is_user(&self) -> (b: bool)
        ensures
            b == (self.role_of() == Role::User),
    ;

    fn is_assistant(&self) -> (b: bool)
        ensures
            b == (self.role_of() == Role::Assistant),
    ;

    fn is_system(&self) -> (b: bool)
        ensures
            b == (self.role_of() == Role::System),
    ;
}

impl ChatMessageExt for ChatMessage {
    open spec fn role_of(&self) -> Role {
        self.role
    }

    fn is_user(&self) -> (b: bool) {
        self.role == Role::User
    }

    fn is_assistant(&self) -> (b: bool) {
        self.role == Role::Assistant
    }

    fn is_system(&self) -> (b: bool) {
        self.role == Role::System
    }
}

} // verus!
