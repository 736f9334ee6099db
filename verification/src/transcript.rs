//! The conversation transcript: an ordered list of role-tagged messages.
//!
//! The transcript is the process-lifetime state of the conversation engine.
//! It is created empty (or seeded with a system message), grows by appending
//! whole messages, and is only ever reset wholesale.

use vstd::prelude::*;

verus! {

/// The author of one message in a conversation.
#[derive(Clone, Copy, PartialEq, Eq, Structural, Debug)]
pub enum Role {
    System,
    User,
    Assistant,
}

/// The wire name of a role, as it appears in the JSON `"role"` field.
pub open spec fn role_label(r: Role) -> Seq<char> {
    match r {
        Role::System => "system"@,
        Role::User => "user"@,
        Role::Assistant => "assistant"@,
    }
}

/// One role-tagged message; immutable once appended to a transcript.
pub struct ChatMessage {
    pub role: Role,
    pub content: String,
}

/// The mathematical value of a message: its role and its text.
pub struct MessageModel {
    pub role: Role,
    pub content: Seq<char>,
}

impl View for ChatMessage {
    type V = MessageModel;

    open spec fn view(&self) -> MessageModel {
        MessageModel { role: self.role, content: self.content@ }
    }
}

/// The ordered, role-tagged message history of one conversation.
///
/// Messages preserve strict chronological append order; no message is
/// mutated after being appended, only the whole transcript may be reset.
pub struct Transcript {
    pub messages: Vec<ChatMessage>,
}

impl View for Transcript {
    type V = Seq<MessageModel>;

    open spec fn view(&self) -> Seq<MessageModel> {
        self.messages@.map(|i: int, m: ChatMessage| m@)
    }
}

impl Transcript {
    /// An empty conversation.
    pub fn new() -> (t: Transcript)
        ensures
            t@ == Seq::<MessageModel>::empty(),
    {
        let t = Transcript { messages: Vec::new() };
        proof {
            assert(t@ =~= Seq::<MessageModel>::empty());
        }
        t
    }

    pub fn len(&self) -> (n: usize)
        ensures
            n == self@.len(),
    {
        self.messages.len()
    }

    /// Appends one message at the end of the history.
    pub fn push(&mut self, role: Role, content: String)
        ensures
            final(self)@ == old(self)@.push(MessageModel { role, content: content@ }),
    {
        let ghost pre = self.messages@;
        self.messages.push(ChatMessage { role, content });
        proof {
            assert(final(self)@ =~= old(self)@.push(
                MessageModel { role, content: content@ },
            ));
        }
    }

    /// Removes the most recent message, if any; returns whether one was removed.
    pub fn pop(&mut self) -> (removed: bool)
        ensures
            removed == (old(self)@.len() > 0),
            old(self)@.len() > 0 ==> final(self)@ == old(self)@.drop_last(),
            old(self)@.len() == 0 ==> final(self)@ == old(self)@,
    {
        let n = self.messages.len();
        if n > 0 {
            self.messages.pop();
            proof {
                assert(final(self)@ =~= old(self)@.drop_last());
            }
            true
        } else {
            false
        }
    }

    /// Discards the history entirely.
    pub fn reset(&mut self)
        ensures
            final(self)@ == Seq::<MessageModel>::empty(),
    {
        self.messages = Vec::new();
        proof {
            assert(self@ =~= Seq::<MessageModel>::empty());
        }
    }

    /// Read access to the message at one position.
    pub fn get(&self, i: usize) -> (m: &ChatMessage)
        requires
            i < self@.len(),
        ensures
            m@ == self@[i as int],
    {
        &self.messages[i]
    }
}

} // verus!
