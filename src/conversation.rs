use vstd::prelude::*;
use crate::api::conversation::{role_content_object, role_content_value};

verus! {

/// One turn of a transcript kept in the heading style of `MdParser`.
#[derive(Debug, Clone)]
pub enum Message {
    System(String),
    User(String),
    Agent(String),
}

/// The role name in a request payload of each kind of message.
pub open spec fn payload_role(m: Message) -> Seq<char> {
    match m {
        Message::System(_) => "system"@,
        Message::User(_) => "user"@,
        Message::Agent(_) => "assistant"@,
    }
}

pub open spec fn content_of(m: Message) -> Seq<char> {
    match m {
        Message::System(c) => c@,
        Message::User(c) => c@,
        Message::Agent(c) => c@,
    }
}

impl Message {
    /// The role name and the content of the message.
    pub fn role_and_content(&self) -> (r: (String, String))
        ensures
            r.0@ == payload_role(*self),
            r.1@ == content_of(*self),
    {
        match self {
            Message::System(c) => ("system".to_owned(), c.clone()),
            Message::User(c) => ("user".to_owned(), c.clone()),
            Message::Agent(c) => ("assistant".to_owned(), c.clone()),
        }
    }

    /// The request payload object `{"role": .., "content": ..}` of the
    /// message, with the members of `role_and_content`.
    fn to_json_message(&self) -> (r: serde_json::Value)
        ensures
            r == role_content_value(payload_role(*self), content_of(*self)),
    {
        let (role, content) = self.role_and_content();
        role_content_object(role, content)
    }
}

/// A transcript that keeps its messages in the order they were added,
/// without checking the order of their roles.
#[derive(Debug, Clone)]
pub struct Messages {
    messages: Vec<Message>,
}

impl View for Messages {
    type V = Seq<Message>;

    closed spec fn view(&self) -> Seq<Message> {
        self.messages@
    }
}

impl Messages {
    pub fn new() -> (r: Self)
        ensures
            r@ == Seq::<Message>::empty(),
    {
        Messages { messages: Vec::new() }
    }

    pub fn set_messages(messages: Vec<Message>) -> (r: Self)
        ensures
            r@ == messages@,
    {
        Messages { messages }
    }

    pub fn system(&mut self, message: &str)
        ensures
            final(self)@.len() == old(self)@.len() + 1,
            final(self)@.take(old(self)@.len() as int) == old(self)@,
            final(self)@.last() matches Message::System(c) && c@ == message@,
    {
        self.messages.push(Message::System(message.to_owned()));
        proof {
            assert(final(self)@.take(old(self)@.len() as int) =~= old(self)@);
        }
    }

    pub fn user(&mut self, message: &str)
        ensures
            final(self)@.len() == old(self)@.len() + 1,
            final(self)@.take(old(self)@.len() as int) == old(self)@,
            final(self)@.last() matches Message::User(c) && c@ == message@,
    {
        self.messages.push(Message::User(message.to_owned()));
        proof {
            assert(final(self)@.take(old(self)@.len() as int) =~= old(self)@);
        }
    }

    pub fn agent(&mut self, message: &str)
        ensures
            final(self)@.len() == old(self)@.len() + 1,
            final(self)@.take(old(self)@.len() as int) == old(self)@,
            final(self)@.last() matches Message::Agent(c) && c@ == message@,
    {
        self.messages.push(Message::Agent(message.to_owned()));
        proof {
            assert(final(self)@.take(old(self)@.len() as int) =~= old(self)@);
        }
    }

    /// The role name and content of every message, in order.
    pub fn get_role_content_pairs(&self) -> (r: Vec<(String, String)>)
        ensures
            r@.len() == self@.len(),
            forall|i: int|
                0 <= i < self@.len() ==> (#[trigger] r@[i]).0@ == payload_role(self@[i])
                    && r@[i].1@ == content_of(self@[i]),
    {
        let mut out: Vec<(String, String)> = Vec::new();
        let n = self.messages.len();
        for i in 0..n
            invariant
                n == self@.len(),
                out@.len() == i,
                forall|j: int|
                    0 <= j < i ==> (#[trigger] out@[j]).0@ == payload_role(self@[j])
                        && out@[j].1@ == content_of(self@[j]),
        {
            out.push(self.messages[i].role_and_content());
        }
        out
    }

    /// The messages as request payload objects `{"role": .., "content": ..}`,
    /// one for each message and in the same order.
    pub fn get_messages(&self) -> (r: Vec<serde_json::Value>)
        ensures
            r@.len() == self@.len(),
            forall|i: int|
                0 <= i < self@.len() ==> #[trigger] r@[i] == role_content_value(
                    payload_role(self@[i]),
                    content_of(self@[i]),
                ),
    {
        let mut out: Vec<serde_json::Value> = Vec::new();
        let n = self.messages.len();
        for i in 0..n
            invariant
                n == self@.len(),
                out@.len() == i,
                forall|j: int|
                    0 <= j < i ==> #[trigger] out@[j] == role_content_value(
                        payload_role(self@[j]),
                        content_of(self@[j]),
                    ),
        {
            out.push(self.messages[i].to_json_message());
        }
        out
    }

    pub fn get_conversation(&self) -> (r: &[Message])
        ensures
            r@ == self@,
    {
        self.messages.as_slice()
    }
}

} // verus!
