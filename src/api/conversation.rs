use vstd::prelude::*;

verus! {

/// Who speaks in one turn of a conversation.
#[derive(Debug, Clone, Copy, PartialEq, Eq, Structural)]
pub enum Role {
    System,
    User,
    Assistant,
}

/// The role name used in a request payload.
pub open spec fn role_name(r: Role) -> Seq<char> {
    match r {
        Role::System => "system"@,
        Role::User => "user"@,
        Role::Assistant => "assistant"@,
    }
}

impl Role {
    /// The lower-case name of the role, as a request payload spells it.
    pub fn name(&self) -> (r: String)
        ensures
            r@ == role_name(*self),
    {
        match self {
            Role::System => "system".to_owned(),
            Role::User => "user".to_owned(),
            Role::Assistant => "assistant".to_owned(),
        }
    }
}

/// One turn of a conversation: its role and its text.
#[derive(Debug, Clone)]
pub enum Message {
    System(String),
    User(String),
    Assistant(String),
}

impl View for Message {
    type V = (Role, Seq<char>);

    open spec fn view(&self) -> (Role, Seq<char>) {
        match self {
            Message::System(t) => (Role::System, t@),
            Message::User(t) => (Role::User, t@),
            Message::Assistant(t) => (Role::Assistant, t@),
        }
    }
}

impl Message {
    /// The message of the given role holding `text`.
    pub fn new(role: Role, text: String) -> (r: Message)
        ensures
            r@ == (role, text@),
    {
        match role {
            Role::System => Message::System(text),
            Role::User => Message::User(text),
            Role::Assistant => Message::Assistant(text),
        }
    }

    pub fn role(&self) -> (r: Role)
        ensures
            r == self@.0,
    {
        match self {
            Message::System(_) => Role::System,
            Message::User(_) => Role::User,
            Message::Assistant(_) => Role::Assistant,
        }
    }

    pub fn text(&self) -> (r: &String)
        ensures
            r@ == self@.1,
    {
        match self {
            Message::System(t) => t,
            Message::User(t) => t,
            Message::Assistant(t) => t,
        }
    }

    /// A message equal to this one.
    pub fn duplicate(&self) -> (r: Message)
        ensures
            r@ == self@,
    {
        Message::new(self.role(), self.text().clone())
    }
}

/// A role alternation rule was broken: `attempted` may not follow `last`
/// (`None` when the conversation holds no message yet).
#[derive(Debug, Clone, Copy, PartialEq, Eq)]
pub enum ConversationError {
    InvalidTransition { attempted: Role, last: Option<Role> },
}

/// The role that position `i` of a well-formed conversation holds: the
/// system message first, then user and assistant turns in alternation.
pub open spec fn expected_role(i: int) -> Role {
    if i == 0 {
        Role::System
    } else if i % 2 == 1 {
        Role::User
    } else {
        Role::Assistant
    }
}

/// Every message stands at the position its role allows.
pub open spec fn well_formed(s: Seq<(Role, Seq<char>)>) -> bool {
    forall|i: int| 0 <= i < s.len() ==> #[trigger] s[i].0 == expected_role(i)
}

pub open spec fn last_role(s: Seq<(Role, Seq<char>)>) -> Option<Role> {
    if s.len() == 0 {
        None
    } else {
        Some(s.last().0)
    }
}

/// The transition table: may a message of role `r` follow a last message of
/// role `last`?
pub open spec fn accepts(last: Option<Role>, r: Role) -> bool {
    match last {
        None => r == Role::System,
        Some(Role::System) => r == Role::User,
        Some(Role::User) => r == Role::Assistant,
        Some(Role::Assistant) => r == Role::User,
    }
}

/// The role given to an untagged message: an answer after a user turn, a
/// user turn otherwise.
pub open spec fn inferred_role(last: Option<Role>) -> Role {
    if last == Some(Role::User) {
        Role::Assistant
    } else {
        Role::User
    }
}

/// Appending by the transition table keeps a conversation well formed, and
/// the table accepts exactly the role that the next position expects.
pub proof fn lemma_accepts_expected(s: Seq<(Role, Seq<char>)>, r: Role)
    requires
        well_formed(s),
    ensures
        accepts(last_role(s), r) <==> r == expected_role(s.len() as int),
        s.len() > 0 ==> accepts(last_role(s), inferred_role(last_role(s))),
{
    if s.len() > 0 {
        assert(s[s.len() - 1].0 == expected_role(s.len() - 1));
    }
}

/// The header line that opens a section of role `r`.
pub open spec fn header_line(r: Role) -> Seq<char> {
    match r {
        Role::System => "### System"@,
        Role::User => "### User"@,
        Role::Assistant => "### Assistant"@,
    }
}

fn header(r: Role) -> (h: &'static str)
    ensures
        h@ == header_line(r),
{
    match r {
        Role::System => "### System",
        Role::User => "### User",
        Role::Assistant => "### Assistant",
    }
}

/// One message as a document section: a delimiter line, the role header,
/// another delimiter line, the text and a blank line.
pub open spec fn render_section(m: (Role, Seq<char>)) -> Seq<char> {
    "---\n"@ + header_line(m.0) + "\n---\n"@ + m.1 + "\n\n"@
}

pub open spec fn render_sections(s: Seq<(Role, Seq<char>)>) -> Seq<char>
    decreases s.len(),
{
    if s.len() == 0 {
        Seq::empty()
    } else {
        render_sections(s.drop_last()) + render_section(s.last())
    }
}

/// The whole document: a title line naming it, a blank line, the sections.
pub open spec fn render_document(title: Seq<char>, s: Seq<(Role, Seq<char>)>) -> Seq<char> {
    "# "@ + title + "\n\n"@ + render_sections(s)
}

/// An append that the transition table accepts keeps every message at the
/// position its role allows; with the failed appends, which change nothing,
/// every conversation reached by appends from a new one stays well formed.
pub proof fn lemma_append_keeps_well_formed(s: Seq<(Role, Seq<char>)>, r: Role, t: Seq<char>)
    requires
        well_formed(s),
        accepts(last_role(s), r),
    ensures
        well_formed(s.push((r, t))),
{
    lemma_accepts_expected(s, r);
    assert forall|i: int| 0 <= i < s.len() + 1 implies #[trigger] s.push((r, t))[i].0
        == expected_role(i) by {
        if i < s.len() {
            assert(s.push((r, t))[i] == s[i]);
        }
    }
}

/// The payload of a chat request: an ordered list of messages whose roles
/// alternate as the transition table demands.
#[derive(Debug, Clone)]
pub struct Conversation {
    messages: Vec<Message>,
}

impl View for Conversation {
    type V = Seq<(Role, Seq<char>)>;

    closed spec fn view(&self) -> Seq<(Role, Seq<char>)> {
        self.messages@.map_values(|m: Message| m@)
    }
}

/// The JSON object `{"role": role, "content": content}`.
pub uninterp spec fn role_content_value(role: Seq<char>, content: Seq<char>) -> serde_json::Value;

/// Builds the object `{"role": role, "content": content}`.
/// Relies on serde_json's `FromIterator<(K, V)> for Value`, which collects
/// key and value pairs into an object.
#[verifier::external_body]
pub(crate) fn role_content_object(role: String, content: String) -> (r: serde_json::Value)
    ensures
        r == role_content_value(role@, content@),
{
    serde_json::Value::from_iter([("role", role), ("content", content)])
}

#[verifier::external_type_specification]
#[verifier::external_body]
pub struct ExValue(serde_json::Value);

impl Conversation {
    pub open spec fn wf(&self) -> bool {
        well_formed(self@)
    }

    /// A conversation that opens with the given system message.
    pub fn new(sys_message: Message) -> (r: Conversation)
        requires
            sys_message@.0 == Role::System,
        ensures
            r@ == seq![sys_message@],
            r.wf(),
    {
        let r = Conversation { messages: vec![sys_message] };
        assert(r@ =~= seq![sys_message@]);
        r
    }

    /// The conversation before its first message: only a system message can
    /// be appended to it.
    pub fn empty() -> (r: Conversation)
        ensures
            r@ == Seq::<(Role, Seq<char>)>::empty(),
            r.wf(),
    {
        let r = Conversation { messages: Vec::new() };
        assert(r@ =~= Seq::<(Role, Seq<char>)>::empty());
        r
    }

    pub fn len(&self) -> (r: usize)
        ensures
            r == self@.len(),
    {
        self.messages.len()
    }

    pub fn message(&self, i: usize) -> (r: &Message)
        requires
            i < self@.len(),
        ensures
            r@ == self@[i as int],
    {
        &self.messages[i]
    }

    /// The most recent message, if any.
    pub fn last(&self) -> (r: Option<&Message>)
        ensures
            self@.len() == 0 ==> r is None,
            self@.len() > 0 ==> (r matches Some(m) && m@ == self@.last()),
    {
        let n = self.messages.len();
        if n == 0 {
            None
        } else {
            Some(&self.messages[n - 1])
        }
    }

    fn get_top_message_role(&self) -> (r: Option<Role>)
        ensures
            r == last_role(self@),
    {
        match self.last() {
            None => None,
            Some(m) => Some(m.role()),
        }
    }

    /// Appends `message` where the transition table allows its role after the
    /// last message; otherwise leaves the conversation as it was and reports
    /// the rejected transition.
    pub fn add_message(&mut self, message: Message) -> (r: Result<(), ConversationError>)
        requires
            old(self).wf(),
        ensures
            final(self).wf(),
            accepts(last_role(old(self)@), message@.0) ==> r is Ok && final(self)@ == old(
                self,
            )@.push(message@),
            !accepts(last_role(old(self)@), message@.0) ==> r == Err::<(), ConversationError>(
                ConversationError::InvalidTransition {
                    attempted: message@.0,
                    last: last_role(old(self)@),
                },
            ) && final(self)@ == old(self)@,
    {
        let last = self.get_top_message_role();
        let role = message.role();
        let ok = match role {
            Role::System => last.is_none(),
            Role::User => last == Some(Role::System) || last == Some(Role::Assistant),
            Role::Assistant => last == Some(Role::User),
        };
        if ok {
            proof {
                lemma_accepts_expected(self@, role);
            }
            self.messages.push(message);
            proof {
                assert(self@ =~= old(self)@.push(message@));
            }
            Ok(())
        } else {
            Err(ConversationError::InvalidTransition { attempted: role, last })
        }
    }

    pub fn system(&mut self, message: String) -> (r: Result<(), ConversationError>)
        requires
            old(self).wf(),
        ensures
            final(self).wf(),
            old(self)@.len() == 0 ==> r is Ok && final(self)@ == old(self)@.push(
                (Role::System, message@),
            ),
            old(self)@.len() > 0 ==> r == Err::<(), ConversationError>(
                ConversationError::InvalidTransition {
                    attempted: Role::System,
                    last: last_role(old(self)@),
                },
            ) && final(self)@ == old(self)@,
    {
        self.add_message(Message::System(message))
    }

    pub fn assistant(&mut self, message: String) -> (r: Result<(), ConversationError>)
        requires
            old(self).wf(),
        ensures
            final(self).wf(),
            last_role(old(self)@) == Some(Role::User) ==> r is Ok && final(self)@ == old(
                self,
            )@.push((Role::Assistant, message@)),
            last_role(old(self)@) != Some(Role::User) ==> r == Err::<(), ConversationError>(
                ConversationError::InvalidTransition {
                    attempted: Role::Assistant,
                    last: last_role(old(self)@),
                },
            ) && final(self)@ == old(self)@,
    {
        self.add_message(Message::Assistant(message))
    }

    pub fn user(&mut self, message: String) -> (r: Result<(), ConversationError>)
        requires
            old(self).wf(),
        ensures
            final(self).wf(),
            old(self)@.len() > 0 && last_role(old(self)@) != Some(Role::User) ==> r is Ok
                && final(self)@ == old(self)@.push((Role::User, message@)),
            old(self)@.len() == 0 || last_role(old(self)@) == Some(Role::User) ==> r == Err::<
                (),
                ConversationError,
            >(
                ConversationError::InvalidTransition {
                    attempted: Role::User,
                    last: last_role(old(self)@),
                },
            ) && final(self)@ == old(self)@,
    {
        self.add_message(Message::User(message))
    }

    /// Appends `message` under the role its position calls for: an assistant
    /// answer after a user turn, a user turn otherwise.
    pub fn auto_add(&mut self, message: String) -> (r: Result<(), ConversationError>)
        requires
            old(self).wf(),
        ensures
            final(self).wf(),
            old(self)@.len() > 0 ==> r is Ok && final(self)@ == old(self)@.push(
                (inferred_role(last_role(old(self)@)), message@),
            ),
            old(self)@.len() == 0 ==> r == Err::<(), ConversationError>(
                ConversationError::InvalidTransition { attempted: Role::User, last: None },
            ) && final(self)@ == old(self)@,
    {
        match self.get_top_message_role() {
            Some(Role::User) => self.add_message(Message::Assistant(message)),
            _ => self.add_message(Message::User(message)),
        }
    }

    /// The role and text of every message, in order, with the role spelt as
    /// a request payload spells it.
    pub fn to_role_content_pairs(&self) -> (r: Vec<(String, String)>)
        ensures
            r@.len() == self@.len(),
            forall|i: int|
                0 <= i < self@.len() ==> (#[trigger] r@[i]).0@ == role_name(self@[i].0)
                    && r@[i].1@ == self@[i].1,
    {
        let mut out: Vec<(String, String)> = Vec::new();
        let n = self.messages.len();
        for i in 0..n
            invariant
                n == self@.len(),
                out@.len() == i,
                forall|j: int|
                    0 <= j < i ==> (#[trigger] out@[j]).0@ == role_name(self@[j].0)
                        && out@[j].1@ == self@[j].1,
        {
            let m = self.message(i);
            out.push((m.role().name(), m.text().clone()));
        }
        out
    }

    /// The messages as request payload objects `{"role": .., "content": ..}`,
    /// one for each message and in the same order.
    pub fn to_messages(&self) -> (r: Vec<serde_json::Value>)
        ensures
            r@.len() == self@.len(),
            forall|i: int|
                0 <= i < self@.len() ==> #[trigger] r@[i] == role_content_value(
                    role_name(self@[i].0),
                    self@[i].1,
                ),
    {
        let mut out: Vec<serde_json::Value> = Vec::new();
        let n = self.messages.len();
        for i in 0..n
            invariant
                n == self@.len(),
                out@.len() == i,
                forall|j: int|
                    0 <= j < i ==> #[trigger] out@[j] == role_content_value(
                        role_name(self@[j].0),
                        self@[j].1,
                    ),
        {
            let m = self.message(i);
            out.push(role_content_object(m.role().name(), m.text().clone()));
        }
        out
    }

    /// The editable document: a title line, then one section for each
    /// message.
    pub fn to_markdown(&self, filename: String) -> (r: String)
        ensures
            r@ == render_document(filename@, self@),
    {
        let mut markdown = String::new();
        markdown.append("# ");
        markdown.append(filename.as_str());
        markdown.append("\n\n");
        let n = self.messages.len();
        for i in 0..n
            invariant
                n == self@.len(),
                markdown@ == "# "@ + filename@ + "\n\n"@ + render_sections(self@.take(i as int)),
        {
            let m = self.message(i);
            markdown.append("---\n");
            markdown.append(header(m.role()));
            markdown.append("\n---\n");
            markdown.append(m.text().as_str());
            markdown.append("\n\n");
            proof {
                assert(self@.take(i + 1).drop_last() =~= self@.take(i as int));
            }
        }
        proof {
            assert(self@.take(n as int) =~= self@);
        }
        markdown
    }
}

} // verus!
