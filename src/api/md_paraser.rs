use vstd::prelude::*;
use crate::api::conversation::{
    Conversation, ConversationError, Message, Role, expected_role, header_line, inferred_role,
    render_document, render_section, render_sections, well_formed,
};

verus! {

/// The pieces of `s` between its line breaks, in order; there is always at
/// least one, and a line break at the end opens an empty last piece.
pub open spec fn split_pieces(s: Seq<char>) -> Seq<Seq<char>>
    decreases s.len(),
{
    if s.len() == 0 {
        seq![Seq::empty()]
    } else {
        let p = split_pieces(s.drop_last());
        if s.last() == '\n' {
            p.push(Seq::empty())
        } else {
            p.update(p.len() - 1, p.last().push(s.last()))
        }
    }
}

/// The pieces of a text between its line breaks, where a line break at the
/// end closes the last piece instead of opening an empty one.
pub open spec fn raw_lines(s: Seq<char>) -> Seq<Seq<char>> {
    let p = split_pieces(s);
    if p.last().len() == 0 {
        p.drop_last()
    } else {
        p
    }
}

pub open spec fn ends_with_cr(l: Seq<char>) -> bool {
    l.len() > 0 && l.last() == '\r'
}

/// A line without the carriage return that ends it, if any.
pub open spec fn trim_cr(l: Seq<char>) -> Seq<char> {
    if ends_with_cr(l) {
        l.drop_last()
    } else {
        l
    }
}

/// The lines of a text: a line ends at a line break, or at a carriage return
/// and a line break, neither of which belongs to it; a line break at the end
/// closes the last line instead of opening an empty one, and a last line
/// without a line break keeps all its characters.
pub open spec fn lines_of(s: Seq<char>) -> Seq<Seq<char>> {
    let p = split_pieces(s);
    let closed = p.drop_last().map_values(|l: Seq<char>| trim_cr(l));
    if p.last().len() == 0 {
        closed
    } else {
        closed.push(p.last())
    }
}

/// Where no piece ends with a carriage return, the lines are the pieces.
proof fn lemma_lines_plain(s: Seq<char>)
    requires
        forall|i: int| 0 <= i < raw_lines(s).len() ==> !ends_with_cr(#[trigger] raw_lines(s)[i]),
    ensures
        lines_of(s) == raw_lines(s),
{
    lemma_split_pieces_nonempty(s);
    let p = split_pieces(s);
    assert forall|i: int| 0 <= i < p.len() - 1 implies !ends_with_cr(#[trigger] p[i]) by {
        assert(raw_lines(s)[i] == p[i]);
    }
    assert(p.drop_last().map_values(|l: Seq<char>| trim_cr(l)) =~= p.drop_last());
    if p.last().len() != 0 {
        assert(p.drop_last().push(p.last()) =~= p);
    }
}

pub proof fn lemma_split_pieces_nonempty(s: Seq<char>)
    ensures
        split_pieces(s).len() >= 1,
    decreases s.len(),
{
    if s.len() > 0 {
        lemma_split_pieces_nonempty(s.drop_last());
    }
}

pub open spec fn views(v: Seq<String>) -> Seq<Seq<char>> {
    v.map_values(|l: String| l@)
}

/// Appends one character.
/// Relies on std's `String::push`.
#[verifier::external_body]
fn push_char(s: &mut String, c: char)
    ensures
        final(s)@ == old(s)@.push(c),
{
    s.push(c)
}

/// Splits a text into its lines, as `lines_of` describes them.
pub fn split_lines(text: &str) -> (r: Vec<String>)
    ensures
        views(r@) == lines_of(text@),
{
    let mut lines: Vec<String> = Vec::new();
    let mut current = String::new();
    // a carriage return read last, not yet known to end a line
    let mut pending_cr = false;
    for c in it: text.chars()
        invariant
            it.seq() == text@,
            ({
                let p = split_pieces(text@.take(it.index() as int));
                &&& views(lines@) == p.drop_last().map_values(|l: Seq<char>| trim_cr(l))
                &&& p.last() == if pending_cr {
                    current@.push('\r')
                } else {
                    current@
                }
                &&& !pending_cr ==> !ends_with_cr(current@)
            }),
    {
        let ghost p = split_pieces(text@.take(it.index() as int));
        proof {
            lemma_split_pieces_nonempty(text@.take(it.index() as int));
            assert(text@.take(it.index() + 1).drop_last() =~= text@.take(it.index() as int));
        }
        let ghost old_lines = views(lines@);
        let ghost old_cur = current@;
        if c == '\n' {
            let mut done = String::new();
            std::mem::swap(&mut done, &mut current);
            lines.push(done);
            pending_cr = false;
            proof {
                let q = split_pieces(text@.take(it.index() + 1));
                assert(q == p.push(Seq::empty()));
                assert(q.drop_last() =~= p);
                assert(trim_cr(p.last()) =~= old_cur);
                assert(views(lines@) =~= old_lines.push(old_cur));
                assert(p.map_values(|l: Seq<char>| trim_cr(l)) =~= p.drop_last().map_values(
                    |l: Seq<char>| trim_cr(l),
                ).push(trim_cr(p.last())));
                assert(views(lines@) =~= q.drop_last().map_values(|l: Seq<char>| trim_cr(l)));
            }
        } else if c == '\r' {
            if pending_cr {
                push_char(&mut current, '\r');
            }
            pending_cr = true;
            proof {
                let q = split_pieces(text@.take(it.index() + 1));
                assert(q.drop_last() =~= p.drop_last());
            }
        } else {
            if pending_cr {
                push_char(&mut current, '\r');
            }
            push_char(&mut current, c);
            pending_cr = false;
            proof {
                let q = split_pieces(text@.take(it.index() + 1));
                assert(q.drop_last() =~= p.drop_last());
            }
        }
    }
    proof {
        assert(text@.take(text@.len() as int) =~= text@);
        lemma_split_pieces_nonempty(text@);
    }
    if pending_cr {
        push_char(&mut current, '\r');
    }
    if current.as_str().unicode_len() > 0 {
        lines.push(current);
    }
    proof {
        assert(views(lines@) =~= lines_of(text@));
    }
    lines
}

/// A line that opens or closes a section header: it starts with three
/// hyphens.
pub open spec fn is_delimiter(l: Seq<char>) -> bool {
    l.len() >= 3 && l[0] == '-' && l[1] == '-' && l[2] == '-'
}

/// The role that a header line names, if it is one.
pub open spec fn header_role(l: Seq<char>) -> Option<Role> {
    if l == header_line(Role::System) {
        Some(Role::System)
    } else if l == header_line(Role::User) {
        Some(Role::User)
    } else if l == header_line(Role::Assistant) {
        Some(Role::Assistant)
    } else {
        None
    }
}

/// The lines joined with a line break between each two.
pub open spec fn join_lines(ls: Seq<Seq<char>>) -> Seq<char>
    decreases ls.len(),
{
    if ls.len() == 0 {
        Seq::empty()
    } else if ls.len() == 1 {
        ls[0]
    } else {
        join_lines(ls.drop_last()) + seq!['\n'] + ls.last()
    }
}

/// The lines, each followed by a line break.
pub open spec fn concat_lines(ls: Seq<Seq<char>>) -> Seq<char>
    decreases ls.len(),
{
    if ls.len() == 0 {
        Seq::empty()
    } else {
        concat_lines(ls.drop_last()) + ls.last() + seq!['\n']
    }
}

/// The buffer without the two lines that turned out to open a header.
pub open spec fn strip_header(b: Seq<Seq<char>>) -> Seq<Seq<char>> {
    if b.len() >= 2 {
        b.take(b.len() - 2)
    } else {
        b
    }
}

/// The state of a scan: the section being read, the lines gathered for it,
/// the messages closed so far, and the last three lines seen, oldest first.
pub ghost struct ScanState {
    pub section: Option<Role>,
    pub buffer: Seq<Seq<char>>,
    pub messages: Seq<(Role, Seq<char>)>,
    pub w0: Seq<char>,
    pub w1: Seq<char>,
    pub w2: Seq<char>,
}

pub open spec fn initial_scan_state() -> ScanState {
    ScanState {
        section: None,
        buffer: Seq::empty(),
        messages: Seq::empty(),
        w0: Seq::empty(),
        w1: Seq::empty(),
        w2: Seq::empty(),
    }
}

/// Closes the open section, if any, as a message holding `text`.
pub open spec fn flush(s: ScanState, text: Seq<char>) -> ScanState {
    ScanState {
        buffer: Seq::empty(),
        messages: match s.section {
            Some(r) => s.messages.push((r, text)),
            None => s.messages,
        },
        ..s
    }
}

/// One line read by the scanner. The line enters the window of the last
/// three lines. Where the window is a delimiter, a role header and a
/// delimiter, a section of that role opens: a system header drops what was
/// gathered, another header closes the open section with what was gathered,
/// less the two header lines already taken in. Any other line is gathered
/// while a section is open.
pub open spec fn scan_step(s: ScanState, line: Seq<char>) -> ScanState {
    let t = ScanState { w0: s.w1, w1: s.w2, w2: line, ..s };
    let h = header_role(t.w1);
    if is_delimiter(t.w0) && is_delimiter(t.w2) && h is Some {
        if h == Some(Role::System) {
            ScanState { section: Some(Role::System), buffer: Seq::empty(), ..t }
        } else {
            ScanState { section: h, ..flush(t, join_lines(strip_header(t.buffer))) }
        }
    } else if t.section is Some {
        ScanState { buffer: t.buffer.push(line), ..t }
    } else {
        t
    }
}

/// The scan of `ls`, line by line, from state `s`.
pub open spec fn scan_from(s: ScanState, ls: Seq<Seq<char>>) -> ScanState
    decreases ls.len(),
{
    if ls.len() == 0 {
        s
    } else {
        scan_step(scan_from(s, ls.drop_last()), ls.last())
    }
}

/// The end of the input: the open section is closed with every gathered
/// line, and no section stays open.
pub open spec fn finalize_state(s: ScanState) -> ScanState {
    ScanState { section: None, ..flush(s, concat_lines(s.buffer)) }
}

/// Why a document does not give a conversation.
#[derive(Debug, Clone, Copy, PartialEq, Eq)]
pub enum DocumentError {
    /// The document holds no section.
    NoMessages,
    /// The first section is not a system section.
    MissingSystem,
    /// A later section could not be appended.
    StructuralViolation(ConversationError),
}

/// The conversation built from scanned messages: the first must be a system
/// message; each later one is appended under the role its position calls
/// for, and a later system message is refused.
pub open spec fn build_conversation(raw: Seq<(Role, Seq<char>)>) -> Result<
    Seq<(Role, Seq<char>)>,
    DocumentError,
>
    decreases raw.len(),
{
    if raw.len() == 0 {
        Err(DocumentError::NoMessages)
    } else if raw.len() == 1 {
        if raw[0].0 == Role::System {
            Ok(raw)
        } else {
            Err(DocumentError::MissingSystem)
        }
    } else {
        match build_conversation(raw.drop_last()) {
            Ok(c) => if raw.last().0 == Role::System {
                Err(
                    DocumentError::StructuralViolation(
                        ConversationError::InvalidTransition {
                            attempted: Role::System,
                            last: Some(c.last().0),
                        },
                    ),
                )
            } else {
                Ok(c.push((inferred_role(Some(c.last().0)), raw.last().1)))
            },
            Err(e) => Err(e),
        }
    }
}

/// What a document reads as: its lines scanned, the input closed, and the
/// messages built into a conversation.
pub open spec fn parse_document(doc: Seq<char>) -> Result<Seq<(Role, Seq<char>)>, DocumentError> {
    build_conversation(finalize_state(scan_from(initial_scan_state(), lines_of(doc))).messages)
}

fn is_delimiter_line(l: &String) -> (r: bool)
    ensures
        r == is_delimiter(l@),
{
    let s = l.as_str();
    s.unicode_len() >= 3 && s.get_char(0) == '-' && s.get_char(1) == '-' && s.get_char(2) == '-'
}

fn header_role_of(l: &String) -> (r: Option<Role>)
    ensures
        r == header_role(l@),
{
    if *l == "### System".to_owned() {
        Some(Role::System)
    } else if *l == "### User".to_owned() {
        Some(Role::User)
    } else if *l == "### Assistant".to_owned() {
        Some(Role::Assistant)
    } else {
        None
    }
}

/// The first `n` lines joined with line breaks.
fn join_first(ls: &Vec<String>, n: usize) -> (r: String)
    requires
        n <= ls@.len(),
    ensures
        r@ == join_lines(views(ls@).take(n as int)),
{
    let mut out = String::new();
    for i in 0..n
        invariant
            n <= ls@.len(),
            out@ == join_lines(views(ls@).take(i as int)),
    {
        proof {
            assert(views(ls@).take(i + 1).drop_last() =~= views(ls@).take(i as int));
            assert(views(ls@).take(i + 1).last() == ls@[i as int]@);
            reveal_strlit("\n");
            assert("\n"@ =~= seq!['\n']);
        }
        if i > 0 {
            out.append("\n");
        }
        out.append(ls[i].as_str());
        proof {
            if i == 0 {
                assert(out@ =~= join_lines(views(ls@).take(1)));
            } else {
                assert(out@ =~= join_lines(views(ls@).take(i + 1)));
            }
        }
    }
    out
}

/// All lines, each followed by a line break.
fn concat_all(ls: &Vec<String>) -> (r: String)
    ensures
        r@ == concat_lines(views(ls@)),
{
    let mut out = String::new();
    let n = ls.len();
    for i in 0..n
        invariant
            n == ls@.len(),
            out@ == concat_lines(views(ls@).take(i as int)),
    {
        proof {
            assert(views(ls@).take(i + 1).drop_last() =~= views(ls@).take(i as int));
            assert(views(ls@).take(i + 1).last() == ls@[i as int]@);
            reveal_strlit("\n");
            assert("\n"@ =~= seq!['\n']);
        }
        out.append(ls[i].as_str());
        out.append("\n");
        proof {
            assert(out@ =~= concat_lines(views(ls@).take(i + 1)));
        }
    }
    proof {
        assert(views(ls@).take(n as int) =~= views(ls@));
    }
    out
}

/// Reads a document line by line and gathers its sections as messages,
/// without checking the order of their roles.
pub struct MarkdownScanner {
    buffer: Vec<String>,
    messages: Vec<Message>,
    reading_type: Option<Role>,
    line_0: String,
    line_1: String,
    line_2: String,
}

impl View for MarkdownScanner {
    type V = ScanState;

    closed spec fn view(&self) -> ScanState {
        ScanState {
            section: self.reading_type,
            buffer: views(self.buffer@),
            messages: self.messages@.map_values(|m: Message| m@),
            w0: self.line_0@,
            w1: self.line_1@,
            w2: self.line_2@,
        }
    }
}

impl MarkdownScanner {
    pub fn new() -> (r: MarkdownScanner)
        ensures
            r@ == initial_scan_state(),
    {
        let r = MarkdownScanner {
            buffer: Vec::new(),
            messages: Vec::new(),
            reading_type: None,
            line_0: String::new(),
            line_1: String::new(),
            line_2: String::new(),
        };
        proof {
            assert(r@.buffer =~= Seq::<Seq<char>>::empty());
            assert(r@.messages =~= Seq::<(Role, Seq<char>)>::empty());
        }
        r
    }

    /// The messages closed so far.
    pub fn messages(&self) -> (r: &Vec<Message>)
        ensures
            r@.map_values(|m: Message| m@) == self@.messages,
    {
        &self.messages
    }

    /// Closes the open section, if any, as a message holding `text`.
    fn push_message(&mut self, text: String)
        ensures
            final(self)@ == flush(old(self)@, text@),
    {
        match self.reading_type {
            Some(r) => {
                self.messages.push(Message::new(r, text));
            },
            None => {},
        }
        self.buffer = Vec::new();
        proof {
            assert(final(self)@.buffer =~= Seq::<Seq<char>>::empty());
            assert(final(self)@.messages =~= flush(old(self)@, text@).messages);
        }
    }

    /// Reads one line of the document.
    pub fn scan(&mut self, line: &str)
        ensures
            final(self)@ == scan_step(old(self)@, line@),
    {
        let next_0 = self.line_1.clone();
        let next_1 = self.line_2.clone();
        self.line_0 = next_0;
        self.line_1 = next_1;
        self.line_2 = line.to_owned();
        let header = if is_delimiter_line(&self.line_0) && is_delimiter_line(&self.line_2) {
            header_role_of(&self.line_1)
        } else {
            None
        };
        match header {
            Some(Role::System) => {
                self.buffer = Vec::new();
                self.reading_type = Some(Role::System);
                proof {
                    assert(self@.buffer =~= Seq::<Seq<char>>::empty());
                }
            },
            Some(r) => {
                let n = self.buffer.len();
                let keep = if n >= 2 {
                    n - 2
                } else {
                    n
                };
                let text = join_first(&self.buffer, keep);
                proof {
                    assert(views(self.buffer@).take(keep as int) =~= strip_header(
                        views(self.buffer@),
                    ));
                }
                self.push_message(text);
                self.reading_type = Some(r);
            },
            None => {
                if self.reading_type.is_some() {
                    self.buffer.push(line.to_owned());
                    proof {
                        assert(self@.buffer =~= views(old(self).buffer@).push(line@));
                    }
                }
            },
        }
    }

    /// Closes the input: the open section becomes the last message, and no
    /// section stays open, so a second call adds nothing.
    pub fn finalize(&mut self)
        ensures
            final(self)@ == finalize_state(old(self)@),
    {
        let text = concat_all(&self.buffer);
        self.push_message(text);
        self.reading_type = None;
    }

    /// The conversation that the closed messages make: see
    /// `build_conversation`. A section's own role tag is not kept: every
    /// message after the system message takes the role its position calls
    /// for, so two user sections in a row read as a user turn and its answer.
    pub fn to_conversation(&self) -> (r: Result<Conversation, DocumentError>)
        ensures
            r matches Ok(c) ==> c.wf() && build_conversation(self@.messages) == Ok::<
                Seq<(Role, Seq<char>)>,
                DocumentError,
            >(c@),
            r matches Err(e) ==> build_conversation(self@.messages) == Err::<
                Seq<(Role, Seq<char>)>,
                DocumentError,
            >(e),
    {
        let ghost raw = self@.messages;
        let n = self.messages.len();
        if n == 0 {
            return Err(DocumentError::NoMessages);
        }
        proof {
            assert(raw.take(1).drop_last() =~= Seq::<(Role, Seq<char>)>::empty());
            assert(raw[0] == self.messages@[0]@);
        }
        if self.messages[0].role() != Role::System {
            proof {
                lemma_build_missing_system(raw);
            }
            return Err(DocumentError::MissingSystem);
        }
        let mut result = Conversation::new(self.messages[0].duplicate());
        proof {
            assert(raw.take(1) =~= seq![raw[0]]);
        }
        for i in 1..n
            invariant
                n == raw.len(),
                raw == self@.messages,
                result.wf(),
                result@.len() == i,
                build_conversation(raw.take(i as int)) == Ok::<
                    Seq<(Role, Seq<char>)>,
                    DocumentError,
                >(result@),
        {
            let m = &self.messages[i];
            proof {
                assert(raw.take(i + 1).drop_last() =~= raw.take(i as int));
                assert(raw.take(i + 1).last() == m@);
            }
            if m.role() == Role::System {
                let last = result.last();
                let last_role = match last {
                    Some(l) => l.role(),
                    None => Role::System,
                };
                proof {
                    lemma_build_error_stays(raw, i + 1);
                }
                return Err(
                    DocumentError::StructuralViolation(
                        ConversationError::InvalidTransition {
                            attempted: Role::System,
                            last: Some(last_role),
                        },
                    ),
                );
            }
            let added = result.auto_add(m.text().clone());
        }
        proof {
            assert(raw.take(n as int) =~= raw);
        }
        Ok(result)
    }
}

/// A first message that is not a system message is reported, however many
/// follow it.
pub proof fn lemma_build_missing_system(raw: Seq<(Role, Seq<char>)>)
    requires
        raw.len() > 0,
        raw[0].0 != Role::System,
    ensures
        build_conversation(raw) == Err::<Seq<(Role, Seq<char>)>, DocumentError>(
            DocumentError::MissingSystem,
        ),
    decreases raw.len(),
{
    if raw.len() > 1 {
        lemma_build_missing_system(raw.drop_last());
    }
}

/// The first error met on a prefix is the error of every longer prefix.
pub proof fn lemma_build_error_stays(raw: Seq<(Role, Seq<char>)>, k: int)
    requires
        1 <= k <= raw.len(),
        build_conversation(raw.take(k)) is Err,
    ensures
        build_conversation(raw) == build_conversation(raw.take(k)),
    decreases raw.len() - k,
{
    if k < raw.len() {
        assert(raw.take(k + 1).drop_last() =~= raw.take(k));
        lemma_build_error_stays(raw, k + 1);
    } else {
        assert(raw.take(k) =~= raw);
    }
}

/// Parses a whole document into a conversation: its lines are scanned, the
/// input is closed, and the messages are built as `build_conversation` says.
pub fn parse_markdown(contents: &str) -> (r: Result<Conversation, DocumentError>)
    ensures
        r matches Ok(c) ==> c.wf() && parse_document(contents@) == Ok::<
            Seq<(Role, Seq<char>)>,
            DocumentError,
        >(c@),
        r matches Err(e) ==> parse_document(contents@) == Err::<
            Seq<(Role, Seq<char>)>,
            DocumentError,
        >(e),
{
    let lines = split_lines(contents);
    let mut scanner = MarkdownScanner::new();
    let n = lines.len();
    for i in 0..n
        invariant
            n == lines@.len(),
            views(lines@) == lines_of(contents@),
            scanner@ == scan_from(initial_scan_state(), views(lines@).take(i as int)),
    {
        proof {
            assert(views(lines@).take(i + 1).drop_last() =~= views(lines@).take(i as int));
        }
        scanner.scan(lines[i].as_str());
    }
    proof {
        assert(views(lines@).take(n as int) =~= views(lines@));
    }
    scanner.finalize();
    scanner.to_conversation()
}

/// Closing the input a second time changes nothing: the first close leaves
/// no section open, so the last message is never added twice.
pub proof fn lemma_finalize_idempotent(s: ScanState)
    ensures
        finalize_state(finalize_state(s)) == finalize_state(s),
{
    let f = finalize_state(s);
    assert(flush(f, concat_lines(f.buffer)) == ScanState { buffer: Seq::empty(), ..f });
}

proof fn lemma_split_append(a: Seq<char>, b: Seq<char>)
    requires
        a.len() > 0,
        a.last() == '\n',
    ensures
        split_pieces(a + b) == split_pieces(a).drop_last() + split_pieces(b),
    decreases b.len(),
{
    if b.len() == 0 {
        assert(a + b =~= a);
        assert(a.drop_last() + seq!['\n'] =~= a);
        assert(split_pieces(a) =~= split_pieces(a).drop_last() + split_pieces(b));
    } else {
        let b1 = b.drop_last();
        lemma_split_append(a, b1);
        lemma_split_pieces_nonempty(b1);
        assert((a + b).drop_last() =~= a + b1);
        assert((a + b).last() == b.last());
        let x = split_pieces(a).drop_last();
        let y = split_pieces(b1);
        if b.last() == '\n' {
            assert((x + y).push(Seq::empty()) =~= x + y.push(Seq::empty()));
        } else {
            assert((x + y).update((x + y).len() - 1, (x + y).last().push(b.last())) =~= x
                + y.update(y.len() - 1, y.last().push(b.last())));
        }
    }
}

/// The lines of two texts, the first ending with a line break, are the lines
/// of each in turn.
pub proof fn lemma_lines_append(a: Seq<char>, b: Seq<char>)
    requires
        a.len() > 0,
        a.last() == '\n',
    ensures
        raw_lines(a + b) == raw_lines(a) + raw_lines(b),
{
    lemma_split_append(a, b);
    lemma_split_pieces_nonempty(b);
    assert(a.drop_last() + seq!['\n'] =~= a);
    let x = split_pieces(a).drop_last();
    let y = split_pieces(b);
    assert((x + y).last() == y.last());
    if y.last().len() == 0 {
        assert((x + y).drop_last() =~= x + y.drop_last());
    }
}

proof fn lemma_split_single(x: Seq<char>)
    requires
        forall|i: int| 0 <= i < x.len() ==> x[i] != '\n',
    ensures
        split_pieces(x) == seq![x],
    decreases x.len(),
{
    if x.len() > 0 {
        lemma_split_single(x.drop_last());
        assert(x.drop_last().push(x.last()) =~= x);
        assert(seq![x.drop_last()].update(0, x.drop_last().push(x.last())) =~= seq![x]);
    } else {
        assert(x =~= Seq::<char>::empty());
    }
}

proof fn lemma_lines_cons(x: Seq<char>, y: Seq<char>)
    ensures
        raw_lines(x + seq!['\n'] + y) == split_pieces(x) + raw_lines(y),
{
    let a = x + seq!['\n'];
    lemma_lines_append(a, y);
    assert(a.drop_last() =~= x);
    assert(split_pieces(a) == split_pieces(x).push(Seq::empty()));
    assert(split_pieces(a).drop_last() =~= split_pieces(x));
}

proof fn lemma_join_push(q: Seq<Seq<char>>, c: char)
    requires
        q.len() >= 1,
    ensures
        join_lines(q.update(q.len() - 1, q.last().push(c))) == join_lines(q).push(c),
        join_lines(q.push(Seq::empty())) == join_lines(q).push('\n'),
{
    let u = q.update(q.len() - 1, q.last().push(c));
    if q.len() >= 2 {
        assert(u.drop_last() =~= q.drop_last());
        assert(join_lines(q.drop_last()) + seq!['\n'] + q.last().push(c) =~= (join_lines(
            q.drop_last(),
        ) + seq!['\n'] + q.last()).push(c));
    }
    assert(q.push(Seq::empty()).drop_last() =~= q);
    assert(join_lines(q) + seq!['\n'] + Seq::<char>::empty() =~= join_lines(q).push('\n'));
}

/// Joining the pieces of a text gives the text back.
proof fn lemma_join_split(t: Seq<char>)
    ensures
        join_lines(split_pieces(t)) == t,
    decreases t.len(),
{
    if t.len() > 0 {
        lemma_join_split(t.drop_last());
        lemma_split_pieces_nonempty(t.drop_last());
        lemma_join_push(split_pieces(t.drop_last()), t.last());
        assert(t.drop_last().push(t.last()) =~= t);
    }
}

proof fn lemma_concat_join(ls: Seq<Seq<char>>)
    requires
        ls.len() >= 1,
    ensures
        concat_lines(ls) == join_lines(ls) + seq!['\n'],
    decreases ls.len(),
{
    if ls.len() == 1 {
        assert(ls.drop_last() =~= Seq::<Seq<char>>::empty());
        assert(concat_lines(ls.drop_last()) == Seq::<char>::empty());
        assert(Seq::<char>::empty() + ls[0] + seq!['\n'] =~= ls[0] + seq!['\n']);
    } else {
        lemma_concat_join(ls.drop_last());
        assert(concat_lines(ls) =~= join_lines(ls) + seq!['\n']);
    }
}

proof fn lemma_scan_append(s: ScanState, a: Seq<Seq<char>>, b: Seq<Seq<char>>)
    ensures
        scan_from(s, a + b) == scan_from(scan_from(s, a), b),
    decreases b.len(),
{
    if b.len() == 0 {
        assert(a + b =~= a);
    } else {
        lemma_scan_append(s, a, b.drop_last());
        assert((a + b).drop_last() =~= a + b.drop_last());
    }
}

/// Lines that do not follow a role header line cannot close a header: they
/// are gathered while a section is open, ignored otherwise, and only move
/// the window.
proof fn lemma_scan_plain(s: ScanState, ls: Seq<Seq<char>>)
    requires
        forall|i: int| 0 <= i < ls.len() ==> header_role(#[trigger] (seq![s.w2] + ls)[i]) is None,
    ensures
        ({
            let w = seq![s.w0, s.w1, s.w2] + ls;
            scan_from(s, ls) == ScanState {
                buffer: if s.section is Some {
                    s.buffer + ls
                } else {
                    s.buffer
                },
                w0: w[w.len() - 3],
                w1: w[w.len() - 2],
                w2: w[w.len() - 1],
                ..s
            }
        }),
    decreases ls.len(),
{
    if ls.len() == 0 {
        assert(s.buffer + ls =~= s.buffer);
    } else {
        let l1 = ls.drop_last();
        assert forall|i: int| 0 <= i < l1.len() implies header_role(
            #[trigger] (seq![s.w2] + l1)[i],
        ) is None by {
            assert((seq![s.w2] + l1)[i] == (seq![s.w2] + ls)[i]);
        }
        lemma_scan_plain(s, l1);
        assert((seq![s.w0, s.w1, s.w2] + l1).last() == (seq![s.w2] + ls)[ls.len() - 1]);
        assert(header_role((seq![s.w2] + ls)[ls.len() - 1]) is None);
        assert(s.buffer + l1.push(ls.last()) =~= s.buffer + ls);
        assert(l1.push(ls.last()) =~= ls);
    }
}

proof fn lemma_scan_three(s: ScanState, a: Seq<char>, b: Seq<char>, c: Seq<char>)
    ensures
        scan_from(s, seq![a, b, c]) == scan_step(scan_step(scan_step(s, a), b), c),
{
    assert(seq![a, b, c].drop_last() =~= seq![a, b]);
    assert(seq![a, b].drop_last() =~= seq![a]);
    assert(seq![a].drop_last() =~= Seq::<Seq<char>>::empty());
    assert(scan_from(s, Seq::<Seq<char>>::empty()) == s);
    assert(scan_from(s, seq![a]) == scan_step(s, a));
    assert(scan_from(s, seq![a, b]) == scan_step(scan_step(s, a), b));
}

proof fn lemma_literals()
    ensures
        is_delimiter("---"@),
        "---\n"@ == "---"@ + seq!['\n'],
        "\n---\n"@ == seq!['\n'] + "---"@ + seq!['\n'],
        "\n\n"@ == seq!['\n', '\n'],
        "# "@ == seq!['#', ' '],
        forall|r: Role| (#[trigger] header_line(r)).len() > 0 && header_line(r)[0] == '#',
        forall|r: Role| header_role(#[trigger] header_line(r)) == Some(r),
        forall|r: Role|
            forall|i: int|
                0 <= i < (#[trigger] header_line(r)).len() ==> header_line(r)[i] != '\n',
        forall|i: int| 0 <= i < "---"@.len() ==> "---"@[i] != '\n',
        !ends_with_cr("---"@),
        forall|r: Role| !ends_with_cr(#[trigger] header_line(r)),
        forall|r: Role| (#[trigger] header_line(r)).len() > 1 && header_line(r)[1] == '#',
        header_role(Seq::empty()) is None,
        header_role("---"@) is None,
{
    reveal_strlit("---");
    reveal_strlit("---\n");
    reveal_strlit("\n---\n");
    reveal_strlit("\n\n");
    reveal_strlit("# ");
    reveal_strlit("### System");
    reveal_strlit("### User");
    reveal_strlit("### Assistant");
    assert("---\n"@ =~= "---"@ + seq!['\n']);
    assert("\n---\n"@ =~= seq!['\n'] + "---"@ + seq!['\n']);
    assert("\n\n"@ =~= seq!['\n', '\n']);
    assert("# "@ =~= seq!['#', ' ']);
    assert(header_line(Role::System).len() == 10);
    assert(header_line(Role::User).len() == 8);
    assert(header_line(Role::Assistant).len() == 13);
    assert forall|r: Role| header_role(#[trigger] header_line(r)) == Some(r) by {
        assert(header_line(Role::User) != header_line(Role::System));
        assert(header_line(Role::Assistant) != header_line(Role::System));
        assert(header_line(Role::Assistant) != header_line(Role::User));
    }
}

/// The lines that the body of a rendered section makes: the pieces of its
/// text and the blank separator line.
pub open spec fn body_lines(t: Seq<char>) -> Seq<Seq<char>> {
    split_pieces(t).push(Seq::empty())
}

pub open spec fn header_lines(r: Role) -> Seq<Seq<char>> {
    seq!["---"@, header_line(r), "---"@]
}

proof fn lemma_section_lines(m: (Role, Seq<char>))
    ensures
        raw_lines(render_section(m)) == header_lines(m.0) + body_lines(m.1),
{
    lemma_literals();
    let h = header_line(m.0);
    let d = "---"@;
    let nl = seq!['\n'];
    assert(render_section(m) =~= d + nl + (h + nl + (d + nl + (m.1 + nl + (Seq::<char>::empty()
        + nl)))));
    lemma_lines_cons(Seq::<char>::empty(), Seq::<char>::empty());
    assert(Seq::<char>::empty() + nl + Seq::<char>::empty() =~= Seq::<char>::empty() + nl);
    assert(raw_lines(Seq::<char>::empty() + nl) == seq![Seq::<char>::empty()]) by {
        assert(split_pieces(Seq::<char>::empty()) == seq![Seq::<char>::empty()]);
    }
    lemma_lines_cons(m.1, Seq::<char>::empty() + nl);
    lemma_lines_cons(d, m.1 + nl + (Seq::<char>::empty() + nl));
    lemma_lines_cons(h, d + nl + (m.1 + nl + (Seq::<char>::empty() + nl)));
    lemma_lines_cons(d, h + nl + (d + nl + (m.1 + nl + (Seq::<char>::empty() + nl))));
    lemma_split_single(d);
    lemma_split_single(h);
    assert(raw_lines(render_section(m)) =~= header_lines(m.0) + body_lines(m.1));
}

/// No piece of a text is a role header line, which would open a section
/// between two delimiter lines, or ends with a carriage return, which would
/// be taken as part of the line break after it.
pub open spec fn plain_text(t: Seq<char>) -> bool {
    forall|j: int|
        0 <= j < split_pieces(t).len() ==> header_role(#[trigger] split_pieces(t)[j]) is None
            && !ends_with_cr(split_pieces(t)[j])
}

spec fn no_cr(ls: Seq<Seq<char>>) -> bool {
    forall|i: int| 0 <= i < ls.len() ==> !ends_with_cr(#[trigger] ls[i])
}

proof fn lemma_section_no_cr(m: (Role, Seq<char>))
    requires
        plain_text(m.1),
    ensures
        no_cr(raw_lines(render_section(m))),
{
    lemma_literals();
    lemma_section_lines(m);
    let h = header_lines(m.0);
    let b = body_lines(m.1);
    assert forall|i: int| 0 <= i < (h + b).len() implies !ends_with_cr(#[trigger] (h + b)[i]) by {
        if i < 3 {
            assert((h + b)[i] == h[i]);
        } else if i < (h + b).len() - 1 {
            assert((h + b)[i] == split_pieces(m.1)[i - 3]);
        }
    }
}

/// No line of a rendered document ends with a carriage return.
proof fn lemma_rendered_no_cr(title: Seq<char>, c: Seq<(Role, Seq<char>)>, k: int)
    requires
        1 <= k <= c.len(),
        forall|i: int| 0 <= i < title.len() ==> title[i] != '\n',
        !ends_with_cr(title),
        forall|i: int| 0 <= i < c.len() ==> plain_text(#[trigger] c[i].1),
    ensures
        no_cr(raw_lines(render_document(title, c.take(k)))),
    decreases k,
{
    lemma_literals();
    let nl = seq!['\n'];
    if k == 1 {
        let head = "# "@ + title;
        assert(c.take(1).drop_last() =~= Seq::<(Role, Seq<char>)>::empty());
        assert(render_sections(Seq::<(Role, Seq<char>)>::empty()) == Seq::<char>::empty());
        assert(c.take(1).last() == c[0]);
        assert(render_sections(c.take(1)) =~= render_section(c[0]));
        let a = head + nl + (Seq::<char>::empty() + nl);
        assert(render_document(title, c.take(1)) =~= a + render_section(c[0]));
        lemma_lines_append(a, render_section(c[0]));
        lemma_lines_cons(head, Seq::<char>::empty() + nl);
        assert(raw_lines(Seq::<char>::empty() + nl) == seq![Seq::<char>::empty()]) by {
            lemma_lines_cons(Seq::<char>::empty(), Seq::<char>::empty());
            assert(Seq::<char>::empty() + nl + Seq::<char>::empty() =~= Seq::<char>::empty() + nl);
        }
        lemma_split_single(head);
        let tl = seq![head, Seq::<char>::empty()];
        assert(raw_lines(a) =~= tl);
        assert(!ends_with_cr(head)) by {
            if title.len() > 0 {
                assert(head.last() == title.last());
            }
        }
        lemma_section_no_cr(c[0]);
        let sl = raw_lines(render_section(c[0]));
        assert forall|i: int| 0 <= i < (tl + sl).len() implies !ends_with_cr(#[trigger] (tl + sl)[i]) by {
            if i >= 2 {
                assert((tl + sl)[i] == sl[i - 2]);
            }
        }
    } else {
        lemma_rendered_no_cr(title, c, k - 1);
        let prev = render_document(title, c.take(k - 1));
        let sec = render_section(c[k - 1]);
        assert(c.take(k).drop_last() =~= c.take(k - 1));
        assert(c.take(k).last() == c[k - 1]);
        assert(render_document(title, c.take(k)) =~= prev + sec);
        assert(prev.last() == '\n');
        lemma_lines_append(prev, sec);
        lemma_section_no_cr(c[k - 1]);
        let pl = raw_lines(prev);
        let sl = raw_lines(sec);
        assert forall|i: int| 0 <= i < (pl + sl).len() implies !ends_with_cr(#[trigger] (pl + sl)[i]) by {
            if i >= pl.len() {
                assert((pl + sl)[i] == sl[i - pl.len()]);
            } else {
                assert((pl + sl)[i] == pl[i]);
            }
        }
    }
}

/// The scan after the first `k` sections of a rendered conversation: the
/// last section is open with its body gathered, the earlier ones are closed
/// with one line break after their text.
spec fn after_sections(s: ScanState, c: Seq<(Role, Seq<char>)>, k: int) -> bool {
    &&& s.section == Some(c[k - 1].0)
    &&& s.buffer == body_lines(c[k - 1].1)
    &&& s.messages == Seq::new((k - 1) as nat, |i: int| (c[i].0, c[i].1 + seq!['\n']))
    &&& s.w2 == Seq::<char>::empty()
}

proof fn lemma_scan_body(s: ScanState, t: Seq<char>)
    requires
        (s.section is Some),
        s.buffer == Seq::<Seq<char>>::empty(),
        header_role(s.w2) is None,
        plain_text(t),
    ensures
        scan_from(s, body_lines(t)) == (ScanState {
            buffer: body_lines(t),
            w0: scan_from(s, body_lines(t)).w0,
            w1: split_pieces(t).last(),
            w2: Seq::empty(),
            ..s
        }),
{
    lemma_split_pieces_nonempty(t);
    let b = body_lines(t);
    assert forall|i: int| 0 <= i < b.len() implies header_role(#[trigger] (seq![s.w2] + b)[i])
        is None by {
        if i > 0 {
            assert((seq![s.w2] + b)[i] == split_pieces(t)[i - 1]);
        }
    }
    lemma_scan_plain(s, b);
    assert(Seq::<Seq<char>>::empty() + b =~= b);
}

proof fn lemma_first_section(title: Seq<char>, c: Seq<(Role, Seq<char>)>)
    requires
        c.len() >= 1,
        c[0].0 == Role::System,
        forall|i: int| 0 <= i < title.len() ==> title[i] != '\n',
        plain_text(c[0].1),
    ensures
        after_sections(
            scan_from(initial_scan_state(), raw_lines(render_document(title, c.take(1)))),
            c,
            1,
        ),
{
    lemma_literals();
    let nl = seq!['\n'];
    let head = "# "@ + title;
    assert(c.take(1).drop_last() =~= Seq::<(Role, Seq<char>)>::empty());
    assert(render_sections(Seq::<(Role, Seq<char>)>::empty()) == Seq::<char>::empty());
    assert(c.take(1).last() == c[0]);
    assert(render_sections(c.take(1)) =~= render_section(c[0]));
    let a = head + nl + (Seq::<char>::empty() + nl);
    assert(render_document(title, c.take(1)) =~= a + render_section(c[0]));
    lemma_lines_append(a, render_section(c[0]));
    lemma_lines_cons(head, Seq::<char>::empty() + nl);
    assert(raw_lines(Seq::<char>::empty() + nl) == seq![Seq::<char>::empty()]) by {
        lemma_lines_cons(Seq::<char>::empty(), Seq::<char>::empty());
        assert(Seq::<char>::empty() + nl + Seq::<char>::empty() =~= Seq::<char>::empty() + nl);
    }
    lemma_split_single(head);
    let tl = seq![head, Seq::<char>::empty()];
    assert(raw_lines(a) =~= tl);
    lemma_section_lines(c[0]);
    let s0 = initial_scan_state();
    lemma_scan_append(s0, tl, header_lines(Role::System) + body_lines(c[0].1));
    lemma_scan_append(scan_from(s0, tl), header_lines(Role::System), body_lines(c[0].1));
    assert(tl + (header_lines(Role::System) + body_lines(c[0].1)) =~= raw_lines(
        render_document(title, c.take(1)),
    ));
    assert forall|i: int| 0 <= i < tl.len() implies header_role(#[trigger] (seq![s0.w2] + tl)[i])
        is None by {
        if i == 1 {
            assert(head[1] == ' ');
            assert forall|r: Role| head != header_line(r) by {
                assert(header_line(r)[1] == '#');
            }
        }
    }
    lemma_scan_plain(s0, tl);
    let s1 = scan_from(s0, tl);
    lemma_scan_three(s1, "---"@, header_line(Role::System), "---"@);
    let s2 = scan_from(s1, header_lines(Role::System));
    assert(s2.section == Some(Role::System));
    assert(s2.buffer == Seq::<Seq<char>>::empty());
    lemma_scan_body(s2, c[0].1);
    let s3 = scan_from(s2, body_lines(c[0].1));
    assert(s3.messages =~= Seq::new(0, |i: int| (c[i].0, c[i].1 + seq!['\n'])));
}

proof fn lemma_next_section(s: ScanState, c: Seq<(Role, Seq<char>)>, k: int)
    requires
        1 <= k < c.len(),
        after_sections(s, c, k),
        c[k].0 != Role::System,
        plain_text(c[k].1),
    ensures
        after_sections(scan_from(s, raw_lines(render_section(c[k]))), c, k + 1),
{
    lemma_literals();
    lemma_section_lines(c[k]);
    lemma_scan_append(s, header_lines(c[k].0), body_lines(c[k].1));
    lemma_scan_three(s, "---"@, header_line(c[k].0), "---"@);
    let s2 = scan_from(s, header_lines(c[k].0));
    let b = s.buffer.push("---"@).push(header_line(c[k].0));
    assert(strip_header(b) =~= s.buffer);
    lemma_join_split(c[k - 1].1);
    lemma_split_pieces_nonempty(c[k - 1].1);
    lemma_join_push(split_pieces(c[k - 1].1), ' ');
    assert(s2.messages == s.messages.push((c[k - 1].0, c[k - 1].1.push('\n'))));
    assert(s2.buffer == Seq::<Seq<char>>::empty());
    lemma_scan_body(s2, c[k].1);
    let s3 = scan_from(s2, body_lines(c[k].1));
    assert(c[k - 1].1.push('\n') =~= c[k - 1].1 + seq!['\n']);
    assert(s3.messages =~= Seq::new(k as nat, |i: int| (c[i].0, c[i].1 + seq!['\n'])));
}

proof fn lemma_scan_rendered(title: Seq<char>, c: Seq<(Role, Seq<char>)>, k: int)
    requires
        1 <= k <= c.len(),
        well_formed(c),
        forall|i: int| 0 <= i < title.len() ==> title[i] != '\n',
        forall|i: int| 0 <= i < c.len() ==> plain_text(#[trigger] c[i].1),
    ensures
        after_sections(
            scan_from(initial_scan_state(), raw_lines(render_document(title, c.take(k)))),
            c,
            k,
        ),
    decreases k,
{
    assert(c[0].0 == expected_role(0));
    if k == 1 {
        lemma_first_section(title, c);
    } else {
        lemma_scan_rendered(title, c, k - 1);
        lemma_literals();
        let prev = render_document(title, c.take(k - 1));
        let sec = render_section(c[k - 1]);
        assert(c.take(k).drop_last() =~= c.take(k - 1));
        assert(c.take(k).last() == c[k - 1]);
        assert(render_document(title, c.take(k)) =~= prev + sec);
        assert(c.take(k - 1).drop_last() =~= c.take(k - 2));
        assert(prev.last() == '\n');
        lemma_lines_append(prev, sec);
        lemma_scan_append(initial_scan_state(), raw_lines(prev), raw_lines(sec));
        assert(c[k - 1].0 == expected_role(k - 1));
        lemma_next_section(
            scan_from(initial_scan_state(), raw_lines(prev)),
            c,
            k - 1,
        );
    }
}

/// Messages whose roles already stand where their positions call for are
/// built into a conversation unchanged.
pub proof fn lemma_build_positional(raw: Seq<(Role, Seq<char>)>)
    requires
        raw.len() >= 1,
        well_formed(raw),
    ensures
        build_conversation(raw) == Ok::<Seq<(Role, Seq<char>)>, DocumentError>(raw),
    decreases raw.len(),
{
    assert(raw[0].0 == expected_role(0));
    if raw.len() > 1 {
        let p = raw.drop_last();
        assert(well_formed(p)) by {
            assert forall|i: int| 0 <= i < p.len() implies #[trigger] p[i].0 == expected_role(i) by {
                assert(p[i] == raw[i]);
            }
        }
        lemma_build_positional(p);
        let n = raw.len() as int;
        assert(raw[n - 1].0 == expected_role(n - 1));
        assert(p.last().0 == expected_role(n - 2));
        assert(p.push((inferred_role(Some(p.last().0)), raw.last().1)) =~= raw);
    }
}

/// A conversation written as a document reads back as the same
/// conversation: the same roles in the same order, each text followed by one
/// line break, the last by two (the blank separator line). This holds when
/// no line of any text is a role header line, which would open a section
/// between two delimiter lines, or ends with a carriage return, which would
/// be read as part of the line break after it, and the title is a single
/// line that does not end with a carriage return.
pub proof fn lemma_round_trip(title: Seq<char>, c: Seq<(Role, Seq<char>)>)
    requires
        c.len() >= 1,
        well_formed(c),
        forall|i: int| 0 <= i < title.len() ==> title[i] != '\n',
        !ends_with_cr(title),
        forall|i: int| 0 <= i < c.len() ==> plain_text(#[trigger] c[i].1),
    ensures
        parse_document(render_document(title, c)) == Ok::<Seq<(Role, Seq<char>)>, DocumentError>(
            Seq::new(
                c.len(),
                |i: int|
                    (c[i].0, if i < c.len() - 1 {
                        c[i].1 + seq!['\n']
                    } else {
                        c[i].1 + seq!['\n', '\n']
                    }),
            ),
        ),
{
    let n = c.len() as int;
    lemma_scan_rendered(title, c, n);
    lemma_rendered_no_cr(title, c, n);
    assert(c.take(n) =~= c);
    lemma_lines_plain(render_document(title, c));
    let s = scan_from(initial_scan_state(), raw_lines(render_document(title, c)));
    let t = c[n - 1].1;
    lemma_split_pieces_nonempty(t);
    lemma_concat_join(body_lines(t));
    lemma_join_split(t);
    lemma_join_push(split_pieces(t), ' ');
    assert(concat_lines(body_lines(t)) =~= t + seq!['\n', '\n']);
    let raw = finalize_state(s).messages;
    let want = Seq::new(
        c.len(),
        |i: int|
            (c[i].0, if i < c.len() - 1 {
                c[i].1 + seq!['\n']
            } else {
                c[i].1 + seq!['\n', '\n']
            }),
    );
    assert(raw =~= want);
    assert(well_formed(want)) by {
        assert forall|i: int| 0 <= i < want.len() implies #[trigger] want[i].0 == expected_role(i) by {
            assert(c[i].0 == expected_role(i));
        }
    }
    lemma_build_positional(want);
}

} // verus!
