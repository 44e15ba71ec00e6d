use vstd::prelude::*;
use crate::api::conversation::Role;
use crate::api::md_paraser::{lines_of, split_lines, views};
use crate::conversation::Message;

verus! {

pub open spec fn has_prefix(l: Seq<char>, p: Seq<char>) -> bool {
    p.len() <= l.len() && l.take(p.len() as int) == p
}

/// The role of a message, with an agent turn read as an assistant turn.
pub open spec fn message_view(m: Message) -> (Role, Seq<char>) {
    match m {
        Message::System(c) => (Role::System, c@),
        Message::User(c) => (Role::User, c@),
        Message::Agent(c) => (Role::Assistant, c@),
    }
}

/// The role of a line that opens a section (`## System`, `## User...`,
/// `## AI...`), if it is one.
pub open spec fn heading_role(l: Seq<char>) -> Option<Role> {
    if has_prefix(l, "## AI"@) {
        Some(Role::Assistant)
    } else if has_prefix(l, "## User"@) {
        Some(Role::User)
    } else if has_prefix(l, "## System"@) {
        Some(Role::System)
    } else {
        None
    }
}

/// The section being read, if any, and the sections closed before it.
pub ghost struct HeadingState {
    pub current: Option<(Role, Seq<char>)>,
    pub done: Seq<(Role, Seq<char>)>,
}

pub open spec fn closed_sections(s: HeadingState) -> Seq<(Role, Seq<char>)> {
    match s.current {
        Some(m) => s.done.push(m),
        None => s.done,
    }
}

/// One line: a heading opens a new section and closes the open one; any
/// other line, with its line break, goes to the open section; before the
/// first section only a title line (`# ...`) may stand. `None` marks a
/// document that breaks this.
pub open spec fn heading_step(s: HeadingState, l: Seq<char>) -> Option<HeadingState> {
    match heading_role(l) {
        Some(r) => Some(HeadingState { current: Some((r, Seq::empty())), done: closed_sections(s) }),
        None => match s.current {
            Some(m) => Some(HeadingState { current: Some((m.0, m.1 + l + seq!['\n'])), ..s }),
            None => if has_prefix(l, "# "@) {
                Some(s)
            } else {
                None
            },
        },
    }
}

pub open spec fn heading_scan(ls: Seq<Seq<char>>) -> Option<HeadingState>
    decreases ls.len(),
{
    if ls.len() == 0 {
        Some(HeadingState { current: None, done: Seq::empty() })
    } else {
        match heading_scan(ls.drop_last()) {
            Some(s) => heading_step(s, ls.last()),
            None => None,
        }
    }
}

/// The sections of a document in the heading style, or `None` where a line
/// stands before the first section that is not a title.
pub open spec fn parse_headings(doc: Seq<char>) -> Option<Seq<(Role, Seq<char>)>> {
    match heading_scan(lines_of(doc)) {
        Some(s) => Some(closed_sections(s)),
        None => None,
    }
}

/// Why a document in the heading style cannot be read.
#[derive(Debug, Clone, Copy, PartialEq, Eq)]
pub enum MdParseError {
    /// A line before the first section is neither a heading nor a title.
    InvalidSection,
}

pub(crate) fn starts_with(l: &str, p: &str) -> (r: bool)
    ensures
        r == has_prefix(l@, p@),
{
    let n = p.unicode_len();
    if l.unicode_len() < n {
        return false;
    }
    for i in 0..n
        invariant
            n == p@.len(),
            n <= l@.len(),
            forall|j: int| 0 <= j < i ==> l@[j] == p@[j],
    {
        if l.get_char(i) != p.get_char(i) {
            proof {
                assert(l@.take(n as int)[i as int] != p@[i as int]);
            }
            return false;
        }
    }
    proof {
        assert(l@.take(n as int) =~= p@);
    }
    true
}

fn heading_role_of(l: &str) -> (r: Option<Role>)
    ensures
        r == heading_role(l@),
{
    if starts_with(l, "## AI") {
        Some(Role::Assistant)
    } else if starts_with(l, "## User") {
        Some(Role::User)
    } else if starts_with(l, "## System") {
        Some(Role::System)
    } else {
        None
    }
}

fn make_message(r: Role, text: String) -> (m: Message)
    ensures
        message_view(m) == (r, text@),
{
    match r {
        Role::System => Message::System(text),
        Role::User => Message::User(text),
        Role::Assistant => Message::Agent(text),
    }
}

/// Reads transcripts whose sections open with `## System`, `## User...` and
/// `## AI...` headings.
pub struct MdParser;

impl MdParser {
    /// The sections of `contents`, in order, each holding the lines after
    /// its heading with their line breaks.
    pub fn parse_text(contents: &str) -> (r: Result<Vec<Message>, MdParseError>)
        ensures
            r matches Ok(v) ==> parse_headings(contents@) == Some(
                v@.map_values(|m: Message| message_view(m)),
            ),
            r is Err <==> parse_headings(contents@) is None,
    {
        let lines = split_lines(contents);
        let mut done: Vec<Message> = Vec::new();
        let mut current: Option<(Role, String)> = None;
        let n = lines.len();
        proof {
            assert(views(lines@).take(0) =~= Seq::<Seq<char>>::empty());
            assert(done@.map_values(|m: Message| message_view(m)) =~= Seq::<
                (Role, Seq<char>),
            >::empty());
        }
        for i in 0..n
            invariant
                n == lines@.len(),
                views(lines@) == lines_of(contents@),
                heading_scan(views(lines@).take(i as int)) == Some(
                    HeadingState {
                        current: match current {
                            Some(c) => Some((c.0, c.1@)),
                            None => None,
                        },
                        done: done@.map_values(|m: Message| message_view(m)),
                    },
                ),
        {
            proof {
                assert(views(lines@).take(i + 1).drop_last() =~= views(lines@).take(i as int));
            }
            let line = lines[i].as_str();
            match heading_role_of(line) {
                Some(r) => {
                    match current {
                        Some((cr, ct)) => {
                            done.push(make_message(cr, ct));
                        },
                        None => {},
                    }
                    current = Some((r, String::new()));
                    proof {
                        assert(done@.map_values(|m: Message| message_view(m)) =~= closed_sections(
                            heading_scan(views(lines@).take(i as int))->0,
                        ));
                    }
                },
                None => {
                    match current {
                        Some((cr, ct)) => {
                            let mut t = ct;
                            t.append(line);
                            t.append("\n");
                            proof {
                                reveal_strlit("\n");
                                assert("\n"@ =~= seq!['\n']);
                            }
                            current = Some((cr, t));
                        },
                        None => {
                            if !starts_with(line, "# ") {
                                proof {
                                    lemma_heading_scan_fails(views(lines@), i + 1);
                                    assert(views(lines@).take(n as int) =~= views(lines@));
                                }
                                return Err(MdParseError::InvalidSection);
                            }
                        },
                    }
                },
            }
        }
        proof {
            assert(views(lines@).take(n as int) =~= views(lines@));
        }
        match current {
            Some((cr, ct)) => {
                done.push(make_message(cr, ct));
            },
            None => {},
        }
        proof {
            assert(done@.map_values(|m: Message| message_view(m)) =~= parse_headings(
                contents@,
            )->0);
        }
        Ok(done)
    }
}

/// Once a prefix of the lines is refused, so is every longer one.
pub proof fn lemma_heading_scan_fails(ls: Seq<Seq<char>>, k: int)
    requires
        0 <= k <= ls.len(),
        heading_scan(ls.take(k)) is None,
    ensures
        heading_scan(ls) is None,
    decreases ls.len() - k,
{
    if k < ls.len() {
        assert(ls.take(k + 1).drop_last() =~= ls.take(k));
        lemma_heading_scan_fails(ls, k + 1);
    } else {
        assert(ls.take(k) =~= ls);
    }
}

} // verus!
