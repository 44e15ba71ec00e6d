use vstd::prelude::*;
use crate::api::conversation::{Message, Role};

verus! {

/// A client of the chat completion service: it holds the key that
/// authorizes its requests.
pub struct DeepseekAi {
    api_key: String,
}

impl DeepseekAi {
    pub closed spec fn key(&self) -> Seq<char> {
        self.api_key@
    }

    pub fn new(api_key: String) -> (r: Self)
        ensures
            r.key() == api_key@,
    {
        DeepseekAi { api_key }
    }

    pub fn api_key(&self) -> (r: &String)
        ensures
            r@ == self.key(),
    {
        &self.api_key
    }

    /// The value of the `Authorization` header of a request.
    pub fn authorization(&self) -> (r: String)
        ensures
            r@ == "Bearer "@ + self.key(),
    {
        let mut r = "Bearer ".to_owned();
        r.append(self.api_key.as_str());
        r
    }
}

/// The text of the assistant turn made of an answer, the reasoning behind
/// it and the number of tokens it took.
pub open spec fn reply_text(content: Seq<char>, reasoning: Seq<char>, usage: Seq<char>) -> Seq<
    char,
> {
    content + "\n\nReasoning: "@ + reasoning + "\n\nUsage: "@ + usage
}

/// The assistant turn that a completed request adds to the conversation.
pub fn compose_reply(content: &str, reasoning: &str, usage: &str) -> (r: Message)
    ensures
        r@ == (Role::Assistant, reply_text(content@, reasoning@, usage@)),
{
    let mut text = content.to_owned();
    text.append("\n\nReasoning: ");
    text.append(reasoning);
    text.append("\n\nUsage: ");
    text.append(usage);
    Message::Assistant(text)
}

/// Why a field of a response could not be read.
#[derive(Debug, Clone, PartialEq, Eq)]
pub enum FieldError {
    /// No member of this name on the path.
    NotFound(String),
    /// The value at the end of the path is neither a string nor a number.
    NotStringOrNumber,
}

impl FieldError {
    /// The error as a sentence.
    pub fn message(&self) -> (r: String)
        ensures
            (self is NotFound) ==> r@ == "Field "@ + self->NotFound_0@ + " not found"@,
            (self is NotStringOrNumber) ==> r@ == "Field is not a string or number"@,
    {
        match self {
            FieldError::NotFound(f) => {
                let mut r = "Field ".to_owned();
                r.append(f.as_str());
                r.append(" not found");
                r
            },
            FieldError::NotStringOrNumber => "Field is not a string or number".to_owned(),
        }
    }
}

/// The member named `key` of a JSON value, where it is an object that has
/// one.
pub uninterp spec fn json_member(v: serde_json::Value, key: Seq<char>) -> Option<serde_json::Value>;

/// The text of a JSON value, where it is a string.
pub uninterp spec fn json_string(v: serde_json::Value) -> Option<Seq<char>>;

/// The decimal text of a JSON value, where it is a number.
pub uninterp spec fn json_number_text(v: serde_json::Value) -> Option<Seq<char>>;

/// The member named `key` of an object value.
/// Relies on serde_json's `Value::get`, which gives `None` where the value is
/// no object or has no such member.
#[verifier::external_body]
fn member<'a>(v: &'a serde_json::Value, key: &str) -> (r: Option<&'a serde_json::Value>)
    ensures
        (r is Some) == (json_member(*v, key@) is Some),
        r is Some ==> *r->0 == json_member(*v, key@)->0,
{
    v.get(key)
}

/// The text of a string value.
/// Relies on serde_json's `Value::as_str`, which gives `None` for any other
/// value.
#[verifier::external_body]
fn string_text(v: &serde_json::Value) -> (r: Option<String>)
    ensures
        (r is Some) == (json_string(*v) is Some),
        r is Some ==> r->0@ == json_string(*v)->0,
{
    v.as_str().map(|s| s.to_owned())
}

/// The decimal text of a number value.
/// Relies on serde_json's `Value::as_number`, which gives `None` for any
/// other value, and on the `Display` of its `Number`.
#[verifier::external_body]
fn number_text(v: &serde_json::Value) -> (r: Option<String>)
    ensures
        (r is Some) == (json_number_text(*v) is Some),
        r is Some ==> r->0@ == json_number_text(*v)->0,
{
    v.as_number().map(|n| n.to_string())
}

/// The value reached from `v` by following the members named in `path`, or
/// the first name that is missing on the way.
pub open spec fn walk(v: serde_json::Value, path: Seq<Seq<char>>) -> Result<
    serde_json::Value,
    Seq<char>,
>
    decreases path.len(),
{
    if path.len() == 0 {
        Ok(v)
    } else {
        match json_member(v, path[0]) {
            Some(next) => walk(next, path.skip(1)),
            None => Err(path[0]),
        }
    }
}

pub open spec fn path_views(p: Seq<&str>) -> Seq<Seq<char>> {
    p.map_values(|s: &str| s@)
}

/// The text of a field's value: its text where it is a string, its digits
/// where it is a number, an error otherwise.
pub fn leaf_text(text: Option<String>, number: Option<String>) -> (r: Result<String, FieldError>)
    ensures
        (text is Some) ==> r == Ok::<String, FieldError>(text->0),
        (text is None && number is Some) ==> r == Ok::<String, FieldError>(number->0),
        (text is None && number is None) ==> r == Err::<String, FieldError>(
            FieldError::NotStringOrNumber,
        ),
{
    match text {
        Some(t) => Ok(t),
        None => match number {
            Some(n) => Ok(n),
            None => Err(FieldError::NotStringOrNumber),
        },
    }
}

/// Follows `field_path` member by member from `response_json` and gives the
/// text of the value reached, as `leaf_text` reads it; the first missing
/// member is reported by name.
pub fn extract_field(response_json: &serde_json::Value, field_path: &[&str]) -> (r: Result<
    String,
    FieldError,
>)
    ensures
        ({
            let w = walk(*response_json, path_views(field_path@));
            &&& w is Err ==> (r is Err && r->Err_0 is NotFound && r->Err_0->NotFound_0@ == w->Err_0)
            &&& (w is Ok && json_string(w->Ok_0) is Some) ==> (r is Ok && r->Ok_0@ == json_string(
                w->Ok_0,
            )->0)
            &&& (w is Ok && json_string(w->Ok_0) is None && json_number_text(w->Ok_0) is Some) ==> (
            r is Ok && r->Ok_0@ == json_number_text(w->Ok_0)->0)
            &&& (w is Ok && json_string(w->Ok_0) is None && json_number_text(w->Ok_0) is None) ==> r
                == Err::<String, FieldError>(FieldError::NotStringOrNumber)
        }),
{
    let ghost path = path_views(field_path@);
    let mut current = response_json;
    let n = field_path.len();
    proof {
        assert(path.skip(0) =~= path);
    }
    for i in 0..n
        invariant
            n == field_path@.len(),
            path == path_views(field_path@),
            walk(*response_json, path) == walk(*current, path.skip(i as int)),
    {
        proof {
            assert(path.skip(i as int)[0] == field_path@[i as int]@);
            assert(path.skip(i as int).skip(1) =~= path.skip(i + 1));
        }
        match member(current, field_path[i]) {
            Some(next) => {
                current = next;
            },
            None => {
                return Err(FieldError::NotFound(field_path[i].to_owned()));
            },
        }
    }
    proof {
        assert(path.skip(n as int) =~= Seq::<Seq<char>>::empty());
    }
    leaf_text(string_text(current), number_text(current))
}

} // verus!
