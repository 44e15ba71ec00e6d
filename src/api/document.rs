use vstd::prelude::*;

verus! {

/// The sections that a new document starts with: a system section holding
/// a default instruction, and an empty user section to write in.
pub const SAMPLE_MARKDOWN: &'static str =
    "\n\n---\n### System\n---\nYou are a helper assistant\n\n---\n### User\n---\n";

pub open spec fn has_suffix(s: Seq<char>, x: Seq<char>) -> bool {
    x.len() <= s.len() && s.skip(s.len() - x.len()) == x
}

/// The name of a document file: the given name, with `.md` added where it
/// does not end so.
pub fn markdown_file_name(filename: &str) -> (r: String)
    ensures
        has_suffix(filename@, ".md"@) ==> r@ == filename@,
        !has_suffix(filename@, ".md"@) ==> r@ == filename@ + ".md"@,
{
    proof {
        reveal_strlit(".md");
    }
    let n = filename.unicode_len();
    let ends_md = n >= 3 && filename.get_char(n - 3) == '.' && filename.get_char(n - 2) == 'm'
        && filename.get_char(n - 1) == 'd';
    proof {
        if n >= 3 {
            let tail = filename@.skip(n - 3);
            assert(ends_md ==> tail =~= ".md"@);
            assert(tail == ".md"@ ==> tail[0] == '.' && tail[1] == 'm' && tail[2] == 'd');
        }
    }
    let mut r = filename.to_owned();
    if !ends_md {
        r.append(".md");
    }
    r
}

/// The text of a new document: a title line naming the file, then the
/// starting sections.
pub fn new_document(filename: &str) -> (r: String)
    ensures
        r@ == "# "@ + filename@ + "\n\n"@ + SAMPLE_MARKDOWN@,
{
    let mut r = "# ".to_owned();
    r.append(filename);
    r.append("\n\n");
    r.append(SAMPLE_MARKDOWN);
    r
}

} // verus!
