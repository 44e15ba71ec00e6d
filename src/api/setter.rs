use vstd::prelude::*;
use crate::api::md_paraser::{lines_of, split_lines, views};
use crate::md_parser::{has_prefix, starts_with};

verus! {

/// The name of the setting that holds the service key.
pub const DEEPSEEK_API: &'static str = "DEEPSEEK_API";

/// The name of the setting that holds the path of the document in use.
pub const RESUME_FILE: &'static str = "RESUME_FILE";

/// How many times `c` occurs in `l`.
pub open spec fn count_char(l: Seq<char>, c: char) -> nat
    decreases l.len(),
{
    if l.len() == 0 {
        0
    } else {
        count_char(l.drop_last(), c) + if l.last() == c {
            1nat
        } else {
            0nat
        }
    }
}

/// The value that a settings line `NAME=VALUE` gives to `key`: the line
/// holds exactly one `=`, and `key` stands before it.
pub open spec fn setting_value(l: Seq<char>, key: Seq<char>) -> Option<Seq<char>> {
    if count_char(l, '=') == 1 && key.len() < l.len() && has_prefix(l, key) && l[key.len() as int]
        == '=' {
        Some(l.skip(key.len() as int + 1))
    } else {
        None
    }
}

/// The value that the first line naming `key` gives it.
pub open spec fn first_setting(ls: Seq<Seq<char>>, key: Seq<char>) -> Option<Seq<char>>
    decreases ls.len(),
{
    if ls.len() == 0 {
        None
    } else {
        match setting_value(ls[0], key) {
            Some(v) => Some(v),
            None => first_setting(ls.skip(1), key),
        }
    }
}

/// The line `key=value`.
pub open spec fn setting_line(key: Seq<char>, value: Seq<char>) -> Seq<char> {
    key + seq!['='] + value
}

/// The lines with every line naming `key` set to `value`, each line followed
/// by a line break.
pub open spec fn rewrite_lines(ls: Seq<Seq<char>>, key: Seq<char>, value: Seq<char>) -> Seq<char>
    decreases ls.len(),
{
    if ls.len() == 0 {
        Seq::empty()
    } else {
        rewrite_lines(ls.drop_last(), key, value) + if setting_value(ls.last(), key) is Some {
            setting_line(key, value)
        } else {
            ls.last()
        } + seq!['\n']
    }
}

/// The settings text with `key` set to `value`: lines naming `key` are
/// replaced, the others kept; where none names it, the line is added at the
/// end.
pub open spec fn updated_settings(contents: Seq<char>, key: Seq<char>, value: Seq<char>) -> Seq<
    char,
> {
    let ls = lines_of(contents);
    if exists|i: int| 0 <= i < ls.len() && (#[trigger] setting_value(ls[i], key)) is Some {
        rewrite_lines(ls, key, value)
    } else {
        rewrite_lines(ls, key, value) + setting_line(key, value) + seq!['\n']
    }
}

/// The value of `key` in a settings line, as `setting_value` says.
pub fn line_setting(l: &str, key: &str) -> (r: Option<String>)
    ensures
        r matches Some(v) ==> setting_value(l@, key@) == Some(v@),
        r is None ==> setting_value(l@, key@) is None,
{
    let mut count: usize = 0;
    let mut index: usize = 0;
    let n = l.unicode_len();
    for c in it: l.chars()
        invariant
            it.seq() == l@,
            n == l@.len(),
            count == count_char(l@.take(it.index() as int), '='),
            index == it.index(),
            count <= index,
    {
        proof {
            assert(l@.take(it.index() + 1).drop_last() =~= l@.take(it.index() as int));
        }
        if c == '=' {
            count = count + 1;
        }
        index = index + 1;
    }
    proof {
        assert(l@.take(n as int) =~= l@);
    }
    let k = key.unicode_len();
    if count == 1 && k < n && starts_with(l, key) && l.get_char(k) == '=' {
        Some(l.substring_char(k + 1, n).to_owned())
    } else {
        None
    }
}

/// The value that the first line naming `key` gives it, if any.
pub fn find_setting(contents: &str, key: &str) -> (r: Option<String>)
    ensures
        r matches Some(v) ==> first_setting(lines_of(contents@), key@) == Some(v@),
        r is None ==> first_setting(lines_of(contents@), key@) is None,
{
    let lines = split_lines(contents);
    let ghost ls = views(lines@);
    let n = lines.len();
    proof {
        assert(ls.skip(0) =~= ls);
    }
    for i in 0..n
        invariant
            n == lines@.len(),
            ls == views(lines@),
            ls == lines_of(contents@),
            first_setting(ls, key@) == first_setting(ls.skip(i as int), key@),
    {
        proof {
            assert(ls.skip(i as int)[0] == lines@[i as int]@);
            assert(ls.skip(i as int).skip(1) =~= ls.skip(i + 1));
        }
        match line_setting(lines[i].as_str(), key) {
            Some(v) => {
                return Some(v);
            },
            None => {},
        }
    }
    proof {
        assert(ls.skip(n as int) =~= Seq::<Seq<char>>::empty());
    }
    None
}

/// The settings text with `key` set to `value`, as `updated_settings` says.
pub fn update_setting(contents: &str, key: &str, value: &str) -> (r: String)
    ensures
        r@ == updated_settings(contents@, key@, value@),
{
    let lines = split_lines(contents);
    let ghost ls = views(lines@);
    let mut out = String::new();
    let mut found = false;
    let n = lines.len();
    for i in 0..n
        invariant
            n == lines@.len(),
            ls == views(lines@),
            ls == lines_of(contents@),
            out@ == rewrite_lines(ls.take(i as int), key@, value@),
            found <==> exists|j: int| 0 <= j < i && (#[trigger] setting_value(ls[j], key@)) is Some,
    {
        proof {
            assert(ls.take(i + 1).drop_last() =~= ls.take(i as int));
            assert(ls.take(i + 1).last() == lines@[i as int]@);
        }
        let line = lines[i].as_str();
        match line_setting(line, key) {
            Some(_) => {
                out.append(key);
                out.append("=");
                out.append(value);
                found = true;
            },
            None => {
                out.append(line);
            },
        }
        out.append("\n");
        proof {
            reveal_strlit("=");
            reveal_strlit("\n");
            assert(out@ =~= rewrite_lines(ls.take(i + 1), key@, value@));
        }
    }
    proof {
        assert(ls.take(n as int) =~= ls);
    }
    if !found {
        out.append(key);
        out.append("=");
        out.append(value);
        out.append("\n");
        proof {
            reveal_strlit("=");
            reveal_strlit("\n");
            assert(out@ =~= rewrite_lines(ls, key@, value@) + setting_line(key@, value@) + seq![
                '\n',
            ]);
        }
    }
    out
}

} // verus!
