//! The names of the files that are written.

use vstd::prelude::*;
use vstd::string::{StrSliceExecFns, StringExecFns};

use crate::text::chars_of;

verus! {

/// The place of the last `.` in `path`, if it has one.
pub open spec fn last_dot(path: Seq<char>) -> Option<int>
    decreases path.len(),
{
    if path.len() == 0 {
        None
    } else if path.last() == '.' {
        Some(path.len() - 1)
    } else {
        last_dot(path.drop_last())
    }
}

/// `path` up to its last `.`; all of it where it has none.
pub open spec fn stem(path: Seq<char>) -> Seq<char> {
    match last_dot(path) {
        Some(dot) => path.take(dot),
        None => path,
    }
}

/// `path` after its last `.`; all of it where it has none.
pub open spec fn extension(path: Seq<char>) -> Seq<char> {
    match last_dot(path) {
        Some(dot) => path.skip(dot + 1),
        None => path,
    }
}

/// The name under which the image read from `path` is written after it was
/// recoloured with `scheme`: the stem of `path`, `-`, the scheme, the
/// suffix, `.`, and the extension of `path`.
pub open spec fn output_name(path: Seq<char>, scheme: Seq<char>, suffix: Seq<char>) -> Seq<char> {
    stem(path) + seq!['-'] + scheme + suffix + seq!['.'] + extension(path)
}

/// The place of the last `.` in `chars`.
fn find_last_dot(chars: &Vec<char>) -> (r: Option<usize>)
    ensures
        match r {
            Some(dot) => last_dot(chars@) == Some(dot as int) && dot < chars@.len(),
            None => last_dot(chars@) is None,
        },
{
    let mut end: usize = chars.len();
    assert(chars@.take(end as int) =~= chars@);
    while end > 0
        invariant
            end <= chars@.len(),
            last_dot(chars@) == last_dot(chars@.take(end as int)),
        decreases end,
    {
        if chars[end - 1] == '.' {
            return Some(end - 1);
        }
        assert(chars@.take(end as int).drop_last() =~= chars@.take(end - 1));
        end -= 1;
    }
    None
}

/// The name of the file for the image that was read from `path` and
/// recoloured with the scheme `scheme`. `suffix` tells one variant of the
/// output from another and may be empty. A path without a `.` is taken for
/// its stem and for its extension alike.
pub fn output_path(path: &str, scheme: &str, suffix: &str) -> (name: String)
    ensures
        name@ == output_name(path@, scheme@, suffix@),
{
    let chars = chars_of(path);
    let len: usize = chars.len();
    let (stem_text, extension_text) = match find_last_dot(&chars) {
        Some(dot) => (path.substring_char(0, dot), path.substring_char(dot + 1, len)),
        None => (path, path),
    };
    assert(stem_text@ =~= stem(path@));
    assert(extension_text@ =~= extension(path@));
    proof {
        reveal_strlit("-");
        reveal_strlit(".");
        assert("-"@ =~= seq!['-']);
        assert("."@ =~= seq!['.']);
    }
    let mut name = String::from_str(stem_text);
    name.append("-");
    name.append(scheme);
    name.append(suffix);
    name.append(".");
    name.append(extension_text);
    name
}

} // verus!
