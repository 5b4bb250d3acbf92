//! The path of a subdirectory, formed from the path of its directory and
//! its name.

use vstd::prelude::*;

verus! {

/// The path of the entry `name` in the directory `parent`: the two joined
/// by a slash, which is left out where `parent` is empty or ends in one. A
/// name that begins with a slash is a path from the root and stands alone.
pub open spec fn child_path_text(parent: Seq<char>, name: Seq<char>) -> Seq<char> {
    if name.len() > 0 && name[0] == '/' {
        name
    } else if parent.len() == 0 || parent.last() == '/' {
        parent + name
    } else {
        parent + seq!['/'] + name
    }
}

/// Joins the name of an entry to the path of its directory.
pub fn child_path(parent: &str, name: &str) -> (path: String)
    ensures
        path@ == child_path_text(parent@, name@),
{
    let name_len: usize = name.unicode_len();
    if name_len > 0 && name.get_char(0) == '/' {
        return String::from_str(name);
    }
    let parent_len: usize = parent.unicode_len();
    let mut path: String = String::from_str(parent);
    if parent_len > 0 && parent.get_char(parent_len - 1) != '/' {
        proof {
            reveal_strlit("/");
        }
        path.append("/");
    }
    path.append(name);
    assert(path@ =~= child_path_text(parent@, name@));
    path
}

} // verus!
