//! File-system paths, taken as text with `/` as the separator.
use vstd::prelude::*;

verus! {

/// The path `name` relative to `dir`, as `PathBuf::join` forms it on Unix:
/// an absolute `name` replaces `dir`; otherwise a separator is put between
/// them unless `dir` is empty or already ends with one.
pub open spec fn path_join(dir: Seq<char>, name: Seq<char>) -> Seq<char> {
    if name.len() > 0 && name[0] == '/' {
        name
    } else if dir.len() == 0 || dir.last() == '/' {
        dir + name
    } else {
        dir + seq!['/'] + name
    }
}

/// Joins `name` to the directory `dir` (see `path_join`).
pub fn join_path(dir: &str, name: &str) -> (p: String)
    ensures
        p@ == path_join(dir@, name@),
{
    let n = name.unicode_len();
    if n > 0 && name.get_char(0) == '/' {
        return name.to_string();
    }
    let d = dir.unicode_len();
    let mut p = dir.to_string();
    if d > 0 && dir.get_char(d - 1) != '/' {
        p.append("/");
        proof {
            reveal_strlit("/");
        }
    }
    p.append(name);
    assert(p@ =~= path_join(dir@, name@));
    p
}

} // verus!
