//! Path normalization: a path that lies inside the current working directory
//! is stored relative to it, so a bookmark survives the same project being
//! checked out at a different root; any other path is stored as given.

use vstd::prelude::*;

verus! {

/// Whether `path` names something strictly inside the directory `cwd`: it
/// starts with `cwd` followed by a separator.
pub open spec fn is_under(path: Seq<char>, cwd: Seq<char>) -> bool {
    cwd.len() > 0 && path.len() > cwd.len() && path.subrange(0, cwd.len() as int) == cwd && path[
        cwd.len() as int
    ] == '/'
}

/// The stored form of `path` under the working directory `cwd`: the part
/// after `cwd`'s separator when `path` lies inside `cwd`, else `path` itself.
pub open spec fn rel_of(path: Seq<char>, cwd: Seq<char>) -> Seq<char> {
    if is_under(path, cwd) {
        path.subrange(cwd.len() as int + 1, path.len() as int)
    } else {
        path
    }
}

/// Makes `path` relative to `cwd` when it lies inside `cwd`; otherwise
/// returns it unchanged. Pure: reads nothing from the environment.
pub fn get_relative_path(path: &String, cwd: &String) -> (r: String)
    ensures
        r@ == rel_of(path@, cwd@),
{
    let p = path.as_str();
    let plen = p.unicode_len();
    let c = cwd.as_str();
    let clen = c.unicode_len();
    if clen == 0 || plen <= clen {
        return path.clone();
    }
    let prefix = String::from_str(p.substring_char(0, clen));
    if !(prefix == *cwd) {
        return path.clone();
    }
    if p.get_char(clen) != '/' {
        return path.clone();
    }
    String::from_str(p.substring_char(clen + 1, plen))
}

} // verus!
