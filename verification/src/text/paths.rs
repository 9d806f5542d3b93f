//! Slash-separated paths as text.

use vstd::prelude::*;

use crate::text::search::{ends_with, finishes, last_index, rfind_char, tail};

verus! {

/// `rel` under `base`: an absolute `rel` stands for itself, and otherwise one
/// slash stands between the two.
pub open spec fn join_path(base: Seq<char>, rel: Seq<char>) -> Seq<char> {
    if rel.len() > 0 && rel[0] == '/' {
        rel
    } else if base.len() == 0 || base.last() == '/' {
        base + rel
    } else {
        base + "/"@ + rel
    }
}

/// The part of the path behind its last slash.
pub open spec fn base_name(path: Seq<char>) -> Seq<char> {
    path.skip(last_index(path, '/') + 1)
}

/// Whether the file name has the extension `conf`, and something before it.
pub open spec fn is_conf_name(name: Seq<char>) -> bool {
    finishes(name, ".conf"@) && name.len() > 5
}

/// Whether the file name has the extension `conf`.
pub fn conf_name(name: &str) -> (r: bool)
    ensures
        r == is_conf_name(name@),
{
    ends_with(name, ".conf") && name.unicode_len() > 5
}

/// `rel` under `base`.
pub fn path_join(base: &str, rel: &str) -> (r: String)
    ensures
        r@ == join_path(base@, rel@),
{
    if !rel.is_empty() && rel.get_char(0) == '/' {
        return rel.to_owned();
    }
    let mut r: String = base.to_owned();
    let n: usize = base.unicode_len();
    if n > 0 && base.get_char(n - 1) != '/' {
        r.append("/");
    }
    r.append(rel);
    r
}

/// The part of the path behind its last slash.
pub fn file_name(path: &str) -> (r: String)
    ensures
        r@ == base_name(path@),
{
    let n: usize = path.unicode_len();
    match rfind_char(path, '/') {
        Some(i) => tail(path, i + 1),
        None => tail(path, 0),
    }
}

} // verus!
