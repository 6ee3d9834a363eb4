//! Joining file-system paths written as strings, as on Unix: an absolute path replaces
//! the base, a relative one is appended after a separator.
use vstd::prelude::*;
use crate::text::{chars_of, push_char};

verus! {

/// `path` seen from `base`.
pub open spec fn joined(base: Seq<char>, path: Seq<char>) -> Seq<char> {
    if path.len() > 0 && path[0] == '/' {
        path
    } else if base.len() == 0 || base.last() == '/' {
        base + path
    } else {
        base.push('/') + path
    }
}

pub fn join_path(base: &str, path: &str) -> (r: String)
    ensures
        r@ == joined(base@, path@),
{
    let p = chars_of(path);
    if p.len() > 0 && p[0] == '/' {
        return path.to_owned();
    }
    let b = chars_of(base);
    let mut r = base.to_owned();
    if b.len() > 0 && b[b.len() - 1] != '/' {
        push_char(&mut r, '/');
    }
    r.append(path);
    r
}

} // verus!
