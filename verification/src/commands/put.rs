use vstd::prelude::*;
use vstd::string::StrSliceExecFns;
use vstd::string::StringExecFns;

use crate::paths::PathPair;
use crate::strings::clone_string;

verus! {

/// Options for uploading a file to the remote store.
#[derive(Debug)]
pub struct Opts {
    /// Path of the input file.
    pub input_file: String,
    /// Display path in the remote store to upload the file to.
    pub path: String,
}

impl Opts {
    pub fn may_need_user_session(&self) -> (r: bool)
        ensures
            r == true,
    {
        true
    }
}

/// The position of the last path separator of `p`, if any.
pub open spec fn last_slash(p: Seq<char>) -> Option<int>
    decreases p.len(),
{
    if p.len() == 0 {
        None
    } else if p[p.len() - 1] == '/' {
        Some(p.len() - 1)
    } else {
        last_slash(p.drop_last())
    }
}

/// A separator at `q` with none after it is the last one.
proof fn lemma_last_slash_found(p: Seq<char>, q: int)
    requires
        0 <= q < p.len(),
        p[q] == '/',
        forall|j: int| q < j < p.len() ==> p[j] != '/',
    ensures
        last_slash(p) == Some(q),
    decreases p.len(),
{
    if q == p.len() - 1 {
    } else {
        assert(p[p.len() - 1] != '/');
        lemma_last_slash_found(p.drop_last(), q);
    }
}

/// With no separator anywhere there is no last one.
proof fn lemma_last_slash_none(p: Seq<char>)
    requires
        forall|j: int| 0 <= j < p.len() ==> p[j] != '/',
    ensures
        last_slash(p) is None,
    decreases p.len(),
{
    if p.len() > 0 {
        lemma_last_slash_none(p.drop_last());
    }
}

/// Splits an upload path at its last separator into the parent path and
/// the file name; a path without a separator names no parent and is
/// rejected by the caller.
pub fn split_upload_path(path: &str) -> (r: Option<PathPair>)
    ensures
        match r {
            Some(pr) => match last_slash(path@) {
                Some(q) => pr@.parent == path@.take(q) && pr@.name == path@.skip(q + 1),
                None => false,
            },
            None => last_slash(path@) is None,
        },
{
    let ghost p = path@;
    let n = path.unicode_len();
    let mut q: usize = n;
    let mut found = false;
    while q > 0
        invariant_except_break
            p == path@,
            n == p.len(),
            q <= n,
            !found,
            forall|j: int| q <= j < n ==> p[j] != '/',
        ensures
            p == path@,
            n == p.len(),
            q <= n,
            forall|j: int| q <= j < n ==> p[j] != '/',
            found ==> q >= 1 && p[q - 1] == '/',
            !found ==> q == 0,
        decreases q,
    {
        if path.get_char(q - 1) == '/' {
            found = true;
            break;
        }
        q -= 1;
    }
    if !found {
        proof {
            lemma_last_slash_none(p);
        }
        return None;
    }
    proof {
        lemma_last_slash_found(p, q - 1);
    }
    let parent = String::from_str(path.substring_char(0, q - 1));
    let name = String::from_str(path.substring_char(q, n));
    Some(PathPair { parent, name })
}

/// The name the uploaded node is stored under: the path's final segment,
/// or the local file's own name when that segment is empty.
pub fn effective_upload_name(segment: &str, fallback: &str) -> (r: String)
    ensures
        segment@.len() == 0 ==> r@ == fallback@,
        segment@.len() > 0 ==> r@ == segment@,
{
    if segment.unicode_len() == 0 {
        String::from_str(fallback)
    } else {
        String::from_str(segment)
    }
}

} // verus!
