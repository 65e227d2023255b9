use vstd::prelude::*;

use crate::strings::bytes_eq;

verus! {

/// Options for comparing a local file against a remote node.
#[derive(Debug)]
pub struct Opts {
    /// The share link from which to list nodes.
    pub link: Option<String>,
    /// The password to use to decrypt the share link, if such is used.
    pub password: Option<String>,
    /// Display path or handle of the remote file to compare with.
    pub remote: String,
    /// Path to the local file to compare with.
    pub local: String,
}

impl Opts {
    pub fn may_need_user_session(&self) -> (r: bool)
        ensures
            r == (self.link is None && self.password is None),
    {
        self.link.is_none() && self.password.is_none()
    }
}

/// Whether the standalone comparison succeeds: the tag computed over the
/// local file equals the remote node's tag exactly. The process exit code
/// follows this outcome.
pub fn comparison_succeeds(local_tag: &Vec<u8>, remote_tag: &Vec<u8>) -> (r: bool)
    ensures
        r == (local_tag@ == remote_tag@),
{
    bytes_eq(local_tag, remote_tag)
}

} // verus!
