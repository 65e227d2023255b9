use vstd::prelude::*;

verus! {

/// Options for renaming a remote node.
#[derive(Debug)]
pub struct Opts {
    /// Display path or handle of the node to rename.
    pub path: String,
    /// New name for the node.
    pub name: String,
}

impl Opts {
    pub fn may_need_user_session(&self) -> (r: bool)
        ensures
            r == true,
    {
        true
    }
}

} // verus!
