use vstd::prelude::*;

verus! {

/// Options for deleting a remote node.
#[derive(Debug)]
pub struct Opts {
    /// Whether to move the node to the rubbish bin instead of deleting it
    /// permanently.
    pub soft: bool,
    /// Display path or handle of the node to delete.
    pub path: String,
}

impl Opts {
    pub fn may_need_user_session(&self) -> (r: bool)
        ensures
            r == true,
    {
        true
    }
}

} // verus!
