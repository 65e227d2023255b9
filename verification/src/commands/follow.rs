use vstd::prelude::*;

verus! {

/// Options for displaying remote storage events as they happen.
#[derive(Debug)]
pub struct Opts {}

impl Opts {
    pub fn may_need_user_session(&self) -> (r: bool)
        ensures
            r == true,
    {
        true
    }
}

} // verus!
