use vstd::prelude::*;

use crate::strings::str_starts_with;

verus! {

/// Returns whether the argument is a public share URL rather than a display
/// path or a node handle: references to shared content travel as URLs, and
/// only those start with the secure scheme.
pub fn is_public_link(input: &str) -> (r: bool)
    ensures
        r == (input@.len() >= "https://"@.len() && input@.subrange(
            0,
            "https://"@.len() as int,
        ) == "https://"@),
{
    str_starts_with(input, "https://")
}

} // verus!
