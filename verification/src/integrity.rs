use vstd::prelude::*;

use crate::model::Node;
use crate::model::NodeView;
use crate::strings::bytes_eq;

verus! {

/// What integrity verification learns about the local path before reading
/// any content: whether something exists there, whether it is a regular
/// file, and its byte length.
#[derive(Debug, Clone, Copy, PartialEq, Eq, Structural)]
pub struct LocalFileFacts {
    pub exists: bool,
    pub is_regular_file: bool,
    pub byte_len: u64,
}

/// The decision reached before any content is read.
#[derive(Debug, Clone, Copy, PartialEq, Eq, Structural)]
pub enum IntegrityPrecheck {
    /// The local copy cannot match (missing, not a regular file, no remote
    /// tag to compare against, or a differing length): transfer, computing
    /// no tag.
    Transfer,
    /// Lengths agree and the remote node carries a tag: stream the local
    /// content (exactly `size` bytes) through the content-authentication
    /// algorithm and compare tags.
    CompareContent { size: u64 },
}

/// The precheck decision as a function of the node and the local facts.
pub open spec fn precheck_spec(n: NodeView, f: LocalFileFacts) -> IntegrityPrecheck {
    if !f.exists || !f.is_regular_file {
        IntegrityPrecheck::Transfer
    } else if n.tag is None {
        IntegrityPrecheck::Transfer
    } else if f.byte_len != n.size {
        IntegrityPrecheck::Transfer
    } else {
        IntegrityPrecheck::CompareContent { size: n.size }
    }
}

/// Decides, before any content is read, whether streaming the local file is
/// worthwhile at all.
pub fn integrity_precheck(node: &Node, facts: &LocalFileFacts) -> (r: IntegrityPrecheck)
    ensures
        r == precheck_spec(node@, *facts),
{
    if !facts.exists || !facts.is_regular_file {
        return IntegrityPrecheck::Transfer;
    }
    if node.tag.is_none() {
        return IntegrityPrecheck::Transfer;
    }
    if facts.byte_len != node.size {
        return IntegrityPrecheck::Transfer;
    }
    IntegrityPrecheck::CompareContent { size: node.size }
}

/// Whether a computed content-authentication tag equals the node's.
pub fn tag_matches(node: &Node, computed: &Vec<u8>) -> (r: bool)
    ensures
        r == match node@.tag {
            Some(t) => computed@ == t,
            None => false,
        },
{
    match &node.tag {
        Some(t) => bytes_eq(computed, t),
        None => false,
    }
}

/// Whether the local copy already matches the remote node: the precheck
/// must ask for a content comparison, and the tag computed over the local
/// content must equal the remote tag exactly.
pub open spec fn already_synced_spec(
    n: NodeView,
    f: LocalFileFacts,
    computed: Option<Seq<u8>>,
) -> bool {
    &&& precheck_spec(n, f) is CompareContent
    &&& match (computed, n.tag) {
        (Some(c), Some(t)) => c == t,
        _ => false,
    }
}

/// Decides whether the local copy already matches the remote node, given
/// the local facts and the tag computed over the local content (absent when
/// the caller skipped the streaming step).
pub fn already_synced(node: &Node, facts: &LocalFileFacts, computed: Option<&Vec<u8>>) -> (r:
    bool)
    ensures
        r == already_synced_spec(
            node@,
            *facts,
            match computed {
                Some(c) => Some(c@),
                None => None,
            },
        ),
{
    let pre = integrity_precheck(node, facts);
    match pre {
        IntegrityPrecheck::Transfer => false,
        IntegrityPrecheck::CompareContent { .. } => match computed {
            Some(c) => tag_matches(node, c),
            None => false,
        },
    }
}

/// A local file of the same size and tag as the remote node counts as
/// already synced; a differing tag does not; a differing length is decided
/// at the precheck, before any tag is computed.
pub proof fn lemma_integrity_verifier(n: NodeView, f: LocalFileFacts, c: Seq<u8>)
    requires
        f.exists,
        f.is_regular_file,
        n.tag is Some,
    ensures
        f.byte_len == n.size && c == n.tag->0 ==> already_synced_spec(n, f, Some(c)),
        c != n.tag->0 ==> !already_synced_spec(n, f, Some(c)),
        f.byte_len != n.size ==> precheck_spec(n, f) == IntegrityPrecheck::Transfer,
{
}

} // verus!
