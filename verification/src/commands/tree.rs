use vstd::prelude::*;
use vstd::string::StringExecFns;

use crate::model::Node;
use crate::model::NodeView;

verus! {

/// Options for displaying remote nodes as a tree.
#[derive(Debug)]
pub struct Opts {
    /// Show node handles.
    pub show_handles: bool,
    /// The share link from which to list nodes.
    pub link: Option<String>,
    /// The password to use to decrypt the share link, if such is used.
    pub password: Option<String>,
    /// Display path or handle of the folder to list from.
    pub path: Option<String>,
}

impl Opts {
    pub fn may_need_user_session(&self) -> (r: bool)
        ensures
            r == (self.link is None && self.password is None),
    {
        self.link.is_none() && self.password.is_none()
    }
}

/// A node's display label: its name, prefixed with its handle when asked
/// for, and suffixed with a separator when it is a folder.
pub open spec fn node_label_spec(n: NodeView, show_handles: bool) -> Seq<char> {
    let base = if show_handles {
        "(H:"@ + n.handle + ") "@ + n.name
    } else {
        n.name
    };
    if n.kind is File {
        base
    } else {
        base + "/"@
    }
}

/// Builds a node's display label.
pub fn format_node_label(node: &Node, show_handles: bool) -> (r: String)
    ensures
        r@ == node_label_spec(node@, show_handles),
{
    let base = if show_handles {
        let s = String::from_str("(H:");
        let s = s.concat(node.handle.as_str());
        let s = s.concat(") ");
        let s = s.concat(node.name.as_str());
        s
    } else {
        crate::strings::clone_string(&node.name)
    };
    match node.kind {
        crate::model::NodeKind::File => base,
        crate::model::NodeKind::Folder => base.concat("/"),
    }
}

} // verus!
