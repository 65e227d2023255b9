use vstd::prelude::*;
use vstd::string::StringExecFns;

use crate::model::has_handle;
use crate::model::node_of;
use crate::model::Node;
use crate::model::NodeView;
use crate::model::Snapshot;
use crate::strings::path_sep;

verus! {

/// A display path split into a parent path and one final segment.
#[derive(Debug)]
pub struct PathPair {
    pub parent: String,
    pub name: String,
}

/// The mathematical value of a [`PathPair`].
#[verifier::ext_equal]
pub ghost struct PathPairView {
    pub parent: Seq<char>,
    pub name: Seq<char>,
}

impl View for PathPair {
    type V = PathPairView;

    open spec fn view(&self) -> PathPairView {
        PathPairView { parent: self.parent@, name: self.name@ }
    }
}

/// The absolute display path of the node carrying handle `h`: the
/// slash-joined chain of ancestor names, ending with the node's own name and
/// starting with a separator at the topmost resolvable ancestor.
///
/// The walk ascends through parent handles and spends one unit of `fuel` per
/// step, so a malformed (cyclic) catalog truncates instead of spinning.
pub open spec fn full_path_spec(s: Seq<NodeView>, h: Seq<char>, fuel: nat) -> Seq<char>
    decreases fuel,
{
    if !has_handle(s, h) {
        Seq::empty()
    } else {
        let n = node_of(s, h);
        let prefix = match n.parent {
            Some(p) => if fuel > 0 && has_handle(s, p) {
                full_path_spec(s, p, (fuel - 1) as nat)
            } else {
                Seq::empty()
            },
            None => Seq::empty(),
        };
        prefix + path_sep() + n.name
    }
}

/// The display path of the node carrying handle `h` relative to the node
/// carrying `root_h`: the root's own name followed by the names on the way
/// down. A node whose parent chain never meets the root yields its own name
/// alone, as the topmost name of the walk.
pub open spec fn relative_path_spec(
    s: Seq<NodeView>,
    root_h: Seq<char>,
    h: Seq<char>,
    fuel: nat,
) -> Seq<char>
    decreases fuel,
{
    if !has_handle(s, h) {
        Seq::empty()
    } else {
        let n = node_of(s, h);
        if h == root_h {
            n.name
        } else {
            match n.parent {
                Some(p) => if fuel > 0 && has_handle(s, p) {
                    relative_path_spec(s, root_h, p, (fuel - 1) as nat) + path_sep() + n.name
                } else {
                    n.name
                },
                None => n.name,
            }
        }
    }
}

/// Walks the parent chain upward, assembling the absolute display path.
fn full_path_of(nodes: &Snapshot, h: &str, fuel: usize) -> (r: String)
    requires
        nodes.wf(),
    ensures
        r@ == full_path_spec(nodes@, h@, fuel as nat),
    decreases fuel,
{
    proof {
        reveal_strlit("/");
        assert("/"@ =~= path_sep());
    }
    match nodes.get_node_by_handle(h) {
        None => String::new(),
        Some(node) => {
            let prefix: String = match &node.parent {
                Some(p) => {
                    if fuel > 0 && nodes.get_node_by_handle(p.as_str()).is_some() {
                        full_path_of(nodes, p.as_str(), fuel - 1)
                    } else {
                        String::new()
                    }
                },
                None => String::new(),
            };
            let joined = prefix.concat("/");
            let joined = joined.concat(node.name.as_str());
            joined
        },
    }
}

/// Constructs the full path to a node, by visiting all of its parents.
///
/// The walk up the tree is depth-bounded by the snapshot's size, so an
/// untrusted catalog with a cyclic parent chain cannot make it diverge.
pub fn construct_full_path(nodes: &Snapshot, node: &Node) -> (r: String)
    requires
        nodes.wf(),
    ensures
        r@ == full_path_spec(nodes@, node@.handle, nodes@.len()),
{
    full_path_of(nodes, node.handle.as_str(), nodes.len())
}

/// Walks the parent chain upward until the reference root, assembling the
/// relative display path.
fn relative_path_of(nodes: &Snapshot, root_h: &str, h: &str, fuel: usize) -> (r: String)
    requires
        nodes.wf(),
    ensures
        r@ == relative_path_spec(nodes@, root_h@, h@, fuel as nat),
    decreases fuel,
{
    proof {
        reveal_strlit("/");
        assert("/"@ =~= path_sep());
    }
    match nodes.get_node_by_handle(h) {
        None => String::new(),
        Some(node) => {
            if crate::strings::str_eq(h, root_h) {
                return crate::strings::clone_string(&node.name);
            }
            match &node.parent {
                Some(p) => {
                    if fuel > 0 && nodes.get_node_by_handle(p.as_str()).is_some() {
                        let prefix = relative_path_of(nodes, root_h, p.as_str(), fuel - 1);
                        let joined = prefix.concat("/");
                        let joined = joined.concat(node.name.as_str());
                        joined
                    } else {
                        crate::strings::clone_string(&node.name)
                    }
                },
                None => crate::strings::clone_string(&node.name),
            }
        },
    }
}

/// Constructs the relative path to a node from a reference (root) node.
///
/// Like [`construct_full_path`], the walk is depth-bounded by the snapshot's
/// size.
pub fn construct_relative_path(nodes: &Snapshot, root: &Node, node: &Node) -> (r: String)
    requires
        nodes.wf(),
    ensures
        r@ == relative_path_spec(nodes@, root@.handle, node@.handle, nodes@.len()),
{
    relative_path_of(nodes, root.handle.as_str(), node.handle.as_str(), nodes.len())
}

} // verus!
