use vstd::prelude::*;

use crate::strings::clone_bytes;
use crate::strings::clone_string;
use crate::strings::str_eq;

verus! {

/// Whether a node is a transferable file or an expandable folder.
#[derive(Debug, Clone, Copy, PartialEq, Eq, Structural)]
pub enum NodeKind {
    File,
    Folder,
}

impl NodeKind {
    pub fn is_file(&self) -> (r: bool)
        ensures
            r == (*self is File),
    {
        match self {
            NodeKind::File => true,
            NodeKind::Folder => false,
        }
    }

    pub fn is_folder(&self) -> (r: bool)
        ensures
            r == (*self is Folder),
    {
        match self {
            NodeKind::File => false,
            NodeKind::Folder => true,
        }
    }
}

/// A last-modification timestamp: seconds since the Unix epoch plus a
/// sub-second nanosecond part.
#[derive(Debug, Clone, Copy, PartialEq, Eq, Structural)]
pub struct Timestamp {
    pub secs: i64,
    pub nanos: u32,
}

/// One entry (file or folder) of a remote tree snapshot.
///
/// `tag` is the content-authentication tag over the node's plaintext content,
/// when the catalog knows it; `key` is the node's opaque symmetric key
/// material and `iv` the recorded initialization vector, if any.
///
/// A node's children are not stored: they are derived as the nodes whose
/// `parent` handle names this node, which keeps the parent/child relation of
/// a snapshot coherent by construction while events mutate it.
#[derive(Debug)]
pub struct Node {
    pub handle: String,
    pub name: String,
    pub kind: NodeKind,
    pub size: u64,
    pub parent: Option<String>,
    pub tag: Option<Vec<u8>>,
    pub key: Vec<u8>,
    pub iv: Option<Vec<u8>>,
    pub modified_at: Option<Timestamp>,
}

/// The mathematical value of a [`Node`]: the same fields with strings and
/// byte vectors replaced by their sequences.
#[verifier::ext_equal]
pub ghost struct NodeView {
    pub handle: Seq<char>,
    pub name: Seq<char>,
    pub kind: NodeKind,
    pub size: u64,
    pub parent: Option<Seq<char>>,
    pub tag: Option<Seq<u8>>,
    pub key: Seq<u8>,
    pub iv: Option<Seq<u8>>,
    pub modified_at: Option<Timestamp>,
}

impl View for Node {
    type V = NodeView;

    open spec fn view(&self) -> NodeView {
        NodeView {
            handle: self.handle@,
            name: self.name@,
            kind: self.kind,
            size: self.size,
            parent: match self.parent {
                Some(p) => Some(p@),
                None => None,
            },
            tag: match self.tag {
                Some(t) => Some(t@),
                None => None,
            },
            key: self.key@,
            iv: match self.iv {
                Some(v) => Some(v@),
                None => None,
            },
            modified_at: self.modified_at,
        }
    }
}

/// True when some node of `s` carries the handle `h`.
pub open spec fn has_handle(s: Seq<NodeView>, h: Seq<char>) -> bool {
    exists|i: int| #![auto] 0 <= i < s.len() && s[i].handle == h
}

/// The index of the node of `s` carrying handle `h` (meaningful under
/// [`unique_handles`] when [`has_handle`] holds).
pub open spec fn index_of_handle(s: Seq<NodeView>, h: Seq<char>) -> int {
    choose|i: int| #![auto] 0 <= i < s.len() && s[i].handle == h
}

/// The node of `s` carrying handle `h`.
pub open spec fn node_of(s: Seq<NodeView>, h: Seq<char>) -> NodeView {
    s[index_of_handle(s, h)]
}

/// No two distinct nodes of `s` share a handle.
pub open spec fn unique_handles(s: Seq<NodeView>) -> bool {
    forall|i: int, j: int| #![auto]
        0 <= i < s.len() && 0 <= j < s.len() && i != j ==> s[i].handle != s[j].handle
}

/// A node counts as a root when it has no parent handle, or when its parent
/// handle does not resolve within the snapshot (a share-link root may carry a
/// parent that the snapshot does not hold).
pub open spec fn is_root(s: Seq<NodeView>, n: NodeView) -> bool {
    match n.parent {
        Some(p) => !has_handle(s, p),
        None => true,
    }
}

/// Under unique handles, finding handle `h` at index `i` pins
/// [`index_of_handle`] down to `i`.
pub proof fn lemma_found_index(s: Seq<NodeView>, h: Seq<char>, i: int)
    requires
        unique_handles(s),
        0 <= i < s.len(),
        s[i].handle == h,
    ensures
        has_handle(s, h),
        index_of_handle(s, h) == i,
        node_of(s, h) == s[i],
{
    assert(has_handle(s, h));
    let k = index_of_handle(s, h);
    assert(0 <= k < s.len() && s[k].handle == h);
    if k != i {
        assert(s[k].handle != s[i].handle);
    }
}

/// The node at index `i` of `s` is a child of the node carrying handle `h`.
pub open spec fn is_child_of(s: Seq<NodeView>, i: int, h: Seq<char>) -> bool {
    s[i].parent == Some(h)
}

/// The sequence `0, 1, ..., n - 1`.
pub open spec fn index_seq(n: nat) -> Seq<int> {
    Seq::new(n, |i: int| i)
}

/// The indices of the children of the node carrying handle `h`, in snapshot
/// order.
pub open spec fn child_indices(s: Seq<NodeView>, h: Seq<char>) -> Seq<int> {
    index_seq(s.len()).filter(|i: int| is_child_of(s, i, h))
}

/// The indices of the snapshot's roots, in snapshot order.
pub open spec fn root_indices_spec(s: Seq<NodeView>) -> Seq<int> {
    index_seq(s.len()).filter(|i: int| is_root(s, s[i]))
}

/// Clones a node, keeping its mathematical value.
pub fn clone_node(n: &Node) -> (r: Node)
    ensures
        r@ == n@,
{
    let r = Node {
        handle: clone_string(&n.handle),
        name: clone_string(&n.name),
        kind: n.kind,
        size: n.size,
        parent: match &n.parent {
            Some(p) => Some(clone_string(p)),
            None => None,
        },
        tag: match &n.tag {
            Some(t) => Some(clone_bytes(t)),
            None => None,
        },
        key: clone_bytes(&n.key),
        iv: match &n.iv {
            Some(v) => Some(clone_bytes(v)),
            None => None,
        },
        modified_at: n.modified_at,
    };
    proof {
        assert(r@ =~= n@);
    }
    r
}

/// An in-memory copy of the remote tree at a point in time: a collection of
/// nodes addressed by handle.
#[derive(Debug)]
pub struct Snapshot {
    pub nodes: Vec<Node>,
}

impl View for Snapshot {
    type V = Seq<NodeView>;

    open spec fn view(&self) -> Seq<NodeView> {
        self.nodes@.map_values(|n: Node| n@)
    }
}

impl Snapshot {
    /// The well-formedness invariant of a snapshot: handles address nodes
    /// unambiguously.
    pub open spec fn wf(&self) -> bool {
        unique_handles(self@)
    }

    pub fn len(&self) -> (r: usize)
        ensures
            r == self@.len(),
    {
        self.nodes.len()
    }

    /// Decides well-formedness at run time, for callers that assemble a
    /// snapshot from unverified input.
    pub fn check_wf(&self) -> (r: bool)
        ensures
            r == self.wf(),
    {
        let n = self.nodes.len();
        let mut i: usize = 0;
        while i < n
            invariant
                n == self@.len(),
                i <= n,
                forall|p: int, q: int| #![auto]
                    0 <= p < i && 0 <= q < n && p != q ==> self@[p].handle != self@[q].handle,
            decreases n - i,
        {
            let mut j: usize = i + 1;
            while j < n
                invariant
                    n == self@.len(),
                    i < n,
                    i < j <= n,
                    forall|q: int| #![auto] i < q < j ==> self@[i as int].handle != self@[q].handle,
                    forall|p: int, q: int| #![auto]
                        0 <= p < i && 0 <= q < n && p != q ==> self@[p].handle != self@[q].handle,
                decreases n - j,
            {
                if str_eq(self.nodes[i].handle.as_str(), self.nodes[j].handle.as_str()) {
                    proof {
                        assert(!unique_handles(self@)) by {
                            assert(self@[i as int].handle == self@[j as int].handle);
                        }
                    }
                    return false;
                }
                j += 1;
            }
            i += 1;
        }
        true
    }

    /// Looks a node up by its opaque handle.
    pub fn get_node_by_handle(&self, handle: &str) -> (r: Option<&Node>)
        requires
            self.wf(),
        ensures
            match r {
                Some(n) => has_handle(self@, handle@) && n@ == node_of(self@, handle@),
                None => !has_handle(self@, handle@),
            },
    {
        let n = self.nodes.len();
        let mut i: usize = 0;
        while i < n
            invariant
                self.wf(),
                n == self@.len(),
                i <= n,
                forall|j: int| #![auto] 0 <= j < i ==> self@[j].handle != handle@,
            decreases n - i,
        {
            if str_eq(self.nodes[i].handle.as_str(), handle) {
                proof {
                    let s = self@;
                    assert(s[i as int].handle == handle@);
                    let k = index_of_handle(s, handle@);
                    assert(0 <= k < s.len() && s[k].handle == handle@);
                    assert(k == i as int);
                }
                return Some(&self.nodes[i]);
            }
            i += 1;
        }
        None
    }

    /// Whether this node counts as a root of the snapshot.
    pub fn is_root_node(&self, node: &Node) -> (r: bool)
        requires
            self.wf(),
        ensures
            r == is_root(self@, node@),
    {
        match &node.parent {
            None => true,
            Some(p) => self.get_node_by_handle(p.as_str()).is_none(),
        }
    }

    /// The indices of the children of the node carrying `handle`, in
    /// snapshot order.
    pub fn children_of(&self, handle: &str) -> (r: Vec<usize>)
        ensures
            r@.map_values(|u: usize| u as int) == child_indices(self@, handle@),
            forall|k: int| #![auto] 0 <= k < r@.len() ==> r@[k] < self@.len(),
    {
        let ghost s = self@;
        let ghost pred = |m: int| is_child_of(s, m, handle@);
        let n = self.nodes.len();
        let mut out: Vec<usize> = Vec::new();
        let mut i: usize = 0;
        proof {
            assert(index_seq(0).filter(pred) =~= Seq::<int>::empty());
        }
        while i < n
            invariant
                s == self@,
                n == s.len(),
                i <= n,
                forall|m: int| #[trigger] pred(m) == is_child_of(s, m, handle@),
                forall|k: int| #![auto] 0 <= k < out@.len() ==> out@[k] < i,
                out@.map_values(|u: usize| u as int) == index_seq(i as nat).filter(pred),
            decreases n - i,
        {
            let matches_parent = match &self.nodes[i].parent {
                Some(p) => str_eq(p.as_str(), handle),
                None => false,
            };
            let ghost prev = out@.map_values(|u: usize| u as int);
            proof {
                assert(matches_parent == pred(i as int));
                let taken = index_seq(i as nat);
                taken.lemma_filter_push(i as int, pred);
                assert(index_seq((i + 1) as nat) =~= taken.push(i as int));
            }
            if matches_parent {
                out.push(i);
                proof {
                    assert(index_seq((i + 1) as nat).filter(pred) == prev.push(i as int));
                    assert(out@.map_values(|u: usize| u as int) =~= prev.push(i as int));
                }
            } else {
                proof {
                    assert(index_seq((i + 1) as nat).filter(pred) == prev);
                }
            }
            i += 1;
        }
        proof {
            assert(pred =~= (|m: int| is_child_of(s, m, handle@)));
        }
        out
    }

    /// The indices of the snapshot's roots, in snapshot order.
    pub fn root_indices(&self) -> (r: Vec<usize>)
        requires
            self.wf(),
        ensures
            r@.map_values(|u: usize| u as int) == root_indices_spec(self@),
            forall|k: int| #![auto] 0 <= k < r@.len() ==> r@[k] < self@.len(),
    {
        let ghost s = self@;
        let ghost pred = |m: int| is_root(s, s[m]);
        let n = self.nodes.len();
        let mut out: Vec<usize> = Vec::new();
        let mut i: usize = 0;
        proof {
            assert(index_seq(0).filter(pred) =~= Seq::<int>::empty());
        }
        while i < n
            invariant
                self.wf(),
                s == self@,
                n == s.len(),
                i <= n,
                forall|m: int| #[trigger] pred(m) == is_root(s, s[m]),
                forall|k: int| #![auto] 0 <= k < out@.len() ==> out@[k] < i,
                out@.map_values(|u: usize| u as int) == index_seq(i as nat).filter(pred),
            decreases n - i,
        {
            let at_root = self.is_root_node(&self.nodes[i]);
            let ghost prev = out@.map_values(|u: usize| u as int);
            proof {
                assert(at_root == pred(i as int));
                let taken = index_seq(i as nat);
                taken.lemma_filter_push(i as int, pred);
                assert(index_seq((i + 1) as nat) =~= taken.push(i as int));
            }
            if at_root {
                out.push(i);
                proof {
                    assert(index_seq((i + 1) as nat).filter(pred) == prev.push(i as int));
                    assert(out@.map_values(|u: usize| u as int) =~= prev.push(i as int));
                }
            } else {
                proof {
                    assert(index_seq((i + 1) as nat).filter(pred) == prev);
                }
            }
            i += 1;
        }
        proof {
            assert(pred =~= (|m: int| is_root(s, s[m])));
        }
        out
    }
}

} // verus!
