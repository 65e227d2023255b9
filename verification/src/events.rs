use vstd::prelude::*;

use crate::model::clone_node;
use crate::model::has_handle;
use crate::model::index_of_handle;
use crate::model::lemma_found_index;
use crate::model::node_of;
use crate::model::unique_handles;
use crate::model::Node;
use crate::model::NodeView;
use crate::model::Snapshot;
use crate::model::Timestamp;
use crate::strings::clone_string;
use crate::strings::str_eq;

verus! {

/// The attribute delta carried by an update event, keyed by handle.
#[derive(Debug)]
pub struct UpdatedAttributes {
    pub handle: String,
    pub name: String,
    pub modified_at: Option<Timestamp>,
}

/// An incremental change notification from the remote catalog's event feed.
///
/// Events are applied strictly in delivery order, and application is
/// idempotent with respect to a snapshot already containing the implied
/// state.
#[derive(Debug)]
pub enum ChangeEvent {
    /// One or more new nodes exist.
    NodeCreated { nodes: Vec<Node> },
    /// An existing node's attributes changed.
    NodeUpdated { attrs: UpdatedAttributes },
    /// The node carrying this handle, and its subtree, are gone.
    NodeDeleted { handle: String },
}

/// The snapshot after a creation: an already-known handle has its node
/// replaced in place, a fresh handle is appended.
pub open spec fn created_view(s: Seq<NodeView>, n: NodeView) -> Seq<NodeView> {
    if has_handle(s, n.handle) {
        s.update(index_of_handle(s, n.handle), n)
    } else {
        s.push(n)
    }
}

/// The snapshot after creating a batch of nodes, in order.
pub open spec fn created_batch_view(s: Seq<NodeView>, ns: Seq<NodeView>) -> Seq<NodeView>
    decreases ns.len(),
{
    if ns.len() == 0 {
        s
    } else {
        created_batch_view(created_view(s, ns[0]), ns.skip(1))
    }
}

/// The snapshot after an attribute update: an unknown handle leaves the
/// snapshot untouched, a known one has its name and modification time
/// replaced.
pub open spec fn updated_view(
    s: Seq<NodeView>,
    h: Seq<char>,
    name: Seq<char>,
    modified_at: Option<Timestamp>,
) -> Seq<NodeView> {
    if has_handle(s, h) {
        s.update(
            index_of_handle(s, h),
            NodeView { name, modified_at, ..node_of(s, h) },
        )
    } else {
        s
    }
}

/// Whether the parent chain starting at the node carrying `h` reaches the
/// node carrying `target` within `fuel` steps. The fuel bounds the walk so
/// that a malformed (cyclic) snapshot cannot make it spin forever.
pub open spec fn reaches_up(
    s: Seq<NodeView>,
    h: Seq<char>,
    target: Seq<char>,
    fuel: nat,
) -> bool
    decreases fuel,
{
    if h == target {
        true
    } else if fuel == 0 {
        false
    } else if !has_handle(s, h) {
        false
    } else {
        match node_of(s, h).parent {
            Some(p) => reaches_up(s, p, target, (fuel - 1) as nat),
            None => false,
        }
    }
}

/// The snapshot after a deletion: an absent handle is a no-op; a present one
/// removes the node together with every node whose parent chain reaches it.
pub open spec fn deleted_view(s: Seq<NodeView>, h: Seq<char>) -> Seq<NodeView> {
    if has_handle(s, h) {
        s.filter(|n: NodeView| !reaches_up(s, n.handle, h, s.len()))
    } else {
        s
    }
}

/// The snapshot after one event.
pub open spec fn apply_event_view(s: Seq<NodeView>, e: ChangeEvent) -> Seq<NodeView> {
    match e {
        ChangeEvent::NodeCreated { nodes } => created_batch_view(
            s,
            nodes@.map_values(|n: Node| n@),
        ),
        ChangeEvent::NodeUpdated { attrs } => updated_view(
            s,
            attrs.handle@,
            attrs.name@,
            attrs.modified_at,
        ),
        ChangeEvent::NodeDeleted { handle } => deleted_view(s, handle@),
    }
}

/// The snapshot after a batch of events, applied strictly in delivery order.
pub open spec fn apply_events_view(s: Seq<NodeView>, es: Seq<ChangeEvent>) -> Seq<NodeView>
    decreases es.len(),
{
    if es.len() == 0 {
        s
    } else {
        apply_events_view(apply_event_view(s, es[0]), es.skip(1))
    }
}

/// Filtering a snapshot cannot introduce a duplicated handle.
proof fn lemma_filter_keeps_unique_handles(s: Seq<NodeView>, pred: spec_fn(NodeView) -> bool)
    requires
        unique_handles(s),
    ensures
        unique_handles(s.filter(pred)),
    decreases s.len(),
{
    broadcast use vstd::seq_lib::group_filter_ensures;

    if s.len() == 0 {
    } else {
        let rest = s.drop_last();
        assert(unique_handles(rest)) by {
            assert forall|i: int, j: int| #![auto]
                0 <= i < rest.len() && 0 <= j < rest.len() && i != j implies rest[i].handle
                != rest[j].handle by {
                assert(s[i].handle != s[j].handle);
            }
        }
        lemma_filter_keeps_unique_handles(rest, pred);
        rest.lemma_filter_push(s.last(), pred);
        assert(rest.push(s.last()) =~= s);
        if pred(s.last()) {
            let f = rest.filter(pred).push(s.last());
            assert(s.filter(pred) == f);
            assert forall|p: int, q: int| #![auto]
                0 <= p < f.len() && 0 <= q < f.len() && p != q implies f[p].handle
                != f[q].handle by {
                let rf = rest.filter(pred);
                if p < rf.len() && q < rf.len() {
                    assert(rf[p].handle != rf[q].handle);
                } else {
                    let inner = if p < rf.len() {
                        p
                    } else {
                        q
                    };
                    assert(rf.contains(rf[inner]));
                    rest.lemma_filter_contains_rev(pred, rf[inner]);
                    let j = choose|j: int| 0 <= j < rest.len() && rest[j] == rf[inner];
                    assert(s[j].handle != s[s.len() - 1].handle);
                }
            }
        }
    }
}

/// Deleting a handle that the snapshot does not hold leaves it unchanged.
pub proof fn lemma_delete_absent_is_noop(s: Seq<NodeView>, h: Seq<char>)
    requires
        !has_handle(s, h),
    ensures
        deleted_view(s, h) == s,
{
}

/// Updating a handle that the snapshot does not hold (for instance, an
/// update delivered ahead of the matching creation) drops the update.
pub proof fn lemma_update_unknown_is_dropped(
    s: Seq<NodeView>,
    h: Seq<char>,
    name: Seq<char>,
    modified_at: Option<Timestamp>,
)
    requires
        !has_handle(s, h),
    ensures
        updated_view(s, h, name, modified_at) == s,
{
}

impl Snapshot {
    /// Walks the parent chain from `start` for at most `fuel` steps, looking
    /// for `target`.
    pub fn walk_reaches(&self, start: &str, target: &str, fuel: usize) -> (r: bool)
        requires
            self.wf(),
        ensures
            r == reaches_up(self@, start@, target@, fuel as nat),
        decreases fuel,
    {
        if str_eq(start, target) {
            return true;
        }
        if fuel == 0 {
            return false;
        }
        match self.get_node_by_handle(start) {
            None => false,
            Some(node) => match &node.parent {
                Some(p) => self.walk_reaches(p.as_str(), target, fuel - 1),
                None => false,
            },
        }
    }

    /// Records one created node, replacing the node already carrying the
    /// same handle if there is one.
    pub fn apply_created(&mut self, node: Node)
        requires
            old(self).wf(),
        ensures
            final(self)@ == created_view(old(self)@, node@),
            final(self).wf(),
    {
        let ghost s = old(self)@;
        let ghost nv = node@;
        let n = self.nodes.len();
        let mut i: usize = 0;
        while i < n
            invariant
                self == old(self),
                s == self@,
                self.wf(),
                n == s.len(),
                i <= n,
                nv == node@,
                forall|j: int| #![auto] 0 <= j < i ==> s[j].handle != node@.handle,
            decreases n - i,
        {
            if str_eq(self.nodes[i].handle.as_str(), node.handle.as_str()) {
                proof {
                    assert(s[i as int].handle == nv.handle);
                    lemma_found_index(s, nv.handle, i as int);
                }
                self.nodes[i] = node;
                proof {
                    assert(self@ =~= s.update(i as int, nv));
                    assert forall|p: int, q: int| #![auto]
                        0 <= p < self@.len() && 0 <= q < self@.len() && p != q
                        implies self@[p].handle != self@[q].handle by {
                        assert(s[p].handle != s[q].handle);
                        assert(s[i as int].handle == nv.handle);
                    }
                }
                return;
            }
            i += 1;
        }
        proof {
            assert(!has_handle(s, nv.handle));
        }
        self.nodes.push(node);
        proof {
            assert(self@ =~= s.push(nv));
            assert forall|p: int, q: int| #![auto]
                0 <= p < self@.len() && 0 <= q < self@.len() && p != q implies self@[p].handle
                != self@[q].handle by {
                if p < s.len() && q < s.len() {
                    assert(s[p].handle != s[q].handle);
                }
            }
        }
    }

    /// Records one attribute update; an unknown handle is dropped.
    pub fn apply_updated(&mut self, attrs: &UpdatedAttributes)
        requires
            old(self).wf(),
        ensures
            final(self)@ == updated_view(
                old(self)@,
                attrs.handle@,
                attrs.name@,
                attrs.modified_at,
            ),
            final(self).wf(),
    {
        let ghost s = old(self)@;
        let n = self.nodes.len();
        let mut i: usize = 0;
        while i < n
            invariant
                self == old(self),
                s == self@,
                self.wf(),
                n == s.len(),
                i <= n,
                forall|j: int| #![auto] 0 <= j < i ==> s[j].handle != attrs.handle@,
            decreases n - i,
        {
            if str_eq(self.nodes[i].handle.as_str(), attrs.handle.as_str()) {
                proof {
                    assert(s[i as int].handle == attrs.handle@);
                    lemma_found_index(s, attrs.handle@, i as int);
                }
                let slot = &mut self.nodes[i];
                slot.name = clone_string(&attrs.name);
                slot.modified_at = attrs.modified_at;
                proof {
                    assert(self@ =~= s.update(
                        i as int,
                        NodeView { name: attrs.name@, modified_at: attrs.modified_at, ..s[i as int] },
                    ));
                    assert forall|p: int, q: int| #![auto]
                        0 <= p < self@.len() && 0 <= q < self@.len() && p != q
                        implies self@[p].handle != self@[q].handle by {
                        assert(s[p].handle != s[q].handle);
                    }
                }
                return;
            }
            i += 1;
        }
        proof {
            assert(!has_handle(s, attrs.handle@));
            assert(self@ == updated_view(s, attrs.handle@, attrs.name@, attrs.modified_at));
        }
    }

    /// Records one deletion: removes the named node and every node whose
    /// parent chain reaches it. An absent handle is a no-op.
    pub fn apply_deleted(&mut self, handle: &str)
        requires
            old(self).wf(),
        ensures
            final(self)@ == deleted_view(old(self)@, handle@),
            final(self).wf(),
    {
        let ghost s = old(self)@;
        if self.get_node_by_handle(handle).is_none() {
            return;
        }
        let ghost pred = |n: NodeView| !reaches_up(s, n.handle, handle@, s.len());
        let n = self.nodes.len();
        let fuel = self.nodes.len();
        let mut out: Vec<Node> = Vec::new();
        let mut i: usize = 0;
        proof {
            assert(s.take(0int).filter(pred) =~= Seq::<NodeView>::empty());
        }
        while i < n
            invariant
                self == old(self),
                self.wf(),
                s == self@,
                n == s.len(),
                fuel == s.len(),
                i <= n,
                forall|m: NodeView| #[trigger] pred(m) == !reaches_up(s, m.handle, handle@, s.len()),
                out@.map_values(|x: Node| x@) == s.take(i as int).filter(pred),
            decreases n - i,
        {
            let keep = !self.walk_reaches(self.nodes[i].handle.as_str(), handle, fuel);
            let ghost prev = out@.map_values(|x: Node| x@);
            proof {
                assert(keep == pred(s[i as int]));
                let taken = s.take(i as int);
                taken.lemma_filter_push(s[i as int], pred);
                assert(s.take(i + 1) =~= taken.push(s[i as int]));
            }
            if keep {
                out.push(clone_node(&self.nodes[i]));
                proof {
                    assert(s.take(i + 1).filter(pred) == prev.push(s[i as int]));
                    assert(out@.map_values(|x: Node| x@) =~= prev.push(s[i as int]));
                }
            } else {
                proof {
                    assert(s.take(i + 1).filter(pred) == prev);
                }
            }
            i += 1;
        }
        self.nodes = out;
        proof {
            assert(s.take(n as int) =~= s);
            assert(self@ == s.filter(pred));
            lemma_filter_keeps_unique_handles(s, pred);
            assert(pred =~= (|n: NodeView| !reaches_up(s, n.handle, handle@, s.len())));
        }
    }

    /// Applies one change event to the snapshot.
    pub fn apply_event(&mut self, event: &ChangeEvent)
        requires
            old(self).wf(),
        ensures
            final(self)@ == apply_event_view(old(self)@, *event),
            final(self).wf(),
    {
        match event {
            ChangeEvent::NodeCreated { nodes } => {
                let ghost s0 = self@;
                let ghost ns = nodes@.map_values(|n: Node| n@);
                let count = nodes.len();
                let mut i: usize = 0;
                proof {
                    assert(ns.skip(0) =~= ns);
                }
                while i < count
                    invariant
                        count == ns.len(),
                        i <= count,
                        ns == nodes@.map_values(|n: Node| n@),
                        self.wf(),
                        created_batch_view(s0, ns) == created_batch_view(
                            self@,
                            ns.skip(i as int),
                        ),
                    decreases count - i,
                {
                    let node = clone_node(&nodes[i]);
                    let ghost pre = self@;
                    self.apply_created(node);
                    proof {
                        assert(ns.skip(i as int)[0] == ns[i as int]);
                        assert(ns.skip(i as int).skip(1) =~= ns.skip(i as int + 1));
                        assert(self@ == created_view(pre, ns[i as int]));
                    }
                    i += 1;
                }
                proof {
                    assert(ns.skip(count as int).len() == 0);
                }
            },
            ChangeEvent::NodeUpdated { attrs } => {
                self.apply_updated(attrs);
            },
            ChangeEvent::NodeDeleted { handle } => {
                self.apply_deleted(handle.as_str());
            },
        }
    }

    /// Applies a batch of events, strictly in delivery order.
    pub fn apply_events(&mut self, events: &Vec<ChangeEvent>)
        requires
            old(self).wf(),
        ensures
            final(self)@ == apply_events_view(old(self)@, events@),
            final(self).wf(),
    {
        let ghost s0 = self@;
        let count = events.len();
        let mut i: usize = 0;
        proof {
            assert(events@.skip(0) =~= events@);
        }
        while i < count
            invariant
                count == events@.len(),
                i <= count,
                self.wf(),
                apply_events_view(s0, events@) == apply_events_view(
                    self@,
                    events@.skip(i as int),
                ),
            decreases count - i,
        {
            self.apply_event(&events[i]);
            proof {
                assert(events@.skip(i as int)[0] == events@[i as int]);
                assert(events@.skip(i as int).skip(1) =~= events@.skip(i as int + 1));
            }
            i += 1;
        }
        proof {
            assert(events@.skip(count as int).len() == 0);
        }
    }
}

} // verus!
