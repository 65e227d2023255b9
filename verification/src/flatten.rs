use vstd::prelude::*;
use vstd::string::StringExecFns;

use crate::events::reaches_up;
use crate::model::child_indices;
use crate::model::has_handle;
use crate::model::index_of_handle;
use crate::model::index_seq;
use crate::model::is_child_of;
use crate::model::lemma_found_index;
use crate::model::node_of;
use crate::model::root_indices_spec;
use crate::model::unique_handles;
use crate::model::Node;
use crate::model::NodeView;
use crate::model::Snapshot;
use crate::paths::full_path_spec;
use crate::strings::join_path;
use crate::strings::path_sep;

verus! {

/// One concrete file-copy unit produced by flattening a subtree: the handle
/// of the remote file, its human-readable remote display path, and the local
/// path the content goes to.
#[derive(Debug)]
pub struct TransferJob {
    pub handle: String,
    pub remote_path: String,
    pub local_path: String,
}

/// The mathematical value of a [`TransferJob`].
#[verifier::ext_equal]
pub ghost struct TransferJobView {
    pub handle: Seq<char>,
    pub remote_path: Seq<char>,
    pub local_path: Seq<char>,
}

impl View for TransferJob {
    type V = TransferJobView;

    open spec fn view(&self) -> TransferJobView {
        TransferJobView {
            handle: self.handle@,
            remote_path: self.remote_path@,
            local_path: self.local_path@,
        }
    }
}

/// The jobs emitted for the subtree rooted at the node carrying handle `h`,
/// whose own display paths are `rpath` (remote) and `lpath` (local).
///
/// A file is emitted as one job; a folder is expanded into its children and
/// not itself emitted (empty folders yield nothing); an unresolvable handle
/// yields nothing. Each expansion spends one unit of `fuel`, so a malformed
/// (cyclic) snapshot truncates instead of spinning.
pub open spec fn flatten_spec(
    s: Seq<NodeView>,
    h: Seq<char>,
    rpath: Seq<char>,
    lpath: Seq<char>,
    fuel: nat,
) -> Seq<TransferJobView>
    decreases fuel, 0int,
{
    if !has_handle(s, h) {
        Seq::empty()
    } else {
        let n = node_of(s, h);
        if n.kind is File {
            seq![TransferJobView { handle: h, remote_path: rpath, local_path: lpath }]
        } else if fuel == 0 {
            Seq::empty()
        } else {
            flatten_children(s, child_indices(s, h), rpath, lpath, (fuel - 1) as nat)
        }
    }
}

/// The jobs emitted for the subtrees of the nodes at indices `cs`, children
/// of a folder whose display paths are `rpath` and `lpath`.
pub open spec fn flatten_children(
    s: Seq<NodeView>,
    cs: Seq<int>,
    rpath: Seq<char>,
    lpath: Seq<char>,
    fuel: nat,
) -> Seq<TransferJobView>
    decreases fuel, cs.len(),
{
    if cs.len() == 0 {
        Seq::empty()
    } else {
        let head = if 0 <= cs[0] < s.len() {
            let c = s[cs[0]];
            flatten_spec(
                s,
                c.handle,
                rpath + path_sep() + c.name,
                lpath + path_sep() + c.name,
                fuel,
            )
        } else {
            Seq::empty()
        };
        head + flatten_children(s, cs.skip(1), rpath, lpath, fuel)
    }
}

/// Every node with a parent handle that resolves hangs under a folder:
/// files are the leaves of the tree.
pub open spec fn parents_are_folders(s: Seq<NodeView>) -> bool {
    forall|i: int, j: int|
        0 <= i < s.len() && 0 <= j < s.len() && (#[trigger] s[i].parent) == Some(
            #[trigger] s[j].handle,
        ) ==> s[j].kind is Folder
}

/// One more step at the bottom of a parent chain.
#[verifier::spinoff_prover]
proof fn lemma_reaches_up_step(
    s: Seq<NodeView>,
    x: Seq<char>,
    p: Seq<char>,
    target: Seq<char>,
    f: nat,
)
    requires
        has_handle(s, x),
        node_of(s, x).parent == Some(p),
        reaches_up(s, p, target, f),
    ensures
        reaches_up(s, x, target, (f + 1) as nat),
{
}

/// One more step at the top of a parent chain.
#[verifier::spinoff_prover]
proof fn lemma_reaches_up_extend(
    s: Seq<NodeView>,
    x: Seq<char>,
    c: Seq<char>,
    h: Seq<char>,
    f: nat,
)
    requires
        reaches_up(s, x, c, f),
        has_handle(s, c),
        node_of(s, c).parent == Some(h),
    ensures
        reaches_up(s, x, h, (f + 1) as nat),
    decreases f,
{
    if x == c {
        if x != h {
            assert(reaches_up(s, h, h, f));
            assert(reaches_up(s, x, h, (f + 1) as nat));
        }
    } else {
        let px = node_of(s, x).parent->0;
        lemma_reaches_up_extend(s, px, c, h, (f - 1) as nat);
        assert(reaches_up(s, px, h, f));
        assert(reaches_up(s, x, h, (f + 1) as nat));
    }
}

/// Every entry of [`child_indices`] is a child's index within the snapshot.
#[verifier::spinoff_prover]
proof fn lemma_child_indices_props(s: Seq<NodeView>, h: Seq<char>)
    ensures
        forall|t: int|
            0 <= t < child_indices(s, h).len() ==> 0 <= #[trigger] child_indices(s, h)[t]
                < s.len() && is_child_of(s, child_indices(s, h)[t], h),
{
    broadcast use vstd::seq_lib::group_filter_ensures;

    let cs = child_indices(s, h);
    let pred = |i: int| is_child_of(s, i, h);
    assert forall|t: int|
        0 <= t < cs.len() implies 0 <= #[trigger] cs[t] < s.len() && is_child_of(
        s,
        cs[t],
        h,
    ) by {
        cs.lemma_index_contains(t);
        index_seq(s.len()).lemma_filter_contains_rev(pred, cs[t]);
        let w = choose|w: int|
            0 <= w < index_seq(s.len()).len() && index_seq(s.len())[w] == cs[t];
        assert(index_seq(s.len())[w] == w);
        index_seq(s.len()).lemma_filter_pred(pred, t);
    }
}

/// Every job the flattener emits names a file of the snapshot whose parent
/// chain leads back to the subtree's root.
#[verifier::spinoff_prover]
pub proof fn lemma_flatten_sound(
    s: Seq<NodeView>,
    h: Seq<char>,
    rpath: Seq<char>,
    lpath: Seq<char>,
    fuel: nat,
)
    requires
        unique_handles(s),
    ensures
        forall|k: int|
            0 <= k < flatten_spec(s, h, rpath, lpath, fuel).len() ==> has_handle(
                s,
                (#[trigger] flatten_spec(s, h, rpath, lpath, fuel)[k]).handle,
            ) && node_of(s, flatten_spec(s, h, rpath, lpath, fuel)[k].handle).kind is File
                && reaches_up(s, flatten_spec(s, h, rpath, lpath, fuel)[k].handle, h, fuel),
    decreases fuel, 0int,
{
    if !has_handle(s, h) {
    } else {
        let n = node_of(s, h);
        if n.kind is File {
        } else if fuel == 0 {
        } else {
            lemma_child_indices_props(s, h);
            lemma_flatten_children_sound(
                s,
                child_indices(s, h),
                rpath,
                lpath,
                (fuel - 1) as nat,
                h,
            );
        }
    }
}

/// The children's jobs, lifted one level: their parent chains extend to the
/// enclosing folder.
#[verifier::spinoff_prover]
proof fn lemma_flatten_children_sound(
    s: Seq<NodeView>,
    cs: Seq<int>,
    rpath: Seq<char>,
    lpath: Seq<char>,
    fuel: nat,
    h: Seq<char>,
)
    requires
        unique_handles(s),
        forall|t: int| #![auto] 0 <= t < cs.len() ==> 0 <= cs[t] < s.len() && is_child_of(
            s,
            cs[t],
            h,
        ),
    ensures
        forall|k: int|
            0 <= k < flatten_children(s, cs, rpath, lpath, fuel).len() ==> has_handle(
                s,
                (#[trigger] flatten_children(s, cs, rpath, lpath, fuel)[k]).handle,
            ) && node_of(s, flatten_children(s, cs, rpath, lpath, fuel)[k].handle).kind is File
                && reaches_up(
                s,
                flatten_children(s, cs, rpath, lpath, fuel)[k].handle,
                h,
                (fuel + 1) as nat,
            ),
    decreases fuel, cs.len(),
{
    if cs.len() == 0 {
    } else {
        let c = s[cs[0]];
        let head = flatten_spec(
            s,
            c.handle,
            rpath + path_sep() + c.name,
            lpath + path_sep() + c.name,
            fuel,
        );
        lemma_flatten_sound(s, c.handle, rpath + path_sep() + c.name, lpath + path_sep() + c.name, fuel);
        lemma_found_index(s, c.handle, cs[0]);
        assert forall|k: int| #![auto] 0 <= k < head.len() implies {
            &&& has_handle(s, head[k].handle)
            &&& node_of(s, head[k].handle).kind is File
            &&& reaches_up(s, head[k].handle, h, (fuel + 1) as nat)
        } by {
            lemma_reaches_up_extend(s, head[k].handle, c.handle, h, fuel);
        }
        assert forall|t: int| #![auto]
            0 <= t < cs.skip(1).len() implies 0 <= cs.skip(1)[t] < s.len() && is_child_of(
            s,
            cs.skip(1)[t],
            h,
        ) by {
            assert(cs.skip(1)[t] == cs[t + 1]);
        }
        lemma_flatten_children_sound(s, cs.skip(1), rpath, lpath, fuel, h);
        let rest = flatten_children(s, cs.skip(1), rpath, lpath, fuel);
        assert forall|k: int|
            0 <= k < flatten_children(s, cs, rpath, lpath, fuel).len() implies has_handle(
            s,
            (#[trigger] flatten_children(s, cs, rpath, lpath, fuel)[k]).handle,
        ) && node_of(s, flatten_children(s, cs, rpath, lpath, fuel)[k].handle).kind is File
            && reaches_up(
            s,
            flatten_children(s, cs, rpath, lpath, fuel)[k].handle,
            h,
            (fuel + 1) as nat,
        ) by {
            if k < head.len() {
                assert(flatten_children(s, cs, rpath, lpath, fuel)[k] == head[k]);
            } else {
                assert(flatten_children(s, cs, rpath, lpath, fuel)[k] == rest[k - head.len()]);
            }
        }
    }
}

/// A parent chain from `x` that ends at a different handle `h` passes
/// through some child of `h` on the way.
#[verifier::spinoff_prover]
proof fn lemma_chain_top(s: Seq<NodeView>, x: Seq<char>, h: Seq<char>, d: nat)
    requires
        reaches_up(s, x, h, d),
        x != h,
        has_handle(s, x),
    ensures
        exists|c: Seq<char>|
            #![auto]
            has_handle(s, c) && node_of(s, c).parent == Some(h) && reaches_up(
                s,
                x,
                c,
                (d - 1) as nat,
            ),
    decreases d,
{
    assert(d > 0);
    assert(node_of(s, x).parent is Some);
    let px = node_of(s, x).parent->0;
    assert(node_of(s, x).parent == Some(px));
    assert(reaches_up(s, px, h, (d - 1) as nat));
    if px == h {
        assert(reaches_up(s, x, x, (d - 1) as nat));
        assert(has_handle(s, x) && node_of(s, x).parent == Some(h) && reaches_up(
            s,
            x,
            x,
            (d - 1) as nat,
        ));
    } else {
        assert(has_handle(s, px)) by {
            if !has_handle(s, px) {
                assert(!reaches_up(s, px, h, (d - 1) as nat));
            }
        }
        assert(d >= 2) by {
            if d == 1 {
                assert(!reaches_up(s, px, h, 0));
            }
        }
        lemma_chain_top(s, px, h, (d - 1) as nat);
        let c = choose|c: Seq<char>|
            #![auto]
            has_handle(s, c) && node_of(s, c).parent == Some(h) && reaches_up(
                s,
                px,
                c,
                (d - 2) as nat,
            );
        lemma_reaches_up_step(s, x, px, c, (d - 2) as nat);
        assert(has_handle(s, c) && node_of(s, c).parent == Some(h) && reaches_up(
            s,
            x,
            c,
            (d - 1) as nat,
        ));
    }
}

/// The children's combined jobs split around the child at position `t`.
#[verifier::spinoff_prover]
proof fn lemma_children_decompose(
    s: Seq<NodeView>,
    cs: Seq<int>,
    rpath: Seq<char>,
    lpath: Seq<char>,
    fuel: nat,
    t: int,
)
    requires
        0 <= t < cs.len(),
        forall|u: int| 0 <= u < cs.len() ==> 0 <= #[trigger] cs[u] < s.len(),
    ensures
        flatten_children(s, cs, rpath, lpath, fuel) == flatten_children(
            s,
            cs.take(t),
            rpath,
            lpath,
            fuel,
        ) + flatten_spec(
            s,
            s[cs[t]].handle,
            rpath + path_sep() + s[cs[t]].name,
            lpath + path_sep() + s[cs[t]].name,
            fuel,
        ) + flatten_children(s, cs.skip(t + 1), rpath, lpath, fuel),
    decreases t,
{
    let whole = flatten_children(s, cs, rpath, lpath, fuel);
    let head = flatten_spec(
        s,
        s[cs[0]].handle,
        rpath + path_sep() + s[cs[0]].name,
        lpath + path_sep() + s[cs[0]].name,
        fuel,
    );
    if t == 0 {
        assert(cs.take(0) =~= Seq::<int>::empty());
        assert(flatten_children(s, cs.take(0), rpath, lpath, fuel) =~= Seq::<
            TransferJobView,
        >::empty());
        assert(cs.skip(1) =~= cs.skip(0int + 1));
        assert(whole =~= Seq::<TransferJobView>::empty() + head + flatten_children(
            s,
            cs.skip(1),
            rpath,
            lpath,
            fuel,
        ));
    } else {
        let tail = cs.skip(1);
        assert forall|u: int| 0 <= u < tail.len() implies 0 <= #[trigger] tail[u] < s.len() by {
            assert(tail[u] == cs[u + 1]);
        }
        lemma_children_decompose(s, tail, rpath, lpath, fuel, t - 1);
        assert(tail[t - 1] == cs[t]);
        assert(tail.take(t - 1) =~= cs.take(t).skip(1));
        assert(tail.skip(t) =~= cs.skip(t + 1));
        assert(cs.take(t)[0] == cs[0]);
        assert(cs.take(t).len() > 0);
        // the prefix's own decomposition at its head
        assert(flatten_children(s, cs.take(t), rpath, lpath, fuel) == head + flatten_children(
            s,
            cs.take(t).skip(1),
            rpath,
            lpath,
            fuel,
        ));
        let mid = flatten_spec(
            s,
            s[cs[t]].handle,
            rpath + path_sep() + s[cs[t]].name,
            lpath + path_sep() + s[cs[t]].name,
            fuel,
        );
        let last = flatten_children(s, cs.skip(t + 1), rpath, lpath, fuel);
        let pre1 = flatten_children(s, cs.take(t).skip(1), rpath, lpath, fuel);
        assert(whole == head + (pre1 + mid + last));
        assert(head + (pre1 + mid + last) =~= (head + pre1) + mid + last);
    }
}

/// An acyclicity witness: `rank` strictly decreases from child to parent,
/// so no parent chain can loop.
pub open spec fn ranked(s: Seq<NodeView>, rank: spec_fn(Seq<char>) -> nat) -> bool {
    forall|i: int, j: int|
        0 <= i < s.len() && 0 <= j < s.len() && (#[trigger] s[i].parent) == Some(
            #[trigger] s[j].handle,
        ) ==> rank(s[i].handle) > rank(s[j].handle)
}

/// More fuel never hurts a parent-chain walk.
proof fn lemma_reaches_up_mono(s: Seq<NodeView>, x: Seq<char>, t: Seq<char>, f1: nat, f2: nat)
    requires
        reaches_up(s, x, t, f1),
        f1 <= f2,
    ensures
        reaches_up(s, x, t, f2),
    decreases f1,
{
    if x == t {
    } else {
        let px = node_of(s, x).parent->0;
        lemma_reaches_up_mono(s, px, t, (f1 - 1) as nat, (f2 - 1) as nat);
    }
}

/// Walking up to a resolvable target strictly decreases the rank, unless
/// the walk does not move at all.
#[verifier::spinoff_prover]
proof fn lemma_reaches_up_rank(
    s: Seq<NodeView>,
    x: Seq<char>,
    t: Seq<char>,
    f: nat,
    rank: spec_fn(Seq<char>) -> nat,
)
    requires
        unique_handles(s),
        ranked(s, rank),
        reaches_up(s, x, t, f),
        has_handle(s, t),
    ensures
        x == t || rank(t) < rank(x),
    decreases f,
{
    if x == t {
    } else {
        assert(has_handle(s, x));
        let px = node_of(s, x).parent->0;
        let xi = index_of_handle(s, x);
        assert(0 <= xi < s.len() && s[xi].handle == x && s[xi].parent == Some(px));
        assert(reaches_up(s, px, t, (f - 1) as nat));
        assert(has_handle(s, px)) by {
            if !has_handle(s, px) && px != t {
                assert(!reaches_up(s, px, t, (f - 1) as nat));
            }
        }
        let pi = index_of_handle(s, px);
        assert(0 <= pi < s.len() && s[pi].handle == px);
        assert(s[xi].parent == Some(s[pi].handle));
        assert(rank(px) < rank(x));
        lemma_reaches_up_rank(s, px, t, (f - 1) as nat, rank);
    }
}

/// Two targets of one upward walk lie on a single chain: one of them
/// reaches the other.
proof fn lemma_walk_linear(
    s: Seq<NodeView>,
    x: Seq<char>,
    a: Seq<char>,
    b: Seq<char>,
    fa: nat,
    fb: nat,
)
    requires
        reaches_up(s, x, a, fa),
        reaches_up(s, x, b, fb),
    ensures
        reaches_up(s, a, b, fb) || reaches_up(s, b, a, fa),
    decreases fa,
{
    if x == a {
    } else if x == b {
    } else {
        let px = node_of(s, x).parent->0;
        assert(reaches_up(s, px, a, (fa - 1) as nat));
        assert(reaches_up(s, px, b, (fb - 1) as nat));
        lemma_walk_linear(s, px, a, b, (fa - 1) as nat, (fb - 1) as nat);
        if reaches_up(s, a, b, (fb - 1) as nat) {
            lemma_reaches_up_mono(s, a, b, (fb - 1) as nat, fb);
        } else {
            lemma_reaches_up_mono(s, b, a, (fa - 1) as nat, fa);
        }
    }
}

/// A handle reachable from the subtrees of two children of one folder
/// forces the two children to be the same: distinct siblings' subtrees are
/// disjoint, because the rank witness forbids the cycle the chains would
/// otherwise close.
#[verifier::spinoff_prover]
proof fn lemma_sibling_shared_descendant(
    s: Seq<NodeView>,
    rank: spec_fn(Seq<char>) -> nat,
    x: Seq<char>,
    c1: Seq<char>,
    c2: Seq<char>,
    h: Seq<char>,
    f1: nat,
    f2: nat,
)
    requires
        unique_handles(s),
        ranked(s, rank),
        has_handle(s, c1),
        has_handle(s, c2),
        node_of(s, c1).parent == Some(h),
        node_of(s, c2).parent == Some(h),
        reaches_up(s, x, c1, f1),
        reaches_up(s, x, c2, f2),
    ensures
        c1 == c2,
{
    if c1 != c2 {
        lemma_walk_linear(s, x, c1, c2, f1, f2);
        if reaches_up(s, c1, c2, f2) {
            lemma_sibling_walk(s, rank, c1, c2, h, f2);
        } else {
            lemma_sibling_walk(s, rank, c2, c1, h, f1);
        }
    }
}

/// The walk from one child of `h` up to another child of `h` would pass
/// `h` and descend again, which the rank witness forbids; so the two
/// children coincide.
#[verifier::spinoff_prover]
proof fn lemma_sibling_walk(
    s: Seq<NodeView>,
    rank: spec_fn(Seq<char>) -> nat,
    c1: Seq<char>,
    c2: Seq<char>,
    h: Seq<char>,
    f: nat,
)
    requires
        unique_handles(s),
        ranked(s, rank),
        has_handle(s, c1),
        has_handle(s, c2),
        node_of(s, c1).parent == Some(h),
        node_of(s, c2).parent == Some(h),
        reaches_up(s, c1, c2, f),
    ensures
        c1 == c2,
{
    if c1 != c2 {
        let i2 = index_of_handle(s, c2);
        assert(0 <= i2 < s.len() && s[i2].handle == c2 && s[i2].parent == Some(h));
        // the walk's first step goes from `c1` to `h`
        assert(f > 0);
        assert(reaches_up(s, h, c2, (f - 1) as nat));
        if h == c2 {
            // a node would be its own parent
            assert(s[i2].parent == Some(s[i2].handle));
            assert(rank(s[i2].handle) > rank(s[i2].handle));
        } else {
            // `h` resolves, or the walk from it could not continue
            assert(has_handle(s, h)) by {
                if !has_handle(s, h) {
                    assert(!reaches_up(s, h, c2, (f - 1) as nat));
                }
            }
            let ih = index_of_handle(s, h);
            assert(0 <= ih < s.len() && s[ih].handle == h);
            // as a child of `h`, `c2` ranks above it
            assert(s[i2].parent == Some(s[ih].handle));
            assert(rank(c2) > rank(h));
            // but the upward walk from `h` to `c2` ranks it below
            lemma_reaches_up_rank(s, h, c2, (f - 1) as nat, rank);
        }
    }
}

/// A filter of a strictly increasing integer sequence stays strictly
/// increasing.
proof fn lemma_filter_increasing(u: Seq<int>, p: spec_fn(int) -> bool)
    requires
        forall|i: int, j: int| 0 <= i < j < u.len() ==> u[i] < u[j],
    ensures
        forall|i: int, j: int|
            0 <= i < j < u.filter(p).len() ==> #[trigger] u.filter(p)[i] < #[trigger] u.filter(
                p,
            )[j],
    decreases u.len(),
{
    broadcast use vstd::seq_lib::group_filter_ensures;

    if u.len() == 0 {
    } else {
        let rest = u.drop_last();
        assert forall|i: int, j: int| 0 <= i < j < rest.len() implies rest[i] < rest[j] by {
            assert(u[i] < u[j]);
        }
        lemma_filter_increasing(rest, p);
        rest.lemma_filter_push(u.last(), p);
        assert(rest.push(u.last()) =~= u);
        if p(u.last()) {
            let rf = rest.filter(p);
            let f = rf.push(u.last());
            assert(u.filter(p) == f);
            assert forall|i: int, j: int|
                0 <= i < j < f.len() implies #[trigger] f[i] < #[trigger] f[j] by {
                if j < rf.len() {
                    assert(rf[i] < rf[j]);
                } else {
                    assert(rf.contains(rf[i]));
                    rest.lemma_filter_contains_rev(p, rf[i]);
                    let w = choose|w: int| 0 <= w < rest.len() && rest[w] == rf[i];
                    assert(u[w] < u[u.len() - 1]);
                }
            }
        }
    }
}

/// The children's combined jobs carry pairwise distinct handles, and every
/// job's handle belongs to the subtree of one of the children.
#[verifier::rlimit(30)]
#[verifier::spinoff_prover]
proof fn lemma_flatten_children_distinct(
    s: Seq<NodeView>,
    cs: Seq<int>,
    rpath: Seq<char>,
    lpath: Seq<char>,
    fuel: nat,
    h: Seq<char>,
    rank: spec_fn(Seq<char>) -> nat,
)
    requires
        unique_handles(s),
        ranked(s, rank),
        forall|t: int| #![auto] 0 <= t < cs.len() ==> 0 <= cs[t] < s.len() && is_child_of(
            s,
            cs[t],
            h,
        ),
        forall|t1: int, t2: int| 0 <= t1 < t2 < cs.len() ==> #[trigger] cs[t1] != #[trigger] cs[t2],
    ensures
        forall|k1: int, k2: int|
            0 <= k1 < k2 < flatten_children(s, cs, rpath, lpath, fuel).len() ==> (
            #[trigger] flatten_children(s, cs, rpath, lpath, fuel)[k1]).handle != (
            #[trigger] flatten_children(s, cs, rpath, lpath, fuel)[k2]).handle,
        forall|k: int|
            0 <= k < flatten_children(s, cs, rpath, lpath, fuel).len() ==> exists|t: int|
                0 <= t < cs.len() && reaches_up(
                    s,
                    (#[trigger] flatten_children(s, cs, rpath, lpath, fuel)[k]).handle,
                    s[cs[t]].handle,
                    fuel,
                ),
    decreases fuel, cs.len(),
{
    if cs.len() == 0 {
    } else {
        let c = s[cs[0]];
        let whole = flatten_children(s, cs, rpath, lpath, fuel);
        let head = flatten_spec(
            s,
            c.handle,
            rpath + path_sep() + c.name,
            lpath + path_sep() + c.name,
            fuel,
        );
        let rest = flatten_children(s, cs.skip(1), rpath, lpath, fuel);
        lemma_flatten_distinct(s, c.handle, rpath + path_sep() + c.name, lpath + path_sep() + c.name, fuel, rank);
        lemma_flatten_sound(s, c.handle, rpath + path_sep() + c.name, lpath + path_sep() + c.name, fuel);
        assert forall|t: int| #![auto]
            0 <= t < cs.skip(1).len() implies 0 <= cs.skip(1)[t] < s.len() && is_child_of(
            s,
            cs.skip(1)[t],
            h,
        ) by {
            assert(cs.skip(1)[t] == cs[t + 1]);
        }
        assert forall|t1: int, t2: int|
            0 <= t1 < t2 < cs.skip(1).len() implies #[trigger] cs.skip(1)[t1]
            != #[trigger] cs.skip(1)[t2] by {
            assert(cs.skip(1)[t1] == cs[t1 + 1]);
            assert(cs.skip(1)[t2] == cs[t2 + 1]);
            assert(cs[t1 + 1] != cs[t2 + 1]);
        }
        lemma_flatten_children_distinct(s, cs.skip(1), rpath, lpath, fuel, h, rank);
        // attribution for the combined sequence
        assert forall|k: int|
            0 <= k < whole.len() implies exists|t: int|
                0 <= t < cs.len() && reaches_up(
                    s,
                    (#[trigger] whole[k]).handle,
                    s[cs[t]].handle,
                    fuel,
                ) by {
            if k < head.len() {
                assert(whole[k] == head[k]);
                assert(reaches_up(s, head[k].handle, c.handle, fuel));
                assert(0 <= 0 < cs.len() && reaches_up(s, whole[k].handle, s[cs[0]].handle, fuel));
            } else {
                assert(whole[k] == rest[k - head.len()]);
                let t0 = choose|t: int|
                    0 <= t < cs.skip(1).len() && reaches_up(
                        s,
                        rest[k - head.len()].handle,
                        s[cs.skip(1)[t]].handle,
                        fuel,
                    );
                assert(cs.skip(1)[t0] == cs[t0 + 1]);
                assert(0 <= t0 + 1 < cs.len() && reaches_up(
                    s,
                    whole[k].handle,
                    s[cs[t0 + 1]].handle,
                    fuel,
                ));
            }
        }
        // distinctness across the split
        assert forall|k1: int, k2: int|
            0 <= k1 < k2 < whole.len() implies (#[trigger] whole[k1]).handle != (
            #[trigger] whole[k2]).handle by {
            if k2 < head.len() {
                assert(whole[k1] == head[k1] && whole[k2] == head[k2]);
            } else if k1 >= head.len() {
                assert(whole[k1] == rest[k1 - head.len()] && whole[k2] == rest[k2 - head.len()]);
            } else {
                assert(whole[k1] == head[k1] && whole[k2] == rest[k2 - head.len()]);
                if whole[k1].handle == whole[k2].handle {
                    let x = whole[k1].handle;
                    assert(reaches_up(s, x, c.handle, fuel));
                    let t0 = choose|t: int|
                        0 <= t < cs.skip(1).len() && reaches_up(
                            s,
                            rest[k2 - head.len()].handle,
                            s[cs.skip(1)[t]].handle,
                            fuel,
                        );
                    assert(cs.skip(1)[t0] == cs[t0 + 1]);
                    let c2 = s[cs[t0 + 1]];
                    assert(reaches_up(s, x, c2.handle, fuel));
                    // two distinct children of `h`
                    assert(cs[0] != cs[t0 + 1]);
                    assert(c.handle != c2.handle) by {
                        if c.handle == c2.handle {
                            assert(s[cs[0]].handle == s[cs[t0 + 1]].handle);
                        }
                    }
                    assert(has_handle(s, c.handle) && has_handle(s, c2.handle));
                    lemma_found_index(s, c.handle, cs[0]);
                    lemma_found_index(s, c2.handle, cs[t0 + 1]);
                    assert(node_of(s, c.handle).parent == Some(h));
                    assert(node_of(s, c2.handle).parent == Some(h));
                    lemma_sibling_shared_descendant(
                        s,
                        rank,
                        x,
                        c.handle,
                        c2.handle,
                        h,
                        fuel,
                        fuel,
                    );
                }
            }
        }
    }
}

/// The flattener never emits one handle twice, given the rank witness that
/// the catalog's parent links form a forest.
#[verifier::rlimit(30)]
#[verifier::spinoff_prover]
pub proof fn lemma_flatten_distinct(
    s: Seq<NodeView>,
    h: Seq<char>,
    rpath: Seq<char>,
    lpath: Seq<char>,
    fuel: nat,
    rank: spec_fn(Seq<char>) -> nat,
)
    requires
        unique_handles(s),
        ranked(s, rank),
    ensures
        forall|k1: int, k2: int|
            0 <= k1 < k2 < flatten_spec(s, h, rpath, lpath, fuel).len() ==> (
            #[trigger] flatten_spec(s, h, rpath, lpath, fuel)[k1]).handle != (
            #[trigger] flatten_spec(s, h, rpath, lpath, fuel)[k2]).handle,
    decreases fuel, 0int,
{
    if !has_handle(s, h) {
    } else {
        let n = node_of(s, h);
        if n.kind is File {
        } else if fuel == 0 {
        } else {
            lemma_child_indices_props(s, h);
            assert forall|t1: int, t2: int|
                0 <= t1 < t2 < child_indices(s, h).len() implies #[trigger] child_indices(
                s,
                h,
            )[t1] != #[trigger] child_indices(s, h)[t2] by {
                assert forall|i: int, j: int|
                    0 <= i < j < index_seq(s.len()).len() implies index_seq(s.len())[i]
                    < index_seq(s.len())[j] by {
                    assert(index_seq(s.len())[i] == i);
                    assert(index_seq(s.len())[j] == j);
                }
                lemma_filter_increasing(index_seq(s.len()), |i: int| is_child_of(s, i, h));
            }
            lemma_flatten_children_distinct(
                s,
                child_indices(s, h),
                rpath,
                lpath,
                (fuel - 1) as nat,
                h,
                rank,
            );
            let whole = flatten_children(s, child_indices(s, h), rpath, lpath, (fuel - 1) as nat);
            assert(flatten_spec(s, h, rpath, lpath, fuel) == whole);
            assert forall|k1: int, k2: int|
                0 <= k1 < k2 < flatten_spec(s, h, rpath, lpath, fuel).len() implies (
            #[trigger] flatten_spec(s, h, rpath, lpath, fuel)[k1]).handle != (
            #[trigger] flatten_spec(s, h, rpath, lpath, fuel)[k2]).handle by {
                assert(flatten_spec(s, h, rpath, lpath, fuel)[k1] == whole[k1]);
                assert(flatten_spec(s, h, rpath, lpath, fuel)[k2] == whole[k2]);
            }
        }
    }
}

/// A handle names a file in the subtree below `h`: the node exists, is a
/// file, and its parent chain leads back to `h` within the snapshot's size.
pub open spec fn is_file_descendant(s: Seq<NodeView>, h: Seq<char>, x: Seq<char>) -> bool {
    has_handle(s, x) && node_of(s, x).kind is File && reaches_up(s, x, h, s.len())
}

/// Some emitted job carries the handle `x`.
pub open spec fn emits_handle(jobs: Seq<TransferJobView>, x: Seq<char>) -> bool {
    exists|k: int| 0 <= k < jobs.len() && (#[trigger] jobs[k]).handle == x
}

/// Every file whose parent chain leads back to `h` is emitted by the
/// flattener, provided the fuel covers the chain.
#[verifier::rlimit(30)]
#[verifier::spinoff_prover]
pub proof fn lemma_flatten_complete(
    s: Seq<NodeView>,
    h: Seq<char>,
    rpath: Seq<char>,
    lpath: Seq<char>,
    fuel: nat,
    x: Seq<char>,
    d: nat,
)
    requires
        unique_handles(s),
        parents_are_folders(s),
        has_handle(s, h),
        has_handle(s, x),
        node_of(s, x).kind is File,
        reaches_up(s, x, h, d),
        d <= fuel,
    ensures
        emits_handle(flatten_spec(s, h, rpath, lpath, fuel), x),
    decreases d,
{
    let jobs = flatten_spec(s, h, rpath, lpath, fuel);
    if x == h {
        assert(jobs[0].handle == x);
    } else {
        lemma_chain_top(s, x, h, d);
        let c = choose|c: Seq<char>|
            #![auto]
            has_handle(s, c) && node_of(s, c).parent == Some(h) && reaches_up(
                s,
                x,
                c,
                (d - 1) as nat,
            );
        let ci = index_of_handle(s, c);
        assert(0 <= ci < s.len() && s[ci].handle == c);
        // the child witnesses that `h` is a folder
        let hi = index_of_handle(s, h);
        assert(node_of(s, h).kind is Folder) by {
            assert(0 <= hi < s.len() && s[hi].handle == h);
            assert(s[ci].parent == Some(s[hi].handle));
            assert(s[hi].kind is Folder);
        }
        // so the flattener expands `h` into its children
        let cs = child_indices(s, h);
        assert(child_indices(s, h).contains(ci)) by {
            broadcast use vstd::seq_lib::group_filter_ensures;

            assert(index_seq(s.len())[ci] == ci);
            assert(is_child_of(s, ci, h));
        }
        let t = choose|t: int| 0 <= t < cs.len() && cs[t] == ci;
        lemma_child_indices_props(s, h);
        assert(s[cs[t]] == node_of(s, c)) by {
            lemma_found_index(s, c, ci);
        }
        lemma_flatten_complete(
            s,
            c,
            rpath + path_sep() + s[cs[t]].name,
            lpath + path_sep() + s[cs[t]].name,
            (fuel - 1) as nat,
            x,
            (d - 1) as nat,
        );
        let sub = flatten_spec(
            s,
            c,
            rpath + path_sep() + s[cs[t]].name,
            lpath + path_sep() + s[cs[t]].name,
            (fuel - 1) as nat,
        );
        let k0 = choose|k: int| 0 <= k < sub.len() && (#[trigger] sub[k]).handle == x;
        assert(s[cs[t]].handle == c);
        lemma_children_decompose(s, cs, rpath, lpath, (fuel - 1) as nat, t);
        let pre = flatten_children(s, cs.take(t), rpath, lpath, (fuel - 1) as nat);
        let k1 = pre.len() + k0;
        assert(jobs == flatten_children(s, cs, rpath, lpath, (fuel - 1) as nat));
        assert(jobs[k1] == sub[k0]);
        assert(jobs[k1].handle == x);
    }
}

/// The flattener's coverage, for the fuel the library runs it with: a
/// handle appears among the emitted jobs exactly when it names a file of
/// the subtree below the root handle.
#[verifier::spinoff_prover]
pub proof fn lemma_flatten_covers_files(
    s: Seq<NodeView>,
    h: Seq<char>,
    rpath: Seq<char>,
    lpath: Seq<char>,
)
    requires
        unique_handles(s),
        parents_are_folders(s),
        has_handle(s, h),
    ensures
        forall|x: Seq<char>|
            #![trigger is_file_descendant(s, h, x)]
            #![trigger emits_handle(flatten_spec(s, h, rpath, lpath, s.len()), x)]
            is_file_descendant(s, h, x) <==> emits_handle(
                flatten_spec(s, h, rpath, lpath, s.len()),
                x,
            ),
{
    let jobs = flatten_spec(s, h, rpath, lpath, s.len());
    lemma_flatten_sound(s, h, rpath, lpath, s.len());
    assert forall|x: Seq<char>|
        is_file_descendant(s, h, x) implies #[trigger] emits_handle(jobs, x) by {
        lemma_flatten_complete(s, h, rpath, lpath, s.len(), x, s.len());
        let k = choose|k: int|
            0 <= k < jobs.len() && (#[trigger] jobs[k]).handle == x;
        assert(jobs[k].handle == x);
    }
    assert forall|x: Seq<char>|
        #[trigger] emits_handle(jobs, x) implies is_file_descendant(s, h, x) by {
        let k = choose|k: int| 0 <= k < jobs.len() && (#[trigger] jobs[k]).handle == x;
        assert(has_handle(s, jobs[k].handle));
    }
}

/// The job's two paths agree below their roots: the remote path extends
/// `rp` exactly as the local path extends `lp`.
pub open spec fn paths_mirror(j: TransferJobView, rp: Seq<char>, lp: Seq<char>) -> bool {
    exists|suffix: Seq<char>|
        (suffix.len() == 0 || suffix[0] == '/') && j.remote_path == rp + suffix
            && j.local_path == #[trigger] (lp + suffix)
}

/// Every emitted job's local path is the local root joined with exactly
/// the relative chain that its remote path appends to the remote root.
#[verifier::spinoff_prover]
pub proof fn lemma_flatten_paths_mirror(
    s: Seq<NodeView>,
    h: Seq<char>,
    rpath: Seq<char>,
    lpath: Seq<char>,
    fuel: nat,
)
    ensures
        forall|k: int|
            0 <= k < flatten_spec(s, h, rpath, lpath, fuel).len() ==> paths_mirror(
                #[trigger] flatten_spec(s, h, rpath, lpath, fuel)[k],
                rpath,
                lpath,
            ),
    decreases fuel, 0int,
{
    if !has_handle(s, h) {
    } else {
        let n = node_of(s, h);
        if n.kind is File {
            let j = flatten_spec(s, h, rpath, lpath, fuel)[0];
            assert(j.remote_path =~= rpath + Seq::<char>::empty());
            assert(j.local_path =~= lpath + Seq::<char>::empty());
            assert(paths_mirror(j, rpath, lpath));
        } else if fuel == 0 {
        } else {
            lemma_flatten_children_paths_mirror(
                s,
                child_indices(s, h),
                rpath,
                lpath,
                (fuel - 1) as nat,
            );
            let whole = flatten_children(s, child_indices(s, h), rpath, lpath, (fuel - 1) as nat);
            assert(flatten_spec(s, h, rpath, lpath, fuel) == whole);
            assert forall|k: int|
                0 <= k < flatten_spec(s, h, rpath, lpath, fuel).len() implies paths_mirror(
                #[trigger] flatten_spec(s, h, rpath, lpath, fuel)[k],
                rpath,
                lpath,
            ) by {
                assert(flatten_spec(s, h, rpath, lpath, fuel)[k] == whole[k]);
            }
        }
    }
}

/// See [`lemma_flatten_paths_mirror`], for a folder's children.
#[verifier::spinoff_prover]
proof fn lemma_flatten_children_paths_mirror(
    s: Seq<NodeView>,
    cs: Seq<int>,
    rpath: Seq<char>,
    lpath: Seq<char>,
    fuel: nat,
)
    ensures
        forall|k: int|
            0 <= k < flatten_children(s, cs, rpath, lpath, fuel).len() ==> paths_mirror(
                #[trigger] flatten_children(s, cs, rpath, lpath, fuel)[k],
                rpath,
                lpath,
            ),
    decreases fuel, cs.len(),
{
    if cs.len() == 0 {
    } else {
        let whole = flatten_children(s, cs, rpath, lpath, fuel);
        if 0 <= cs[0] < s.len() {
            let c = s[cs[0]];
            let crp = rpath + path_sep() + c.name;
            let clp = lpath + path_sep() + c.name;
            lemma_flatten_paths_mirror(s, c.handle, crp, clp, fuel);
            let head = flatten_spec(s, c.handle, crp, clp, fuel);
            assert forall|k: int| 0 <= k < head.len() implies paths_mirror(
                #[trigger] head[k],
                rpath,
                lpath,
            ) by {
                assert(paths_mirror(head[k], crp, clp));
                let suffix = choose|suffix: Seq<char>|
                    (suffix.len() == 0 || suffix[0] == '/') && head[k].remote_path == crp + suffix
                        && head[k].local_path == #[trigger] (clp + suffix);
                let chain = path_sep() + c.name + suffix;
                assert(chain[0] == '/') by {
                    assert(path_sep()[0] == '/');
                    assert((path_sep() + c.name)[0] == '/');
                }
                assert(crp + suffix =~= rpath + chain);
                assert(clp + suffix =~= lpath + chain);
                assert(head[k].local_path == lpath + chain);
            }
        }
        lemma_flatten_children_paths_mirror(s, cs.skip(1), rpath, lpath, fuel);
        let head_len = if 0 <= cs[0] < s.len() {
            flatten_spec(
                s,
                s[cs[0]].handle,
                rpath + path_sep() + s[cs[0]].name,
                lpath + path_sep() + s[cs[0]].name,
                fuel,
            ).len() as int
        } else {
            0int
        };
        let rest = flatten_children(s, cs.skip(1), rpath, lpath, fuel);
        assert forall|k: int| 0 <= k < whole.len() implies paths_mirror(
            #[trigger] whole[k],
            rpath,
            lpath,
        ) by {
            if k < head_len {
                assert(whole[k] == flatten_spec(
                    s,
                    s[cs[0]].handle,
                    rpath + path_sep() + s[cs[0]].name,
                    lpath + path_sep() + s[cs[0]].name,
                    fuel,
                )[k]);
            } else {
                assert(whole[k] == rest[k - head_len]);
            }
        }
    }
}

/// The flattener is exact on a well-formed catalog: a handle appears
/// among its jobs exactly when it names a file of the subtree below the
/// root, no handle appears twice, and no two jobs land at one local path.
/// Together the clauses say the flattener emits exactly one job per file
/// descendant, each into a place of its own.
#[verifier::spinoff_prover]
pub proof fn lemma_flatten_exact(
    s: Seq<NodeView>,
    h: Seq<char>,
    rpath: Seq<char>,
    lpath: Seq<char>,
    rank: spec_fn(Seq<char>) -> nat,
)
    requires
        unique_handles(s),
        parents_are_folders(s),
        ranked(s, rank),
        names_slash_free(s),
        sibling_names_distinct(s),
        has_handle(s, h),
    ensures
        forall|x: Seq<char>|
            #![trigger is_file_descendant(s, h, x)]
            #![trigger emits_handle(flatten_spec(s, h, rpath, lpath, s.len()), x)]
            is_file_descendant(s, h, x) <==> emits_handle(
                flatten_spec(s, h, rpath, lpath, s.len()),
                x,
            ),
        forall|k1: int, k2: int|
            0 <= k1 < k2 < flatten_spec(s, h, rpath, lpath, s.len()).len() ==> (
            #[trigger] flatten_spec(s, h, rpath, lpath, s.len())[k1]).handle != (
            #[trigger] flatten_spec(s, h, rpath, lpath, s.len())[k2]).handle,
        forall|k1: int, k2: int|
            0 <= k1 < k2 < flatten_spec(s, h, rpath, lpath, s.len()).len() ==> (
            #[trigger] flatten_spec(s, h, rpath, lpath, s.len())[k1]).local_path != (
            #[trigger] flatten_spec(s, h, rpath, lpath, s.len())[k2]).local_path,
{
    lemma_flatten_covers_files(s, h, rpath, lpath);
    lemma_flatten_distinct(s, h, rpath, lpath, s.len(), rank);
    lemma_flatten_paths_unique(s, h, rpath, lpath, s.len());
}

/// No node name holds a path separator.
pub open spec fn names_slash_free(s: Seq<NodeView>) -> bool {
    forall|i: int, t: int|
        0 <= i < s.len() && 0 <= t < s[i].name.len() ==> #[trigger] s[i].name[t] != '/'
}

/// No two children of one parent share a display name.
pub open spec fn sibling_names_distinct(s: Seq<NodeView>) -> bool {
    forall|i: int, j: int|
        0 <= i < s.len() && 0 <= j < s.len() && i != j && s[i].parent is Some && (
        #[trigger] s[i].parent) == (#[trigger] s[j].parent) ==> s[i].name != s[j].name
}

/// Concatenation cancels on the left.
proof fn lemma_cancel_prefix(a: Seq<char>, x: Seq<char>, y: Seq<char>)
    requires
        a + x == a + y,
    ensures
        x == y,
{
    broadcast use vstd::seq_lib::group_seq_properties;

    assert((a + x).len() == a.len() + x.len());
    assert((a + y).len() == a.len() + y.len());
    assert(x.len() == y.len());
    assert(x =~= y) by {
        assert forall|i: int| 0 <= i < x.len() implies x[i] == y[i] by {
            assert((a + x)[a.len() + i] == x[i]);
            assert((a + y)[a.len() + i] == y[i]);
            assert((a + x)[a.len() + i] == (a + y)[a.len() + i]);
        }
    }
}

/// A separator-free segment followed by an empty-or-separator-led tail can
/// be read back unambiguously.
proof fn lemma_segment_injective(n0: Seq<char>, s0: Seq<char>, n1: Seq<char>, s1: Seq<char>)
    requires
        forall|t: int| 0 <= t < n0.len() ==> #[trigger] n0[t] != '/',
        forall|t: int| 0 <= t < n1.len() ==> #[trigger] n1[t] != '/',
        s0.len() == 0 || s0[0] == '/',
        s1.len() == 0 || s1[0] == '/',
        n0 + s0 == n1 + s1,
    ensures
        n0 == n1,
        s0 == s1,
{
    broadcast use vstd::seq_lib::group_seq_properties;

    assert((n0 + s0).len() == n0.len() + s0.len());
    assert((n1 + s1).len() == n1.len() + s1.len());
    assert(n0.len() + s0.len() == n1.len() + s1.len());
    if n0.len() < n1.len() {
        assert(s0.len() > 0);
        assert((n0 + s0)[n0.len() as int] == s0[0]);
        assert((n1 + s1)[n0.len() as int] == n1[n0.len() as int]);
        assert(n1[n0.len() as int] != '/');
    } else if n1.len() < n0.len() {
        assert(s1.len() > 0);
        assert((n1 + s1)[n1.len() as int] == s1[0]);
        assert((n0 + s0)[n1.len() as int] == n0[n1.len() as int]);
        assert(n0[n1.len() as int] != '/');
    } else {
        assert(n0 =~= n1) by {
            assert forall|t: int| 0 <= t < n0.len() implies n0[t] == n1[t] by {
                assert((n0 + s0)[t] == n0[t]);
                assert((n1 + s1)[t] == n1[t]);
            }
        }
        assert(s0 =~= s1) by {
            assert forall|t: int| 0 <= t < s0.len() implies s0[t] == s1[t] by {
                assert((n0 + s0)[n0.len() + t] == s0[t]);
                assert((n1 + s1)[n1.len() + t] == s1[t]);
                assert((n0 + s0)[n0.len() + t] == (n1 + s1)[n1.len() + t]);
            }
        }
    }
}

/// A job's local path attributed to one child of the folder: the local
/// root, a separator, that child's name, then an empty-or-separator-led
/// tail.
pub open spec fn attributed(
    s: Seq<NodeView>,
    cs: Seq<int>,
    lp: Seq<char>,
    j: TransferJobView,
) -> bool {
    exists|t: int, c: Seq<char>|
        0 <= t < cs.len() && (c.len() == 0 || c[0] == '/') && j.local_path == (lp + path_sep())
            + (#[trigger] (s[cs[t]].name + c))
}

/// The children's combined jobs land at pairwise distinct local paths, and
/// every one of them is attributed to one child.
#[verifier::rlimit(40)]
#[verifier::spinoff_prover]
proof fn lemma_flatten_children_paths_unique(
    s: Seq<NodeView>,
    cs: Seq<int>,
    rpath: Seq<char>,
    lpath: Seq<char>,
    fuel: nat,
)
    requires
        names_slash_free(s),
        sibling_names_distinct(s),
        forall|t: int| 0 <= t < cs.len() ==> 0 <= #[trigger] cs[t] < s.len(),
        forall|t1: int, t2: int|
            0 <= t1 < t2 < cs.len() ==> s[#[trigger] cs[t1]].name != s[#[trigger] cs[t2]].name,
    ensures
        forall|k1: int, k2: int|
            0 <= k1 < k2 < flatten_children(s, cs, rpath, lpath, fuel).len() ==> (
            #[trigger] flatten_children(s, cs, rpath, lpath, fuel)[k1]).local_path != (
            #[trigger] flatten_children(s, cs, rpath, lpath, fuel)[k2]).local_path,
        forall|k: int|
            0 <= k < flatten_children(s, cs, rpath, lpath, fuel).len() ==> attributed(
                s,
                cs,
                lpath,
                #[trigger] flatten_children(s, cs, rpath, lpath, fuel)[k],
            ),
    decreases fuel, cs.len(),
{
    if cs.len() == 0 {
    } else {
        let c = s[cs[0]];
        let whole = flatten_children(s, cs, rpath, lpath, fuel);
        let crp = rpath + path_sep() + c.name;
        let clp = lpath + path_sep() + c.name;
        let head = flatten_spec(s, c.handle, crp, clp, fuel);
        let rest = flatten_children(s, cs.skip(1), rpath, lpath, fuel);
        lemma_flatten_paths_unique(s, c.handle, crp, clp, fuel);
        lemma_flatten_paths_mirror(s, c.handle, crp, clp, fuel);
        assert forall|t: int| 0 <= t < cs.skip(1).len() implies 0 <= #[trigger] cs.skip(1)[t]
            < s.len() by {
            assert(cs.skip(1)[t] == cs[t + 1]);
        }
        assert forall|t1: int, t2: int|
            0 <= t1 < t2 < cs.skip(1).len() implies s[#[trigger] cs.skip(1)[t1]].name != s[
        #[trigger] cs.skip(1)[t2]].name by {
            assert(cs.skip(1)[t1] == cs[t1 + 1]);
            assert(cs.skip(1)[t2] == cs[t2 + 1]);
            assert(s[cs[t1 + 1]].name != s[cs[t2 + 1]].name);
        }
        lemma_flatten_children_paths_unique(s, cs.skip(1), rpath, lpath, fuel);
        // every head job is attributed to the first child
        assert forall|k: int| 0 <= k < head.len() implies attributed(
            s,
            cs,
            lpath,
            #[trigger] head[k],
        ) by {
            assert(paths_mirror(head[k], crp, clp));
            let suffix = choose|suffix: Seq<char>|
                (suffix.len() == 0 || suffix[0] == '/') && head[k].remote_path == crp + suffix
                    && head[k].local_path == #[trigger] (clp + suffix);
            assert(clp + suffix =~= (lpath + path_sep()) + (s[cs[0]].name + suffix));
            assert(head[k].local_path == (lpath + path_sep()) + (s[cs[0]].name + suffix));
        }
        // attribution for the whole combined sequence
        assert forall|k: int| 0 <= k < whole.len() implies attributed(
            s,
            cs,
            lpath,
            #[trigger] whole[k],
        ) by {
            if k < head.len() {
                assert(whole[k] == head[k]);
                assert(attributed(s, cs, lpath, head[k]));
            } else {
                assert(whole[k] == rest[k - head.len()]);
                assert(attributed(s, cs.skip(1), lpath, rest[k - head.len()]));
                let (t0, c0): (int, Seq<char>) = choose|t: int, c: Seq<char>|
                    0 <= t < cs.skip(1).len() && (c.len() == 0 || c[0] == '/') && rest[k
                        - head.len()].local_path == (lpath + path_sep()) + (#[trigger] (s[cs.skip(
                        1,
                    )[t]].name + c));
                assert(cs.skip(1)[t0] == cs[t0 + 1]);
                assert(whole[k].local_path == (lpath + path_sep()) + (s[cs[t0 + 1]].name + c0));
            }
        }
        // distinctness across the split
        assert forall|k1: int, k2: int|
            0 <= k1 < k2 < whole.len() implies (#[trigger] whole[k1]).local_path != (
            #[trigger] whole[k2]).local_path by {
            if k2 < head.len() {
                assert(whole[k1] == head[k1] && whole[k2] == head[k2]);
            } else if k1 >= head.len() {
                assert(whole[k1] == rest[k1 - head.len()] && whole[k2] == rest[k2 - head.len()]);
            } else {
                assert(whole[k1] == head[k1] && whole[k2] == rest[k2 - head.len()]);
                if whole[k1].local_path == whole[k2].local_path {
                    assert(paths_mirror(head[k1], crp, clp));
                    let suffix = choose|suffix: Seq<char>|
                        (suffix.len() == 0 || suffix[0] == '/') && head[k1].remote_path == crp
                            + suffix && head[k1].local_path == #[trigger] (clp + suffix);
                    assert(attributed(s, cs.skip(1), lpath, rest[k2 - head.len()]));
                    let (t0, c0): (int, Seq<char>) = choose|t: int, c: Seq<char>|
                        0 <= t < cs.skip(1).len() && (c.len() == 0 || c[0] == '/') && rest[k2
                            - head.len()].local_path == (lpath + path_sep()) + (#[trigger] (s[
                        cs.skip(1)[t]].name + c));
                    assert(cs.skip(1)[t0] == cs[t0 + 1]);
                    let n0 = s[cs[0]].name;
                    let n1 = s[cs[t0 + 1]].name;
                    assert(clp + suffix =~= (lpath + path_sep()) + (n0 + suffix));
                    assert((lpath + path_sep()) + (n0 + suffix) == (lpath + path_sep()) + (n1
                        + c0));
                    lemma_cancel_prefix(lpath + path_sep(), n0 + suffix, n1 + c0);
                    assert forall|t: int| 0 <= t < n0.len() implies #[trigger] n0[t] != '/' by {
                        assert(s[cs[0]].name[t] != '/');
                    }
                    assert forall|t: int| 0 <= t < n1.len() implies #[trigger] n1[t] != '/' by {
                        assert(s[cs[t0 + 1]].name[t] != '/');
                    }
                    lemma_segment_injective(n0, suffix, n1, c0);
                    assert(s[cs[0]].name != s[cs[t0 + 1]].name);
                }
            }
        }
    }
}

/// Every pair of jobs the flattener emits lands at two distinct local
/// paths, provided sibling names are distinct and separator-free.
#[verifier::rlimit(30)]
#[verifier::spinoff_prover]
pub proof fn lemma_flatten_paths_unique(
    s: Seq<NodeView>,
    h: Seq<char>,
    rpath: Seq<char>,
    lpath: Seq<char>,
    fuel: nat,
)
    requires
        names_slash_free(s),
        sibling_names_distinct(s),
    ensures
        forall|k1: int, k2: int|
            0 <= k1 < k2 < flatten_spec(s, h, rpath, lpath, fuel).len() ==> (
            #[trigger] flatten_spec(s, h, rpath, lpath, fuel)[k1]).local_path != (
            #[trigger] flatten_spec(s, h, rpath, lpath, fuel)[k2]).local_path,
    decreases fuel, 0int,
{
    if !has_handle(s, h) {
    } else {
        let n = node_of(s, h);
        if n.kind is File {
        } else if fuel == 0 {
        } else {
            let cs = child_indices(s, h);
            lemma_child_indices_props(s, h);
            assert forall|t1: int, t2: int|
                0 <= t1 < t2 < cs.len() implies s[#[trigger] cs[t1]].name != s[
            #[trigger] cs[t2]].name by {
                assert forall|i: int, j: int|
                    0 <= i < j < index_seq(s.len()).len() implies index_seq(s.len())[i]
                    < index_seq(s.len())[j] by {
                    assert(index_seq(s.len())[i] == i);
                    assert(index_seq(s.len())[j] == j);
                }
                lemma_filter_increasing(index_seq(s.len()), |i: int| is_child_of(s, i, h));
                assert(cs[t1] != cs[t2]);
                assert(is_child_of(s, cs[t1], h) && is_child_of(s, cs[t2], h));
                assert(s[cs[t1]].parent == Some(h) && s[cs[t2]].parent == Some(h));
            }
            lemma_flatten_children_paths_unique(s, cs, rpath, lpath, (fuel - 1) as nat);
            let whole = flatten_children(s, cs, rpath, lpath, (fuel - 1) as nat);
            assert(flatten_spec(s, h, rpath, lpath, fuel) == whole);
            assert forall|k1: int, k2: int|
                0 <= k1 < k2 < flatten_spec(s, h, rpath, lpath, fuel).len() implies (
            #[trigger] flatten_spec(s, h, rpath, lpath, fuel)[k1]).local_path != (
            #[trigger] flatten_spec(s, h, rpath, lpath, fuel)[k2]).local_path by {
                assert(flatten_spec(s, h, rpath, lpath, fuel)[k1] == whole[k1]);
                assert(flatten_spec(s, h, rpath, lpath, fuel)[k2] == whole[k2]);
            }
        }
    }
}

/// Flattens the subtree rooted at the node carrying handle `h` into transfer
/// jobs, depth-first, emitting every reachable file exactly where
/// [`flatten_spec`] says.
pub fn flatten_node(nodes: &Snapshot, h: &str, rpath: &str, lpath: &str, fuel: usize) -> (r: Vec<
    TransferJob,
>)
    requires
        nodes.wf(),
    ensures
        r@.map_values(|j: TransferJob| j@) == flatten_spec(
            nodes@,
            h@,
            rpath@,
            lpath@,
            fuel as nat,
        ),
    decreases fuel,
{
    let ghost s = nodes@;
    match nodes.get_node_by_handle(h) {
        None => {
            let r: Vec<TransferJob> = Vec::new();
            proof {
                assert(r@.map_values(|j: TransferJob| j@) =~= Seq::<TransferJobView>::empty());
            }
            r
        },
        Some(node) => {
            if node.kind.is_file() {
                let job = TransferJob {
                    handle: String::from_str(h),
                    remote_path: String::from_str(rpath),
                    local_path: String::from_str(lpath),
                };
                let mut v: Vec<TransferJob> = Vec::new();
                v.push(job);
                proof {
                    assert(v@.map_values(|j: TransferJob| j@) =~= seq![
                        TransferJobView { handle: h@, remote_path: rpath@, local_path: lpath@ },
                    ]);
                }
                v
            } else if fuel == 0 {
                let r: Vec<TransferJob> = Vec::new();
                proof {
                    assert(r@.map_values(|j: TransferJob| j@) =~= Seq::<TransferJobView>::empty());
                }
                r
            } else {
                let cs = nodes.children_of(h);
                let ghost csv = cs@.map_values(|u: usize| u as int);
                let ghost f1 = (fuel - 1) as nat;
                let mut out: Vec<TransferJob> = Vec::new();
                let mut k: usize = 0;
                proof {
                    assert(csv.skip(0) =~= csv);
                    assert(out@.map_values(|j: TransferJob| j@) =~= Seq::<
                        TransferJobView,
                    >::empty());
                }
                while k < cs.len()
                    invariant
                        nodes.wf(),
                        s == nodes@,
                        csv == cs@.map_values(|u: usize| u as int),
                        forall|t: int| #![auto] 0 <= t < cs@.len() ==> cs@[t] < s.len(),
                        k <= cs@.len(),
                        fuel >= 1,
                        f1 == (fuel - 1) as nat,
                        out@.map_values(|j: TransferJob| j@) + flatten_children(
                            s,
                            csv.skip(k as int),
                            rpath@,
                            lpath@,
                            f1,
                        ) == flatten_children(s, csv, rpath@, lpath@, f1),
                    decreases cs@.len() - k,
                {
                    let i = cs[k];
                    let child = &nodes.nodes[i];
                    let crp = join_path(rpath, child.name.as_str());
                    let clp = join_path(lpath, child.name.as_str());
                    let mut sub = flatten_node(
                        nodes,
                        child.handle.as_str(),
                        crp.as_str(),
                        clp.as_str(),
                        fuel - 1,
                    );
                    let ghost outv = out@.map_values(|j: TransferJob| j@);
                    let ghost subv = sub@.map_values(|j: TransferJob| j@);
                    out.append(&mut sub);
                    proof {
                        assert(s[csv[k as int]] == child@);
                        assert(csv.skip(k as int)[0] == csv[k as int]);
                        assert(csv.skip(k as int).skip(1) =~= csv.skip(k as int + 1));
                        assert(out@.map_values(|j: TransferJob| j@) =~= outv + subv);
                        assert((outv + subv) + flatten_children(
                            s,
                            csv.skip(k as int + 1),
                            rpath@,
                            lpath@,
                            f1,
                        ) =~= outv + (subv + flatten_children(
                            s,
                            csv.skip(k as int + 1),
                            rpath@,
                            lpath@,
                            f1,
                        )));
                    }
                    k += 1;
                }
                proof {
                    assert(csv.skip(cs@.len() as int) =~= Seq::<int>::empty());
                    assert(out@.map_values(|j: TransferJob| j@) + Seq::<
                        TransferJobView,
                    >::empty() =~= out@.map_values(|j: TransferJob| j@));
                }
                out
            }
        },
    }
}

/// The jobs emitted for the whole forest: every root flattened in snapshot
/// order, remote paths absolute, local paths the output directory followed
/// by the absolute remote path.
pub open spec fn flatten_roots(
    s: Seq<NodeView>,
    rs: Seq<int>,
    out: Seq<char>,
) -> Seq<TransferJobView>
    decreases rs.len(),
{
    if rs.len() == 0 {
        Seq::empty()
    } else {
        let head = if 0 <= rs[0] < s.len() {
            let fp = full_path_spec(s, s[rs[0]].handle, s.len());
            flatten_spec(s, s[rs[0]].handle, fp, out + fp, s.len())
        } else {
            Seq::empty()
        };
        head + flatten_roots(s, rs.skip(1), out)
    }
}

/// See [`flatten_roots`].
pub open spec fn flatten_forest_spec(s: Seq<NodeView>, out: Seq<char>) -> Seq<TransferJobView> {
    flatten_roots(s, root_indices_spec(s), out)
}

/// Flattens the subtree rooted at `root` into transfer jobs: the root's
/// display path is its own name remotely and `output_dir` locally, and every
/// file below it joins the chain of folder names in between.
pub fn flatten_subtree(nodes: &Snapshot, root: &Node, output_dir: &str) -> (r: Vec<TransferJob>)
    requires
        nodes.wf(),
    ensures
        r@.map_values(|j: TransferJob| j@) == flatten_spec(
            nodes@,
            root@.handle,
            root@.name,
            output_dir@,
            nodes@.len(),
        ),
{
    flatten_node(
        nodes,
        root.handle.as_str(),
        root.name.as_str(),
        output_dir,
        nodes.len(),
    )
}

/// Flattens the entire forest of roots: remote paths are absolute, and each
/// local path is the output directory followed by the file's absolute remote
/// path.
pub fn flatten_forest(nodes: &Snapshot, output_dir: &str) -> (r: Vec<TransferJob>)
    requires
        nodes.wf(),
    ensures
        r@.map_values(|j: TransferJob| j@) == flatten_forest_spec(nodes@, output_dir@),
{
    let ghost s = nodes@;
    let rs = nodes.root_indices();
    let ghost rsv = rs@.map_values(|u: usize| u as int);
    let mut out: Vec<TransferJob> = Vec::new();
    let mut k: usize = 0;
    proof {
        assert(rsv.skip(0) =~= rsv);
        assert(out@.map_values(|j: TransferJob| j@) =~= Seq::<TransferJobView>::empty());
    }
    while k < rs.len()
        invariant
            nodes.wf(),
            s == nodes@,
            rsv == rs@.map_values(|u: usize| u as int),
            forall|t: int| #![auto] 0 <= t < rs@.len() ==> rs@[t] < s.len(),
            k <= rs@.len(),
            out@.map_values(|j: TransferJob| j@) + flatten_roots(
                s,
                rsv.skip(k as int),
                output_dir@,
            ) == flatten_roots(s, rsv, output_dir@),
        decreases rs@.len() - k,
    {
        let i = rs[k];
        let root = &nodes.nodes[i];
        let fp = crate::paths::construct_full_path(nodes, root);
        let local = String::from_str(output_dir).concat(fp.as_str());
        let mut sub = flatten_node(
            nodes,
            root.handle.as_str(),
            fp.as_str(),
            local.as_str(),
            nodes.len(),
        );
        let ghost outv = out@.map_values(|j: TransferJob| j@);
        let ghost subv = sub@.map_values(|j: TransferJob| j@);
        out.append(&mut sub);
        proof {
            assert(s[rsv[k as int]] == root@);
            assert(rsv.skip(k as int)[0] == rsv[k as int]);
            assert(rsv.skip(k as int).skip(1) =~= rsv.skip(k as int + 1));
            assert(out@.map_values(|j: TransferJob| j@) =~= outv + subv);
            assert((outv + subv) + flatten_roots(s, rsv.skip(k as int + 1), output_dir@) =~= outv
                + (subv + flatten_roots(s, rsv.skip(k as int + 1), output_dir@)));
        }
        k += 1;
    }
    proof {
        assert(rsv.skip(rs@.len() as int) =~= Seq::<int>::empty());
        assert(out@.map_values(|j: TransferJob| j@) + Seq::<TransferJobView>::empty() =~= out@
            .map_values(|j: TransferJob| j@));
    }
    out
}

} // verus!
