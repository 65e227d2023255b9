use vstd::prelude::*;
use vstd::string::StrSliceExecFns;
use vstd::string::StringExecFns;

use crate::errors::SyncError;
use crate::model::child_indices;
use crate::model::has_handle;
use crate::model::node_of;
use crate::model::root_indices_spec;
use crate::model::Node;
use crate::model::NodeView;
use crate::model::Snapshot;
use crate::strings::str_eq;

verus! {

/// Splits the characters of `p` from position `i` onward at every
/// separator, with `cur` the segment collected so far. Every input yields at
/// least one segment; empty segments are kept, as the walk treats them as
/// names like any other.
pub open spec fn split_acc(p: Seq<char>, i: int, cur: Seq<char>) -> Seq<Seq<char>>
    decreases p.len() - i,
{
    if i < 0 || i >= p.len() {
        seq![cur]
    } else if p[i] == '/' {
        seq![cur] + split_acc(p, i + 1, Seq::empty())
    } else {
        split_acc(p, i + 1, cur.push(p[i]))
    }
}

/// The slash-separated segments of `p`.
pub open spec fn split_path(p: Seq<char>) -> Seq<Seq<char>> {
    split_acc(p, 0, Seq::empty())
}

/// Splits a path into its slash-separated segments.
pub fn split_segments(path: &str) -> (r: Vec<String>)
    ensures
        r@.map_values(|t: String| t@) == split_path(path@),
        r@.len() >= 1,
{
    let ghost p = path@;
    let n = path.unicode_len();
    let mut segs: Vec<String> = Vec::new();
    let mut start: usize = 0;
    let mut i: usize = 0;
    proof {
        assert(p.subrange(0, 0) =~= Seq::<char>::empty());
        assert(segs@.map_values(|t: String| t@) =~= Seq::<Seq<char>>::empty());
        assert(Seq::<Seq<char>>::empty() + split_acc(p, 0, p.subrange(0, 0)) =~= split_acc(
            p,
            0,
            p.subrange(0, 0),
        ));
    }
    while i < n
        invariant
            p == path@,
            n == p.len(),
            start <= i <= n,
            split_path(p) == segs@.map_values(|t: String| t@) + split_acc(
                p,
                i as int,
                p.subrange(start as int, i as int),
            ),
        decreases n - i,
    {
        let ghost cur = p.subrange(start as int, i as int);
        let ghost prev = segs@.map_values(|t: String| t@);
        let c = path.get_char(i);
        if c == '/' {
            let seg = path.substring_char(start, i);
            segs.push(String::from_str(seg));
            start = i + 1;
            proof {
                assert(split_acc(p, i as int, cur) == seq![cur] + split_acc(
                    p,
                    i + 1,
                    Seq::empty(),
                ));
                assert(segs@.map_values(|t: String| t@) =~= prev + seq![cur]);
                assert((prev + seq![cur]) + split_acc(p, i + 1, Seq::empty()) =~= prev + (seq![cur]
                    + split_acc(p, i + 1, Seq::empty())));
                assert(p.subrange(i + 1, i + 1) =~= Seq::<char>::empty());
            }
        } else {
            proof {
                assert(split_acc(p, i as int, cur) == split_acc(p, i + 1, cur.push(p[i as int])));
                assert(p.subrange(start as int, i + 1) =~= cur.push(p[i as int]));
            }
        }
        i += 1;
    }
    let ghost cur = p.subrange(start as int, n as int);
    let ghost prev = segs@.map_values(|t: String| t@);
    let seg = path.substring_char(start, n);
    segs.push(String::from_str(seg));
    proof {
        assert(split_acc(p, n as int, cur) == seq![cur]);
        assert(segs@.map_values(|t: String| t@) =~= prev + seq![cur]);
    }
    segs
}

/// The first index among `rs` whose node carries the name `name`.
pub open spec fn first_with_name(s: Seq<NodeView>, rs: Seq<int>, name: Seq<char>) -> Option<int>
    decreases rs.len(),
{
    if rs.len() == 0 {
        None
    } else if 0 <= rs[0] < s.len() && s[rs[0]].name == name {
        Some(rs[0])
    } else {
        first_with_name(s, rs.skip(1), name)
    }
}

/// Walks down from the node at index `idx`, matching one child name per
/// segment; the first structural match wins at every step.
pub open spec fn resolve_walk(s: Seq<NodeView>, idx: int, segs: Seq<Seq<char>>) -> Option<int>
    decreases segs.len(),
{
    if segs.len() == 0 {
        Some(idx)
    } else {
        match first_with_name(s, child_indices(s, s[idx].handle), segs[0]) {
            Some(c) => resolve_walk(s, c, segs.skip(1)),
            None => None,
        }
    }
}

/// Resolves a slash-separated display path: one leading separator is
/// dropped, the first segment names a root, and each further segment names a
/// child on the way down.
pub open spec fn resolve_path_spec(s: Seq<NodeView>, p: Seq<char>) -> Option<int> {
    let stripped = if p.len() > 0 && p[0] == '/' {
        p.skip(1)
    } else {
        p
    };
    let segs = split_path(stripped);
    match first_with_name(s, root_indices_spec(s), segs[0]) {
        Some(r) => resolve_walk(s, r, segs.skip(1)),
        None => None,
    }
}

/// Finds the first index among `indices` whose node carries `name`.
fn find_by_name(nodes: &Snapshot, indices: &Vec<usize>, name: &str) -> (r: Option<usize>)
    requires
        forall|t: int| #![auto] 0 <= t < indices@.len() ==> indices@[t] < nodes@.len(),
    ensures
        match r {
            Some(i) => first_with_name(
                nodes@,
                indices@.map_values(|u: usize| u as int),
                name@,
            ) == Some(i as int) && i < nodes@.len(),
            None => first_with_name(
                nodes@,
                indices@.map_values(|u: usize| u as int),
                name@,
            ) is None,
        },
{
    let ghost s = nodes@;
    let ghost isv = indices@.map_values(|u: usize| u as int);
    let mut k: usize = 0;
    proof {
        assert(isv.skip(0) =~= isv);
    }
    while k < indices.len()
        invariant
            s == nodes@,
            isv == indices@.map_values(|u: usize| u as int),
            forall|t: int| #![auto] 0 <= t < indices@.len() ==> indices@[t] < s.len(),
            k <= indices@.len(),
            first_with_name(s, isv, name@) == first_with_name(s, isv.skip(k as int), name@),
        decreases indices@.len() - k,
    {
        let i = indices[k];
        if str_eq(nodes.nodes[i].name.as_str(), name) {
            proof {
                assert(isv.skip(k as int)[0] == isv[k as int]);
            }
            return Some(i);
        }
        proof {
            assert(isv.skip(k as int)[0] == isv[k as int]);
            assert(isv.skip(k as int).skip(1) =~= isv.skip(k as int + 1));
        }
        k += 1;
    }
    proof {
        assert(isv.skip(indices@.len() as int).len() == 0);
    }
    None
}

/// Resolves a display path to the index of the node it names.
pub fn resolve_path(nodes: &Snapshot, path: &str) -> (r: Option<usize>)
    requires
        nodes.wf(),
    ensures
        match r {
            Some(i) => resolve_path_spec(nodes@, path@) == Some(i as int) && i < nodes@.len(),
            None => resolve_path_spec(nodes@, path@) is None,
        },
{
    let ghost s = nodes@;
    let n = path.unicode_len();
    let stripped: &str = if n > 0 && path.get_char(0) == '/' {
        path.substring_char(1, n)
    } else {
        path
    };
    proof {
        assert(stripped@ == (if path@.len() > 0 && path@[0] == '/' {
            path@.skip(1)
        } else {
            path@
        }));
    }
    let segs = split_segments(stripped);
    let ghost segsv = segs@.map_values(|t: String| t@);
    let roots = nodes.root_indices();
    let first = match find_by_name(nodes, &roots, segs[0].as_str()) {
        Some(i) => i,
        None => {
            return None;
        },
    };
    let mut cur: usize = first;
    let mut t: usize = 1;
    proof {
        assert(segsv.skip(0) =~= segsv);
        assert(segsv.skip(0)[0] == segsv[0]);
        assert(segsv.skip(0).skip(1) =~= segsv.skip(1));
        assert(resolve_path_spec(s, path@) == resolve_walk(s, first as int, segsv.skip(1)));
    }
    while t < segs.len()
        invariant
            nodes.wf(),
            s == nodes@,
            segsv == segs@.map_values(|t2: String| t2@),
            1 <= t <= segs@.len(),
            cur < s.len(),
            resolve_path_spec(s, path@) == resolve_walk(s, cur as int, segsv.skip(t as int)),
        decreases segs@.len() - t,
    {
        let cs = nodes.children_of(nodes.nodes[cur].handle.as_str());
        proof {
            assert(segsv.skip(t as int)[0] == segsv[t as int]);
            assert(segsv.skip(t as int).skip(1) =~= segsv.skip(t as int + 1));
        }
        match find_by_name(nodes, &cs, segs[t].as_str()) {
            Some(c) => {
                cur = c;
            },
            None => {
                return None;
            },
        }
        t += 1;
    }
    proof {
        assert(segsv.skip(segs@.len() as int).len() == 0);
    }
    Some(cur)
}

/// Resolves a user-supplied reference against the snapshot: a reference in
/// the reserved handle syntax (`H:` followed by the handle) is looked up
/// directly, anything else is walked as a slash-separated path from a root.
pub open spec fn resolve_reference_spec(s: Seq<NodeView>, refr: Seq<char>) -> Option<NodeView> {
    if refr.len() >= 2 && refr[0] == 'H' && refr[1] == ':' {
        let h = refr.skip(2);
        if has_handle(s, h) {
            Some(node_of(s, h))
        } else {
            None
        }
    } else {
        match resolve_path_spec(s, refr) {
            Some(i) => Some(s[i]),
            None => None,
        }
    }
}

/// Maps a reference (path or handle) to the node it names, or `NotFound`
/// exactly when no node matches. No side effects.
pub fn resolve_reference<'a>(nodes: &'a Snapshot, reference: &str) -> (r: Result<
    &'a Node,
    SyncError,
>)
    requires
        nodes.wf(),
    ensures
        match r {
            Ok(n) => resolve_reference_spec(nodes@, reference@) == Some(n@),
            Err(e) => e == SyncError::NotFound && resolve_reference_spec(
                nodes@,
                reference@,
            ) is None,
        },
{
    let n = reference.unicode_len();
    let is_handle_ref = n >= 2 && reference.get_char(0) == 'H' && reference.get_char(1) == ':';
    if is_handle_ref {
        let h = reference.substring_char(2, n);
        proof {
            assert(h@ == reference@.skip(2));
        }
        match nodes.get_node_by_handle(h) {
            Some(node) => Ok(node),
            None => Err(SyncError::NotFound),
        }
    } else {
        match resolve_path(nodes, reference) {
            Some(i) => Ok(&nodes.nodes[i]),
            None => Err(SyncError::NotFound),
        }
    }
}

} // verus!
