use vstd::prelude::*;

use crate::model::NodeView;
use crate::model::Snapshot;
use crate::strings::lemma_str_le_total;
use crate::strings::str_le;
use crate::strings::str_le_exec;

verus! {

/// Options for listing remote nodes.
#[derive(Debug)]
pub struct Opts {
    /// Show node handles.
    pub show_handles: bool,
    /// The share link from which to list nodes.
    pub link: Option<String>,
    /// The password to use to decrypt the share link, if such is used.
    pub password: Option<String>,
    /// Display path or handle of the folder to list from.
    pub path: Option<String>,
}

impl Opts {
    pub fn may_need_user_session(&self) -> (r: bool)
        ensures
            r == (self.link is None && self.password is None),
    {
        self.link.is_none() && self.password.is_none()
    }
}

/// The display order between the nodes at indices `i` and `j`: folders
/// come before files, and within one kind names ascend lexicographically.
pub open spec fn display_le(s: Seq<NodeView>, i: int, j: int) -> bool {
    if s[i].kind == s[j].kind {
        str_le(s[i].name, s[j].name)
    } else {
        s[i].kind is Folder
    }
}

/// The display order is total.
proof fn lemma_display_le_total(s: Seq<NodeView>, i: int, j: int)
    requires
        0 <= i < s.len(),
        0 <= j < s.len(),
    ensures
        display_le(s, i, j) || display_le(s, j, i),
{
    if s[i].kind == s[j].kind {
        lemma_str_le_total(s[i].name, s[j].name);
    }
}

/// Decides the display order between two nodes of the snapshot.
fn display_le_exec(nodes: &Snapshot, i: usize, j: usize) -> (r: bool)
    requires
        i < nodes@.len(),
        j < nodes@.len(),
    ensures
        r == display_le(nodes@, i as int, j as int),
{
    let a = &nodes.nodes[i];
    let b = &nodes.nodes[j];
    if a.kind == b.kind {
        str_le_exec(a.name.as_str(), b.name.as_str())
    } else {
        a.kind.is_folder()
    }
}

/// Inserting an element anywhere adds exactly one occurrence of it.
proof fn lemma_insert_to_multiset(s: Seq<usize>, i: int, x: usize)
    requires
        0 <= i <= s.len(),
    ensures
        s.insert(i, x).to_multiset() == s.to_multiset().insert(x),
{
    broadcast use vstd::multiset::group_multiset_axioms;

    let t = s.insert(i, x);
    s.insert_ensures(i, x);
    assert(t.remove(i) =~= s) by {
        t.remove_ensures(i);
    }
    t.to_multiset_ensures();
    assert(t[i] == x);
    assert(s.to_multiset() =~= t.to_multiset().remove(x));
    assert(t.contains(x)) by {
        assert(t[i] == x);
    }
    assert(t.to_multiset().count(x) > 0);
    assert(t.to_multiset() =~= s.to_multiset().insert(x));
}

/// Reorders node indices for display: folders first, then files, each
/// group in ascending name order. The result is a permutation of the
/// input, with every adjacent pair in display order.
pub fn presentation_order(nodes: &Snapshot, indices: &Vec<usize>) -> (r: Vec<usize>)
    requires
        forall|k: int| 0 <= k < indices@.len() ==> #[trigger] indices@[k] < nodes@.len(),
    ensures
        r@.to_multiset() == indices@.to_multiset(),
        r@.len() == indices@.len(),
        forall|k: int| 0 <= k < r@.len() ==> #[trigger] r@[k] < nodes@.len(),
        forall|k: int|
            0 <= k && k + 1 < r@.len() ==> display_le(
                nodes@,
                (#[trigger] r@[k]) as int,
                r@[k + 1] as int,
            ),
{
    let ghost s = nodes@;
    let mut out: Vec<usize> = Vec::new();
    let mut t: usize = 0;
    proof {
        broadcast use vstd::multiset::group_multiset_axioms;

        out@.to_multiset_ensures();
        indices@.take(0).to_multiset_ensures();
        assert(out@.to_multiset() =~= indices@.take(0).to_multiset()) by {
            assert(forall|y: usize| !out@.contains(y) && !indices@.take(0).contains(y));
        }
    }
    while t < indices.len()
        invariant
            s == nodes@,
            forall|k: int| 0 <= k < indices@.len() ==> #[trigger] indices@[k] < s.len(),
            t <= indices@.len(),
            out@.len() == t,
            out@.to_multiset() == indices@.take(t as int).to_multiset(),
            forall|k: int| 0 <= k < out@.len() ==> #[trigger] out@[k] < s.len(),
            forall|k: int|
                0 <= k && k + 1 < out@.len() ==> display_le(
                    s,
                    (#[trigger] out@[k]) as int,
                    out@[k + 1] as int,
                ),
        decreases indices@.len() - t,
    {
        let x = indices[t];
        let mut pos: usize = out.len();
        while pos > 0
            invariant_except_break
                s == nodes@,
                x < s.len(),
                pos <= out@.len(),
                forall|k: int| 0 <= k < out@.len() ==> #[trigger] out@[k] < s.len(),
                pos < out@.len() ==> display_le(s, x as int, out@[pos as int] as int),
            ensures
                s == nodes@,
                pos <= out@.len(),
                pos < out@.len() ==> display_le(s, x as int, out@[pos as int] as int),
                pos > 0 ==> display_le(s, out@[pos - 1] as int, x as int),
            decreases pos,
        {
            if display_le_exec(nodes, out[pos - 1], x) {
                break;
            }
            proof {
                lemma_display_le_total(s, out@[pos - 1] as int, x as int);
            }
            pos -= 1;
        }
        let ghost before = out@;
        out.insert(pos, x);
        proof {
            out@.to_multiset_ensures();
            indices@.take(t as int).to_multiset_ensures();
            lemma_insert_to_multiset(before, pos as int, x);
            assert(indices@.take(t + 1) =~= indices@.take(t as int).push(indices@[t as int]));
            assert(indices@.take(t + 1).to_multiset() =~= indices@.take(
                t as int,
            ).to_multiset().insert(x)) by {
                indices@.take(t as int).to_multiset_ensures();
            }
            assert(out@.to_multiset() == indices@.take(t + 1).to_multiset());
            before.insert_ensures(pos as int, x);
            assert forall|k: int|
                0 <= k && k + 1 < out@.len() implies display_le(
                s,
                (#[trigger] out@[k]) as int,
                out@[k + 1] as int,
            ) by {
                if k + 1 < pos {
                    assert(out@[k] == before[k] && out@[k + 1] == before[k + 1]);
                } else if k + 1 == pos {
                    assert(out@[k] == before[k] && out@[k + 1] == x);
                } else if k == pos {
                    assert(out@[k] == x && out@[k + 1] == before[k]);
                } else {
                    assert(out@[k] == before[k - 1] && out@[k + 1] == before[k]);
                }
            }
        }
        t += 1;
    }
    proof {
        assert(indices@.take(indices@.len() as int) =~= indices@);
    }
    out
}

} // verus!
