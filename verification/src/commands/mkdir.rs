use vstd::prelude::*;
use vstd::string::StrSliceExecFns;
use vstd::string::StringExecFns;

use crate::events::ChangeEvent;
use crate::model::Node;
use crate::paths::PathPair;
use crate::paths::PathPairView;

verus! {

/// Options for creating folders within the remote store.
#[derive(Debug)]
pub struct Opts {
    /// Create parent folders as needed.
    pub parents: bool,
    /// Display path of the folder to create.
    pub path: String,
}

impl Opts {
    pub fn may_need_user_session(&self) -> (r: bool)
        ensures
            r == true,
    {
        true
    }
}

/// `p` without its trailing path separators.
pub open spec fn trim_trailing_slashes(p: Seq<char>) -> Seq<char>
    decreases p.len(),
{
    if p.len() > 0 && p[p.len() - 1] == '/' {
        trim_trailing_slashes(p.drop_last())
    } else {
        p
    }
}

/// The step a separator at `q` contributes: its prefix as the parent path
/// and the characters up to `e` as the folder name. The separator at
/// position zero contributes nothing, as its parent path is empty and
/// names no folder.
pub open spec fn emit_step(t: Seq<char>, q: int, e: int) -> Seq<PathPairView> {
    if q == 0 {
        Seq::empty()
    } else {
        seq![PathPairView { parent: t.take(q), name: t.subrange(q + 1, e) }]
    }
}

/// The folder-creation steps contributed by the separators of `t` from
/// position `i` onward, `last` being the position of the separator most
/// recently seen.
pub open spec fn steps_from(t: Seq<char>, i: int, last: Option<int>) -> Seq<PathPairView>
    decreases t.len() - i,
{
    if i < 0 || i >= t.len() {
        match last {
            Some(q) => emit_step(t, q, t.len() as int),
            None => Seq::empty(),
        }
    } else if t[i] == '/' {
        match last {
            Some(q) => emit_step(t, q, i) + steps_from(t, i + 1, Some(i)),
            None => steps_from(t, i + 1, Some(i)),
        }
    } else {
        steps_from(t, i + 1, last)
    }
}

/// The folder-creation steps of a display path, outermost first: one step
/// per separator (trailing separators dropped), each pairing the parent
/// path before the separator with the segment after it.
pub open spec fn mkdir_steps_spec(p: Seq<char>) -> Seq<PathPairView> {
    steps_from(trim_trailing_slashes(p), 0, None)
}

/// Trimming only discards trailing separators.
proof fn lemma_trim_slashes_take(p: Seq<char>, r: int)
    requires
        0 <= r <= p.len(),
        forall|j: int| r <= j < p.len() ==> p[j] == '/',
        r > 0 ==> p[r - 1] != '/',
    ensures
        trim_trailing_slashes(p) =~= p.take(r),
    decreases p.len() - r,
{
    if r == p.len() {
        if p.len() > 0 {
            assert(p[p.len() - 1] != '/');
        }
        assert(p.take(r) =~= p);
    } else {
        assert(p[p.len() - 1] == '/');
        lemma_trim_slashes_take(p.drop_last(), r);
        assert(p.drop_last().take(r) =~= p.take(r));
    }
}

/// Computes the folder-creation steps of a display path, outermost first:
/// each step names the parent path to look up and the folder to create
/// under it.
pub fn mkdir_steps(path: &str) -> (r: Vec<PathPair>)
    ensures
        r@.map_values(|x: PathPair| x@) == mkdir_steps_spec(path@),
{
    let ghost p = path@;
    let n = path.unicode_len();
    // drop trailing separators
    let mut end: usize = n;
    while end > 0
        invariant_except_break
            p == path@,
            n == p.len(),
            end <= n,
            forall|j: int| end <= j < n ==> p[j] == '/',
        ensures
            p == path@,
            n == p.len(),
            end <= n,
            forall|j: int| end <= j < n ==> p[j] == '/',
            end > 0 ==> p[end - 1] != '/',
        decreases end,
    {
        if path.get_char(end - 1) != '/' {
            break;
        }
        end -= 1;
    }
    let ghost t = trim_trailing_slashes(p);
    proof {
        lemma_trim_slashes_take(p, end as int);
    }
    let mut out: Vec<PathPair> = Vec::new();
    let mut last_q: usize = 0;
    let mut has_last = false;
    let mut i: usize = 0;
    proof {
        assert(out@.map_values(|x: PathPair| x@) =~= Seq::<PathPairView>::empty());
        assert(Seq::<PathPairView>::empty() + steps_from(t, 0, None) =~= steps_from(t, 0, None));
    }
    while i < end
        invariant
            p == path@,
            n == p.len(),
            end <= n,
            t == trim_trailing_slashes(p),
            t =~= p.take(end as int),
            i <= end,
            has_last ==> last_q < i && p[last_q as int] == '/',
            steps_from(t, 0, None) == out@.map_values(|x: PathPair| x@) + steps_from(
                t,
                i as int,
                if has_last {
                    Some(last_q as int)
                } else {
                    None
                },
            ),
        decreases end - i,
    {
        let ghost outv = out@.map_values(|x: PathPair| x@);
        let c = path.get_char(i);
        if c == '/' {
            if has_last && last_q > 0 {
                let parent = String::from_str(path.substring_char(0, last_q));
                let name = String::from_str(path.substring_char(last_q + 1, i));
                proof {
                    assert(parent@ =~= t.take(last_q as int));
                    assert(name@ =~= t.subrange(last_q + 1, i as int));
                }
                out.push(PathPair { parent, name });
                proof {
                    assert(out@.map_values(|x: PathPair| x@) =~= outv + emit_step(
                        t,
                        last_q as int,
                        i as int,
                    ));
                    assert((outv + emit_step(t, last_q as int, i as int)) + steps_from(
                        t,
                        i + 1,
                        Some(i as int),
                    ) =~= outv + (emit_step(t, last_q as int, i as int) + steps_from(
                        t,
                        i + 1,
                        Some(i as int),
                    )));
                }
            } else {
                proof {
                    if has_last {
                        assert(emit_step(t, last_q as int, i as int) =~= Seq::<
                            PathPairView,
                        >::empty());
                        assert(outv + (emit_step(t, last_q as int, i as int) + steps_from(
                            t,
                            i + 1,
                            Some(i as int),
                        )) =~= outv + steps_from(t, i + 1, Some(i as int)));
                    }
                }
            }
            last_q = i;
            has_last = true;
        }
        i += 1;
    }
    if has_last && last_q > 0 {
        let ghost outv = out@.map_values(|x: PathPair| x@);
        let parent = String::from_str(path.substring_char(0, last_q));
        let name = String::from_str(path.substring_char(last_q + 1, end));
        proof {
            assert(parent@ =~= t.take(last_q as int));
            assert(name@ =~= t.subrange(last_q + 1, t.len() as int));
        }
        out.push(PathPair { parent, name });
        proof {
            assert(out@.map_values(|x: PathPair| x@) =~= outv + emit_step(
                t,
                last_q as int,
                t.len() as int,
            ));
        }
    } else {
        proof {
            if has_last {
                assert(emit_step(t, last_q as int, t.len() as int) =~= Seq::<
                    PathPairView,
                >::empty());
            }
            assert(out@.map_values(|x: PathPair| x@) + Seq::<PathPairView>::empty() =~= out@
                .map_values(|x: PathPair| x@));
        }
    }
    out
}

/// Whether one event of the batch acknowledges the creation of a folder
/// named `name` under the parent carrying `parent_handle`.
pub open spec fn event_acknowledges(e: ChangeEvent, name: Seq<char>, parent: Seq<char>) -> bool {
    match e {
        ChangeEvent::NodeCreated { nodes } => exists|j: int|
            #![auto]
            0 <= j < nodes@.len() && nodes@[j]@.name == name && nodes@[j]@.parent == Some(parent),
        _ => false,
    }
}

/// Whether any event of the batch acknowledges that creation.
pub open spec fn creation_acknowledged_spec(
    es: Seq<ChangeEvent>,
    name: Seq<char>,
    parent: Seq<char>,
) -> bool {
    exists|i: int| #![auto] 0 <= i < es.len() && event_acknowledges(es[i], name, parent)
}

/// Scans the nodes of one creation event for a folder named `name` under
/// the parent carrying `parent`.
fn batch_has_creation(nodes: &Vec<Node>, name: &str, parent: &str) -> (r: bool)
    ensures
        r == exists|j: int|
            #![auto]
            0 <= j < nodes@.len() && nodes@[j]@.name == name@ && nodes@[j]@.parent == Some(
                parent@,
            ),
{
    let mut j: usize = 0;
    while j < nodes.len()
        invariant
            j <= nodes@.len(),
            forall|m: int| #![auto]
                0 <= m < j ==> !(nodes@[m]@.name == name@ && nodes@[m]@.parent == Some(parent@)),
        decreases nodes@.len() - j,
    {
        let node: &Node = &nodes[j];
        let name_matches = crate::strings::str_eq(node.name.as_str(), name);
        let parent_matches = match &node.parent {
            Some(ph) => crate::strings::str_eq(ph.as_str(), parent),
            None => false,
        };
        if name_matches && parent_matches {
            return true;
        }
        j += 1;
    }
    false
}

/// Scans an event batch for the creation of a folder named `folder_name`
/// under the parent carrying `parent_handle`: the signal that a just-issued
/// folder creation has reached the catalog.
pub fn creation_acknowledged(
    events: &Vec<ChangeEvent>,
    folder_name: &str,
    parent_handle: &str,
) -> (r: bool)
    ensures
        r == creation_acknowledged_spec(events@, folder_name@, parent_handle@),
{
    let mut i: usize = 0;
    while i < events.len()
        invariant
            i <= events@.len(),
            forall|k: int| #![auto]
                0 <= k < i ==> !event_acknowledges(events@[k], folder_name@, parent_handle@),
        decreases events@.len() - i,
    {
        let acknowledged = match &events[i] {
            ChangeEvent::NodeCreated { nodes } => batch_has_creation(
                nodes,
                folder_name,
                parent_handle,
            ),
            _ => false,
        };
        if acknowledged {
            proof {
                assert(event_acknowledges(events@[i as int], folder_name@, parent_handle@));
            }
            return true;
        }
        i += 1;
    }
    false
}

} // verus!
