use vstd::prelude::*;

use crate::events::apply_events_view;
use crate::events::ChangeEvent;
use crate::model::has_handle;
use crate::model::node_of;
use crate::model::Node;
use crate::model::NodeView;
use crate::model::Snapshot;
use crate::strings::clone_string;

verus! {

/// What one event means for the user: which structural change happened, and
/// the handle and display name of the node it concerns.
#[derive(Debug, Clone, Copy, PartialEq, Eq, Structural)]
pub enum EventAction {
    Created,
    Updated,
    Deleted,
}

/// One line of structural-change reporting.
#[derive(Debug)]
pub struct EventReport {
    pub action: EventAction,
    pub handle: String,
    pub name: String,
}

/// The mathematical value of an [`EventReport`].
#[verifier::ext_equal]
pub ghost struct EventReportView {
    pub action: EventAction,
    pub handle: Seq<char>,
    pub name: Seq<char>,
}

impl View for EventReport {
    type V = EventReportView;

    open spec fn view(&self) -> EventReportView {
        EventReportView { action: self.action, handle: self.handle@, name: self.name@ }
    }
}

/// The reports for one event, resolved against the snapshot as it stood
/// before the batch: a creation is reported from the event's own nodes; an
/// update or deletion is reported only when the snapshot still resolves the
/// handle, and is silently skipped otherwise.
pub open spec fn event_reports(s: Seq<NodeView>, e: ChangeEvent) -> Seq<EventReportView> {
    match e {
        ChangeEvent::NodeCreated { nodes } => nodes@.map_values(
            |n: Node|
                EventReportView { action: EventAction::Created, handle: n@.handle, name: n@.name },
        ),
        ChangeEvent::NodeUpdated { attrs } => if has_handle(s, attrs.handle@) {
            seq![
                EventReportView {
                    action: EventAction::Updated,
                    handle: node_of(s, attrs.handle@).handle,
                    name: node_of(s, attrs.handle@).name,
                },
            ]
        } else {
            Seq::empty()
        },
        ChangeEvent::NodeDeleted { handle } => if has_handle(s, handle@) {
            seq![
                EventReportView {
                    action: EventAction::Deleted,
                    handle: node_of(s, handle@).handle,
                    name: node_of(s, handle@).name,
                },
            ]
        } else {
            Seq::empty()
        },
    }
}

/// The reports for a whole batch, in delivery order.
pub open spec fn batch_reports(s: Seq<NodeView>, es: Seq<ChangeEvent>) -> Seq<EventReportView>
    decreases es.len(),
{
    if es.len() == 0 {
        Seq::empty()
    } else {
        event_reports(s, es[0]) + batch_reports(s, es.skip(1))
    }
}

/// What one turn of the live sync loop did: it either honored a
/// cancellation, leaving the snapshot untouched, or applied one event batch.
#[derive(Debug)]
pub enum SyncStep {
    Cancelled,
    Applied { reports: Vec<EventReport> },
}

/// Builds the report lines for one event against the current snapshot.
fn describe_event(snapshot: &Snapshot, event: &ChangeEvent) -> (r: Vec<EventReport>)
    requires
        snapshot.wf(),
    ensures
        r@.map_values(|x: EventReport| x@) == event_reports(snapshot@, *event),
{
    let ghost s = snapshot@;
    let mut out: Vec<EventReport> = Vec::new();
    match event {
        ChangeEvent::NodeCreated { nodes } => {
            let ghost goal = nodes@.map_values(
                |n: Node|
                    EventReportView {
                        action: EventAction::Created,
                        handle: n@.handle,
                        name: n@.name,
                    },
            );
            let mut i: usize = 0;
            proof {
                assert(out@.map_values(|x: EventReport| x@) =~= goal.take(0));
            }
            while i < nodes.len()
                invariant
                    i <= nodes@.len(),
                    goal == nodes@.map_values(
                        |n: Node|
                            EventReportView {
                                action: EventAction::Created,
                                handle: n@.handle,
                                name: n@.name,
                            },
                    ),
                    out@.map_values(|x: EventReport| x@) == goal.take(i as int),
                decreases nodes@.len() - i,
            {
                let node = &nodes[i];
                out.push(
                    EventReport {
                        action: EventAction::Created,
                        handle: clone_string(&node.handle),
                        name: clone_string(&node.name),
                    },
                );
                proof {
                    assert(goal.take(i + 1) =~= goal.take(i as int).push(goal[i as int]));
                    assert(out@.map_values(|x: EventReport| x@) =~= goal.take(i + 1));
                }
                i += 1;
            }
            proof {
                assert(goal.take(nodes@.len() as int) =~= goal);
            }
        },
        ChangeEvent::NodeUpdated { attrs } => {
            match snapshot.get_node_by_handle(attrs.handle.as_str()) {
                Some(node) => {
                    out.push(
                        EventReport {
                            action: EventAction::Updated,
                            handle: clone_string(&node.handle),
                            name: clone_string(&node.name),
                        },
                    );
                    proof {
                        assert(out@.map_values(|x: EventReport| x@) =~= event_reports(s, *event));
                    }
                },
                None => {
                    proof {
                        assert(out@.map_values(|x: EventReport| x@) =~= event_reports(s, *event));
                    }
                },
            }
        },
        ChangeEvent::NodeDeleted { handle } => {
            match snapshot.get_node_by_handle(handle.as_str()) {
                Some(node) => {
                    out.push(
                        EventReport {
                            action: EventAction::Deleted,
                            handle: clone_string(&node.handle),
                            name: clone_string(&node.name),
                        },
                    );
                    proof {
                        assert(out@.map_values(|x: EventReport| x@) =~= event_reports(s, *event));
                    }
                },
                None => {
                    proof {
                        assert(out@.map_values(|x: EventReport| x@) =~= event_reports(s, *event));
                    }
                },
            }
        },
    }
    out
}

/// One turn of the live sync loop, past its waiting point.
///
/// The cancellation signal is checked first: when it has fired, the loop
/// exits cleanly without applying the batch that may have become ready at
/// the same moment, and the snapshot is left exactly as it was. Otherwise
/// the batch's reports are resolved against the snapshot as delivered, and
/// the whole batch is then applied in order.
pub fn sync_step(snapshot: &mut Snapshot, cancel_requested: bool, batch: Vec<ChangeEvent>) -> (r:
    SyncStep)
    requires
        old(snapshot).wf(),
    ensures
        final(snapshot).wf(),
        cancel_requested ==> r is Cancelled && final(snapshot)@ == old(snapshot)@,
        !cancel_requested ==> final(snapshot)@ == apply_events_view(old(snapshot)@, batch@)
            && match r {
            SyncStep::Applied { reports } => reports@.map_values(|x: EventReport| x@)
                == batch_reports(old(snapshot)@, batch@),
            SyncStep::Cancelled => false,
        },
{
    if cancel_requested {
        return SyncStep::Cancelled;
    }
    let ghost s = snapshot@;
    let mut reports: Vec<EventReport> = Vec::new();
    let mut i: usize = 0;
    proof {
        assert(batch@.skip(0) =~= batch@);
        assert(reports@.map_values(|x: EventReport| x@) + batch_reports(s, batch@) =~= batch_reports(
            s,
            batch@,
        ));
    }
    while i < batch.len()
        invariant
            snapshot.wf(),
            s == snapshot@,
            i <= batch@.len(),
            reports@.map_values(|x: EventReport| x@) + batch_reports(s, batch@.skip(i as int))
                == batch_reports(s, batch@),
        decreases batch@.len() - i,
    {
        let mut chunk = describe_event(snapshot, &batch[i]);
        let ghost prevv = reports@.map_values(|x: EventReport| x@);
        let ghost chunkv = chunk@.map_values(|x: EventReport| x@);
        reports.append(&mut chunk);
        proof {
            assert(batch@.skip(i as int)[0] == batch@[i as int]);
            assert(batch@.skip(i as int).skip(1) =~= batch@.skip(i as int + 1));
            assert(reports@.map_values(|x: EventReport| x@) =~= prevv + chunkv);
            assert((prevv + chunkv) + batch_reports(s, batch@.skip(i as int + 1)) =~= prevv + (
            chunkv + batch_reports(s, batch@.skip(i as int + 1))));
        }
        i += 1;
    }
    proof {
        assert(batch@.skip(batch@.len() as int).len() == 0);
        assert(reports@.map_values(|x: EventReport| x@) + Seq::<EventReportView>::empty()
            =~= reports@.map_values(|x: EventReport| x@));
    }
    snapshot.apply_events(&batch);
    SyncStep::Applied { reports }
}

} // verus!
