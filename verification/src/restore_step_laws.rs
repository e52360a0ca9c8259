//! What each step of a restore asks of the backing file system, said of the tables of the tracker.

use vstd::prelude::*;

use crate::calls::{HandlePlan, OpenCall};
use crate::errno::FsError;
use crate::model::{ancestor, is_within, BackendModel, NodePlace, TrackerModel};
use crate::nodes::NodeTable;
use crate::ordered::{in_order, lemma_in_order_lists};
use crate::request_laws::{read_goes_to_the_host_handle, write_goes_to_the_host_handle};
use crate::resolution::{
    all_resolvable, comes_before, lemma_resolution_exists, lemma_round_unique,
    lemma_within_has_round, resolution_order, resolution_sequence, round_of,
};
use crate::restore::{
    restore_plan, PendingLookup, PendingOpen, RestorePlan, RestoreStep, RestoreStepModel,
};
use crate::restore_laws::{
    belongs_to_node, is_finite_state, is_opened, restore_is_all_or_nothing, restored, succeeded,
};
use crate::state::places;
use crate::tracking::TrackingFileSystem;

verus! {

/// Whether `id` comes to the root after `depth` parents, and not before.
pub open spec fn lies_at_depth(nodes: Map<u64, NodePlace>, id: u64, depth: nat) -> bool {
    &&& ancestor(nodes, id, depth) == Some(1u64)
    &&& forall|fewer: nat| fewer < depth ==> ancestor(nodes, id, fewer) != Some(1u64)
}

/// A chain of parents starts at the node, and goes on with the parent that is kept for it.
pub proof fn chains_follow_the_parents(nodes: Map<u64, NodePlace>, id: u64, steps: nat)
    ensures
        ancestor(nodes, id, 0) == Some(id),
        nodes.contains_key(id) ==> ancestor(nodes, id, steps + 1) == ancestor(
            nodes,
            nodes[id].parent,
            steps,
        ),
        !nodes.contains_key(id) ==> ancestor(nodes, id, steps + 1) is None,
{
}

/// The nodes that are looked up are all that are kept but the root, as far as their chain of
/// parents comes to the root; each is looked up once; and those nearer to the root come first, and
/// of those equally near the lower.
pub proof fn nodes_are_looked_up_by_depth(nodes: Map<u64, NodePlace>)
    requires
        nodes.dom().finite(),
    ensures
        ({
            let order = resolution_sequence(nodes);
            &&& forall|id: u64|
                order.contains(id) <==> nodes.contains_key(id) && id != 1 && exists|depth: nat|
                    lies_at_depth(nodes, id, depth)
            &&& forall|i: int, j: int, a: nat, b: nat|
                0 <= i < j < order.len() && #[trigger] lies_at_depth(nodes, order[i], a)
                    && #[trigger] lies_at_depth(nodes, order[j], b) ==> a < b || (a == b && order[i]
                    < order[j])
            &&& all_resolvable(nodes) <==> forall|id: u64| #[trigger]
                nodes.contains_key(id) && id != 1 ==> exists|depth: nat|
                    lies_at_depth(nodes, id, depth)
        }),
{
    let order = resolution_sequence(nodes);
    lemma_resolution_exists(nodes);
    assert forall|id: u64| is_within(nodes, 1, id) <==> exists|depth: nat|
        lies_at_depth(nodes, id, depth) by {
        if is_within(nodes, 1, id) {
            lemma_within_has_round(nodes, id);
            assert(lies_at_depth(nodes, id, round_of(nodes, id)));
        }
        if exists|depth: nat| lies_at_depth(nodes, id, depth) {
            let depth = choose|depth: nat| lies_at_depth(nodes, id, depth);
            assert(ancestor(nodes, id, depth) == Some(1u64));
        }
    }
    assert forall|i: int, j: int, a: nat, b: nat|
        0 <= i < j < order.len() && #[trigger] lies_at_depth(nodes, order[i], a)
            && #[trigger] lies_at_depth(nodes, order[j], b) implies a < b || (a == b && order[i]
        < order[j]) by {
        assert(comes_before(nodes, order[i], order[j]));
        lemma_round_unique(nodes, order[i], a);
        lemma_round_unique(nodes, order[j], b);
    }
    assert(all_resolvable(nodes) <==> forall|id: u64| #[trigger]
        nodes.contains_key(id) && id != 1 ==> exists|depth: nat| lies_at_depth(nodes, id, depth))
        by {
        if all_resolvable(nodes) {
            assert forall|id: u64| #[trigger] nodes.contains_key(id) && id != 1 implies exists|
                depth: nat,
            |
                lies_at_depth(nodes, id, depth) by {
                assert(is_within(nodes, 1, id));
            }
        }
    }
}

/// The order of the lookups is the one that [`nodes_are_looked_up_by_depth`] describes, and it is
/// told whether it holds every node.
pub proof fn the_order_is_by_depth(table: NodeTable, resolved: (Vec<u64>, bool))
    requires
        call_ensures(resolution_order, (&table,), resolved),
        table@.dom().finite(),
    ensures
        forall|id: u64|
            resolved.0@.contains(id) <==> table@.contains_key(id) && id != 1 && exists|depth: nat|
                lies_at_depth(places(table@), id, depth),
        forall|i: int, j: int, a: nat, b: nat|
            0 <= i < j < resolved.0@.len() && #[trigger] lies_at_depth(
                places(table@),
                resolved.0@[i],
                a,
            ) && #[trigger] lies_at_depth(places(table@), resolved.0@[j], b) ==> a < b || (a == b
                && resolved.0@[i] < resolved.0@[j]),
        resolved.1 <==> forall|id: u64| #[trigger]
            table@.contains_key(id) && id != 1 ==> resolved.0@.contains(id),
{
    let nodes = places(table@);
    assert(nodes.dom() =~= table@.dom());
    nodes_are_looked_up_by_depth(nodes);
    assert forall|id: u64|
        resolved.0@.contains(id) <==> table@.contains_key(id) && id != 1 && exists|depth: nat|
            lies_at_depth(nodes, id, depth) by {
        assert(nodes.contains_key(id) <==> table@.contains_key(id));
    }
    if resolved.1 {
        assert forall|id: u64| #[trigger] table@.contains_key(id) && id != 1 implies
            resolved.0@.contains(id) by {
            assert(nodes.contains_key(id));
        }
    }
    if forall|id: u64| #[trigger]
        table@.contains_key(id) && id != 1 ==> resolved.0@.contains(id) {
        assert forall|id: u64| #[trigger] nodes.contains_key(id) && id != 1 implies exists|
            depth: nat,
        |
            lies_at_depth(nodes, id, depth) by {
            assert(table@.contains_key(id));
        }
    }
}

/// The plan of a restore holds the nodes in the order of the lookups, each with its parent and its
/// name, and the handles from the lowest up, each with its node, its flags and its kind.
pub proof fn the_plan_holds_what_was_kept(backend: BackendModel)
    requires
        is_finite_state(backend),
    ensures
        ({
            let plan = restore_plan(backend);
            let order = resolution_sequence(backend.nodes);
            &&& plan.nodes.len() == order.len()
            &&& forall|i: int|
                0 <= i < order.len() ==> (#[trigger] plan.nodes[i]).0 == order[i] && plan.nodes[i].1
                    == backend.nodes[order[i]]
            &&& plan.complete <==> forall|id: u64| #[trigger]
                backend.nodes.contains_key(id) && id != 1 ==> order.contains(id)
            &&& forall|i: int, j: int|
                0 <= i < j < plan.handles.len() ==> plan.handles[i].0 < plan.handles[j].0
            &&& forall|i: int|
                0 <= i < plan.handles.len() ==> backend.handles.contains_key(
                    (#[trigger] plan.handles[i]).0,
                ) && plan.handles[i].1 == backend.handles[plan.handles[i].0]
            &&& forall|h: u64| #[trigger]
                backend.handles.contains_key(h) ==> exists|i: int|
                    0 <= i < plan.handles.len() && (#[trigger] plan.handles[i]).0 == h
        }),
{
    let plan = restore_plan(backend);
    let order = resolution_sequence(backend.nodes);
    let numbers = in_order(backend.handles.dom());
    lemma_in_order_lists(backend.handles.dom());
    nodes_are_looked_up_by_depth(backend.nodes);
    assert forall|i: int| 0 <= i < plan.handles.len() implies backend.handles.contains_key(
        (#[trigger] plan.handles[i]).0,
    ) && plan.handles[i].1 == backend.handles[plan.handles[i].0] by {
        assert(numbers.contains(numbers[i]));
        assert(backend.handles.dom().contains(numbers[i]));
    }
    assert forall|h: u64| #[trigger] backend.handles.contains_key(h) implies exists|i: int|
        0 <= i < plan.handles.len() && (#[trigger] plan.handles[i]).0 == h by {
        assert(backend.handles.dom().contains(h));
        assert(numbers.contains(h));
        let i = choose|i: int| 0 <= i < numbers.len() && numbers[i] == h;
        assert(plan.handles[i].0 == h);
    }
    if plan.complete {
        assert forall|id: u64| #[trigger] backend.nodes.contains_key(id) && id != 1 implies
            order.contains(id) by {}
    }
    if forall|id: u64| #[trigger]
        backend.nodes.contains_key(id) && id != 1 ==> order.contains(id) {
        assert forall|id: u64| #[trigger] backend.nodes.contains_key(id) && id != 1 implies exists|
            depth: nat,
        |
            lies_at_depth(backend.nodes, id, depth) by {
            assert(order.contains(id));
        }
    }
}

/// Whether `step` is what comes next where `plan` is left to restore and `t` is tracked: the first
/// node, looked up by its name in the host inode of its parent; once there is none, error 22 where
/// nodes were left out; then the first handle, opened as the kind and with the flags that were kept
/// for it on the host inode of its node; and once there is none, success. A parent or a node that
/// is not known ends it with error 2.
pub open spec fn is_next_step<E>(
    t: TrackerModel,
    plan: RestorePlan,
    step: RestoreStepModel<E>,
) -> bool {
    match step {
        RestoreStepModel::Lookup { host_parent, name, guest_node, rest } => {
            &&& plan.nodes.len() > 0
            &&& t.guest_to_host_inodes.contains_key(plan.nodes[0].1.parent)
            &&& host_parent == t.guest_to_host_inodes[plan.nodes[0].1.parent]
            &&& name == plan.nodes[0].1.name
            &&& guest_node == plan.nodes[0].0
            &&& rest.nodes == plan.nodes.drop_first()
            &&& rest.complete == plan.complete
            &&& rest.handles == plan.handles
        },
        RestoreStepModel::Open { call, guest_handle, rest } => {
            &&& plan.nodes.len() == 0
            &&& plan.complete
            &&& plan.handles.len() > 0
            &&& t.guest_to_host_inodes.contains_key(plan.handles[0].1.nodeid)
            &&& guest_handle == plan.handles[0].0
            &&& plan.handles[0].1.is_dir ==> call == (OpenCall::Dir {
                inode: t.guest_to_host_inodes[plan.handles[0].1.nodeid],
                flags: plan.handles[0].1.flags,
            })
            &&& !plan.handles[0].1.is_dir ==> call == (OpenCall::File {
                inode: t.guest_to_host_inodes[plan.handles[0].1.nodeid],
                flags: plan.handles[0].1.flags,
                fuse_flags: 0,
            })
            &&& rest.nodes == plan.nodes
            &&& rest.complete
            &&& rest.handles == plan.handles.drop_first()
        },
        RestoreStepModel::Done(Ok(_)) => {
            &&& plan.nodes.len() == 0
            &&& plan.complete
            &&& plan.handles.len() == 0
        },
        RestoreStepModel::Done(Err(FsError::Os(code))) => {
            ||| code == 2 && plan.nodes.len() > 0 && !t.guest_to_host_inodes.contains_key(
                plan.nodes[0].1.parent,
            )
            ||| code == 22 && plan.nodes.len() == 0 && !plan.complete
            ||| code == 2 && plan.nodes.len() == 0 && plan.complete && plan.handles.len() > 0
                && !t.guest_to_host_inodes.contains_key(plan.handles[0].1.nodeid)
        },
        RestoreStepModel::Done(Err(FsError::Backend(_))) => false,
    }
}

/// What is said of a step is said of what it asks for.
pub proof fn steps_are_seen_whole<E>(step: RestoreStep<E>)
    ensures
        match step {
            RestoreStep::Lookup(pending) => {
                &&& step@ matches RestoreStepModel::Lookup { host_parent, name, guest_node, rest }
                &&& host_parent == pending.host_parent
                &&& name == pending.name@
                &&& guest_node == pending.guest_node
                &&& rest == pending.rest@
            },
            RestoreStep::Open(pending) => {
                &&& step@ matches RestoreStepModel::Open { call, guest_handle, rest }
                &&& call == pending.call
                &&& guest_handle == pending.guest_handle
                &&& rest == pending.rest@
            },
            RestoreStep::Done(outcome) => step@ == RestoreStepModel::<E>::Done(outcome),
        },
{
}

/// A restore starts with the first step of the plan for all that is kept.
pub proof fn a_restore_starts_with_its_plan<E>(tracker: TrackingFileSystem, step: RestoreStep<E>)
    requires
        call_ensures(TrackingFileSystem::restore_state::<E>, (&tracker,), step),
    ensures
        is_next_step(tracker@, restore_plan(tracker@.backend), step@),
{
}

/// A node that was found stands for the inode found, on both sides, and the restore goes on. A
/// lookup that failed ends it with its error, and nothing changes.
pub proof fn a_found_node_is_paired<E>(
    pending: PendingLookup,
    tracker: &mut TrackingFileSystem,
    reply: Result<u64, E>,
    step: RestoreStep<E>,
)
    requires
        call_ensures(PendingLookup::resume::<E>, (pending, tracker, reply), step),
    ensures
        ({
            let before = old(tracker)@;
            let after = final(tracker)@;
            match reply {
                Ok(host_node) => {
                    &&& after.guest_to_host_inodes == before.guest_to_host_inodes.insert(
                        pending.guest_node,
                        host_node,
                    )
                    &&& after.host_to_guest_inodes == before.host_to_guest_inodes.insert(
                        host_node,
                        pending.guest_node,
                    )
                    &&& after.guest_to_host_handles == before.guest_to_host_handles
                    &&& after.host_to_guest_handles == before.host_to_guest_handles
                    &&& after.backend == before.backend
                    &&& is_next_step(after, pending.rest@, step@)
                },
                Err(e) => after == before && step@ == RestoreStepModel::<E>::Done(
                    Err(FsError::Backend(e)),
                ),
            }
        }),
{
}

/// A handle that was opened stands for the handle given, on both sides, and the restore goes on. An
/// open that failed ends it with its error, and one that gave no handle with error 5; nothing
/// changes then.
pub proof fn an_opened_handle_is_paired<E>(
    pending: PendingOpen,
    tracker: &mut TrackingFileSystem,
    reply: Result<Option<u64>, E>,
    step: RestoreStep<E>,
)
    requires
        call_ensures(PendingOpen::resume::<E>, (pending, tracker, reply), step),
    ensures
        ({
            let before = old(tracker)@;
            let after = final(tracker)@;
            match reply {
                Ok(Some(host_handle)) => {
                    &&& after.guest_to_host_handles == before.guest_to_host_handles.insert(
                        pending.guest_handle,
                        host_handle,
                    )
                    &&& after.host_to_guest_handles == before.host_to_guest_handles.insert(
                        host_handle,
                        pending.guest_handle,
                    )
                    &&& after.guest_to_host_inodes == before.guest_to_host_inodes
                    &&& after.host_to_guest_inodes == before.host_to_guest_inodes
                    &&& after.backend == before.backend
                    &&& is_next_step(after, pending.rest@, step@)
                },
                Ok(None) => after == before && step@ == RestoreStepModel::<E>::Done(
                    Err(FsError::Os(5)),
                ),
                Err(e) => after == before && step@ == RestoreStepModel::<E>::Done(
                    Err(FsError::Backend(e)),
                ),
            }
        }),
{
}

/// After a restore, reads and writes on a handle that was kept go to the handle that its open gave
/// and to the inode that was found for its node, whatever their numbers are.
pub proof fn restored_handles_serve_requests<E>(
    backend: BackendModel,
    lookups: Seq<Result<u64, E>>,
    opens: Seq<Result<Option<u64>, E>>,
    i: int,
    tracker: TrackingFileSystem,
    read: Result<HandlePlan, i32>,
    write: Result<HandlePlan, i32>,
)
    requires
        is_finite_state(backend),
        succeeded(restored(backend, lookups, opens).1),
        tracker@ == restored(backend, lookups, opens).0,
        0 <= i < in_order(backend.handles.dom()).len(),
        opens[i] matches Ok(Some(given)) ==> given != 0,
        ({
            let handle = in_order(backend.handles.dom())[i];
            let nodeid = backend.handles[handle].nodeid;
            &&& call_ensures(TrackingFileSystem::read, (&tracker, nodeid, handle), read)
            &&& call_ensures(TrackingFileSystem::write, (&tracker, nodeid, handle), write)
        }),
    ensures
        ({
            let nodeid = backend.handles[in_order(backend.handles.dom())[i]].nodeid;
            let order = resolution_sequence(backend.nodes);
            &&& opens[i] matches Ok(Some(given)) && {
                &&& read matches Ok(HandlePlan::Ready(call)) && call.handle == given
                    && call.release is None && (nodeid == 1 ==> call.inode == 1) && forall|j: int|
                    0 <= j < order.len() && order[j] == nodeid ==> call.inode == (
                    #[trigger] lookups[j])->Ok_0
                &&& write matches Ok(HandlePlan::Ready(call)) && call.handle == given
                    && call.release is None && (nodeid == 1 ==> call.inode == 1) && forall|j: int|
                    0 <= j < order.len() && order[j] == nodeid ==> call.inode == (
                    #[trigger] lookups[j])->Ok_0
            }
        }),
{
    let numbers = in_order(backend.handles.dom());
    let handle = numbers[i];
    let nodeid = backend.handles[handle].nodeid;
    restore_is_all_or_nothing(backend, lookups, opens);
    lemma_in_order_lists(backend.handles.dom());
    assert(numbers.contains(handle));
    assert(backend.handles.dom().contains(handle));
    assert(backend.handles.contains_key(handle));
    assert(is_opened(tracker@, numbers[i], opens[i]));
    assert(belongs_to_node(backend, handle));
    assert(tracker@.host_inode(nodeid) is Some);
    read_goes_to_the_host_handle(tracker, nodeid, handle, read);
    write_goes_to_the_host_handle(tracker, nodeid, handle, write);
}

} // verus!
