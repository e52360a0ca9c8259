//! What a restore comes to, whatever the backing file system replies.

use vstd::prelude::*;

use crate::calls::OpenCall;
use crate::errno::{FsError, EINVAL, EIO, ENOENT};
use crate::laws::numbers_lead_back;
use crate::model::{ancestor, is_within, BackendModel, NodePlace, TrackerModel, ROOT_ID};
use crate::ordered::{in_order, lemma_in_order_lists, lists_in_order};
use crate::resolution::{
    all_resolvable, comes_before, is_resolution_order, is_resolvable, lemma_resolution_exists,
    lemma_round_of_child, lemma_round_unique, lemma_within_has_round, resolution_sequence,
    round_of,
};
use crate::restore::{
    after_lookup, after_open, first_step, reopening, restore_plan, RestorePlan, RestoreStepModel,
};

verus! {

/// Where a restore that stands at `step` comes to with these replies, in their order.
pub open spec fn run_restore<E>(
    t: TrackerModel,
    step: RestoreStepModel<E>,
    lookups: Seq<Result<u64, E>>,
    opens: Seq<Result<Option<u64>, E>>,
) -> (TrackerModel, RestoreStepModel<E>)
    decreases lookups.len() + opens.len(),
{
    match step {
        RestoreStepModel::Lookup { host_parent, name, guest_node, rest } => if lookups.len() > 0 {
            let (t1, step1) = after_lookup(t, guest_node, rest, lookups[0]);
            run_restore(t1, step1, lookups.drop_first(), opens)
        } else {
            (t, step)
        },
        RestoreStepModel::Open { call, guest_handle, rest } => if opens.len() > 0 {
            let (t1, step1) = after_open(t, guest_handle, rest, opens[0]);
            run_restore(t1, step1, lookups, opens.drop_first())
        } else {
            (t, step)
        },
        RestoreStepModel::Done(_) => (t, step),
    }
}

/// Where the restore of `backend` in a fresh backing file system comes to with these replies.
pub open spec fn restored<E>(
    backend: BackendModel,
    lookups: Seq<Result<u64, E>>,
    opens: Seq<Result<Option<u64>, E>>,
) -> (TrackerModel, RestoreStepModel<E>) {
    let t = TrackerModel::fresh(backend);
    run_restore(t, first_step(t, restore_plan(backend)), lookups, opens)
}

/// A restore that ended well.
pub open spec fn succeeded<E>(step: RestoreStepModel<E>) -> bool {
    step == RestoreStepModel::<E>::Done(Ok(()))
}

/// The reply to an open that gave a handle.
pub open spec fn gave_handle<E>(reply: Result<Option<u64>, E>) -> bool {
    reply matches Ok(handle) && handle is Some
}

/// Whether the guest's `handle` stands for the host handle that `reply` gave.
pub open spec fn is_opened<E>(
    t: TrackerModel,
    handle: u64,
    reply: Result<Option<u64>, E>,
) -> bool {
    &&& gave_handle(reply)
    &&& t.guest_to_host_handles.contains_key(handle)
    &&& t.guest_to_host_handles[handle] == reply->Ok_0->Some_0
}

/// Whether a node is known whenever it is the parent of the next to look up, and every lookup
/// finds something.
spec fn nodes_found<E>(
    t: TrackerModel,
    nodes: Seq<(u64, NodePlace)>,
    lookups: Seq<Result<u64, E>>,
) -> bool
    decreases nodes.len(),
{
    nodes.len() == 0 || {
        &&& t.guest_to_host_inodes.contains_key(nodes[0].1.parent)
        &&& lookups.len() > 0
        &&& lookups[0] is Ok
        &&& nodes_found(
            t.with_inode(lookups[0]->Ok_0, nodes[0].0),
            nodes.drop_first(),
            lookups.drop_first(),
        )
    }
}

/// What is tracked once the nodes were found by these lookups.
spec fn with_found<E>(
    t: TrackerModel,
    nodes: Seq<(u64, NodePlace)>,
    lookups: Seq<Result<u64, E>>,
) -> TrackerModel
    decreases nodes.len(),
{
    if nodes.len() == 0 {
        t
    } else {
        with_found(
            t.with_inode(lookups[0]->Ok_0, nodes[0].0),
            nodes.drop_first(),
            lookups.drop_first(),
        )
    }
}

proof fn lemma_found_needs_lookups<E>(
    t: TrackerModel,
    nodes: Seq<(u64, NodePlace)>,
    lookups: Seq<Result<u64, E>>,
)
    requires
        nodes_found(t, nodes, lookups),
    ensures
        lookups.len() >= nodes.len(),
    decreases nodes.len(),
{
    if nodes.len() > 0 {
        lemma_found_needs_lookups(
            t.with_inode(lookups[0]->Ok_0, nodes[0].0),
            nodes.drop_first(),
            lookups.drop_first(),
        );
    }
}

/// The nodes come first: the handles are opened once all of them were found.
proof fn lemma_nodes_phase<E>(
    t: TrackerModel,
    plan: RestorePlan,
    lookups: Seq<Result<u64, E>>,
    opens: Seq<Result<Option<u64>, E>>,
)
    ensures
        ({
            let run = run_restore(t, first_step(t, plan), lookups, opens);
            let t1 = with_found(t, plan.nodes, lookups);
            let rest = RestorePlan { nodes: Seq::empty(), ..plan };
            if nodes_found(t, plan.nodes, lookups) {
                run == run_restore(
                    t1,
                    first_step(t1, rest),
                    lookups.skip(plan.nodes.len() as int),
                    opens,
                )
            } else {
                !succeeded(run.1)
            }
        }),
    decreases plan.nodes.len(),
{
    let rest = RestorePlan { nodes: Seq::empty(), ..plan };
    if plan.nodes.len() == 0 {
        assert(plan =~= rest);
        assert(lookups.skip(0) =~= lookups);
    } else if t.guest_to_host_inodes.contains_key(plan.nodes[0].1.parent) && lookups.len() > 0
        && lookups[0] is Ok {
        let shorter = RestorePlan { nodes: plan.nodes.drop_first(), ..plan };
        let t1 = t.with_inode(lookups[0]->Ok_0, plan.nodes[0].0);
        lemma_nodes_phase(t1, shorter, lookups.drop_first(), opens);
        assert(RestorePlan { nodes: Seq::empty(), ..shorter } =~= rest);
        if nodes_found(t, plan.nodes, lookups) {
            lemma_found_needs_lookups(t, plan.nodes, lookups);
            assert(lookups.drop_first().skip(shorter.nodes.len() as int) =~= lookups.skip(
                plan.nodes.len() as int,
            ));
        }
    } else {
        reveal_with_fuel(run_restore, 2);
    }
}

/// Whether the numbers that `list` gives values for are all different.
spec fn distinct_numbers<V>(list: Seq<(u64, V)>) -> bool {
    forall|i: int, j: int| 0 <= i < j < list.len() ==> list[i].0 != list[j].0
}

proof fn lemma_distinct_rest<V>(list: Seq<(u64, V)>)
    requires
        distinct_numbers(list),
        list.len() > 0,
    ensures
        distinct_numbers(list.drop_first()),
        forall|i: int| 0 <= i < list.drop_first().len() ==> list.drop_first()[i].0 != list[0].0,
{
    assert forall|i: int, j: int| 0 <= i < j < list.drop_first().len() implies list.drop_first()[i].0
        != list.drop_first()[j].0 by {
        assert(list[i + 1].0 != list[j + 1].0);
    }
}

proof fn lemma_found<E>(
    t: TrackerModel,
    nodes: Seq<(u64, NodePlace)>,
    lookups: Seq<Result<u64, E>>,
)
    requires
        nodes_found(t, nodes, lookups),
        distinct_numbers(nodes),
    ensures
        ({
            let t1 = with_found(t, nodes, lookups);
            &&& t1.backend == t.backend
            &&& t1.guest_to_host_handles == t.guest_to_host_handles
            &&& t1.host_to_guest_handles == t.host_to_guest_handles
            &&& lookups.len() >= nodes.len()
            &&& forall|i: int|
                0 <= i < nodes.len() ==> (#[trigger] lookups[i]) is Ok && t1.host_inode(nodes[i].0)
                    == Some(lookups[i]->Ok_0)
            &&& forall|id: u64|
                (forall|i: int| 0 <= i < nodes.len() ==> #[trigger] nodes[i].0 != id)
                    ==> #[trigger] t1.host_inode(id) == t.host_inode(id)
            &&& forall|id: u64|
                t.guest_to_host_inodes.contains_key(id)
                    ==> #[trigger] t1.guest_to_host_inodes.contains_key(id)
            &&& forall|h: u64|
                t.host_to_guest_inodes.contains_key(h)
                    ==> #[trigger] t1.host_to_guest_inodes.contains_key(h)
            &&& forall|i: int|
                0 <= i < nodes.len() ==> t1.host_to_guest_inodes.contains_key(
                    (#[trigger] lookups[i])->Ok_0,
                )
        }),
    decreases nodes.len(),
{
    if nodes.len() > 0 {
        let t0 = t.with_inode(lookups[0]->Ok_0, nodes[0].0);
        let rest = nodes.drop_first();
        lemma_distinct_rest(nodes);
        lemma_found(t0, rest, lookups.drop_first());
        let t1 = with_found(t, nodes, lookups);
        assert(t0.host_to_guest_inodes.contains_key(lookups[0]->Ok_0));
        assert forall|i: int| 0 <= i < nodes.len() implies (#[trigger] lookups[i]) is Ok
            && t1.host_inode(nodes[i].0) == Some(lookups[i]->Ok_0)
            && t1.host_to_guest_inodes.contains_key(lookups[i]->Ok_0) by {
            if i > 0 {
                assert(lookups.drop_first()[i - 1] == lookups[i]);
                assert(rest[i - 1] == nodes[i]);
            } else {
                assert(t1.host_inode(nodes[0].0) == t0.host_inode(nodes[0].0));
            }
        }
        assert forall|id: u64|
            (forall|i: int| 0 <= i < nodes.len() ==> #[trigger] nodes[i].0 != id) implies
            #[trigger] t1.host_inode(id) == t.host_inode(id) by {
            assert(nodes[0].0 != id);
            assert forall|i: int| 0 <= i < rest.len() implies #[trigger] rest[i].0 != id by {
                assert(rest[i] == nodes[i + 1]);
            }
        }
    }
}

/// The handles are opened in their order, each on the inode of its node.
proof fn lemma_handles_phase<E>(
    t: TrackerModel,
    plan: RestorePlan,
    lookups: Seq<Result<u64, E>>,
    opens: Seq<Result<Option<u64>, E>>,
)
    requires
        plan.nodes.len() == 0,
        plan.complete,
        distinct_numbers(plan.handles),
    ensures
        ({
            let (t1, step) = run_restore(t, first_step(t, plan), lookups, opens);
            let handles = plan.handles;
            &&& t1.backend == t.backend
            &&& t1.guest_to_host_inodes == t.guest_to_host_inodes
            &&& t1.host_to_guest_inodes == t.host_to_guest_inodes
            &&& succeeded(step) <==> opens.len() >= handles.len() && forall|i: int|
                0 <= i < handles.len() ==> gave_handle(#[trigger] opens[i])
                    && t.guest_to_host_inodes.contains_key(handles[i].1.nodeid)
            &&& succeeded(step) ==> forall|i: int|
                0 <= i < handles.len() ==> is_opened(t1, handles[i].0, #[trigger] opens[i])
            &&& forall|h: u64|
                (forall|i: int| 0 <= i < handles.len() ==> #[trigger] handles[i].0 != h) ==> (
                t.guest_to_host_handles.contains_key(h)
                    ==> #[trigger] t1.guest_to_host_handles.contains_key(h)
                    && t1.guest_to_host_handles[h] == t.guest_to_host_handles[h])
        }),
    decreases plan.handles.len(),
{
    let handles = plan.handles;
    if handles.len() > 0 {
        let rest = RestorePlan { handles: handles.drop_first(), ..plan };
        lemma_distinct_rest(handles);
        reveal_with_fuel(run_restore, 2);
        let run = run_restore(t, first_step(t, plan), lookups, opens);
        if t.guest_to_host_inodes.contains_key(handles[0].1.nodeid) && opens.len() > 0
            && gave_handle(opens[0]) {
            let t0 = t.with_handle(opens[0]->Ok_0->Some_0, handles[0].0);
            lemma_handles_phase(t0, rest, lookups, opens.drop_first());
            let (t1, step) = run;
            assert(run == run_restore(t0, first_step(t0, rest), lookups, opens.drop_first()));
            assert forall|i: int| 0 <= i < rest.handles.len() implies rest.handles[i]
                == #[trigger] handles[i + 1] by {}
            if succeeded(step) {
                assert forall|i: int| 0 <= i < handles.len() implies gave_handle(#[trigger] opens[i])
                    && t.guest_to_host_inodes.contains_key(handles[i].1.nodeid)
                    && is_opened(t1, handles[i].0, opens[i]) by {
                    if i > 0 {
                        assert(opens.drop_first()[i - 1] == opens[i]);
                        assert(rest.handles[i - 1] == handles[i]);
                    } else {
                        let h = handles[0].0;
                        assert(t0.guest_to_host_handles.contains_key(h));
                        assert(forall|k: int|
                            0 <= k < rest.handles.len() ==> #[trigger] rest.handles[k].0 != h);
                        assert(t1.guest_to_host_handles.contains_key(h));
                    }
                }
            }
            if opens.len() >= handles.len() && forall|i: int|
                0 <= i < handles.len() ==> gave_handle(#[trigger] opens[i])
                    && t.guest_to_host_inodes.contains_key(handles[i].1.nodeid) {
                assert forall|i: int| 0 <= i < rest.handles.len() implies gave_handle(
                    #[trigger] opens.drop_first()[i],
                ) && t0.guest_to_host_inodes.contains_key(rest.handles[i].1.nodeid) by {
                    assert(opens.drop_first()[i] == opens[i + 1]);
                }
            }
            assert forall|h: u64|
                (forall|i: int| 0 <= i < handles.len() ==> #[trigger] handles[i].0 != h)
                    && t.guest_to_host_handles.contains_key(h) implies
                #[trigger] t1.guest_to_host_handles.contains_key(h)
                && t1.guest_to_host_handles[h] == t.guest_to_host_handles[h] by {
                assert(handles[0].0 != h);
                assert forall|i: int| 0 <= i < rest.handles.len() implies #[trigger] rest.handles[i].0
                    != h by {
                    assert(rest.handles[i] == handles[i + 1]);
                }
                assert(t0.guest_to_host_handles.contains_key(h));
            }
        } else {
            assert(!succeeded(run.1));
            if opens.len() >= handles.len() && forall|i: int|
                0 <= i < handles.len() ==> gave_handle(#[trigger] opens[i])
                    && t.guest_to_host_inodes.contains_key(handles[i].1.nodeid) {
                assert(gave_handle(opens[0]));
            }
        }
    }
}

/// Whether `backend` can be the state of a device: its tables are finite.
pub open spec fn is_finite_state(backend: BackendModel) -> bool {
    backend.nodes.dom().finite() && backend.handles.dom().finite()
}

/// Whether the node of the handle `handle` is the root or a node that is kept.
pub open spec fn belongs_to_node(backend: BackendModel, handle: u64) -> bool {
    let nodeid = backend.handles[handle].nodeid;
    nodeid == ROOT_ID || backend.nodes.contains_key(nodeid)
}

/// Whether a restore can find every node and handle of `backend`: every node lies in the root, and
/// every handle belongs to the root or to a node that is kept.
pub open spec fn is_restorable(backend: BackendModel) -> bool {
    &&& all_resolvable(backend.nodes)
    &&& forall|h: u64| #[trigger]
        backend.handles.contains_key(h) ==> belongs_to_node(backend, h)
}

/// A node is looked up after its parent, unless its parent is the root.
pub proof fn parents_come_first(nodes: Map<u64, NodePlace>, i: int) -> (j: int)
    requires
        nodes.dom().finite(),
        0 <= i < resolution_sequence(nodes).len(),
    ensures
        ({
            let order = resolution_sequence(nodes);
            let parent = nodes[order[i]].parent;
            parent == ROOT_ID || 0 <= j < i && order[j] == parent
        }),
{
    let order = resolution_sequence(nodes);
    lemma_resolution_exists(nodes);
    let id = order[i];
    assert(order.contains(id));
    let parent = nodes[id].parent;
    if parent == ROOT_ID {
        0
    } else {
        lemma_within_has_round(nodes, id);
        let round = round_of(nodes, id);
        assert(round > 0) by {
            assert(ancestor(nodes, id, 0) == Some(id));
        }
        lemma_round_of_child(nodes, id, (round - 1) as nat);
        lemma_round_unique(nodes, parent, (round - 1) as nat);
        assert(is_within(nodes, ROOT_ID, parent));
        assert(round - 1 > 0) by {
            assert(ancestor(nodes, parent, 0) == Some(parent));
        }
        assert(nodes.contains_key(parent));
        assert(is_resolvable(nodes, parent));
        assert(order.contains(parent));
        let j = choose|j: int| 0 <= j < order.len() && order[j] == parent;
        if i < j {
            assert(comes_before(nodes, order[i], order[j]));
        }
        j
    }
}

/// Every node that is reached from the root is listed once, with its place.
proof fn lemma_plan(backend: BackendModel)
    requires
        is_finite_state(backend),
    ensures
        ({
            let plan = restore_plan(backend);
            let order = resolution_sequence(backend.nodes);
            let numbers = in_order(backend.handles.dom());
            &&& plan.nodes.len() == order.len()
            &&& plan.handles.len() == numbers.len()
            &&& distinct_numbers(plan.nodes)
            &&& distinct_numbers(plan.handles)
            &&& forall|i: int|
                0 <= i < order.len() ==> #[trigger] plan.nodes[i] == (
                    order[i],
                    backend.nodes[order[i]],
                )
            &&& forall|i: int|
                0 <= i < numbers.len() ==> #[trigger] plan.handles[i] == (
                    numbers[i],
                    backend.handles[numbers[i]],
                )
            &&& is_resolution_order(backend.nodes, order)
            &&& lists_in_order(numbers, backend.handles.dom())
        }),
{
    let plan = restore_plan(backend);
    let order = resolution_sequence(backend.nodes);
    let numbers = in_order(backend.handles.dom());
    lemma_resolution_exists(backend.nodes);
    lemma_in_order_lists(backend.handles.dom());
    assert forall|i: int, j: int| 0 <= i < j < plan.nodes.len() implies plan.nodes[i].0
        != plan.nodes[j].0 by {
        assert(comes_before(backend.nodes, order[i], order[j]));
    }
    assert forall|i: int, j: int| 0 <= i < j < plan.handles.len() implies plan.handles[i].0
        != plan.handles[j].0 by {
        assert(numbers[i] < numbers[j]);
    }
}

/// Lookups that all find something find every node, where each parent is known or comes first.
proof fn lemma_all_found<E>(
    t: TrackerModel,
    nodes: Seq<(u64, NodePlace)>,
    lookups: Seq<Result<u64, E>>,
)
    requires
        lookups.len() >= nodes.len(),
        forall|i: int| 0 <= i < nodes.len() ==> (#[trigger] lookups[i]) is Ok,
        forall|i: int|
            0 <= i < nodes.len() ==> t.guest_to_host_inodes.contains_key(
                (#[trigger] nodes[i]).1.parent,
            ) || exists|j: int| 0 <= j < i && (#[trigger] nodes[j]).0 == nodes[i].1.parent,
    ensures
        nodes_found(t, nodes, lookups),
    decreases nodes.len(),
{
    if nodes.len() > 0 {
        let rest = nodes.drop_first();
        let t0 = t.with_inode(lookups[0]->Ok_0, nodes[0].0);
        assert(t.guest_to_host_inodes.contains_key(nodes[0].1.parent));
        assert forall|i: int| 0 <= i < rest.len() implies (#[trigger] lookups.drop_first()[i])
            is Ok by {
            assert(lookups[i + 1] is Ok);
        }
        assert forall|i: int| 0 <= i < rest.len() implies t0.guest_to_host_inodes.contains_key(
            (#[trigger] rest[i]).1.parent,
        ) || exists|j: int| 0 <= j < i && (#[trigger] rest[j]).0 == rest[i].1.parent by {
            assert(nodes[i + 1] == rest[i]);
            if !t.guest_to_host_inodes.contains_key(rest[i].1.parent) {
                let j = choose|j: int|
                    0 <= j < i + 1 && (#[trigger] nodes[j]).0 == nodes[i + 1].1.parent;
                if j > 0 {
                    assert(rest[j - 1] == nodes[j]);
                }
            }
        }
        lemma_all_found(t0, rest, lookups.drop_first());
    }
}

/// Where enough lookups find something, the restore of a fresh device finds all that lies in the
/// root.
proof fn lemma_fresh_nodes_found<E>(backend: BackendModel, lookups: Seq<Result<u64, E>>)
    requires
        is_finite_state(backend),
        lookups.len() >= resolution_sequence(backend.nodes).len(),
        forall|i: int|
            0 <= i < resolution_sequence(backend.nodes).len() ==> (#[trigger] lookups[i]) is Ok,
    ensures
        nodes_found(TrackerModel::fresh(backend), restore_plan(backend).nodes, lookups),
{
    let t = TrackerModel::fresh(backend);
    let plan = restore_plan(backend);
    let order = resolution_sequence(backend.nodes);
    lemma_plan(backend);
    assert forall|i: int| 0 <= i < plan.nodes.len() implies t.guest_to_host_inodes.contains_key(
        (#[trigger] plan.nodes[i]).1.parent,
    ) || exists|j: int| 0 <= j < i && (#[trigger] plan.nodes[j]).0 == plan.nodes[i].1.parent by {
        let j = parents_come_first(backend.nodes, i);
        if backend.nodes[order[i]].parent != ROOT_ID {
            assert(plan.nodes[j].0 == order[j]);
        }
    }
    lemma_all_found(t, plan.nodes, lookups);
}

/// A restore that succeeds finds all nodes, and opening the handles leaves the inodes as they are.
proof fn lemma_success_phases<E>(
    backend: BackendModel,
    lookups: Seq<Result<u64, E>>,
    opens: Seq<Result<Option<u64>, E>>,
)
    requires
        is_finite_state(backend),
        succeeded(restored(backend, lookups, opens).1),
    ensures
        ({
            let t0 = TrackerModel::fresh(backend);
            let nodes = restore_plan(backend).nodes;
            let t1 = with_found(t0, nodes, lookups);
            let t = restored(backend, lookups, opens).0;
            &&& restore_plan(backend).complete
            &&& nodes_found(t0, nodes, lookups)
            &&& t.guest_to_host_inodes == t1.guest_to_host_inodes
            &&& t.host_to_guest_inodes == t1.host_to_guest_inodes
        }),
{
    let t0 = TrackerModel::fresh(backend);
    let plan = restore_plan(backend);
    lemma_plan(backend);
    lemma_nodes_phase(t0, plan, lookups, opens);
    assert(plan.complete) by {
        if !plan.complete {
            reveal_with_fuel(run_restore, 2);
        }
    }
    let t1 = with_found(t0, plan.nodes, lookups);
    let rest = RestorePlan { nodes: Seq::empty(), ..plan };
    lemma_handles_phase(t1, rest, lookups.skip(plan.nodes.len() as int), opens);
}

/// A restore succeeds only with everything restored: every node lies in the root and stands for
/// the inode that its lookup found, every handle belongs to a node that was found and stands for
/// the handle that its open gave, and what a snapshot keeps is as it was.
pub proof fn restore_is_all_or_nothing<E>(
    backend: BackendModel,
    lookups: Seq<Result<u64, E>>,
    opens: Seq<Result<Option<u64>, E>>,
)
    requires
        is_finite_state(backend),
        succeeded(restored(backend, lookups, opens).1),
    ensures
        ({
            let t = restored(backend, lookups, opens).0;
            let order = resolution_sequence(backend.nodes);
            let numbers = in_order(backend.handles.dom());
            &&& t.backend == backend
            &&& is_restorable(backend)
            &&& t.host_inode(ROOT_ID) == Some(ROOT_ID)
            &&& lookups.len() >= order.len()
            &&& forall|i: int|
                0 <= i < order.len() ==> (#[trigger] lookups[i]) is Ok && t.host_inode(order[i])
                    == Some(lookups[i]->Ok_0)
            &&& forall|id: u64|
                backend.nodes.contains_key(id) ==> (#[trigger] t.host_inode(id)) is Some
            &&& opens.len() >= numbers.len()
            &&& forall|i: int|
                0 <= i < numbers.len() ==> is_opened(t, numbers[i], #[trigger] opens[i])
            &&& forall|h: u64| #[trigger]
                backend.handles.contains_key(h) ==> t.guest_to_host_handles.contains_key(h)
        }),
{
    let t0 = TrackerModel::fresh(backend);
    let plan = restore_plan(backend);
    let order = resolution_sequence(backend.nodes);
    let numbers = in_order(backend.handles.dom());
    lemma_plan(backend);
    lemma_success_phases(backend, lookups, opens);
    lemma_nodes_phase(t0, plan, lookups, opens);
    lemma_found(t0, plan.nodes, lookups);
    let t1 = with_found(t0, plan.nodes, lookups);
    let rest = RestorePlan { nodes: Seq::empty(), ..plan };
    let left = lookups.skip(plan.nodes.len() as int);
    lemma_handles_phase(t1, rest, left, opens);
    let t = restored(backend, lookups, opens).0;
    assert(order.contains(ROOT_ID) <==> is_resolvable(backend.nodes, ROOT_ID));
    assert forall|i: int| 0 <= i < plan.nodes.len() implies #[trigger] plan.nodes[i].0
        != ROOT_ID by {
        assert(order.contains(order[i]));
    }
    assert(t1.host_inode(ROOT_ID) == t0.host_inode(ROOT_ID));
    assert(t.host_inode(ROOT_ID) == t1.host_inode(ROOT_ID));
    assert forall|i: int| 0 <= i < order.len() implies (#[trigger] lookups[i]) is Ok
        && t.host_inode(order[i]) == Some(lookups[i]->Ok_0) by {
        assert(plan.nodes[i].0 == order[i]);
        assert(t.host_inode(order[i]) == t1.host_inode(order[i]));
    }
    assert forall|id: u64| backend.nodes.contains_key(id) implies (#[trigger] t.host_inode(id))
        is Some by {
        if id != ROOT_ID {
            assert(is_within(backend.nodes, ROOT_ID, id));
            assert(is_resolvable(backend.nodes, id));
            assert(order.contains(id));
            let i = choose|i: int| 0 <= i < order.len() && order[i] == id;
            assert(lookups[i] is Ok);
        }
    }
    assert forall|i: int| 0 <= i < numbers.len() implies is_opened(
        t,
        numbers[i],
        #[trigger] opens[i],
    ) by {
        assert(plan.handles[i].0 == numbers[i]);
    }
    assert forall|h: u64| #[trigger] backend.handles.contains_key(h) implies
        t.guest_to_host_handles.contains_key(h) && (backend.handles[h].nodeid == ROOT_ID
        || backend.nodes.contains_key(backend.handles[h].nodeid)) by {
        assert(backend.handles.dom().contains(h));
        assert(numbers.contains(h));
        let i = choose|i: int| 0 <= i < numbers.len() && numbers[i] == h;
        assert(is_opened(t, numbers[i], opens[i]));
        assert(plan.handles[i] == (h, backend.handles[h]));
        let nodeid = backend.handles[h].nodeid;
        assert(gave_handle(opens[i]) && t1.guest_to_host_inodes.contains_key(nodeid));
        if nodeid != ROOT_ID && !backend.nodes.contains_key(nodeid) {
            assert forall|k: int| 0 <= k < plan.nodes.len() implies #[trigger] plan.nodes[k].0
                != nodeid by {
                assert(order.contains(order[k]));
            }
            assert(t1.host_inode(nodeid) == t0.host_inode(nodeid));
        }
    }
}

/// A restore succeeds where every node lies in the root, every handle belongs to a known node,
/// every lookup finds something and every open gives a handle.
pub proof fn restore_succeeds<E>(
    backend: BackendModel,
    lookups: Seq<Result<u64, E>>,
    opens: Seq<Result<Option<u64>, E>>,
)
    requires
        is_finite_state(backend),
        is_restorable(backend),
        lookups.len() >= resolution_sequence(backend.nodes).len(),
        forall|i: int|
            0 <= i < resolution_sequence(backend.nodes).len() ==> (#[trigger] lookups[i]) is Ok,
        opens.len() >= in_order(backend.handles.dom()).len(),
        forall|i: int|
            0 <= i < in_order(backend.handles.dom()).len() ==> gave_handle(#[trigger] opens[i]),
    ensures
        succeeded(restored(backend, lookups, opens).1),
{
    let t0 = TrackerModel::fresh(backend);
    let plan = restore_plan(backend);
    let order = resolution_sequence(backend.nodes);
    let numbers = in_order(backend.handles.dom());
    lemma_plan(backend);
    lemma_fresh_nodes_found(backend, lookups);
    lemma_nodes_phase(t0, plan, lookups, opens);
    lemma_found(t0, plan.nodes, lookups);
    let t1 = with_found(t0, plan.nodes, lookups);
    let rest = RestorePlan { nodes: Seq::empty(), ..plan };
    lemma_handles_phase(t1, rest, lookups.skip(plan.nodes.len() as int), opens);
    assert forall|i: int| 0 <= i < plan.handles.len() implies gave_handle(#[trigger] opens[i])
        && t1.guest_to_host_inodes.contains_key(plan.handles[i].1.nodeid) by {
        assert(plan.handles[i] == (numbers[i], backend.handles[numbers[i]]));
        assert(numbers.contains(numbers[i]));
        assert(backend.handles.contains_key(numbers[i]));
        let nodeid = plan.handles[i].1.nodeid;
        if nodeid == ROOT_ID {
            assert(t0.guest_to_host_inodes.contains_key(nodeid));
        } else {
            assert(is_within(backend.nodes, ROOT_ID, nodeid));
            assert(is_resolvable(backend.nodes, nodeid));
            assert(order.contains(nodeid));
            let k = choose|k: int| 0 <= k < order.len() && order[k] == nodeid;
            assert(plan.nodes[k].0 == nodeid);
            assert(lookups[k] is Ok);
            assert(t1.host_inode(plan.nodes[k].0) == Some(lookups[k]->Ok_0));
        }
    }
}

/// A restore of nodes in a circle, or under a node that is not known, ends with `EINVAL` once
/// every lookup has found something.
pub proof fn stray_nodes_are_refused<E>(
    backend: BackendModel,
    lookups: Seq<Result<u64, E>>,
    opens: Seq<Result<Option<u64>, E>>,
)
    requires
        is_finite_state(backend),
        !all_resolvable(backend.nodes),
        lookups.len() >= resolution_sequence(backend.nodes).len(),
        forall|i: int|
            0 <= i < resolution_sequence(backend.nodes).len() ==> (#[trigger] lookups[i]) is Ok,
    ensures
        restored(backend, lookups, opens).1 == RestoreStepModel::<E>::Done(
            Err(FsError::Os(EINVAL)),
        ),
{
    let t0 = TrackerModel::fresh(backend);
    let plan = restore_plan(backend);
    lemma_plan(backend);
    lemma_fresh_nodes_found(backend, lookups);
    lemma_nodes_phase(t0, plan, lookups, opens);
    reveal_with_fuel(run_restore, 2);
}

proof fn lemma_failed_lookup<E>(
    t: TrackerModel,
    plan: RestorePlan,
    lookups: Seq<Result<u64, E>>,
    opens: Seq<Result<Option<u64>, E>>,
    k: int,
)
    requires
        0 <= k < plan.nodes.len(),
        k < lookups.len(),
        lookups[k] is Err,
        nodes_found(t, plan.nodes.take(k), lookups),
        with_found(t, plan.nodes.take(k), lookups).guest_to_host_inodes.contains_key(
            plan.nodes[k].1.parent,
        ),
    ensures
        run_restore(t, first_step(t, plan), lookups, opens).1 == RestoreStepModel::<E>::Done(
            Err(FsError::Backend(lookups[k]->Err_0)),
        ),
    decreases k,
{
    reveal_with_fuel(run_restore, 2);
    if k > 0 {
        let rest = RestorePlan { nodes: plan.nodes.drop_first(), ..plan };
        let t0 = t.with_inode(lookups[0]->Ok_0, plan.nodes[0].0);
        assert(plan.nodes.take(k)[0] == plan.nodes[0]);
        assert(plan.nodes.take(k).drop_first() =~= rest.nodes.take(k - 1));
        lemma_failed_lookup(t0, rest, lookups.drop_first(), opens, k - 1);
    } else {
        assert(plan.nodes.take(0) =~= Seq::empty());
    }
}

/// The host inode in which the node at `i` is looked up: the root, or what the lookup of its
/// parent found.
pub open spec fn found_parent<E>(
    nodes: Map<u64, NodePlace>,
    lookups: Seq<Result<u64, E>>,
    i: int,
) -> u64 {
    let order = resolution_sequence(nodes);
    let parent = nodes[order[i]].parent;
    if parent == ROOT_ID {
        ROOT_ID
    } else {
        lookups[order.index_of(parent)]->Ok_0
    }
}

/// Where the first `k` lookups find something, so many nodes are found, and with them the directory
/// of the next.
proof fn lemma_earlier_found<E>(backend: BackendModel, lookups: Seq<Result<u64, E>>, k: int)
    requires
        is_finite_state(backend),
        0 <= k < resolution_sequence(backend.nodes).len(),
        k <= lookups.len(),
        forall|i: int| 0 <= i < k ==> (#[trigger] lookups[i]) is Ok,
    ensures
        ({
            let t = TrackerModel::fresh(backend);
            let plan = restore_plan(backend);
            let earlier = plan.nodes.take(k);
            &&& nodes_found(t, earlier, lookups)
            &&& with_found(t, earlier, lookups).host_inode(plan.nodes[k].1.parent) == Some(
                found_parent(backend.nodes, lookups, k),
            )
        }),
{
    let t = TrackerModel::fresh(backend);
    let plan = restore_plan(backend);
    let order = resolution_sequence(backend.nodes);
    lemma_plan(backend);
    let earlier = plan.nodes.take(k);
    assert forall|i: int| 0 <= i < earlier.len() implies t.guest_to_host_inodes.contains_key(
        (#[trigger] earlier[i]).1.parent,
    ) || exists|j: int| 0 <= j < i && (#[trigger] earlier[j]).0 == earlier[i].1.parent by {
        let j = parents_come_first(backend.nodes, i);
        assert(earlier[i] == plan.nodes[i]);
        if backend.nodes[order[i]].parent != ROOT_ID {
            assert(earlier[j] == plan.nodes[j]);
        }
    }
    lemma_all_found(t, earlier, lookups);
    assert(distinct_numbers(earlier)) by {
        assert forall|i: int, j: int| 0 <= i < j < earlier.len() implies earlier[i].0
            != earlier[j].0 by {
            assert(plan.nodes[i].0 != plan.nodes[j].0);
        }
    }
    lemma_found(t, earlier, lookups);
    let t1 = with_found(t, earlier, lookups);
    let parent = plan.nodes[k].1.parent;
    let j = parents_come_first(backend.nodes, k);
    assert(plan.nodes[k] == (order[k], backend.nodes[order[k]]));
    if parent == ROOT_ID {
        assert forall|i: int| 0 <= i < earlier.len() implies #[trigger] earlier[i].0
            != ROOT_ID by {
            assert(earlier[i] == plan.nodes[i]);
            assert(order.contains(order[i]));
        }
        assert(t1.host_inode(ROOT_ID) == t.host_inode(ROOT_ID));
    } else {
        assert(earlier[j] == plan.nodes[j]);
        assert(lookups[j] is Ok);
        assert(t1.host_inode(earlier[j].0) == Some(lookups[j]->Ok_0));
        assert(order.contains(parent));
        let at = order.index_of(parent);
        if at < j {
            assert(plan.nodes[at].0 != plan.nodes[j].0);
        }
        if j < at {
            assert(plan.nodes[j].0 != plan.nodes[at].0);
        }
    }
}

/// The first lookup that fails ends the restore with its error.
pub proof fn failed_lookup_ends_restore<E>(
    backend: BackendModel,
    lookups: Seq<Result<u64, E>>,
    opens: Seq<Result<Option<u64>, E>>,
    k: int,
)
    requires
        is_finite_state(backend),
        0 <= k < resolution_sequence(backend.nodes).len(),
        k < lookups.len(),
        forall|i: int| 0 <= i < k ==> (#[trigger] lookups[i]) is Ok,
        lookups[k] is Err,
    ensures
        restored(backend, lookups, opens).1 == RestoreStepModel::<E>::Done(
            Err(FsError::Backend(lookups[k]->Err_0)),
        ),
{
    let t = TrackerModel::fresh(backend);
    let plan = restore_plan(backend);
    lemma_plan(backend);
    lemma_earlier_found(backend, lookups, k);
    lemma_failed_lookup(t, plan, lookups, opens, k);
}

proof fn lemma_failed_handle<E>(
    t: TrackerModel,
    plan: RestorePlan,
    lookups: Seq<Result<u64, E>>,
    opens: Seq<Result<Option<u64>, E>>,
    k: int,
)
    requires
        plan.nodes.len() == 0,
        plan.complete,
        0 <= k < plan.handles.len(),
        k <= opens.len(),
        forall|i: int|
            0 <= i < k ==> gave_handle(#[trigger] opens[i]) && t.guest_to_host_inodes.contains_key(
                plan.handles[i].1.nodeid,
            ),
    ensures
        ({
            let step = run_restore(t, first_step(t, plan), lookups, opens).1;
            &&& !t.guest_to_host_inodes.contains_key(plan.handles[k].1.nodeid) ==> step
                == RestoreStepModel::<E>::Done(Err(FsError::Os(ENOENT)))
            &&& t.guest_to_host_inodes.contains_key(plan.handles[k].1.nodeid) && k < opens.len()
                && !gave_handle(opens[k]) ==> step == RestoreStepModel::<E>::Done(
                Err(open_failure(opens[k])),
            )
        }),
    decreases k,
{
    reveal_with_fuel(run_restore, 2);
    if k > 0 {
        assert(gave_handle(opens[0]));
        let rest = RestorePlan { handles: plan.handles.drop_first(), ..plan };
        let t0 = t.with_handle(opens[0]->Ok_0->Some_0, plan.handles[0].0);
        assert forall|i: int| 0 <= i < k - 1 implies gave_handle(#[trigger] opens.drop_first()[i])
            && t0.guest_to_host_inodes.contains_key(rest.handles[i].1.nodeid) by {
            assert(opens.drop_first()[i] == opens[i + 1]);
            assert(rest.handles[i] == plan.handles[i + 1]);
        }
        assert(rest.handles[k - 1] == plan.handles[k]);
        lemma_failed_handle(t0, rest, lookups, opens.drop_first(), k - 1);
        if k < opens.len() {
            assert(opens.drop_first()[k - 1] == opens[k]);
        }
    }
}

/// Why a reply to an open that gave no handle ends a restore.
pub open spec fn open_failure<E>(reply: Result<Option<u64>, E>) -> FsError<E> {
    match reply {
        Ok(_) => FsError::Os(EIO),
        Err(e) => FsError::Backend(e),
    }
}

/// Where all nodes were found, the first handle that belongs to an unknown node, such as that of
/// a file that was unlinked while it was open, ends the restore with `ENOENT`; and the first open
/// that gives no handle ends it with its error, or with `EIO` where it has none.
pub proof fn failed_handle_ends_restore<E>(
    backend: BackendModel,
    lookups: Seq<Result<u64, E>>,
    opens: Seq<Result<Option<u64>, E>>,
    k: int,
)
    requires
        is_finite_state(backend),
        all_resolvable(backend.nodes),
        lookups.len() >= resolution_sequence(backend.nodes).len(),
        forall|i: int|
            0 <= i < resolution_sequence(backend.nodes).len() ==> (#[trigger] lookups[i]) is Ok,
        0 <= k < in_order(backend.handles.dom()).len(),
        k <= opens.len(),
        forall|i: int|
            0 <= i < k ==> gave_handle(#[trigger] opens[i]) && belongs_to_node(
                backend,
                in_order(backend.handles.dom())[i],
            ),
    ensures
        ({
            let step = restored(backend, lookups, opens).1;
            let handle = in_order(backend.handles.dom())[k];
            &&& !belongs_to_node(backend, handle) ==> step == RestoreStepModel::<E>::Done(
                Err(FsError::Os(ENOENT)),
            )
            &&& belongs_to_node(backend, handle) && k < opens.len() && !gave_handle(opens[k])
                ==> step == RestoreStepModel::<E>::Done(Err(open_failure(opens[k])))
        }),
{
    let t0 = TrackerModel::fresh(backend);
    let plan = restore_plan(backend);
    let order = resolution_sequence(backend.nodes);
    let numbers = in_order(backend.handles.dom());
    lemma_plan(backend);
    lemma_fresh_nodes_found(backend, lookups);
    lemma_nodes_phase(t0, plan, lookups, opens);
    lemma_found(t0, plan.nodes, lookups);
    let t1 = with_found(t0, plan.nodes, lookups);
    let rest = RestorePlan { nodes: Seq::empty(), ..plan };
    assert forall|i: int| 0 <= i < numbers.len() implies belongs_to_node(
        backend,
        #[trigger] numbers[i],
    ) == t1.guest_to_host_inodes.contains_key(plan.handles[i].1.nodeid) by {
        assert(plan.handles[i] == (numbers[i], backend.handles[numbers[i]]));
        let nodeid = backend.handles[numbers[i]].nodeid;
        if nodeid == ROOT_ID {
            assert(t0.guest_to_host_inodes.contains_key(nodeid));
        } else if backend.nodes.contains_key(nodeid) {
            assert(is_within(backend.nodes, ROOT_ID, nodeid));
            assert(is_resolvable(backend.nodes, nodeid));
            assert(order.contains(nodeid));
            let j = choose|j: int| 0 <= j < order.len() && order[j] == nodeid;
            assert(plan.nodes[j].0 == nodeid);
            assert(lookups[j] is Ok);
            assert(t1.host_inode(plan.nodes[j].0) == Some(lookups[j]->Ok_0));
        } else {
            assert forall|j: int| 0 <= j < plan.nodes.len() implies #[trigger] plan.nodes[j].0
                != nodeid by {
                assert(order.contains(order[j]));
            }
            assert(t1.host_inode(nodeid) == t0.host_inode(nodeid));
        }
    }
    assert forall|i: int| 0 <= i < k implies gave_handle(#[trigger] opens[i])
        && t1.guest_to_host_inodes.contains_key(rest.handles[i].1.nodeid) by {
        assert(gave_handle(opens[i]));
        assert(belongs_to_node(backend, numbers[i]));
    }
    lemma_failed_handle(t1, rest, lookups.skip(plan.nodes.len() as int), opens, k);
    assert(belongs_to_node(backend, numbers[k]) == t1.guest_to_host_inodes.contains_key(
        plan.handles[k].1.nodeid,
    ));
}

/// Where the restore stands once the first `k` nodes were found.
proof fn lemma_after_lookups<E>(
    t: TrackerModel,
    plan: RestorePlan,
    lookups: Seq<Result<u64, E>>,
    opens: Seq<Result<Option<u64>, E>>,
    k: int,
)
    requires
        0 <= k < plan.nodes.len(),
        lookups.len() == k,
        nodes_found(t, plan.nodes.take(k), lookups),
        with_found(t, plan.nodes.take(k), lookups).guest_to_host_inodes.contains_key(
            plan.nodes[k].1.parent,
        ),
    ensures
        ({
            let t1 = with_found(t, plan.nodes.take(k), lookups);
            let rest = RestorePlan { nodes: plan.nodes.skip(k), ..plan };
            run_restore(t, first_step(t, plan), lookups, opens) == (t1, first_step::<E>(t1, rest))
        }),
    decreases k,
{
    reveal_with_fuel(run_restore, 2);
    if k > 0 {
        let rest = RestorePlan { nodes: plan.nodes.drop_first(), ..plan };
        let t0 = t.with_inode(lookups[0]->Ok_0, plan.nodes[0].0);
        assert(plan.nodes.take(k)[0] == plan.nodes[0]);
        assert(plan.nodes.take(k).drop_first() =~= rest.nodes.take(k - 1));
        assert(rest.nodes.skip(k - 1) =~= plan.nodes.skip(k));
        assert(rest.nodes[k - 1] == plan.nodes[k]);
        lemma_after_lookups(t0, rest, lookups.drop_first(), opens, k - 1);
    } else {
        assert(plan.nodes.take(0) =~= Seq::empty());
        assert(plan.nodes.skip(0) =~= plan.nodes);
        assert(plan =~= RestorePlan { nodes: plan.nodes.skip(0), ..plan });
    }
}

/// A restore goes by paths: each node is looked up by the name that was kept for it, in the
/// directory that was found for its parent.
pub proof fn lookups_follow_paths<E>(
    backend: BackendModel,
    lookups: Seq<Result<u64, E>>,
    opens: Seq<Result<Option<u64>, E>>,
)
    requires
        is_finite_state(backend),
        lookups.len() < resolution_sequence(backend.nodes).len(),
        forall|i: int| 0 <= i < lookups.len() ==> (#[trigger] lookups[i]) is Ok,
    ensures
        ({
            let k = lookups.len() as int;
            let node = resolution_sequence(backend.nodes)[k];
            &&& restored(backend, lookups, opens).1 matches RestoreStepModel::Lookup {
                host_parent,
                name,
                guest_node,
                rest,
            }
            &&& host_parent == found_parent(backend.nodes, lookups, k)
            &&& name == backend.nodes[node].name
            &&& guest_node == node
        }),
{
    let k = lookups.len() as int;
    let t = TrackerModel::fresh(backend);
    let plan = restore_plan(backend);
    let order = resolution_sequence(backend.nodes);
    lemma_plan(backend);
    lemma_earlier_found(backend, lookups, k);
    assert(plan.nodes[k] == (order[k], backend.nodes[order[k]]));
    lemma_after_lookups(t, plan, lookups, opens, k);
    let rest = RestorePlan { nodes: plan.nodes.skip(k), ..plan };
    assert(rest.nodes[0] == plan.nodes[k]);
}

proof fn lemma_lookups_lead_back<E>(
    t: TrackerModel,
    nodes: Seq<(u64, NodePlace)>,
    lookups: Seq<Result<u64, E>>,
)
    requires
        numbers_lead_back(t),
        distinct_numbers(nodes),
        forall|i: int|
            0 <= i < nodes.len() ==> !t.guest_to_host_inodes.contains_key(
                (#[trigger] nodes[i]).0,
            ),
    ensures
        numbers_lead_back(with_found(t, nodes, lookups)),
    decreases nodes.len(),
{
    if nodes.len() > 0 {
        let rest = nodes.drop_first();
        let t0 = t.with_inode(lookups[0]->Ok_0, nodes[0].0);
        lemma_distinct_rest(nodes);
        assert(!t.guest_to_host_inodes.contains_key(nodes[0].0));
        assert forall|h: u64| #[trigger]
            t0.host_to_guest_inodes.contains_key(h) implies t0.host_inode(
            t0.host_to_guest_inodes[h],
        ) == Some(h) by {
            if h != lookups[0]->Ok_0 {
                assert(t.host_to_guest_inodes.contains_key(h));
            }
        }
        assert forall|i: int| 0 <= i < rest.len() implies !t0.guest_to_host_inodes.contains_key(
            (#[trigger] rest[i]).0,
        ) by {
            assert(nodes[i + 1] == rest[i]);
        }
        lemma_lookups_lead_back(t0, rest, lookups.drop_first());
    }
}

/// After a restore the guest's number for each known inode leads back to that inode.
pub proof fn restored_numbers_lead_back<E>(
    backend: BackendModel,
    lookups: Seq<Result<u64, E>>,
    opens: Seq<Result<Option<u64>, E>>,
)
    requires
        is_finite_state(backend),
        succeeded(restored(backend, lookups, opens).1),
    ensures
        numbers_lead_back(restored(backend, lookups, opens).0),
{
    let t0 = TrackerModel::fresh(backend);
    let plan = restore_plan(backend);
    let order = resolution_sequence(backend.nodes);
    lemma_plan(backend);
    lemma_success_phases(backend, lookups, opens);
    assert forall|i: int| 0 <= i < plan.nodes.len() implies !t0.guest_to_host_inodes.contains_key(
        (#[trigger] plan.nodes[i]).0,
    ) by {
        assert(order.contains(order[i]));
    }
    lemma_lookups_lead_back(t0, plan.nodes, lookups);
    let t1 = with_found(t0, plan.nodes, lookups);
    let t = restored(backend, lookups, opens).0;
    assert forall|h: u64| #[trigger] t.host_to_guest_inodes.contains_key(h) implies t.host_inode(
        t.host_to_guest_inodes[h],
    ) == Some(h) by {
        assert(t1.host_to_guest_inodes.contains_key(h));
    }
}

/// After a restore the guest knows the root and the nodes that were kept, and no other.
pub proof fn restored_nodes_are_all_that_is_known<E>(
    backend: BackendModel,
    lookups: Seq<Result<u64, E>>,
    opens: Seq<Result<Option<u64>, E>>,
    id: u64,
)
    requires
        is_finite_state(backend),
        succeeded(restored(backend, lookups, opens).1),
    ensures
        restored(backend, lookups, opens).0.host_inode(id) is Some <==> id == ROOT_ID
            || backend.nodes.contains_key(id),
{
    let t0 = TrackerModel::fresh(backend);
    let plan = restore_plan(backend);
    let order = resolution_sequence(backend.nodes);
    lemma_plan(backend);
    restore_is_all_or_nothing(backend, lookups, opens);
    lemma_success_phases(backend, lookups, opens);
    lemma_found(t0, plan.nodes, lookups);
    let t1 = with_found(t0, plan.nodes, lookups);
    let t = restored(backend, lookups, opens).0;
    assert(t.host_inode(id) == t1.host_inode(id));
    if id != ROOT_ID && !backend.nodes.contains_key(id) {
        assert forall|i: int| 0 <= i < plan.nodes.len() implies #[trigger] plan.nodes[i].0
            != id by {
            assert(order.contains(order[i]));
        }
        assert(t1.host_inode(id) == t0.host_inode(id));
    }
}

/// After a restore a node that was kept is known by its old number, where its inode is neither the
/// root nor that of another node that was kept.
pub proof fn restored_nodes_keep_their_numbers<E>(
    backend: BackendModel,
    lookups: Seq<Result<u64, E>>,
    opens: Seq<Result<Option<u64>, E>>,
    id: u64,
)
    requires
        is_finite_state(backend),
        succeeded(restored(backend, lookups, opens).1),
        backend.nodes.contains_key(id),
        ({
            let t = restored(backend, lookups, opens).0;
            forall|other: u64|
                other != id && (other == ROOT_ID || backend.nodes.contains_key(other)) ==> (
                #[trigger] t.host_inode(other)) != t.host_inode(id)
        }),
    ensures
        ({
            let t = restored(backend, lookups, opens).0;
            t.host_inode(id) matches Some(host_inode) && t.host_to_guest_inodes.contains_key(
                host_inode,
            ) && t.guest_inode(host_inode) == id
        }),
{
    let t0 = TrackerModel::fresh(backend);
    let plan = restore_plan(backend);
    let order = resolution_sequence(backend.nodes);
    lemma_plan(backend);
    restore_is_all_or_nothing(backend, lookups, opens);
    restored_numbers_lead_back(backend, lookups, opens);
    lemma_success_phases(backend, lookups, opens);
    lemma_found(t0, plan.nodes, lookups);
    let t1 = with_found(t0, plan.nodes, lookups);
    let t = restored(backend, lookups, opens).0;
    assert(t.host_inode(id) is Some);
    let host_inode = t.host_inode(id)->Some_0;
    assert(t.host_to_guest_inodes.contains_key(host_inode)) by {
        if id == ROOT_ID {
            assert(t0.host_to_guest_inodes.contains_key(ROOT_ID));
            assert(t1.host_to_guest_inodes.contains_key(ROOT_ID));
        } else {
            assert(is_within(backend.nodes, ROOT_ID, id));
            assert(is_resolvable(backend.nodes, id));
            assert(order.contains(id));
            let i = choose|i: int| 0 <= i < order.len() && order[i] == id;
            assert(lookups[i] is Ok);
            assert(t1.host_to_guest_inodes.contains_key(lookups[i]->Ok_0));
        }
    }
    let found = t.host_to_guest_inodes[host_inode];
    assert(t.host_inode(found) == Some(host_inode));
    restored_nodes_are_all_that_is_known(backend, lookups, opens, found);
}

/// Where the restore stands once the first `k` handles were opened.
proof fn lemma_after_opens<E>(
    t: TrackerModel,
    plan: RestorePlan,
    lookups: Seq<Result<u64, E>>,
    opens: Seq<Result<Option<u64>, E>>,
)
    requires
        plan.nodes.len() == 0,
        plan.complete,
        opens.len() < plan.handles.len(),
        forall|i: int| 0 <= i < opens.len() ==> gave_handle(#[trigger] opens[i]),
        forall|i: int|
            0 <= i < opens.len() ==> t.guest_to_host_inodes.contains_key(
                (#[trigger] plan.handles[i]).1.nodeid,
            ),
        t.guest_to_host_inodes.contains_key(plan.handles[opens.len() as int].1.nodeid),
    ensures
        ({
            let (t1, step) = run_restore(t, first_step(t, plan), lookups, opens);
            let (guest, state) = plan.handles[opens.len() as int];
            &&& t1.guest_to_host_inodes == t.guest_to_host_inodes
            &&& step matches RestoreStepModel::Open { call, guest_handle, rest }
            &&& call == reopening(t.guest_to_host_inodes[state.nodeid], state)
            &&& guest_handle == guest
        }),
    decreases opens.len(),
{
    reveal_with_fuel(run_restore, 2);
    if opens.len() > 0 {
        assert(gave_handle(opens[0]));
        assert(t.guest_to_host_inodes.contains_key(plan.handles[0].1.nodeid));
        let rest = RestorePlan { handles: plan.handles.drop_first(), ..plan };
        let t0 = t.with_handle(opens[0]->Ok_0->Some_0, plan.handles[0].0);
        assert forall|i: int| 0 <= i < opens.drop_first().len() implies gave_handle(
            #[trigger] opens.drop_first()[i],
        ) by {
            assert(gave_handle(opens[i + 1]));
        }
        assert forall|i: int|
            0 <= i < opens.drop_first().len() implies t0.guest_to_host_inodes.contains_key(
            (#[trigger] rest.handles[i]).1.nodeid,
        ) by {
            assert(rest.handles[i] == plan.handles[i + 1]);
        }
        assert(rest.handles[opens.len() - 1] == plan.handles[opens.len() as int]);
        lemma_after_opens(t0, rest, lookups, opens.drop_first());
    }
}

/// Once all nodes were found, each handle is opened again on the inode that was found for its node:
/// a directory handle as a directory and any other as a file, with exactly the flags that were kept
/// for it.
pub proof fn opens_follow_handles<E>(
    backend: BackendModel,
    lookups: Seq<Result<u64, E>>,
    opens: Seq<Result<Option<u64>, E>>,
)
    requires
        is_finite_state(backend),
        is_restorable(backend),
        lookups.len() >= resolution_sequence(backend.nodes).len(),
        forall|i: int|
            0 <= i < resolution_sequence(backend.nodes).len() ==> (#[trigger] lookups[i]) is Ok,
        opens.len() < in_order(backend.handles.dom()).len(),
        forall|i: int| 0 <= i < opens.len() ==> gave_handle(#[trigger] opens[i]),
    ensures
        ({
            let order = resolution_sequence(backend.nodes);
            let handle = in_order(backend.handles.dom())[opens.len() as int];
            let state = backend.handles[handle];
            let host_inode = if state.nodeid == ROOT_ID {
                ROOT_ID
            } else {
                lookups[order.index_of(state.nodeid)]->Ok_0
            };
            &&& restored(backend, lookups, opens).1 matches RestoreStepModel::Open {
                call,
                guest_handle,
                rest,
            }
            &&& state.is_dir ==> call == (OpenCall::Dir { inode: host_inode, flags: state.flags })
            &&& !state.is_dir ==> call == (OpenCall::File {
                inode: host_inode,
                flags: state.flags,
                fuse_flags: 0,
            })
            &&& guest_handle == handle
            &&& restored(backend, lookups, opens).0.host_inode(state.nodeid) == Some(host_inode)
        }),
{
    let k = opens.len() as int;
    let t0 = TrackerModel::fresh(backend);
    let plan = restore_plan(backend);
    let order = resolution_sequence(backend.nodes);
    let numbers = in_order(backend.handles.dom());
    lemma_plan(backend);
    lemma_fresh_nodes_found(backend, lookups);
    lemma_nodes_phase(t0, plan, lookups, opens);
    lemma_found(t0, plan.nodes, lookups);
    let t1 = with_found(t0, plan.nodes, lookups);
    let rest = RestorePlan { nodes: Seq::empty(), ..plan };
    assert forall|i: int| 0 <= i < numbers.len() implies t1.host_inode(
        (#[trigger] plan.handles[i]).1.nodeid,
    ) == Some(
        if plan.handles[i].1.nodeid == ROOT_ID {
            ROOT_ID
        } else {
            lookups[order.index_of(plan.handles[i].1.nodeid)]->Ok_0
        },
    ) by {
        assert(plan.handles[i] == (numbers[i], backend.handles[numbers[i]]));
        assert(numbers.contains(numbers[i]));
        assert(backend.handles.contains_key(numbers[i]));
        assert(belongs_to_node(backend, numbers[i]));
        let nodeid = plan.handles[i].1.nodeid;
        if nodeid == ROOT_ID {
            assert forall|j: int| 0 <= j < plan.nodes.len() implies #[trigger] plan.nodes[j].0
                != ROOT_ID by {
                assert(order.contains(order[j]));
            }
            assert(t1.host_inode(ROOT_ID) == t0.host_inode(ROOT_ID));
        } else {
            assert(is_within(backend.nodes, ROOT_ID, nodeid));
            assert(is_resolvable(backend.nodes, nodeid));
            assert(order.contains(nodeid));
            let at = order.index_of(nodeid);
            assert(plan.nodes[at].0 == nodeid);
            assert(lookups[at] is Ok);
            assert(t1.host_inode(plan.nodes[at].0) == Some(lookups[at]->Ok_0));
        }
    }
    assert forall|i: int| 0 <= i < k implies t1.guest_to_host_inodes.contains_key(
        (#[trigger] rest.handles[i]).1.nodeid,
    ) by {
        assert(t1.host_inode(plan.handles[i].1.nodeid) is Some);
    }
    assert(t1.host_inode(plan.handles[k].1.nodeid) is Some);
    lemma_after_opens(t1, rest, lookups.skip(plan.nodes.len() as int), opens);
    assert(plan.handles[k] == (numbers[k], backend.handles[numbers[k]]));
}

} // verus!
