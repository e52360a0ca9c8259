//! What the operations of the tracker answer and change, said of the entries of its tables.

use vstd::prelude::*;

use crate::laws::node_at_finds_the_lowest;
use crate::model::{called, node_at, subtree, NodePlace, TrackerModel};
use crate::path::same_path;
use crate::state::{BackendState, FsState, HandleState};
use crate::table_laws::{
    a_cleared_place_loses_what_stood_there, a_placed_node_has_room, a_subtree_hangs_on_its_top,
    makes_room, moved_nodes_have_room,
};
use crate::tracking::TrackingFileSystem;

verus! {

/// What is said of a snapshot is said of all its fields: the nodes with their parents and the bytes
/// of their names, the handles, the features and the queue sizes.
pub proof fn snapshots_are_seen_whole(state: FsState)
    ensures
        state@.avail_features == state.avail_features,
        state@.acked_features == state.acked_features,
        state@.queue_sizes == state.queue_sizes@,
        state@.backend == state.backend@,
        state@.backend.handles == state.backend.handles@,
        state@.backend.nodes.dom() == state.backend.node_mappings@.dom(),
        forall|id: u64| #[trigger]
            state.backend.node_mappings@.contains_key(id) ==> state@.backend.nodes[id].parent
                == state.backend.node_mappings@[id].0 && state@.backend.nodes[id].name
                == state.backend.node_mappings@[id].1@,
{
    assert(state@.backend.nodes.dom() =~= state.backend.node_mappings@.dom());
}

/// A new tracker keeps the state that it is given, and knows the root, as the number 1 on both
/// sides, and nothing else.
pub proof fn a_new_tracker_knows_the_root(state: BackendState, tracker: TrackingFileSystem)
    requires
        call_ensures(TrackingFileSystem::new, (state,), tracker),
    ensures
        tracker@.backend == state@,
        forall|n: u64| #[trigger]
            tracker@.guest_to_host_inodes.contains_key(n) <==> n == 1,
        forall|n: u64| #[trigger]
            tracker@.host_to_guest_inodes.contains_key(n) <==> n == 1,
        tracker@.guest_to_host_inodes[1] == 1,
        tracker@.host_to_guest_inodes[1] == 1,
        tracker@.guest_to_host_handles == Map::<u64, u64>::empty(),
        tracker@.host_to_guest_handles == Map::<u64, u64>::empty(),
{
}

/// A tracker of no state keeps no node and no handle.
pub proof fn no_state_is_empty(state: BackendState)
    requires
        call_ensures(BackendState::default, (), state),
    ensures
        forall|id: u64| !(#[trigger] state@.nodes.contains_key(id)),
        forall|h: u64| !(#[trigger] state@.handles.contains_key(h)),
{
}

/// What a snapshot takes of the tracker is what the tracker keeps.
pub proof fn the_kept_state_is_given_out(tracker: TrackingFileSystem, state: &BackendState)
    requires
        call_ensures(TrackingFileSystem::state, (&tracker,), state),
    ensures
        state@.nodes == tracker@.backend.nodes,
        state@.handles == tracker@.backend.handles,
{
}

/// An inode of the guest is translated by the table of inodes, and refused with error 2 where it
/// is not in it.
pub proof fn guest_inodes_are_translated(
    tracker: TrackingFileSystem,
    guest_inode: u64,
    host: Result<u64, i32>,
)
    requires
        call_ensures(TrackingFileSystem::map_guest_inode, (&tracker, guest_inode), host),
    ensures
        tracker@.guest_to_host_inodes.contains_key(guest_inode) ==> host == Ok::<u64, i32>(
            tracker@.guest_to_host_inodes[guest_inode],
        ),
        !tracker@.guest_to_host_inodes.contains_key(guest_inode) ==> host == Err::<u64, i32>(2),
{
}

/// A handle of the guest is translated by the table of handles, and stands for itself where it is
/// not in it.
pub proof fn guest_handles_are_translated(
    tracker: TrackingFileSystem,
    guest_handle: u64,
    host_handle: u64,
)
    requires
        call_ensures(TrackingFileSystem::map_guest_handle, (&tracker, guest_handle), host_handle),
    ensures
        tracker@.guest_to_host_handles.contains_key(guest_handle) ==> host_handle
            == tracker@.guest_to_host_handles[guest_handle],
        !tracker@.guest_to_host_handles.contains_key(guest_handle) ==> host_handle == guest_handle,
{
}

/// A pair of inodes is entered on both sides, and nothing else changes.
pub proof fn inodes_are_paired(
    tracker: &mut TrackingFileSystem,
    host_inode: u64,
    guest_inode: u64,
)
    requires
        call_ensures(
            TrackingFileSystem::map_host_inode,
            (tracker, host_inode, guest_inode),
            (),
        ),
    ensures
        ({
            let before = old(tracker)@;
            let after = final(tracker)@;
            &&& after.guest_to_host_inodes == before.guest_to_host_inodes.insert(
                guest_inode,
                host_inode,
            )
            &&& after.host_to_guest_inodes == before.host_to_guest_inodes.insert(
                host_inode,
                guest_inode,
            )
            &&& after.guest_to_host_handles == before.guest_to_host_handles
            &&& after.host_to_guest_handles == before.host_to_guest_handles
            &&& after.backend == before.backend
        }),
{
}

/// A pair of handles is entered on both sides, and nothing else changes.
pub proof fn handles_are_paired(
    tracker: &mut TrackingFileSystem,
    host_handle: u64,
    guest_handle: u64,
)
    requires
        call_ensures(
            TrackingFileSystem::map_host_handle,
            (tracker, host_handle, guest_handle),
            (),
        ),
    ensures
        ({
            let before = old(tracker)@;
            let after = final(tracker)@;
            &&& after.guest_to_host_handles == before.guest_to_host_handles.insert(
                guest_handle,
                host_handle,
            )
            &&& after.host_to_guest_handles == before.host_to_guest_handles.insert(
                host_handle,
                guest_handle,
            )
            &&& after.guest_to_host_inodes == before.guest_to_host_inodes
            &&& after.host_to_guest_inodes == before.host_to_guest_inodes
            &&& after.backend == before.backend
        }),
{
}

/// A pair of handles is taken out on both sides, and nothing else changes.
pub proof fn handles_are_parted(tracker: &mut TrackingFileSystem, guest_handle: u64)
    requires
        call_ensures(TrackingFileSystem::remove_handle_mapping, (tracker, guest_handle), ()),
    ensures
        ({
            let before = old(tracker)@;
            let after = final(tracker)@;
            &&& after.guest_to_host_handles == before.guest_to_host_handles.remove(guest_handle)
            &&& before.guest_to_host_handles.contains_key(guest_handle)
                ==> after.host_to_guest_handles == before.host_to_guest_handles.remove(
                before.guest_to_host_handles[guest_handle],
            )
            &&& !before.guest_to_host_handles.contains_key(guest_handle)
                ==> after.host_to_guest_handles == before.host_to_guest_handles
            &&& after.guest_to_host_inodes == before.guest_to_host_inodes
            &&& after.host_to_guest_inodes == before.host_to_guest_inodes
            &&& after.backend == before.backend
        }),
{
    let before = old(tracker)@;
    if !before.guest_to_host_handles.contains_key(guest_handle) {
        assert(before.guest_to_host_handles.remove(guest_handle) =~= before.guest_to_host_handles);
    }
}

/// A host inode that is known keeps its number; one that is not gets its own, on both sides.
/// Nothing else changes.
pub proof fn host_inodes_get_a_number(
    tracker: &mut TrackingFileSystem,
    host_inode: u64,
    guest_inode: u64,
)
    requires
        call_ensures(TrackingFileSystem::register_host_inode, (tracker, host_inode), guest_inode),
    ensures
        ({
            let before = old(tracker)@;
            let after = final(tracker)@;
            &&& before.host_to_guest_inodes.contains_key(host_inode) ==> guest_inode
                == before.host_to_guest_inodes[host_inode] && after == before
            &&& !before.host_to_guest_inodes.contains_key(host_inode) ==> guest_inode == host_inode
                && after.guest_to_host_inodes == before.guest_to_host_inodes.insert(
                host_inode,
                host_inode,
            ) && after.host_to_guest_inodes == before.host_to_guest_inodes.insert(
                host_inode,
                host_inode,
            )
            &&& after.guest_to_host_handles == before.guest_to_host_handles
            &&& after.host_to_guest_handles == before.host_to_guest_handles
            &&& after.backend == before.backend
        }),
{
}

/// The state of a handle is kept under its number, and nothing else changes.
pub proof fn handle_states_are_kept(
    tracker: &mut TrackingFileSystem,
    handle: u64,
    state: HandleState,
)
    requires
        call_ensures(TrackingFileSystem::insert_handle_state, (tracker, handle, state), ()),
    ensures
        ({
            let before = old(tracker)@;
            let after = final(tracker)@;
            &&& after.backend.handles == before.backend.handles.insert(handle, state)
            &&& after.backend.nodes == before.backend.nodes
            &&& after.guest_to_host_inodes == before.guest_to_host_inodes
            &&& after.host_to_guest_inodes == before.host_to_guest_inodes
            &&& after.guest_to_host_handles == before.guest_to_host_handles
            &&& after.host_to_guest_handles == before.host_to_guest_handles
        }),
{
}

/// The state of a handle is dropped, and nothing else changes.
pub proof fn handle_states_are_dropped(tracker: &mut TrackingFileSystem, handle: u64)
    requires
        call_ensures(TrackingFileSystem::remove_handle_state, (tracker, handle), ()),
    ensures
        ({
            let before = old(tracker)@;
            let after = final(tracker)@;
            &&& after.backend.handles == before.backend.handles.remove(handle)
            &&& after.backend.nodes == before.backend.nodes
            &&& after.guest_to_host_inodes == before.guest_to_host_inodes
            &&& after.host_to_guest_inodes == before.host_to_guest_inodes
            &&& after.guest_to_host_handles == before.guest_to_host_handles
            &&& after.host_to_guest_handles == before.host_to_guest_handles
        }),
{
}

/// Whether the guest's number `a` stands for the host inode that `b` stands for, or for one that
/// the guest knows as `b`.
pub open spec fn one_inode(t: TrackerModel, a: u64, b: u64) -> bool {
    t.guest_to_host_inodes.contains_key(a) && {
        ||| t.guest_to_host_inodes.contains_key(b) && t.guest_to_host_inodes[a]
            == t.guest_to_host_inodes[b]
        ||| t.host_to_guest_inodes.contains_key(t.guest_to_host_inodes[a])
            && t.host_to_guest_inodes[t.guest_to_host_inodes[a]] == b
    }
}

/// `id` and the guest's other numbers for its inode.
pub open spec fn numbers_of(t: TrackerModel, id: u64) -> Set<u64> {
    Set::new(|other: u64| other == id || one_inode(t, other, id))
}

/// The nodes that are called `name` in `dir`, and the guest's other numbers for their inodes.
pub open spec fn numbers_called(
    t: TrackerModel,
    nodes: Map<u64, NodePlace>,
    dir: u64,
    name: Seq<u8>,
) -> Set<u64> {
    Set::new(
        |id: u64|
            exists|other: u64| #[trigger]
                nodes.contains_key(other) && nodes[other].parent == dir && same_path(
                    nodes[other].name,
                    name,
                ) && (id == other || one_inode(t, id, other)),
    )
}

/// Whether a record of nodes has come from `before` to `after` by placing `id` as `name` in
/// `parent`, where `t` has the numbers: `id` stands there; every other node is where it was or has
/// left; numbers of the inode of `id` and the root stay; what else stood there has left with what
/// lay in it; and nothing more has.
pub open spec fn is_recorded_at(
    t: TrackerModel,
    before: Map<u64, NodePlace>,
    after: Map<u64, NodePlace>,
    id: u64,
    parent: u64,
    name: Seq<u8>,
) -> bool {
    &&& after.contains_key(id)
    &&& after[id].parent == parent
    &&& after[id].name == name
    &&& forall|other: u64| #[trigger]
        after.contains_key(other) && other != id ==> before.contains_key(other) && after[other]
            == before[other]
    &&& forall|other: u64| #[trigger]
        before.contains_key(other) && (one_inode(t, other, id) || other == 1)
            ==> after.contains_key(other)
    &&& forall|other: u64| #[trigger]
        before.contains_key(other) && other != id && other != 1 && !one_inode(t, other, id)
            && before[other].parent == parent && same_path(before[other].name, name)
            ==> !after.contains_key(other)
    &&& forall|other: u64| #[trigger]
        before.contains_key(other) && !after.contains_key(other) ==> (before[other].parent
            == parent && same_path(before[other].name, name)) || (before.contains_key(
            before[other].parent,
        ) && !after.contains_key(before[other].parent))
    &&& makes_room(before, after, numbers_of(t, id), parent, name)
}

/// With a node placed in the model, the record is as [`is_recorded_at`] says, and nothing else
/// changes.
pub proof fn a_node_is_recorded(t: TrackerModel, nodeid: u64, parent: u64, name: Seq<u8>)
    ensures
        ({
            let after = t.with_node(nodeid, parent, name);
            &&& is_recorded_at(t, t.backend.nodes, after.backend.nodes, nodeid, parent, name)
            &&& after.backend.handles == t.backend.handles
            &&& after.guest_to_host_inodes == t.guest_to_host_inodes
            &&& after.host_to_guest_inodes == t.host_to_guest_inodes
            &&& after.guest_to_host_handles == t.guest_to_host_handles
            &&& after.host_to_guest_handles == t.host_to_guest_handles
        }),
{
    let nodes = t.backend.nodes;
    let spared = t.sharing(set![nodeid]);
    let after = t.with_node(nodeid, parent, name).backend.nodes;
    lemma_numbers_of_one(t, nodeid);
    a_placed_node_has_room(nodes, spared, nodeid, parent, name);
    a_cleared_place_loses_what_stood_there(nodes, spared, parent, name, Set::empty());
}

pub(crate) proof fn lemma_same_numbers(a: TrackerModel, b: TrackerModel, id: u64)
    requires
        a.guest_to_host_inodes == b.guest_to_host_inodes,
        a.host_to_guest_inodes == b.host_to_guest_inodes,
    ensures
        numbers_of(a, id) == numbers_of(b, id),
{
    assert(numbers_of(a, id) =~= numbers_of(b, id));
}

proof fn lemma_numbers_of_one(t: TrackerModel, id: u64)
    ensures
        t.sharing(set![id]) == numbers_of(t, id),
{
    assert(set![id].contains(id));
    assert(t.sharing(set![id]) =~= numbers_of(t, id));
}

/// A node is recorded under its number, its parent and its name.
pub proof fn nodes_are_recorded(
    tracker: &mut TrackingFileSystem,
    nodeid: u64,
    parent: u64,
    name: &[u8],
)
    requires
        call_ensures(
            TrackingFileSystem::insert_node_mapping,
            (tracker, nodeid, parent, name),
            (),
        ),
    ensures
        ({
            let before = old(tracker)@;
            let after = final(tracker)@;
            &&& is_recorded_at(
                before,
                before.backend.nodes,
                after.backend.nodes,
                nodeid,
                parent,
                name@,
            )
            &&& after.backend.handles == before.backend.handles
            &&& after.guest_to_host_inodes == before.guest_to_host_inodes
            &&& after.host_to_guest_inodes == before.host_to_guest_inodes
            &&& after.guest_to_host_handles == before.guest_to_host_handles
            &&& after.host_to_guest_handles == before.host_to_guest_handles
        }),
{
    a_node_is_recorded(old(tracker)@, nodeid, parent, name@);
}

/// Whether `top` is the lowest node with this parent and, as a path, this name.
pub open spec fn is_lowest_at(
    nodes: Map<u64, NodePlace>,
    parent: u64,
    name: Seq<u8>,
    top: u64,
) -> bool {
    &&& nodes.contains_key(top)
    &&& nodes[top].parent == parent
    &&& same_path(nodes[top].name, name)
    &&& forall|other: u64| #[trigger]
        nodes.contains_key(other) && nodes[other].parent == parent && same_path(
            nodes[other].name,
            name,
        ) ==> top <= other
}

/// Whether the state has come from `before` to `after` by forgetting `top`: with it leave the nodes
/// whose parent leaves, and no others; the guest's numbers that leave stand for no host inode, and
/// no host inode is known by them.
pub open spec fn is_forgotten(before: TrackerModel, after: TrackerModel, top: u64) -> bool {
    let gone = |id: u64|
        before.backend.nodes.contains_key(id) && !after.backend.nodes.contains_key(id);
    &&& gone(top)
    &&& forall|id: u64| #[trigger]
        after.backend.nodes.contains_key(id) ==> before.backend.nodes.contains_key(id)
            && after.backend.nodes[id] == before.backend.nodes[id]
    &&& forall|id: u64| #[trigger]
        before.backend.nodes.contains_key(id) ==> (gone(id) <==> id == top || gone(
            before.backend.nodes[id].parent,
        ))
    &&& forall|id: u64| #[trigger]
        after.guest_to_host_inodes.contains_key(id) <==> before.guest_to_host_inodes.contains_key(
            id,
        ) && !gone(id)
    &&& forall|id: u64| #[trigger]
        after.guest_to_host_inodes.contains_key(id) ==> after.guest_to_host_inodes[id]
            == before.guest_to_host_inodes[id]
    &&& forall|h: u64| #[trigger]
        after.host_to_guest_inodes.contains_key(h) <==> before.host_to_guest_inodes.contains_key(h)
            && !gone(before.host_to_guest_inodes[h])
    &&& forall|h: u64| #[trigger]
        after.host_to_guest_inodes.contains_key(h) ==> after.host_to_guest_inodes[h]
            == before.host_to_guest_inodes[h]
    &&& after.backend.handles == before.backend.handles
    &&& after.guest_to_host_handles == before.guest_to_host_handles
    &&& after.host_to_guest_handles == before.host_to_guest_handles
}

/// Whether the state has come from `before` to `after` by forgetting a place: its lowest node is
/// forgotten, as [`is_forgotten`] says; where no node has the place, nothing changes. What leaves
/// is no more than `held`, where that holds the node and, with a node, its children.
pub open spec fn is_place_forgotten(
    before: TrackerModel,
    after: TrackerModel,
    parent: u64,
    name: Seq<u8>,
    held: Set<u64>,
) -> bool {
    let nodes = before.backend.nodes;
    &&& (exists|top: u64| is_lowest_at(nodes, parent, name, top)) || after == before
    &&& forall|top: u64| #[trigger]
        is_lowest_at(nodes, parent, name, top) ==> is_forgotten(before, after, top)
    &&& forall|top: u64| #[trigger]
        is_lowest_at(nodes, parent, name, top) && held.contains(top) && (forall|id: u64| #[trigger]
            nodes.contains_key(id) && held.contains(nodes[id].parent) ==> held.contains(id))
            ==> forall|id: u64| #[trigger]
            nodes.contains_key(id) && !after.backend.nodes.contains_key(id) ==> held.contains(id)
}

/// With a place forgotten in the model, the state is as [`is_place_forgotten`] says.
pub proof fn a_place_is_forgotten(t: TrackerModel, parent: u64, name: Seq<u8>, held: Set<u64>)
    ensures
        is_place_forgotten(t, t.without_node_at(parent, name), parent, name, held),
{
    let nodes = t.backend.nodes;
    let after = t.without_node_at(parent, name);
    node_at_finds_the_lowest(nodes, parent, name);
    if let Some(found) = node_at(nodes, parent, name) {
        assert(is_lowest_at(nodes, parent, name, found));
    }
    assert forall|top: u64| #[trigger] is_lowest_at(nodes, parent, name, top) implies is_forgotten(
        t,
        after,
        top,
    ) by {
        lemma_lowest_is_found(nodes, parent, name, top);
        let tree = subtree(nodes, top);
        a_subtree_hangs_on_its_top(nodes, top, held);
        let gone = |id: u64| nodes.contains_key(id) && !after.backend.nodes.contains_key(id);
        assert forall|id: u64| gone(id) == #[trigger] tree.contains(id) by {}
        assert forall|id: u64| #[trigger] nodes.contains_key(id) implies (gone(id) <==> id == top
            || gone(nodes[id].parent)) by {
            assert(tree.contains(id) == gone(id));
            assert(tree.contains(nodes[id].parent) == gone(nodes[id].parent));
            assert(tree.contains(top));
        }
    }
    assert forall|top: u64| #[trigger]
        is_lowest_at(nodes, parent, name, top) && held.contains(top) && (forall|id: u64| #[trigger]
            nodes.contains_key(id) && held.contains(nodes[id].parent) ==> held.contains(
                id,
            )) implies forall|id: u64| #[trigger]
        nodes.contains_key(id) && !after.backend.nodes.contains_key(id) ==> held.contains(id) by {
        lemma_lowest_is_found(nodes, parent, name, top);
        a_subtree_hangs_on_its_top(nodes, top, held);
    }
}

proof fn lemma_lowest_is_found(nodes: Map<u64, NodePlace>, parent: u64, name: Seq<u8>, top: u64)
    requires
        is_lowest_at(nodes, parent, name, top),
    ensures
        node_at(nodes, parent, name) == Some(top),
{
    node_at_finds_the_lowest(nodes, parent, name);
    assert(nodes.contains_key(top));
    let found = node_at(nodes, parent, name)->Some_0;
    assert(nodes.contains_key(found));
}

/// The lowest node at a place is forgotten, with all that lies in it.
pub proof fn nodes_are_forgotten(
    tracker: &mut TrackingFileSystem,
    parent: u64,
    name: &[u8],
    held: Set<u64>,
)
    requires
        call_ensures(TrackingFileSystem::remove_node_mapping, (tracker, parent, name), ()),
    ensures
        is_place_forgotten(old(tracker)@, final(tracker)@, parent, name@, held),
{
    a_place_is_forgotten(old(tracker)@, parent, name@, held);
}

/// Whether a record of nodes has come from `before` to `after` by moving what is called `oldname`
/// in `olddir` to `newname` in `newdir`, where `t` has the numbers: what was there is at the new
/// place; every other node is where it was or has left; other numbers of a moved inode and the root
/// stay; what else stood at the new place has left with what lay in it, and nothing more has; and
/// nothing stands at the old place, unless it is the new one.
pub open spec fn is_moved(
    t: TrackerModel,
    before: Map<u64, NodePlace>,
    after: Map<u64, NodePlace>,
    olddir: u64,
    oldname: Seq<u8>,
    newdir: u64,
    newname: Seq<u8>,
) -> bool {
    let moves = |id: u64|
        before.contains_key(id) && before[id].parent == olddir && same_path(
            before[id].name,
            oldname,
        );
    &&& forall|id: u64| #[trigger]
        before.contains_key(id) && moves(id) ==> after.contains_key(id) && after[id].parent
            == newdir && after[id].name == newname
    &&& forall|id: u64| #[trigger]
        after.contains_key(id) ==> before.contains_key(id) && (moves(id) || after[id]
            == before[id])
    &&& forall|id: u64, other: u64|
        #![trigger before.contains_key(id), before.contains_key(other)]
        before.contains_key(id) && before.contains_key(other) && moves(other) && one_inode(
            t,
            id,
            other,
        ) ==> after.contains_key(id)
    &&& before.contains_key(1) ==> after.contains_key(1)
    &&& forall|id: u64| #[trigger]
        after.contains_key(id) && id != 1 && !moves(id) && after[id].parent == newdir && same_path(
            after[id].name,
            newname,
        ) ==> exists|other: u64| #[trigger] before.contains_key(other) && moves(other) && one_inode(
            t,
            id,
            other,
        )
    &&& forall|id: u64| #[trigger]
        before.contains_key(id) && !after.contains_key(id) ==> (before[id].parent == newdir
            && same_path(before[id].name, newname)) || (before.contains_key(before[id].parent)
            && !after.contains_key(before[id].parent))
    &&& olddir != newdir || !same_path(oldname, newname) ==> forall|id: u64| #[trigger]
        after.contains_key(id) && after[id].parent == olddir ==> !same_path(after[id].name, oldname)
    &&& makes_room(before, after, numbers_called(t, before, olddir, oldname), newdir, newname)
}

/// Whether a record of nodes has come from `before` to `after` by an exchange of what is called
/// `oldname` in `olddir` and what is called `newname` in `newdir`: no node leaves or comes, those
/// two have changed places, and every other node is where it was.
pub open spec fn is_exchanged(
    before: Map<u64, NodePlace>,
    after: Map<u64, NodePlace>,
    olddir: u64,
    oldname: Seq<u8>,
    newdir: u64,
    newname: Seq<u8>,
) -> bool {
    let is_old = |id: u64| before[id].parent == olddir && same_path(before[id].name, oldname);
    let is_new = |id: u64| before[id].parent == newdir && same_path(before[id].name, newname);
    &&& forall|id: u64| #[trigger] after.contains_key(id) <==> before.contains_key(id)
    &&& forall|id: u64| #[trigger]
        before.contains_key(id) && is_old(id) ==> after[id].parent == newdir && after[id].name
            == newname
    &&& forall|id: u64| #[trigger]
        before.contains_key(id) && is_new(id) && !is_old(id) ==> after[id].parent == olddir
            && after[id].name == oldname
    &&& forall|id: u64| #[trigger]
        before.contains_key(id) && !is_new(id) && !is_old(id) ==> after[id] == before[id]
}

/// With nodes moved in the model, the record is as [`is_moved`] says, and nothing else changes.
pub proof fn a_node_is_moved(
    t: TrackerModel,
    olddir: u64,
    oldname: Seq<u8>,
    newdir: u64,
    newname: Seq<u8>,
)
    ensures
        ({
            let after = t.with_nodes_moved(olddir, oldname, newdir, newname);
            &&& is_moved(
                t,
                t.backend.nodes,
                after.backend.nodes,
                olddir,
                oldname,
                newdir,
                newname,
            )
            &&& after.backend.handles == t.backend.handles
            &&& after.guest_to_host_inodes == t.guest_to_host_inodes
            &&& after.host_to_guest_inodes == t.host_to_guest_inodes
            &&& after.guest_to_host_handles == t.guest_to_host_handles
            &&& after.host_to_guest_handles == t.host_to_guest_handles
        }),
{
    let nodes = t.backend.nodes;
    let moving = called(nodes, olddir, oldname);
    let spared = t.sharing(moving);
    let after = t.with_nodes_moved(olddir, oldname, newdir, newname).backend.nodes;
    a_cleared_place_loses_what_stood_there(nodes, spared, newdir, newname, Set::empty());
    assert forall|id: u64, other: u64|
        #![trigger nodes.contains_key(id), nodes.contains_key(other)]
        nodes.contains_key(id) && nodes.contains_key(other) && moving.contains(other) && one_inode(
            t,
            id,
            other,
        ) implies after.contains_key(id) by {
        assert(spared.contains(id));
    }
    assert forall|id: u64| #[trigger]
        after.contains_key(id) && id != 1 && !moving.contains(id) && after[id].parent == newdir
            && same_path(after[id].name, newname) implies exists|other: u64| #[trigger]
        nodes.contains_key(other) && moving.contains(other) && one_inode(t, id, other) by {
        assert(nodes.contains_key(id));
        assert(spared.contains(id));
        let h = t.guest_to_host_inodes[id];
        if t.host_to_guest_inodes.contains_key(h) && moving.contains(t.host_to_guest_inodes[h]) {
            assert(nodes.contains_key(t.host_to_guest_inodes[h]));
        } else {
            let other = choose|other: u64| #[trigger]
                moving.contains(other) && t.host_inode(other) == Some(h);
            assert(nodes.contains_key(other));
        }
    }
    assert forall|id: u64| #[trigger]
        nodes.contains_key(id) && !after.contains_key(id) implies (nodes[id].parent == newdir
        && same_path(nodes[id].name, newname)) || (nodes.contains_key(nodes[id].parent)
        && !after.contains_key(nodes[id].parent)) by {}
    moved_nodes_have_room(nodes, spared, olddir, oldname, newdir, newname);
    lemma_numbers_of_called(t, olddir, oldname);
}

proof fn lemma_numbers_of_called(t: TrackerModel, dir: u64, name: Seq<u8>)
    ensures
        t.sharing(called(t.backend.nodes, dir, name)) == numbers_called(
            t,
            t.backend.nodes,
            dir,
            name,
        ),
{
    let nodes = t.backend.nodes;
    let there = called(nodes, dir, name);
    let all = numbers_called(t, nodes, dir, name);
    assert forall|id: u64| t.sharing(there).contains(id) == all.contains(id) by {
        if t.sharing(there).contains(id) {
            let h = t.guest_to_host_inodes[id];
            if there.contains(id) {
                assert(nodes.contains_key(id));
            } else if t.host_to_guest_inodes.contains_key(h) && there.contains(
                t.host_to_guest_inodes[h],
            ) {
                assert(nodes.contains_key(t.host_to_guest_inodes[h]));
            } else {
                let other = choose|other: u64| #[trigger]
                    there.contains(other) && t.host_inode(other) == Some(h);
                assert(nodes.contains_key(other));
            }
        }
        if all.contains(id) {
            let other = choose|other: u64| #[trigger]
                nodes.contains_key(other) && nodes[other].parent == dir && same_path(
                    nodes[other].name,
                    name,
                ) && (id == other || one_inode(t, id, other));
            assert(there.contains(other));
        }
    }
    assert(t.sharing(there) =~= all);
}

/// A move takes the nodes of a place to another, as [`is_moved`] says.
pub proof fn nodes_are_moved(
    tracker: &mut TrackingFileSystem,
    olddir: u64,
    oldname: &[u8],
    newdir: u64,
    newname: &[u8],
)
    requires
        call_ensures(
            TrackingFileSystem::update_node_mapping,
            (tracker, olddir, oldname, newdir, newname),
            (),
        ),
    ensures
        ({
            let before = old(tracker)@;
            let after = final(tracker)@;
            &&& is_moved(
                before,
                before.backend.nodes,
                after.backend.nodes,
                olddir,
                oldname@,
                newdir,
                newname@,
            )
            &&& after.backend.handles == before.backend.handles
            &&& after.guest_to_host_inodes == before.guest_to_host_inodes
            &&& after.host_to_guest_inodes == before.host_to_guest_inodes
            &&& after.guest_to_host_handles == before.guest_to_host_handles
            &&& after.host_to_guest_handles == before.host_to_guest_handles
        }),
{
    a_node_is_moved(old(tracker)@, olddir, oldname@, newdir, newname@);
}

/// With nodes exchanged in the model, the record is as [`is_exchanged`] says, and nothing else
/// changes.
pub proof fn two_nodes_are_exchanged(
    t: TrackerModel,
    olddir: u64,
    oldname: Seq<u8>,
    newdir: u64,
    newname: Seq<u8>,
)
    ensures
        ({
            let after = t.with_nodes_exchanged(olddir, oldname, newdir, newname);
            &&& is_exchanged(
                t.backend.nodes,
                after.backend.nodes,
                olddir,
                oldname,
                newdir,
                newname,
            )
            &&& after.backend.handles == t.backend.handles
            &&& after.guest_to_host_inodes == t.guest_to_host_inodes
            &&& after.host_to_guest_inodes == t.host_to_guest_inodes
            &&& after.guest_to_host_handles == t.guest_to_host_handles
            &&& after.host_to_guest_handles == t.host_to_guest_handles
        }),
{
}

/// An exchange lets the nodes of two places change them, as [`is_exchanged`] says.
pub proof fn nodes_are_exchanged(
    tracker: &mut TrackingFileSystem,
    olddir: u64,
    oldname: &[u8],
    newdir: u64,
    newname: &[u8],
)
    requires
        call_ensures(
            TrackingFileSystem::exchange_node_mappings,
            (tracker, olddir, oldname, newdir, newname),
            (),
        ),
    ensures
        ({
            let before = old(tracker)@;
            let after = final(tracker)@;
            &&& is_exchanged(
                before.backend.nodes,
                after.backend.nodes,
                olddir,
                oldname@,
                newdir,
                newname@,
            )
            &&& after.backend.handles == before.backend.handles
            &&& after.guest_to_host_inodes == before.guest_to_host_inodes
            &&& after.host_to_guest_inodes == before.host_to_guest_inodes
            &&& after.guest_to_host_handles == before.guest_to_host_handles
            &&& after.host_to_guest_handles == before.host_to_guest_handles
        }),
{
    two_nodes_are_exchanged(old(tracker)@, olddir, oldname@, newdir, newname@);
}

} // verus!
