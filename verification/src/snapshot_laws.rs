//! What requests and restores do to the snapshot of a device.

use vstd::prelude::*;

use crate::changes::{changed, Change};
use crate::device::Fs;
use crate::laws::{
    dropped, dropped_nodes_are_not_kept, movers, removing_keeps_all_resolvable, spared,
};
use crate::model::{
    ancestor, called, cleared, displaced, exchanged, is_within, moved, others, placed, stands_in,
    BackendModel, FsStateModel, NodePlace, TrackerModel, ROOT_ID,
};
use crate::placing::lemma_child_within;
use crate::resolution::all_resolvable;
use crate::restore::{after_lookup, after_open, first_step, restore_plan, RestoreStepModel};
use crate::restore_laws::{
    belongs_to_node, is_finite_state, is_restorable, restore_is_all_or_nothing, restored,
    run_restore, succeeded,
};

verus! {

/// Whether `id` is the root or a node that is kept.
pub open spec fn is_kept(nodes: Map<u64, NodePlace>, id: u64) -> bool {
    id == ROOT_ID || nodes.contains_key(id)
}

/// `nodes` without what is recorded of the root: every chain of parents ends there.
pub open spec fn below_root(nodes: Map<u64, NodePlace>) -> Map<u64, NodePlace> {
    nodes.remove(ROOT_ID)
}

/// Whether `movers` may come to stand in `dir`, where all of `placed` get new places: the directory
/// is kept, and it lies in none of `placed`.
pub open spec fn fits_in(
    nodes: Map<u64, NodePlace>,
    movers: Set<u64>,
    placed: Set<u64>,
    dir: u64,
) -> bool {
    (exists|id: u64| #[trigger] movers.contains(id) && id != ROOT_ID) ==> {
        &&& is_kept(nodes, dir)
        &&& forall|top: u64|
            placed.contains(top) && top != ROOT_ID ==> !(#[trigger] is_within(
                below_root(nodes),
                top,
                dir,
            ))
    }
}

/// Whether none of the handles, but `reopened`, belongs to a node in `gone`.
pub open spec fn spares_handles(
    backend: BackendModel,
    gone: Set<u64>,
    reopened: Option<u64>,
) -> bool {
    forall|h: u64| #[trigger]
        backend.handles.contains_key(h) && reopened != Some(h) ==> backend.handles[h].nodeid
            == ROOT_ID || !gone.contains(backend.handles[h].nodeid)
}

/// Whether none of `spared`, but `movers`, was in a directory in `gone`.
pub open spec fn strands_none(
    nodes: Map<u64, NodePlace>,
    spared: Set<u64>,
    movers: Set<u64>,
    gone: Set<u64>,
) -> bool {
    forall|id: u64| #[trigger]
        nodes.contains_key(id) && id != ROOT_ID && spared.contains(id) && !movers.contains(id)
            ==> !gone.contains(nodes[id].parent)
}

/// Whether the nodes that `change` places in `dir` leave every node in the root, and every handle
/// but `reopened` on a node that is kept.
pub open spec fn places_well(
    t: TrackerModel,
    change: Change,
    dir: u64,
    reopened: Option<u64>,
) -> bool {
    let nodes = t.backend.nodes;
    let gone = dropped(t, change);
    &&& fits_in(nodes.remove_keys(gone), movers(t, change), movers(t, change), dir)
    &&& strands_none(nodes, spared(t, change), movers(t, change), gone)
    &&& spares_handles(t.backend, gone, reopened)
}

/// Whether `change` leaves every node in the root and every handle on a node that is kept.
pub open spec fn keeps_paths(t: TrackerModel, change: Change) -> bool {
    let nodes = t.backend.nodes;
    match change {
        Change::Lookup { parent, name, host_inode } => places_well(t, change, parent, None),
        Change::Make { parent, name, host_inode } => places_well(t, change, parent, None),
        Change::Create { parent, name, flags, host_inode, handle } => places_well(
            t,
            change,
            parent,
            handle,
        ),
        Change::Open { inode, flags, is_dir, handle } => handle is Some ==> is_kept(nodes, inode),
        Change::Remove { parent, name } => spares_handles(t.backend, dropped(t, change), None),
        Change::Rename { olddir, oldname, newdir, newname } => places_well(
            t,
            change,
            newdir,
            None,
        ),
        Change::Exchange { olddir, oldname, newdir, newname } => {
            let there = called(nodes, olddir, oldname);
            let here = called(nodes, newdir, newname).difference(there);
            &&& fits_in(nodes, there, there + here, newdir)
            &&& fits_in(nodes, here, there + here, olddir)
        },
        _ => true,
    }
}

/// Whether `after` is `nodes` without `gone` and with new places for `placed`, and `gone` holds
/// whatever lies in it.
spec fn is_replaced(
    nodes: Map<u64, NodePlace>,
    after: Map<u64, NodePlace>,
    gone: Set<u64>,
    placed: Set<u64>,
) -> bool {
    &&& !gone.contains(ROOT_ID)
    &&& forall|id: u64| #[trigger] placed.contains(id) ==> !gone.contains(id)
    &&& forall|id: u64| #[trigger]
        nodes.contains_key(id) && id != ROOT_ID && !placed.contains(id) && gone.contains(
            nodes[id].parent,
        ) ==> gone.contains(id)
    &&& forall|id: u64|
        id != ROOT_ID ==> (#[trigger] after.contains_key(id) <==> placed.contains(id)
            || nodes.contains_key(id) && !gone.contains(id))
    &&& forall|id: u64| #[trigger]
        after.contains_key(id) && id != ROOT_ID && !placed.contains(id) ==> after[id].parent
            == nodes[id].parent
}

/// A node stays in the root where it does not lie in one that gets a new place.
proof fn lemma_untouched_stays(
    nodes: Map<u64, NodePlace>,
    after: Map<u64, NodePlace>,
    gone: Set<u64>,
    placed: Set<u64>,
    id: u64,
    steps: nat,
)
    requires
        is_replaced(nodes, after, gone, placed),
        ancestor(nodes, id, steps) == Some(ROOT_ID),
        is_kept(nodes.remove_keys(gone), id),
        forall|top: u64|
            placed.contains(top) && top != ROOT_ID ==> !(#[trigger] is_within(
                below_root(nodes.remove_keys(gone)),
                top,
                id,
            )),
    ensures
        is_within(after, ROOT_ID, id),
    decreases steps,
{
    if id == ROOT_ID {
        assert(ancestor(after, id, 0) == Some(ROOT_ID));
    } else {
        let tree = below_root(nodes.remove_keys(gone));
        let parent = nodes[id].parent;
        assert(ancestor(tree, id, 0) == Some(id));
        assert(is_within(tree, id, id));
        assert(!placed.contains(id));
        assert(after.contains_key(id));
        assert forall|top: u64| placed.contains(top) && top != ROOT_ID implies !(
        #[trigger] is_within(tree, top, parent)) by {
            if is_within(tree, top, parent) {
                lemma_child_within(tree, top, id);
            }
        }
        lemma_untouched_stays(nodes, after, gone, placed, parent, (steps - 1) as nat);
        lemma_child_within(after, ROOT_ID, id);
    }
}

/// Where the new places lie in the root, every node does.
proof fn lemma_placed_stays(
    nodes: Map<u64, NodePlace>,
    after: Map<u64, NodePlace>,
    gone: Set<u64>,
    placed: Set<u64>,
    id: u64,
    steps: nat,
)
    requires
        is_replaced(nodes, after, gone, placed),
        ancestor(nodes, id, steps) == Some(ROOT_ID),
        is_kept(nodes.remove_keys(gone), id),
        forall|top: u64| #[trigger]
            placed.contains(top) && top != ROOT_ID ==> is_within(
                after,
                ROOT_ID,
                after[top].parent,
            ),
    ensures
        is_within(after, ROOT_ID, id),
    decreases steps,
{
    if id == ROOT_ID {
        assert(ancestor(after, id, 0) == Some(ROOT_ID));
    } else {
        assert(after.contains_key(id));
        if !placed.contains(id) {
            lemma_placed_stays(nodes, after, gone, placed, nodes[id].parent, (steps - 1) as nat);
        }
        lemma_child_within(after, ROOT_ID, id);
    }
}

/// Nodes that get new places where they fit stay in the root with all others.
proof fn lemma_placing_keeps_resolvable(
    nodes: Map<u64, NodePlace>,
    after: Map<u64, NodePlace>,
    gone: Set<u64>,
    placed: Set<u64>,
)
    requires
        all_resolvable(nodes),
        is_replaced(nodes, after, gone, placed),
        forall|id: u64| #[trigger]
            placed.contains(id) && id != ROOT_ID ==> fits_in(
                nodes.remove_keys(gone),
                set![id],
                placed,
                after[id].parent,
            ),
    ensures
        all_resolvable(after),
{
    assert forall|id: u64| #[trigger] placed.contains(id) && id != ROOT_ID implies is_within(
        after,
        ROOT_ID,
        after[id].parent,
    ) by {
        let dir = after[id].parent;
        assert(set![id].contains(id));
        assert(fits_in(nodes.remove_keys(gone), set![id], placed, dir));
        let steps = lemma_reaches_root(nodes, dir);
        lemma_untouched_stays(nodes, after, gone, placed, dir, steps);
    }
    assert forall|id: u64| after.contains_key(id) && id != ROOT_ID implies is_within(
        after,
        ROOT_ID,
        id,
    ) by {
        if placed.contains(id) {
            lemma_child_within(after, ROOT_ID, id);
        } else {
            let steps = lemma_reaches_root(nodes, id);
            lemma_placed_stays(nodes, after, gone, placed, id, steps);
        }
    }
}

/// A node that is kept has a chain of parents to the root.
proof fn lemma_reaches_root(nodes: Map<u64, NodePlace>, id: u64) -> (steps: nat)
    requires
        all_resolvable(nodes),
        is_kept(nodes, id),
    ensures
        ancestor(nodes, id, steps) == Some(ROOT_ID),
{
    if id == ROOT_ID {
        0
    } else {
        assert(is_within(nodes, ROOT_ID, id));
        choose|steps: nat| ancestor(nodes, id, steps) == Some(ROOT_ID)
    }
}

/// What is displaced is neither the root nor spared, and holds whatever lies in it but for what is
/// spared.
proof fn lemma_displaced_is_closed(
    nodes: Map<u64, NodePlace>,
    spared: Set<u64>,
    parent: u64,
    name: Seq<u8>,
)
    ensures
        ({
            let gone = displaced(nodes, spared, parent, name);
            &&& !gone.contains(ROOT_ID)
            &&& forall|id: u64| #[trigger] spared.contains(id) ==> !gone.contains(id)
            &&& forall|id: u64| #[trigger]
                nodes.contains_key(id) && id != ROOT_ID && !spared.contains(id) && gone.contains(
                    nodes[id].parent,
                ) ==> gone.contains(id)
        }),
{
    let rest = others(nodes, spared);
    let gone = displaced(nodes, spared, parent, name);
    assert forall|id: u64| #[trigger]
        nodes.contains_key(id) && id != ROOT_ID && !spared.contains(id) && gone.contains(
            nodes[id].parent,
        ) implies gone.contains(id) by {
        let top = choose|top: u64| stands_in(rest, parent, name, top, nodes[id].parent);
        lemma_child_within(rest, top, id);
        assert(stands_in(rest, parent, name, top, id));
    }
}

proof fn lemma_node_keeps_resolvable(
    nodes: Map<u64, NodePlace>,
    spared: Set<u64>,
    id: u64,
    parent: u64,
    name: Seq<u8>,
)
    requires
        all_resolvable(nodes),
        spared.contains(id),
        fits_in(cleared(nodes, spared, parent, name), set![id], set![id], parent),
        strands_none(nodes, spared, set![id], displaced(nodes, spared, parent, name)),
    ensures
        all_resolvable(placed(nodes, spared, id, parent, name)),
{
    lemma_displaced_is_closed(nodes, spared, parent, name);
    lemma_placing_keeps_resolvable(
        nodes,
        placed(nodes, spared, id, parent, name),
        displaced(nodes, spared, parent, name),
        set![id],
    );
}

proof fn lemma_rename_keeps_resolvable(
    nodes: Map<u64, NodePlace>,
    spared: Set<u64>,
    olddir: u64,
    oldname: Seq<u8>,
    newdir: u64,
    newname: Seq<u8>,
)
    requires
        all_resolvable(nodes),
        called(nodes, olddir, oldname).subset_of(spared),
        ({
            let moving = called(nodes, olddir, oldname);
            &&& fits_in(cleared(nodes, spared, newdir, newname), moving, moving, newdir)
            &&& strands_none(nodes, spared, moving, displaced(nodes, spared, newdir, newname))
        }),
    ensures
        all_resolvable(moved(nodes, spared, olddir, oldname, newdir, newname)),
{
    let moving = called(nodes, olddir, oldname);
    let gone = displaced(nodes, spared, newdir, newname);
    let after = moved(nodes, spared, olddir, oldname, newdir, newname);
    lemma_displaced_is_closed(nodes, spared, newdir, newname);
    assert forall|id: u64| #[trigger] moving.contains(id) implies !gone.contains(id) by {
        assert(spared.contains(id));
    }
    assert forall|id: u64| #[trigger] moving.contains(id) && id != ROOT_ID implies fits_in(
        nodes.remove_keys(gone),
        set![id],
        moving,
        after[id].parent,
    ) by {
        assert(after.contains_key(id));
    }
    lemma_placing_keeps_resolvable(nodes, after, gone, moving);
}

proof fn lemma_exchange_keeps_resolvable(
    nodes: Map<u64, NodePlace>,
    olddir: u64,
    oldname: Seq<u8>,
    newdir: u64,
    newname: Seq<u8>,
)
    requires
        all_resolvable(nodes),
        ({
            let there = called(nodes, olddir, oldname);
            let here = called(nodes, newdir, newname).difference(there);
            &&& fits_in(nodes, there, there + here, newdir)
            &&& fits_in(nodes, here, there + here, olddir)
        }),
    ensures
        all_resolvable(exchanged(nodes, olddir, oldname, newdir, newname)),
{
    let there = called(nodes, olddir, oldname);
    let here = called(nodes, newdir, newname).difference(there);
    let swapped = there + here;
    let after = exchanged(nodes, olddir, oldname, newdir, newname);
    let none = Set::<u64>::empty();
    assert(nodes.remove_keys(none) =~= nodes);
    assert forall|id: u64| #[trigger] swapped.contains(id) && id != ROOT_ID implies fits_in(
        nodes.remove_keys(none),
        set![id],
        swapped,
        after[id].parent,
    ) by {
        assert(after.contains_key(id));
        assert(there.contains(id) || here.contains(id));
    }
    lemma_placing_keeps_resolvable(nodes, after, none, swapped);
}

/// A snapshot stays restorable through any request, except one that places a node in a directory
/// that is not kept or in itself, one that opens a node that is not kept, or one that drops a node
/// with an open handle, by removing it or by placing another where it stood, or with another number
/// of the inode that takes its place in it.
pub proof fn requests_keep_snapshots_restorable(t: TrackerModel, change: Change)
    requires
        is_restorable(t.backend),
        keeps_paths(t, change),
    ensures
        is_restorable(changed(t, change).backend),
{
    let nodes = t.backend.nodes;
    let after = changed(t, change).backend;
    match change {
        Change::Lookup { parent, name, host_inode } => {
            lemma_node_keeps_resolvable(
                nodes,
                spared(t, change),
                t.guest_inode(host_inode),
                parent,
                name,
            );
        },
        Change::Make { parent, name, host_inode } => {
            lemma_node_keeps_resolvable(nodes, spared(t, change), host_inode, parent, name);
        },
        Change::Create { parent, name, flags, host_inode, handle } => {
            lemma_node_keeps_resolvable(nodes, spared(t, change), host_inode, parent, name);
        },
        Change::Remove { parent, name } => {
            removing_keeps_all_resolvable(t, parent, name);
        },
        Change::Rename { olddir, oldname, newdir, newname } => {
            lemma_rename_keeps_resolvable(
                nodes,
                spared(t, change),
                olddir,
                oldname,
                newdir,
                newname,
            );
        },
        Change::Exchange { olddir, oldname, newdir, newname } => {
            lemma_exchange_keeps_resolvable(nodes, olddir, oldname, newdir, newname);
        },
        _ => {},
    }
    assert forall|h: u64| #[trigger] after.handles.contains_key(h) implies belongs_to_node(
        after,
        h,
    ) by {
        if t.backend.handles.contains_key(h) {
            assert(belongs_to_node(t.backend, h));
            dropped_nodes_are_not_kept(t, change, t.backend.handles[h].nodeid);
        }
    }
}

/// A handle whose node was dropped, because it was removed or because another came to stand in its
/// place, keeps the snapshot from being restored, whatever the backing file system replies.
pub proof fn dropped_open_files_are_not_restored<E>(
    t: TrackerModel,
    change: Change,
    handle: u64,
    lookups: Seq<Result<u64, E>>,
    opens: Seq<Result<Option<u64>, E>>,
)
    requires
        is_finite_state(t.backend),
        changed(t, change).backend.handles.contains_key(handle),
        changed(t, change).backend.handles[handle].nodeid != ROOT_ID,
        dropped(t, change).contains(changed(t, change).backend.handles[handle].nodeid),
    ensures
        !succeeded(restored(changed(t, change).backend, lookups, opens).1),
{
    let after = changed(t, change).backend;
    let nodeid = after.handles[handle].nodeid;
    dropped_nodes_are_not_kept(t, change, nodeid);
    assert(after.nodes.dom().finite()) by {
        let bound = match change {
            Change::Lookup { parent, name, host_inode } => t.backend.nodes.dom().insert(
                t.guest_inode(host_inode),
            ),
            Change::Make { parent, name, host_inode } => t.backend.nodes.dom().insert(host_inode),
            Change::Create { parent, name, flags, host_inode, handle } => {
                t.backend.nodes.dom().insert(host_inode)
            },
            _ => t.backend.nodes.dom(),
        };
        assert(after.nodes.dom().subset_of(bound));
        vstd::set_lib::lemma_len_subset(after.nodes.dom(), bound);
    }
    if succeeded(restored(after, lookups, opens).1) {
        assert(after.handles.dom().finite());
        restore_is_all_or_nothing(after, lookups, opens);
        assert(belongs_to_node(after, handle));
    }
}

proof fn lemma_run_keeps_backend<E>(
    t: TrackerModel,
    step: RestoreStepModel<E>,
    lookups: Seq<Result<u64, E>>,
    opens: Seq<Result<Option<u64>, E>>,
)
    ensures
        run_restore(t, step, lookups, opens).0.backend == t.backend,
    decreases lookups.len() + opens.len(),
{
    match step {
        RestoreStepModel::Lookup { host_parent, name, guest_node, rest } => {
            if lookups.len() > 0 {
                let (t1, step1) = after_lookup(t, guest_node, rest, lookups[0]);
                lemma_run_keeps_backend(t1, step1, lookups.drop_first(), opens);
            }
        },
        RestoreStepModel::Open { call, guest_handle, rest } => {
            if opens.len() > 0 {
                let (t1, step1) = after_open(t, guest_handle, rest, opens[0]);
                lemma_run_keeps_backend(t1, step1, lookups, opens.drop_first());
            }
        },
        RestoreStepModel::Done(_) => {},
    }
}

/// A restore changes nothing that a snapshot keeps, whatever the backing file system replies and
/// however far it comes: a device that was set up from a snapshot gives the same snapshot again,
/// with the features, the queue sizes, the nodes and the handles that it was set up from.
pub proof fn restore_keeps_the_snapshot<E>(
    fs: Fs,
    kept: FsStateModel,
    lookups: Seq<Result<u64, E>>,
    opens: Seq<Result<Option<u64>, E>>,
)
    requires
        fs.snapshot_model(kept.backend) == kept,
    ensures
        fs.snapshot_model(restored(kept.backend, lookups, opens).0.backend) == kept,
        restored(kept.backend, lookups, opens).0.backend == kept.backend,
{
    let t = TrackerModel::fresh(kept.backend);
    let step = first_step::<E>(t, restore_plan(kept.backend));
    lemma_run_keeps_backend(t, step, lookups, opens);
}

} // verus!
