//! What holds of the tracked state over any requests.

use vstd::prelude::*;

use crate::changes::{changed, Change};
use crate::model::{
    ancestor, called, cleared, displaced, is_at, is_first_at, is_within, node_at, others, stands_in,
    subtree, BackendModel, NodePlace, TrackerModel, ROOT_ID,
};
use crate::path::same_path;
use crate::placing::{lemma_chain_without, lemma_child_within, lemma_free_place_displaces_none};
use crate::resolution::all_resolvable;
use crate::state::HandleState;

verus! {

/// Whether every number in `m` stands for itself.
pub open spec fn is_identity(m: Map<u64, u64>) -> bool {
    forall|n: u64| #[trigger] m.contains_key(n) ==> m[n] == n
}

/// Whether the guest and the backing file system use the same numbers.
pub open spec fn numbers_are_shared(t: TrackerModel) -> bool {
    &&& is_identity(t.guest_to_host_inodes)
    &&& is_identity(t.host_to_guest_inodes)
    &&& is_identity(t.guest_to_host_handles)
    &&& is_identity(t.host_to_guest_handles)
    &&& t.guest_to_host_inodes.dom() == t.host_to_guest_inodes.dom()
    &&& t.guest_to_host_handles.dom() == t.host_to_guest_handles.dom()
}

/// A new device shares its numbers with the guest.
pub proof fn fresh_numbers_are_shared(backend: BackendModel)
    ensures
        numbers_are_shared(TrackerModel::fresh(backend)),
{
}

/// As long as nothing was restored, the guest and the backing file system use the same numbers.
pub proof fn shared_numbers_stay_shared(t: TrackerModel, change: Change)
    requires
        numbers_are_shared(t),
    ensures
        numbers_are_shared(changed(t, change)),
{
    let after = changed(t, change);
    assert(after.guest_to_host_inodes.dom() =~= after.host_to_guest_inodes.dom());
    assert(after.guest_to_host_handles.dom() =~= after.host_to_guest_handles.dom());
}

/// Whether the guest's number for each known host inode leads back to that inode.
pub open spec fn numbers_lead_back(t: TrackerModel) -> bool {
    forall|h: u64| #[trigger]
        t.host_to_guest_inodes.contains_key(h) ==> t.host_inode(t.host_to_guest_inodes[h]) == Some(
            h,
        )
}

/// Where the numbers lead back, the number that the guest is given for an inode that was found or
/// listed leads back to that inode.
pub proof fn answers_lead_back(t: TrackerModel, parent: u64, name: Seq<u8>, host_inode: u64)
    requires
        numbers_lead_back(t),
    ensures
        changed(t, Change::Lookup { parent, name, host_inode }).host_inode(
            t.guest_inode(host_inode),
        ) == Some(host_inode),
        changed(t, Change::ListEntry { host_inode }).host_inode(t.guest_inode(host_inode)) == Some(
            host_inode,
        ),
{
}

/// An inode that was found or listed keeps its number.
pub proof fn answers_are_stable(t: TrackerModel, parent: u64, name: Seq<u8>, host_inode: u64)
    ensures
        changed(t, Change::Lookup { parent, name, host_inode }).guest_inode(host_inode)
            == t.guest_inode(host_inode),
        changed(t, Change::ListEntry { host_inode }).guest_inode(host_inode) == t.guest_inode(
            host_inode,
        ),
{
}

/// The host inode that `change` registers under its own number, if it does.
pub open spec fn registered(t: TrackerModel, change: Change) -> Option<u64> {
    match change {
        Change::Lookup { parent, name, host_inode } => if t.host_to_guest_inodes.contains_key(
            host_inode,
        ) {
            None
        } else {
            Some(host_inode)
        },
        Change::ListEntry { host_inode } => if t.host_to_guest_inodes.contains_key(host_inode) {
            None
        } else {
            Some(host_inode)
        },
        Change::Make { parent, name, host_inode } => Some(host_inode),
        Change::Create { parent, name, flags, host_inode, handle } => Some(host_inode),
        _ => None,
    }
}

/// The nodes that `change` forgets.
pub open spec fn forgotten(t: TrackerModel, change: Change) -> Set<u64> {
    match change {
        Change::Remove { parent, name } => match node_at(t.backend.nodes, parent, name) {
            Some(id) => subtree(t.backend.nodes, id),
            None => Set::empty(),
        },
        _ => Set::empty(),
    }
}

/// The numbers keep leading back, except where an inode is registered under a number that the
/// guest holds for another inode.
pub proof fn numbers_keep_leading_back(t: TrackerModel, change: Change)
    requires
        numbers_lead_back(t),
        registered(t, change) matches Some(n) ==> t.host_inode(n) is None || t.host_inode(n)
            == Some(n),
    ensures
        numbers_lead_back(changed(t, change)),
{
    let after = changed(t, change);
    assert forall|h: u64| #[trigger]
        after.host_to_guest_inodes.contains_key(h) implies after.host_inode(
        after.host_to_guest_inodes[h],
    ) == Some(h) by {
        if t.host_to_guest_inodes.contains_key(h) {
            assert(t.host_inode(t.host_to_guest_inodes[h]) == Some(h));
        }
    }
}

/// A handle that was opened under a free number is forgotten without a trace when it is released.
pub proof fn release_undoes_open(
    t: TrackerModel,
    inode: u64,
    flags: u32,
    is_dir: bool,
    handle: u64,
)
    requires
        !t.guest_to_host_handles.contains_key(handle),
        !t.host_to_guest_handles.contains_key(handle),
        !t.backend.handles.contains_key(handle),
    ensures
        changed(
            changed(t, Change::Open { inode, flags, is_dir, handle: Some(handle) }),
            Change::Release { released: handle },
        ) == t,
{
    let opened = changed(t, Change::Open { inode, flags, is_dir, handle: Some(handle) });
    let released = changed(opened, Change::Release { released: handle });
    assert(released.backend.handles =~= t.backend.handles);
    assert(released.guest_to_host_handles =~= t.guest_to_host_handles);
    assert(released.host_to_guest_handles =~= t.host_to_guest_handles);
    assert(released =~= t);
}

/// Only what makes, finds, removes or renames a node changes what a snapshot keeps of the nodes;
/// only what opens or releases changes what it keeps of the handles.
pub proof fn snapshot_changes_are_narrow(t: TrackerModel, change: Change)
    ensures
        change is ListEntry || change is Open || change is Release ==> changed(
            t,
            change,
        ).backend.nodes == t.backend.nodes,
        !(change is Open || change is Create || change is Release) ==> changed(
            t,
            change,
        ).backend.handles == t.backend.handles,
{
}

proof fn lemma_lowest_at(nodes: Map<u64, NodePlace>, parent: u64, name: Seq<u8>, id: u64)
    requires
        nodes.contains_key(id),
        is_at(nodes[id], parent, name),
    ensures
        exists|first: u64| is_first_at(nodes, parent, name, first),
    decreases id,
{
    if !is_first_at(nodes, parent, name, id) {
        let lower = choose|other: u64| #[trigger]
            nodes.contains_key(other) && is_at(nodes[other], parent, name) && other < id;
        lemma_lowest_at(nodes, parent, name, lower);
    }
}

/// A node is found by its name exactly where one has it; of several it is the lowest.
pub proof fn node_at_finds_the_lowest(nodes: Map<u64, NodePlace>, parent: u64, name: Seq<u8>)
    ensures
        node_at(nodes, parent, name) is None <==> forall|id: u64| #[trigger]
            nodes.contains_key(id) ==> !is_at(nodes[id], parent, name),
        node_at(nodes, parent, name) matches Some(id) ==> is_first_at(nodes, parent, name, id),
{
    if exists|id: u64| #[trigger] nodes.contains_key(id) && is_at(nodes[id], parent, name) {
        let id = choose|id: u64| #[trigger]
            nodes.contains_key(id) && is_at(nodes[id], parent, name);
        lemma_lowest_at(nodes, parent, name, id);
    }
}

/// What was removed is gone with all that lay in it: a request on it is refused, and no host inode
/// leads to it. Every other node is where it was, and every other inode keeps its number.
pub proof fn removed_nodes_are_gone(t: TrackerModel, parent: u64, name: Seq<u8>, top: u64)
    requires
        node_at(t.backend.nodes, parent, name) == Some(top),
    ensures
        ({
            let after = changed(t, Change::Remove { parent, name });
            let gone = subtree(t.backend.nodes, top);
            &&& gone.contains(top)
            &&& forall|id: u64|
                gone.contains(id) ==> !(#[trigger] after.backend.nodes.contains_key(id))
                    && after.host_inode(id) is None
            &&& forall|id: u64|
                !gone.contains(id) ==> (#[trigger] after.backend.nodes.contains_key(id)
                    <==> t.backend.nodes.contains_key(id)) && after.host_inode(id) == t.host_inode(
                    id,
                )
            &&& forall|id: u64| #[trigger]
                after.backend.nodes.contains_key(id) ==> after.backend.nodes[id]
                    == t.backend.nodes[id]
            &&& forall|h: u64| #[trigger]
                after.host_to_guest_inodes.contains_key(h) <==> t.host_to_guest_inodes.contains_key(
                    h,
                ) && !gone.contains(t.host_to_guest_inodes[h])
            &&& forall|h: u64| #[trigger]
                after.host_to_guest_inodes.contains_key(h) ==> after.host_to_guest_inodes[h]
                    == t.host_to_guest_inodes[h]
        }),
{
    node_at_finds_the_lowest(t.backend.nodes, parent, name);
    assert(ancestor(t.backend.nodes, top, 0) == Some(top));
    assert(is_within(t.backend.nodes, top, top));
}

/// Removing keeps a snapshot restorable: where all nodes lie in the root, those that remain do.
pub proof fn removing_keeps_all_resolvable(t: TrackerModel, parent: u64, name: Seq<u8>)
    requires
        all_resolvable(t.backend.nodes),
    ensures
        all_resolvable(changed(t, Change::Remove { parent, name }).backend.nodes),
{
    let nodes = t.backend.nodes;
    let after = changed(t, Change::Remove { parent, name }).backend.nodes;
    node_at_finds_the_lowest(nodes, parent, name);
    match node_at(nodes, parent, name) {
        Some(top) => {
            let gone = subtree(nodes, top);
            assert forall|below: u64| #[trigger]
                nodes.contains_key(below) && gone.contains(nodes[below].parent) implies
                gone.contains(below) by {
                lemma_child_within(nodes, top, below);
            }
            assert forall|id: u64| after.contains_key(id) && id != ROOT_ID implies is_within(
                after,
                ROOT_ID,
                id,
            ) by {
                assert(nodes.contains_key(id));
                assert(is_within(nodes, ROOT_ID, id));
                let steps = choose|steps: nat| ancestor(nodes, id, steps) == Some(ROOT_ID);
                lemma_chain_without(nodes, gone, ROOT_ID, id, steps);
            }
        },
        None => {},
    }
}

/// What may stay at a place that is cleared for `spared` is `spared` and the root.
proof fn lemma_cleared_place(
    nodes: Map<u64, NodePlace>,
    spared: Set<u64>,
    parent: u64,
    name: Seq<u8>,
    id: u64,
)
    requires
        cleared(nodes, spared, parent, name).contains_key(id),
        is_at(nodes[id], parent, name),
    ensures
        spared.contains(id) || id == ROOT_ID,
{
    let rest = others(nodes, spared);
    if rest.contains_key(id) {
        assert(ancestor(rest, id, 0) == Some(id));
        assert(is_within(rest, id, id));
        assert(stands_in(rest, parent, name, id, id));
    }
}

/// The nodes that `change` places anew.
pub open spec fn movers(t: TrackerModel, change: Change) -> Set<u64> {
    match change {
        Change::Lookup { parent, name, host_inode } => set![t.guest_inode(host_inode)],
        Change::Make { parent, name, host_inode } => set![host_inode],
        Change::Create { parent, name, flags, host_inode, handle } => set![host_inode],
        Change::Rename { olddir, oldname, newdir, newname } => called(
            t.backend.nodes,
            olddir,
            oldname,
        ),
        _ => Set::empty(),
    }
}

/// The nodes that may stand where `change` places one: those that it places, and the guest's other
/// numbers for their inodes.
pub open spec fn spared(t: TrackerModel, change: Change) -> Set<u64> {
    match change {
        Change::Lookup { parent, name, host_inode } => t.with_host_inode_known(host_inode).sharing(
            movers(t, change),
        ),
        Change::Make { parent, name, host_inode } => t.with_inode(host_inode, host_inode).sharing(
            movers(t, change),
        ),
        Change::Create { parent, name, flags, host_inode, handle } => t.with_inode(
            host_inode,
            host_inode,
        ).sharing(movers(t, change)),
        Change::Rename { olddir, oldname, newdir, newname } => t.sharing(movers(t, change)),
        _ => Set::empty(),
    }
}

/// The nodes that a snapshot keeps no longer because of `change`: those that were removed, and
/// those that stood where a node was found, made or moved to.
pub open spec fn dropped(t: TrackerModel, change: Change) -> Set<u64> {
    let nodes = t.backend.nodes;
    match change {
        Change::Lookup { parent, name, host_inode } => displaced(
            nodes,
            spared(t, change),
            parent,
            name,
        ),
        Change::Make { parent, name, host_inode } => displaced(
            nodes,
            spared(t, change),
            parent,
            name,
        ),
        Change::Create { parent, name, flags, host_inode, handle } => displaced(
            nodes,
            spared(t, change),
            parent,
            name,
        ),
        Change::Remove { parent, name } => forgotten(t, change),
        Change::Rename { olddir, oldname, newdir, newname } => displaced(
            nodes,
            spared(t, change),
            newdir,
            newname,
        ),
        _ => Set::empty(),
    }
}

/// What is dropped is kept no longer; every other node stays.
pub proof fn dropped_nodes_are_not_kept(t: TrackerModel, change: Change, id: u64)
    ensures
        dropped(t, change).contains(id) ==> t.backend.nodes.contains_key(id) && !changed(
            t,
            change,
        ).backend.nodes.contains_key(id),
        t.backend.nodes.contains_key(id) && !dropped(t, change).contains(id) ==> changed(
            t,
            change,
        ).backend.nodes.contains_key(id),
{
}

/// Every number that the guest has for an inode stays kept when that inode is found or made.
pub proof fn numbers_of_one_inode_stay_kept(
    t: TrackerModel,
    parent: u64,
    name: Seq<u8>,
    flags: u32,
    host_inode: u64,
    handle: Option<u64>,
    id: u64,
)
    requires
        t.backend.nodes.contains_key(id),
        t.host_inode(id) == Some(host_inode),
    ensures
        changed(t, Change::Lookup { parent, name, host_inode }).backend.nodes.contains_key(id),
        changed(t, Change::Make { parent, name, host_inode }).backend.nodes.contains_key(id),
        changed(
            t,
            Change::Create { parent, name, flags, host_inode, handle },
        ).backend.nodes.contains_key(id),
{
    let found = t.with_host_inode_known(host_inode);
    assert(found.shares_inode(id, set![t.guest_inode(host_inode)]));
    let made = t.with_inode(host_inode, host_inode);
    assert(made.shares_inode(id, set![host_inode]));
}

/// Every number that the guest has for the inode of a node stays kept when that node is renamed.
pub proof fn numbers_of_a_renamed_inode_stay_kept(
    t: TrackerModel,
    olddir: u64,
    oldname: Seq<u8>,
    newdir: u64,
    newname: Seq<u8>,
    node: u64,
    id: u64,
)
    requires
        called(t.backend.nodes, olddir, oldname).contains(node),
        t.backend.nodes.contains_key(id),
        same_inode(t, id, node),
    ensures
        changed(
            t,
            Change::Rename { olddir, oldname, newdir, newname },
        ).backend.nodes.contains_key(id),
{
    assert(t.shares_inode(id, called(t.backend.nodes, olddir, oldname)));
}

/// Whether `a` and `b` are numbers of the same inode.
pub open spec fn same_inode(t: TrackerModel, a: u64, b: u64) -> bool {
    t.host_inode(a) is Some && t.host_inode(a) == t.host_inode(b)
}

/// A node that was found or made stands alone at its place, but for the root and for other numbers
/// of the same inode.
pub proof fn recorded_nodes_stand_alone(
    t: TrackerModel,
    nodeid: u64,
    parent: u64,
    name: Seq<u8>,
    other: u64,
)
    requires
        other != nodeid,
        other != ROOT_ID,
        !t.shares_inode(other, set![nodeid]),
        t.with_node(nodeid, parent, name).backend.nodes.contains_key(other),
    ensures
        !is_at(t.with_node(nodeid, parent, name).backend.nodes[other], parent, name),
        t.with_node(nodeid, parent, name).backend.nodes[other] == t.backend.nodes[other],
{
    if is_at(t.backend.nodes[other], parent, name) {
        lemma_cleared_place(t.backend.nodes, t.sharing(set![nodeid]), parent, name, other);
    }
}

/// A node that is found or made where no other file or directory is recorded joins the record, and
/// every other node stays as it is.
pub proof fn recording_keeps_the_others(t: TrackerModel, nodeid: u64, parent: u64, name: Seq<u8>)
    requires
        forall|id: u64| #[trigger]
            called(t.backend.nodes, parent, name).contains(id) ==> id == ROOT_ID || id == nodeid
                || t.shares_inode(id, set![nodeid]),
    ensures
        t.with_node(nodeid, parent, name).backend == (BackendModel {
            nodes: t.backend.nodes.insert(nodeid, NodePlace { parent, name }),
            ..t.backend
        }),
{
    let spared = t.sharing(set![nodeid]);
    assert(called(t.backend.nodes, parent, name).subset_of(spared.insert(ROOT_ID)));
    lemma_free_place_displaces_none(t.backend.nodes, spared, parent, name);
}

/// Whether no two nodes stand at the same place, but for numbers of the same inode. The root, which
/// is never looked up, may stand anywhere.
pub open spec fn places_are_unique(t: TrackerModel) -> bool {
    let nodes = t.backend.nodes;
    forall|a: u64, b: u64| #[trigger]
        nodes.contains_key(a) && #[trigger] nodes.contains_key(b) && a != ROOT_ID && b != ROOT_ID
            && is_at(nodes[a], nodes[b].parent, nodes[b].name) ==> a == b || same_inode(t, a, b)
}

/// Where the numbers lead back, a number that shares an inode with one of `ids` is another number
/// of the inode of one of them.
proof fn lemma_sharing_is_same(t: TrackerModel, ids: Set<u64>, id: u64) -> (other: u64)
    requires
        numbers_lead_back(t),
        t.shares_inode(id, ids),
    ensures
        ids.contains(other),
        same_inode(t, id, other),
{
    let host_inode = t.host_inode(id)->Some_0;
    if exists|other: u64| #[trigger]
        ids.contains(other) && t.host_inode(other) == Some(host_inode) {
        choose|other: u64| #[trigger] ids.contains(other) && t.host_inode(other) == Some(host_inode)
    } else {
        t.host_to_guest_inodes[host_inode]
    }
}

/// No two nodes come to stand at the same place, but for numbers of the same inode. Left out are a
/// number that is taken for another inode, and a rename that moves the root with another node.
pub proof fn places_stay_unique(t: TrackerModel, change: Change)
    requires
        places_are_unique(t),
        numbers_lead_back(t),
        registered(t, change) matches Some(n) ==> t.host_inode(n) is None || t.host_inode(n)
            == Some(n),
        change is Rename && movers(t, change).contains(ROOT_ID) ==> movers(t, change)
            == set![ROOT_ID],
    ensures
        places_are_unique(changed(t, change)),
{
    let nodes = t.backend.nodes;
    let t1 = changed(t, change);
    let after = t1.backend.nodes;
    assert forall|a: u64, b: u64| #[trigger]
        after.contains_key(a) && #[trigger] after.contains_key(b) && a != ROOT_ID && b != ROOT_ID
            && is_at(after[a], after[b].parent, after[b].name) implies a == b || same_inode(
        t1,
        a,
        b,
    ) by {
        match change {
            Change::Lookup { parent, name, host_inode } => {
                let known = t.with_host_inode_known(host_inode);
                lemma_known_leads_back(t, host_inode);
                lemma_placed_unique(known, t.guest_inode(host_inode), parent, name, a, b);
            },
            Change::Make { parent, name, host_inode } => {
                let known = t.with_inode(host_inode, host_inode);
                lemma_made_leads_back(t, host_inode);
                lemma_placed_unique(known, host_inode, parent, name, a, b);
            },
            Change::Create { parent, name, flags, host_inode, handle } => {
                let known = t.with_inode(host_inode, host_inode);
                lemma_made_leads_back(t, host_inode);
                lemma_placed_unique(known, host_inode, parent, name, a, b);
            },
            Change::Rename { olddir, oldname, newdir, newname } => {
                lemma_moved_unique(t, olddir, oldname, newdir, newname, a, b);
            },
            _ => {
                assert(nodes.contains_key(a) && nodes.contains_key(b));
            },
        }
    }
}

proof fn lemma_made_leads_back(t: TrackerModel, host_inode: u64)
    requires
        numbers_lead_back(t),
        places_are_unique(t),
        t.host_inode(host_inode) is None || t.host_inode(host_inode) == Some(host_inode),
    ensures
        numbers_lead_back(t.with_inode(host_inode, host_inode)),
        places_are_unique(t.with_inode(host_inode, host_inode)),
{
    let made = t.with_inode(host_inode, host_inode);
    assert forall|h: u64| #[trigger] made.host_to_guest_inodes.contains_key(h) implies
        made.host_inode(made.host_to_guest_inodes[h]) == Some(h) by {
        if h != host_inode {
            assert(t.host_to_guest_inodes.contains_key(h));
        }
    }
    assert forall|a: u64, b: u64| #[trigger]
        made.backend.nodes.contains_key(a) && #[trigger] made.backend.nodes.contains_key(b) && a
            != ROOT_ID && b != ROOT_ID && is_at(
            made.backend.nodes[a],
            made.backend.nodes[b].parent,
            made.backend.nodes[b].name,
        ) implies a == b || same_inode(made, a, b) by {
        assert(t.backend.nodes.contains_key(a) && t.backend.nodes.contains_key(b));
    }
}

proof fn lemma_known_leads_back(t: TrackerModel, host_inode: u64)
    requires
        numbers_lead_back(t),
        places_are_unique(t),
        t.host_to_guest_inodes.contains_key(host_inode) || t.host_inode(host_inode) is None
            || t.host_inode(host_inode) == Some(host_inode),
    ensures
        numbers_lead_back(t.with_host_inode_known(host_inode)),
        places_are_unique(t.with_host_inode_known(host_inode)),
{
    if !t.host_to_guest_inodes.contains_key(host_inode) {
        lemma_made_leads_back(t, host_inode);
    }
}

proof fn lemma_placed_unique(
    t: TrackerModel,
    id: u64,
    parent: u64,
    name: Seq<u8>,
    a: u64,
    b: u64,
)
    requires
        places_are_unique(t),
        numbers_lead_back(t),
        t.with_node(id, parent, name).backend.nodes.contains_key(a),
        t.with_node(id, parent, name).backend.nodes.contains_key(b),
        a != ROOT_ID,
        b != ROOT_ID,
        ({
            let after = t.with_node(id, parent, name).backend.nodes;
            is_at(after[a], after[b].parent, after[b].name)
        }),
    ensures
        a == b || same_inode(t, a, b),
{
    let nodes = t.backend.nodes;
    let spared = t.sharing(set![id]);
    if a != id && b != id {
        assert(nodes.contains_key(a) && nodes.contains_key(b));
    } else if a != id {
        lemma_cleared_place(nodes, spared, parent, name, a);
        let other = lemma_sharing_is_same(t, set![id], a);
    } else if b != id {
        lemma_cleared_place(nodes, spared, parent, name, b);
        let other = lemma_sharing_is_same(t, set![id], b);
    }
}

proof fn lemma_moved_unique(
    t: TrackerModel,
    olddir: u64,
    oldname: Seq<u8>,
    newdir: u64,
    newname: Seq<u8>,
    a: u64,
    b: u64,
)
    requires
        places_are_unique(t),
        numbers_lead_back(t),
        ({
            let moving = called(t.backend.nodes, olddir, oldname);
            let after = t.with_nodes_moved(olddir, oldname, newdir, newname).backend.nodes;
            &&& moving.contains(ROOT_ID) ==> moving == set![ROOT_ID]
            &&& after.contains_key(a)
            &&& after.contains_key(b)
            &&& is_at(after[a], after[b].parent, after[b].name)
        }),
        a != ROOT_ID,
        b != ROOT_ID,
    ensures
        a == b || same_inode(t, a, b),
{
    let nodes = t.backend.nodes;
    let moving = called(nodes, olddir, oldname);
    let spared = t.sharing(moving);
    assert(nodes.contains_key(a) && nodes.contains_key(b));
    if moving.contains(a) && !moving.contains(b) {
        lemma_cleared_place(nodes, spared, newdir, newname, b);
        let other = lemma_sharing_is_same(t, moving, b);
        assert(nodes.contains_key(other));
    } else if !moving.contains(a) && moving.contains(b) {
        lemma_cleared_place(nodes, spared, newdir, newname, a);
        let other = lemma_sharing_is_same(t, moving, a);
        assert(nodes.contains_key(other));
    }
}

/// A rename moves every node of the old name and no other, and leaves none behind. What stood under
/// the new name is dropped with all that lay in it, so that afterwards only what was moved stands
/// there, but for the root and for other numbers of the same inodes.
pub proof fn rename_moves_the_nodes(
    t: TrackerModel,
    olddir: u64,
    oldname: Seq<u8>,
    newdir: u64,
    newname: Seq<u8>,
)
    ensures
        ({
            let nodes = t.backend.nodes;
            let change = Change::Rename { olddir, oldname, newdir, newname };
            let after = changed(t, change).backend.nodes;
            &&& after.dom() == nodes.dom().difference(dropped(t, change))
            &&& forall|id: u64| #[trigger]
                nodes.contains_key(id) && is_at(nodes[id], olddir, oldname) ==> after.contains_key(
                    id,
                ) && after[id] == (NodePlace { parent: newdir, name: newname })
            &&& forall|id: u64| #[trigger]
                after.contains_key(id) && !is_at(nodes[id], olddir, oldname) ==> after[id]
                    == nodes[id]
            &&& forall|id: u64| #[trigger]
                after.contains_key(id) && is_at(after[id], newdir, newname) && id != ROOT_ID
                    ==> is_at(nodes[id], olddir, oldname) || t.shares_inode(
                    id,
                    called(nodes, olddir, oldname),
                )
            &&& olddir != newdir || !same_path(oldname, newname) ==> node_at(
                after,
                olddir,
                oldname,
            ) is None
        }),
{
    let nodes = t.backend.nodes;
    let change = Change::Rename { olddir, oldname, newdir, newname };
    let after = changed(t, change).backend.nodes;
    let moving = called(nodes, olddir, oldname);
    assert(after.dom() =~= nodes.dom().difference(dropped(t, change)));
    assert forall|id: u64| #[trigger]
        after.contains_key(id) && is_at(after[id], newdir, newname) && id != ROOT_ID implies is_at(
        nodes[id],
        olddir,
        oldname,
    ) || t.shares_inode(id, moving) by {
        if !is_at(nodes[id], olddir, oldname) {
            lemma_cleared_place(nodes, t.sharing(moving), newdir, newname, id);
        }
    }
    node_at_finds_the_lowest(after, olddir, oldname);
    if olddir != newdir || !same_path(oldname, newname) {
        assert forall|id: u64| #[trigger] after.contains_key(id) implies !is_at(
            after[id],
            olddir,
            oldname,
        ) by {
            assert(nodes.contains_key(id));
        }
    }
}

/// Renaming back brings every node back to its place, where the new name was free; the name is
/// then written as the second rename has it.
pub proof fn rename_back_undoes_rename(
    t: TrackerModel,
    olddir: u64,
    oldname: Seq<u8>,
    newdir: u64,
    newname: Seq<u8>,
)
    requires
        forall|id: u64| #[trigger]
            t.backend.nodes.contains_key(id) && is_at(t.backend.nodes[id], newdir, newname)
                ==> is_at(t.backend.nodes[id], olddir, oldname),
    ensures
        ({
            let nodes = t.backend.nodes;
            let back = changed(
                changed(t, Change::Rename { olddir, oldname, newdir, newname }),
                Change::Rename {
                    olddir: newdir,
                    oldname: newname,
                    newdir: olddir,
                    newname: oldname,
                },
            );
            &&& back == (TrackerModel { backend: back.backend, ..t })
            &&& back.backend.handles == t.backend.handles
            &&& back.backend.nodes.dom() == nodes.dom()
            &&& forall|id: u64| #[trigger]
                nodes.contains_key(id) ==> back.backend.nodes[id] == if is_at(
                    nodes[id],
                    olddir,
                    oldname,
                ) {
                    NodePlace { parent: olddir, name: oldname }
                } else {
                    nodes[id]
                }
            &&& forall|id: u64| #[trigger]
                nodes.contains_key(id) ==> is_at(
                    back.backend.nodes[id],
                    nodes[id].parent,
                    nodes[id].name,
                )
        }),
{
    let nodes = t.backend.nodes;
    let there = changed(t, Change::Rename { olddir, oldname, newdir, newname });
    let back = changed(
        there,
        Change::Rename { olddir: newdir, oldname: newname, newdir: olddir, newname: oldname },
    );
    let leaving = t.sharing(called(nodes, olddir, oldname));
    assert(called(nodes, newdir, newname).subset_of(leaving.insert(ROOT_ID)));
    lemma_free_place_displaces_none(nodes, leaving, newdir, newname);
    let returning = there.sharing(called(there.backend.nodes, newdir, newname));
    assert(called(there.backend.nodes, olddir, oldname).subset_of(returning.insert(ROOT_ID)));
    lemma_free_place_displaces_none(there.backend.nodes, returning, olddir, oldname);
    assert forall|id: u64| #[trigger] nodes.contains_key(id) implies back.backend.nodes[id]
        == if is_at(nodes[id], olddir, oldname) {
        NodePlace { parent: olddir, name: oldname }
    } else {
        nodes[id]
    } by {
        assert(there.backend.nodes.contains_key(id));
    }
    assert(back.backend.nodes.dom() =~= nodes.dom());
}

/// An exchange lets the nodes of the two names change places and drops none; a second one brings
/// every node back to its place.
pub proof fn exchange_swaps_the_nodes(
    t: TrackerModel,
    olddir: u64,
    oldname: Seq<u8>,
    newdir: u64,
    newname: Seq<u8>,
)
    ensures
        ({
            let nodes = t.backend.nodes;
            let change = Change::Exchange { olddir, oldname, newdir, newname };
            let there = changed(t, change);
            let back = changed(there, change);
            &&& there.backend.nodes.dom() == nodes.dom()
            &&& back.backend.nodes.dom() == nodes.dom()
            &&& forall|id: u64| #[trigger]
                nodes.contains_key(id) ==> {
                    let after = there.backend.nodes[id];
                    &&& is_at(nodes[id], olddir, oldname) ==> is_at(after, newdir, newname)
                    &&& is_at(nodes[id], newdir, newname) ==> is_at(after, olddir, oldname)
                    &&& !is_at(nodes[id], olddir, oldname) && !is_at(nodes[id], newdir, newname)
                        ==> after == nodes[id]
                    &&& is_at(back.backend.nodes[id], nodes[id].parent, nodes[id].name)
                }
        }),
{
    let nodes = t.backend.nodes;
    let change = Change::Exchange { olddir, oldname, newdir, newname };
    let there = changed(t, change);
    let back = changed(there, change);
    assert(there.backend.nodes.dom() =~= nodes.dom());
    assert(back.backend.nodes.dom() =~= nodes.dom());
    assert forall|id: u64| #[trigger] nodes.contains_key(id) implies is_at(
        back.backend.nodes[id],
        nodes[id].parent,
        nodes[id].name,
    ) by {
        assert(there.backend.nodes.contains_key(id));
    }
}

/// A handle that was opened is the one that later requests on it use.
pub proof fn opened_handle_is_used(
    t: TrackerModel,
    inode: u64,
    flags: u32,
    is_dir: bool,
    handle: u64,
)
    ensures
        ({
            let after = changed(t, Change::Open { inode, flags, is_dir, handle: Some(handle) });
            &&& after.host_handle(handle) == handle
            &&& after.backend.handles.contains_key(handle)
            &&& after.backend.handles[handle] == (HandleState { nodeid: inode, flags, is_dir })
        }),
{
}

/// The root stays known to the guest, unless it is removed as a part of a node that it is recorded
/// to lie in.
pub proof fn root_stays_known(t: TrackerModel, change: Change)
    requires
        t.host_inode(ROOT_ID) is Some,
        !forgotten(t, change).contains(ROOT_ID),
    ensures
        changed(t, change).host_inode(ROOT_ID) is Some,
{
}

} // verus!
