//! Finding the nodes and handles of a snapshot again in a fresh backing file system.
//!
//! Each step names the next call that the backing file system has to serve. Its reply is handed
//! back to the step, which gives the one after it.

use std::collections::VecDeque;

use vstd::prelude::*;
use vstd::slice::slice_to_vec;

use crate::calls::OpenCall;
use crate::errno::{libc_einval, libc_eio, FsError, EINVAL, EIO, ENOENT};
use crate::model::{BackendModel, NodePlace, TrackerModel};
use crate::ordered::{in_order, lemma_in_order, ordered_keys};
use crate::resolution::{
    all_resolvable, is_resolution_order, is_resolvable, resolution_order, resolution_sequence,
};
use crate::state::{BackendState, HandleState};
use crate::tracking::TrackingFileSystem;

verus! {

/// What is left to restore: the nodes and then the handles, each in its order.
#[verifier::ext_equal]
pub struct RestorePlan {
    /// The nodes to look up, each with the place where it was.
    pub nodes: Seq<(u64, NodePlace)>,
    /// Whether these are all the nodes of the snapshot.
    pub complete: bool,
    /// The handles to open.
    pub handles: Seq<(u64, HandleState)>,
}

/// The plan to restore the whole of `backend`: the nodes from the root down, and the handles in
/// the order of their numbers.
pub open spec fn restore_plan(backend: BackendModel) -> RestorePlan {
    RestorePlan {
        nodes: resolution_sequence(backend.nodes).map_values(
            |id: u64| (id, backend.nodes[id]),
        ),
        complete: all_resolvable(backend.nodes),
        handles: in_order(backend.handles.dom()).map_values(
            |handle: u64| (handle, backend.handles[handle]),
        ),
    }
}

/// A step of a restore.
#[verifier::ext_equal]
pub enum RestoreStepModel<E> {
    /// Look up `name` in the host directory `host_parent`; the node found is `guest_node`.
    Lookup { host_parent: u64, name: Seq<u8>, guest_node: u64, rest: RestorePlan },
    /// Open a file or a directory; the handle stands for `guest_handle`.
    Open { call: OpenCall, guest_handle: u64, rest: RestorePlan },
    /// The restore is over.
    Done(Result<(), FsError<E>>),
}

/// How a handle of the given state is opened again on `host_inode`.
pub open spec fn reopening(host_inode: u64, handle: HandleState) -> OpenCall {
    if handle.is_dir {
        OpenCall::Dir { inode: host_inode, flags: handle.flags }
    } else {
        OpenCall::File { inode: host_inode, flags: handle.flags, fuse_flags: 0 }
    }
}

/// The first step of `plan`.
pub open spec fn first_step<E>(tracker: TrackerModel, plan: RestorePlan) -> RestoreStepModel<E> {
    if plan.nodes.len() > 0 {
        let (guest_node, place) = plan.nodes[0];
        match tracker.host_inode(place.parent) {
            Some(host_parent) => RestoreStepModel::Lookup {
                host_parent,
                name: place.name,
                guest_node,
                rest: RestorePlan { nodes: plan.nodes.drop_first(), ..plan },
            },
            None => RestoreStepModel::Done(Err(FsError::Os(ENOENT))),
        }
    } else if !plan.complete {
        RestoreStepModel::Done(Err(FsError::Os(EINVAL)))
    } else if plan.handles.len() > 0 {
        let (guest_handle, handle) = plan.handles[0];
        match tracker.host_inode(handle.nodeid) {
            Some(host_inode) => RestoreStepModel::Open {
                call: reopening(host_inode, handle),
                guest_handle,
                rest: RestorePlan { handles: plan.handles.drop_first(), ..plan },
            },
            None => RestoreStepModel::Done(Err(FsError::Os(ENOENT))),
        }
    } else {
        RestoreStepModel::Done(Ok(()))
    }
}

/// What a reply to a lookup leads to.
pub open spec fn after_lookup<E>(
    tracker: TrackerModel,
    guest_node: u64,
    rest: RestorePlan,
    reply: Result<u64, E>,
) -> (TrackerModel, RestoreStepModel<E>) {
    match reply {
        Ok(host_node) => {
            let mapped = tracker.with_inode(host_node, guest_node);
            (mapped, first_step(mapped, rest))
        },
        Err(e) => (tracker, RestoreStepModel::Done(Err(FsError::Backend(e)))),
    }
}

/// What a reply to an open leads to.
pub open spec fn after_open<E>(
    tracker: TrackerModel,
    guest_handle: u64,
    rest: RestorePlan,
    reply: Result<Option<u64>, E>,
) -> (TrackerModel, RestoreStepModel<E>) {
    match reply {
        Ok(Some(host_handle)) => {
            let mapped = tracker.with_handle(host_handle, guest_handle);
            (mapped, first_step(mapped, rest))
        },
        Ok(None) => (tracker, RestoreStepModel::Done(Err(FsError::Os(EIO)))),
        Err(e) => (tracker, RestoreStepModel::Done(Err(FsError::Backend(e)))),
    }
}

/// A node that is still to be looked up.
pub struct PendingNode {
    guest_node: u64,
    parent: u64,
    name: Vec<u8>,
}

impl View for PendingNode {
    type V = (u64, NodePlace);

    closed spec fn view(&self) -> (u64, NodePlace) {
        (self.guest_node, NodePlace { parent: self.parent, name: self.name@ })
    }
}

/// What is left to restore.
pub struct RestoreRun {
    nodes: VecDeque<PendingNode>,
    complete: bool,
    handles: VecDeque<(u64, HandleState)>,
}

impl View for RestoreRun {
    type V = RestorePlan;

    closed spec fn view(&self) -> RestorePlan {
        RestorePlan {
            nodes: self.nodes@.map_values(|node: PendingNode| node@),
            complete: self.complete,
            handles: self.handles@,
        }
    }
}

/// A lookup that the restore waits for.
pub struct PendingLookup {
    /// The host directory to look in.
    pub host_parent: u64,
    /// The name to look up.
    pub name: Vec<u8>,
    /// The guest's number for the node.
    pub guest_node: u64,
    /// What is left to restore after it.
    pub rest: RestoreRun,
}

/// An open that the restore waits for.
pub struct PendingOpen {
    /// What to open.
    pub call: OpenCall,
    /// The guest's number for the handle.
    pub guest_handle: u64,
    /// What is left to restore after it.
    pub rest: RestoreRun,
}

/// The next step of a restore.
pub enum RestoreStep<E> {
    /// The backing file system is to look up a name.
    Lookup(PendingLookup),
    /// The backing file system is to open a file or a directory.
    Open(PendingOpen),
    /// The restore is over.
    Done(Result<(), FsError<E>>),
}

impl PendingLookup {
    /// Takes the reply to the lookup: the inode found, or why there is none.
    pub fn resume<E>(self, tracker: &mut TrackingFileSystem, reply: Result<u64, E>) -> (step:
        RestoreStep<E>)
        ensures
            (final(tracker)@, step@) == after_lookup(
                old(tracker)@,
                self.guest_node,
                self.rest@,
                reply,
            ),
    {
        match reply {
            Ok(host_node) => {
                tracker.map_host_inode(host_node, self.guest_node);
                tracker.next_restore_step(self.rest)
            },
            Err(e) => RestoreStep::Done(Err(FsError::Backend(e))),
        }
    }
}

impl PendingOpen {
    /// Takes the reply to the open: the handle, or why there is none.
    pub fn resume<E>(self, tracker: &mut TrackingFileSystem, reply: Result<Option<u64>, E>) -> (step:
        RestoreStep<E>)
        ensures
            (final(tracker)@, step@) == after_open(
                old(tracker)@,
                self.guest_handle,
                self.rest@,
                reply,
            ),
    {
        match reply {
            Ok(Some(host_handle)) => {
                tracker.map_host_handle(host_handle, self.guest_handle);
                tracker.next_restore_step(self.rest)
            },
            Ok(None) => RestoreStep::Done(Err(FsError::Os(libc_eio()))),
            Err(e) => RestoreStep::Done(Err(FsError::Backend(e))),
        }
    }
}

impl<E> View for RestoreStep<E> {
    type V = RestoreStepModel<E>;

    open spec fn view(&self) -> RestoreStepModel<E> {
        match *self {
            RestoreStep::Lookup(lookup) => RestoreStepModel::Lookup {
                host_parent: lookup.host_parent,
                name: lookup.name@,
                guest_node: lookup.guest_node,
                rest: lookup.rest@,
            },
            RestoreStep::Open(open) => RestoreStepModel::Open {
                call: open.call,
                guest_handle: open.guest_handle,
                rest: open.rest@,
            },
            RestoreStep::Done(outcome) => RestoreStepModel::Done(outcome),
        }
    }
}

impl RestoreRun {
    /// Plans the restore of everything in `state`.
    fn plan(state: &BackendState) -> (run: Self)
        ensures
            run@ == restore_plan(state@),
    {
        let (order, complete) = resolution_order(&state.node_mappings);
        let nodes = Self::plan_nodes(state, &order);
        let handles = Self::plan_handles(state);
        RestoreRun { nodes, complete, handles }
    }

    /// Lists the nodes in `order` with their places.
    fn plan_nodes(state: &BackendState, order: &Vec<u64>) -> (nodes: VecDeque<PendingNode>)
        requires
            is_resolution_order(state@.nodes, order@),
        ensures
            nodes@.map_values(|node: PendingNode| node@) == order@.map_values(
                |id: u64| (id, state@.nodes[id]),
            ),
    {
        let mut nodes: VecDeque<PendingNode> = VecDeque::new();
        let mut i: usize = 0;
        while i < order.len()
            invariant
                is_resolution_order(state@.nodes, order@),
                i <= order@.len(),
                nodes@.len() == i,
                forall|j: int|
                    0 <= j < i ==> (#[trigger] nodes@[j])@ == (order@[j], state@.nodes[order@[j]]),
            decreases order@.len() - i,
        {
            let id = order[i];
            proof {
                assert(order@.contains(id));
                assert(is_resolvable(state@.nodes, id));
            }
            nodes.push_back(Self::pending_node(state, id));
            i = i + 1;
        }
        proof {
            assert(nodes@.map_values(|node: PendingNode| node@) =~= order@.map_values(
                |id: u64| (id, state@.nodes[id]),
            ));
        }
        nodes
    }

    /// The node `id` with its place.
    fn pending_node(state: &BackendState, id: u64) -> (node: PendingNode)
        requires
            state@.nodes.contains_key(id),
        ensures
            node@ == (id, state@.nodes[id]),
    {
        broadcast use vstd::laws_cmp::group_laws_cmp;

        match state.node_mappings.get(&id) {
            Some(place) => PendingNode {
                guest_node: id,
                parent: place.0,
                name: slice_to_vec(place.1.as_slice()),
            },
            None => PendingNode { guest_node: id, parent: 0, name: Vec::new() },
        }
    }

    /// Lists the handles in the order of their numbers.
    fn plan_handles(state: &BackendState) -> (handles: VecDeque<(u64, HandleState)>)
        ensures
            handles@ == in_order(state@.handles.dom()).map_values(
                |handle: u64| (handle, state@.handles[handle]),
            ),
    {
        let order = ordered_keys(&state.handles);
        proof {
            lemma_in_order(order@, state@.handles.dom());
        }
        let mut handles: VecDeque<(u64, HandleState)> = VecDeque::new();
        let mut i: usize = 0;
        while i < order.len()
            invariant
                order@ == in_order(state@.handles.dom()),
                forall|id: u64| order@.contains(id) <==> state@.handles.dom().contains(id),
                i <= order@.len(),
                handles@.len() == i,
                forall|j: int|
                    0 <= j < i ==> #[trigger] handles@[j] == (
                        order@[j],
                        state@.handles[order@[j]],
                    ),
            decreases order@.len() - i,
        {
            let handle = order[i];
            proof {
                assert(order@.contains(handle));
            }
            handles.push_back((handle, Self::handle_state(state, handle)));
            i = i + 1;
        }
        proof {
            assert(handles@ =~= in_order(state@.handles.dom()).map_values(
                |handle: u64| (handle, state@.handles[handle]),
            ));
        }
        handles
    }

    /// The recorded state of `handle`.
    fn handle_state(state: &BackendState, handle: u64) -> (found: HandleState)
        requires
            state@.handles.contains_key(handle),
        ensures
            found == state@.handles[handle],
    {
        broadcast use vstd::laws_cmp::group_laws_cmp;

        match state.handles.get(&handle) {
            Some(found) => found.clone(),
            None => HandleState { nodeid: 0, flags: 0, is_dir: false },
        }
    }
}

impl TrackingFileSystem {
    /// Starts to restore the recorded nodes and handles.
    ///
    /// The nodes are looked up from the root down, so that a parent is found before its children.
    /// The restore ends with an error at the first reply that is one, with `EINVAL` where nodes
    /// remain that do not lie in the root, with `ENOENT` where a handle belongs to a node that
    /// was not found, and with `EIO` where an open gives no handle.
    pub fn restore_state<E>(&self) -> (step: RestoreStep<E>)
        ensures
            step@ == first_step::<E>(self@, restore_plan(self@.backend)),
    {
        let run = RestoreRun::plan(self.state());
        self.next_restore_step(run)
    }

    /// The first step of what is left to restore.
    fn next_restore_step<E>(&self, run: RestoreRun) -> (step: RestoreStep<E>)
        ensures
            step@ == first_step::<E>(self@, run@),
    {
        let mut rest = run;
        match rest.nodes.pop_front() {
            Some(node) => {
                proof {
                    assert(run@.nodes[0] == node@);
                    assert(rest@ =~= RestorePlan { nodes: run@.nodes.drop_first(), ..run@ });
                }
                match self.map_guest_inode(node.parent) {
                    Ok(host_parent) => RestoreStep::Lookup(
                        PendingLookup {
                            host_parent,
                            name: node.name,
                            guest_node: node.guest_node,
                            rest,
                        },
                    ),
                    Err(code) => RestoreStep::Done(Err(FsError::Os(code))),
                }
            },
            None => {
                if !rest.complete {
                    return RestoreStep::Done(Err(FsError::Os(libc_einval())));
                }
                match rest.handles.pop_front() {
                    Some(entry) => {
                        let (guest_handle, handle) = entry;
                        proof {
                            assert(rest@ =~= RestorePlan {
                                handles: run@.handles.drop_first(),
                                ..run@
                            });
                        }
                        match self.map_guest_inode(handle.nodeid) {
                            Ok(host_inode) => RestoreStep::Open(
                                PendingOpen {
                                    call: if handle.is_dir {
                                        OpenCall::Dir { inode: host_inode, flags: handle.flags }
                                    } else {
                                        OpenCall::File {
                                            inode: host_inode,
                                            flags: handle.flags,
                                            fuse_flags: 0,
                                        }
                                    },
                                    guest_handle,
                                    rest,
                                },
                            ),
                            Err(code) => RestoreStep::Done(Err(FsError::Os(code))),
                        }
                    },
                    None => RestoreStep::Done(Ok(())),
                }
            },
        }
    }
}

} // verus!
