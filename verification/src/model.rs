//! What the tracked state means, and what each tracking operation does to it.

use vstd::prelude::*;

use crate::path::same_path;
use crate::state::HandleState;

verus! {

/// The node id of the root directory.
pub const ROOT_ID: u64 = 1;

/// Where a node stands: the name it has in its parent directory.
#[verifier::ext_equal]
pub struct NodePlace {
    pub parent: u64,
    pub name: Seq<u8>,
}

/// The nodes and handles that a snapshot keeps, by their ids.
#[verifier::ext_equal]
pub struct BackendModel {
    pub nodes: Map<u64, NodePlace>,
    pub handles: Map<u64, HandleState>,
}

impl BackendModel {
    pub open spec fn empty() -> Self {
        BackendModel { nodes: Map::empty(), handles: Map::empty() }
    }
}

/// What a snapshot of the device holds.
#[verifier::ext_equal]
pub struct FsStateModel {
    pub avail_features: u64,
    pub acked_features: u64,
    pub queue_sizes: Seq<u16>,
    pub backend: BackendModel,
}

/// Whether a node placed at `place` is called `name` in the directory `parent`.
pub open spec fn is_at(place: NodePlace, parent: u64, name: Seq<u8>) -> bool {
    place.parent == parent && same_path(place.name, name)
}

/// Whether `id` is the lowest of the nodes called `name` in `parent`.
pub open spec fn is_first_at(
    nodes: Map<u64, NodePlace>,
    parent: u64,
    name: Seq<u8>,
    id: u64,
) -> bool {
    &&& nodes.contains_key(id)
    &&& is_at(nodes[id], parent, name)
    &&& forall|other: u64| #[trigger]
        nodes.contains_key(other) && is_at(nodes[other], parent, name) ==> id <= other
}

/// The lowest of the nodes called `name` in `parent`, if there is one.
pub open spec fn node_at(nodes: Map<u64, NodePlace>, parent: u64, name: Seq<u8>) -> Option<u64> {
    if exists|id: u64| is_first_at(nodes, parent, name, id) {
        Some(choose|id: u64| is_first_at(nodes, parent, name, id))
    } else {
        None
    }
}

/// The node that is `steps` parents above `id`; there is none where the chain of parents
/// leaves the known nodes earlier.
pub open spec fn ancestor(nodes: Map<u64, NodePlace>, id: u64, steps: nat) -> Option<u64>
    decreases steps,
{
    if steps == 0 {
        Some(id)
    } else if nodes.contains_key(id) {
        ancestor(nodes, nodes[id].parent, (steps - 1) as nat)
    } else {
        None
    }
}

/// Whether `id` is `top` or lies, at any depth, in the directory `top`.
pub open spec fn is_within(nodes: Map<u64, NodePlace>, top: u64, id: u64) -> bool {
    exists|steps: nat| ancestor(nodes, id, steps) == Some(top)
}

/// The known nodes that are `top` or lie in it.
pub open spec fn subtree(nodes: Map<u64, NodePlace>, top: u64) -> Set<u64> {
    Set::new(|id: u64| nodes.contains_key(id) && is_within(nodes, top, id))
}

/// The nodes called `name` in `parent`.
pub open spec fn called(nodes: Map<u64, NodePlace>, parent: u64, name: Seq<u8>) -> Set<u64> {
    Set::new(|id: u64| nodes.contains_key(id) && is_at(nodes[id], parent, name))
}

/// Whether `id` is the node `top` called `name` in `parent`, or lies in it.
pub open spec fn stands_in(
    nodes: Map<u64, NodePlace>,
    parent: u64,
    name: Seq<u8>,
    top: u64,
    id: u64,
) -> bool {
    called(nodes, parent, name).contains(top) && is_within(nodes, top, id)
}

/// The nodes called `name` in `parent`, with all that lies in them.
pub open spec fn standing_at(nodes: Map<u64, NodePlace>, parent: u64, name: Seq<u8>) -> Set<u64> {
    Set::new(
        |id: u64|
            nodes.contains_key(id) && exists|top: u64| stands_in(nodes, parent, name, top, id),
    )
}

/// `nodes` without `spared` and without the root.
pub open spec fn others(nodes: Map<u64, NodePlace>, spared: Set<u64>) -> Map<u64, NodePlace> {
    nodes.remove_keys(spared.insert(ROOT_ID))
}

/// What has to leave so that only `spared` are called `name` in `parent`: the nodes that stand
/// there, with all that lies in them, but neither `spared`, nor what lies in those, nor the root.
pub open spec fn displaced(
    nodes: Map<u64, NodePlace>,
    spared: Set<u64>,
    parent: u64,
    name: Seq<u8>,
) -> Set<u64> {
    standing_at(others(nodes, spared), parent, name)
}

/// `nodes` without what has to leave so that only `spared` are called `name` in `parent`.
pub open spec fn cleared(
    nodes: Map<u64, NodePlace>,
    spared: Set<u64>,
    parent: u64,
    name: Seq<u8>,
) -> Map<u64, NodePlace> {
    nodes.remove_keys(displaced(nodes, spared, parent, name))
}

/// `nodes` where `id` is called `name` in `parent`, and what else stood there has left but for
/// `spared`.
pub open spec fn placed(
    nodes: Map<u64, NodePlace>,
    spared: Set<u64>,
    id: u64,
    parent: u64,
    name: Seq<u8>,
) -> Map<u64, NodePlace> {
    cleared(nodes, spared, parent, name).insert(id, NodePlace { parent, name })
}

/// `nodes` where every node called `old_name` in `old_parent` is called `new_name` in
/// `new_parent` instead.
pub open spec fn relabelled(
    nodes: Map<u64, NodePlace>,
    old_parent: u64,
    old_name: Seq<u8>,
    new_parent: u64,
    new_name: Seq<u8>,
) -> Map<u64, NodePlace> {
    nodes.map_values(
        |place: NodePlace|
            if is_at(place, old_parent, old_name) {
                NodePlace { parent: new_parent, name: new_name }
            } else {
                place
            },
    )
}

/// `nodes` where every node called `old_name` in `old_parent` is called `new_name` in
/// `new_parent` instead, and what else stood there has left but for `spared`.
pub open spec fn moved(
    nodes: Map<u64, NodePlace>,
    spared: Set<u64>,
    old_parent: u64,
    old_name: Seq<u8>,
    new_parent: u64,
    new_name: Seq<u8>,
) -> Map<u64, NodePlace> {
    relabelled(
        cleared(nodes, spared, new_parent, new_name),
        old_parent,
        old_name,
        new_parent,
        new_name,
    )
}

/// `nodes` where what is called `old_name` in `old_parent` and what is called `new_name` in
/// `new_parent` have changed places.
pub open spec fn exchanged(
    nodes: Map<u64, NodePlace>,
    old_parent: u64,
    old_name: Seq<u8>,
    new_parent: u64,
    new_name: Seq<u8>,
) -> Map<u64, NodePlace> {
    nodes.map_values(
        |place: NodePlace|
            if is_at(place, old_parent, old_name) {
                NodePlace { parent: new_parent, name: new_name }
            } else if is_at(place, new_parent, new_name) {
                NodePlace { parent: old_parent, name: old_name }
            } else {
                place
            },
    )
}

/// The keys that lead to one of `ids`.
pub open spec fn leading_to(m: Map<u64, u64>, ids: Set<u64>) -> Set<u64> {
    Set::new(|key: u64| m.contains_key(key) && ids.contains(m[key]))
}

/// The whole of the tracked state.
#[verifier::ext_equal]
pub struct TrackerModel {
    /// The nodes and handles that a snapshot keeps.
    pub backend: BackendModel,
    /// The backend's inode for each inode of the guest.
    pub guest_to_host_inodes: Map<u64, u64>,
    /// The guest's inode for each inode of the backend.
    pub host_to_guest_inodes: Map<u64, u64>,
    /// The backend's handle for each handle of the guest.
    pub guest_to_host_handles: Map<u64, u64>,
    /// The guest's handle for each handle of the backend.
    pub host_to_guest_handles: Map<u64, u64>,
}

impl TrackerModel {
    /// Nothing is translated but the root, and the snapshot state is `backend`.
    pub open spec fn fresh(backend: BackendModel) -> Self {
        TrackerModel {
            backend,
            guest_to_host_inodes: Map::empty().insert(ROOT_ID, ROOT_ID),
            host_to_guest_inodes: Map::empty().insert(ROOT_ID, ROOT_ID),
            guest_to_host_handles: Map::empty(),
            host_to_guest_handles: Map::empty(),
        }
    }

    /// The backend's inode for the guest's `guest_inode`.
    pub open spec fn host_inode(self, guest_inode: u64) -> Option<u64> {
        if self.guest_to_host_inodes.contains_key(guest_inode) {
            Some(self.guest_to_host_inodes[guest_inode])
        } else {
            None
        }
    }

    /// The backend's handle for the guest's `guest_handle`: the same number where none is known.
    pub open spec fn host_handle(self, guest_handle: u64) -> u64 {
        if self.guest_to_host_handles.contains_key(guest_handle) {
            self.guest_to_host_handles[guest_handle]
        } else {
            guest_handle
        }
    }

    /// The guest's inode for the backend's `host_inode`: the same number where none is known.
    pub open spec fn guest_inode(self, host_inode: u64) -> u64 {
        if self.host_to_guest_inodes.contains_key(host_inode) {
            self.host_to_guest_inodes[host_inode]
        } else {
            host_inode
        }
    }

    pub open spec fn with_inode(self, host_inode: u64, guest_inode: u64) -> Self {
        TrackerModel {
            guest_to_host_inodes: self.guest_to_host_inodes.insert(guest_inode, host_inode),
            host_to_guest_inodes: self.host_to_guest_inodes.insert(host_inode, guest_inode),
            ..self
        }
    }

    /// `host_inode` is registered under its own number unless it is known already.
    pub open spec fn with_host_inode_known(self, host_inode: u64) -> Self {
        if self.host_to_guest_inodes.contains_key(host_inode) {
            self
        } else {
            self.with_inode(host_inode, host_inode)
        }
    }

    pub open spec fn with_handle(self, host_handle: u64, guest_handle: u64) -> Self {
        TrackerModel {
            guest_to_host_handles: self.guest_to_host_handles.insert(guest_handle, host_handle),
            host_to_guest_handles: self.host_to_guest_handles.insert(host_handle, guest_handle),
            ..self
        }
    }

    pub open spec fn without_handle(self, guest_handle: u64) -> Self {
        if self.guest_to_host_handles.contains_key(guest_handle) {
            let host_handle = self.guest_to_host_handles[guest_handle];
            TrackerModel {
                guest_to_host_handles: self.guest_to_host_handles.remove(guest_handle),
                host_to_guest_handles: self.host_to_guest_handles.remove(host_handle),
                ..self
            }
        } else {
            self
        }
    }

    /// Whether `id` stands for the inode of one of `ids`, or for one that the guest knows as one of
    /// them.
    pub open spec fn shares_inode(self, id: u64, ids: Set<u64>) -> bool {
        match self.host_inode(id) {
            Some(host_inode) => {
                ||| self.host_to_guest_inodes.contains_key(host_inode) && ids.contains(
                    self.host_to_guest_inodes[host_inode],
                )
                ||| exists|other: u64| #[trigger]
                    ids.contains(other) && self.host_inode(other) == Some(host_inode)
            },
            None => false,
        }
    }

    /// `ids` and the guest's other numbers for their inodes.
    pub open spec fn sharing(self, ids: Set<u64>) -> Set<u64> {
        Set::new(|id: u64| ids.contains(id) || self.shares_inode(id, ids))
    }

    /// `nodeid` is called `name` in `parent`; a snapshot no longer keeps what else stood there,
    /// but for other numbers of the same inode.
    pub open spec fn with_node(self, nodeid: u64, parent: u64, name: Seq<u8>) -> Self {
        TrackerModel {
            backend: BackendModel {
                nodes: placed(
                    self.backend.nodes,
                    self.sharing(set![nodeid]),
                    nodeid,
                    parent,
                    name,
                ),
                ..self.backend
            },
            ..self
        }
    }

    /// The nodes in `ids` are forgotten, and so is what the guest's numbers in `ids` stand for:
    /// they lead to no host inode, and no host inode leads to them.
    pub open spec fn without_nodes(self, ids: Set<u64>) -> Self {
        TrackerModel {
            backend: BackendModel {
                nodes: self.backend.nodes.remove_keys(ids),
                ..self.backend
            },
            guest_to_host_inodes: self.guest_to_host_inodes.remove_keys(ids),
            host_to_guest_inodes: self.host_to_guest_inodes.remove_keys(
                leading_to(self.host_to_guest_inodes, ids),
            ),
            ..self
        }
    }

    /// The lowest node called `name` in `parent` is forgotten with everything in it.
    pub open spec fn without_node_at(self, parent: u64, name: Seq<u8>) -> Self {
        match node_at(self.backend.nodes, parent, name) {
            Some(id) => self.without_nodes(subtree(self.backend.nodes, id)),
            None => self,
        }
    }

    /// Every node called `old_name` in `old_parent` is called `new_name` in `new_parent`; a
    /// snapshot no longer keeps what else stood there, but for other numbers of the same inodes.
    pub open spec fn with_nodes_moved(
        self,
        old_parent: u64,
        old_name: Seq<u8>,
        new_parent: u64,
        new_name: Seq<u8>,
    ) -> Self {
        TrackerModel {
            backend: BackendModel {
                nodes: moved(
                    self.backend.nodes,
                    self.sharing(called(self.backend.nodes, old_parent, old_name)),
                    old_parent,
                    old_name,
                    new_parent,
                    new_name,
                ),
                ..self.backend
            },
            ..self
        }
    }

    /// What is called `old_name` in `old_parent` and what is called `new_name` in `new_parent`
    /// have changed places.
    pub open spec fn with_nodes_exchanged(
        self,
        old_parent: u64,
        old_name: Seq<u8>,
        new_parent: u64,
        new_name: Seq<u8>,
    ) -> Self {
        TrackerModel {
            backend: BackendModel {
                nodes: exchanged(self.backend.nodes, old_parent, old_name, new_parent, new_name),
                ..self.backend
            },
            ..self
        }
    }

    pub open spec fn with_handle_state(self, handle: u64, state: HandleState) -> Self {
        TrackerModel {
            backend: BackendModel {
                handles: self.backend.handles.insert(handle, state),
                ..self.backend
            },
            ..self
        }
    }

    pub open spec fn without_handle_state(self, handle: u64) -> Self {
        TrackerModel {
            backend: BackendModel { handles: self.backend.handles.remove(handle), ..self.backend },
            ..self
        }
    }
}

} // verus!
