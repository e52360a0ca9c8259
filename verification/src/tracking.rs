//! The tracked state, and the operations that keep it current.

use std::collections::BTreeMap;

use vstd::prelude::*;

use crate::errno::{libc_enoent, ENOENT};
use crate::model::{is_first_at, leading_to, subtree, TrackerModel, ROOT_ID};
use crate::nodes::{collect_subtree, find_node, list_holds};
use crate::ordered::{lists_in_order, ordered_keys};
use crate::placing::{
    exchange_nodes, lemma_pushed, lemma_take_one_more, move_nodes, nodes_at, place_node,
};
use crate::state::{BackendState, HandleState};

verus! {

/// Tracks the nodes and handles of a file system for snapshots, and translates between the
/// numbers that the guest holds and those of the backing file system.
pub struct TrackingFileSystem {
    state: BackendState,
    /// Maps guest inode to host inode.
    guest_to_host_inodes: BTreeMap<u64, u64>,
    /// Maps host inode to guest inode.
    host_to_guest_inodes: BTreeMap<u64, u64>,
    /// Maps guest handle to host handle.
    guest_to_host_handles: BTreeMap<u64, u64>,
    /// Maps host handle to guest handle.
    host_to_guest_handles: BTreeMap<u64, u64>,
}

impl View for TrackingFileSystem {
    type V = TrackerModel;

    closed spec fn view(&self) -> TrackerModel {
        TrackerModel {
            backend: self.state@,
            guest_to_host_inodes: self.guest_to_host_inodes@,
            host_to_guest_inodes: self.host_to_guest_inodes@,
            guest_to_host_handles: self.guest_to_host_handles@,
            host_to_guest_handles: self.host_to_guest_handles@,
        }
    }
}

impl TrackingFileSystem {
    /// A tracker that starts from `state` and translates the root inode only.
    pub fn new(state: BackendState) -> (tracker: Self)
        ensures
            tracker@ == TrackerModel::fresh(state@),
    {
        broadcast use vstd::laws_cmp::group_laws_cmp;

        let mut guest_to_host_inodes: BTreeMap<u64, u64> = BTreeMap::new();
        let mut host_to_guest_inodes: BTreeMap<u64, u64> = BTreeMap::new();
        guest_to_host_inodes.insert(ROOT_ID, ROOT_ID);
        host_to_guest_inodes.insert(ROOT_ID, ROOT_ID);
        TrackingFileSystem {
            state,
            guest_to_host_inodes,
            host_to_guest_inodes,
            guest_to_host_handles: BTreeMap::new(),
            host_to_guest_handles: BTreeMap::new(),
        }
    }

    /// What a snapshot keeps.
    pub fn state(&self) -> (state: &BackendState)
        ensures
            state@ == self@.backend,
    {
        &self.state
    }

    /// The host inode for `guest_inode`, or `ENOENT` where the guest does not hold that inode.
    pub fn map_guest_inode(&self, guest_inode: u64) -> (host: Result<u64, i32>)
        ensures
            host == match self@.host_inode(guest_inode) {
                Some(host_inode) => Ok::<u64, i32>(host_inode),
                None => Err::<u64, i32>(ENOENT),
            },
    {
        broadcast use vstd::laws_cmp::group_laws_cmp;

        match self.guest_to_host_inodes.get(&guest_inode) {
            Some(host_inode) => Ok(*host_inode),
            None => Err(libc_enoent()),
        }
    }

    /// Pairs `host_inode` with `guest_inode`.
    pub fn map_host_inode(&mut self, host_inode: u64, guest_inode: u64)
        ensures
            final(self)@ == old(self)@.with_inode(host_inode, guest_inode),
    {
        broadcast use vstd::laws_cmp::group_laws_cmp;

        self.guest_to_host_inodes.insert(guest_inode, host_inode);
        self.host_to_guest_inodes.insert(host_inode, guest_inode);
    }

    /// The host handle for `guest_handle`: the same number where none is known.
    pub fn map_guest_handle(&self, guest_handle: u64) -> (host_handle: u64)
        ensures
            host_handle == self@.host_handle(guest_handle),
    {
        broadcast use vstd::laws_cmp::group_laws_cmp;

        match self.guest_to_host_handles.get(&guest_handle) {
            Some(host_handle) => *host_handle,
            None => guest_handle,
        }
    }

    /// Pairs `host_handle` with `guest_handle`.
    pub fn map_host_handle(&mut self, host_handle: u64, guest_handle: u64)
        ensures
            final(self)@ == old(self)@.with_handle(host_handle, guest_handle),
    {
        broadcast use vstd::laws_cmp::group_laws_cmp;

        self.guest_to_host_handles.insert(guest_handle, host_handle);
        self.host_to_guest_handles.insert(host_handle, guest_handle);
    }

    /// Forgets `guest_handle` and the host handle that it stood for.
    pub fn remove_handle_mapping(&mut self, guest_handle: u64)
        ensures
            final(self)@ == old(self)@.without_handle(guest_handle),
    {
        broadcast use vstd::laws_cmp::group_laws_cmp;

        if let Some(host_handle) = self.guest_to_host_handles.remove(&guest_handle) {
            self.host_to_guest_handles.remove(&host_handle);
        } else {
            proof {
                assert(self@ =~= old(self)@);
            }
        }
    }

    /// The guest's number for `host_inode`, if it has one.
    fn known_as(&self, host_inode: u64) -> (guest_inode: Option<u64>)
        ensures
            match guest_inode {
                Some(known) => self@.host_to_guest_inodes.contains_key(host_inode)
                    && self@.host_to_guest_inodes[host_inode] == known,
                None => !self@.host_to_guest_inodes.contains_key(host_inode),
            },
    {
        broadcast use vstd::laws_cmp::group_laws_cmp;

        match self.host_to_guest_inodes.get(&host_inode) {
            Some(guest_inode) => Some(*guest_inode),
            None => None,
        }
    }

    /// Whether `id` stands for the inode of one of `ids`, or for one that the guest knows as one of
    /// them.
    fn shares_inode(&self, id: u64, ids: &Vec<u64>) -> (shares: bool)
        ensures
            shares == self@.shares_inode(id, ids@.to_set()),
    {
        let host_inode = match self.map_guest_inode(id) {
            Ok(host_inode) => host_inode,
            Err(_) => return false,
        };
        if let Some(guest_inode) = self.known_as(host_inode) {
            if list_holds(ids, guest_inode) {
                return true;
            }
        }
        let mut i: usize = 0;
        while i < ids.len()
            invariant
                i <= ids@.len(),
                self@.host_inode(id) == Some(host_inode),
                forall|j: int|
                    0 <= j < i ==> self@.host_inode(#[trigger] ids@[j]) != Some(host_inode),
            decreases ids@.len() - i,
        {
            if let Ok(other) = self.map_guest_inode(ids[i]) {
                if other == host_inode {
                    proof {
                        assert(ids@.to_set().contains(ids@[i as int]));
                    }
                    return true;
                }
            }
            i = i + 1;
        }
        proof {
            assert forall|other: u64| #[trigger] ids@.to_set().contains(other) implies
                self@.host_inode(other) != Some(host_inode) by {
                let j = choose|j: int| 0 <= j < ids@.len() && ids@[j] == other;
                assert(ids@[j] == other);
            }
        }
        false
    }

    /// Lists `ids` and the guest's other numbers for their inodes.
    fn sharing(&self, ids: Vec<u64>) -> (all: Vec<u64>)
        ensures
            all@.to_set() == self@.sharing(ids@.to_set()),
    {
        let known = ordered_keys(&self.guest_to_host_inodes);
        let ghost given = ids@;
        let mut all: Vec<u64> = Vec::new();
        let mut i: usize = 0;
        while i < known.len()
            invariant
                lists_in_order(known@, self@.guest_to_host_inodes.dom()),
                i <= known@.len(),
                forall|x: u64| #[trigger]
                    all@.contains(x) <==> known@.take(i as int).contains(x) && self@.shares_inode(
                        x,
                        ids@.to_set(),
                    ),
            decreases known@.len() - i,
        {
            let id = known[i];
            let ghost before = all@;
            if self.shares_inode(id, &ids) {
                all.push(id);
            }
            proof {
                lemma_take_one_more(known@, i as int);
                assert forall|x: u64| #[trigger] known@.take(i + 1).contains(x)
                    <==> known@.take(i as int).contains(x) || x == id by {
                    assert(known@.take(i + 1).to_set().contains(x) <==> known@.take(
                        i as int,
                    ).to_set().contains(x) || x == id);
                }
                if all@.len() > before.len() {
                    lemma_pushed(before, id);
                }
            }
            i = i + 1;
        }
        let mut rest = ids;
        let ghost others = all@;
        all.append(&mut rest);
        proof {
            assert(known@.take(i as int) =~= known@);
            assert forall|x: u64| all@.to_set().contains(x) <==> self@.sharing(
                given.to_set(),
            ).contains(x) by {
                if self@.shares_inode(x, given.to_set()) {
                    assert(self@.guest_to_host_inodes.dom().contains(x));
                    assert(known@.contains(x));
                    assert(others.contains(x));
                    let j = choose|j: int| 0 <= j < others.len() && others[j] == x;
                    assert(all@[j] == x);
                }
                if given.contains(x) {
                    let j = choose|j: int| 0 <= j < given.len() && given[j] == x;
                    assert(all@[others.len() + j] == x);
                }
                if all@.contains(x) {
                    let j = choose|j: int| 0 <= j < all@.len() && all@[j] == x;
                    if j < others.len() {
                        assert(others[j] == x);
                        assert(others.contains(x));
                    } else {
                        assert(given[j - others.len()] == x);
                    }
                }
            }
            assert(all@.to_set() =~= self@.sharing(given.to_set()));
        }
        all
    }

    /// Records that `nodeid` is called `name` in `parent`. What else stood there leaves the record,
    /// but for other numbers of the same inode.
    pub fn insert_node_mapping(&mut self, nodeid: u64, parent: u64, name: &[u8])
        ensures
            final(self)@ == old(self)@.with_node(nodeid, parent, name@),
    {
        let movers: Vec<u64> = vec![nodeid];
        proof {
            assert(movers@[0] == nodeid);
            assert(movers@.to_set() =~= set![nodeid]);
        }
        let spared = self.sharing(movers);
        place_node(&mut self.state.node_mappings, &spared, nodeid, parent, name);
    }

    /// Forgets the host inodes that lead to the guest inode `node_id`.
    fn forget_host_inodes(&mut self, node_id: u64)
        ensures
            final(self)@ == (TrackerModel {
                host_to_guest_inodes: old(self)@.host_to_guest_inodes.remove_keys(
                    leading_to(old(self)@.host_to_guest_inodes, set![node_id]),
                ),
                ..old(self)@
            }),
    {
        broadcast use vstd::laws_cmp::group_laws_cmp;

        let keys = ordered_keys(&self.host_to_guest_inodes);
        let ghost before = self@.host_to_guest_inodes;
        let mut i: usize = 0;
        while i < keys.len()
            invariant
                vstd::laws_cmp::obeys_cmp::<u64>(),
                lists_in_order(keys@, before.dom()),
                i <= keys@.len(),
                self@ == (TrackerModel {
                    host_to_guest_inodes: self@.host_to_guest_inodes,
                    ..old(self)@
                }),
                forall|h: u64| #[trigger]
                    self@.host_to_guest_inodes.contains_key(h) ==> before.contains_key(h)
                        && self@.host_to_guest_inodes[h] == before[h],
                forall|h: u64| #[trigger]
                    before.contains_key(h) && before[h] != node_id
                        ==> self@.host_to_guest_inodes.contains_key(h),
                forall|j: int|
                    0 <= j < i && before[#[trigger] keys@[j]] == node_id
                        ==> !self@.host_to_guest_inodes.contains_key(keys@[j]),
                forall|j: int|
                    i <= j < keys@.len() ==> self@.host_to_guest_inodes.contains_key(
                        #[trigger] keys@[j],
                    ),
            decreases keys@.len() - i,
        {
            let host_inode = keys[i];
            let leads_here = match self.host_to_guest_inodes.get(&host_inode) {
                Some(guest_inode) => *guest_inode == node_id,
                None => false,
            };
            if leads_here {
                self.host_to_guest_inodes.remove(&host_inode);
            }
            i = i + 1;
        }
        proof {
            let after = before.remove_keys(leading_to(before, set![node_id]));
            assert forall|h: u64| self@.host_to_guest_inodes.contains_key(h)
                <==> after.contains_key(h) by {
                if before.contains_key(h) {
                    assert(before.dom().contains(h));
                    assert(keys@.contains(h));
                    let j = choose|j: int| 0 <= j < keys@.len() && keys@[j] == h;
                    assert(keys@[j] == h);
                }
            }
            assert(self@.host_to_guest_inodes =~= after);
        }
    }

    /// Forgets the node `node_id`, and what that number stands for on both sides of the inode
    /// translation.
    fn forget_node(&mut self, node_id: u64)
        ensures
            final(self)@ == old(self)@.without_nodes(set![node_id]),
    {
        broadcast use vstd::laws_cmp::group_laws_cmp;

        self.state.node_mappings.remove(&node_id);
        self.guest_to_host_inodes.remove(&node_id);
        self.forget_host_inodes(node_id);
        proof {
            assert(self@ =~= old(self)@.without_nodes(set![node_id]));
        }
    }

    /// Forgets the lowest node called `name` in `parent`, with every node that lies in it. Where
    /// nodes lie in a circle, each of them lies in all the others.
    pub fn remove_node_mapping(&mut self, parent: u64, name: &[u8])
        ensures
            final(self)@ == old(self)@.without_node_at(parent, name@),
    {
        let target = find_node(&self.state.node_mappings, parent, name);
        let ghost nodes = self@.backend.nodes;
        match target {
            Some(id) => {
                proof {
                    let chosen = choose|id: u64| is_first_at(nodes, parent, name@, id);
                    assert(is_first_at(nodes, parent, name@, chosen));
                }
                let doomed = collect_subtree(&self.state.node_mappings, id);
                let mut i: usize = 0;
                proof {
                    assert(self@ =~= old(self)@.without_nodes(doomed@.take(0).to_set()));
                }
                while i < doomed.len()
                    invariant
                        i <= doomed@.len(),
                        self@ == old(self)@.without_nodes(doomed@.take(i as int).to_set()),
                    decreases doomed@.len() - i,
                {
                    let node_id = doomed[i];
                    self.forget_node(node_id);
                    proof {
                        let gone = doomed@.take(i as int).to_set();
                        lemma_take_one_more(doomed@, i as int);
                        assert(self@ =~= old(self)@.without_nodes(gone.insert(node_id)));
                    }
                    i = i + 1;
                }
                proof {
                    assert(doomed@.take(i as int) =~= doomed@);
                    assert(doomed@.to_set() =~= subtree(nodes, id));
                }
            },
            None => {},
        }
    }

    /// Records that what was called `old_name` in `old_parent` is now called `new_name` in
    /// `new_parent`. What else stood there leaves the record, but for other numbers of the same
    /// inodes.
    pub fn update_node_mapping(
        &mut self,
        old_parent: u64,
        old_name: &[u8],
        new_parent: u64,
        new_name: &[u8],
    )
        ensures
            final(self)@ == old(self)@.with_nodes_moved(
                old_parent,
                old_name@,
                new_parent,
                new_name@,
            ),
    {
        let movers = nodes_at(&self.state.node_mappings, old_parent, old_name);
        let spared = self.sharing(movers);
        move_nodes(
            &mut self.state.node_mappings,
            &spared,
            old_parent,
            old_name,
            new_parent,
            new_name,
        );
    }

    /// Records that what was called `old_name` in `old_parent` and what was called `new_name` in
    /// `new_parent` have changed places.
    pub fn exchange_node_mappings(
        &mut self,
        old_parent: u64,
        old_name: &[u8],
        new_parent: u64,
        new_name: &[u8],
    )
        ensures
            final(self)@ == old(self)@.with_nodes_exchanged(
                old_parent,
                old_name@,
                new_parent,
                new_name@,
            ),
    {
        exchange_nodes(
            &mut self.state.node_mappings,
            old_parent,
            old_name,
            new_parent,
            new_name,
        );
    }

    /// The guest inode for `host_inode`; one not seen before is registered under its own number.
    pub fn register_host_inode(&mut self, host_inode: u64) -> (guest_inode: u64)
        ensures
            guest_inode == old(self)@.guest_inode(host_inode),
            final(self)@ == old(self)@.with_host_inode_known(host_inode),
    {
        match self.known_as(host_inode) {
            Some(guest_inode) => guest_inode,
            None => {
                self.map_host_inode(host_inode, host_inode);
                host_inode
            },
        }
    }

    /// Records the open handle `handle`.
    pub fn insert_handle_state(&mut self, handle: u64, state: HandleState)
        ensures
            final(self)@ == old(self)@.with_handle_state(handle, state),
    {
        broadcast use vstd::laws_cmp::group_laws_cmp;

        self.state.handles.insert(handle, state);
    }

    /// Drops the record of the handle `handle`.
    pub fn remove_handle_state(&mut self, handle: u64)
        ensures
            final(self)@ == old(self)@.without_handle_state(handle),
    {
        broadcast use vstd::laws_cmp::group_laws_cmp;

        self.state.handles.remove(&handle);
    }
}

} // verus!
