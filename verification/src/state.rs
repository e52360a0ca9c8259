//! What a snapshot of the device holds.

use std::collections::BTreeMap;

use vstd::prelude::*;

use crate::model::{BackendModel, FsStateModel, NodePlace};

verus! {

/// An open file or directory handle.
#[derive(Debug, PartialEq, Eq)]
pub struct HandleState {
    /// The node that the handle was opened on.
    pub nodeid: u64,
    /// The flags that it was opened with.
    pub flags: u32,
    /// Whether it is a directory handle.
    pub is_dir: bool,
}

impl Clone for HandleState {
    fn clone(&self) -> (copy: Self)
        ensures
            copy == *self,
    {
        HandleState { nodeid: self.nodeid, flags: self.flags, is_dir: self.is_dir }
    }
}

/// Minimum backend state for snapshot and restore.
pub struct BackendState {
    /// Mapping of nodeid to its (parent nodeid, name) for path resolution.
    pub node_mappings: BTreeMap<u64, (u64, Vec<u8>)>,
    /// Active file and directory handles and their properties.
    pub handles: BTreeMap<u64, HandleState>,
}

/// The places that a table of nodes gives to its nodes.
pub open spec fn places(table: Map<u64, (u64, Vec<u8>)>) -> Map<u64, NodePlace> {
    table.map_values(|place: (u64, Vec<u8>)| NodePlace { parent: place.0, name: place.1@ })
}

impl View for BackendState {
    type V = BackendModel;

    open spec fn view(&self) -> BackendModel {
        BackendModel {
            nodes: places(self.node_mappings@),
            handles: self.handles@,
        }
    }
}

impl Clone for BackendState {
    fn clone(&self) -> (copy: Self)
        ensures
            copy@ == self@,
    {
        BackendState { node_mappings: self.node_mappings.clone(), handles: self.handles.clone() }
    }
}

impl Default for BackendState {
    fn default() -> (empty: Self)
        ensures
            empty@ == BackendModel::empty(),
    {
        let empty = BackendState { node_mappings: BTreeMap::new(), handles: BTreeMap::new() };
        proof {
            assert(empty@.nodes =~= Map::<u64, NodePlace>::empty());
        }
        empty
    }
}

/// The state of the device that a snapshot keeps.
pub struct FsState {
    /// The features that the device offers.
    pub avail_features: u64,
    /// The features that the driver has accepted.
    pub acked_features: u64,
    /// The size of each queue.
    pub queue_sizes: Vec<u16>,
    /// The nodes and handles in use.
    pub backend: BackendState,
}

impl View for FsState {
    type V = FsStateModel;

    open spec fn view(&self) -> FsStateModel {
        FsStateModel {
            avail_features: self.avail_features,
            acked_features: self.acked_features,
            queue_sizes: self.queue_sizes@,
            backend: self.backend@,
        }
    }
}

} // verus!
