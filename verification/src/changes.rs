//! The changes that requests make to the tracked state.

use vstd::prelude::*;

use crate::model::TrackerModel;
use crate::state::HandleState;

verus! {

/// What is tracked once `handle` was opened on the guest's `inode`.
pub open spec fn with_open(
    t: TrackerModel,
    inode: u64,
    flags: u32,
    is_dir: bool,
    handle: Option<u64>,
) -> TrackerModel {
    match handle {
        Some(h) => t.with_handle(h, h).with_handle_state(
            h,
            HandleState { nodeid: inode, flags, is_dir },
        ),
        None => t,
    }
}

/// What is tracked once the backend's `host_inode` was made as `name` in `parent`.
pub open spec fn with_made(
    t: TrackerModel,
    parent: u64,
    name: Seq<u8>,
    host_inode: u64,
) -> TrackerModel {
    t.with_inode(host_inode, host_inode).with_node(host_inode, parent, name)
}

/// A change that a request makes to the tracked state.
pub enum Change {
    /// `host_inode` was found as `name` in `parent`.
    Lookup { parent: u64, name: Seq<u8>, host_inode: u64 },
    /// `host_inode` was listed in a directory.
    ListEntry { host_inode: u64 },
    /// A file or a directory was opened.
    Open { inode: u64, flags: u32, is_dir: bool, handle: Option<u64> },
    /// A handle was released.
    Release { released: u64 },
    /// A directory was made.
    Make { parent: u64, name: Seq<u8>, host_inode: u64 },
    /// A file was made and opened.
    Create { parent: u64, name: Seq<u8>, flags: u32, host_inode: u64, handle: Option<u64> },
    /// A file or a directory was removed.
    Remove { parent: u64, name: Seq<u8> },
    /// A file or a directory was renamed.
    Rename { olddir: u64, oldname: Seq<u8>, newdir: u64, newname: Seq<u8> },
    /// Two files or directories changed places.
    Exchange { olddir: u64, oldname: Seq<u8>, newdir: u64, newname: Seq<u8> },
}

/// What is tracked after `change`.
pub open spec fn changed(t: TrackerModel, change: Change) -> TrackerModel {
    match change {
        Change::Lookup { parent, name, host_inode } => t.with_host_inode_known(
            host_inode,
        ).with_node(t.guest_inode(host_inode), parent, name),
        Change::ListEntry { host_inode } => t.with_host_inode_known(host_inode),
        Change::Open { inode, flags, is_dir, handle } => with_open(
            t,
            inode,
            flags,
            is_dir,
            handle,
        ),
        Change::Release { released } => t.without_handle(released).without_handle_state(
            released,
        ),
        Change::Make { parent, name, host_inode } => with_made(t, parent, name, host_inode),
        Change::Create { parent, name, flags, host_inode, handle } => with_open(
            with_made(t, parent, name, host_inode),
            host_inode,
            flags,
            false,
            handle,
        ),
        Change::Remove { parent, name } => t.without_node_at(parent, name),
        Change::Rename { olddir, oldname, newdir, newname } => t.with_nodes_moved(
            olddir,
            oldname,
            newdir,
            newname,
        ),
        Change::Exchange { olddir, oldname, newdir, newname } => t.with_nodes_exchanged(
            olddir,
            oldname,
            newdir,
            newname,
        ),
    }
}

} // verus!
