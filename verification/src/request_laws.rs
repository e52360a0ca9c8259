//! What the requests of the guest hand out, answer and record, said of the tables of the tracker.

use vstd::prelude::*;

use crate::calls::{HandleCall, HandlePlan, OpenCall, ReleaseCall, TransientOpen};
use crate::changes::{changed, Change};
use crate::model::TrackerModel;
use crate::path::same_path;
use crate::requests::{
    CreateRequest, LookupRequest, MkdirRequest, OpenRequest, ReleaseRequest, RemoveRequest,
    RenameRequest,
};
use crate::state::HandleState;
use crate::tracking::TrackingFileSystem;
use crate::tracking_laws::{
    a_node_is_moved, a_node_is_recorded, a_place_is_forgotten, is_exchanged, is_moved,
    is_place_forgotten, is_recorded_at, lemma_same_numbers, two_nodes_are_exchanged,
};

verus! {

/// Whether the numbers of inodes are the same in both states.
pub open spec fn same_inodes(a: TrackerModel, b: TrackerModel) -> bool {
    &&& a.guest_to_host_inodes == b.guest_to_host_inodes
    &&& a.host_to_guest_inodes == b.host_to_guest_inodes
}

/// Whether the handles, their numbers and their states, are the same in both states.
pub open spec fn same_handles(a: TrackerModel, b: TrackerModel) -> bool {
    &&& a.guest_to_host_handles == b.guest_to_host_handles
    &&& a.host_to_guest_handles == b.host_to_guest_handles
    &&& a.backend.handles == b.backend.handles
}

/// Whether the numbers of inodes have come from `before` to `after` by pairing the host inode with
/// the guest's number for it.
pub open spec fn pairs_inode(
    before: TrackerModel,
    after: TrackerModel,
    host_inode: u64,
    guest_inode: u64,
) -> bool {
    &&& after.guest_to_host_inodes == before.guest_to_host_inodes.insert(guest_inode, host_inode)
    &&& after.host_to_guest_inodes == before.host_to_guest_inodes.insert(host_inode, guest_inode)
}

/// Whether the handles have come from `before` to `after` by an open of `nodeid` that gave
/// `handle`: it is paired with itself and kept as it was opened, and every other handle is as it
/// was.
pub open spec fn opens_handle(
    before: TrackerModel,
    after: TrackerModel,
    handle: u64,
    nodeid: u64,
    flags: u32,
    is_dir: bool,
) -> bool {
    &&& after.guest_to_host_handles == before.guest_to_host_handles.insert(handle, handle)
    &&& after.host_to_guest_handles == before.host_to_guest_handles.insert(handle, handle)
    &&& after.backend.handles == before.backend.handles.insert(
        handle,
        HandleState { nodeid, flags, is_dir },
    )
}

/// A lookup is handed out with the host inode of its directory, and refused with error 2 where the
/// guest does not hold that directory.
pub proof fn lookup_goes_to_the_host_directory(
    tracker: TrackingFileSystem,
    parent: u64,
    name: &[u8],
    request: Result<LookupRequest, i32>,
)
    requires
        call_ensures(TrackingFileSystem::lookup, (&tracker, parent, name), request),
    ensures
        match request {
            Ok(call) => {
                &&& tracker@.guest_to_host_inodes.contains_key(parent)
                &&& call.host_parent == tracker@.guest_to_host_inodes[parent]
                &&& call.parent == parent
                &&& call.name@ == name@
            },
            Err(code) => !tracker@.guest_to_host_inodes.contains_key(parent) && code == 2,
        },
{
}

/// The making of a directory is handed out with the host inode of its directory, and refused with
/// error 2 where the guest does not hold that directory.
pub proof fn mkdir_goes_to_the_host_directory(
    tracker: TrackingFileSystem,
    parent: u64,
    name: &[u8],
    request: Result<MkdirRequest, i32>,
)
    requires
        call_ensures(TrackingFileSystem::mkdir, (&tracker, parent, name), request),
    ensures
        match request {
            Ok(call) => {
                &&& tracker@.guest_to_host_inodes.contains_key(parent)
                &&& call.host_parent == tracker@.guest_to_host_inodes[parent]
                &&& call.parent == parent
                &&& call.name@ == name@
            },
            Err(code) => !tracker@.guest_to_host_inodes.contains_key(parent) && code == 2,
        },
{
}

/// The removal of a file is handed out with the host inode of its directory, and refused with error
/// 2 where the guest does not hold that directory.
pub proof fn unlink_goes_to_the_host_directory(
    tracker: TrackingFileSystem,
    parent: u64,
    name: &[u8],
    request: Result<RemoveRequest, i32>,
)
    requires
        call_ensures(TrackingFileSystem::unlink, (&tracker, parent, name), request),
    ensures
        match request {
            Ok(call) => {
                &&& tracker@.guest_to_host_inodes.contains_key(parent)
                &&& call.host_parent == tracker@.guest_to_host_inodes[parent]
                &&& call.parent == parent
                &&& call.name@ == name@
            },
            Err(code) => !tracker@.guest_to_host_inodes.contains_key(parent) && code == 2,
        },
{
}

/// The removal of a directory is handed out with the host inode of its directory, and refused with
/// error 2 where the guest does not hold that directory.
pub proof fn rmdir_goes_to_the_host_directory(
    tracker: TrackingFileSystem,
    parent: u64,
    name: &[u8],
    request: Result<RemoveRequest, i32>,
)
    requires
        call_ensures(TrackingFileSystem::rmdir, (&tracker, parent, name), request),
    ensures
        match request {
            Ok(call) => {
                &&& tracker@.guest_to_host_inodes.contains_key(parent)
                &&& call.host_parent == tracker@.guest_to_host_inodes[parent]
                &&& call.parent == parent
                &&& call.name@ == name@
            },
            Err(code) => !tracker@.guest_to_host_inodes.contains_key(parent) && code == 2,
        },
{
}

/// The making of a file is handed out with the host inode of its directory and its flags, and
/// refused with error 2 where the guest does not hold that directory.
pub proof fn create_goes_to_the_host_directory(
    tracker: TrackingFileSystem,
    parent: u64,
    name: &[u8],
    flags: u32,
    request: Result<CreateRequest, i32>,
)
    requires
        call_ensures(TrackingFileSystem::create, (&tracker, parent, name, flags), request),
    ensures
        match request {
            Ok(call) => {
                &&& tracker@.guest_to_host_inodes.contains_key(parent)
                &&& call.host_parent == tracker@.guest_to_host_inodes[parent]
                &&& call.parent == parent
                &&& call.name@ == name@
                &&& call.flags == flags
            },
            Err(code) => !tracker@.guest_to_host_inodes.contains_key(parent) && code == 2,
        },
{
}

/// A rename is handed out with the host inodes of its two directories and its flags, and refused
/// with error 2 where the guest does not hold one of them.
pub proof fn rename_goes_to_the_host_directories(
    tracker: TrackingFileSystem,
    olddir: u64,
    oldname: &[u8],
    newdir: u64,
    newname: &[u8],
    flags: u32,
    request: Result<RenameRequest, i32>,
)
    requires
        call_ensures(
            TrackingFileSystem::rename,
            (&tracker, olddir, oldname, newdir, newname, flags),
            request,
        ),
    ensures
        match request {
            Ok(call) => {
                &&& tracker@.guest_to_host_inodes.contains_key(olddir)
                &&& tracker@.guest_to_host_inodes.contains_key(newdir)
                &&& call.host_olddir == tracker@.guest_to_host_inodes[olddir]
                &&& call.host_newdir == tracker@.guest_to_host_inodes[newdir]
                &&& call.olddir == olddir
                &&& call.oldname@ == oldname@
                &&& call.newdir == newdir
                &&& call.newname@ == newname@
                &&& call.flags == flags
            },
            Err(code) => code == 2 && !(tracker@.guest_to_host_inodes.contains_key(olddir)
                && tracker@.guest_to_host_inodes.contains_key(newdir)),
        },
{
}

/// What is to be forgotten is the host inode of the guest's, where the guest holds it.
pub proof fn forget_goes_to_the_host_inode(
    tracker: TrackingFileSystem,
    inode: u64,
    host_inode: Option<u64>,
)
    requires
        call_ensures(TrackingFileSystem::forget, (&tracker, inode), host_inode),
    ensures
        match host_inode {
            Some(host) => tracker@.guest_to_host_inodes.contains_key(inode) && host
                == tracker@.guest_to_host_inodes[inode],
            None => !tracker@.guest_to_host_inodes.contains_key(inode),
        },
{
}

/// A file is opened on its host inode with the flags of the guest, and refused with error 2 where
/// the guest does not hold it.
pub proof fn open_goes_to_the_host_inode(
    tracker: TrackingFileSystem,
    inode: u64,
    flags: u32,
    fuse_flags: u32,
    request: Result<OpenRequest, i32>,
)
    requires
        call_ensures(TrackingFileSystem::open, (&tracker, inode, flags, fuse_flags), request),
    ensures
        match request {
            Ok(call) => {
                &&& tracker@.guest_to_host_inodes.contains_key(inode)
                &&& call.inode == inode
                &&& call.call == (OpenCall::File {
                    inode: tracker@.guest_to_host_inodes[inode],
                    flags,
                    fuse_flags,
                })
            },
            Err(code) => !tracker@.guest_to_host_inodes.contains_key(inode) && code == 2,
        },
{
}

/// A directory is opened on its host inode with the flags of the guest, and refused with error 2
/// where the guest does not hold it.
pub proof fn opendir_goes_to_the_host_inode(
    tracker: TrackingFileSystem,
    inode: u64,
    flags: u32,
    request: Result<OpenRequest, i32>,
)
    requires
        call_ensures(TrackingFileSystem::opendir, (&tracker, inode, flags), request),
    ensures
        match request {
            Ok(call) => {
                &&& tracker@.guest_to_host_inodes.contains_key(inode)
                &&& call.inode == inode
                &&& call.call == (OpenCall::Dir {
                    inode: tracker@.guest_to_host_inodes[inode],
                    flags,
                })
            },
            Err(code) => !tracker@.guest_to_host_inodes.contains_key(inode) && code == 2,
        },
{
}

/// The host handle that a handle of the guest stands for, by the table of handles.
pub open spec fn translated_handle(t: TrackerModel, handle: u64) -> u64 {
    if t.guest_to_host_handles.contains_key(handle) {
        t.guest_to_host_handles[handle]
    } else {
        handle
    }
}

/// A file handle is released on the host, by the host's numbers and with what the guest asks for.
pub proof fn release_goes_to_the_host_handle(
    tracker: TrackingFileSystem,
    inode: u64,
    flags: u32,
    handle: u64,
    flush: bool,
    flock: bool,
    lock_owner: Option<u64>,
    request: Result<ReleaseRequest, i32>,
)
    requires
        call_ensures(
            TrackingFileSystem::release,
            (&tracker, inode, flags, handle, flush, flock, lock_owner),
            request,
        ),
    ensures
        match request {
            Ok(call) => {
                &&& tracker@.guest_to_host_inodes.contains_key(inode)
                &&& call.handle == handle
                &&& call.call == (ReleaseCall::File {
                    inode: tracker@.guest_to_host_inodes[inode],
                    flags,
                    handle: translated_handle(tracker@, handle),
                    flush,
                    flock,
                    lock_owner,
                })
            },
            Err(code) => !tracker@.guest_to_host_inodes.contains_key(inode) && code == 2,
        },
{
}

/// A directory handle is released on the host, by the host's numbers.
pub proof fn releasedir_goes_to_the_host_handle(
    tracker: TrackingFileSystem,
    inode: u64,
    flags: u32,
    handle: u64,
    request: Result<ReleaseRequest, i32>,
)
    requires
        call_ensures(TrackingFileSystem::releasedir, (&tracker, inode, flags, handle), request),
    ensures
        match request {
            Ok(call) => {
                &&& tracker@.guest_to_host_inodes.contains_key(inode)
                &&& call.handle == handle
                &&& call.call == (ReleaseCall::Dir {
                    inode: tracker@.guest_to_host_inodes[inode],
                    flags,
                    handle: translated_handle(tracker@, handle),
                })
            },
            Err(code) => !tracker@.guest_to_host_inodes.contains_key(inode) && code == 2,
        },
{
}

/// Attributes are read on the host's numbers.
pub proof fn getattr_goes_to_the_host_numbers(
    tracker: TrackingFileSystem,
    inode: u64,
    handle: Option<u64>,
    call: Result<(u64, Option<u64>), i32>,
)
    requires
        call_ensures(TrackingFileSystem::getattr, (&tracker, inode, handle), call),
    ensures
        match call {
            Ok((host_inode, host_handle)) => {
                &&& tracker@.guest_to_host_inodes.contains_key(inode)
                &&& host_inode == tracker@.guest_to_host_inodes[inode]
                &&& handle is None <==> host_handle is None
                &&& handle is Some ==> host_handle->Some_0 == translated_handle(
                    tracker@,
                    handle->Some_0,
                )
            },
            Err(code) => !tracker@.guest_to_host_inodes.contains_key(inode) && code == 2,
        },
{
}

/// Attributes are changed on the host's numbers; the host handle 0 counts as none.
pub proof fn setattr_goes_to_the_host_numbers(
    tracker: TrackingFileSystem,
    inode: u64,
    handle: Option<u64>,
    call: Result<(u64, Option<u64>), i32>,
)
    requires
        call_ensures(TrackingFileSystem::setattr, (&tracker, inode, handle), call),
    ensures
        match call {
            Ok((host_inode, host_handle)) => {
                &&& tracker@.guest_to_host_inodes.contains_key(inode)
                &&& host_inode == tracker@.guest_to_host_inodes[inode]
                &&& host_handle is Some <==> handle is Some && translated_handle(
                    tracker@,
                    handle->Some_0,
                ) != 0
                &&& host_handle is Some ==> host_handle->Some_0 == translated_handle(
                    tracker@,
                    handle->Some_0,
                )
            },
            Err(code) => !tracker@.guest_to_host_inodes.contains_key(inode) && code == 2,
        },
{
}

/// A read is served on the host inode and the host handle that the guest's stand for, and nothing
/// is released afterwards. Only where the host handle is 0 one is opened for it.
pub proof fn read_goes_to_the_host_handle(
    tracker: TrackingFileSystem,
    inode: u64,
    handle: u64,
    plan: Result<HandlePlan, i32>,
)
    requires
        call_ensures(TrackingFileSystem::read, (&tracker, inode, handle), plan),
    ensures
        ({
            let host_inode = tracker@.guest_to_host_inodes[inode];
            let host_handle = translated_handle(tracker@, handle);
            match plan {
                Ok(HandlePlan::Ready(call)) => {
                    &&& tracker@.guest_to_host_inodes.contains_key(inode)
                    &&& host_handle != 0
                    &&& call.inode == host_inode
                    &&& call.handle == host_handle
                    &&& call.release is None
                },
                Ok(HandlePlan::OpenFirst(open)) => {
                    &&& tracker@.guest_to_host_inodes.contains_key(inode)
                    &&& host_handle == 0
                    &&& open.call == (OpenCall::File { inode: host_inode, flags: 0, fuse_flags: 0 })
                    &&& open.flush == false
                },
                Err(code) => !tracker@.guest_to_host_inodes.contains_key(inode) && code == 2,
            }
        }),
{
}

/// A write is served on the host inode and the host handle that the guest's stand for, and nothing
/// is released afterwards. Only where the host handle is 0 one is opened for it.
pub proof fn write_goes_to_the_host_handle(
    tracker: TrackingFileSystem,
    inode: u64,
    handle: u64,
    plan: Result<HandlePlan, i32>,
)
    requires
        call_ensures(TrackingFileSystem::write, (&tracker, inode, handle), plan),
    ensures
        ({
            let host_inode = tracker@.guest_to_host_inodes[inode];
            let host_handle = translated_handle(tracker@, handle);
            match plan {
                Ok(HandlePlan::Ready(call)) => {
                    &&& tracker@.guest_to_host_inodes.contains_key(inode)
                    &&& host_handle != 0
                    &&& call.inode == host_inode
                    &&& call.handle == host_handle
                    &&& call.release is None
                },
                Ok(HandlePlan::OpenFirst(open)) => {
                    &&& tracker@.guest_to_host_inodes.contains_key(inode)
                    &&& host_handle == 0
                    &&& open.call == (OpenCall::File { inode: host_inode, flags: 2, fuse_flags: 0 })
                    &&& open.flush == true
                },
                Err(code) => !tracker@.guest_to_host_inodes.contains_key(inode) && code == 2,
            }
        }),
{
}

/// A sync is served on the host inode and the host handle that the guest's stand for, and nothing
/// is released afterwards. Only where the host handle is 0 one is opened for it.
pub proof fn fsync_goes_to_the_host_handle(
    tracker: TrackingFileSystem,
    inode: u64,
    handle: u64,
    plan: Result<HandlePlan, i32>,
)
    requires
        call_ensures(TrackingFileSystem::fsync, (&tracker, inode, handle), plan),
    ensures
        ({
            let host_inode = tracker@.guest_to_host_inodes[inode];
            let host_handle = translated_handle(tracker@, handle);
            match plan {
                Ok(HandlePlan::Ready(call)) => {
                    &&& tracker@.guest_to_host_inodes.contains_key(inode)
                    &&& host_handle != 0
                    &&& call.inode == host_inode
                    &&& call.handle == host_handle
                    &&& call.release is None
                },
                Ok(HandlePlan::OpenFirst(open)) => {
                    &&& tracker@.guest_to_host_inodes.contains_key(inode)
                    &&& host_handle == 0
                    &&& open.call == (OpenCall::File { inode: host_inode, flags: 0, fuse_flags: 0 })
                    &&& open.flush == false
                },
                Err(code) => !tracker@.guest_to_host_inodes.contains_key(inode) && code == 2,
            }
        }),
{
}

/// A listing is served on the host inode and the host handle that the guest's stand for, and
/// nothing is released afterwards. Only where the host handle is 0 one is opened for it.
pub proof fn readdir_goes_to_the_host_handle(
    tracker: TrackingFileSystem,
    inode: u64,
    handle: u64,
    plan: Result<HandlePlan, i32>,
)
    requires
        call_ensures(TrackingFileSystem::readdir, (&tracker, inode, handle), plan),
    ensures
        ({
            let host_inode = tracker@.guest_to_host_inodes[inode];
            let host_handle = translated_handle(tracker@, handle);
            match plan {
                Ok(HandlePlan::Ready(call)) => {
                    &&& tracker@.guest_to_host_inodes.contains_key(inode)
                    &&& host_handle != 0
                    &&& call.inode == host_inode
                    &&& call.handle == host_handle
                    &&& call.release is None
                },
                Ok(HandlePlan::OpenFirst(open)) => {
                    &&& tracker@.guest_to_host_inodes.contains_key(inode)
                    &&& host_handle == 0
                    &&& open.call == (OpenCall::Dir { inode: host_inode, flags: 0 })
                    &&& open.flush == false
                },
                Err(code) => !tracker@.guest_to_host_inodes.contains_key(inode) && code == 2,
            }
        }),
{
}

/// A listing with attributes is served on the host inode and the host handle that the guest's stand
/// for, and nothing is released afterwards. Only where the host handle is 0 one is opened for it.
pub proof fn readdirplus_goes_to_the_host_handle(
    tracker: TrackingFileSystem,
    inode: u64,
    handle: u64,
    plan: Result<HandlePlan, i32>,
)
    requires
        call_ensures(TrackingFileSystem::readdirplus, (&tracker, inode, handle), plan),
    ensures
        ({
            let host_inode = tracker@.guest_to_host_inodes[inode];
            let host_handle = translated_handle(tracker@, handle);
            match plan {
                Ok(HandlePlan::Ready(call)) => {
                    &&& tracker@.guest_to_host_inodes.contains_key(inode)
                    &&& host_handle != 0
                    &&& call.inode == host_inode
                    &&& call.handle == host_handle
                    &&& call.release is None
                },
                Ok(HandlePlan::OpenFirst(open)) => {
                    &&& tracker@.guest_to_host_inodes.contains_key(inode)
                    &&& host_handle == 0
                    &&& open.call == (OpenCall::Dir { inode: host_inode, flags: 0 })
                    &&& open.flush == false
                },
                Err(code) => !tracker@.guest_to_host_inodes.contains_key(inode) && code == 2,
            }
        }),
{
}

/// A handle that was opened for one request serves it on the inode that was opened, and is then
/// released as it was opened. Where the open gave no handle the request is served on handle 0, and
/// nothing is released; where it failed, its error is the answer.
pub proof fn transient_handles_serve_and_are_released<E>(
    open: TransientOpen,
    reply: Result<Option<u64>, E>,
    next: Result<HandleCall, E>,
)
    requires
        call_ensures(TransientOpen::opened::<E>, (open, reply), next),
    ensures
        reply is Err ==> next is Err && next->Err_0 == reply->Err_0,
        reply is Ok ==> next is Ok,
        reply is Ok ==> match open.call {
            OpenCall::File { inode, flags, fuse_flags } => {
                let call = next->Ok_0;
                &&& call.inode == inode
                &&& reply->Ok_0 is None ==> call.handle == 0 && call.release is None
                &&& reply->Ok_0 matches Some(given) ==> call.handle == given && call.release
                    == Some(
                    ReleaseCall::File {
                        inode,
                        flags,
                        handle: given,
                        flush: open.flush,
                        flock: false,
                        lock_owner: None,
                    },
                )
            },
            OpenCall::Dir { inode, flags } => {
                let call = next->Ok_0;
                &&& call.inode == inode
                &&& reply->Ok_0 is None ==> call.handle == 0 && call.release is None
                &&& reply->Ok_0 matches Some(given) ==> call.handle == given && call.release
                    == Some(
                    ReleaseCall::Dir { inode, flags, handle: given },
                )
            },
        },
{
}

/// What a request was answered stays its answer, whatever is to be released.
pub proof fn answers_outlast_the_release<R>(
    call: HandleCall,
    reply: R,
    rest: (Option<ReleaseCall>, R),
)
    requires
        call_ensures(HandleCall::served::<R>, (call, reply), rest),
    ensures
        rest.0 == call.release,
        rest.1 == reply,
{
}

/// A lookup that found an inode answers the number that the guest has for it, or its own where it
/// has none and which it then has; and the node is recorded under the guest's number for its
/// directory. One that failed is answered by its error and changes nothing.
pub proof fn lookups_are_recorded<E>(
    request: LookupRequest,
    tracker: &mut TrackingFileSystem,
    reply: Result<u64, E>,
    answer: Result<u64, E>,
)
    requires
        call_ensures(LookupRequest::finish::<E>, (request, tracker, reply), answer),
    ensures
        ({
            let before = old(tracker)@;
            let after = final(tracker)@;
            match reply {
                Ok(host_inode) => {
                    &&& answer is Ok
                    &&& before.host_to_guest_inodes.contains_key(host_inode) ==> answer->Ok_0
                        == before.host_to_guest_inodes[host_inode] && same_inodes(after, before)
                    &&& !before.host_to_guest_inodes.contains_key(host_inode) ==> answer->Ok_0
                        == host_inode && pairs_inode(before, after, host_inode, host_inode)
                    &&& same_handles(after, before)
                    &&& is_recorded_at(
                        after,
                        before.backend.nodes,
                        after.backend.nodes,
                        answer->Ok_0,
                        request.parent,
                        request.name@,
                    )
                },
                Err(e) => answer is Err && answer->Err_0 == e && after == before,
            }
        }),
{
    if let Ok(host_inode) = reply {
        let known = old(tracker)@.with_host_inode_known(host_inode);
        a_node_is_recorded(known, answer->Ok_0, request.parent, request.name@);
        lemma_same_numbers(known, final(tracker)@, answer->Ok_0);
    }
}

/// A directory that was made has the same number for the guest and is recorded under the guest's
/// number for its directory. One that was not is answered by its error and changes nothing.
pub proof fn made_directories_are_recorded<E>(
    request: MkdirRequest,
    tracker: &mut TrackingFileSystem,
    reply: Result<u64, E>,
    answer: Result<u64, E>,
)
    requires
        call_ensures(MkdirRequest::finish::<E>, (request, tracker, reply), answer),
    ensures
        answer == reply,
        ({
            let before = old(tracker)@;
            let after = final(tracker)@;
            match reply {
                Ok(host_inode) => {
                    &&& pairs_inode(before, after, host_inode, host_inode)
                    &&& same_handles(after, before)
                    &&& is_recorded_at(
                        after,
                        before.backend.nodes,
                        after.backend.nodes,
                        host_inode,
                        request.parent,
                        request.name@,
                    )
                },
                Err(_) => after == before,
            }
        }),
{
    if let Ok(host_inode) = reply {
        let known = old(tracker)@.with_inode(host_inode, host_inode);
        a_node_is_recorded(known, host_inode, request.parent, request.name@);
        lemma_same_numbers(known, final(tracker)@, host_inode);
    }
}

/// A file that was made has the same number for the guest and is recorded under the guest's number
/// for its directory; a handle that was opened on it is kept with the flags of the request. One
/// that was not made is answered by its error and changes nothing.
pub proof fn made_files_are_recorded<E>(
    request: CreateRequest,
    tracker: &mut TrackingFileSystem,
    reply: Result<(u64, Option<u64>), E>,
    answer: Result<(u64, Option<u64>), E>,
)
    requires
        call_ensures(CreateRequest::finish::<E>, (request, tracker, reply), answer),
    ensures
        answer == reply,
        ({
            let before = old(tracker)@;
            let after = final(tracker)@;
            match reply {
                Ok((host_inode, handle)) => {
                    &&& pairs_inode(before, after, host_inode, host_inode)
                    &&& is_recorded_at(
                        after,
                        before.backend.nodes,
                        after.backend.nodes,
                        host_inode,
                        request.parent,
                        request.name@,
                    )
                    &&& match handle {
                        Some(h) => opens_handle(before, after, h, host_inode, request.flags, false),
                        None => same_handles(after, before),
                    }
                },
                Err(_) => after == before,
            }
        }),
{
    if let Ok((host_inode, handle)) = reply {
        let known = old(tracker)@.with_inode(host_inode, host_inode);
        a_node_is_recorded(known, host_inode, request.parent, request.name@);
        lemma_same_numbers(known, final(tracker)@, host_inode);
    }
}

/// A handle that was opened is kept with the guest's number for its node, and with the flags and as
/// the kind that it was opened with. An open that gave none, or that failed, changes nothing.
pub proof fn opened_handles_are_recorded<E>(
    request: OpenRequest,
    tracker: &mut TrackingFileSystem,
    reply: Result<Option<u64>, E>,
    answer: Result<Option<u64>, E>,
)
    requires
        call_ensures(OpenRequest::finish::<E>, (request, tracker, reply), answer),
    ensures
        answer == reply,
        ({
            let before = old(tracker)@;
            let after = final(tracker)@;
            match reply {
                Ok(Some(h)) => {
                    &&& same_inodes(after, before)
                    &&& after.backend.nodes == before.backend.nodes
                    &&& request.call matches OpenCall::File { inode, flags, fuse_flags }
                        ==> opens_handle(before, after, h, request.inode, flags, false)
                    &&& request.call matches OpenCall::Dir { inode, flags } ==> opens_handle(
                        before,
                        after,
                        h,
                        request.inode,
                        flags,
                        true,
                    )
                },
                _ => after == before,
            }
        }),
{
}

/// With a release in the model, the guest's handle is neither kept nor translated, the host handle
/// that it stood for stands for nothing, and every other handle is as it was.
pub proof fn a_release_drops_the_guests_handle(t: TrackerModel, handle: u64)
    ensures
        ({
            let after = changed(t, Change::Release { released: handle });
            &&& after.backend.handles == t.backend.handles.remove(handle)
            &&& after.guest_to_host_handles == t.guest_to_host_handles.remove(handle)
            &&& t.guest_to_host_handles.contains_key(handle) ==> after.host_to_guest_handles
                == t.host_to_guest_handles.remove(t.guest_to_host_handles[handle])
            &&& !t.guest_to_host_handles.contains_key(handle) ==> after.host_to_guest_handles
                == t.host_to_guest_handles
            &&& same_inodes(after, t)
            &&& after.backend.nodes == t.backend.nodes
        }),
{
    let after = changed(t, Change::Release { released: handle });
    assert(after.guest_to_host_handles =~= t.guest_to_host_handles.remove(handle));
}

/// A handle that was released is neither kept nor translated any longer, by the guest's number for
/// it, and every other handle is as it was. One that was not is kept as it is.
pub proof fn released_handles_are_dropped<E>(
    request: ReleaseRequest,
    tracker: &mut TrackingFileSystem,
    reply: Result<(), E>,
    answer: Result<(), E>,
)
    requires
        call_ensures(ReleaseRequest::finish::<E>, (request, tracker, reply), answer),
    ensures
        answer == reply,
        ({
            let before = old(tracker)@;
            let after = final(tracker)@;
            let handle = request.handle;
            match reply {
                Ok(_) => {
                    &&& after.backend.handles == before.backend.handles.remove(handle)
                    &&& after.guest_to_host_handles == before.guest_to_host_handles.remove(handle)
                    &&& before.guest_to_host_handles.contains_key(handle)
                        ==> after.host_to_guest_handles == before.host_to_guest_handles.remove(
                        before.guest_to_host_handles[handle],
                    )
                    &&& !before.guest_to_host_handles.contains_key(handle)
                        ==> after.host_to_guest_handles == before.host_to_guest_handles
                    &&& same_inodes(after, before)
                    &&& after.backend.nodes == before.backend.nodes
                },
                Err(_) => after == before,
            }
        }),
{
    a_release_drops_the_guests_handle(old(tracker)@, request.handle);
}

/// What was removed is forgotten with all that lies in it; what was not stays.
pub proof fn removed_nodes_are_forgotten<E>(
    request: RemoveRequest,
    tracker: &mut TrackingFileSystem,
    reply: Result<(), E>,
    answer: Result<(), E>,
    held: Set<u64>,
)
    requires
        call_ensures(RemoveRequest::finish::<E>, (request, tracker, reply), answer),
    ensures
        answer == reply,
        match reply {
            Ok(_) => is_place_forgotten(
                old(tracker)@,
                final(tracker)@,
                request.parent,
                request.name@,
                held,
            ),
            Err(_) => final(tracker)@ == old(tracker)@,
        },
{
    a_place_is_forgotten(old(tracker)@, request.parent, request.name@, held);
}

/// A rename that succeeded moves what was at the old place to the new one, where its flags lack the
/// bit 2; with that bit the two change places. One that failed changes nothing, and none changes a
/// number or a handle.
pub proof fn renames_are_recorded<E>(
    request: RenameRequest,
    tracker: &mut TrackingFileSystem,
    reply: Result<(), E>,
    answer: Result<(), E>,
)
    requires
        call_ensures(RenameRequest::finish::<E>, (request, tracker, reply), answer),
    ensures
        answer == reply,
        ({
            let before = old(tracker)@;
            let after = final(tracker)@;
            &&& same_inodes(after, before)
            &&& same_handles(after, before)
            &&& reply is Err ==> after == before
            &&& reply is Ok && request.flags & 2 == 0 ==> is_moved(
                before,
                before.backend.nodes,
                after.backend.nodes,
                request.olddir,
                request.oldname@,
                request.newdir,
                request.newname@,
            )
            &&& reply is Ok && request.flags & 2 != 0 ==> is_exchanged(
                before.backend.nodes,
                after.backend.nodes,
                request.olddir,
                request.oldname@,
                request.newdir,
                request.newname@,
            )
        }),
{
    let t = old(tracker)@;
    let (olddir, oldname) = (request.olddir, request.oldname@);
    let (newdir, newname) = (request.newdir, request.newname@);
    a_node_is_moved(t, olddir, oldname, newdir, newname);
    two_nodes_are_exchanged(t, olddir, oldname, newdir, newname);
}

/// A rename that succeeded and was not an exchange leaves no node at its old place, whatever its
/// two directories are, unless that is also its new place.
pub proof fn renames_leave_nothing_behind<E>(
    request: RenameRequest,
    tracker: &mut TrackingFileSystem,
    reply: Result<(), E>,
    answer: Result<(), E>,
    id: u64,
)
    requires
        call_ensures(RenameRequest::finish::<E>, (request, tracker, reply), answer),
        reply is Ok,
        request.flags & 2 == 0,
        request.olddir != request.newdir || !same_path(
            request.oldname@,
            request.newname@,
        ),
        final(tracker)@.backend.nodes.contains_key(id),
        final(tracker)@.backend.nodes[id].parent == request.olddir,
    ensures
        !same_path(final(tracker)@.backend.nodes[id].name, request.oldname@),
{
    renames_are_recorded(request, tracker, reply, answer);
}

/// An inode that is listed gets the number that the guest has for it, or its own where it has none
/// and which it then has. Nothing is recorded.
pub proof fn listed_inodes_get_a_number(
    tracker: &mut TrackingFileSystem,
    host_ino: u64,
    guest_ino: u64,
)
    requires
        call_ensures(TrackingFileSystem::readdir_entry, (tracker, host_ino), guest_ino),
    ensures
        ({
            let before = old(tracker)@;
            let after = final(tracker)@;
            &&& before.host_to_guest_inodes.contains_key(host_ino) ==> guest_ino
                == before.host_to_guest_inodes[host_ino] && same_inodes(after, before)
            &&& !before.host_to_guest_inodes.contains_key(host_ino) ==> guest_ino == host_ino
                && pairs_inode(before, after, host_ino, host_ino)
            &&& same_handles(after, before)
            &&& after.backend.nodes == before.backend.nodes
        }),
{
}

/// An inode that is listed with its attributes gets one number for both, as
/// [`listed_inodes_get_a_number`] has it.
pub proof fn listed_entries_get_one_number(
    tracker: &mut TrackingFileSystem,
    host_inode: u64,
    numbers: (u64, u64),
)
    requires
        call_ensures(TrackingFileSystem::readdirplus_entry, (tracker, host_inode), numbers),
    ensures
        ({
            let before = old(tracker)@;
            let after = final(tracker)@;
            &&& numbers.0 == numbers.1
            &&& before.host_to_guest_inodes.contains_key(host_inode) ==> numbers.0
                == before.host_to_guest_inodes[host_inode] && same_inodes(after, before)
            &&& !before.host_to_guest_inodes.contains_key(host_inode) ==> numbers.0 == host_inode
                && pairs_inode(before, after, host_inode, host_inode)
            &&& same_handles(after, before)
            &&& after.backend.nodes == before.backend.nodes
        }),
{
}

} // verus!
