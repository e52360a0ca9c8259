//! The requests of the guest.
//!
//! A request names inodes and handles of the guest. They are translated before the backing file
//! system is called: a request on an unknown inode is refused with `ENOENT`, and no call is made.
//! Otherwise the request is handed out with the numbers of the backing file system. Its reply
//! finishes the request: it is recorded and translated back. Where the reply is an error it is the
//! answer, and nothing is recorded.
//!
//! A snapshot keeps one file or directory for each path, the one that was last found, made or moved
//! there, under each number that the guest has for it. What else stood there before is kept no
//! longer, so that a restore cannot take one file for the other; the guest may go on with the
//! numbers that it holds.

use vstd::prelude::*;

use crate::calls::{HandleCall, HandlePlan, OpenCall, ReleaseCall, TransientOpen};
use crate::changes::{changed, with_made, with_open, Change};
use crate::errno::{
    libc_o_rdonly, libc_o_rdwr, libc_rename_exchange, ENOENT, O_RDONLY, O_RDWR, RENAME_EXCHANGE,
};
use crate::model::TrackerModel;
use crate::state::HandleState;
use crate::tracking::TrackingFileSystem;

verus! {

/// `value` where there is one, and else the refusal of an unknown inode.
pub open spec fn found<T>(value: Option<T>) -> Result<T, i32> {
    match value {
        Some(v) => Ok(v),
        None => Err(ENOENT),
    }
}

/// The host inode of `inode` with the host handle of `handle`.
pub open spec fn host_pair(t: TrackerModel, inode: u64, handle: u64) -> Option<(u64, u64)> {
    match t.host_inode(inode) {
        Some(host_inode) => Some((host_inode, t.host_handle(handle))),
        None => None,
    }
}

/// How a request on `inode` and `handle` is served: on the host handle, unless it is 0; then on
/// one that is opened by `transient` for the request.
pub open spec fn handle_plan(
    t: TrackerModel,
    inode: u64,
    handle: u64,
    transient: spec_fn(u64) -> TransientOpen,
) -> Option<HandlePlan> {
    match host_pair(t, inode, handle) {
        Some((host_inode, host_handle)) => if host_handle == 0 {
            Some(HandlePlan::OpenFirst(transient(host_inode)))
        } else {
            Some(
                HandlePlan::Ready(
                    (HandleCall { inode: host_inode, handle: host_handle, release: None }),
                ),
            )
        },
        None => None,
    }
}

/// A file opened with `flags` for one request.
pub open spec fn transient_file(flags: u32, flush: bool) -> spec_fn(u64) -> TransientOpen {
    |inode: u64|
        TransientOpen { call: OpenCall::File { inode, flags, fuse_flags: 0 }, flush }
}

/// A directory opened for one request.
pub open spec fn transient_dir() -> spec_fn(u64) -> TransientOpen {
    |inode: u64| TransientOpen { call: OpenCall::Dir { inode, flags: 0 }, flush: false }
}

/// Whether the two names of a rename with these flags change places.
pub open spec fn is_exchange(flags: u32) -> bool {
    flags & RENAME_EXCHANGE != 0
}

/// A name that is to be looked up.
#[derive(Debug, PartialEq, Eq, Clone, Copy)]
pub struct LookupRequest<'a> {
    /// The host directory to look in.
    pub host_parent: u64,
    /// The guest's number for that directory.
    pub parent: u64,
    /// The name to look up.
    pub name: &'a [u8],
}

/// A file or a directory that is to be opened.
#[derive(Debug, PartialEq, Eq, Clone, Copy)]
pub struct OpenRequest {
    /// How it is opened.
    pub call: OpenCall,
    /// The guest's number for it.
    pub inode: u64,
}

/// A handle that is to be released.
#[derive(Debug, PartialEq, Eq, Clone, Copy)]
pub struct ReleaseRequest {
    /// How it is released.
    pub call: ReleaseCall,
    /// The guest's number for it.
    pub handle: u64,
}

/// A file that is to be made and opened.
#[derive(Debug, PartialEq, Eq, Clone, Copy)]
pub struct CreateRequest<'a> {
    /// The host directory to make it in.
    pub host_parent: u64,
    /// The guest's number for that directory.
    pub parent: u64,
    /// The name that it gets.
    pub name: &'a [u8],
    /// The flags that it is opened with.
    pub flags: u32,
}

/// A directory that is to be made.
#[derive(Debug, PartialEq, Eq, Clone, Copy)]
pub struct MkdirRequest<'a> {
    /// The host directory to make it in.
    pub host_parent: u64,
    /// The guest's number for that directory.
    pub parent: u64,
    /// The name that it gets.
    pub name: &'a [u8],
}

/// A file or a directory that is to be removed.
#[derive(Debug, PartialEq, Eq, Clone, Copy)]
pub struct RemoveRequest<'a> {
    /// The host directory that it is in.
    pub host_parent: u64,
    /// The guest's number for that directory.
    pub parent: u64,
    /// The name that it has.
    pub name: &'a [u8],
}

/// A file or a directory that is to be renamed.
#[derive(Debug, PartialEq, Eq, Clone, Copy)]
pub struct RenameRequest<'a> {
    /// The host directory that it is in.
    pub host_olddir: u64,
    /// The host directory that it moves to.
    pub host_newdir: u64,
    /// The guest's number for the directory that it is in.
    pub olddir: u64,
    /// The name that it has.
    pub oldname: &'a [u8],
    /// The guest's number for the directory that it moves to.
    pub newdir: u64,
    /// The name that it gets.
    pub newname: &'a [u8],
    /// How it is renamed.
    pub flags: u32,
}

impl<'a> LookupRequest<'a> {
    /// Records the inode that was found, and gives the guest its number for it.
    pub fn finish<E>(self, tracker: &mut TrackingFileSystem, reply: Result<u64, E>) -> (answer:
        Result<u64, E>)
        ensures
            match reply {
                Ok(host_inode) => {
                    &&& answer == Ok::<u64, E>(old(tracker)@.guest_inode(host_inode))
                    &&& final(tracker)@ == changed(
                        old(tracker)@,
                        Change::Lookup { parent: self.parent, name: self.name@, host_inode },
                    )
                },
                Err(e) => answer == Err::<u64, E>(e) && final(tracker)@ == old(tracker)@,
            },
    {
        match reply {
            Ok(host_inode) => {
                let guest_inode = tracker.register_host_inode(host_inode);
                tracker.insert_node_mapping(guest_inode, self.parent, self.name);
                Ok(guest_inode)
            },
            Err(e) => Err(e),
        }
    }
}

impl OpenRequest {
    /// Records the handle that was opened; the guest uses the same number.
    pub fn finish<E>(self, tracker: &mut TrackingFileSystem, reply: Result<Option<u64>, E>) -> (
    answer: Result<Option<u64>, E>)
        ensures
            answer == reply,
            final(tracker)@ == match reply {
                Ok(handle) => changed(
                    old(tracker)@,
                    Change::Open {
                        inode: self.inode,
                        flags: self.call.flags(),
                        is_dir: self.call is Dir,
                        handle,
                    },
                ),
                Err(_) => old(tracker)@,
            },
    {
        match reply {
            Ok(handle) => {
                match self.call {
                    OpenCall::File { flags, .. } => {
                        tracker.record_open(self.inode, flags, false, handle)
                    },
                    OpenCall::Dir { flags, .. } => {
                        tracker.record_open(self.inode, flags, true, handle)
                    },
                }
                Ok(handle)
            },
            Err(e) => Err(e),
        }
    }
}

impl ReleaseRequest {
    /// Drops the handle that was released.
    pub fn finish<E>(self, tracker: &mut TrackingFileSystem, reply: Result<(), E>) -> (answer:
        Result<(), E>)
        ensures
            answer == reply,
            final(tracker)@ == match reply {
                Ok(_) => changed(old(tracker)@, Change::Release { released: self.handle }),
                Err(_) => old(tracker)@,
            },
    {
        if reply.is_ok() {
            tracker.remove_handle_mapping(self.handle);
            tracker.remove_handle_state(self.handle);
        }
        reply
    }
}

impl<'a> CreateRequest<'a> {
    /// Records the file that was made, and the handle that was opened on it; the guest uses the
    /// same numbers.
    pub fn finish<E>(
        self,
        tracker: &mut TrackingFileSystem,
        reply: Result<(u64, Option<u64>), E>,
    ) -> (answer: Result<(u64, Option<u64>), E>)
        ensures
            answer == reply,
            final(tracker)@ == match reply {
                Ok((host_inode, handle)) => changed(
                    old(tracker)@,
                    Change::Create {
                        parent: self.parent,
                        name: self.name@,
                        flags: self.flags,
                        host_inode,
                        handle,
                    },
                ),
                Err(_) => old(tracker)@,
            },
    {
        match reply {
            Ok((host_inode, handle)) => {
                tracker.record_made(self.parent, self.name, host_inode);
                tracker.record_open(host_inode, self.flags, false, handle);
                Ok((host_inode, handle))
            },
            Err(e) => Err(e),
        }
    }
}

impl<'a> MkdirRequest<'a> {
    /// Records the directory that was made; the guest uses the same number.
    pub fn finish<E>(self, tracker: &mut TrackingFileSystem, reply: Result<u64, E>) -> (answer:
        Result<u64, E>)
        ensures
            answer == reply,
            final(tracker)@ == match reply {
                Ok(host_inode) => changed(
                    old(tracker)@,
                    Change::Make { parent: self.parent, name: self.name@, host_inode },
                ),
                Err(_) => old(tracker)@,
            },
    {
        match reply {
            Ok(host_inode) => {
                tracker.record_made(self.parent, self.name, host_inode);
                Ok(host_inode)
            },
            Err(e) => Err(e),
        }
    }
}

impl<'a> RemoveRequest<'a> {
    /// Forgets what was removed.
    pub fn finish<E>(self, tracker: &mut TrackingFileSystem, reply: Result<(), E>) -> (answer:
        Result<(), E>)
        ensures
            answer == reply,
            final(tracker)@ == match reply {
                Ok(_) => changed(
                    old(tracker)@,
                    Change::Remove { parent: self.parent, name: self.name@ },
                ),
                Err(_) => old(tracker)@,
            },
    {
        if reply.is_ok() {
            tracker.remove_node_mapping(self.parent, self.name);
        }
        reply
    }
}

impl<'a> RenameRequest<'a> {
    /// The change that the rename makes once it has succeeded.
    pub open spec fn change(self) -> Change {
        if is_exchange(self.flags) {
            Change::Exchange {
                olddir: self.olddir,
                oldname: self.oldname@,
                newdir: self.newdir,
                newname: self.newname@,
            }
        } else {
            Change::Rename {
                olddir: self.olddir,
                oldname: self.oldname@,
                newdir: self.newdir,
                newname: self.newname@,
            }
        }
    }

    /// Moves what was renamed. It takes the place of what stood under the new name, or changes
    /// places with it where the flags say so.
    pub fn finish<E>(self, tracker: &mut TrackingFileSystem, reply: Result<(), E>) -> (answer:
        Result<(), E>)
        ensures
            answer == reply,
            final(tracker)@ == match reply {
                Ok(_) => changed(old(tracker)@, self.change()),
                Err(_) => old(tracker)@,
            },
    {
        if reply.is_ok() {
            if self.flags & libc_rename_exchange() != 0 {
                tracker.exchange_node_mappings(
                    self.olddir,
                    self.oldname,
                    self.newdir,
                    self.newname,
                );
            } else {
                tracker.update_node_mapping(self.olddir, self.oldname, self.newdir, self.newname);
            }
        }
        reply
    }
}

impl TrackingFileSystem {
    /// Records the handle that was opened on `inode`.
    fn record_open(&mut self, inode: u64, flags: u32, is_dir: bool, handle: Option<u64>)
        ensures
            final(self)@ == with_open(old(self)@, inode, flags, is_dir, handle),
    {
        if let Some(h) = handle {
            self.map_host_handle(h, h);
            self.insert_handle_state(h, HandleState { nodeid: inode, flags, is_dir });
        }
    }

    /// Records the inode that was made as `name` in `parent`; the guest uses the same number.
    fn record_made(&mut self, parent: u64, name: &[u8], host_inode: u64)
        ensures
            final(self)@ == with_made(old(self)@, parent, name@, host_inode),
    {
        self.map_host_inode(host_inode, host_inode);
        self.insert_node_mapping(host_inode, parent, name);
    }

    /// The host inode and the host handle of a request on both.
    fn map_guest_pair(&self, inode: u64, handle: u64) -> (pair: Result<(u64, u64), i32>)
        ensures
            pair == found(host_pair(self@, inode, handle)),
    {
        match self.map_guest_inode(inode) {
            Ok(host_inode) => Ok((host_inode, self.map_guest_handle(handle))),
            Err(code) => Err(code),
        }
    }

    /// Looks up `name` in `parent`.
    pub fn lookup<'a>(&self, parent: u64, name: &'a [u8]) -> (request: Result<
        LookupRequest<'a>,
        i32,
    >)
        ensures
            match self@.host_inode(parent) {
                Some(host_parent) => request == Ok::<LookupRequest, i32>(
                    (LookupRequest { host_parent, parent, name }),
                ),
                None => request == Err::<LookupRequest, i32>(ENOENT),
            },
    {
        match self.map_guest_inode(parent) {
            Ok(host_parent) => Ok(LookupRequest { host_parent, parent, name }),
            Err(code) => Err(code),
        }
    }

    /// The host inode to forget; there is nothing to forget where the guest's is unknown.
    pub fn forget(&self, inode: u64) -> (host_inode: Option<u64>)
        ensures
            host_inode == self@.host_inode(inode),
    {
        match self.map_guest_inode(inode) {
            Ok(host_inode) => Some(host_inode),
            Err(_) => None,
        }
    }

    /// Opens the file `inode`.
    pub fn open(&self, inode: u64, flags: u32, fuse_flags: u32) -> (request: Result<
        OpenRequest,
        i32,
    >)
        ensures
            match self@.host_inode(inode) {
                Some(host_inode) => request == Ok::<OpenRequest, i32>(
                    (OpenRequest {
                        call: OpenCall::File { inode: host_inode, flags, fuse_flags },
                        inode,
                    }),
                ),
                None => request == Err::<OpenRequest, i32>(ENOENT),
            },
    {
        match self.map_guest_inode(inode) {
            Ok(host_inode) => Ok(
                OpenRequest {
                    call: OpenCall::File { inode: host_inode, flags, fuse_flags },
                    inode,
                },
            ),
            Err(code) => Err(code),
        }
    }

    /// Opens the directory `inode`.
    pub fn opendir(&self, inode: u64, flags: u32) -> (request: Result<OpenRequest, i32>)
        ensures
            match self@.host_inode(inode) {
                Some(host_inode) => request == Ok::<OpenRequest, i32>(
                    (OpenRequest { call: OpenCall::Dir { inode: host_inode, flags }, inode }),
                ),
                None => request == Err::<OpenRequest, i32>(ENOENT),
            },
    {
        match self.map_guest_inode(inode) {
            Ok(host_inode) => Ok(
                OpenRequest { call: OpenCall::Dir { inode: host_inode, flags }, inode },
            ),
            Err(code) => Err(code),
        }
    }

    /// Releases the file handle `handle`.
    pub fn release(
        &self,
        inode: u64,
        flags: u32,
        handle: u64,
        flush: bool,
        flock: bool,
        lock_owner: Option<u64>,
    ) -> (request: Result<ReleaseRequest, i32>)
        ensures
            match host_pair(self@, inode, handle) {
                Some((host_inode, host_handle)) => request == Ok::<ReleaseRequest, i32>(
                    (ReleaseRequest {
                        call: ReleaseCall::File {
                            inode: host_inode,
                            flags,
                            handle: host_handle,
                            flush,
                            flock,
                            lock_owner,
                        },
                        handle,
                    }),
                ),
                None => request == Err::<ReleaseRequest, i32>(ENOENT),
            },
    {
        match self.map_guest_pair(inode, handle) {
            Ok((host_inode, host_handle)) => {
                let call = ReleaseCall::File {
                    inode: host_inode,
                    flags,
                    handle: host_handle,
                    flush,
                    flock,
                    lock_owner,
                };
                Ok(ReleaseRequest { call, handle })
            },
            Err(code) => Err(code),
        }
    }

    /// Releases the directory handle `handle`.
    pub fn releasedir(&self, inode: u64, flags: u32, handle: u64) -> (request: Result<
        ReleaseRequest,
        i32,
    >)
        ensures
            match host_pair(self@, inode, handle) {
                Some((host_inode, host_handle)) => request == Ok::<ReleaseRequest, i32>(
                    (ReleaseRequest {
                        call: ReleaseCall::Dir { inode: host_inode, flags, handle: host_handle },
                        handle,
                    }),
                ),
                None => request == Err::<ReleaseRequest, i32>(ENOENT),
            },
    {
        match self.map_guest_pair(inode, handle) {
            Ok((host_inode, host_handle)) => {
                let call = ReleaseCall::Dir { inode: host_inode, flags, handle: host_handle };
                Ok(ReleaseRequest { call, handle })
            },
            Err(code) => Err(code),
        }
    }

    /// Makes the file `name` in `parent`, and opens it with `flags`.
    pub fn create<'a>(&self, parent: u64, name: &'a [u8], flags: u32) -> (request: Result<
        CreateRequest<'a>,
        i32,
    >)
        ensures
            match self@.host_inode(parent) {
                Some(host_parent) => request == Ok::<CreateRequest, i32>(
                    (CreateRequest { host_parent, parent, name, flags }),
                ),
                None => request == Err::<CreateRequest, i32>(ENOENT),
            },
    {
        match self.map_guest_inode(parent) {
            Ok(host_parent) => Ok(CreateRequest { host_parent, parent, name, flags }),
            Err(code) => Err(code),
        }
    }

    /// Makes the directory `name` in `parent`.
    pub fn mkdir<'a>(&self, parent: u64, name: &'a [u8]) -> (request: Result<
        MkdirRequest<'a>,
        i32,
    >)
        ensures
            match self@.host_inode(parent) {
                Some(host_parent) => request == Ok::<MkdirRequest, i32>(
                    (MkdirRequest { host_parent, parent, name }),
                ),
                None => request == Err::<MkdirRequest, i32>(ENOENT),
            },
    {
        match self.map_guest_inode(parent) {
            Ok(host_parent) => Ok(MkdirRequest { host_parent, parent, name }),
            Err(code) => Err(code),
        }
    }

    /// Removes the file `name` in `parent`.
    pub fn unlink<'a>(&self, parent: u64, name: &'a [u8]) -> (request: Result<
        RemoveRequest<'a>,
        i32,
    >)
        ensures
            match self@.host_inode(parent) {
                Some(host_parent) => request == Ok::<RemoveRequest, i32>(
                    (RemoveRequest { host_parent, parent, name }),
                ),
                None => request == Err::<RemoveRequest, i32>(ENOENT),
            },
    {
        match self.map_guest_inode(parent) {
            Ok(host_parent) => Ok(RemoveRequest { host_parent, parent, name }),
            Err(code) => Err(code),
        }
    }

    /// Removes the directory `name` in `parent`.
    pub fn rmdir<'a>(&self, parent: u64, name: &'a [u8]) -> (request: Result<
        RemoveRequest<'a>,
        i32,
    >)
        ensures
            match self@.host_inode(parent) {
                Some(host_parent) => request == Ok::<RemoveRequest, i32>(
                    (RemoveRequest { host_parent, parent, name }),
                ),
                None => request == Err::<RemoveRequest, i32>(ENOENT),
            },
    {
        self.unlink(parent, name)
    }

    /// Renames what is called `oldname` in `olddir` to `newname` in `newdir`, as `flags` say.
    pub fn rename<'a>(
        &self,
        olddir: u64,
        oldname: &'a [u8],
        newdir: u64,
        newname: &'a [u8],
        flags: u32,
    ) -> (request: Result<RenameRequest<'a>, i32>)
        ensures
            match (self@.host_inode(olddir), self@.host_inode(newdir)) {
                (Some(host_olddir), Some(host_newdir)) => request == Ok::<RenameRequest, i32>(
                    (RenameRequest {
                        host_olddir,
                        host_newdir,
                        olddir,
                        oldname,
                        newdir,
                        newname,
                        flags,
                    }),
                ),
                _ => request == Err::<RenameRequest, i32>(ENOENT),
            },
    {
        match self.map_guest_inode(olddir) {
            Ok(host_olddir) => match self.map_guest_inode(newdir) {
                Ok(host_newdir) => Ok(
                    RenameRequest {
                        host_olddir,
                        host_newdir,
                        olddir,
                        oldname,
                        newdir,
                        newname,
                        flags,
                    },
                ),
                Err(code) => Err(code),
            },
            Err(code) => Err(code),
        }
    }

    /// The host inode, and the host handle where one is given, whose attributes are read.
    pub fn getattr(&self, inode: u64, handle: Option<u64>) -> (call: Result<
        (u64, Option<u64>),
        i32,
    >)
        ensures
            call == match self@.host_inode(inode) {
                Some(host_inode) => Ok::<(u64, Option<u64>), i32>(
                    (
                        host_inode,
                        match handle {
                            Some(h) => Some(self@.host_handle(h)),
                            None => None,
                        },
                    ),
                ),
                None => Err(ENOENT),
            },
    {
        match self.map_guest_inode(inode) {
            Ok(host_inode) => {
                let host_handle = match handle {
                    Some(h) => Some(self.map_guest_handle(h)),
                    None => None,
                };
                Ok((host_inode, host_handle))
            },
            Err(code) => Err(code),
        }
    }

    /// The host inode, and the host handle where one is given that is not 0, whose attributes are
    /// changed.
    pub fn setattr(&self, inode: u64, handle: Option<u64>) -> (call: Result<
        (u64, Option<u64>),
        i32,
    >)
        ensures
            call == match self@.host_inode(inode) {
                Some(host_inode) => Ok::<(u64, Option<u64>), i32>(
                    (
                        host_inode,
                        match handle {
                            Some(h) => if self@.host_handle(h) != 0 {
                                Some(self@.host_handle(h))
                            } else {
                                None
                            },
                            None => None,
                        },
                    ),
                ),
                None => Err(ENOENT),
            },
    {
        match self.getattr(inode, handle) {
            Ok((host_inode, Some(host_handle))) => {
                if host_handle != 0 {
                    Ok((host_inode, Some(host_handle)))
                } else {
                    Ok((host_inode, None))
                }
            },
            Ok((host_inode, None)) => Ok((host_inode, None)),
            Err(code) => Err(code),
        }
    }

    /// How a read is served; without a handle the file is opened for reading.
    pub fn read(&self, inode: u64, handle: u64) -> (plan: Result<HandlePlan, i32>)
        ensures
            plan == found(handle_plan(self@, inode, handle, transient_file(O_RDONLY, false))),
    {
        self.plan_on_file(inode, handle, libc_o_rdonly(), false)
    }

    /// How a write is served; without a handle the file is opened for reading and writing, and
    /// flushed when it is released.
    pub fn write(&self, inode: u64, handle: u64) -> (plan: Result<HandlePlan, i32>)
        ensures
            plan == found(handle_plan(self@, inode, handle, transient_file(O_RDWR, true))),
    {
        self.plan_on_file(inode, handle, libc_o_rdwr(), true)
    }

    /// How a sync is served; without a handle the file is opened for reading.
    pub fn fsync(&self, inode: u64, handle: u64) -> (plan: Result<HandlePlan, i32>)
        ensures
            plan == found(handle_plan(self@, inode, handle, transient_file(O_RDONLY, false))),
    {
        self.plan_on_file(inode, handle, libc_o_rdonly(), false)
    }

    /// How a request on a file is served; without a handle it is opened with `flags`.
    fn plan_on_file(&self, inode: u64, handle: u64, flags: u32, flush: bool) -> (plan: Result<
        HandlePlan,
        i32,
    >)
        ensures
            plan == found(handle_plan(self@, inode, handle, transient_file(flags, flush))),
    {
        match self.map_guest_pair(inode, handle) {
            Ok((host_inode, host_handle)) => {
                if host_handle == 0 {
                    let call = OpenCall::File { inode: host_inode, flags, fuse_flags: 0 };
                    Ok(HandlePlan::OpenFirst(TransientOpen { call, flush }))
                } else {
                    Ok(
                        HandlePlan::Ready(
                            HandleCall { inode: host_inode, handle: host_handle, release: None },
                        ),
                    )
                }
            },
            Err(code) => Err(code),
        }
    }

    /// How the entries of a directory are listed; without a handle it is opened.
    pub fn readdir(&self, inode: u64, handle: u64) -> (plan: Result<HandlePlan, i32>)
        ensures
            plan == found(handle_plan(self@, inode, handle, transient_dir())),
    {
        match self.map_guest_pair(inode, handle) {
            Ok((host_inode, host_handle)) => {
                if host_handle == 0 {
                    let call = OpenCall::Dir { inode: host_inode, flags: 0 };
                    Ok(HandlePlan::OpenFirst(TransientOpen { call, flush: false }))
                } else {
                    Ok(
                        HandlePlan::Ready(
                            HandleCall { inode: host_inode, handle: host_handle, release: None },
                        ),
                    )
                }
            },
            Err(code) => Err(code),
        }
    }

    /// The inode number that the guest is given for a directory entry.
    pub fn readdir_entry(&mut self, host_ino: u64) -> (guest_ino: u64)
        ensures
            guest_ino == old(self)@.guest_inode(host_ino),
            final(self)@ == changed(old(self)@, Change::ListEntry { host_inode: host_ino }),
    {
        self.register_host_inode(host_ino)
    }

    /// How the entries of a directory are listed with their attributes; without a handle it is
    /// opened.
    pub fn readdirplus(&self, inode: u64, handle: u64) -> (plan: Result<HandlePlan, i32>)
        ensures
            plan == found(handle_plan(self@, inode, handle, transient_dir())),
    {
        self.readdir(inode, handle)
    }

    /// The inode numbers that the guest is given for a directory entry and for the inode found
    /// with it, whose host inode is `host_inode`: they are the same.
    pub fn readdirplus_entry(&mut self, host_inode: u64) -> (numbers: (u64, u64))
        ensures
            numbers == (old(self)@.guest_inode(host_inode), old(self)@.guest_inode(host_inode)),
            final(self)@ == changed(old(self)@, Change::ListEntry { host_inode }),
    {
        let guest_inode = self.register_host_inode(host_inode);
        (guest_inode, guest_inode)
    }
}

} // verus!
