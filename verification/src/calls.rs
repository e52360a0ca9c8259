//! Calls that the backing file system has to serve, with its own inodes and handles.

use vstd::prelude::*;

verus! {

/// Opens a file or a directory.
#[derive(Debug, PartialEq, Eq, Clone, Copy)]
pub enum OpenCall {
    File { inode: u64, flags: u32, fuse_flags: u32 },
    Dir { inode: u64, flags: u32 },
}

impl OpenCall {
    /// The flags that it opens with.
    pub open spec fn flags(self) -> u32 {
        match self {
            OpenCall::File { inode, flags, fuse_flags } => flags,
            OpenCall::Dir { inode, flags } => flags,
        }
    }
}

/// Releases a handle of a file or a directory.
#[derive(Debug, PartialEq, Eq, Clone, Copy)]
pub enum ReleaseCall {
    File {
        inode: u64,
        flags: u32,
        handle: u64,
        flush: bool,
        flock: bool,
        lock_owner: Option<u64>,
    },
    Dir { inode: u64, flags: u32, handle: u64 },
}

/// An inode and a handle to serve a request on, and what to release afterwards.
#[derive(Debug, PartialEq, Eq, Clone, Copy)]
pub struct HandleCall {
    pub inode: u64,
    pub handle: u64,
    pub release: Option<ReleaseCall>,
}

/// A handle that is opened for one request only.
#[derive(Debug, PartialEq, Eq, Clone, Copy)]
pub struct TransientOpen {
    /// How it is opened.
    pub call: OpenCall,
    /// Whether releasing it flushes it.
    pub flush: bool,
}

/// How a request on a handle is served.
#[derive(Debug, PartialEq, Eq, Clone, Copy)]
pub enum HandlePlan {
    /// The handle is known.
    Ready(HandleCall),
    /// The guest has no handle: one is opened for this request first.
    OpenFirst(TransientOpen),
}

impl TransientOpen {
    /// The inode that is opened.
    pub open spec fn inode(self) -> u64 {
        match self.call {
            OpenCall::File { inode, flags, fuse_flags } => inode,
            OpenCall::Dir { inode, flags } => inode,
        }
    }

    /// How the handle `handle` that was opened this way is released.
    pub open spec fn release_of(self, handle: u64) -> ReleaseCall {
        match self.call {
            OpenCall::File { inode, flags, fuse_flags } => ReleaseCall::File {
                inode,
                flags,
                handle,
                flush: self.flush,
                flock: false,
                lock_owner: None,
            },
            OpenCall::Dir { inode, flags } => ReleaseCall::Dir { inode, flags, handle },
        }
    }

    /// Takes the reply to the open. The request is served on the handle that it gives, which is
    /// released afterwards; on handle 0 where it gives none; and not at all where it failed.
    pub fn opened<E>(self, reply: Result<Option<u64>, E>) -> (next: Result<HandleCall, E>)
        ensures
            next == match reply {
                Ok(Some(handle)) => Ok::<HandleCall, E>(
                    (HandleCall {
                        inode: self.inode(),
                        handle,
                        release: Some(self.release_of(handle)),
                    }),
                ),
                Ok(None) => Ok((HandleCall { inode: self.inode(), handle: 0, release: None })),
                Err(e) => Err(e),
            },
    {
        let inode = match self.call {
            OpenCall::File { inode, .. } => inode,
            OpenCall::Dir { inode, .. } => inode,
        };
        match reply {
            Ok(Some(handle)) => {
                let release = match self.call {
                    OpenCall::File { inode, flags, .. } => ReleaseCall::File {
                        inode,
                        flags,
                        handle,
                        flush: self.flush,
                        flock: false,
                        lock_owner: None,
                    },
                    OpenCall::Dir { inode, flags } => ReleaseCall::Dir { inode, flags, handle },
                };
                Ok(HandleCall { inode, handle, release: Some(release) })
            },
            Ok(None) => Ok(HandleCall { inode, handle: 0, release: None }),
            Err(e) => Err(e),
        }
    }
}

impl HandleCall {
    /// Takes the reply to the request: it is the answer, whatever becomes of the release that is
    /// still to be made.
    pub fn served<R>(self, reply: R) -> (rest: (Option<ReleaseCall>, R))
        ensures
            rest == (self.release, reply),
    {
        (self.release, reply)
    }
}

} // verus!
