//! The error codes and open flags that the device takes from the C library.

use vstd::prelude::*;

verus! {

/// No such file or directory.
pub const ENOENT: i32 = 2;

/// Input/output error.
pub const EIO: i32 = 5;

/// Invalid argument.
pub const EINVAL: i32 = 22;

/// Open for reading only.
pub const O_RDONLY: u32 = 0;

/// Open for reading and writing.
pub const O_RDWR: u32 = 2;

/// The flag of a rename by which the two names change places.
pub const RENAME_EXCHANGE: u32 = 2;

/// Why a request could not be served.
#[derive(Debug, PartialEq, Eq)]
pub enum FsError<E> {
    /// The device itself refused, with this error code of the operating system.
    Os(i32),
    /// The backing file system failed with this error.
    Backend(E),
}

/// Reads `libc::ENOENT`, which is 2 on Linux.
#[verifier::external_body]
pub(crate) fn libc_enoent() -> (code: i32)
    ensures
        code == ENOENT,
{
    libc::ENOENT
}

/// Reads `libc::EIO`, which is 5 on Linux.
#[verifier::external_body]
pub(crate) fn libc_eio() -> (code: i32)
    ensures
        code == EIO,
{
    libc::EIO
}

/// Reads `libc::EINVAL`, which is 22 on Linux.
#[verifier::external_body]
pub(crate) fn libc_einval() -> (code: i32)
    ensures
        code == EINVAL,
{
    libc::EINVAL
}

/// Reads `libc::O_RDONLY`, which is 0 on Linux, as unsigned flags.
#[verifier::external_body]
pub(crate) fn libc_o_rdonly() -> (flags: u32)
    ensures
        flags == O_RDONLY,
{
    libc::O_RDONLY as u32
}

/// Reads `libc::O_RDWR`, which is 2 on Linux, as unsigned flags.
#[verifier::external_body]
pub(crate) fn libc_o_rdwr() -> (flags: u32)
    ensures
        flags == O_RDWR,
{
    libc::O_RDWR as u32
}

/// Reads `libc::RENAME_EXCHANGE`, which is 2 on Linux.
#[verifier::external_body]
pub(crate) fn libc_rename_exchange() -> (flag: u32)
    ensures
        flag == RENAME_EXCHANGE,
{
    libc::RENAME_EXCHANGE
}

} // verus!
