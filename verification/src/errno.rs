//! The errors that a filesystem call reports.

use vstd::prelude::*;

verus! {

/// An error of a filesystem call, named after the POSIX error number that
/// the kernel is given for it.
#[derive(Clone, Copy, Debug, PartialEq, Eq, Structural)]
pub enum Errno {
    /// `ENOENT`: the path is not in the remote tree, or a listing could not
    /// be fetched.
    NoEntry,
    /// `ENOTDIR`: a path goes through what is no directory, or a directory
    /// was asked of what is none.
    NotDirectory,
    /// `EISDIR`: a file was asked of a directory.
    IsDirectory,
    /// `EINVAL`: a name cannot be used.
    Invalid,
    /// `EBADF`: the handle is not bound.
    BadHandle,
    /// `ENOSYS`: the call is not implemented.
    NotImplemented,
    /// `EIO`: reading, the body store or the transport failed.
    Io,
}

} // verus!
