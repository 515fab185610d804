//! POSIX error numbers.
use vstd::prelude::*;

verus! {

/// An error number returned by kernel operations.
#[derive(Clone, Copy, Debug, PartialEq, Eq, Structural)]
pub enum Errno {
    EPERM,
    ENOENT,
    EBADF,
    ECHILD,
    ENOEXEC,
    ENOMEM,
    EACCES,
    EFAULT,
    EBUSY,
    EEXIST,
    ENODEV,
    ENOTDIR,
    EINVAL,
    EMFILE,
    ENOTTY,
    ERANGE,
    ENOSYS,
    ELOOP,
    EBADMSG,
    EOVERFLOW,
    EILSEQ,
    ENOTSOCK,
    ENOTSUP,
    EAFNOSUPPORT,
}

/// The result of a kernel operation.
pub type EResult<T> = Result<T, Errno>;

impl Errno {
    /// The number by which user space knows the error.
    pub fn code(&self) -> (r: i32)
        ensures
            r == self.spec_code(),
    {
        match self {
            Errno::EPERM => 1,
            Errno::ENOENT => 2,
            Errno::EBADF => 9,
            Errno::ECHILD => 10,
            Errno::ENOEXEC => 8,
            Errno::ENOMEM => 12,
            Errno::EACCES => 13,
            Errno::EFAULT => 14,
            Errno::EBUSY => 16,
            Errno::EEXIST => 17,
            Errno::ENODEV => 19,
            Errno::ENOTDIR => 20,
            Errno::EINVAL => 22,
            Errno::EMFILE => 24,
            Errno::ENOTTY => 25,
            Errno::ERANGE => 34,
            Errno::ENOSYS => 38,
            Errno::ELOOP => 40,
            Errno::EBADMSG => 74,
            Errno::EOVERFLOW => 75,
            Errno::EILSEQ => 84,
            Errno::ENOTSOCK => 88,
            Errno::ENOTSUP => 95,
            Errno::EAFNOSUPPORT => 97,
        }
    }

    pub open spec fn spec_code(&self) -> i32 {
        match self {
            Errno::EPERM => 1,
            Errno::ENOENT => 2,
            Errno::EBADF => 9,
            Errno::ECHILD => 10,
            Errno::ENOEXEC => 8,
            Errno::ENOMEM => 12,
            Errno::EACCES => 13,
            Errno::EFAULT => 14,
            Errno::EBUSY => 16,
            Errno::EEXIST => 17,
            Errno::ENODEV => 19,
            Errno::ENOTDIR => 20,
            Errno::EINVAL => 22,
            Errno::EMFILE => 24,
            Errno::ENOTTY => 25,
            Errno::ERANGE => 34,
            Errno::ENOSYS => 38,
            Errno::ELOOP => 40,
            Errno::EBADMSG => 74,
            Errno::EOVERFLOW => 75,
            Errno::EILSEQ => 84,
            Errno::ENOTSOCK => 88,
            Errno::ENOTSUP => 95,
            Errno::EAFNOSUPPORT => 97,
        }
    }
}

} // verus!
