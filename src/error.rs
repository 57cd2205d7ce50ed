//! Error kinds returned by scheme methods and their negative-errno encoding.

use vstd::prelude::*;

verus! {

pub const EPERM: i32 = 1;
pub const ENOENT: i32 = 2;
pub const EINTR: i32 = 4;
pub const EBADF: i32 = 9;
pub const EAGAIN: i32 = 11;
pub const EACCES: i32 = 13;
pub const EEXIST: i32 = 17;
pub const EISDIR: i32 = 21;
pub const EINVAL: i32 = 22;
pub const ESPIPE: i32 = 29;
pub const EPIPE: i32 = 32;
pub const EBADFD: i32 = 77;

/// The kinds of failure a scheme method can report to userspace.
#[derive(Copy, Clone, Debug, PartialEq, Eq, Structural)]
pub enum Error {
    BadDescriptor,
    NoEntity,
    NotPermitted,
    WouldBlock,
    Interrupted,
    InvalidArgument,
    IsDirectory,
    AlreadyExists,
    Pipe,
    NotSeekable,
    BadFileDescriptorState,
}

pub open spec fn errno_of(e: Error) -> i32 {
    match e {
        Error::BadDescriptor => EBADF,
        Error::NoEntity => ENOENT,
        Error::NotPermitted => EACCES,
        Error::WouldBlock => EAGAIN,
        Error::Interrupted => EINTR,
        Error::InvalidArgument => EINVAL,
        Error::IsDirectory => EISDIR,
        Error::AlreadyExists => EEXIST,
        Error::Pipe => EPIPE,
        Error::NotSeekable => ESPIPE,
        Error::BadFileDescriptorState => EBADFD,
    }
}

/// The value a syscall leaves in the return register: the result itself, or
/// the negated errno in two's complement.
pub open spec fn mux_of(r: Result<usize, Error>) -> usize {
    match r {
        Ok(v) => v,
        Err(e) => (usize::MAX - errno_of(e) + 1) as usize,
    }
}

impl Error {
    /// The positive errno number of this kind.
    pub fn errno(self) -> (r: i32)
        ensures
            r == errno_of(self),
            0 < r < 4096,
    {
        match self {
            Error::BadDescriptor => EBADF,
            Error::NoEntity => ENOENT,
            Error::NotPermitted => EACCES,
            Error::WouldBlock => EAGAIN,
            Error::Interrupted => EINTR,
            Error::InvalidArgument => EINVAL,
            Error::IsDirectory => EISDIR,
            Error::AlreadyExists => EEXIST,
            Error::Pipe => EPIPE,
            Error::NotSeekable => ESPIPE,
            Error::BadFileDescriptorState => EBADFD,
        }
    }

    /// The kind that an errno number names, if it is one of ours.
    pub fn from_errno(errno: i32) -> (r: Option<Error>)
        ensures
            match r {
                Some(e) => errno_of(e) == errno,
                None => forall|e: Error| errno_of(e) != errno,
            },
    {
        if errno == EBADF {
            Some(Error::BadDescriptor)
        } else if errno == ENOENT {
            Some(Error::NoEntity)
        } else if errno == EACCES {
            Some(Error::NotPermitted)
        } else if errno == EAGAIN {
            Some(Error::WouldBlock)
        } else if errno == EINTR {
            Some(Error::Interrupted)
        } else if errno == EINVAL {
            Some(Error::InvalidArgument)
        } else if errno == EISDIR {
            Some(Error::IsDirectory)
        } else if errno == EEXIST {
            Some(Error::AlreadyExists)
        } else if errno == EPIPE {
            Some(Error::Pipe)
        } else if errno == ESPIPE {
            Some(Error::NotSeekable)
        } else if errno == EBADFD {
            Some(Error::BadFileDescriptorState)
        } else {
            None
        }
    }
}

/// Encodes a scheme result for the syscall return register.
pub fn mux(r: Result<usize, Error>) -> (v: usize)
    ensures
        v == mux_of(r),
{
    match r {
        Ok(v) => v,
        Err(e) => {
            let n = e.errno();
            usize::MAX - (n as usize) + 1
        },
    }
}

} // verus!
