//! Flag words shared by the scheme interface.

use vstd::prelude::*;

verus! {

pub const O_RDONLY: usize = 0x0001_0000;
pub const O_WRONLY: usize = 0x0002_0000;
pub const O_RDWR: usize = 0x0003_0000;
pub const O_NONBLOCK: usize = 0x0004_0000;
pub const O_CREAT: usize = 0x0200_0000;
pub const O_DIRECTORY: usize = 0x1000_0000;
pub const O_STAT: usize = 0x2000_0000;
pub const O_ACCMODE: usize = 0x0003_0000;

pub const F_DUPFD: usize = 0;
pub const F_GETFD: usize = 1;
pub const F_SETFD: usize = 2;
pub const F_GETFL: usize = 3;
pub const F_SETFL: usize = 4;

pub const EVENT_NONE: usize = 0;
pub const EVENT_READ: usize = 1;
pub const EVENT_WRITE: usize = 2;

pub const MODE_FIFO: u16 = 0x1000;
pub const MODE_CHR: u16 = 0x2000;
pub const MODE_DIR: u16 = 0x4000;

pub const SEEK_SET: usize = 0;
pub const SEEK_CUR: usize = 1;
pub const SEEK_END: usize = 2;

/// The identity of a registered scheme.
#[derive(Copy, Clone, Debug, PartialEq, Eq, Structural)]
pub struct SchemeId(pub usize);

/// An event to post on the kernel event bus: waiters on handle `id` of the
/// scheme are woken with `flags`.
#[derive(Copy, Clone, Debug, PartialEq, Eq, Structural)]
pub struct SchemeEvent {
    pub scheme: SchemeId,
    pub id: usize,
    pub flags: usize,
}

/// File status, as `fstat` reports it.
#[derive(Copy, Clone, Debug, PartialEq, Eq, Structural)]
pub struct Stat {
    pub st_mode: u16,
    pub st_size: u64,
    pub st_blksize: u32,
    pub st_blocks: u64,
    pub st_ino: u64,
    pub st_nlink: u32,
}

} // verus!
