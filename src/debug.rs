//! Helpers for tracing syscalls.

use vstd::prelude::*;

verus! {

/// The most bytes of a user buffer that a syscall trace shows.
pub const DEBUG_BUF_MAX: usize = 4096;

/// The part of a user buffer that a trace shows: its first 4096 bytes.
pub fn debug_buf(user: &[u8]) -> (r: Vec<u8>)
    ensures
        r@ == user@.take(if user@.len() < DEBUG_BUF_MAX { user@.len() as int } else { DEBUG_BUF_MAX as int }),
{
    let n = if user.len() < DEBUG_BUF_MAX {
        user.len()
    } else {
        DEBUG_BUF_MAX
    };
    let mut r: Vec<u8> = Vec::new();
    let mut i: usize = 0;
    while i < n
        invariant
            n <= user@.len(),
            i <= n,
            r@ == user@.take(i as int),
        decreases n - i,
    {
        r.push(user[i]);
        assert(r@ =~= user@.take(i + 1));
        i = i + 1;
    }
    r
}

} // verus!
