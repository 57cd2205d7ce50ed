//! What the boot loader hands over, and the first context it leads to.

use vstd::prelude::*;

use crate::context::{Change, Scheduler, SchedulerView, Status, has_context, lemma_context_index};
use crate::error::Error;
use crate::gdt::PAGE_SIZE;

verus! {

/// The record the boot loader passes to the kernel (physical addresses).
#[derive(Copy, Clone, Debug, PartialEq, Eq, Structural)]
pub struct KernelArgs {
    pub kernel_base: usize,
    pub kernel_size: usize,
    pub stack_base: usize,
    pub stack_size: usize,
    pub env_base: usize,
    pub env_size: usize,
    pub dtb_base: usize,
    pub dtb_size: usize,
    pub areas_base: usize,
    pub areas_size: usize,
    /// Base of the contiguous bootstrap image.
    pub bootstrap_base: usize,
    /// Size of the bootstrap image, not necessarily page aligned.
    pub bootstrap_size: usize,
    /// Where the bootstrap program starts in user mode.
    pub bootstrap_entry: usize,
}

/// What a secondary CPU is started with.
#[derive(Copy, Clone, Debug, PartialEq, Eq, Structural)]
pub struct KernelArgsAp {
    pub cpu_id: u64,
    pub page_table: u64,
    pub stack_start: u64,
    pub stack_end: u64,
}

/// The bootstrap program: the frame it starts in, its whole pages, its entry
/// point, and the environment passed to it.
pub struct Bootstrap {
    pub base: usize,
    pub page_count: usize,
    pub entry: usize,
    pub env: Vec<u8>,
}

impl Bootstrap {
    pub fn from_args(args: &KernelArgs, env: Vec<u8>) -> (r: Bootstrap)
        ensures
            r.base == args.bootstrap_base - args.bootstrap_base % PAGE_SIZE,
            r.base % PAGE_SIZE == 0,
            r.page_count == args.bootstrap_size / PAGE_SIZE,
            r.entry == args.bootstrap_entry,
            r.env@ == env@,
    {
        Bootstrap {
            base: args.bootstrap_base - args.bootstrap_base % PAGE_SIZE,
            page_count: args.bootstrap_size / PAGE_SIZE,
            entry: args.bootstrap_entry,
            env,
        }
    }
}

/// The environment handed to the first user program.
pub fn init_env(bootstrap: &Bootstrap) -> (r: &[u8])
    ensures
        r@ == bootstrap.env@,
{
    bootstrap.env.as_slice()
}

/// Starts the first user program's context: spawned at `entry`, given root
/// namespace 1 for both namespaces, and made runnable.
pub fn spawn_bootstrap(
    sched: &mut Scheduler,
    entry: usize,
    kstack_base: usize,
    kstack: Vec<u8>,
    kfx: Vec<u8>,
) -> (r: Result<usize, Error>)
    requires
        old(sched)@.wf(),
        kstack_base + kstack@.len() <= usize::MAX,
    ensures
        final(sched)@.wf(),
        old(sched)@.next_id == usize::MAX ==> r == Err::<usize, Error>(Error::WouldBlock),
        old(sched)@.next_id < usize::MAX ==> r == Ok::<usize, Error>(old(sched)@.next_id),
        r matches Ok(id) ==> bootstrap_ready(final(sched)@, id, entry),
{
    let id = match sched.spawn(entry, kstack_base, kstack, kfx) {
        Ok(id) => id,
        Err(e) => return Err(e),
    };
    let ghost s1 = sched@;
    let ghost n = s1.contexts.len() - 1;
    proof {
        assert(s1.contexts[n].id == id);
        lemma_context_index(s1, n);
    }
    let _ = sched.apply(id, Change::Namespaces(1, 1));
    let ghost s2 = sched@;
    proof {
        assert(s2.contexts[n].id == id);
        lemma_context_index(s2, n);
    }
    let _ = sched.apply(id, Change::Status(Status::Runnable));
    proof {
        let s3 = sched@;
        assert(s3.contexts[n].id == id);
        lemma_context_index(s3, n);
        assert(s3.contexts[n].rns == 1 && s3.contexts[n].ens == 1);
        assert(s3.contexts[n].arch.rip == entry);
    }
    Ok(id)
}

/// Context `id` is ready to run the bootstrap program.
pub open spec fn bootstrap_ready(s: SchedulerView, id: usize, entry: usize) -> bool {
    &&& has_context(s, id)
    &&& s.contexts[crate::context::context_index(s, id)].status == Status::Runnable
    &&& s.contexts[crate::context::context_index(s, id)].rns == 1
    &&& s.contexts[crate::context::context_index(s, id)].ens == 1
    &&& s.contexts[crate::context::context_index(s, id)].arch.rip == entry
}

} // verus!
