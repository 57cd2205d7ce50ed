//! Contexts and the scheduler's switch core.
//!
//! The context table is ordered by id. `switch` picks, for one CPU, the next
//! runnable context after the current one (wrapping around), updating each
//! candidate on the way; the architecture swap itself is the caller's, and
//! `switch_finish_hook` ends the switch on the new stack.

use std::collections::VecDeque;
use vstd::prelude::*;

use crate::error::Error;

verus! {

/// The trap flag of RFLAGS: single-step after each instruction.
pub const FLAG_SINGLESTEP: u64 = 0x100;

#[derive(Copy, Clone, Debug, PartialEq, Eq, Structural)]
pub enum Status {
    Runnable,
    Blocked,
    Stopped,
    Exited,
}

/// The saved machine state of a context that is not running.
#[derive(Copy, Clone, Debug, PartialEq, Eq, Structural)]
pub struct ArchState {
    pub rip: usize,
    pub rsp: usize,
    pub rflags: u64,
    pub arg: usize,
}

/// `a` retargeted to run the signal trampoline for `sig` on its own stack.
pub open spec fn signal_stack(a: ArchState, trampoline: usize, sig: u8) -> ArchState {
    ArchState { rip: trampoline, arg: sig as usize, ..a }
}

/// `a` with its single-step flag set to `on`.
pub open spec fn with_singlestep(a: ArchState, on: bool) -> ArchState {
    ArchState { rflags: if on { a.rflags | FLAG_SINGLESTEP } else { a.rflags & !FLAG_SINGLESTEP }, ..a }
}

/// A kernel stack: where it lives, and its bytes.
pub struct KernelStack {
    pub base: usize,
    pub data: Vec<u8>,
}

/// The state saved when a signal handler starts, and the signal.
pub struct SavedState {
    pub arch: ArchState,
    pub kfx: Vec<u8>,
    pub kstack: Option<Vec<u8>>,
    pub sig: u8,
}

/// One schedulable task.
pub struct Context {
    pub id: usize,
    pub status: Status,
    pub running: bool,
    pub cpu_id: Option<usize>,
    pub sched_affinity: Option<usize>,
    pub ptrace_stop: bool,
    pub switch_time: u128,
    pub cpu_time: u128,
    pub wake: Option<u128>,
    pub pending: VecDeque<u8>,
    pub arch: ArchState,
    pub kstack: Option<KernelStack>,
    pub kfx: Vec<u8>,
    pub ksig: Option<SavedState>,
    pub ksig_restore: bool,
    pub rns: usize,
    pub ens: usize,
}

pub struct SavedView {
    pub arch: ArchState,
    pub kfx: Seq<u8>,
    pub kstack: Option<Seq<u8>>,
    pub sig: u8,
}

pub struct ContextView {
    pub id: usize,
    pub status: Status,
    pub running: bool,
    pub cpu_id: Option<usize>,
    pub sched_affinity: Option<usize>,
    pub ptrace_stop: bool,
    pub switch_time: u128,
    pub cpu_time: u128,
    pub wake: Option<u128>,
    pub pending: Seq<u8>,
    pub arch: ArchState,
    pub kstack: Option<(usize, Seq<u8>)>,
    pub kfx: Seq<u8>,
    pub ksig: Option<SavedView>,
    pub ksig_restore: bool,
    pub rns: usize,
    pub ens: usize,
}

impl View for SavedState {
    type V = SavedView;

    open spec fn view(&self) -> SavedView {
        SavedView {
            arch: self.arch,
            kfx: self.kfx@,
            kstack: match self.kstack {
                Some(v) => Some(v@),
                None => None,
            },
            sig: self.sig,
        }
    }
}

impl View for Context {
    type V = ContextView;

    open spec fn view(&self) -> ContextView {
        ContextView {
            id: self.id,
            status: self.status,
            running: self.running,
            cpu_id: self.cpu_id,
            sched_affinity: self.sched_affinity,
            ptrace_stop: self.ptrace_stop,
            switch_time: self.switch_time,
            cpu_time: self.cpu_time,
            wake: self.wake,
            pending: self.pending@,
            arch: self.arch,
            kstack: match &self.kstack {
                Some(k) => Some((k.base, k.data@)),
                None => None,
            },
            kfx: self.kfx@,
            ksig: match &self.ksig {
                Some(k) => Some(k@),
                None => None,
            },
            ksig_restore: self.ksig_restore,
            rns: self.rns,
            ens: self.ens,
        }
    }
}

impl ContextView {
    /// A saved signal state matches the live one in shape, a pending restore
    /// has a saved state, a running context has a CPU, and the kernel stack
    /// ends inside the address space.
    pub open spec fn wf(self) -> bool {
        &&& self.ksig_restore ==> self.ksig is Some
        &&& self.running ==> self.cpu_id is Some
        &&& self.ksig matches Some(k) ==> {
            &&& k.kfx.len() == self.kfx.len()
            &&& (k.kstack is Some <==> self.kstack is Some)
            &&& (k.kstack matches Some(saved) ==> saved.len() == self.kstack->Some_0.1.len())
        }
        &&& self.kstack matches Some((base, data)) ==> base + data.len() <= usize::MAX
    }
}

/// The address just past the end of a context's kernel stack.
pub open spec fn kstack_end(c: ContextView) -> usize {
    (c.kstack->Some_0.0 + c.kstack->Some_0.1.len()) as usize
}

pub open spec fn unblock(c: ContextView) -> ContextView {
    if c.status == Status::Blocked {
        ContextView { status: Status::Runnable, ..c }
    } else {
        c
    }
}

/// Puts back the state saved when the signal handler started, keeping the
/// current single-step flag.
pub open spec fn restore_signal(c: ContextView) -> ContextView {
    let k = c.ksig->Some_0;
    let was_singlestep = c.arch.rflags & FLAG_SINGLESTEP != 0;
    unblock(
        ContextView {
            arch: with_singlestep(k.arch, was_singlestep),
            kfx: k.kfx,
            kstack: match c.kstack {
                Some((base, _)) => Some((base, k.kstack->Some_0)),
                None => None,
            },
            ksig: None,
            ksig_restore: false,
            ..c
        },
    )
}

/// What a scheduling pass on `cpu` at time `now` does to a candidate, and
/// whether the candidate may run.
pub open spec fn update_runnable_spec(c: ContextView, cpu: usize, now: u128) -> (ContextView, bool) {
    if c.running || c.ptrace_stop {
        (c, false)
    } else {
        let c1 = if c.cpu_id is None && (c.sched_affinity matches Some(a) ==> a == cpu) {
            ContextView { cpu_id: Some(cpu), ..c }
        } else {
            c
        };
        if c1.cpu_id != Some(cpu) {
            (c1, false)
        } else {
            let c2 = if c1.ksig_restore {
                restore_signal(c1)
            } else {
                c1
            };
            let c3 = if c2.status == Status::Blocked && c2.pending.len() > 0 {
                unblock(c2)
            } else {
                c2
            };
            let c4 = if c3.status == Status::Blocked && c3.wake is Some && now >= c3.wake->Some_0 {
                unblock(ContextView { wake: None, ..c3 })
            } else {
                c3
            };
            (c4, c4.status == Status::Runnable)
        }
    }
}

impl ArchState {
    /// Sets up the state to run the signal trampoline for `sig`.
    pub fn signal_stack(&mut self, trampoline: usize, sig: u8)
        ensures
            *final(self) == signal_stack(*old(self), trampoline, sig),
    {
        self.rip = trampoline;
        self.arg = sig as usize;
    }

    pub fn is_singlestep(&self) -> (r: bool)
        ensures
            r == (self.rflags & FLAG_SINGLESTEP != 0),
    {
        self.rflags & FLAG_SINGLESTEP != 0
    }

    pub fn set_singlestep(&mut self, on: bool)
        ensures
            *final(self) == with_singlestep(*old(self), on),
    {
        if on {
            self.rflags = self.rflags | FLAG_SINGLESTEP;
        } else {
            self.rflags = self.rflags & !FLAG_SINGLESTEP;
        }
    }
}

impl Context {
    /// Makes a blocked context runnable.
    pub fn unblock(&mut self)
        ensures
            final(self)@ == unblock(old(self)@),
    {
        if self.status == Status::Blocked {
            self.status = Status::Runnable;
        }
    }

    /// Puts back the state saved when the signal handler started.
    fn restore_signal(&mut self)
        requires
            old(self)@.wf(),
            old(self)@.ksig_restore,
        ensures
            final(self)@ == restore_signal(old(self)@),
    {
        let was_singlestep = self.arch.is_singlestep();
        let mut saved: Option<SavedState> = None;
        std::mem::swap(&mut saved, &mut self.ksig);
        if let Some(k) = saved {
            let mut arch = k.arch;
            arch.set_singlestep(was_singlestep);
            self.arch = arch;
            self.kfx = k.kfx;
            if let Some(bytes) = k.kstack {
                if let Some(ks) = &mut self.kstack {
                    ks.data = bytes;
                }
            }
        }
        self.ksig_restore = false;
        self.unblock();
    }
}

/// Updates a candidate for a scheduling pass on `cpu` at time `now`: claims
/// it for `cpu` when it is free and may run there, finishes a signal return,
/// wakes it for a pending signal or a passed deadline. Returns whether it may
/// run now on `cpu`.
pub fn update_runnable(context: &mut Context, cpu: usize, now: u128) -> (r: bool)
    requires
        old(context)@.wf(),
    ensures
        (final(context)@, r) == update_runnable_spec(old(context)@, cpu, now),
        final(context)@.wf(),
{
    if context.running {
        return false;
    }
    if context.ptrace_stop {
        return false;
    }
    let may_claim = match context.sched_affinity {
        Some(a) => a == cpu,
        None => true,
    };
    if context.cpu_id.is_none() && may_claim {
        context.cpu_id = Some(cpu);
    }
    match context.cpu_id {
        Some(c) => if c != cpu {
            return false;
        },
        None => return false,
    }
    if context.ksig_restore {
        context.restore_signal();
    }
    if context.status == Status::Blocked && context.pending.len() > 0 {
        context.unblock();
    }
    if context.status == Status::Blocked {
        if let Some(w) = context.wake {
            if now >= w {
                context.wake = None;
                context.unblock();
            }
        }
    }
    context.status == Status::Runnable
}

/// The per-CPU part of the scheduler: which context the CPU runs, the kernel
/// stack installed for traps from user mode, the timer ticks of the current
/// slice, and the switch still to be finished on the new stack.
#[derive(Copy, Clone, Debug, PartialEq, Eq, Structural)]
pub struct CpuLocal {
    pub cpu_id: usize,
    pub context_id: usize,
    pub tss_rsp0: usize,
    pub pit_ticks: usize,
    pub switch_result: Option<SwitchResult>,
}

/// The two contexts of a switch whose locks the new stack releases.
#[derive(Copy, Clone, Debug, PartialEq, Eq, Structural)]
pub struct SwitchResult {
    pub prev: usize,
    pub next: usize,
}

/// What a call of `switch` came to.
#[derive(Copy, Clone, Debug, PartialEq, Eq, Structural)]
pub enum SwitchOutcome {
    /// Another CPU holds the switch lock; pause and try again.
    Busy,
    /// Nothing else can run on this CPU; the lock is released again.
    Idle,
    /// The CPU now runs `next`; the lock stays held until
    /// `switch_finish_hook` runs on `next`'s stack.
    Switched { prev: usize, next: usize },
}

pub struct SchedulerView {
    pub contexts: Seq<ContextView>,
    pub cpus: Seq<CpuLocal>,
    pub switch_lock: bool,
    pub next_id: usize,
    pub trampoline: usize,
}

/// All contexts in id order, and the CPUs that run them.
pub struct Scheduler {
    contexts: Vec<Context>,
    cpus: Vec<CpuLocal>,
    switch_lock: bool,
    next_id: usize,
    trampoline: usize,
}

pub open spec fn context_views(cs: Seq<Context>) -> Seq<ContextView> {
    cs.map_values(|c: Context| c@)
}

impl View for Scheduler {
    type V = SchedulerView;

    closed spec fn view(&self) -> SchedulerView {
        SchedulerView {
            contexts: context_views(self.contexts@),
            cpus: self.cpus@,
            switch_lock: self.switch_lock,
            next_id: self.next_id,
            trampoline: self.trampoline,
        }
    }
}

/// Whether some context has id `id`.
pub open spec fn has_context(s: SchedulerView, id: usize) -> bool {
    exists|i: int| 0 <= i < s.contexts.len() && #[trigger] s.contexts[i].id == id
}

/// The position of the context with id `id`.
pub open spec fn context_index(s: SchedulerView, id: usize) -> int {
    choose|i: int| 0 <= i < s.contexts.len() && #[trigger] s.contexts[i].id == id
}

impl SchedulerView {
    pub open spec fn wf(self) -> bool {
        &&& forall|i: int, j: int|
            0 <= i < j < self.contexts.len() ==> self.contexts[i].id < self.contexts[j].id
        &&& forall|i: int| #![trigger self.contexts[i]]
            0 <= i < self.contexts.len() ==> self.contexts[i].wf() && self.contexts[i].id
                < self.next_id
        &&& forall|c: int| #![trigger self.cpus[c]]
            0 <= c < self.cpus.len() ==> {
                &&& self.cpus[c].cpu_id == c
                &&& has_context(self, self.cpus[c].context_id)
                &&& self.contexts[context_index(self, self.cpus[c].context_id)].running
                &&& self.contexts[context_index(self, self.cpus[c].context_id)].cpu_id == Some(
                    c as usize,
                )
                &&& self.cpus[c].switch_result is Some ==> self.switch_lock
            }
        &&& forall|c: int, d: int|
            0 <= c < self.cpus.len() && 0 <= d < self.cpus.len() && self.cpus[c].switch_result is Some
                && self.cpus[d].switch_result is Some ==> c == d
        &&& forall|i: int| #![trigger self.contexts[i]]
            0 <= i < self.contexts.len() && self.contexts[i].running ==> {
                let c = self.contexts[i].cpu_id->Some_0;
                &&& c < self.cpus.len()
                &&& self.cpus[c as int].context_id == self.contexts[i].id
            }
    }
}

/// A position past the end of a table of `n` entries, brought back to its
/// start.
pub open spec fn wrap(x: int, n: int) -> int {
    if x < n {
        x
    } else {
        x - n
    }
}

/// One step of a scheduling pass: candidates are taken in id order after
/// position `p`, wrapping around, `k` of them already seen; returns the
/// updated table and the position chosen, if any.
pub open spec fn scan(cs: Seq<ContextView>, p: int, k: int, cpu: usize, now: u128) -> (
    Seq<ContextView>,
    Option<int>,
)
    decreases cs.len() - k,
{
    if k < 0 || k + 1 >= cs.len() || p < 0 || p >= cs.len() {
        (cs, None)
    } else {
        let q = wrap(p + 1 + k, cs.len() as int);
        let (c, ok) = update_runnable_spec(cs[q], cpu, now);
        if ok {
            (cs.update(q, c), Some(q))
        } else {
            scan(cs.update(q, c), p, k + 1, cpu, now)
        }
    }
}

/// `c` about to run its signal handler for its first pending signal.
pub open spec fn inject_signal(c: ContextView, trampoline: usize) -> ContextView {
    let sig = c.pending[0];
    ContextView {
        ksig: Some(
            SavedView {
                arch: c.arch,
                kfx: c.kfx,
                kstack: match c.kstack {
                    Some((_, data)) => Some(data),
                    None => None,
                },
                sig,
            },
        ),
        pending: c.pending.skip(1),
        arch: signal_stack(c.arch, trampoline, sig),
        ..c
    }
}

pub open spec fn sat_add(a: u128, b: int) -> u128 {
    if a + b > u128::MAX {
        u128::MAX
    } else {
        (a + b) as u128
    }
}

pub open spec fn sat_sub(a: u128, b: u128) -> int {
    if a >= b {
        a - b
    } else {
        0
    }
}

pub open spec fn with_ticks_reset(s: SchedulerView, cpu: int) -> SchedulerView {
    SchedulerView { cpus: s.cpus.update(cpu, CpuLocal { pit_ticks: 0, ..s.cpus[cpu] }), ..s }
}

/// What a switch on `cpu` at time `now` does.
pub open spec fn switch_spec(s: SchedulerView, cpu: usize, now: u128) -> (
    SchedulerView,
    SwitchOutcome,
) {
    let s0 = with_ticks_reset(s, cpu as int);
    if s.switch_lock {
        (s0, SwitchOutcome::Busy)
    } else {
        let p = context_index(s, s.cpus[cpu as int].context_id);
        let (cs, found) = scan(s.contexts, p, 0, cpu, now);
        match found {
            None => (SchedulerView { contexts: cs, ..s0 }, SwitchOutcome::Idle),
            Some(q) => {
                let prev = cs[p];
                let prev2 = ContextView {
                    running: false,
                    cpu_time: sat_add(prev.cpu_time, sat_sub(now, prev.switch_time)),
                    ..prev
                };
                let next = ContextView { running: true, switch_time: now, ..cs[q] };
                let next2 = if next.ksig is None && next.pending.len() > 0 {
                    inject_signal(next, s.trampoline)
                } else {
                    next
                };
                let old_cpu = s0.cpus[cpu as int];
                let new_cpu = CpuLocal {
                    context_id: next.id,
                    tss_rsp0: if next.kstack is Some {
                        kstack_end(next)
                    } else {
                        old_cpu.tss_rsp0
                    },
                    switch_result: Some(SwitchResult { prev: prev.id, next: next.id }),
                    ..old_cpu
                };
                (
                    SchedulerView {
                        contexts: cs.update(p, prev2).update(q, next2),
                        cpus: s0.cpus.update(cpu as int, new_cpu),
                        switch_lock: true,
                        ..s
                    },
                    SwitchOutcome::Switched { prev: prev.id, next: next.id },
                )
            },
        }
    }
}

/// What the post-switch hook does: the pending switch is done and the lock
/// is free.
pub open spec fn finish_spec(s: SchedulerView, cpu: usize) -> SchedulerView {
    SchedulerView {
        cpus: s.cpus.update(cpu as int, CpuLocal { switch_result: None, ..s.cpus[cpu as int] }),
        switch_lock: false,
        ..s
    }
}

proof fn lemma_update_runnable(c: ContextView, cpu: usize, now: u128)
    requires
        c.wf(),
    ensures
        ({
            let (c2, ok) = update_runnable_spec(c, cpu, now);
            &&& c2.wf()
            &&& c2.id == c.id
            &&& c2.running == c.running
            &&& c.running ==> c2 == c
            &&& c.cpu_id is Some ==> c2.cpu_id == c.cpu_id
            &&& ok ==> c2.cpu_id == Some(cpu) && !c2.running && c2.status == Status::Runnable
            &&& (c2.kstack is Some <==> c.kstack is Some)
        }),
{
}

proof fn lemma_scan(cs: Seq<ContextView>, p: int, k: int, cpu: usize, now: u128)
    requires
        0 <= p < cs.len(),
        0 <= k,
        forall|i: int| 0 <= i < cs.len() ==> (#[trigger] cs[i]).wf(),
    ensures
        ({
            let (cs2, found) = scan(cs, p, k, cpu, now);
            &&& cs2.len() == cs.len()
            &&& cs2[p] == cs[p]
            &&& forall|i: int| #![trigger cs2[i]]
                0 <= i < cs.len() ==> {
                    &&& cs2[i].wf()
                    &&& cs2[i].id == cs[i].id
                    &&& cs2[i].running == cs[i].running
                    &&& (cs[i].running ==> cs2[i] == cs[i])
                    &&& (cs[i].cpu_id is Some ==> cs2[i].cpu_id == cs[i].cpu_id)
                    &&& (cs2[i].kstack is Some <==> cs[i].kstack is Some)
                }
            &&& found matches Some(q) ==> {
                &&& 0 <= q < cs.len()
                &&& q != p
                &&& cs2[q].cpu_id == Some(cpu)
                &&& !cs2[q].running
                &&& cs2[q].status == Status::Runnable
            }
        }),
    decreases cs.len() - k,
{
    if k + 1 < cs.len() {
        let q = wrap(p + 1 + k, cs.len() as int);
        assert(q != p);
        assert(0 <= q < cs.len());
        lemma_update_runnable(cs[q], cpu, now);
        let (c, ok) = update_runnable_spec(cs[q], cpu, now);
        let cs1 = cs.update(q, c);
        if !ok {
            lemma_scan(cs1, p, k + 1, cpu, now);
        }
    }
}

proof fn lemma_context_views_remove(cs: Seq<Context>, i: int)
    requires
        0 <= i < cs.len(),
    ensures
        context_views(cs.remove(i)) == context_views(cs).remove(i),
{
    assert(context_views(cs.remove(i)) =~= context_views(cs).remove(i));
}

proof fn lemma_context_views_insert(cs: Seq<Context>, i: int, c: Context)
    requires
        0 <= i <= cs.len(),
    ensures
        context_views(cs.insert(i, c)) == context_views(cs).insert(i, c@),
{
    assert(context_views(cs.insert(i, c)) =~= context_views(cs).insert(i, c@));
}

/// In a well-formed table, the context at position `i` is the one its id names.
pub proof fn lemma_context_index(s: SchedulerView, i: int)
    requires
        forall|a: int, b: int| 0 <= a < b < s.contexts.len() ==> s.contexts[a].id < s.contexts[b].id,
        0 <= i < s.contexts.len(),
    ensures
        has_context(s, s.contexts[i].id),
        context_index(s, s.contexts[i].id) == i,
{
    let id = s.contexts[i].id;
    assert(has_context(s, id));
    let j = context_index(s, id);
    if j < i {
        assert(s.contexts[j].id < s.contexts[i].id);
    } else if j > i {
        assert(s.contexts[i].id < s.contexts[j].id);
    }
}

fn copy_bytes(v: &Vec<u8>) -> (r: Vec<u8>)
    ensures
        r@ == v@,
{
    let mut r: Vec<u8> = Vec::new();
    let mut i: usize = 0;
    while i < v.len()
        invariant
            i <= v@.len(),
            r@ == v@.take(i as int),
        decreases v@.len() - i,
    {
        r.push(v[i]);
        assert(r@ =~= v@.take(i + 1));
        i = i + 1;
    }
    assert(v@.take(v@.len() as int) =~= v@);
    r
}

impl Context {
    /// Saves the current state and starts the handler for the first pending
    /// signal.
    fn inject_signal(&mut self, trampoline: usize)
        requires
            old(self)@.pending.len() > 0,
        ensures
            final(self)@ == inject_signal(old(self)@, trampoline),
    {
        let sig = self.pending.pop_front().unwrap();
        let kfx = copy_bytes(&self.kfx);
        let kstack = match &self.kstack {
            Some(k) => Some(copy_bytes(&k.data)),
            None => None,
        };
        self.ksig = Some(SavedState { arch: self.arch, kfx, kstack, sig });
        self.arch.signal_stack(trampoline, sig);
        assert(self@.pending =~= old(self)@.pending.skip(1));
    }
}

impl Scheduler {
    fn find_context(&self, id: usize) -> (r: Option<usize>)
        requires
            self@.wf(),
        ensures
            match r {
                Some(i) => i < self@.contexts.len() && self@.contexts[i as int].id == id
                    && context_index(self@, id) == i,
                None => !has_context(self@, id),
            },
    {
        let mut i: usize = 0;
        while i < self.contexts.len()
            invariant
                self@.wf(),
                i <= self@.contexts.len(),
                forall|k: int| 0 <= k < i ==> self@.contexts[k].id != id,
            decreases self@.contexts.len() - i,
        {
            assert(self@.contexts[i as int] == self.contexts@[i as int]@);
            if self.contexts[i].id == id {
                proof {
                    lemma_context_index(self@, i as int);
                }
                return Some(i);
            }
            i = i + 1;
        }
        None
    }

    fn take_context(&mut self, i: usize) -> (c: Context)
        requires
            i < old(self)@.contexts.len(),
        ensures
            c@ == old(self)@.contexts[i as int],
            final(self)@ == (SchedulerView {
                contexts: old(self)@.contexts.remove(i as int),
                ..old(self)@
            }),
    {
        proof {
            lemma_context_views_remove(self.contexts@, i as int);
        }
        let c = self.contexts.remove(i);
        assert(self@ =~= (SchedulerView {
            contexts: old(self)@.contexts.remove(i as int),
            ..old(self)@
        }));
        c
    }

    fn put_context(&mut self, i: usize, c: Context)
        requires
            i <= old(self)@.contexts.len(),
        ensures
            final(self)@ == (SchedulerView {
                contexts: old(self)@.contexts.insert(i as int, c@),
                ..old(self)@
            }),
    {
        proof {
            lemma_context_views_insert(self.contexts@, i as int, c);
        }
        self.contexts.insert(i, c);
        assert(self@ =~= (SchedulerView {
            contexts: old(self)@.contexts.insert(i as int, c@),
            ..old(self)@
        }));
    }

    /// Scans the candidates after position `p` for one that may run on `cpu`.
    fn select(&mut self, p: usize, cpu: usize, now: u128) -> (found: Option<usize>)
        requires
            p < old(self)@.contexts.len(),
            forall|i: int|
                0 <= i < old(self)@.contexts.len() ==> (#[trigger] old(self)@.contexts[i]).wf(),
        ensures
            (final(self)@.contexts, match found {
                Some(q) => Some(q as int),
                None => None,
            }) == scan(old(self)@.contexts, p as int, 0, cpu, now),
            final(self)@ == (SchedulerView { contexts: final(self)@.contexts, ..old(self)@ }),
    {
        let ghost s = self@;
        let n = self.contexts.len();
        let mut k: usize = 0;
        let mut found: Option<usize> = None;
        while k + 1 < n && found.is_none()
            invariant
                n == self@.contexts.len(),
                p < n,
                k < n,
                self@ == (SchedulerView { contexts: self@.contexts, ..s }),
                forall|i: int| 0 <= i < n ==> (#[trigger] self@.contexts[i]).wf(),
                found matches Some(q) ==> scan(s.contexts, p as int, 0, cpu, now) == (
                self@.contexts,
                Some(q as int),
                ),
                found is None ==> scan(s.contexts, p as int, 0, cpu, now) == scan(
                    self@.contexts,
                    p as int,
                    k as int,
                    cpu,
                    now,
                ),
            decreases n - k,
        {
            let q = if k < n - 1 - p {
                p + 1 + k
            } else {
                k - (n - 1 - p)
            };
            assert(q == wrap(p + 1 + k, n as int));
            let ghost cs = self@.contexts;
            let mut c = self.take_context(q);
            let ok = update_runnable(&mut c, cpu, now);
            self.put_context(q, c);
            proof {
                assert(cs.remove(q as int).insert(q as int, c@) =~= cs.update(q as int, c@));
                assert forall|i: int| 0 <= i < n implies (#[trigger] self@.contexts[i]).wf() by {
                    if i != q {
                        assert(self@.contexts[i] == cs[i]);
                    }
                };
            }
            if ok {
                found = Some(q);
            }
            k = k + 1;
        }
        found
    }

    /// Makes the context at `q` the one `cpu` runs, in place of the one at `p`.
    #[verifier::rlimit(50)]
    fn commit(
        &mut self,
        cpu: usize,
        p: usize,
        q: usize,
        now: u128,
        Ghost(s): Ghost<SchedulerView>,
    ) -> (r: SwitchOutcome)
        requires
            s.wf(),
            !s.switch_lock,
            cpu < s.cpus.len(),
            p == context_index(s, s.cpus[cpu as int].context_id),
            scan(s.contexts, p as int, 0, cpu, now) == (old(self)@.contexts, Some(q as int)),
            old(self)@ == (SchedulerView { contexts: old(self)@.contexts, ..with_ticks_reset(s, cpu as int) }),
            p < old(self)@.contexts.len(),
            q < old(self)@.contexts.len(),
            p != q,
            forall|i: int| 0 <= i < old(self)@.contexts.len() ==> (#[trigger] old(self)@.contexts[i]).wf(),
        ensures
            (final(self)@, r) == switch_spec(s, cpu, now),
    {
        let ghost cs = self@.contexts;
        let mut prev = self.take_context(p);
        prev.running = false;
        let delta: u128 = if now >= prev.switch_time {
            now - prev.switch_time
        } else {
            0
        };
        prev.cpu_time = prev.cpu_time.saturating_add(delta);
        let prev_id = prev.id;
        self.put_context(p, prev);
        assert(cs.remove(p as int).insert(p as int, prev@) =~= cs.update(p as int, prev@));
        let ghost cs1 = self@.contexts;
        let mut next = self.take_context(q);
        next.running = true;
        next.switch_time = now;
        let mut rsp0 = self.cpus[cpu].tss_rsp0;
        if let Some(ks) = &next.kstack {
            rsp0 = ks.base + ks.data.len();
        }
        if next.ksig.is_none() && next.pending.len() > 0 {
            next.inject_signal(self.trampoline);
        }
        let next_id = next.id;
        self.put_context(q, next);
        assert(cs1.remove(q as int).insert(q as int, next@) =~= cs1.update(q as int, next@));
        let mut local = self.cpus[cpu];
        local.context_id = next_id;
        local.tss_rsp0 = rsp0;
        local.switch_result = Some(SwitchResult { prev: prev_id, next: next_id });
        self.cpus.set(cpu, local);
        self.switch_lock = true;
        proof {
            assert(self@ =~= switch_spec(s, cpu, now).0);
        }
        SwitchOutcome::Switched { prev: prev_id, next: next_id }
    }

}

/// Two tables with the same ids in the same places find every id at the
/// same place.
proof fn lemma_same_ids(s: SchedulerView, t: SchedulerView, id: usize)
    requires
        forall|a: int, b: int| 0 <= a < b < s.contexts.len() ==> s.contexts[a].id < s.contexts[b].id,
        t.contexts.len() == s.contexts.len(),
        forall|i: int| 0 <= i < s.contexts.len() ==> #[trigger] t.contexts[i].id == s.contexts[i].id,
        has_context(s, id),
    ensures
        has_context(t, id),
        context_index(t, id) == context_index(s, id),
{
    let i = context_index(s, id);
    assert(t.contexts[i].id == id);
    lemma_context_index(s, i);
    assert forall|a: int, b: int| 0 <= a < b < t.contexts.len() implies t.contexts[a].id
        < t.contexts[b].id by {
        assert(t.contexts[a].id == s.contexts[a].id);
        assert(t.contexts[b].id == s.contexts[b].id);
    };
    lemma_context_index(t, i);
}

/// A switch keeps the scheduler well formed.
pub proof fn lemma_switch_wf(s: SchedulerView, cpu: usize, now: u128)
    requires
        s.wf(),
        cpu < s.cpus.len(),
    ensures
        switch_spec(s, cpu, now).0.wf(),
{
    let s0 = with_ticks_reset(s, cpu as int);
    let t = switch_spec(s, cpu, now).0;
    assert(forall|c: int| 0 <= c < s.cpus.len() ==> #[trigger] s0.cpus[c].context_id
        == s.cpus[c].context_id && s0.cpus[c].cpu_id == s.cpus[c].cpu_id
        && s0.cpus[c].switch_result == s.cpus[c].switch_result);
    if s.switch_lock {
        assert(t == s0);
        assert(s0.contexts == s.contexts);
        return;
    }
    let p = context_index(s, s.cpus[cpu as int].context_id);
    assert(forall|i: int| 0 <= i < s.contexts.len() ==> (#[trigger] s.contexts[i]).wf());
    lemma_scan(s.contexts, p, 0, cpu, now);
    let (cs, found) = scan(s.contexts, p, 0, cpu, now);
    let prev_cpu = s.contexts[p];
    assert(prev_cpu.running && prev_cpu.cpu_id == Some(cpu));
    match found {
        None => {
            assert(t.contexts == cs);
            assert forall|c: int| #![trigger t.cpus[c]] 0 <= c < t.cpus.len() implies {
                &&& t.cpus[c].cpu_id == c
                &&& has_context(t, t.cpus[c].context_id)
                &&& t.contexts[context_index(t, t.cpus[c].context_id)].running
                &&& t.contexts[context_index(t, t.cpus[c].context_id)].cpu_id == Some(c as usize)
                &&& t.cpus[c].switch_result is Some ==> t.switch_lock
            } by {
                assert(s.cpus[c].cpu_id == c);
                lemma_same_ids(s, t, s.cpus[c].context_id);
            };
            assert forall|i: int| #![trigger t.contexts[i]]
                0 <= i < t.contexts.len() && t.contexts[i].running implies {
                let c = t.contexts[i].cpu_id->Some_0;
                &&& c < t.cpus.len()
                &&& t.cpus[c as int].context_id == t.contexts[i].id
            } by {
                assert(s.contexts[i].running);
                assert(cs[i] == s.contexts[i]);
            };
        },
        Some(q) => {
            let next = cs[q];
            assert(t.contexts.len() == s.contexts.len());
            assert forall|i: int| 0 <= i < s.contexts.len() implies #[trigger] t.contexts[i].id
                == s.contexts[i].id by {
                assert(cs[i].id == s.contexts[i].id);
            };
            assert forall|a: int, b: int| 0 <= a < b < t.contexts.len() implies t.contexts[a].id
                < t.contexts[b].id by {
                assert(t.contexts[a].id == s.contexts[a].id);
                assert(t.contexts[b].id == s.contexts[b].id);
            };
            assert forall|i: int| #![trigger t.contexts[i]]
                0 <= i < t.contexts.len() implies t.contexts[i].wf() && t.contexts[i].id
                < t.next_id by {
                assert(cs[i].wf());
                assert(s.contexts[i].id < s.next_id);
            };
            lemma_context_index(t, q);
            lemma_context_index(t, p);
            assert forall|c: int| #![trigger t.cpus[c]] 0 <= c < t.cpus.len() implies {
                &&& t.cpus[c].cpu_id == c
                &&& has_context(t, t.cpus[c].context_id)
                &&& t.contexts[context_index(t, t.cpus[c].context_id)].running
                &&& t.contexts[context_index(t, t.cpus[c].context_id)].cpu_id == Some(c as usize)
                &&& t.cpus[c].switch_result is Some ==> t.switch_lock
            } by {
                assert(s.cpus[c].cpu_id == c);
                if c != cpu {
                    let id = s.cpus[c].context_id;
                    lemma_same_ids(s, t, id);
                    let i = context_index(s, id);
                    assert(s.contexts[i].running && s.contexts[i].cpu_id == Some(c as usize));
                    assert(i != p);
                    assert(i != q);
                    assert(cs[i] == s.contexts[i]);
                    assert(t.contexts[i] == cs[i]);
                }
            };
            assert forall|i: int| #![trigger t.contexts[i]]
                0 <= i < t.contexts.len() && t.contexts[i].running implies {
                let c = t.contexts[i].cpu_id->Some_0;
                &&& c < t.cpus.len()
                &&& t.cpus[c as int].context_id == t.contexts[i].id
            } by {
                if i != q {
                    assert(i != p);
                    assert(t.contexts[i] == cs[i]);
                    assert(s.contexts[i].running);
                    assert(cs[i] == s.contexts[i]);
                    let c = s.contexts[i].cpu_id->Some_0;
                    if c == cpu {
                        lemma_context_index(s, i);
                        assert(s.cpus[cpu as int].context_id == s.contexts[i].id);
                    }
                }
            };
        },
    }
}

/// The post-switch hook keeps the scheduler well formed.
pub proof fn lemma_finish_wf(s: SchedulerView, cpu: usize)
    requires
        s.wf(),
        cpu < s.cpus.len(),
        s.cpus[cpu as int].switch_result is Some,
    ensures
        finish_spec(s, cpu).wf(),
{
    let t = finish_spec(s, cpu);
    assert(t.contexts == s.contexts);
    assert forall|c: int| #![trigger t.cpus[c]] 0 <= c < t.cpus.len() implies {
        &&& t.cpus[c].cpu_id == c
        &&& has_context(t, t.cpus[c].context_id)
        &&& t.contexts[context_index(t, t.cpus[c].context_id)].running
        &&& t.contexts[context_index(t, t.cpus[c].context_id)].cpu_id == Some(c as usize)
        &&& t.cpus[c].switch_result is Some ==> t.switch_lock
    } by {
        assert(s.cpus[c].cpu_id == c);
        if c != cpu {
            assert(s.cpus[c].switch_result is None);
        }
    };
}

/// After a switch to a context with a kernel stack, the CPU takes traps from
/// user mode on the top of that stack.
pub proof fn lemma_switch_installs_kstack(s: SchedulerView, cpu: usize, now: u128)
    requires
        s.wf(),
        cpu < s.cpus.len(),
        switch_spec(s, cpu, now).1 is Switched,
    ensures
        ({
            let t = switch_spec(s, cpu, now).0;
            let next = t.contexts[context_index(t, t.cpus[cpu as int].context_id)];
            &&& t.cpus[cpu as int].context_id == switch_spec(s, cpu, now).1->Switched_next
            &&& next.running
            &&& next.kstack is Some ==> t.cpus[cpu as int].tss_rsp0 == kstack_end(next)
        }),
{
    lemma_switch_wf(s, cpu, now);
    let p = context_index(s, s.cpus[cpu as int].context_id);
    assert(forall|i: int| 0 <= i < s.contexts.len() ==> (#[trigger] s.contexts[i]).wf());
    lemma_scan(s.contexts, p, 0, cpu, now);
    let t = switch_spec(s, cpu, now).0;
    let q = scan(s.contexts, p, 0, cpu, now).1->Some_0;
    lemma_context_index(t, q);
}

/// No two CPUs run the same context.
pub proof fn lemma_one_cpu_per_context(s: SchedulerView, a: int, b: int)
    requires
        s.wf(),
        0 <= a < s.cpus.len(),
        0 <= b < s.cpus.len(),
        s.cpus[a].context_id == s.cpus[b].context_id,
    ensures
        a == b,
{
    let i = context_index(s, s.cpus[a].context_id);
    assert(s.contexts[i].cpu_id == Some(a as usize));
    assert(s.cpus[b].cpu_id == b);
}

/// What one can see of a context from outside the scheduler.
#[derive(Copy, Clone, Debug, PartialEq, Eq, Structural)]
pub struct ContextSummary {
    pub id: usize,
    pub status: Status,
    pub running: bool,
    pub cpu_id: Option<usize>,
    pub cpu_time: u128,
    pub switch_time: u128,
    pub pending: usize,
    pub arch: ArchState,
    pub kstack_end: Option<usize>,
    pub in_signal: Option<u8>,
    pub ksig_restore: bool,
}

pub open spec fn summary_of(c: ContextView) -> ContextSummary {
    ContextSummary {
        id: c.id,
        status: c.status,
        running: c.running,
        cpu_id: c.cpu_id,
        cpu_time: c.cpu_time,
        switch_time: c.switch_time,
        pending: c.pending.len() as usize,
        arch: c.arch,
        kstack_end: if c.kstack is Some {
            Some(kstack_end(c))
        } else {
            None
        },
        in_signal: match c.ksig {
            Some(k) => Some(k.sig),
            None => None,
        },
        ksig_restore: c.ksig_restore,
    }
}

pub open spec fn idle_context(cpu: usize) -> ContextView {
    ContextView {
        id: cpu,
        status: Status::Runnable,
        running: true,
        cpu_id: Some(cpu),
        sched_affinity: Some(cpu),
        ptrace_stop: false,
        switch_time: 0,
        cpu_time: 0,
        wake: None,
        pending: seq![],
        arch: ArchState { rip: 0, rsp: 0, rflags: 0, arg: 0 },
        kstack: None,
        kfx: seq![],
        ksig: None,
        ksig_restore: false,
        rns: 0,
        ens: 0,
    }
}

/// The scheduler view with the context at position `i` replaced.
pub open spec fn with_context(s: SchedulerView, i: int, c: ContextView) -> SchedulerView {
    SchedulerView { contexts: s.contexts.update(i, c), ..s }
}

/// Replacing a context by one with the same id, CPU and running flag keeps
/// the scheduler well formed.
proof fn lemma_replace_wf(s: SchedulerView, i: int, c: ContextView)
    requires
        s.wf(),
        0 <= i < s.contexts.len(),
        c.wf(),
        c.id == s.contexts[i].id,
        c.running == s.contexts[i].running,
        c.cpu_id == s.contexts[i].cpu_id,
    ensures
        with_context(s, i, c).wf(),
{
    let t = with_context(s, i, c);
    assert forall|k: int| 0 <= k < s.contexts.len() implies #[trigger] t.contexts[k].id
        == s.contexts[k].id by {};
    assert forall|x: int| #![trigger t.cpus[x]] 0 <= x < t.cpus.len() implies {
        &&& t.cpus[x].cpu_id == x
        &&& has_context(t, t.cpus[x].context_id)
        &&& t.contexts[context_index(t, t.cpus[x].context_id)].running
        &&& t.contexts[context_index(t, t.cpus[x].context_id)].cpu_id == Some(x as usize)
        &&& t.cpus[x].switch_result is Some ==> t.switch_lock
    } by {
        assert(s.cpus[x].cpu_id == x);
        lemma_same_ids(s, t, s.cpus[x].context_id);
    };
    assert forall|k: int| #![trigger t.contexts[k]]
        0 <= k < t.contexts.len() && t.contexts[k].running implies {
        let x = t.contexts[k].cpu_id->Some_0;
        &&& x < t.cpus.len()
        &&& t.cpus[x as int].context_id == t.contexts[k].id
    } by {
        assert(s.contexts[k].running);
    };
    assert forall|a: int, b: int| 0 <= a < b < t.contexts.len() implies t.contexts[a].id
        < t.contexts[b].id by {
        assert(t.contexts[a].id == s.contexts[a].id);
        assert(t.contexts[b].id == s.contexts[b].id);
    };
}

impl Scheduler {
    /// A scheduler for `cpus` CPUs, each running an idle context whose id is
    /// its CPU number; `trampoline` is where signal handlers start.
    pub fn new(cpus: usize, trampoline: usize) -> (r: Scheduler)
        ensures
            r@.wf(),
            r@.trampoline == trampoline,
            r@.next_id == cpus,
            !r@.switch_lock,
            r@.cpus.len() == cpus,
            r@.contexts.len() == cpus,
            forall|i: int| 0 <= i < cpus ==> #[trigger] r@.contexts[i] == idle_context(i as usize),
            forall|i: int| 0 <= i < cpus ==> #[trigger] r@.cpus[i] == (CpuLocal {
                cpu_id: i as usize,
                context_id: i as usize,
                tss_rsp0: 0,
                pit_ticks: 0,
                switch_result: None,
            }),
    {
        let mut contexts: Vec<Context> = Vec::new();
        let mut locals: Vec<CpuLocal> = Vec::new();
        let mut i: usize = 0;
        while i < cpus
            invariant
                i <= cpus,
                contexts@.len() == i,
                locals@.len() == i,
                forall|k: int| 0 <= k < i ==> #[trigger] contexts@[k]@ == idle_context(k as usize),
                forall|k: int| 0 <= k < i ==> #[trigger] locals@[k] == (CpuLocal {
                    cpu_id: k as usize,
                    context_id: k as usize,
                    tss_rsp0: 0,
                    pit_ticks: 0,
                    switch_result: None,
                }),
            decreases cpus - i,
        {
            let c = Context {
                id: i,
                status: Status::Runnable,
                running: true,
                cpu_id: Some(i),
                sched_affinity: Some(i),
                ptrace_stop: false,
                switch_time: 0,
                cpu_time: 0,
                wake: None,
                pending: VecDeque::new(),
                arch: ArchState { rip: 0, rsp: 0, rflags: 0, arg: 0 },
                kstack: None,
                kfx: Vec::new(),
                ksig: None,
                ksig_restore: false,
                rns: 0,
                ens: 0,
            };
            assert(c@ =~= idle_context(i));
            contexts.push(c);
            locals.push(
                CpuLocal { cpu_id: i, context_id: i, tss_rsp0: 0, pit_ticks: 0, switch_result: None },
            );
            i = i + 1;
        }
        let r = Scheduler { contexts, cpus: locals, switch_lock: false, next_id: cpus, trampoline };
        proof {
            let v = r@;
            assert forall|k: int| 0 <= k < cpus implies #[trigger] v.contexts[k] == idle_context(
                k as usize,
            ) by {
                assert(v.contexts[k] == r.contexts@[k]@);
            };
            assert forall|x: int| #![trigger v.cpus[x]] 0 <= x < v.cpus.len() implies {
                &&& v.cpus[x].cpu_id == x
                &&& has_context(v, v.cpus[x].context_id)
                &&& v.contexts[context_index(v, v.cpus[x].context_id)].running
                &&& v.contexts[context_index(v, v.cpus[x].context_id)].cpu_id == Some(x as usize)
                &&& v.cpus[x].switch_result is Some ==> v.switch_lock
            } by {
                assert(v.contexts[x].id == x);
                lemma_context_index(v, x);
            };
        }
        r
    }

    /// Creates a stopped context that will start at `entry` in kernel mode on
    /// the given kernel stack; returns its id.
    pub fn spawn(&mut self, entry: usize, kstack_base: usize, kstack: Vec<u8>, kfx: Vec<u8>) -> (r:
        Result<usize, Error>)
        requires
            old(self)@.wf(),
            kstack_base + kstack@.len() <= usize::MAX,
        ensures
            final(self)@.wf(),
            old(self)@.next_id == usize::MAX ==> r == Err::<usize, Error>(Error::WouldBlock)
                && final(self)@ == old(self)@,
            old(self)@.next_id < usize::MAX ==> {
                &&& r == Ok::<usize, Error>(old(self)@.next_id)
                &&& final(self)@.contexts.len() == old(self)@.contexts.len() + 1
                &&& final(self)@.contexts.drop_last() == old(self)@.contexts
                &&& final(self)@.contexts.last().id == old(self)@.next_id
                &&& final(self)@.contexts.last().status == Status::Stopped
                &&& !final(self)@.contexts.last().running
                &&& final(self)@.contexts.last().cpu_id is None
                &&& final(self)@.contexts.last().arch.rip == entry
                &&& final(self)@.contexts.last().kstack == Some((kstack_base, kstack@))
                &&& final(self)@.cpus == old(self)@.cpus
            },
    {
        if self.next_id == usize::MAX {
            return Err(Error::WouldBlock);
        }
        let id = self.next_id;
        let top = kstack_base + kstack.len();
        let c = Context {
            id,
            status: Status::Stopped,
            running: false,
            cpu_id: None,
            sched_affinity: None,
            ptrace_stop: false,
            switch_time: 0,
            cpu_time: 0,
            wake: None,
            pending: VecDeque::new(),
            arch: ArchState { rip: entry, rsp: top, rflags: 0, arg: 0 },
            kstack: Some(KernelStack { base: kstack_base, data: kstack }),
            kfx,
            ksig: None,
            ksig_restore: false,
            rns: 0,
            ens: 0,
        };
        let ghost s = self@;
        let n = self.contexts.len();
        self.put_context(n, c);
        self.next_id = id + 1;
        proof {
            let t = self@;
            assert(t.contexts =~= s.contexts.push(c@));
            assert(t.contexts.drop_last() =~= s.contexts);
            assert forall|k: int| 0 <= k < s.contexts.len() implies #[trigger] t.contexts[k].id
                == s.contexts[k].id by {};
            assert forall|x: int| #![trigger t.cpus[x]] 0 <= x < t.cpus.len() implies {
                &&& t.cpus[x].cpu_id == x
                &&& has_context(t, t.cpus[x].context_id)
                &&& t.contexts[context_index(t, t.cpus[x].context_id)].running
                &&& t.contexts[context_index(t, t.cpus[x].context_id)].cpu_id == Some(x as usize)
                &&& t.cpus[x].switch_result is Some ==> t.switch_lock
            } by {
                assert(s.cpus[x].cpu_id == x);
                let j = context_index(s, s.cpus[x].context_id);
                assert(t.contexts[j] == s.contexts[j]);
                lemma_context_index(t, j);
            };
        }
        Ok(id)
    }

    /// Applies a lifecycle change to context `id`; false if there is none.
    pub fn apply(&mut self, id: usize, change: Change) -> (r: bool)
        requires
            old(self)@.wf(),
        ensures
            final(self)@.wf(),
            r == has_context(old(self)@, id),
            r ==> final(self)@ == with_context(
                old(self)@,
                context_index(old(self)@, id),
                change_spec(old(self)@.contexts[context_index(old(self)@, id)], change),
            ),
            !r ==> final(self)@ == old(self)@,
    {
        let i = match self.find_context(id) {
            Some(i) => i,
            None => return false,
        };
        let ghost s = self@;
        let mut c = self.take_context(i);
        match change {
            Change::Status(st) => c.status = st,
            Change::Signal(sig) => c.pending.push_back(sig),
            Change::Wake(w) => c.wake = w,
            Change::PtraceStop(on) => c.ptrace_stop = on,
            Change::Affinity(a) => c.sched_affinity = a,
            Change::Namespaces(rns, ens) => {
                c.rns = rns;
                c.ens = ens;
            },
            Change::SignalReturn => if c.ksig.is_some() {
                c.ksig_restore = true;
                c.status = Status::Blocked;
            },
        }
        self.put_context(i, c);
        proof {
            assert(c@ =~= change_spec(s.contexts[i as int], change));
            assert(s.contexts.remove(i as int).insert(i as int, c@) =~= s.contexts.update(
                i as int,
                c@,
            ));
            lemma_replace_wf(s, i as int, c@);
        }
        true
    }

    /// What can be seen of context `id`.
    pub fn summary(&self, id: usize) -> (r: Option<ContextSummary>)
        requires
            self@.wf(),
        ensures
            r == (if has_context(self@, id) {
                Some(summary_of(self@.contexts[context_index(self@, id)]))
            } else {
                None
            }),
    {
        let i = match self.find_context(id) {
            Some(i) => i,
            None => return None,
        };
        let c = &self.contexts[i];
        assert(self@.contexts[i as int] == c@);
        let kstack_end = match &c.kstack {
            Some(k) => Some(k.base + k.data.len()),
            None => None,
        };
        let in_signal = match &c.ksig {
            Some(k) => Some(k.sig),
            None => None,
        };
        Some(
            ContextSummary {
                id: c.id,
                status: c.status,
                running: c.running,
                cpu_id: c.cpu_id,
                cpu_time: c.cpu_time,
                switch_time: c.switch_time,
                pending: c.pending.len(),
                arch: c.arch,
                kstack_end,
                in_signal,
                ksig_restore: c.ksig_restore,
            },
        )
    }

    /// The per-CPU state of `cpu`.
    pub fn cpu_local(&self, cpu: usize) -> (r: CpuLocal)
        requires
            cpu < self@.cpus.len(),
        ensures
            r == self@.cpus[cpu as int],
    {
        self.cpus[cpu]
    }
}

/// A lifecycle change to one context.
#[derive(Copy, Clone, Debug, PartialEq, Eq, Structural)]
pub enum Change {
    Status(Status),
    /// Queue a signal.
    Signal(u8),
    /// Sleep until a monotonic deadline, or clear it.
    Wake(Option<u128>),
    PtraceStop(bool),
    Affinity(Option<usize>),
    Namespaces(usize, usize),
    /// The handler returned: block until another context's scheduling pass
    /// restores the state saved before it.
    SignalReturn,
}

pub open spec fn change_spec(c: ContextView, change: Change) -> ContextView {
    match change {
        Change::Status(st) => ContextView { status: st, ..c },
        Change::Signal(sig) => ContextView { pending: c.pending.push(sig), ..c },
        Change::Wake(w) => ContextView { wake: w, ..c },
        Change::PtraceStop(on) => ContextView { ptrace_stop: on, ..c },
        Change::Affinity(a) => ContextView { sched_affinity: a, ..c },
        Change::Namespaces(rns, ens) => ContextView { rns, ens, ..c },
        Change::SignalReturn => if c.ksig is Some {
            ContextView { ksig_restore: true, status: Status::Blocked, ..c }
        } else {
            c
        },
    }
}

/// The scheduling number of the CPU whose state this is.
pub fn cpu_id(local: &CpuLocal) -> (r: usize)
    ensures
        r == local.cpu_id,
{
    local.cpu_id
}

/// The number of CPUs that can have work scheduled.
pub fn cpu_count(s: &Scheduler) -> (r: usize)
    ensures
        r == s@.cpus.len(),
{
    s.cpus.len()
}

/// Runs the selection phase of a context switch on `cpu` at time `now`.
pub fn switch(sched: &mut Scheduler, cpu: usize, now: u128) -> (r: SwitchOutcome)
    requires
        old(sched)@.wf(),
        cpu < old(sched)@.cpus.len(),
    ensures
        (final(sched)@, r) == switch_spec(old(sched)@, cpu, now),
        final(sched)@.wf(),
{
    proof {
        lemma_switch_wf(sched@, cpu, now);
    }
    let ghost s = sched@;
    let mut local = sched.cpus[cpu];
    local.pit_ticks = 0;
    sched.cpus.set(cpu, local);
    let ghost s0 = sched@;
    assert(s0 =~= with_ticks_reset(s, cpu as int));
    if sched.switch_lock {
        return SwitchOutcome::Busy;
    }
    let cur = sched.cpus[cpu].context_id;
    assert(s.cpus[cpu as int].context_id == cur);
    let p = match sched.find_context(cur) {
        Some(p) => p,
        None => {
            proof {
                assert(s.cpus[cpu as int].cpu_id == cpu);
                assert(has_context(s, cur));
                assert(forall|i: int|
                    0 <= i < s.contexts.len() ==> s.contexts[i] == sched@.contexts[i]);
                assert(false);
            }
            return SwitchOutcome::Idle;
        },
    };
    assert(p == context_index(s, s.cpus[cpu as int].context_id));
    assert(forall|i: int| 0 <= i < s.contexts.len() ==> (#[trigger] s.contexts[i]).wf());
    proof {
        lemma_scan(s.contexts, p as int, 0, cpu, now);
    }
    let found = sched.select(p, cpu, now);
    match found {
        None => {
            assert(sched@ =~= switch_spec(s, cpu, now).0);
            SwitchOutcome::Idle
        },
        Some(q) => sched.commit(cpu, p, q, now, Ghost(s)),
    }
}


/// Ends a switch on the new context's stack: the switch recorded for
/// `cpu` is done and the switch lock is released.
pub fn switch_finish_hook(sched: &mut Scheduler, cpu: usize) -> (r: SwitchResult)
    requires
        old(sched)@.wf(),
        cpu < old(sched)@.cpus.len(),
        old(sched)@.cpus[cpu as int].switch_result is Some,
    ensures
        r == old(sched)@.cpus[cpu as int].switch_result->Some_0,
        final(sched)@ == finish_spec(old(sched)@, cpu),
        final(sched)@.wf(),
{
    proof {
        lemma_finish_wf(sched@, cpu);
    }
    let mut local = sched.cpus[cpu];
    let r = local.switch_result.unwrap();
    local.switch_result = None;
    sched.cpus.set(cpu, local);
    sched.switch_lock = false;
    assert(sched@ =~= finish_spec(old(sched)@, cpu));
    r
}

} // verus!
