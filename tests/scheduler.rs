use kernel::boot::spawn_bootstrap;
use kernel::context::{
    cpu_count, cpu_id, update_runnable, ArchState, Change, Context, KernelStack, SavedState,
    switch, switch_finish_hook, Scheduler, Status, SwitchOutcome, SwitchResult, FLAG_SINGLESTEP,
};
use std::collections::VecDeque;

const TRAMPOLINE: usize = 0xdead_0000;

fn two_cpus() -> Scheduler {
    Scheduler::new(2, TRAMPOLINE)
}

fn spawn_runnable(s: &mut Scheduler, base: usize) -> usize {
    let id = s.spawn(0x1000, base, vec![0u8; 64], vec![0u8; 16]).unwrap();
    assert!(s.apply(id, Change::Status(Status::Runnable)));
    id
}

#[test]
fn switch_picks_next_runnable_and_installs_stack() {
    let mut s = two_cpus();
    let id = spawn_runnable(&mut s, 0x10_0000);
    assert_eq!(switch(&mut s, 0, 50), SwitchOutcome::Switched { prev: 0, next: id });
    let cpu = s.cpu_local(0);
    assert_eq!(cpu.context_id, id);
    assert_eq!(cpu.tss_rsp0, 0x10_0000 + 64);
    assert_eq!(cpu.switch_result, Some(SwitchResult { prev: 0, next: id }));
    let next = s.summary(id).unwrap();
    assert!(next.running);
    assert_eq!(next.cpu_id, Some(0));
    assert_eq!(next.switch_time, 50);
    assert_eq!(next.kstack_end, Some(cpu.tss_rsp0));
    assert!(!s.summary(0).unwrap().running);
    assert_eq!(s.summary(0).unwrap().cpu_time, 50);
}

#[test]
fn switch_lock_is_held_until_finish_hook() {
    let mut s = two_cpus();
    let _a = spawn_runnable(&mut s, 0x10_0000);
    let b = spawn_runnable(&mut s, 0x20_0000);
    assert!(matches!(switch(&mut s, 0, 1), SwitchOutcome::Switched { .. }));
    assert_eq!(switch(&mut s, 1, 2), SwitchOutcome::Busy);
    let done = switch_finish_hook(&mut s, 0);
    assert_eq!(done.prev, 0);
    assert_eq!(s.cpu_local(0).switch_result, None);
    assert_eq!(switch(&mut s, 1, 3), SwitchOutcome::Switched { prev: 1, next: b });
}

#[test]
fn switch_idle_when_nothing_runnable() {
    let mut s = two_cpus();
    let id = s.spawn(0x1000, 0x10_0000, vec![0u8; 64], vec![]).unwrap();
    assert_eq!(switch(&mut s, 0, 1), SwitchOutcome::Idle);
    assert_eq!(s.cpu_local(0).context_id, 0);
    // the stopped context was claimed by cpu 0 during the scan, but did not run
    assert_eq!(s.summary(id).unwrap().cpu_id, Some(0));
    assert!(!s.summary(id).unwrap().running);
    assert_eq!(switch(&mut s, 0, 2), SwitchOutcome::Idle);
}

#[test]
fn no_two_cpus_run_the_same_context() {
    let mut s = two_cpus();
    let a = spawn_runnable(&mut s, 0x10_0000);
    assert_eq!(switch(&mut s, 0, 1), SwitchOutcome::Switched { prev: 0, next: a });
    switch_finish_hook(&mut s, 0);
    // a is now owned by cpu 0 and running: cpu 1 must not pick it
    assert_eq!(switch(&mut s, 1, 2), SwitchOutcome::Idle);
    assert_ne!(s.cpu_local(0).context_id, s.cpu_local(1).context_id);
}

#[test]
fn switch_wraps_around_in_id_order() {
    let mut s = Scheduler::new(1, TRAMPOLINE);
    let a = spawn_runnable(&mut s, 0x10_0000);
    let b = spawn_runnable(&mut s, 0x20_0000);
    assert_eq!(switch(&mut s, 0, 1), SwitchOutcome::Switched { prev: 0, next: a });
    switch_finish_hook(&mut s, 0);
    assert_eq!(switch(&mut s, 0, 2), SwitchOutcome::Switched { prev: a, next: b });
    switch_finish_hook(&mut s, 0);
    assert_eq!(switch(&mut s, 0, 3), SwitchOutcome::Switched { prev: b, next: 0 });
    switch_finish_hook(&mut s, 0);
    assert_eq!(switch(&mut s, 0, 4), SwitchOutcome::Switched { prev: 0, next: a });
}

#[test]
fn pending_signal_wakes_and_enters_handler() {
    let mut s = Scheduler::new(1, TRAMPOLINE);
    let a = spawn_runnable(&mut s, 0x10_0000);
    assert!(s.apply(a, Change::Status(Status::Blocked)));
    assert_eq!(switch(&mut s, 0, 1), SwitchOutcome::Idle);
    assert!(s.apply(a, Change::Signal(9)));
    assert_eq!(switch(&mut s, 0, 2), SwitchOutcome::Switched { prev: 0, next: a });
    let c = s.summary(a).unwrap();
    assert_eq!(c.in_signal, Some(9));
    assert_eq!(c.arch.rip, TRAMPOLINE);
    assert_eq!(c.arch.arg, 9);
    assert_eq!(c.pending, 0);
    assert_eq!(c.status, Status::Runnable);
}

#[test]
fn signal_return_is_restored_by_the_next_pass() {
    let mut s = Scheduler::new(1, TRAMPOLINE);
    let a = spawn_runnable(&mut s, 0x10_0000);
    assert!(s.apply(a, Change::Signal(2)));
    assert!(matches!(switch(&mut s, 0, 1), SwitchOutcome::Switched { .. }));
    switch_finish_hook(&mut s, 0);
    assert!(s.apply(a, Change::SignalReturn));
    assert_eq!(s.summary(a).unwrap().status, Status::Blocked);
    assert!(s.summary(a).unwrap().ksig_restore);
    // a is still running on cpu 0; switch away to the idle context
    assert_eq!(switch(&mut s, 0, 2), SwitchOutcome::Switched { prev: a, next: 0 });
    switch_finish_hook(&mut s, 0);
    // the idle context's pass finishes a's signal return and runs it again
    assert_eq!(switch(&mut s, 0, 3), SwitchOutcome::Switched { prev: 0, next: a });
    let c = s.summary(a).unwrap();
    assert_eq!(c.in_signal, None);
    assert!(!c.ksig_restore);
    assert_eq!(c.arch.rip, 0x1000);
}

#[test]
fn wake_deadline() {
    let mut s = Scheduler::new(1, TRAMPOLINE);
    let a = spawn_runnable(&mut s, 0x10_0000);
    assert!(s.apply(a, Change::Status(Status::Blocked)));
    assert!(s.apply(a, Change::Wake(Some(100))));
    assert_eq!(switch(&mut s, 0, 99), SwitchOutcome::Idle);
    assert_eq!(switch(&mut s, 0, 100), SwitchOutcome::Switched { prev: 0, next: a });
}

#[test]
fn ptrace_stop_and_affinity_keep_context_off() {
    let mut s = two_cpus();
    let a = spawn_runnable(&mut s, 0x10_0000);
    assert!(s.apply(a, Change::PtraceStop(true)));
    assert_eq!(switch(&mut s, 0, 1), SwitchOutcome::Idle);
    assert!(s.apply(a, Change::PtraceStop(false)));
    assert!(s.apply(a, Change::Affinity(Some(1))));
    assert_eq!(switch(&mut s, 0, 2), SwitchOutcome::Idle);
    assert_eq!(s.summary(a).unwrap().cpu_id, None);
    assert_eq!(switch(&mut s, 1, 3), SwitchOutcome::Switched { prev: 1, next: a });
}

#[test]
fn unknown_context_changes_nothing() {
    let mut s = two_cpus();
    assert!(!s.apply(77, Change::Status(Status::Runnable)));
    assert!(s.summary(77).is_none());
}

#[test]
fn cpu_numbers() {
    let s = two_cpus();
    assert_eq!(cpu_count(&s), 2);
    assert_eq!(cpu_id(&s.cpu_local(1)), 1);
}

#[test]
fn bootstrap_context_is_runnable() {
    let mut s = Scheduler::new(1, TRAMPOLINE);
    let id = spawn_bootstrap(&mut s, 0x4000, 0x10_0000, vec![0u8; 32], vec![]).unwrap();
    let c = s.summary(id).unwrap();
    assert_eq!(c.status, Status::Runnable);
    assert_eq!(c.arch.rip, 0x4000);
    assert_eq!(switch(&mut s, 0, 1), SwitchOutcome::Switched { prev: 0, next: id });
}

fn context(ksig: Option<SavedState>, restore: bool) -> Context {
    Context {
        id: 5,
        status: Status::Blocked,
        running: false,
        cpu_id: None,
        sched_affinity: None,
        ptrace_stop: false,
        switch_time: 0,
        cpu_time: 0,
        wake: None,
        pending: VecDeque::new(),
        arch: ArchState { rip: 1, rsp: 2, rflags: FLAG_SINGLESTEP, arg: 0 },
        kstack: Some(KernelStack { base: 0x1000, data: vec![1, 2, 3, 4] }),
        kfx: vec![9, 9],
        ksig,
        ksig_restore: restore,
        rns: 0,
        ens: 0,
    }
}

#[test]
fn update_runnable_restores_signal_state_keeping_singlestep() {
    let saved = SavedState {
        arch: ArchState { rip: 0x777, rsp: 0x888, rflags: 0, arg: 0 },
        kfx: vec![1, 1],
        kstack: Some(vec![5, 6, 7, 8]),
        sig: 3,
    };
    let mut c = context(Some(saved), true);
    assert!(update_runnable(&mut c, 0, 0));
    assert_eq!(c.cpu_id, Some(0));
    assert_eq!(c.arch.rip, 0x777);
    assert!(c.arch.is_singlestep());
    assert_eq!(c.kfx, vec![1, 1]);
    assert_eq!(c.kstack.as_ref().unwrap().data, vec![5, 6, 7, 8]);
    assert!(c.ksig.is_none());
    assert!(!c.ksig_restore);
    assert_eq!(c.status, Status::Runnable);
}

#[test]
fn update_runnable_leaves_other_cpus_contexts() {
    let mut c = context(None, false);
    c.cpu_id = Some(1);
    c.status = Status::Runnable;
    assert!(!update_runnable(&mut c, 0, 0));
    c.running = true;
    assert!(!update_runnable(&mut c, 1, 0));
}
