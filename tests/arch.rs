use kernel::gdt::{
    base_gdt, gdt_limit, init_gdt, install_tss, kernel_stack_slot, pcr_from_gdt, percpu_layout,
    tls_end, GdtEntry, GDT_A_PRESENT, GDT_A_RING_3, GDT_TSS, GDT_TSS_HIGH, PCR_GDT, TSS_SIZE,
};
use kernel::syscall::{
    dispatch_allowed, efer_with_syscall, fmask_value, legacy_syscall_args, selector, set_result,
    star_value, syscall_args, syscall_entry_frame, syscall_return, sysret_allowed,
    InterruptStack, IretRegisters, PreservedRegisters, ReturnPath, ScratchRegisters,
};
use kernel::vectors::{vector_entry, ExceptionKind, ExceptionSource, VectorHandler};

fn frame(rip: usize) -> InterruptStack {
    InterruptStack {
        preserved: PreservedRegisters { rbx: 11, rbp: 12, r12: 13, r13: 14, r14: 15, r15: 16 },
        scratch: ScratchRegisters {
            rax: 1,
            rcx: rip,
            rdx: 3,
            rdi: 4,
            rsi: 5,
            r8: 6,
            r9: 7,
            r10: 8,
            r11: 0x202,
        },
        iret: IretRegisters { rip, cs: 0x2b, rflags: 0x202, rsp: 0x7000, ss: 0x23 },
    }
}

#[test]
fn syscall_noncanonical_return_takes_iret() {
    let mut f = frame(0x0000_8000_0000_0000);
    assert_eq!(syscall_return(&mut f), ReturnPath::Iret);
    assert_eq!(f.scratch.rcx, 0);
    assert_eq!(f.scratch.r11, 0);
    assert_eq!(f.iret.rip, 0x0000_8000_0000_0000);
}

#[test]
fn syscall_canonical_return_takes_sysret() {
    let mut f = frame(0x0000_7fff_ffff_f000);
    assert_eq!(syscall_return(&mut f), ReturnPath::Sysret);
    assert_eq!(f.scratch.rcx, 0x0000_7fff_ffff_f000);
    assert_eq!(f.scratch.r11, 0x202);
}

#[test]
fn sysret_gate_bits() {
    assert!(sysret_allowed(0));
    assert!(sysret_allowed(0x0000_7fff_ffff_ffff));
    assert!(!sysret_allowed(0x0000_8000_0000_0000));
    assert!(!sysret_allowed(0xffff_8000_0000_0000));
    assert!(!sysret_allowed(u64::MAX));
}

#[test]
fn syscall_msrs() {
    assert_eq!(star_value(), 0x001b_0008_0000_0000);
    assert_eq!(fmask_value(), 0x40fd5);
    assert_eq!(efer_with_syscall(0x500), 0x501);
    assert_eq!(selector(5, 3), 0x2b);
    assert_eq!(selector(4, 3), 0x23);
}

#[test]
fn syscall_argument_registers() {
    let f = frame(0x1000);
    assert_eq!(syscall_args(&f), [1, 4, 5, 3, 8, 6]);
    assert_eq!(legacy_syscall_args(&f), [1, 11, 0x1000, 3, 5, 4]);
    let mut g = f;
    set_result(&mut g, 42);
    assert_eq!(g.scratch.rax, 42);
    assert_eq!(g.scratch.rdi, 4);
}

#[test]
fn syscall_entry_builds_iret_frame() {
    let f = frame(0x1234);
    let g = syscall_entry_frame(f.scratch, f.preserved, 0x9000);
    assert_eq!(g.iret.rip, 0x1234);
    assert_eq!(g.iret.rflags, 0x202);
    assert_eq!(g.iret.rsp, 0x9000);
    assert_eq!(g.iret.cs, 0x2b);
    assert_eq!(g.iret.ss, 0x23);
}

#[test]
fn ptrace_ignore_skips_dispatch() {
    assert!(dispatch_allowed(false, Some(true)));
    assert!(dispatch_allowed(true, None));
    assert!(dispatch_allowed(true, Some(false)));
    assert!(!dispatch_allowed(true, Some(true)));
}

#[test]
fn gdt_entry_fields() {
    let e = GdtEntry::new(0x1234_5678, 0xA_BCDE, 0x9A, 0xAF);
    assert_eq!(e.offsetl, 0x5678);
    assert_eq!(e.offsetm, 0x34);
    assert_eq!(e.offseth, 0x12);
    assert_eq!(e.limitl, 0xBCDE);
    assert_eq!(e.flags_limith, 0xAA);
    assert_eq!(e.bits(), 0x12AA_9A34_5678_BCDE);
    let mut f = e;
    f.set_offset(0xCAFE_BABE);
    f.set_limit(0x1_0002);
    assert_eq!(f.bits(), 0xCAA1_9AFE_BABE_0002);
}

#[test]
fn gdt_templates() {
    let g = base_gdt();
    assert_eq!(g.len(), 8);
    assert_eq!(g[0].bits(), 0);
    assert_eq!(g[1].bits(), 0x0020_9A00_0000_0000);
    assert_eq!(g[2].bits(), 0x0020_9200_0000_0000);
    assert_eq!(g[5].access, GDT_A_PRESENT | GDT_A_RING_3 | 0x10 | 0x08 | 0x02);
    assert_eq!(init_gdt().len(), 3);
    assert_eq!(gdt_limit(8), 63);
}

#[test]
fn gdt_tss_install() {
    let mut g = base_gdt();
    install_tss(&mut g, 0xffff_8000_1234_5678);
    let t = g[GDT_TSS];
    assert_eq!(t.offsetl, 0x5678);
    assert_eq!(t.offsetm, 0x34);
    assert_eq!(t.offseth, 0x12);
    assert_eq!(t.limitl as u32, TSS_SIZE);
    assert_eq!(t.access, GDT_A_PRESENT | GDT_A_RING_3 | 0x9);
    let h = g[GDT_TSS_HIGH];
    assert_eq!(h.limitl, 0x8000);
    assert_eq!(h.offsetl, 0xffff);
}

#[test]
fn pcr_offsets() {
    assert_eq!(pcr_from_gdt(0x5000 + PCR_GDT), 0x5000);
    assert_eq!(kernel_stack_slot(0x5000), 0x5000 + 20);
    let l = percpu_layout(0x1000, 0x1800, 0x3000);
    assert_eq!((l.size, l.tbss_offset, l.pages), (0x2000, 0x800, 2));
    assert_eq!(tls_end(0x10_0000, 0x2000), 0x10_2000);
}

#[test]
fn aarch64_vectors() {
    let e = vector_entry(ExceptionSource::CurrentElSp0, ExceptionKind::Synchronous);
    assert_eq!((e.offset, e.breadcrumb, e.handler), (0, 0xb0b0, VectorHandler::SynchronousAtEl1Sp0));
    let e = vector_entry(ExceptionSource::LowerElAarch64, ExceptionKind::Irq);
    assert_eq!((e.offset, e.breadcrumb, e.handler), (0x480, 0xb0b9, VectorHandler::IrqAtEl0));
    let e = vector_entry(ExceptionSource::LowerElAarch32, ExceptionKind::SError);
    assert_eq!((e.offset, e.breadcrumb, e.handler), (0x780, 0xb0bf, VectorHandler::Unhandled));
    let e = vector_entry(ExceptionSource::CurrentElSpx, ExceptionKind::Irq);
    assert_eq!(e.handler, VectorHandler::IrqAtEl1);
}
