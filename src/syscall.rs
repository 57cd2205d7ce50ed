//! The x86-64 syscall gate: MSR values, the registers a syscall reads and
//! writes, and the choice between `sysret` and `iret` on the way back.

use vstd::prelude::*;

use crate::gdt::{GDT_KERNEL_CODE, GDT_USER_CODE, GDT_USER_CODE32_UNUSED, GDT_USER_DATA};

verus! {

pub const FLAGS_CF: u64 = 1 << 0;
pub const FLAGS_PF: u64 = 1 << 2;
pub const FLAGS_AF: u64 = 1 << 4;
pub const FLAGS_ZF: u64 = 1 << 6;
pub const FLAGS_SF: u64 = 1 << 7;
pub const FLAGS_TF: u64 = 1 << 8;
pub const FLAGS_IF: u64 = 1 << 9;
pub const FLAGS_DF: u64 = 1 << 10;
pub const FLAGS_OF: u64 = 1 << 11;
pub const FLAGS_AC: u64 = 1 << 18;

/// The EFER bit that enables `syscall`/`sysret`.
pub const EFER_SCE: u64 = 1;

/// A segment selector: descriptor index and requested privilege level.
pub open spec fn selector_spec(index: u16, rpl: u8) -> u16 {
    ((index as int * 8 + rpl as int) % 0x10000) as u16
}

pub fn selector(index: u16, rpl: u8) -> (r: u16)
    requires
        index < 8192,
        rpl < 4,
    ensures
        r == index * 8 + rpl,
        r == selector_spec(index, rpl),
{
    index * 8 + rpl as u16
}

/// `IA32_STAR`: bits 32..48 hold the kernel code selector (`syscall` loads
/// CS and SS from it), bits 48..64 the selector of the unused 32-bit user
/// code segment with RPL 3 (`sysret` adds 8 for SS and 16 for CS).
pub open spec fn star_spec() -> u64 {
    (((GDT_KERNEL_CODE * 8) + (GDT_USER_CODE32_UNUSED * 8 + 3) * 0x10000) * 0x1_0000_0000) as u64
}

pub fn star_value() -> (r: u64)
    ensures
        r == star_spec(),
        (r >> 32u64) as u16 == GDT_KERNEL_CODE * 8,
        (r >> 48u64) as u16 + 8 == GDT_USER_DATA * 8 + 3,
        (r >> 48u64) as u16 + 16 == GDT_USER_CODE * 8 + 3,
{
    let kernel = selector(GDT_KERNEL_CODE as u16, 0);
    let user = selector(GDT_USER_CODE32_UNUSED as u16, 3);
    let high = (kernel as u64) + (user as u64) * 0x10000;
    let r = high * 0x1_0000_0000;
    assert(r == 0x001b_0008_0000_0000u64);
    assert((0x001b_0008_0000_0000u64 >> 32u64) as u16 == 8) by (bit_vector);
    assert((0x001b_0008_0000_0000u64 >> 48u64) as u16 == 27) by (bit_vector);
    r
}

/// `IA32_FMASK`: the flags cleared on kernel entry. Direction, interrupt,
/// trap and alignment-check must go; the arithmetic flags go too, since they
/// carry nothing into the kernel.
pub open spec fn fmask_spec() -> u64 {
    (FLAGS_DF | FLAGS_IF | FLAGS_TF | FLAGS_AC) | (FLAGS_CF | FLAGS_PF | FLAGS_AF | FLAGS_ZF
        | FLAGS_SF | FLAGS_OF)
}

pub fn fmask_value() -> (r: u64)
    ensures
        r == fmask_spec(),
        r & FLAGS_DF != 0,
        r & FLAGS_IF != 0,
        r & FLAGS_TF != 0,
        r & FLAGS_AC != 0,
{
    let critical = FLAGS_DF | FLAGS_IF | FLAGS_TF | FLAGS_AC;
    let other = FLAGS_CF | FLAGS_PF | FLAGS_AF | FLAGS_ZF | FLAGS_SF | FLAGS_OF;
    let r = critical | other;
    assert(r == 0x40FD5u64) by (bit_vector)
        requires
            r == (1u64 << 10u64 | 1u64 << 9u64 | 1u64 << 8u64 | 1u64 << 18u64) | (1u64 << 0u64
                | 1u64 << 2u64 | 1u64 << 4u64 | 1u64 << 6u64 | 1u64 << 7u64 | 1u64 << 11u64),
    ;
    assert(0x40FD5u64 & (1u64 << 10u64) != 0 && 0x40FD5u64 & (1u64 << 9u64) != 0 && 0x40FD5u64 & (1u64 << 8u64) != 0 && 0x40FD5u64 & (1u64 << 18u64) != 0) by (bit_vector);
    r
}

/// `IA32_EFER` with `syscall` enabled.
pub fn efer_with_syscall(efer: u64) -> (r: u64)
    ensures
        r == efer | EFER_SCE,
{
    efer | EFER_SCE
}

/// Registers the entry code saves that a callee may clobber.
#[derive(Copy, Clone, Debug, PartialEq, Eq, Structural)]
pub struct ScratchRegisters {
    pub rax: usize,
    pub rcx: usize,
    pub rdx: usize,
    pub rdi: usize,
    pub rsi: usize,
    pub r8: usize,
    pub r9: usize,
    pub r10: usize,
    pub r11: usize,
}

/// Registers a callee must keep.
#[derive(Copy, Clone, Debug, PartialEq, Eq, Structural)]
pub struct PreservedRegisters {
    pub rbx: usize,
    pub rbp: usize,
    pub r12: usize,
    pub r13: usize,
    pub r14: usize,
    pub r15: usize,
}

/// The frame `iretq` consumes.
#[derive(Copy, Clone, Debug, PartialEq, Eq, Structural)]
pub struct IretRegisters {
    pub rip: usize,
    pub cs: usize,
    pub rflags: usize,
    pub rsp: usize,
    pub ss: usize,
}

/// The register frame saved on kernel entry.
#[derive(Copy, Clone, Debug, PartialEq, Eq, Structural)]
pub struct InterruptStack {
    pub preserved: PreservedRegisters,
    pub scratch: ScratchRegisters,
    pub iret: IretRegisters,
}

/// The frame that the `syscall` entry builds from the registers it finds:
/// user RSP, RFLAGS from R11, return RIP from RCX, and the user selectors.
pub fn syscall_entry_frame(
    scratch: ScratchRegisters,
    preserved: PreservedRegisters,
    user_rsp: usize,
) -> (r: InterruptStack)
    ensures
        r.scratch == scratch,
        r.preserved == preserved,
        r.iret.rip == scratch.rcx,
        r.iret.rflags == scratch.r11,
        r.iret.rsp == user_rsp,
        r.iret.cs == GDT_USER_CODE * 8 + 3,
        r.iret.ss == GDT_USER_DATA * 8 + 3,
{
    InterruptStack {
        preserved,
        scratch,
        iret: IretRegisters {
            rip: scratch.rcx,
            cs: selector(GDT_USER_CODE as u16, 3) as usize,
            rflags: scratch.r11,
            rsp: user_rsp,
            ss: selector(GDT_USER_DATA as u16, 3) as usize,
        },
    }
}

/// The syscall number and arguments of a `syscall` instruction:
/// RAX, then RDI, RSI, RDX, R10, R8.
pub fn syscall_args(stack: &InterruptStack) -> (r: [usize; 6])
    ensures
        r@ == seq![
            stack.scratch.rax,
            stack.scratch.rdi,
            stack.scratch.rsi,
            stack.scratch.rdx,
            stack.scratch.r10,
            stack.scratch.r8,
        ],
{
    let s = &stack.scratch;
    let r = [s.rax, s.rdi, s.rsi, s.rdx, s.r10, s.r8];
    assert(r@ =~= seq![s.rax, s.rdi, s.rsi, s.rdx, s.r10, s.r8]);
    r
}

/// The syscall number and arguments of the deprecated `int 0x80` gate:
/// RAX, then RBX, RCX, RDX, RSI, RDI.
pub fn legacy_syscall_args(stack: &InterruptStack) -> (r: [usize; 6])
    ensures
        r@ == seq![
            stack.scratch.rax,
            stack.preserved.rbx,
            stack.scratch.rcx,
            stack.scratch.rdx,
            stack.scratch.rsi,
            stack.scratch.rdi,
        ],
{
    let s = &stack.scratch;
    let r = [s.rax, stack.preserved.rbx, s.rcx, s.rdx, s.rsi, s.rdi];
    assert(r@ =~= seq![s.rax, stack.preserved.rbx, s.rcx, s.rdx, s.rsi, s.rdi]);
    r
}

/// Whether the dispatcher runs: not when a tracer stopped the call before it
/// and asked for the call to be ignored.
pub fn dispatch_allowed(pre_stop: bool, ignore: Option<bool>) -> (r: bool)
    ensures
        r == !(pre_stop && ignore == Some(true)),
{
    if pre_stop {
        match ignore {
            Some(i) => !i,
            None => true,
        }
    } else {
        true
    }
}

/// Stores a syscall's result where the return path puts it in RAX.
pub fn set_result(stack: &mut InterruptStack, result: usize)
    ensures
        *final(stack) == (InterruptStack {
            scratch: ScratchRegisters { rax: result, ..old(stack).scratch },
            ..*old(stack)
        }),
{
    stack.scratch.rax = result;
}

/// An address is canonical when bits 47 to 63 are all equal.
pub open spec fn canonical(addr: u64) -> bool {
    addr >> 47u64 == 0 || addr >> 47u64 == 0x1_FFFF
}

/// How a syscall returns to user mode.
#[derive(Copy, Clone, Debug, PartialEq, Eq, Structural)]
pub enum ReturnPath {
    /// `sysretq`: RIP from RCX, RFLAGS from R11.
    Sysret,
    /// `iretq` from the saved frame, with RCX and R11 cleared first.
    Iret,
}

/// The fast return is taken only when bits 47 to 63 of the return address
/// are clear, that is for a canonical lower-half address; any other
/// address leaves through `iretq`, so that `sysretq` never faults with the
/// kernel's GS base loaded.
pub fn sysret_allowed(rip: u64) -> (r: bool)
    ensures
        r == (rip >> 47u64 == 0),
{
    let high = (rip >> 32u64) as u32;
    let r = high & 0xFFFF_8000 == 0;
    assert(r == (rip >> 47u64 == 0)) by (bit_vector)
        requires
            high == (rip >> 32u64) as u32,
            r == (high & 0xFFFF_8000 == 0),
    ;
    r
}

/// Chooses the return path for a frame and prepares the registers: the
/// slow path clears RCX and R11.
pub fn syscall_return(stack: &mut InterruptStack) -> (r: ReturnPath)
    ensures
        r == ReturnPath::Sysret <==> (old(stack).iret.rip as u64) >> 47u64 == 0,
        r == ReturnPath::Sysret ==> *final(stack) == *old(stack),
        r == ReturnPath::Iret ==> *final(stack) == (InterruptStack {
            scratch: ScratchRegisters { rcx: 0, r11: 0, ..old(stack).scratch },
            ..*old(stack)
        }),
{
    if sysret_allowed(stack.iret.rip as u64) {
        ReturnPath::Sysret
    } else {
        stack.scratch.rcx = 0;
        stack.scratch.r11 = 0;
        ReturnPath::Iret
    }
}

/// `sysretq` is only ever reached with a canonical return address.
pub proof fn lemma_sysret_canonical(rip: u64)
    requires
        rip >> 47u64 == 0,
    ensures
        canonical(rip),
{
}

} // verus!
