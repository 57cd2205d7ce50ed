//! Core of a small x86-64 / AArch64 microkernel: descriptor tables, the
//! syscall gate, the scheduler's switch core, and the in-kernel pipe and IRQ
//! schemes, each modelled as plain state with verified transitions.

pub mod boot;
pub mod context;
pub mod debug;
pub mod error;
pub mod flag;
pub mod gdt;
pub mod irq;
pub mod pipe;
pub mod scheme;
pub mod syscall;
pub mod text;
pub mod vectors;
