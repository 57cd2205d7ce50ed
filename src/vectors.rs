//! The AArch64 exception vector table: sixteen 128-byte entries in a
//! 2048-byte aligned block, one per exception source and kind.

use vstd::prelude::*;

verus! {

pub const VECTOR_TABLE_ALIGN: usize = 2048;
pub const VECTOR_ENTRY_SIZE: usize = 128;
pub const VECTOR_ENTRIES: usize = 16;

/// Where an exception comes from.
#[derive(Copy, Clone, Debug, PartialEq, Eq, Structural)]
pub enum ExceptionSource {
    CurrentElSp0,
    CurrentElSpx,
    LowerElAarch64,
    LowerElAarch32,
}

#[derive(Copy, Clone, Debug, PartialEq, Eq, Structural)]
pub enum ExceptionKind {
    Synchronous,
    Irq,
    Fiq,
    SError,
}

/// The code an entry branches to.
#[derive(Copy, Clone, Debug, PartialEq, Eq, Structural)]
pub enum VectorHandler {
    SynchronousAtEl1Sp0,
    SynchronousAtEl1Spx,
    SynchronousAtEl0,
    IrqAtEl1,
    IrqAtEl0,
    Unhandled,
}

/// One entry: its offset in the table, the tag it leaves in x18 for
/// debugging, and where it goes.
#[derive(Copy, Clone, Debug, PartialEq, Eq, Structural)]
pub struct VectorEntry {
    pub offset: usize,
    pub breadcrumb: u16,
    pub handler: VectorHandler,
}

pub open spec fn source_index(s: ExceptionSource) -> nat {
    match s {
        ExceptionSource::CurrentElSp0 => 0,
        ExceptionSource::CurrentElSpx => 1,
        ExceptionSource::LowerElAarch64 => 2,
        ExceptionSource::LowerElAarch32 => 3,
    }
}

pub open spec fn kind_index(k: ExceptionKind) -> nat {
    match k {
        ExceptionKind::Synchronous => 0,
        ExceptionKind::Irq => 1,
        ExceptionKind::Fiq => 2,
        ExceptionKind::SError => 3,
    }
}

/// Synchronous exceptions at EL1 and from EL0 and IRQs from EL0 or EL1 have
/// handlers; FIQ, SError and everything from AArch32 spin.
pub open spec fn handler_spec(s: ExceptionSource, k: ExceptionKind) -> VectorHandler {
    match (s, k) {
        (ExceptionSource::CurrentElSp0, ExceptionKind::Synchronous) => VectorHandler::SynchronousAtEl1Sp0,
        (ExceptionSource::CurrentElSpx, ExceptionKind::Synchronous) => VectorHandler::SynchronousAtEl1Spx,
        (ExceptionSource::LowerElAarch64, ExceptionKind::Synchronous) => VectorHandler::SynchronousAtEl0,
        (ExceptionSource::CurrentElSp0, ExceptionKind::Irq) => VectorHandler::IrqAtEl1,
        (ExceptionSource::CurrentElSpx, ExceptionKind::Irq) => VectorHandler::IrqAtEl1,
        (ExceptionSource::LowerElAarch64, ExceptionKind::Irq) => VectorHandler::IrqAtEl0,
        _ => VectorHandler::Unhandled,
    }
}

pub fn vector_entry(s: ExceptionSource, k: ExceptionKind) -> (r: VectorEntry)
    ensures
        r.offset == (source_index(s) * 4 + kind_index(k)) * VECTOR_ENTRY_SIZE,
        r.breadcrumb == 0xb0b0 + source_index(s) * 4 + kind_index(k),
        r.handler == handler_spec(s, k),
        r.offset + VECTOR_ENTRY_SIZE <= VECTOR_TABLE_ALIGN,
{
    let si: usize = match s {
        ExceptionSource::CurrentElSp0 => 0,
        ExceptionSource::CurrentElSpx => 1,
        ExceptionSource::LowerElAarch64 => 2,
        ExceptionSource::LowerElAarch32 => 3,
    };
    let ki: usize = match k {
        ExceptionKind::Synchronous => 0,
        ExceptionKind::Irq => 1,
        ExceptionKind::Fiq => 2,
        ExceptionKind::SError => 3,
    };
    let index = si * 4 + ki;
    let handler = match (s, k) {
        (ExceptionSource::CurrentElSp0, ExceptionKind::Synchronous) => VectorHandler::SynchronousAtEl1Sp0,
        (ExceptionSource::CurrentElSpx, ExceptionKind::Synchronous) => VectorHandler::SynchronousAtEl1Spx,
        (ExceptionSource::LowerElAarch64, ExceptionKind::Synchronous) => VectorHandler::SynchronousAtEl0,
        (ExceptionSource::CurrentElSp0, ExceptionKind::Irq) => VectorHandler::IrqAtEl1,
        (ExceptionSource::CurrentElSpx, ExceptionKind::Irq) => VectorHandler::IrqAtEl1,
        (ExceptionSource::LowerElAarch64, ExceptionKind::Irq) => VectorHandler::IrqAtEl0,
        _ => VectorHandler::Unhandled,
    };
    VectorEntry { offset: index * VECTOR_ENTRY_SIZE, breadcrumb: 0xb0b0 + index as u16, handler }
}

} // verus!
