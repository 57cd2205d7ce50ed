//! Global descriptor table entries and the per-CPU control region layout.

use vstd::prelude::*;

verus! {

pub const GDT_NULL: usize = 0;
pub const GDT_KERNEL_CODE: usize = 1;
pub const GDT_KERNEL_DATA: usize = 2;
pub const GDT_USER_CODE32_UNUSED: usize = 3;
pub const GDT_USER_DATA: usize = 4;
pub const GDT_USER_CODE: usize = 5;
pub const GDT_TSS: usize = 6;
pub const GDT_TSS_HIGH: usize = 7;

pub const GDT_A_PRESENT: u8 = 0x80;
pub const GDT_A_RING_0: u8 = 0x00;
pub const GDT_A_RING_1: u8 = 0x20;
pub const GDT_A_RING_2: u8 = 0x40;
pub const GDT_A_RING_3: u8 = 0x60;
pub const GDT_A_SYSTEM: u8 = 0x10;
pub const GDT_A_EXECUTABLE: u8 = 0x08;
pub const GDT_A_CONFORMING: u8 = 0x04;
pub const GDT_A_PRIVILEGE: u8 = 0x02;
pub const GDT_A_DIRTY: u8 = 0x01;

pub const GDT_A_TSS_AVAIL: u8 = 0x9;
pub const GDT_A_TSS_BUSY: u8 = 0xB;

pub const GDT_F_PAGE_SIZE: u8 = 0x80;
pub const GDT_F_PROTECTED_MODE: u8 = 0x40;
pub const GDT_F_LONG_MODE: u8 = 0x20;

/// One 8-byte segment descriptor, split into its hardware fields.
#[derive(Copy, Clone, Debug, PartialEq, Eq)]
pub struct GdtEntry {
    pub limitl: u16,
    pub offsetl: u16,
    pub offsetm: u8,
    pub access: u8,
    pub flags_limith: u8,
    pub offseth: u8,
}

/// The 32-bit base address that a descriptor encodes.
pub open spec fn entry_offset(e: GdtEntry) -> u32 {
    (e.offsetl as u32) | ((e.offsetm as u32) << 16u32) | ((e.offseth as u32) << 24u32)
}

/// The 20-bit segment limit that a descriptor encodes.
pub open spec fn entry_limit(e: GdtEntry) -> u32 {
    (e.limitl as u32) | (((e.flags_limith & 0x0F) as u32) << 16u32)
}

/// The 4 flag bits (granularity, size, long mode, available) of a descriptor.
pub open spec fn entry_flags(e: GdtEntry) -> u8 {
    e.flags_limith & 0xF0
}

/// The descriptor as the 64-bit little-endian word the processor reads.
pub open spec fn entry_bits(e: GdtEntry) -> u64 {
    (e.limitl as u64) | ((e.offsetl as u64) << 16u64) | ((e.offsetm as u64) << 32u64) | ((
    e.access as u64) << 40u64) | ((e.flags_limith as u64) << 48u64) | ((e.offseth as u64)
        << 56u64)
}

impl GdtEntry {
    pub fn new(offset: u32, limit: u32, access: u8, flags: u8) -> (r: Self)
        ensures
            entry_offset(r) == offset,
            entry_limit(r) == limit & 0xF_FFFF,
            entry_flags(r) == flags & 0xF0,
            r.access == access,
    {
        let r = GdtEntry {
            limitl: limit as u16,
            offsetl: offset as u16,
            offsetm: (offset >> 16u32) as u8,
            access,
            flags_limith: flags & 0xF0 | ((limit >> 16u32) as u8) & 0x0F,
            offseth: (offset >> 24u32) as u8,
        };
        proof {
            lemma_offset_split(offset);
            lemma_limit_split(limit, flags);
        }
        r
    }

    pub fn set_offset(&mut self, offset: u32)
        ensures
            entry_offset(*final(self)) == offset,
            entry_limit(*final(self)) == entry_limit(*old(self)),
            entry_flags(*final(self)) == entry_flags(*old(self)),
            final(self).access == old(self).access,
    {
        self.offsetl = offset as u16;
        self.offsetm = (offset >> 16u32) as u8;
        self.offseth = (offset >> 24u32) as u8;
        proof {
            lemma_offset_split(offset);
        }
    }

    pub fn set_limit(&mut self, limit: u32)
        ensures
            entry_limit(*final(self)) == limit & 0xF_FFFF,
            entry_offset(*final(self)) == entry_offset(*old(self)),
            entry_flags(*final(self)) == entry_flags(*old(self)),
            final(self).access == old(self).access,
    {
        let fl = self.flags_limith;
        self.limitl = limit as u16;
        self.flags_limith = fl & 0xF0 | ((limit >> 16u32) as u8) & 0x0F;
        proof {
            lemma_limit_split(limit, fl);
        }
    }

    /// The descriptor as the processor reads it from memory.
    pub fn bits(&self) -> (r: u64)
        ensures
            r == entry_bits(*self),
    {
        (self.limitl as u64) | ((self.offsetl as u64) << 16u64) | ((self.offsetm as u64) << 32u64)
            | ((self.access as u64) << 40u64) | ((self.flags_limith as u64) << 48u64) | ((
        self.offseth as u64) << 56u64)
    }
}

proof fn lemma_offset_split(offset: u32)
    ensures
        ((offset as u16) as u32) | ((((offset >> 16u32) as u8) as u32) << 16u32) | ((((offset
            >> 24u32) as u8) as u32) << 24u32) == offset,
{
    assert(((offset as u16) as u32) | ((((offset >> 16u32) as u8) as u32) << 16u32) | ((((offset
        >> 24u32) as u8) as u32) << 24u32) == offset) by (bit_vector);
}

proof fn lemma_limit_split(limit: u32, flags: u8)
    ensures
        ((limit as u16) as u32) | ((((flags & 0xF0 | ((limit >> 16u32) as u8) & 0x0F) & 0x0F)
            as u32) << 16u32) == limit & 0xF_FFFF,
        (flags & 0xF0 | ((limit >> 16u32) as u8) & 0x0F) & 0xF0 == flags & 0xF0,
{
    assert(((limit as u16) as u32) | ((((flags & 0xF0 | ((limit >> 16u32) as u8) & 0x0F) & 0x0F)
        as u32) << 16u32) == limit & 0xF_FFFF) by (bit_vector);
    assert((flags & 0xF0 | ((limit >> 16u32) as u8) & 0x0F) & 0xF0 == flags & 0xF0)
        by (bit_vector);
}

/// Size in bytes of the 64-bit task state segment.
pub const TSS_SIZE: u32 = 104;

/// Offset of `rsp[0]` within the task state segment.
pub const TSS_RSP0_OFFSET: usize = 4;

/// Number of descriptors in the per-CPU GDT.
pub const GDT_ENTRIES: usize = 8;

/// Byte offsets of the fields of the per-CPU control region, in order: the
/// end of thread-local storage, the user stack pointer saved on `syscall`,
/// the TSS, a pointer to the region itself, and the GDT.
pub const PCR_TCB_END: usize = 0;
pub const PCR_USER_RSP_TMP: usize = 8;
pub const PCR_TSS: usize = 16;
pub const PCR_SELF_REF: usize = 120;
pub const PCR_GDT: usize = 128;
pub const PCR_SIZE: usize = 192;

/// The control region's layout: fields follow one another without overlap,
/// the TSS is 16-byte aligned and the GDT 8-byte aligned, so the paranoid
/// entry path can find the region from the GDT base alone.
pub proof fn lemma_pcr_layout()
    ensures
        PCR_USER_RSP_TMP == PCR_TCB_END + 8,
        PCR_TSS == PCR_USER_RSP_TMP + 8,
        PCR_SELF_REF == PCR_TSS + TSS_SIZE,
        PCR_GDT == PCR_SELF_REF + 8,
        PCR_SIZE == PCR_GDT + GDT_ENTRIES * 8,
        PCR_TSS % 16 == 0,
        PCR_GDT % 8 == 0,
        PCR_SIZE <= 4096,
{
}

/// The base of the control region whose GDT starts at `gdt_base`.
pub fn pcr_from_gdt(gdt_base: usize) -> (r: usize)
    requires
        gdt_base >= PCR_GDT,
    ensures
        r + PCR_GDT == gdt_base,
{
    gdt_base - PCR_GDT
}

/// The address of the kernel stack slot that `syscall` entry loads, in the
/// control region at `pcr`.
pub fn kernel_stack_slot(pcr: usize) -> (r: usize)
    requires
        pcr + PCR_TSS + TSS_RSP0_OFFSET <= usize::MAX,
    ensures
        r == pcr + PCR_TSS + TSS_RSP0_OFFSET,
{
    pcr + PCR_TSS + TSS_RSP0_OFFSET
}

/// The access byte and flags of each slot of the per-CPU GDT.
pub open spec fn slot_bits(i: int) -> (u8, u8) {
    if i == GDT_KERNEL_CODE {
        (GDT_A_PRESENT | GDT_A_RING_0 | GDT_A_SYSTEM | GDT_A_EXECUTABLE | GDT_A_PRIVILEGE, GDT_F_LONG_MODE)
    } else if i == GDT_KERNEL_DATA {
        (GDT_A_PRESENT | GDT_A_RING_0 | GDT_A_SYSTEM | GDT_A_PRIVILEGE, GDT_F_LONG_MODE)
    } else if i == GDT_USER_CODE32_UNUSED {
        (GDT_A_PRESENT | GDT_A_RING_0 | GDT_A_SYSTEM | GDT_A_EXECUTABLE | GDT_A_PRIVILEGE, GDT_F_PROTECTED_MODE)
    } else if i == GDT_USER_DATA {
        (GDT_A_PRESENT | GDT_A_RING_3 | GDT_A_SYSTEM | GDT_A_PRIVILEGE, GDT_F_LONG_MODE)
    } else if i == GDT_USER_CODE {
        (GDT_A_PRESENT | GDT_A_RING_3 | GDT_A_SYSTEM | GDT_A_EXECUTABLE | GDT_A_PRIVILEGE, GDT_F_LONG_MODE)
    } else if i == GDT_TSS {
        (GDT_A_PRESENT | GDT_A_RING_3 | GDT_A_TSS_AVAIL, 0)
    } else {
        (0, 0)
    }
}

/// A descriptor with zero base and limit and the given access and flags.
pub open spec fn flat(access: u8, flags: u8) -> GdtEntry {
    GdtEntry {
        limitl: 0,
        offsetl: 0,
        offsetm: 0,
        access,
        flags_limith: flags & 0xF0,
        offseth: 0,
    }
}

/// The template of the per-CPU GDT, before the TSS is patched in: null,
/// kernel code and data, the unused 32-bit user code that `sysret` expects,
/// user data, user code, and the two halves of the TSS descriptor.
pub fn base_gdt() -> (r: Vec<GdtEntry>)
    ensures
        r@.len() == GDT_ENTRIES,
        forall|i: int| 0 <= i < GDT_ENTRIES ==> #[trigger] r@[i] == flat(slot_bits(i).0, slot_bits(i).1),
{
    let mut r: Vec<GdtEntry> = Vec::new();
    r.push(GdtEntry::new(0, 0, 0, 0));
    r.push(GdtEntry::new(0, 0, GDT_A_PRESENT | GDT_A_RING_0 | GDT_A_SYSTEM | GDT_A_EXECUTABLE | GDT_A_PRIVILEGE, GDT_F_LONG_MODE));
    r.push(GdtEntry::new(0, 0, GDT_A_PRESENT | GDT_A_RING_0 | GDT_A_SYSTEM | GDT_A_PRIVILEGE, GDT_F_LONG_MODE));
    r.push(GdtEntry::new(0, 0, GDT_A_PRESENT | GDT_A_RING_0 | GDT_A_SYSTEM | GDT_A_EXECUTABLE | GDT_A_PRIVILEGE, GDT_F_PROTECTED_MODE));
    r.push(GdtEntry::new(0, 0, GDT_A_PRESENT | GDT_A_RING_3 | GDT_A_SYSTEM | GDT_A_PRIVILEGE, GDT_F_LONG_MODE));
    r.push(GdtEntry::new(0, 0, GDT_A_PRESENT | GDT_A_RING_3 | GDT_A_SYSTEM | GDT_A_EXECUTABLE | GDT_A_PRIVILEGE, GDT_F_LONG_MODE));
    r.push(GdtEntry::new(0, 0, GDT_A_PRESENT | GDT_A_RING_3 | GDT_A_TSS_AVAIL, 0));
    r.push(GdtEntry::new(0, 0, 0, 0));
    proof {
        assert(0u32 & 0xF_FFFF == 0) by (bit_vector);
        assert forall|i: int| 0 <= i < GDT_ENTRIES implies #[trigger] r@[i] == flat(slot_bits(i).0, slot_bits(i).1) by {
            lemma_flat_is_new(r@[i], slot_bits(i).0, slot_bits(i).1);
        };
    }
    r
}

/// The minimal GDT loaded before the kernel controls its memory: null,
/// kernel code, kernel data.
pub fn init_gdt() -> (r: Vec<GdtEntry>)
    ensures
        r@.len() == 3,
        forall|i: int| 0 <= i < 3 ==> #[trigger] r@[i] == flat(slot_bits(i).0, slot_bits(i).1),
{
    let mut r = base_gdt();
    r.truncate(3);
    r
}

proof fn lemma_flat_is_new(e: GdtEntry, access: u8, flags: u8)
    requires
        entry_offset(e) == 0,
        entry_limit(e) == 0,
        entry_flags(e) == flags & 0xF0,
        e.access == access,
    ensures
        e == flat(access, flags),
{
    let (a, b, c, d, f) = (e.limitl, e.offsetl, e.offsetm, e.offseth, e.flags_limith);
    assert(a == 0 && b == 0 && c == 0 && d == 0) by (bit_vector)
        requires
            (b as u32) | ((c as u32) << 16u32) | ((d as u32) << 24u32) == 0,
            (a as u32) | (((f & 0x0F) as u32) << 16u32) == 0,
    ;
    assert(f == f & 0xF0) by (bit_vector)
        requires
            (a as u32) | (((f & 0x0F) as u32) << 16u32) == 0,
    ;
}

/// The GDT register's limit for a table of `n` descriptors.
pub fn gdt_limit(n: usize) -> (r: u16)
    requires
        1 <= n <= 8192,
    ensures
        r == n * 8 - 1,
{
    (n * 8 - 1) as u16
}

/// Points the TSS descriptor (slots 6 and 7) at a TSS at address `tss`: the
/// low slot takes the low 32 bits of the base and the TSS size as limit, the
/// first 4 bytes of the high slot the high 32 bits of the base.
pub fn install_tss(gdt: &mut Vec<GdtEntry>, tss: u64)
    requires
        old(gdt)@.len() == GDT_ENTRIES,
    ensures
        final(gdt)@.len() == GDT_ENTRIES,
        forall|i: int| 0 <= i < GDT_TSS ==> #[trigger] final(gdt)@[i] == old(gdt)@[i],
        entry_offset(final(gdt)@[GDT_TSS as int]) == tss as u32,
        entry_limit(final(gdt)@[GDT_TSS as int]) == TSS_SIZE,
        final(gdt)@[GDT_TSS as int].access == old(gdt)@[GDT_TSS as int].access,
        entry_flags(final(gdt)@[GDT_TSS as int]) == entry_flags(old(gdt)@[GDT_TSS as int]),
        (final(gdt)@[GDT_TSS_HIGH as int].limitl as u32) | ((final(gdt)@[GDT_TSS_HIGH as int].offsetl as u32) << 16u32) == (tss >> 32u64) as u32,
{
    let lo = tss as u32;
    let hi = (tss >> 32u64) as u32;
    let mut e = gdt[GDT_TSS];
    e.set_offset(lo);
    e.set_limit(TSS_SIZE);
    assert(TSS_SIZE & 0xF_FFFF == TSS_SIZE) by (bit_vector);
    gdt.set(GDT_TSS, e);
    let mut h = gdt[GDT_TSS_HIGH];
    h.limitl = hi as u16;
    h.offsetl = (hi >> 16u32) as u16;
    assert(((hi as u16) as u32) | ((((hi >> 16u32) as u16) as u32) << 16u32) == hi) by (bit_vector);
    gdt.set(GDT_TSS_HIGH, h);
}

/// Where the per-CPU thread-local block goes: its size, the offset of the
/// zero-filled part, and its number of pages.
#[derive(Copy, Clone, Debug, PartialEq, Eq, Structural)]
pub struct TlsLayout {
    pub size: usize,
    pub tbss_offset: usize,
    pub pages: usize,
}

pub const PAGE_SIZE: usize = 4096;

/// The layout of the thread-local block from the linker's section bounds.
pub fn percpu_layout(tdata_start: usize, tbss_start: usize, tbss_end: usize) -> (r: TlsLayout)
    requires
        tdata_start <= tbss_start <= tbss_end,
        (tbss_end - tdata_start) as usize % PAGE_SIZE == 0,
    ensures
        r.size == tbss_end - tdata_start,
        r.tbss_offset == tbss_start - tdata_start,
        r.pages * PAGE_SIZE == r.size,
{
    let size = tbss_end - tdata_start;
    TlsLayout { size, tbss_offset: tbss_start - tdata_start, pages: size / PAGE_SIZE }
}

/// The end of a thread-local block of `size` bytes placed at `base`: the
/// pointer the kernel installs as its thread-control-block end.
pub fn tls_end(base: usize, size: usize) -> (r: usize)
    requires
        base + size <= usize::MAX,
    ensures
        r == base + size,
{
    base + size
}

} // verus!
