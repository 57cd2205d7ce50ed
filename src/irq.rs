//! The IRQ scheme: handles that count interrupt arrivals and acknowledge
//! them, plus directory listings of the CPUs and of their free vectors.
//!
//! Paths: `""` lists the CPUs, `bsp` names the bootstrap CPU's APIC id, `N`
//! (N < 16) is a shared legacy IRQ, `cpu-XX` lists the free IRQs of CPU XX,
//! and `cpu-XX/N` (N < 224) reserves IRQ N on that CPU.

use vstd::prelude::*;
use vstd::string::StringSliceAdditionalSpecFns;

use crate::error::Error;
use crate::flag::{
    EVENT_READ, MODE_CHR, MODE_DIR, O_CREAT, O_DIRECTORY, O_STAT, SEEK_CUR, SEEK_END, SEEK_SET,
    SchemeEvent, SchemeId, Stat,
};
use crate::text::{
    dec_text, hex2_spaced_text, hex2_text, parse_u8, parse_u8_radix, push_dec, push_hex2,
    push_hex2_spaced, skip_slashes, trim_end, trim_end_slashes,
    trim_start_slashes, NEWLINE, SLASH,
};

verus! {

/// IRQs 0..=15 (vectors 32..=47): shared, opened without `O_CREAT`.
pub const BASE_IRQ_COUNT: u8 = 16;

/// IRQs 16..=223 (vectors 48..=255): reserved per CPU by the handle that
/// opens them with `O_CREAT`, and released when it is closed.
pub const TOTAL_IRQ_COUNT: u8 = 224;

/// Size in bytes of the machine word that IRQ handles read and write.
pub const WORD_SIZE: usize = 8;

/// Number of vector slots per CPU in the reservation table.
pub const VECTORS: usize = 256;

pub const MAX_CPUS: usize = 256;

pub const INO_TOPLEVEL: u64 = 0x8002_0000_0000_0000;
pub const INO_AVAIL: u64 = 0x8000_0000_0000_0000;
pub const INO_BSP: u64 = 0x8001_0000_0000_0000;

pub fn irq_to_vector(irq: u8) -> (r: u8)
    requires
        irq < TOTAL_IRQ_COUNT,
    ensures
        r == irq + 32,
{
    irq + 32
}

pub fn vector_to_irq(vector: u8) -> (r: u8)
    requires
        vector >= 32,
    ensures
        r == vector - 32,
{
    vector - 32
}

/// An open handle of the IRQ scheme.
pub enum Handle {
    /// Counts arrivals of `irq`; `ack` is the count last acknowledged, and
    /// `reserved_on` the CPU whose vector this handle reserved, if any.
    Irq { ack: u64, irq: u8, reserved_on: Option<u8> },
    /// Listing of the free IRQs of a CPU: CPU id, text, read offset.
    Avail(u8, Vec<u8>, usize),
    /// Listing of the CPUs: text, read offset.
    TopLevel(Vec<u8>, usize),
    /// The bootstrap CPU's APIC id.
    Bsp,
}

pub enum HandleView {
    Irq { ack: u64, irq: u8, reserved_on: Option<u8> },
    Avail { cpu: u8, data: Seq<u8>, offset: usize },
    TopLevel { data: Seq<u8>, offset: usize },
    Bsp,
}

impl View for Handle {
    type V = HandleView;

    open spec fn view(&self) -> HandleView {
        match self {
            Handle::Irq { ack, irq, reserved_on } => HandleView::Irq {
                ack: *ack,
                irq: *irq,
                reserved_on: *reserved_on,
            },
            Handle::Avail(cpu, data, offset) => HandleView::Avail {
                cpu: *cpu,
                data: data@,
                offset: *offset,
            },
            Handle::TopLevel(data, offset) => HandleView::TopLevel { data: data@, offset: *offset },
            Handle::Bsp => HandleView::Bsp,
        }
    }
}

impl Handle {
    /// The acknowledged count and the IRQ of a counting handle.
    pub fn as_irq_handle(&self) -> (r: Option<(u64, u8)>)
        ensures
            match self@ {
                HandleView::Irq { ack, irq, .. } => r == Some((ack, irq)),
                _ => r is None,
            },
    {
        match self {
            Handle::Irq { ack, irq, .. } => Some((*ack, *irq)),
            _ => None,
        }
    }
}

pub struct IrqSchemeView {
    pub scheme_id: SchemeId,
    pub next_fd: usize,
    pub cpus: Seq<u8>,
    pub bsp: Option<u32>,
    pub counts: Seq<u64>,
    pub reserved: Seq<bool>,
    pub handles: Seq<(usize, HandleView)>,
    pub events: Seq<SchemeEvent>,
}

/// The reservation slot of a vector on a CPU.
pub open spec fn slot(cpu: u8, vector: int) -> int {
    cpu as int * VECTORS as int + vector
}

pub open spec fn is_reserved_in(s: IrqSchemeView, cpu: u8, vector: int) -> bool {
    s.reserved[slot(cpu, vector)]
}

/// Whether handle id `fd` is open.
pub open spec fn has_fd(s: IrqSchemeView, fd: usize) -> bool {
    exists|i: int| 0 <= i < s.handles.len() && #[trigger] s.handles[i].0 == fd
}

/// The position of handle id `fd` in the table.
pub open spec fn fd_index(s: IrqSchemeView, fd: usize) -> int {
    choose|i: int| 0 <= i < s.handles.len() && #[trigger] s.handles[i].0 == fd
}

/// The handle that `fd` names.
pub open spec fn handle_of(s: IrqSchemeView, fd: usize) -> HandleView {
    s.handles[fd_index(s, fd)].1
}

impl IrqSchemeView {
    pub open spec fn wf(self) -> bool {
        &&& self.counts.len() == TOTAL_IRQ_COUNT
        &&& self.reserved.len() == MAX_CPUS * VECTORS
        &&& forall|i: int, j: int|
            0 <= i < j < self.handles.len() ==> self.handles[i].0 < self.handles[j].0
        &&& forall|i: int| 0 <= i < self.handles.len() ==> self.handles[i].0 < self.next_fd
        &&& forall|i: int| #![trigger self.handles[i]]
            0 <= i < self.handles.len() ==> match self.handles[i].1 {
                HandleView::Irq { ack, irq, .. } => irq < TOTAL_IRQ_COUNT && ack
                    <= self.counts[irq as int],
                _ => true,
            }
    }
}

/// The IRQ scheme: arrival counts, per-CPU vector reservations, and the
/// open handles in increasing id order.
pub struct IrqScheme {
    scheme_id: SchemeId,
    next_fd: usize,
    cpus: Vec<u8>,
    bsp: Option<u32>,
    counts: Vec<u64>,
    reserved: Vec<bool>,
    handles: Vec<(usize, Handle)>,
    events: Vec<SchemeEvent>,
}

pub open spec fn handle_views(hs: Seq<(usize, Handle)>) -> Seq<(usize, HandleView)> {
    hs.map_values(|e: (usize, Handle)| (e.0, e.1@))
}

impl View for IrqScheme {
    type V = IrqSchemeView;

    closed spec fn view(&self) -> IrqSchemeView {
        IrqSchemeView {
            scheme_id: self.scheme_id,
            next_fd: self.next_fd,
            cpus: self.cpus@,
            bsp: self.bsp,
            counts: self.counts@,
            reserved: self.reserved@,
            handles: handle_views(self.handles@),
            events: self.events@,
        }
    }
}

pub open spec fn cpu_prefix() -> Seq<u8> {
    seq![0x63u8, 0x70u8, 0x75u8, 0x2du8]
}

pub open spec fn bsp_name() -> Seq<u8> {
    seq![0x62u8, 0x73u8, 0x70u8]
}

pub open spec fn scheme_prefix() -> Seq<u8> {
    seq![0x69u8, 0x72u8, 0x71u8, 0x3au8]
}

/// One line of the root listing: `cpu-XX`.
pub open spec fn cpu_line(c: u8) -> Seq<u8> {
    cpu_prefix() + hex2_text(c) + seq![NEWLINE]
}

pub open spec fn cpu_lines(cpus: Seq<u8>) -> Seq<u8>
    decreases cpus.len(),
{
    if cpus.len() == 0 {
        seq![]
    } else {
        cpu_lines(cpus.drop_last()) + cpu_line(cpus.last())
    }
}

/// The root listing: one line per CPU, then `bsp` when the bootstrap CPU is
/// known.
pub open spec fn toplevel_listing(cpus: Seq<u8>, bsp: Option<u32>) -> Seq<u8> {
    cpu_lines(cpus) + if bsp is Some {
        bsp_name() + seq![NEWLINE]
    } else {
        seq![]
    }
}

/// Whether a CPU's listing shows `irq`: its vector is free, and it is not a
/// legacy IRQ of the bootstrap CPU.
pub open spec fn listed(s: IrqSchemeView, cpu: u8, irq: nat) -> bool {
    !is_reserved_in(s, cpu, irq as int + 32) && !(s.bsp == Some(cpu as u32) && irq < BASE_IRQ_COUNT)
}

pub open spec fn avail_lines(s: IrqSchemeView, cpu: u8, n: nat) -> Seq<u8>
    decreases n,
{
    if n == 0 {
        seq![]
    } else {
        avail_lines(s, cpu, (n - 1) as nat) + if listed(s, cpu, (n - 1) as nat) {
            dec_text((n - 1) as u8) + seq![NEWLINE]
        } else {
            seq![]
        }
    }
}

/// The listing of the free IRQs of a CPU, one decimal number per line.
pub open spec fn avail_listing(s: IrqSchemeView, cpu: u8) -> Seq<u8> {
    avail_lines(s, cpu, TOTAL_IRQ_COUNT as nat)
}

pub open spec fn counting(irq: u8, reserved_on: Option<u8>) -> HandleView {
    HandleView::Irq { ack: 0, irq, reserved_on }
}

/// The handle that `cpu-XX/<t>` opens, before any reservation is made.
pub open spec fn ext_irq_handle(s: IrqSchemeView, flags: usize, cpu: u8, t: Seq<u8>) -> Result<
    HandleView,
    Error,
> {
    match parse_u8_radix(t, 10) {
        None => Err(Error::NoEntity),
        Some(n) => if n < BASE_IRQ_COUNT && s.bsp == Some(cpu as u32) {
            Ok(counting(n, None))
        } else if n < TOTAL_IRQ_COUNT {
            if flags & O_CREAT == 0 && flags & O_STAT == 0 {
                Err(Error::InvalidArgument)
            } else if flags & O_STAT != 0 {
                Ok(counting(n, None))
            } else if is_reserved_in(s, cpu, n + 32) {
                Err(Error::AlreadyExists)
            } else {
                Ok(counting(n, Some(cpu)))
            }
        } else {
            Err(Error::NoEntity)
        },
    }
}

/// The handle that a path (leading slashes removed) opens.
pub open spec fn handle_for(s: IrqSchemeView, p: Seq<u8>, flags: usize) -> Result<
    HandleView,
    Error,
> {
    if p.len() == 0 {
        if flags & O_DIRECTORY == 0 && flags & O_STAT == 0 {
            Err(Error::IsDirectory)
        } else {
            Ok(HandleView::TopLevel { data: toplevel_listing(s.cpus, s.bsp), offset: 0 })
        }
    } else if p == bsp_name() {
        if s.bsp is None {
            Err(Error::NoEntity)
        } else {
            Ok(HandleView::Bsp)
        }
    } else if p.len() >= 4 && p.take(4) == cpu_prefix() {
        let rest = p.skip(4);
        if rest.len() < 2 {
            Err(Error::NoEntity)
        } else {
            match parse_u8_radix(rest.take(2), 16) {
                None => Err(Error::NoEntity),
                Some(cpu) => {
                    let t = trim_end_slashes(rest.skip(2));
                    if t.len() == 0 {
                        Ok(HandleView::Avail { cpu, data: avail_listing(s, cpu), offset: 0 })
                    } else if t[0] == SLASH {
                        ext_irq_handle(s, flags, cpu, t.skip(1))
                    } else {
                        Err(Error::NoEntity)
                    }
                },
            }
        }
    } else {
        match parse_u8_radix(p, 10) {
            Some(n) => if n < BASE_IRQ_COUNT {
                Ok(counting(n, None))
            } else {
                Err(Error::NoEntity)
            },
            None => Err(Error::NoEntity),
        }
    }
}

/// What `open` does: the new handle takes the next id, and a handle that
/// reserves a vector marks it reserved.
pub open spec fn open_spec(s: IrqSchemeView, path: Seq<u8>, flags: usize, uid: u32) -> (
    IrqSchemeView,
    Result<usize, Error>,
) {
    if uid != 0 {
        (s, Err(Error::NotPermitted))
    } else if s.next_fd == usize::MAX {
        (s, Err(Error::BadFileDescriptorState))
    } else {
        match handle_for(s, trim_start_slashes(path), flags) {
            Err(e) => (s, Err(e)),
            Ok(h) => {
                let reserved = match h {
                    HandleView::Irq { irq, reserved_on: Some(c), .. } => s.reserved.update(
                        slot(c, irq + 32),
                        true,
                    ),
                    _ => s.reserved,
                };
                (
                    IrqSchemeView {
                        next_fd: (s.next_fd + 1) as usize,
                        reserved,
                        handles: s.handles.push((s.next_fd, h)),
                        ..s
                    },
                    Ok(s.next_fd),
                )
            },
        }
    }
}

proof fn lemma_handle_views_push(hs: Seq<(usize, Handle)>, e: (usize, Handle))
    ensures
        handle_views(hs.push(e)) == handle_views(hs).push((e.0, e.1@)),
{
    assert(handle_views(hs.push(e)) =~= handle_views(hs).push((e.0, e.1@)));
}

/// In a well-formed table, the handle at position `i` is the one its id names.
pub proof fn lemma_fd_index(s: IrqSchemeView, i: int)
    requires
        s.wf(),
        0 <= i < s.handles.len(),
    ensures
        has_fd(s, s.handles[i].0),
        fd_index(s, s.handles[i].0) == i,
{
    let fd = s.handles[i].0;
    assert(has_fd(s, fd));
    let j = fd_index(s, fd);
    if j < i {
        assert(s.handles[j].0 < s.handles[i].0);
    } else if j > i {
        assert(s.handles[i].0 < s.handles[j].0);
    }
}

impl IrqScheme {
    /// A scheme over the given CPUs (by APIC id), with no handle open and no
    /// vector reserved.
    pub fn new(scheme_id: SchemeId, cpus: Vec<u8>, bsp: Option<u32>) -> (r: IrqScheme)
        ensures
            r@.wf(),
            r@.scheme_id == scheme_id,
            r@.next_fd == 0,
            r@.cpus == cpus@,
            r@.bsp == bsp,
            forall|i: int| 0 <= i < TOTAL_IRQ_COUNT ==> r@.counts[i] == 0,
            forall|i: int| 0 <= i < MAX_CPUS * VECTORS ==> !r@.reserved[i],
            r@.handles.len() == 0,
            r@.events.len() == 0,
    {
        let mut counts: Vec<u64> = Vec::new();
        let mut i: usize = 0;
        while i < TOTAL_IRQ_COUNT as usize
            invariant
                i <= TOTAL_IRQ_COUNT,
                counts@.len() == i,
                forall|k: int| 0 <= k < i ==> counts@[k] == 0,
            decreases TOTAL_IRQ_COUNT - i,
        {
            counts.push(0);
            i = i + 1;
        }
        let mut reserved: Vec<bool> = Vec::new();
        let mut j: usize = 0;
        while j < MAX_CPUS * VECTORS
            invariant
                j <= MAX_CPUS * VECTORS,
                reserved@.len() == j,
                forall|k: int| 0 <= k < j ==> !reserved@[k],
            decreases MAX_CPUS * VECTORS - j,
        {
            reserved.push(false);
            j = j + 1;
        }
        let r = IrqScheme {
            scheme_id,
            next_fd: 0,
            cpus,
            bsp,
            counts,
            reserved,
            handles: Vec::new(),
            events: Vec::new(),
        };
        assert(r@.handles =~= Seq::<(usize, HandleView)>::empty());
        r
    }

    /// The number of arrivals of `irq` so far.
    pub fn count(&self, irq: u8) -> (r: u64)
        requires
            self@.wf(),
            irq < TOTAL_IRQ_COUNT,
        ensures
            r == self@.counts[irq as int],
    {
        self.counts[irq as usize]
    }

    /// Whether `vector` is reserved on `cpu`.
    pub fn is_reserved(&self, cpu: u8, vector: u8) -> (r: bool)
        requires
            self@.wf(),
        ensures
            r == is_reserved_in(self@, cpu, vector as int),
    {
        self.reserved[cpu as usize * VECTORS + vector as usize]
    }

    /// The position of handle `fd` in the table, if it is open.
    fn find(&self, fd: usize) -> (r: Option<usize>)
        requires
            self@.wf(),
        ensures
            match r {
                Some(i) => i < self@.handles.len() && self@.handles[i as int].0 == fd
                    && has_fd(self@, fd) && fd_index(self@, fd) == i,
                None => !has_fd(self@, fd),
            },
    {
        let mut i: usize = 0;
        while i < self.handles.len()
            invariant
                self@.wf(),
                i <= self@.handles.len(),
                forall|k: int| 0 <= k < i ==> self@.handles[k].0 != fd,
            decreases self@.handles.len() - i,
        {
            assert(self@.handles[i as int].0 == self.handles@[i as int].0);
            if self.handles[i].0 == fd {
                proof {
                    lemma_fd_index(self@, i as int);
                }
                return Some(i);
            }
            i = i + 1;
        }
        None
    }

    fn toplevel_text(&self) -> (r: Vec<u8>)
        ensures
            r@ == toplevel_listing(self@.cpus, self@.bsp),
    {
        let mut out: Vec<u8> = Vec::new();
        let mut i: usize = 0;
        while i < self.cpus.len()
            invariant
                i <= self@.cpus.len(),
                out@ == cpu_lines(self@.cpus.take(i as int)),
            decreases self@.cpus.len() - i,
        {
            let c = self.cpus[i];
            let ghost before = out@;
            out.push(0x63);
            out.push(0x70);
            out.push(0x75);
            out.push(0x2d);
            push_hex2(&mut out, c);
            out.push(NEWLINE);
            assert(self@.cpus.take(i + 1).drop_last() =~= self@.cpus.take(i as int));
            assert(out@ =~= before + cpu_line(c));
            i = i + 1;
        }
        assert(self@.cpus.take(self@.cpus.len() as int) =~= self@.cpus);
        if self.bsp.is_some() {
            out.push(0x62);
            out.push(0x73);
            out.push(0x70);
            out.push(NEWLINE);
        }
        assert(out@ =~= toplevel_listing(self@.cpus, self@.bsp));
        out
    }

    fn avail_text(&self, cpu: u8) -> (r: Vec<u8>)
        requires
            self@.wf(),
        ensures
            r@ == avail_listing(self@, cpu),
    {
        let mut out: Vec<u8> = Vec::new();
        let mut irq: u8 = 0;
        let is_bsp = match self.bsp {
            Some(b) => b == cpu as u32,
            None => false,
        };
        while irq < TOTAL_IRQ_COUNT
            invariant
                self@.wf(),
                irq <= TOTAL_IRQ_COUNT,
                is_bsp == (self@.bsp == Some(cpu as u32)),
                out@ == avail_lines(self@, cpu, irq as nat),
            decreases TOTAL_IRQ_COUNT - irq,
        {
            let free = !self.reserved[cpu as usize * VECTORS + irq as usize + 32];
            if free && !(is_bsp && irq < BASE_IRQ_COUNT) {
                push_dec(&mut out, irq);
                out.push(NEWLINE);
            }
            assert(out@ =~= avail_lines(self@, cpu, (irq + 1) as nat));
            irq = irq + 1;
        }
        out
    }

    fn open_ext_irq(&self, flags: usize, cpu: u8, b: &[u8], from: usize, to: usize) -> (r: Result<
        Handle,
        Error,
    >)
        requires
            self@.wf(),
            from <= to <= b@.len(),
        ensures
            handle_result(r) == ext_irq_handle(self@, flags, cpu, b@.subrange(
                from as int,
                to as int,
            )),
    {
        let n = match parse_u8(b, from, to, 10) {
            Some(n) => n,
            None => return Err(Error::NoEntity),
        };
        let is_bsp = match self.bsp {
            Some(id) => id == cpu as u32,
            None => false,
        };
        if n < BASE_IRQ_COUNT && is_bsp {
            Ok(Handle::Irq { ack: 0, irq: n, reserved_on: None })
        } else if n < TOTAL_IRQ_COUNT {
            if flags & O_CREAT == 0 && flags & O_STAT == 0 {
                Err(Error::InvalidArgument)
            } else if flags & O_STAT != 0 {
                Ok(Handle::Irq { ack: 0, irq: n, reserved_on: None })
            } else if self.is_reserved(cpu, n + 32) {
                Err(Error::AlreadyExists)
            } else {
                Ok(Handle::Irq { ack: 0, irq: n, reserved_on: Some(cpu) })
            }
        } else {
            Err(Error::NoEntity)
        }
    }

    fn make_handle(&self, b: &[u8], start: usize, flags: usize) -> (r: Result<Handle, Error>)
        requires
            self@.wf(),
            start <= b@.len(),
        ensures
            handle_result(r) == handle_for(self@, b@.subrange(start as int, b@.len() as int), flags),
    {
        let n = b.len();
        let ghost p = b@.subrange(start as int, n as int);
        if start == n {
            if flags & O_DIRECTORY == 0 && flags & O_STAT == 0 {
                return Err(Error::IsDirectory);
            }
            return Ok(Handle::TopLevel(self.toplevel_text(), 0));
        }
        if n - start == 3 && b[start] == 0x62 && b[start + 1] == 0x73 && b[start + 2] == 0x70 {
            assert(p =~= bsp_name());
            if self.bsp.is_none() {
                return Err(Error::NoEntity);
            }
            return Ok(Handle::Bsp);
        }
        proof {
            if p == bsp_name() {
                assert(p[0] == 0x62 && p[1] == 0x73 && p[2] == 0x70);
            }
        }
        if n - start >= 4 && b[start] == 0x63 && b[start + 1] == 0x70 && b[start + 2] == 0x75
            && b[start + 3] == 0x2d {
            assert(p.take(4) =~= cpu_prefix());
            let ghost rest = p.skip(4);
            if n - start < 6 {
                return Err(Error::NoEntity);
            }
            assert(rest.take(2) =~= b@.subrange(start + 4, start + 6));
            let cpu = match parse_u8(b, start + 4, start + 6, 16) {
                Some(c) => c,
                None => return Err(Error::NoEntity),
            };
            assert(rest.skip(2) =~= b@.subrange(start + 6, n as int));
            let t_end = trim_end(b, start + 6, n);
            let ghost t = b@.subrange(start + 6, t_end as int);
            if t_end == start + 6 {
                return Ok(Handle::Avail(cpu, self.avail_text(cpu), 0));
            }
            assert(t[0] == b@[start + 6]);
            if b[start + 6] == SLASH {
                assert(t.skip(1) =~= b@.subrange(start + 7, t_end as int));
                return self.open_ext_irq(flags, cpu, b, start + 7, t_end);
            }
            return Err(Error::NoEntity);
        }
        proof {
            if p.len() >= 4 && p.take(4) == cpu_prefix() {
                assert(p.take(4)[0] == 0x63 && p.take(4)[1] == 0x70 && p.take(4)[2] == 0x75
                    && p.take(4)[3] == 0x2d);
            }
        }
        match parse_u8(b, start, n, 10) {
            Some(irq) => if irq < BASE_IRQ_COUNT {
                Ok(Handle::Irq { ack: 0, irq, reserved_on: None })
            } else {
                Err(Error::NoEntity)
            },
            None => Err(Error::NoEntity),
        }
    }

    /// Opens `path` for the user `uid`; only root may open IRQ resources.
    pub fn open(&mut self, path: &str, flags: usize, uid: u32, gid: u32) -> (r: Result<
        usize,
        Error,
    >)
        requires
            old(self)@.wf(),
        ensures
            (final(self)@, r) == open_spec(old(self)@, path.spec_bytes(), flags, uid),
            final(self)@.wf(),
    {
        if uid != 0 {
            return Err(Error::NotPermitted);
        }
        if self.next_fd == usize::MAX {
            return Err(Error::BadFileDescriptorState);
        }
        let b = path.as_bytes();
        let start = skip_slashes(b, 0);
        assert(b@.subrange(0, b@.len() as int) =~= b@);
        let h = match self.make_handle(b, start, flags) {
            Ok(h) => h,
            Err(e) => return Err(e),
        };
        let ghost hv = h@;
        let ghost s0 = self@;
        if let Handle::Irq { irq, reserved_on: Some(c), .. } = &h {
            let idx = *c as usize * VECTORS + *irq as usize + 32;
            self.reserved.set(idx, true);
        }
        let fd = self.next_fd;
        proof {
            lemma_handle_views_push(self.handles@, (fd, h));
        }
        self.handles.push((fd, h));
        self.next_fd = fd + 1;
        proof {
            let s1 = open_spec(s0, path.spec_bytes(), flags, uid).0;
            assert(self@ =~= s1);
            assert forall|i: int| #![trigger self@.handles[i]]
                0 <= i < self@.handles.len() implies match self@.handles[i].1 {
                HandleView::Irq { ack, irq, .. } => irq < TOTAL_IRQ_COUNT && ack
                    <= self@.counts[irq as int],
                _ => true,
            } by {
                if i < s0.handles.len() {
                    assert(self@.handles[i] == s0.handles[i]);
                } else {
                    assert(self@.handles[i] == (fd, hv));
                }
            };
        }
        Ok(fd)
    }
}

pub open spec fn handle_result(r: Result<Handle, Error>) -> Result<HandleView, Error> {
    match r {
        Ok(h) => Ok(h@),
        Err(e) => Err(e),
    }
}

/// The 8 little-endian bytes of a machine word.
pub open spec fn word_bytes(v: u64) -> Seq<u8> {
    seq![
        v as u8,
        (v >> 8u64) as u8,
        (v >> 16u64) as u8,
        (v >> 24u64) as u8,
        (v >> 32u64) as u8,
        (v >> 40u64) as u8,
        (v >> 48u64) as u8,
        (v >> 56u64) as u8,
    ]
}

/// The 4 little-endian bytes of a 32-bit value.
pub open spec fn u32_bytes(v: u32) -> Seq<u8> {
    seq![v as u8, (v >> 8u32) as u8, (v >> 16u32) as u8, (v >> 24u32) as u8]
}

/// The machine word that the first 8 bytes of `b` hold, little-endian.
pub open spec fn word_value(b: Seq<u8>) -> u64 {
    (b[0] as u64) | ((b[1] as u64) << 8u64) | ((b[2] as u64) << 16u64) | ((b[3] as u64)
        << 24u64) | ((b[4] as u64) << 32u64) | ((b[5] as u64) << 40u64) | ((b[6] as u64)
        << 48u64) | ((b[7] as u64) << 56u64)
}

/// The part of a listing at and after `offset`.
pub open spec fn listing_rest(data: Seq<u8>, offset: usize) -> Seq<u8> {
    if offset <= data.len() {
        data.skip(offset as int)
    } else {
        seq![]
    }
}

/// What reading at most `len` bytes from `fd` returns: the bytes placed in
/// the caller's buffer, and the count reported.
pub open spec fn read_outcome(s: IrqSchemeView, fd: usize, len: nat) -> Result<
    (Seq<u8>, usize),
    Error,
> {
    if !has_fd(s, fd) {
        Err(Error::BadDescriptor)
    } else {
        match handle_of(s, fd) {
            HandleView::Irq { ack, irq, .. } => if len < WORD_SIZE {
                Err(Error::InvalidArgument)
            } else if s.counts[irq as int] != ack {
                Ok((word_bytes(s.counts[irq as int]), WORD_SIZE))
            } else {
                Ok((seq![], 0))
            },
            HandleView::Bsp => if len < WORD_SIZE {
                Err(Error::InvalidArgument)
            } else {
                match s.bsp {
                    Some(id) => Ok((u32_bytes(id), WORD_SIZE)),
                    None => Err(Error::BadFileDescriptorState),
                }
            },
            HandleView::Avail { data, offset, .. } => {
                let rest = listing_rest(data, offset);
                let n = if len < rest.len() {
                    len
                } else {
                    rest.len()
                };
                Ok((rest.take(n as int), n as usize))
            },
            HandleView::TopLevel { data, offset } => {
                let rest = listing_rest(data, offset);
                let n = if len < rest.len() {
                    len
                } else {
                    rest.len()
                };
                Ok((rest.take(n as int), n as usize))
            },
        }
    }
}

/// A listing handle with its offset moved to `offset`.
pub open spec fn at_offset(h: HandleView, offset: usize) -> HandleView {
    match h {
        HandleView::Avail { cpu, data, .. } => HandleView::Avail { cpu, data, offset },
        HandleView::TopLevel { data, .. } => HandleView::TopLevel { data, offset },
        _ => h,
    }
}

pub open spec fn with_handle(s: IrqSchemeView, fd: usize, h: HandleView) -> IrqSchemeView {
    IrqSchemeView { handles: s.handles.update(fd_index(s, fd), (fd, h)), ..s }
}

/// The scheme after that read: a listing handle advances past what it gave.
pub open spec fn read_state(s: IrqSchemeView, fd: usize, len: nat) -> IrqSchemeView {
    match read_outcome(s, fd, len) {
        Ok((_, n)) => match handle_of(s, fd) {
            HandleView::Avail { offset, .. } => with_handle(
                s,
                fd,
                at_offset(handle_of(s, fd), (offset + n) as usize),
            ),
            HandleView::TopLevel { offset, .. } => with_handle(
                s,
                fd,
                at_offset(handle_of(s, fd), (offset + n) as usize),
            ),
            _ => s,
        },
        Err(_) => s,
    }
}

/// What writing `buf` to `fd` returns: the count written, and the IRQ to
/// acknowledge at the interrupt controller, when the word written equals
/// the current count.
pub open spec fn write_outcome(s: IrqSchemeView, fd: usize, buf: Seq<u8>) -> Result<
    (usize, Option<u8>),
    Error,
> {
    if !has_fd(s, fd) {
        Err(Error::BadDescriptor)
    } else {
        match handle_of(s, fd) {
            HandleView::Irq { irq, .. } => if buf.len() < WORD_SIZE {
                Err(Error::InvalidArgument)
            } else if word_value(buf) == s.counts[irq as int] {
                Ok((WORD_SIZE, Some(irq)))
            } else {
                Ok((0, None))
            },
            _ => Err(Error::BadDescriptor),
        }
    }
}

/// The scheme after that write: an accepted count becomes the handle's ack.
pub open spec fn write_state(s: IrqSchemeView, fd: usize, buf: Seq<u8>) -> IrqSchemeView {
    match write_outcome(s, fd, buf) {
        Ok((_, Some(irq))) => match handle_of(s, fd) {
            HandleView::Irq { reserved_on, .. } => with_handle(
                s,
                fd,
                HandleView::Irq { ack: s.counts[irq as int], irq, reserved_on },
            ),
            _ => s,
        },
        _ => s,
    }
}

/// The offset that a seek moves to: `pos` from the start, from `cur`, or
/// from the end `len`; it must land in `0..=isize::MAX`.
pub open spec fn seek_offset(cur: usize, pos: isize, whence: usize, len: nat) -> Result<
    isize,
    Error,
> {
    let target: int = if whence == SEEK_SET {
        pos as int
    } else if whence == SEEK_CUR {
        cur + pos
    } else {
        len + pos
    };
    if whence != SEEK_SET && whence != SEEK_CUR && whence != SEEK_END {
        Err(Error::InvalidArgument)
    } else if target < 0 || target > isize::MAX {
        Err(Error::InvalidArgument)
    } else {
        Ok(target as isize)
    }
}

pub open spec fn seek_outcome(s: IrqSchemeView, fd: usize, pos: isize, whence: usize) -> Result<
    isize,
    Error,
> {
    if !has_fd(s, fd) {
        Err(Error::BadDescriptor)
    } else {
        match handle_of(s, fd) {
            HandleView::Avail { data, offset, .. } => seek_offset(offset, pos, whence, data.len()),
            HandleView::TopLevel { data, offset } => seek_offset(offset, pos, whence, data.len()),
            _ => Err(Error::NotSeekable),
        }
    }
}

pub open spec fn seek_state(s: IrqSchemeView, fd: usize, pos: isize, whence: usize) -> IrqSchemeView {
    match seek_outcome(s, fd, pos, whence) {
        Ok(off) => with_handle(s, fd, at_offset(handle_of(s, fd), off as usize)),
        Err(_) => s,
    }
}

/// The scheme after closing `fd`: the handle is gone, and a vector it
/// reserved is free again.
pub open spec fn close_state(s: IrqSchemeView, fd: usize) -> IrqSchemeView {
    if !has_fd(s, fd) {
        s
    } else {
        let reserved = match handle_of(s, fd) {
            HandleView::Irq { irq, reserved_on: Some(c), .. } => s.reserved.update(
                slot(c, irq + 32),
                false,
            ),
            _ => s.reserved,
        };
        IrqSchemeView { reserved, handles: s.handles.remove(fd_index(s, fd)), ..s }
    }
}

pub open spec fn stat_of(s: IrqSchemeView, h: HandleView) -> Stat {
    match h {
        HandleView::Irq { irq, .. } => Stat {
            st_mode: MODE_CHR | 0o600,
            st_size: WORD_SIZE as u64,
            st_blksize: WORD_SIZE as u32,
            st_blocks: 1,
            st_ino: irq as u64,
            st_nlink: 1,
        },
        HandleView::Bsp => Stat {
            st_mode: MODE_CHR | 0o400,
            st_size: WORD_SIZE as u64,
            st_blksize: WORD_SIZE as u32,
            st_blocks: 1,
            st_ino: INO_BSP,
            st_nlink: 1,
        },
        HandleView::Avail { cpu, data, .. } => Stat {
            st_mode: MODE_DIR | 0o700,
            st_size: data.len() as u64,
            st_blksize: 0,
            st_blocks: 0,
            st_ino: INO_AVAIL | ((cpu as u64) << 32u64),
            st_nlink: 2,
        },
        HandleView::TopLevel { data, .. } => Stat {
            st_mode: MODE_DIR | 0o500,
            st_size: data.len() as u64,
            st_blksize: 0,
            st_blocks: 0,
            st_ino: INO_TOPLEVEL,
            st_nlink: 1,
        },
    }
}

/// The path by which a handle names itself.
pub open spec fn path_text(h: HandleView) -> Seq<u8> {
    match h {
        HandleView::Irq { irq, .. } => scheme_prefix() + dec_text(irq),
        HandleView::Bsp => scheme_prefix() + bsp_name(),
        HandleView::Avail { cpu, .. } => scheme_prefix() + cpu_prefix() + hex2_spaced_text(cpu),
        HandleView::TopLevel { .. } => scheme_prefix(),
    }
}

/// The events that an arrival of `irq` posts: one per counting handle of
/// that IRQ, in handle order.
pub open spec fn fanout(id: SchemeId, hs: Seq<(usize, HandleView)>, irq: u8) -> Seq<SchemeEvent>
    decreases hs.len(),
{
    if hs.len() == 0 {
        seq![]
    } else {
        fanout(id, hs.drop_last(), irq) + match hs.last().1 {
            HandleView::Irq { irq: i, .. } => if i == irq {
                seq![SchemeEvent { scheme: id, id: hs.last().0, flags: EVENT_READ }]
            } else {
                seq![]
            },
            _ => seq![],
        }
    }
}

/// The scheme after an arrival of `irq`.
pub open spec fn trigger_state(s: IrqSchemeView, irq: u8) -> IrqSchemeView {
    IrqSchemeView {
        counts: s.counts.update(irq as int, (s.counts[irq as int] + 1) as u64),
        events: s.events + fanout(s.scheme_id, s.handles, irq),
        ..s
    }
}

proof fn lemma_handle_views_update(hs: Seq<(usize, Handle)>, i: int, e: (usize, Handle))
    requires
        0 <= i < hs.len(),
    ensures
        handle_views(hs.update(i, e)) == handle_views(hs).update(i, (e.0, e.1@)),
{
    assert(handle_views(hs.update(i, e)) =~= handle_views(hs).update(i, (e.0, e.1@)));
}

proof fn lemma_handle_views_remove(hs: Seq<(usize, Handle)>, i: int)
    requires
        0 <= i < hs.len(),
    ensures
        handle_views(hs.remove(i)) == handle_views(hs).remove(i),
{
    assert(handle_views(hs.remove(i)) =~= handle_views(hs).remove(i));
}

fn word_bytes_of(v: u64) -> (r: Vec<u8>)
    ensures
        r@ == word_bytes(v),
{
    let r = vec![
        v as u8,
        (v >> 8u64) as u8,
        (v >> 16u64) as u8,
        (v >> 24u64) as u8,
        (v >> 32u64) as u8,
        (v >> 40u64) as u8,
        (v >> 48u64) as u8,
        (v >> 56u64) as u8,
    ];
    assert(r@ =~= word_bytes(v));
    r
}

fn u32_bytes_of(v: u32) -> (r: Vec<u8>)
    ensures
        r@ == u32_bytes(v),
{
    let r = vec![v as u8, (v >> 8u32) as u8, (v >> 16u32) as u8, (v >> 24u32) as u8];
    assert(r@ =~= u32_bytes(v));
    r
}

fn word_of(b: &[u8]) -> (r: u64)
    requires
        b@.len() >= WORD_SIZE,
    ensures
        r == word_value(b@),
{
    (b[0] as u64) | ((b[1] as u64) << 8u64) | ((b[2] as u64) << 16u64) | ((b[3] as u64)
        << 24u64) | ((b[4] as u64) << 32u64) | ((b[5] as u64) << 40u64) | ((b[6] as u64)
        << 48u64) | ((b[7] as u64) << 56u64)
}

pub open spec fn read_result(r: Result<(Vec<u8>, usize), Error>) -> Result<(Seq<u8>, usize), Error> {
    match r {
        Ok((v, n)) => Ok((v@, n)),
        Err(e) => Err(e),
    }
}

pub open spec fn bytes_result(r: Result<Vec<u8>, Error>) -> Result<Seq<u8>, Error> {
    match r {
        Ok(v) => Ok(v@),
        Err(e) => Err(e),
    }
}

/// Copies at most `len` bytes of `data` from `offset` on.
fn listing_read(data: &Vec<u8>, offset: usize, len: usize) -> (r: (Vec<u8>, usize))
    ensures
        ({
            let rest = listing_rest(data@, offset);
            let n = if len < rest.len() {
                len as nat
            } else {
                rest.len()
            };
            r.0@ == rest.take(n as int) && r.1 == n && (r.1 > 0 ==> offset + r.1 <= data@.len())
        }),
        offset + r.1 <= usize::MAX,
{
    let mut out: Vec<u8> = Vec::new();
    let dlen = data.len();
    if offset > dlen {
        assert(out@ =~= Seq::<u8>::empty().take(0));
        return (out, 0);
    }
    let avail = data.len() - offset;
    let n = if len < avail {
        len
    } else {
        avail
    };
    let mut i: usize = 0;
    while i < n
        invariant
            dlen == data@.len(),
            offset + n <= dlen,
            i <= n,
            out@ == data@.subrange(offset as int, offset + i),
        decreases n - i,
    {
        out.push(data[offset + i]);
        assert(out@ =~= data@.subrange(offset as int, offset + i + 1));
        i = i + 1;
    }
    assert(data@.skip(offset as int).take(n as int) =~= data@.subrange(
        offset as int,
        offset + n,
    ));
    (out, n)
}

impl IrqScheme {
    /// Replaces the handle at position `i`, keeping its id.
    fn replace_handle(&mut self, i: usize, h: Handle) -> (old_h: Handle)
        requires
            i < old(self)@.handles.len(),
        ensures
            old_h@ == old(self)@.handles[i as int].1,
            final(self)@ == (IrqSchemeView {
                handles: old(self)@.handles.update(i as int, (old(self)@.handles[i as int].0, h@)),
                ..old(self)@
            }),
    {
        let (fd, old_h) = self.handles.remove(i);
        proof {
            lemma_handle_views_remove(old(self).handles@, i as int);
            assert(old(self).handles@.remove(i as int).insert(i as int, (fd, h)) =~= old(
                self,
            ).handles@.update(i as int, (fd, h)));
            lemma_handle_views_update(old(self).handles@, i as int, (fd, h));
        }
        self.handles.insert(i, (fd, h));
        proof {
            assert(self@ =~= (IrqSchemeView {
                handles: old(self)@.handles.update(i as int, (fd, h@)),
                ..old(self)@
            }));
        }
        old_h
    }

    /// Reads from `fd` into a buffer of `len` bytes: returns the bytes to
    /// place there and the count to report.
    pub fn kread(&mut self, fd: usize, len: usize) -> (r: Result<(Vec<u8>, usize), Error>)
        requires
            old(self)@.wf(),
        ensures
            read_result(r) == read_outcome(old(self)@, fd, len as nat),
            final(self)@ == read_state(old(self)@, fd, len as nat),
            final(self)@.wf(),
    {
        let i = match self.find(fd) {
            Some(i) => i,
            None => return Err(Error::BadDescriptor),
        };
        assert(handle_of(self@, fd) == self@.handles[i as int].1);
        assert(self@.handles[i as int].1 == self.handles@[i as int].1@);
        match &self.handles[i].1 {
            Handle::Irq { ack, irq, .. } => {
                assert(*irq < TOTAL_IRQ_COUNT);
                if len < WORD_SIZE {
                    return Err(Error::InvalidArgument);
                }
                let current = self.counts[*irq as usize];
                if *ack != current {
                    return Ok((word_bytes_of(current), WORD_SIZE));
                } else {
                    return Ok((Vec::new(), 0));
                }
            },
            Handle::Bsp => {
                if len < WORD_SIZE {
                    return Err(Error::InvalidArgument);
                }
                match self.bsp {
                    Some(id) => return Ok((u32_bytes_of(id), WORD_SIZE)),
                    None => return Err(Error::BadFileDescriptorState),
                }
            },
            _ => {},
        }
        let ghost s0 = self@;
        let taken = self.replace_handle(i, Handle::Bsp);
        let (new_h, out, n) = match taken {
            Handle::Avail(cpu, data, offset) => {
                let (out, n) = listing_read(&data, offset, len);
                let off = if n > 0 {
                    offset + n
                } else {
                    offset
                };
                (Handle::Avail(cpu, data, off), out, n)
            },
            Handle::TopLevel(data, offset) => {
                let (out, n) = listing_read(&data, offset, len);
                let off = if n > 0 {
                    offset + n
                } else {
                    offset
                };
                (Handle::TopLevel(data, off), out, n)
            },
            h => (h, Vec::new(), 0),
        };
        self.replace_handle(i, new_h);
        proof {
            assert(s0.handles.update(i as int, (fd, HandleView::Bsp)).update(i as int, (fd, new_h@))
                =~= s0.handles.update(i as int, (fd, new_h@)));
            assert(self@ =~= read_state(s0, fd, len as nat));
            assert forall|k: int| #![trigger self@.handles[k]]
                0 <= k < self@.handles.len() implies self@.handles[k].0 == s0.handles[k].0 && (
            self@.handles[k].1 is Irq ==> self@.handles[k].1 == s0.handles[k].1) by {};
        }
        Ok((out, n))
    }

    /// Writes `buf` to `fd`: a counting handle takes a word equal to the
    /// current count as its new acknowledgement.
    pub fn kwrite(&mut self, fd: usize, buf: &[u8]) -> (r: Result<(usize, Option<u8>), Error>)
        requires
            old(self)@.wf(),
        ensures
            r == write_outcome(old(self)@, fd, buf@),
            final(self)@ == write_state(old(self)@, fd, buf@),
            final(self)@.wf(),
    {
        let i = match self.find(fd) {
            Some(i) => i,
            None => return Err(Error::BadDescriptor),
        };
        assert(handle_of(self@, fd) == self@.handles[i as int].1);
        assert(self@.handles[i as int].1 == self.handles@[i as int].1@);
        let (irq, reserved_on) = match &self.handles[i].1 {
            Handle::Irq { irq, reserved_on, .. } => (*irq, *reserved_on),
            _ => return Err(Error::BadDescriptor),
        };
        if buf.len() < WORD_SIZE {
            return Err(Error::InvalidArgument);
        }
        let ack = word_of(buf);
        let current = self.counts[irq as usize];
        if ack != current {
            return Ok((0, None));
        }
        let ghost s0 = self@;
        self.replace_handle(i, Handle::Irq { ack, irq, reserved_on });
        proof {
            assert(self@ =~= write_state(s0, fd, buf@));
            assert forall|k: int| #![trigger self@.handles[k]]
                0 <= k < self@.handles.len() && k != i implies self@.handles[k]
                == s0.handles[k] by {};
        }
        Ok((WORD_SIZE, Some(irq)))
    }

    /// Moves the read offset of a listing handle.
    pub fn seek(&mut self, fd: usize, pos: isize, whence: usize) -> (r: Result<isize, Error>)
        requires
            old(self)@.wf(),
        ensures
            r == seek_outcome(old(self)@, fd, pos, whence),
            final(self)@ == seek_state(old(self)@, fd, pos, whence),
            final(self)@.wf(),
    {
        let i = match self.find(fd) {
            Some(i) => i,
            None => return Err(Error::BadDescriptor),
        };
        assert(handle_of(self@, fd) == self@.handles[i as int].1);
        assert(self@.handles[i as int].1 == self.handles@[i as int].1@);
        let (cur, len) = match &self.handles[i].1 {
            Handle::Avail(_, data, offset) => (*offset, data.len()),
            Handle::TopLevel(data, offset) => (*offset, data.len()),
            _ => return Err(Error::NotSeekable),
        };
        let target = match seek_target(cur, pos, whence, len) {
            Ok(t) => t,
            Err(e) => return Err(e),
        };
        let ghost s0 = self@;
        let taken = self.replace_handle(i, Handle::Bsp);
        let new_h = match taken {
            Handle::Avail(cpu, data, _) => Handle::Avail(cpu, data, target as usize),
            Handle::TopLevel(data, _) => Handle::TopLevel(data, target as usize),
            h => h,
        };
        self.replace_handle(i, new_h);
        proof {
            assert(s0.handles.update(i as int, (fd, HandleView::Bsp)).update(i as int, (fd, new_h@))
                =~= s0.handles.update(i as int, (fd, new_h@)));
            assert(self@ =~= seek_state(s0, fd, pos, whence));
            assert forall|k: int| #![trigger self@.handles[k]]
                0 <= k < self@.handles.len() && k != i implies self@.handles[k]
                == s0.handles[k] by {};
        }
        Ok(target)
    }

    /// Closes `fd`, releasing the vector it reserved.
    pub fn close(&mut self, fd: usize) -> (r: Result<usize, Error>)
        requires
            old(self)@.wf(),
        ensures
            r == (if has_fd(old(self)@, fd) {
                Ok::<usize, Error>(0)
            } else {
                Err(Error::BadDescriptor)
            }),
            final(self)@ == close_state(old(self)@, fd),
            final(self)@.wf(),
    {
        let i = match self.find(fd) {
            Some(i) => i,
            None => return Err(Error::BadDescriptor),
        };
        let ghost s0 = self@;
        proof {
            lemma_handle_views_remove(self.handles@, i as int);
        }
        let (_, h) = self.handles.remove(i);
        assert(h@ == handle_of(s0, fd));
        if let Handle::Irq { irq, reserved_on: Some(c), .. } = h {
            if irq < TOTAL_IRQ_COUNT {
                let idx = c as usize * VECTORS + irq as usize + 32;
                self.reserved.set(idx, false);
            }
        }
        proof {
            assert(self@ =~= close_state(s0, fd));
            assert forall|k: int| #![trigger self@.handles[k]]
                0 <= k < self@.handles.len() implies self@.handles[k] == s0.handles[if k < i {
                k
            } else {
                k + 1
            }] by {};
        }
        Ok(0)
    }

    /// File status of `fd`.
    pub fn kfstat(&self, fd: usize) -> (r: Result<Stat, Error>)
        requires
            self@.wf(),
        ensures
            r == (if has_fd(self@, fd) {
                Ok::<Stat, Error>(stat_of(self@, handle_of(self@, fd)))
            } else {
                Err(Error::BadDescriptor)
            }),
    {
        let i = match self.find(fd) {
            Some(i) => i,
            None => return Err(Error::BadDescriptor),
        };
        assert(handle_of(self@, fd) == self@.handles[i as int].1);
        assert(self@.handles[i as int].1 == self.handles@[i as int].1@);
        let st = match &self.handles[i].1 {
            Handle::Irq { irq, .. } => Stat {
                st_mode: MODE_CHR | 0o600,
                st_size: WORD_SIZE as u64,
                st_blksize: WORD_SIZE as u32,
                st_blocks: 1,
                st_ino: *irq as u64,
                st_nlink: 1,
            },
            Handle::Bsp => Stat {
                st_mode: MODE_CHR | 0o400,
                st_size: WORD_SIZE as u64,
                st_blksize: WORD_SIZE as u32,
                st_blocks: 1,
                st_ino: INO_BSP,
                st_nlink: 1,
            },
            Handle::Avail(cpu, data, _) => Stat {
                st_mode: MODE_DIR | 0o700,
                st_size: data.len() as u64,
                st_blksize: 0,
                st_blocks: 0,
                st_ino: INO_AVAIL | ((*cpu as u64) << 32u64),
                st_nlink: 2,
            },
            Handle::TopLevel(data, _) => Stat {
                st_mode: MODE_DIR | 0o500,
                st_size: data.len() as u64,
                st_blksize: 0,
                st_blocks: 0,
                st_ino: INO_TOPLEVEL,
                st_nlink: 1,
            },
        };
        Ok(st)
    }

    /// The path of `fd`, cut to a buffer of `len` bytes.
    pub fn kfpath(&self, fd: usize, len: usize) -> (r: Result<Vec<u8>, Error>)
        requires
            self@.wf(),
        ensures
            bytes_result(r) == (if has_fd(self@, fd) {
                let t = path_text(handle_of(self@, fd));
                Ok::<Seq<u8>, Error>(
                    t.take(
                        if len < t.len() {
                            len as int
                        } else {
                            t.len() as int
                        },
                    ),
                )
            } else {
                Err(Error::BadDescriptor)
            }),
    {
        let i = match self.find(fd) {
            Some(i) => i,
            None => return Err(Error::BadDescriptor),
        };
        assert(handle_of(self@, fd) == self@.handles[i as int].1);
        assert(self@.handles[i as int].1 == self.handles@[i as int].1@);
        let mut t: Vec<u8> = Vec::new();
        t.push(0x69);
        t.push(0x72);
        t.push(0x71);
        t.push(0x3a);
        match &self.handles[i].1 {
            Handle::Irq { irq, .. } => push_dec(&mut t, *irq),
            Handle::Bsp => {
                t.push(0x62);
                t.push(0x73);
                t.push(0x70);
            },
            Handle::Avail(cpu, _, _) => {
                t.push(0x63);
                t.push(0x70);
                t.push(0x75);
                t.push(0x2d);
                push_hex2_spaced(&mut t, *cpu);
            },
            Handle::TopLevel(_, _) => {},
        }
        assert(t@ =~= path_text(handle_of(self@, fd)));
        let (out, _) = listing_read(&t, 0, len);
        assert(t@.skip(0) =~= t@);
        Ok(out)
    }

    /// Marks `vector` on `cpu` reserved or free.
    pub fn set_reserved(&mut self, cpu: u8, vector: u8, reserved: bool)
        requires
            old(self)@.wf(),
        ensures
            final(self)@ == (IrqSchemeView {
                reserved: old(self)@.reserved.update(slot(cpu, vector as int), reserved),
                ..old(self)@
            }),
            final(self)@.wf(),
    {
        self.reserved.set(cpu as usize * VECTORS + vector as usize, reserved);
        assert(self@ =~= (IrqSchemeView {
            reserved: old(self)@.reserved.update(slot(cpu, vector as int), reserved),
            ..old(self)@
        }));
    }

    /// Hands out the events posted since the last call, oldest first.
    pub fn take_events(&mut self) -> (r: Vec<SchemeEvent>)
        requires
            old(self)@.wf(),
        ensures
            r@ == old(self)@.events,
            final(self)@ == (IrqSchemeView { events: seq![], ..old(self)@ }),
            final(self)@.wf(),
    {
        let mut r = Vec::new();
        std::mem::swap(&mut r, &mut self.events);
        assert(self@ =~= (IrqSchemeView { events: seq![], ..old(self)@ }));
        r
    }

    pub fn fcntl(&self, fd: usize, cmd: usize, arg: usize) -> (r: Result<usize, Error>)
        ensures
            r == Ok::<usize, Error>(0),
    {
        Ok(0)
    }

    pub fn fevent(&self, fd: usize, flags: usize) -> (r: Result<usize, Error>)
        ensures
            r == Ok::<usize, Error>(0),
    {
        Ok(0)
    }

    pub fn fsync(&self, fd: usize) -> (r: Result<usize, Error>)
        ensures
            r == Ok::<usize, Error>(0),
    {
        Ok(0)
    }
}

/// Where a seek lands, computed without overflow.
fn seek_target(cur: usize, pos: isize, whence: usize, len: usize) -> (r: Result<isize, Error>)
    ensures
        r == seek_offset(cur, pos, whence, len as nat),
{
    if whence != SEEK_SET && whence != SEEK_CUR && whence != SEEK_END {
        return Err(Error::InvalidArgument);
    }
    let base: usize = if whence == SEEK_SET {
        0
    } else if whence == SEEK_CUR {
        cur
    } else {
        len
    };
    if pos >= 0 {
        let p = pos as usize;
        if base > isize::MAX as usize || p > isize::MAX as usize - base {
            Err(Error::InvalidArgument)
        } else {
            Ok((base + p) as isize)
        }
    } else {
        let m = (-(pos + 1)) as usize + 1;
        if base < m {
            Err(Error::InvalidArgument)
        } else {
            let t = base - m;
            if t > isize::MAX as usize {
                Err(Error::InvalidArgument)
            } else {
                Ok(t as isize)
            }
        }
    }
}

/// Replacing the handle of `fd` keeps `fd` at the same place.
proof fn lemma_with_handle(s: IrqSchemeView, fd: usize, h: HandleView)
    requires
        s.wf(),
        has_fd(s, fd),
    ensures
        has_fd(with_handle(s, fd, h), fd),
        fd_index(with_handle(s, fd, h), fd) == fd_index(s, fd),
        handle_of(with_handle(s, fd, h), fd) == h,
{
    let i = fd_index(s, fd);
    let s1 = with_handle(s, fd, h);
    assert(s1.handles[i].0 == fd);
    assert(has_fd(s1, fd));
    let j = fd_index(s1, fd);
    if j != i {
        assert(s1.handles[j].0 == s.handles[j].0);
        if j < i {
            assert(s.handles[j].0 < s.handles[i].0);
        } else {
            assert(s.handles[i].0 < s.handles[j].0);
        }
    }
}

/// Every counting handle has acknowledged no more arrivals than there were.
pub proof fn lemma_ack_bounded(s: IrqSchemeView, fd: usize)
    requires
        s.wf(),
        has_fd(s, fd),
        handle_of(s, fd) is Irq,
    ensures
        handle_of(s, fd)->Irq_ack <= s.counts[handle_of(s, fd)->Irq_irq as int],
{
    let i = fd_index(s, fd);
    assert(s.handles[i].1 == handle_of(s, fd));
}

/// Acknowledging the current count silences a handle: a read right after
/// returns no bytes, and the next arrival of its IRQ makes it report the
/// new count.
pub proof fn lemma_ack_silences(s: IrqSchemeView, fd: usize, buf: Seq<u8>, len: nat)
    requires
        s.wf(),
        has_fd(s, fd),
        handle_of(s, fd) is Irq,
        write_outcome(s, fd, buf) is Ok,
        write_outcome(s, fd, buf)->Ok_0.0 == WORD_SIZE,
        len >= WORD_SIZE,
    ensures
        ({
            let irq = handle_of(s, fd)->Irq_irq;
            let s1 = write_state(s, fd, buf);
            &&& read_outcome(s1, fd, len) == Ok::<(Seq<u8>, usize), Error>((seq![], 0))
            &&& s.counts[irq as int] < u64::MAX ==> read_outcome(trigger_state(s1, irq), fd, len)
                == Ok::<(Seq<u8>, usize), Error>(
                (word_bytes((s.counts[irq as int] + 1) as u64), WORD_SIZE),
            )
        }),
{
    let h = handle_of(s, fd);
    let irq = h->Irq_irq;
    let i = fd_index(s, fd);
    assert(s.handles[i].1 == h);
    let h1 = HandleView::Irq { ack: s.counts[irq as int], irq, reserved_on: h->Irq_reserved_on };
    lemma_with_handle(s, fd, h1);
    let s1 = write_state(s, fd, buf);
    assert(s1 == with_handle(s, fd, h1));
    let s2 = trigger_state(s1, irq);
    assert(has_fd(s2, fd)) by {
        assert(s2.handles == s1.handles);
    };
    assert(handle_of(s2, fd) == h1) by {
        assert(s2.handles == s1.handles);
    };
}

/// What `handle_for` hands out: counting handles for IRQs below 224, and a
/// reserving handle only for a vector that was free.
proof fn lemma_handle_for_reserves_free(s: IrqSchemeView, p: Seq<u8>, flags: usize)
    requires
        s.wf(),
        handle_for(s, p, flags) is Ok,
    ensures
        handle_for(s, p, flags)->Ok_0 matches HandleView::Irq { irq, reserved_on, ack } ==> irq
            < TOTAL_IRQ_COUNT && ack == 0 && (reserved_on matches Some(c) ==> !is_reserved_in(
            s,
            c,
            irq + 32,
        )),
{
}

/// Opening and then closing a handle leaves the reservations as they were:
/// every reservation an open makes, the matching close releases.
pub proof fn lemma_reservation_balanced(s: IrqSchemeView, path: Seq<u8>, flags: usize, uid: u32)
    requires
        s.wf(),
    ensures
        ({
            let (s1, r) = open_spec(s, path, flags, uid);
            r is Ok ==> close_state(s1, r->Ok_0).reserved == s.reserved
        }),
{
    let (s1, r) = open_spec(s, path, flags, uid);
    if r is Ok {
        let fd = s.next_fd;
        let h = handle_for(s, trim_start_slashes(path), flags)->Ok_0;
        lemma_handle_for_reserves_free(s, trim_start_slashes(path), flags);
        let n = s.handles.len() as int;
        assert(s1 == open_spec(s, path, flags, uid).0);
        assert(s1.handles == s.handles.push((fd, h)));
        assert(s1.handles[n] == (fd, h));
        assert(s1.handles[n].0 == fd);
        assert(0 <= n < s1.handles.len());
        assert(has_fd(s1, fd));
        let j = fd_index(s1, fd);
        if j != n {
            assert(s1.handles[j] == s.handles[j]);
            assert(s.handles[j].0 < s.next_fd);
        }
        assert(handle_of(s1, fd) == h);
        match h {
            HandleView::Irq { irq, reserved_on: Some(c), .. } => {
                assert(close_state(s1, fd).reserved =~= s.reserved);
            },
            _ => {},
        }
    }
}

/// Records an arrival of `irq`: its count goes up first, then every
/// handle counting it is told there is something to read.
pub fn irq_trigger(scheme: &mut IrqScheme, irq: u8)
    requires
        old(scheme)@.wf(),
        irq < TOTAL_IRQ_COUNT,
        old(scheme)@.counts[irq as int] < u64::MAX,
    ensures
        final(scheme)@ == trigger_state(old(scheme)@, irq),
        final(scheme)@.wf(),
{
    let ghost s0 = scheme@;
    let c = scheme.counts[irq as usize];
    scheme.counts.set(irq as usize, c + 1);
    let mut fresh: Vec<SchemeEvent> = Vec::new();
    let mut i: usize = 0;
    while i < scheme.handles.len()
        invariant
            i <= scheme@.handles.len(),
            scheme@.handles == s0.handles,
            scheme@.scheme_id == s0.scheme_id,
            fresh@ == fanout(s0.scheme_id, s0.handles.take(i as int), irq),
        decreases scheme@.handles.len() - i,
    {
        let ghost hs = s0.handles.take(i + 1);
        assert(hs.drop_last() =~= s0.handles.take(i as int));
        assert(hs.last() == s0.handles[i as int]);
        assert(s0.handles[i as int].1 == scheme.handles@[i as int].1@);
        assert(s0.handles[i as int].0 == scheme.handles@[i as int].0);
        if let Some((_, h_irq)) = scheme.handles[i].1.as_irq_handle() {
            if h_irq == irq {
                fresh.push(SchemeEvent { scheme: scheme.scheme_id, id: scheme.handles[i].0, flags: EVENT_READ });
            }
        }
        assert(fresh@ =~= fanout(s0.scheme_id, hs, irq));
        i = i + 1;
    }
    assert(s0.handles.take(s0.handles.len() as int) =~= s0.handles);
    let ghost s1 = scheme@;
    scheme.events.append(&mut fresh);
    proof {
        assert(scheme@ =~= trigger_state(s0, irq));
        assert forall|k: int| #![trigger scheme@.handles[k]]
            0 <= k < scheme@.handles.len() implies scheme@.handles[k] == s0.handles[k] by {};
    }
}

/// Arrival counts only grow: an arrival raises its own IRQ's count by one
/// and leaves the others as they were.
pub proof fn lemma_counts_monotone(s: IrqSchemeView, irq: u8, i: int)
    requires
        s.wf(),
        irq < TOTAL_IRQ_COUNT,
        s.counts[irq as int] < u64::MAX,
        0 <= i < TOTAL_IRQ_COUNT,
    ensures
        trigger_state(s, irq).counts[i] >= s.counts[i],
        i == irq ==> trigger_state(s, irq).counts[i] == s.counts[i] + 1,
        i != irq ==> trigger_state(s, irq).counts[i] == s.counts[i],
{
}

} // verus!
