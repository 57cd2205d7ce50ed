//! Anonymous pipes: a scheme whose handles are the two ends of bounded FIFOs.
//!
//! A handle id carries the pipe's key in its low bits; its top bit is set on
//! the writing end. Operations that would have to wait report `Blocked`; the
//! caller then sleeps on that end's wait condition and retries.

use std::collections::BTreeMap;
use std::collections::VecDeque;
use vstd::prelude::*;
use vstd::string::StringSliceAdditionalSpecFns;

use crate::error::Error;
use crate::flag::{
    EVENT_NONE, EVENT_READ, EVENT_WRITE, F_GETFL, F_SETFL, MODE_FIFO, O_ACCMODE, O_NONBLOCK,
    SchemeEvent, SchemeId, Stat,
};
use crate::text::{skip_slashes, trim_start_slashes};

verus! {

pub const MAX_QUEUE_SIZE: usize = 65536;

/// The top bit of a handle id: set on the writing end of a pipe.
pub const WRITE_NOT_READ_BIT: usize = usize::MAX - usize::MAX / 2;

pub open spec fn is_write_id(id: usize) -> bool {
    id >= WRITE_NOT_READ_BIT
}

/// The pipe key that a handle id names.
pub open spec fn key_of(id: usize) -> usize {
    if id >= WRITE_NOT_READ_BIT {
        (id - WRITE_NOT_READ_BIT) as usize
    } else {
        id
    }
}

/// The handle id of the writing end of pipe `key`.
pub open spec fn write_id_of(key: usize) -> usize {
    (key + WRITE_NOT_READ_BIT) as usize
}

/// Splits a handle id into its end (true for the writer) and its pipe key.
pub fn from_raw_id(id: usize) -> (r: (bool, usize))
    ensures
        r.0 == is_write_id(id),
        r.1 == key_of(id),
        r.1 < WRITE_NOT_READ_BIT,
{
    if id >= WRITE_NOT_READ_BIT {
        (true, id - WRITE_NOT_READ_BIT)
    } else {
        (false, id)
    }
}

/// The result of an operation that may have to wait for the other end.
#[derive(Debug, PartialEq, Eq)]
pub enum Progress<T> {
    Done(T),
    Blocked,
}

pub struct PipeView {
    pub read_flags: usize,
    pub write_flags: usize,
    pub queue: Seq<u8>,
    pub reader_alive: bool,
    pub writer_alive: bool,
    pub has_run_dup: bool,
}

/// One pipe: a byte queue with the state of its two ends.
pub struct Pipe {
    read_flags: usize,
    write_flags: usize,
    queue: VecDeque<u8>,
    reader_is_alive: bool,
    writer_is_alive: bool,
    has_run_dup: bool,
}

impl View for Pipe {
    type V = PipeView;

    closed spec fn view(&self) -> PipeView {
        PipeView {
            read_flags: self.read_flags,
            write_flags: self.write_flags,
            queue: self.queue@,
            reader_alive: self.reader_is_alive,
            writer_alive: self.writer_is_alive,
            has_run_dup: self.has_run_dup,
        }
    }
}

pub struct PipeSchemeView {
    pub scheme_id: SchemeId,
    pub next_id: usize,
    pub pipes: Map<usize, PipeView>,
    pub events: Seq<SchemeEvent>,
}

impl PipeSchemeView {
    /// Keys stay below the writer bit, fresh keys are never zero, and no
    /// queue holds more than `MAX_QUEUE_SIZE` bytes.
    pub open spec fn wf(self) -> bool {
        &&& 1 <= self.next_id < WRITE_NOT_READ_BIT
        &&& forall|k: usize| #[trigger]
            self.pipes.contains_key(k) ==> k < WRITE_NOT_READ_BIT && self.pipes[k].queue.len()
                <= MAX_QUEUE_SIZE
    }
}

/// The pipe scheme: every live pipe by key, and the events not yet posted.
pub struct PipeScheme {
    scheme_id: SchemeId,
    next_id: usize,
    pipes: BTreeMap<usize, Pipe>,
    events: Vec<SchemeEvent>,
}

pub open spec fn pipe_views(m: Map<usize, Pipe>) -> Map<usize, PipeView> {
    m.map_values(|p: Pipe| p@)
}

impl View for PipeScheme {
    type V = PipeSchemeView;

    closed spec fn view(&self) -> PipeSchemeView {
        PipeSchemeView {
            scheme_id: self.scheme_id,
            next_id: self.next_id,
            pipes: pipe_views(self.pipes@),
            events: self.events@,
        }
    }
}

pub open spec fn new_pipe(flags: usize) -> PipeView {
    PipeView {
        read_flags: flags,
        write_flags: flags,
        queue: seq![],
        reader_alive: true,
        writer_alive: true,
        has_run_dup: false,
    }
}

/// The key handed out after `k`: keys count up and wrap back to 1.
pub open spec fn next_key(k: usize) -> usize {
    if k + 1 >= WRITE_NOT_READ_BIT {
        1
    } else {
        (k + 1) as usize
    }
}

pub open spec fn with_pipes(s: PipeSchemeView, pipes: Map<usize, PipeView>) -> PipeSchemeView {
    PipeSchemeView { scheme_id: s.scheme_id, next_id: s.next_id, pipes, events: s.events }
}

pub open spec fn post(s: PipeSchemeView, id: usize, flags: usize) -> PipeSchemeView {
    PipeSchemeView {
        scheme_id: s.scheme_id,
        next_id: s.next_id,
        pipes: s.pipes,
        events: s.events.push(SchemeEvent { scheme: s.scheme_id, id, flags }),
    }
}

/// What `pipe` does: a new pipe under the next key, both ends open.
pub open spec fn pipe_spec(s: PipeSchemeView, flags: usize) -> (PipeSchemeView, Result<
    (usize, usize),
    Error,
>) {
    if s.pipes.contains_key(s.next_id) {
        (s, Err(Error::AlreadyExists))
    } else {
        (
            PipeSchemeView {
                scheme_id: s.scheme_id,
                next_id: next_key(s.next_id),
                pipes: s.pipes.insert(s.next_id, new_pipe(flags)),
                events: s.events,
            },
            Ok((s.next_id, write_id_of(s.next_id))),
        )
    }
}

/// The pipe behind a handle, if the handle names a live pipe.
pub open spec fn open_pipe(s: PipeSchemeView, id: usize) -> bool {
    s.pipes.contains_key(key_of(id))
}

pub open spec fn min_nat(a: nat, b: nat) -> nat {
    if a < b {
        a
    } else {
        b
    }
}

/// What a read of at most `len` bytes from handle `id` returns.
pub open spec fn read_outcome(s: PipeSchemeView, id: usize, len: nat) -> Result<
    Progress<Seq<u8>>,
    Error,
> {
    if is_write_id(id) || !open_pipe(s, id) {
        Err(Error::BadDescriptor)
    } else {
        let p = s.pipes[key_of(id)];
        let n = min_nat(len, p.queue.len());
        if n > 0 {
            Ok(Progress::Done(p.queue.take(n as int)))
        } else if len == 0 || !p.writer_alive {
            Ok(Progress::Done(seq![]))
        } else if p.read_flags & O_NONBLOCK == O_NONBLOCK {
            Err(Error::WouldBlock)
        } else {
            Ok(Progress::Blocked)
        }
    }
}

/// The scheme after that read: the bytes leave the queue and the writer is
/// told there is room.
pub open spec fn read_state(s: PipeSchemeView, id: usize, len: nat) -> PipeSchemeView {
    if is_write_id(id) || !open_pipe(s, id) {
        s
    } else {
        let key = key_of(id);
        let p = s.pipes[key];
        let n = min_nat(len, p.queue.len());
        if n > 0 {
            post(
                with_pipes(s, s.pipes.insert(key, PipeView { queue: p.queue.skip(n as int), ..p })),
                write_id_of(key),
                EVENT_WRITE,
            )
        } else {
            s
        }
    }
}

/// What a write of `data` to handle `id` returns.
pub open spec fn write_outcome(s: PipeSchemeView, id: usize, data: Seq<u8>) -> Result<
    Progress<usize>,
    Error,
> {
    if !is_write_id(id) || !open_pipe(s, id) {
        Err(Error::BadDescriptor)
    } else {
        let p = s.pipes[key_of(id)];
        let n = min_nat((MAX_QUEUE_SIZE - p.queue.len()) as nat, data.len());
        if !p.reader_alive {
            Err(Error::Pipe)
        } else if n > 0 {
            Ok(Progress::Done(n as usize))
        } else if data.len() == 0 {
            Ok(Progress::Done(0))
        } else if p.write_flags & O_NONBLOCK == O_NONBLOCK {
            Err(Error::WouldBlock)
        } else {
            Ok(Progress::Blocked)
        }
    }
}

/// The scheme after that write: as much of `data` as fits joins the queue and
/// the reader is told there is data.
pub open spec fn write_state(s: PipeSchemeView, id: usize, data: Seq<u8>) -> PipeSchemeView {
    if !is_write_id(id) || !open_pipe(s, id) {
        s
    } else {
        let key = key_of(id);
        let p = s.pipes[key];
        let n = min_nat((MAX_QUEUE_SIZE - p.queue.len()) as nat, data.len());
        if p.reader_alive && n > 0 {
            post(
                with_pipes(
                    s,
                    s.pipes.insert(key, PipeView { queue: p.queue + data.take(n as int), ..p }),
                ),
                key,
                EVENT_READ,
            )
        } else {
            s
        }
    }
}

/// The scheme after closing handle `id`: that end is dead, the other end is
/// told, and the pipe goes once both ends are dead.
pub open spec fn close_state(s: PipeSchemeView, id: usize) -> PipeSchemeView {
    if !open_pipe(s, id) {
        s
    } else {
        let key = key_of(id);
        let p = s.pipes[key];
        if is_write_id(id) {
            let pipes = if p.reader_alive {
                s.pipes.insert(key, PipeView { writer_alive: false, ..p })
            } else {
                s.pipes.remove(key)
            };
            post(with_pipes(s, pipes), key, EVENT_READ)
        } else {
            let pipes = if p.writer_alive {
                s.pipes.insert(key, PipeView { reader_alive: false, ..p })
            } else {
                s.pipes.remove(key)
            };
            post(with_pipes(s, pipes), write_id_of(key), EVENT_WRITE)
        }
    }
}

pub open spec fn dup_request() -> Seq<u8> {
    seq![0x77u8, 0x72u8, 0x69u8, 0x74u8, 0x65u8]
}

/// What duplicating handle `id` with argument `buf` returns: the writing end,
/// once per pipe, from the reading end and the argument `write`.
pub open spec fn dup_outcome(s: PipeSchemeView, id: usize, buf: Seq<u8>) -> Result<usize, Error> {
    if is_write_id(id) {
        Err(Error::BadDescriptor)
    } else if buf != dup_request() {
        Err(Error::InvalidArgument)
    } else if !open_pipe(s, id) || s.pipes[key_of(id)].has_run_dup {
        Err(Error::BadDescriptor)
    } else {
        Ok(write_id_of(key_of(id)))
    }
}

pub open spec fn dup_state(s: PipeSchemeView, id: usize, buf: Seq<u8>) -> PipeSchemeView {
    if dup_outcome(s, id, buf) is Ok {
        let key = key_of(id);
        with_pipes(s, s.pipes.insert(key, PipeView { has_run_dup: true, ..s.pipes[key] }))
    } else {
        s
    }
}

/// The flag word of the end that `id` names.
pub open spec fn end_flags(p: PipeView, id: usize) -> usize {
    if is_write_id(id) {
        p.write_flags
    } else {
        p.read_flags
    }
}

pub open spec fn fcntl_outcome(s: PipeSchemeView, id: usize, cmd: usize) -> Result<usize, Error> {
    if !open_pipe(s, id) {
        Err(Error::BadDescriptor)
    } else if cmd == F_GETFL {
        Ok(end_flags(s.pipes[key_of(id)], id))
    } else if cmd == F_SETFL {
        Ok(0)
    } else {
        Err(Error::InvalidArgument)
    }
}

pub open spec fn fcntl_state(s: PipeSchemeView, id: usize, cmd: usize, arg: usize) -> PipeSchemeView {
    if open_pipe(s, id) && cmd == F_SETFL {
        let key = key_of(id);
        let p = s.pipes[key];
        let f = arg & !O_ACCMODE;
        let q = if is_write_id(id) {
            PipeView { write_flags: f, ..p }
        } else {
            PipeView { read_flags: f, ..p }
        };
        with_pipes(s, s.pipes.insert(key, q))
    } else {
        s
    }
}

pub open spec fn fevent_outcome(s: PipeSchemeView, id: usize, flags: usize) -> Result<usize, Error> {
    if !open_pipe(s, id) {
        Err(Error::BadDescriptor)
    } else {
        let q = s.pipes[key_of(id)].queue;
        if is_write_id(id) && flags == EVENT_WRITE {
            Ok(
                if q.len() >= MAX_QUEUE_SIZE {
                    EVENT_NONE
                } else {
                    EVENT_WRITE
                },
            )
        } else if flags == EVENT_READ {
            Ok(
                if q.len() == 0 {
                    EVENT_NONE
                } else {
                    EVENT_READ
                },
            )
        } else {
            Err(Error::BadDescriptor)
        }
    }
}

pub open spec fn progress_bytes(r: Result<Progress<Vec<u8>>, Error>) -> Result<
    Progress<Seq<u8>>,
    Error,
> {
    match r {
        Ok(Progress::Done(v)) => Ok(Progress::Done(v@)),
        Ok(Progress::Blocked) => Ok(Progress::Blocked),
        Err(e) => Err(e),
    }
}

spec fn pipes_ok(m: Map<usize, Pipe>) -> bool {
    forall|k: usize| #[trigger]
        m.contains_key(k) ==> k < WRITE_NOT_READ_BIT && m[k].queue@.len() <= MAX_QUEUE_SIZE
}

proof fn lemma_pipes_ok_wf(s: PipeScheme)
    requires
        1 <= s.next_id < WRITE_NOT_READ_BIT,
        pipes_ok(s.pipes@),
    ensures
        s@.wf(),
{
    assert forall|k: usize| #[trigger] s@.pipes.contains_key(k) implies k < WRITE_NOT_READ_BIT
        && s@.pipes[k].queue.len() <= MAX_QUEUE_SIZE by {
        assert(s.pipes@.contains_key(k));
    };
}

proof fn lemma_views_insert(m: Map<usize, Pipe>, k: usize, p: Pipe)
    ensures
        pipe_views(m.insert(k, p)) == pipe_views(m).insert(k, p@),
{
    assert(pipe_views(m.insert(k, p)) =~= pipe_views(m).insert(k, p@));
}

proof fn lemma_views_remove(m: Map<usize, Pipe>, k: usize)
    ensures
        pipe_views(m.remove(k)) == pipe_views(m).remove(k),
{
    assert(pipe_views(m.remove(k)) =~= pipe_views(m).remove(k));
}

/// Creates a pipe with both ends open; returns its reading and writing ids.
pub fn pipe(scheme: &mut PipeScheme, flags: usize) -> (r: Result<(usize, usize), Error>)
    ensures
        (final(scheme)@, r) == pipe_spec(old(scheme)@, flags),
        final(scheme)@.wf(),
{
    scheme.create(flags)
}

impl PipeScheme {
    #[verifier::type_invariant]
    spec fn inv(self) -> bool {
        1 <= self.next_id < WRITE_NOT_READ_BIT && pipes_ok(self.pipes@)
    }

    pub fn new(scheme_id: SchemeId) -> (r: PipeScheme)
        ensures
            r@.scheme_id == scheme_id,
            r@.next_id == 1,
            r@.pipes == Map::<usize, PipeView>::empty(),
            r@.events == Seq::<SchemeEvent>::empty(),
            r@.wf(),
    {
        let r = PipeScheme { scheme_id, next_id: 1, pipes: BTreeMap::new(), events: Vec::new() };
        assert(r@.pipes =~= Map::<usize, PipeView>::empty());
        r
    }

    /// Hands out the events posted since the last call, oldest first.
    pub fn take_events(&mut self) -> (r: Vec<SchemeEvent>)
        ensures
            r@ == old(self)@.events,
            final(self)@ == (PipeSchemeView { events: seq![], ..old(self)@ }),
            final(self)@.wf(),
    {
        proof {
            use_type_invariant(&*self);
        }
        let mut r = Vec::new();
        std::mem::swap(&mut r, &mut self.events);
        assert(self@ =~= (PipeSchemeView { events: seq![], ..old(self)@ }));
        proof {
            use_type_invariant(&*self);
        }
        r
    }

    fn create(&mut self, flags: usize) -> (r: Result<(usize, usize), Error>)
        ensures
            (final(self)@, r) == pipe_spec(old(self)@, flags),
            final(self)@.wf(),
    {
        proof {
            use_type_invariant(&*self);
        }
        let key = self.next_id;
        if self.pipes.contains_key(&key) {
            return Err(Error::AlreadyExists);
        }
        let p = Pipe {
            read_flags: flags,
            write_flags: flags,
            queue: VecDeque::new(),
            reader_is_alive: true,
            writer_is_alive: true,
            has_run_dup: false,
        };
        assert(p@ =~= new_pipe(flags));
        self.put_pipe(key, p);
        proof {
            use_type_invariant(&*self);
        }
        self.next_id = if key + 1 >= WRITE_NOT_READ_BIT {
            1
        } else {
            key + 1
        };
        proof {
            assert(self@ =~= pipe_spec(old(self)@, flags).0);
            use_type_invariant(&*self);
        }
        Ok((key, key + WRITE_NOT_READ_BIT))
    }

    fn post_event(&mut self, id: usize, flags: usize)
        ensures
            final(self)@ == post(old(self)@, id, flags),
    {
        proof {
            use_type_invariant(&*self);
        }
        let ev = SchemeEvent { scheme: self.scheme_id, id, flags };
        let mut events = Vec::new();
        std::mem::swap(&mut events, &mut self.events);
        events.push(ev);
        std::mem::swap(&mut events, &mut self.events);
    }

    /// Takes the pipe under `key` out of the table.
    fn take_pipe(&mut self, key: usize) -> (r: Option<Pipe>)
        ensures
            r is Some ==> old(self)@.pipes.contains_key(key),
            r is Some ==> r->Some_0@ == old(self)@.pipes[key],
            r is Some ==> final(self)@ == with_pipes(old(self)@, old(self)@.pipes.remove(key)),
            r is None ==> !old(self)@.pipes.contains_key(key) && final(self)@ == old(self)@,
    {
        proof {
            use_type_invariant(&*self);
            lemma_views_remove(self.pipes@, key);
        }
        let mut pipes = BTreeMap::new();
        std::mem::swap(&mut pipes, &mut self.pipes);
        let r = pipes.remove(&key);
        proof {
            if r is None {
                assert(pipes@ =~= old(self).pipes@.remove(key));
                assert(!old(self)@.pipes.contains_key(key));
                assert(old(self)@.pipes.remove(key) =~= old(self)@.pipes);
            } else {
                let p = r->Some_0;
                assert(old(self).pipes@.contains_key(key));
                assert(old(self).pipes@[key] == p);
                assert(pipe_views(old(self).pipes@).dom().contains(key));
                assert(pipe_views(old(self).pipes@)[key] == p@);
                assert(old(self)@.pipes.contains_key(key));
                assert(old(self)@.pipes[key] == p@);
            }
            lemma_views_remove(old(self).pipes@, key);
            assert(pipes@ == old(self).pipes@.remove(key));
        }
        std::mem::swap(&mut pipes, &mut self.pipes);
        assert(self@ =~= with_pipes(old(self)@, old(self)@.pipes.remove(key)));
        assert(r is None ==> self@ =~= old(self)@);
        r
    }

    /// Puts a pipe back under `key`.
    fn put_pipe(&mut self, key: usize, p: Pipe)
        requires
            key < WRITE_NOT_READ_BIT,
            p@.queue.len() <= MAX_QUEUE_SIZE,
        ensures
            final(self)@ == with_pipes(old(self)@, old(self)@.pipes.insert(key, p@)),
    {
        proof {
            use_type_invariant(&*self);
            lemma_views_insert(self.pipes@, key, p);
        }
        let mut pipes = BTreeMap::new();
        std::mem::swap(&mut pipes, &mut self.pipes);
        pipes.insert(key, p);
        proof {
            lemma_views_insert(old(self).pipes@, key, p);
        }
        std::mem::swap(&mut pipes, &mut self.pipes);
    }

    /// Opens a new pipe: `path` must be empty (slashes aside); the result is
    /// the reading end.
    pub fn kopen(&mut self, path: &str, flags: usize) -> (r: Result<usize, Error>)
        ensures
            trim_start_slashes(path.spec_bytes()).len() != 0 ==> r == Err::<usize, Error>(
                Error::NoEntity) && final(self)@ == old(self)@,
            trim_start_slashes(path.spec_bytes()).len() == 0 ==> ({
                let (s, p) = pipe_spec(old(self)@, flags);
                &&& final(self)@ == s
                &&& r == match p {
                    Ok(ids) => Ok::<usize, Error>(ids.0),
                    Err(e) => Err(e),
                }
            }),
            final(self)@.wf(),
    {
        proof {
            use_type_invariant(&*self);
        }
        let b = path.as_bytes();
        let start = skip_slashes(b, 0);
        assert(b@.subrange(0, b@.len() as int) =~= b@);
        if start != b.len() {
            return Err(Error::NoEntity);
        }
        match pipe(self, flags) {
            Ok((read_id, _)) => Ok(read_id),
            Err(e) => Err(e),
        }
    }

    /// Reads at most `len` bytes from the reading end `id`.
    pub fn kread(&mut self, id: usize, len: usize) -> (r: Result<Progress<Vec<u8>>, Error>)
        ensures
            progress_bytes(r) == read_outcome(old(self)@, id, len as nat),
            final(self)@ == read_state(old(self)@, id, len as nat),
            final(self)@.wf(),
    {
        proof {
            use_type_invariant(&*self);
        }
        let (is_write, key) = from_raw_id(id);
        if is_write {
            return Err(Error::BadDescriptor);
        }
        let mut pipe = match self.take_pipe(key) {
            Some(p) => p,
            None => return Err(Error::BadDescriptor),
        };
        let ghost q0 = pipe.queue@;
        let ghost before = pipe@;
        let avail = pipe.queue.len();
        let n = if len < avail {
            len
        } else {
            avail
        };
        let mut out: Vec<u8> = Vec::new();
        let mut i: usize = 0;
        assert(q0.skip(0) =~= q0);
        assert(q0.take(0) =~= Seq::<u8>::empty());
        while i < n
            invariant
                n <= q0.len(),
                i <= n,
                pipe.queue@ == q0.skip(i as int),
                out@ == q0.take(i as int),
                pipe@ == (PipeView { queue: q0.skip(i as int), ..before }),
            decreases n - i,
        {
            let b = pipe.queue.pop_front();
            assert(q0.skip(i as int).subrange(1, q0.skip(i as int).len() as int) =~= q0.skip(
                i + 1,
            ));
            assert(q0.take(i as int).push(q0[i as int]) =~= q0.take(i + 1));
            out.push(b.unwrap());
            i = i + 1;
        }
        assert(q0.skip(0) =~= q0);
        let writer_alive = pipe.writer_is_alive;
        let nonblock = pipe.read_flags & O_NONBLOCK == O_NONBLOCK;
        self.put_pipe(key, pipe);
        proof {
            assert(old(self)@.pipes.remove(key).insert(key, pipe@) =~= old(self)@.pipes.insert(
                key,
                pipe@,
            ));
        }
        if n > 0 {
            self.post_event(key + WRITE_NOT_READ_BIT, EVENT_WRITE);
            return Ok(Progress::Done(out));
        }
        proof {
            assert(old(self)@.pipes.insert(key, pipe@) =~= old(self)@.pipes);
            assert(self@ =~= old(self)@);
        }
        if len == 0 || !writer_alive {
            Ok(Progress::Done(out))
        } else if nonblock {
            Err(Error::WouldBlock)
        } else {
            Ok(Progress::Blocked)
        }
    }

    /// Writes as much of `data` as fits to the writing end `id`.
    pub fn kwrite(&mut self, id: usize, data: &[u8]) -> (r: Result<Progress<usize>, Error>)
        ensures
            r == write_outcome(old(self)@, id, data@),
            final(self)@ == write_state(old(self)@, id, data@),
            final(self)@.wf(),
    {
        proof {
            use_type_invariant(&*self);
        }
        let (is_write, key) = from_raw_id(id);
        if !is_write {
            return Err(Error::BadDescriptor);
        }
        let mut pipe = match self.take_pipe(key) {
            Some(p) => p,
            None => return Err(Error::BadDescriptor),
        };
        let ghost q0 = pipe.queue@;
        let ghost before = pipe@;
        let room = MAX_QUEUE_SIZE - pipe.queue.len();
        let n = if room < data.len() {
            room
        } else {
            data.len()
        };
        let reader_alive = pipe.reader_is_alive;
        let nonblock = pipe.write_flags & O_NONBLOCK == O_NONBLOCK;
        if reader_alive {
            let mut i: usize = 0;
            while i < n
                invariant
                    n <= data@.len(),
                    q0.len() + n <= MAX_QUEUE_SIZE,
                    i <= n,
                    pipe@ == (PipeView { queue: q0 + data@.take(i as int), ..before }),
                decreases n - i,
            {
                pipe.queue.push_back(data[i]);
                assert((q0 + data@.take(i as int)).push(data@[i as int]) =~= q0 + data@.take(
                    i + 1,
                ));
                i = i + 1;
            }
        } else {
            assert(q0 + data@.take(0) =~= q0);
        }
        let ghost after = pipe@;
        self.put_pipe(key, pipe);
        proof {
            assert(old(self)@.pipes.remove(key).insert(key, after) =~= old(self)@.pipes.insert(
                key,
                after,
            ));
        }
        if !reader_alive {
            proof {
                assert(after =~= before);
                assert(old(self)@.pipes.insert(key, after) =~= old(self)@.pipes);
                assert(self@ =~= old(self)@);
            }
            return Err(Error::Pipe);
        }
        if n > 0 {
            self.post_event(key, EVENT_READ);
            return Ok(Progress::Done(n));
        }
        proof {
            assert(q0 + data@.take(0) =~= q0);
            assert(old(self)@.pipes.insert(key, after) =~= old(self)@.pipes);
            assert(self@ =~= old(self)@);
        }
        if data.len() == 0 {
            Ok(Progress::Done(0))
        } else if nonblock {
            Err(Error::WouldBlock)
        } else {
            Ok(Progress::Blocked)
        }
    }

    /// Closes one end of a pipe.
    pub fn close(&mut self, id: usize) -> (r: Result<usize, Error>)
        ensures
            r == (if open_pipe(old(self)@, id) {
                Ok::<usize, Error>(0)
            } else {
                Err(Error::BadDescriptor)
            }),
            final(self)@ == close_state(old(self)@, id),
            final(self)@.wf(),
    {
        proof {
            use_type_invariant(&*self);
        }
        let (is_write, key) = from_raw_id(id);
        let mut pipe = match self.take_pipe(key) {
            Some(p) => p,
            None => return Err(Error::BadDescriptor),
        };
        let ghost before = pipe@;
        let can_remove = if is_write {
            pipe.writer_is_alive = false;
            !pipe.reader_is_alive
        } else {
            pipe.reader_is_alive = false;
            !pipe.writer_is_alive
        };
        if !can_remove {
            self.put_pipe(key, pipe);
        }
        proof {
            assert(old(self)@.pipes.remove(key).insert(key, pipe@) =~= old(self)@.pipes.insert(
                key,
                pipe@,
            ));
        }
        if is_write {
            self.post_event(key, EVENT_READ);
        } else {
            self.post_event(key + WRITE_NOT_READ_BIT, EVENT_WRITE);
        }
        proof {
            assert(self@ =~= close_state(old(self)@, id));
            use_type_invariant(&*self);
        }
        Ok(0)
    }

    /// Turns the reading end `id` into the matching writing end, once per
    /// pipe, when `buf` holds exactly `write`.
    pub fn kdup(&mut self, id: usize, buf: &[u8]) -> (r: Result<usize, Error>)
        ensures
            r == dup_outcome(old(self)@, id, buf@),
            final(self)@ == dup_state(old(self)@, id, buf@),
            final(self)@.wf(),
    {
        proof {
            use_type_invariant(&*self);
        }
        let (is_write, key) = from_raw_id(id);
        if is_write {
            return Err(Error::BadDescriptor);
        }
        if !(buf.len() == 5 && buf[0] == 0x77 && buf[1] == 0x72 && buf[2] == 0x69 && buf[3] == 0x74
            && buf[4] == 0x65) {
            proof {
                if buf@ == dup_request() {
                    assert(buf@[0] == 0x77 && buf@[1] == 0x72 && buf@[2] == 0x69 && buf@[3] == 0x74
                        && buf@[4] == 0x65);
                }
            }
            return Err(Error::InvalidArgument);
        }
        assert(buf@ =~= dup_request());
        let mut pipe = match self.take_pipe(key) {
            Some(p) => p,
            None => return Err(Error::BadDescriptor),
        };
        let already = pipe.has_run_dup;
        pipe.has_run_dup = true;
        let ghost after = pipe@;
        let ghost before = old(self)@.pipes[key];
        if already {
            pipe.has_run_dup = true;
            assert(pipe@ == before);
        }
        self.put_pipe(key, pipe);
        proof {
            assert(old(self)@.pipes.remove(key).insert(key, after) =~= old(self)@.pipes.insert(
                key,
                after,
            ));
            if already {
                assert(old(self)@.pipes.insert(key, after) =~= old(self)@.pipes);
                assert(self@ =~= old(self)@);
            } else {
                assert(self@ =~= dup_state(old(self)@, id, buf@));
            }
        }
        if already {
            Err(Error::BadDescriptor)
        } else {
            Ok(key + WRITE_NOT_READ_BIT)
        }
    }

    /// Reads (`F_GETFL`) or replaces (`F_SETFL`) the flag word of one end.
    pub fn fcntl(&mut self, id: usize, cmd: usize, arg: usize) -> (r: Result<usize, Error>)
        ensures
            r == fcntl_outcome(old(self)@, id, cmd),
            final(self)@ == fcntl_state(old(self)@, id, cmd, arg),
            final(self)@.wf(),
    {
        proof {
            use_type_invariant(&*self);
        }
        let (is_write, key) = from_raw_id(id);
        let mut pipe = match self.take_pipe(key) {
            Some(p) => p,
            None => return Err(Error::BadDescriptor),
        };
        let flags = if is_write {
            pipe.write_flags
        } else {
            pipe.read_flags
        };
        if cmd == F_SETFL {
            if is_write {
                pipe.write_flags = arg & !O_ACCMODE;
            } else {
                pipe.read_flags = arg & !O_ACCMODE;
            }
        }
        let ghost after = pipe@;
        self.put_pipe(key, pipe);
        proof {
            assert(old(self)@.pipes.remove(key).insert(key, after) =~= old(self)@.pipes.insert(
                key,
                after,
            ));
            if cmd != F_SETFL {
                assert(old(self)@.pipes.insert(key, after) =~= old(self)@.pipes);
            }
            assert(self@ =~= fcntl_state(old(self)@, id, cmd, arg));
        }
        if cmd == F_GETFL {
            Ok(flags)
        } else if cmd == F_SETFL {
            Ok(0)
        } else {
            Err(Error::InvalidArgument)
        }
    }

    /// Which of the requested readiness flags hold now.
    pub fn fevent(&self, id: usize, flags: usize) -> (r: Result<usize, Error>)
        ensures
            r == fevent_outcome(self@, id, flags),
    {
        proof {
            use_type_invariant(self);
        }
        let (is_write, key) = from_raw_id(id);
        let len = match self.pipes.get(&key) {
            Some(p) => p.queue.len(),
            None => return Err(Error::BadDescriptor),
        };
        if is_write && flags == EVENT_WRITE {
            if len >= MAX_QUEUE_SIZE {
                Ok(EVENT_NONE)
            } else {
                Ok(EVENT_WRITE)
            }
        } else if flags == EVENT_READ {
            if len == 0 {
                Ok(EVENT_NONE)
            } else {
                Ok(EVENT_READ)
            }
        } else {
            Err(Error::BadDescriptor)
        }
    }

    pub fn fsync(&self, id: usize) -> (r: Result<usize, Error>)
        ensures
            r == Ok::<usize, Error>(0),
    {
        Ok(0)
    }

    /// Pipes have no position.
    pub fn seek(&self, id: usize, pos: isize, whence: usize) -> (r: Result<isize, Error>)
        ensures
            r == Err::<isize, Error>(Error::NotSeekable),
    {
        Err(Error::NotSeekable)
    }

    /// Every pipe end reports itself as a FIFO readable and writable by all.
    pub fn kfstat(&self, id: usize) -> (r: Result<Stat, Error>)
        ensures
            r == Ok::<Stat, Error>(fifo_stat()),
    {
        Ok(
            Stat {
                st_mode: MODE_FIFO | 0o666,
                st_size: 0,
                st_blksize: 0,
                st_blocks: 0,
                st_ino: 0,
                st_nlink: 0,
            },
        )
    }
}

/// The identity under which the pipe scheme was registered.
pub fn pipe_scheme_id(scheme: &PipeScheme) -> (r: SchemeId)
    ensures
        r == scheme@.scheme_id,
{
    scheme.scheme_id
}

pub open spec fn fifo_stat() -> Stat {
    Stat {
        st_mode: MODE_FIFO | 0o666,
        st_size: 0,
        st_blksize: 0,
        st_blocks: 0,
        st_ino: 0,
        st_nlink: 0,
    }
}

/// A fresh pipe hands back what was written to it: after `pipe`, writing `x`
/// to the writing end accepts all of `x`, and reading `|x|` bytes from the
/// reading end then yields exactly `x`, whenever `x` fits in the queue.
pub proof fn lemma_pipe_round_trip(s: PipeSchemeView, flags: usize, x: Seq<u8>)
    requires
        s.wf(),
        pipe_spec(s, flags).1 is Ok,
        x.len() <= MAX_QUEUE_SIZE,
    ensures
        ({
            let s1 = pipe_spec(s, flags).0;
            let (rid, wid) = pipe_spec(s, flags).1->Ok_0;
            let s2 = write_state(s1, wid, x);
            &&& write_outcome(s1, wid, x) == Ok::<Progress<usize>, Error>(
                Progress::Done(x.len() as usize),
            )
            &&& read_outcome(s2, rid, x.len()) == Ok::<Progress<Seq<u8>>, Error>(
                Progress::Done(x),
            )
        }),
{
    let s1 = pipe_spec(s, flags).0;
    let (rid, wid) = pipe_spec(s, flags).1->Ok_0;
    let k = s.next_id;
    assert(rid == k && wid == write_id_of(k));
    assert(is_write_id(wid) && key_of(wid) == k);
    assert(!is_write_id(rid) && key_of(rid) == k);
    assert(s1.pipes[k] == new_pipe(flags));
    let s2 = write_state(s1, wid, x);
    if x.len() > 0 {
        assert(x.take(x.len() as int) =~= x);
        assert(s2.pipes[k].queue =~= x);
        assert(s2.pipes[k].queue.take(x.len() as int) =~= x);
    } else {
        assert(x =~= seq![]);
    }
}

/// Once both ends of a pipe are closed, in either order, its record is gone,
/// and its key can be handed out again when the counter comes back to it.
pub proof fn lemma_close_both_frees(s: PipeSchemeView, key: usize, flags: usize)
    requires
        s.wf(),
        s.pipes.contains_key(key),
    ensures
        !close_state(close_state(s, key), write_id_of(key)).pipes.contains_key(key),
        !close_state(close_state(s, write_id_of(key)), key).pipes.contains_key(key),
        close_state(close_state(s, key), write_id_of(key)).next_id == key ==> pipe_spec(
            close_state(close_state(s, key), write_id_of(key)),
            flags,
        ).1 == Ok::<(usize, usize), Error>((key, write_id_of(key))),
{
    assert(key < WRITE_NOT_READ_BIT);
    assert(!is_write_id(key) && key_of(key) == key);
    assert(is_write_id(write_id_of(key)) && key_of(write_id_of(key)) == key);
}

} // verus!
