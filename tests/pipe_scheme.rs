use kernel::error::{mux, Error, EAGAIN, EPIPE};
use kernel::flag::{SchemeId, EVENT_READ, EVENT_WRITE, F_GETFL, F_SETFL, O_NONBLOCK, O_RDWR};
use kernel::pipe::{
    from_raw_id, pipe, pipe_scheme_id, PipeScheme, Progress, MAX_QUEUE_SIZE, WRITE_NOT_READ_BIT,
};

fn scheme() -> PipeScheme {
    PipeScheme::new(SchemeId(7))
}

#[test]
fn pipe_fifo() {
    let mut s = scheme();
    let (r, w) = pipe(&mut s, 0).unwrap();
    assert_eq!(s.kwrite(w, b"hello"), Ok(Progress::Done(5)));
    assert_eq!(s.kread(r, 16), Ok(Progress::Done(b"hello".to_vec())));
}

#[test]
fn pipe_eof_after_writer_closes() {
    let mut s = scheme();
    let (r, w) = pipe(&mut s, 0).unwrap();
    assert_eq!(s.kwrite(w, b"hello"), Ok(Progress::Done(5)));
    assert_eq!(s.kread(r, 16), Ok(Progress::Done(b"hello".to_vec())));
    assert_eq!(s.close(w), Ok(0));
    assert_eq!(s.kread(r, 16), Ok(Progress::Done(Vec::new())));
}

#[test]
fn pipe_epipe_after_reader_closes() {
    let mut s = scheme();
    let (r, w) = pipe(&mut s, 0).unwrap();
    assert_eq!(s.close(r), Ok(0));
    assert_eq!(s.kwrite(w, b"anything"), Err(Error::Pipe));
    assert_eq!(mux(Err(Error::Pipe)) as isize, -(EPIPE as isize));
}

#[test]
fn pipe_nonblocking_empty_read() {
    let mut s = scheme();
    let (r, _w) = pipe(&mut s, 0).unwrap();
    assert_eq!(s.fcntl(r, F_SETFL, O_NONBLOCK), Ok(0));
    assert_eq!(s.kread(r, 16), Err(Error::WouldBlock));
    assert_eq!(mux(Err(Error::WouldBlock)) as isize, -(EAGAIN as isize));
}

#[test]
fn pipe_blocking_empty_read_blocks() {
    let mut s = scheme();
    let (r, _w) = pipe(&mut s, 0).unwrap();
    assert_eq!(s.kread(r, 16), Ok(Progress::Blocked));
}

#[test]
fn pipe_open_through_path_then_dup_writer() {
    let mut s = scheme();
    let r = s.kopen("", 0).unwrap();
    let w = s.kdup(r, b"write").unwrap();
    assert_eq!(w, r | WRITE_NOT_READ_BIT);
    assert_eq!(s.kdup(r, b"write"), Err(Error::BadDescriptor));
    assert_eq!(s.kwrite(w, b"xy"), Ok(Progress::Done(2)));
    assert_eq!(s.kread(r, 1), Ok(Progress::Done(b"x".to_vec())));
    assert_eq!(s.kread(r, 1), Ok(Progress::Done(b"y".to_vec())));
}

#[test]
fn pipe_open_rejects_nonempty_path() {
    let mut s = scheme();
    assert_eq!(s.kopen("abc", 0), Err(Error::NoEntity));
    assert_eq!(s.kopen("///", 0), Ok(1));
}

#[test]
fn pipe_dup_errors() {
    let mut s = scheme();
    let (r, w) = pipe(&mut s, 0).unwrap();
    assert_eq!(s.kdup(w, b"write"), Err(Error::BadDescriptor));
    assert_eq!(s.kdup(r, b"read"), Err(Error::InvalidArgument));
    assert_eq!(s.kdup(r, b"writer"), Err(Error::InvalidArgument));
    assert_eq!(s.kdup(12345, b"write"), Err(Error::BadDescriptor));
}

#[test]
fn pipe_wrong_end_is_bad_descriptor() {
    let mut s = scheme();
    let (r, w) = pipe(&mut s, 0).unwrap();
    assert_eq!(s.kread(w, 4), Err(Error::BadDescriptor));
    assert_eq!(s.kwrite(r, b"x"), Err(Error::BadDescriptor));
    assert_eq!(s.close(999), Err(Error::BadDescriptor));
}

#[test]
fn pipe_round_trip_full_queue() {
    let mut s = scheme();
    let (r, w) = pipe(&mut s, 0).unwrap();
    let data: Vec<u8> = (0..MAX_QUEUE_SIZE).map(|i| (i * 7 % 251) as u8).collect();
    assert_eq!(s.kwrite(w, &data), Ok(Progress::Done(MAX_QUEUE_SIZE)));
    assert_eq!(s.kread(r, MAX_QUEUE_SIZE), Ok(Progress::Done(data)));
}

#[test]
fn pipe_write_is_cut_at_capacity() {
    let mut s = scheme();
    let (_r, w) = pipe(&mut s, O_NONBLOCK).unwrap();
    let data = vec![1u8; MAX_QUEUE_SIZE + 10];
    assert_eq!(s.kwrite(w, &data), Ok(Progress::Done(MAX_QUEUE_SIZE)));
    assert_eq!(s.kwrite(w, b"z"), Err(Error::WouldBlock));
    assert_eq!(s.fevent(w, EVENT_WRITE), Ok(0));
}

#[test]
fn pipe_close_both_frees_record() {
    let mut s = scheme();
    let (r, w) = pipe(&mut s, 0).unwrap();
    assert_eq!(s.close(r), Ok(0));
    assert_eq!(s.close(w), Ok(0));
    assert_eq!(s.kwrite(w, b"x"), Err(Error::BadDescriptor));
    assert_eq!(s.fcntl(r, F_GETFL, 0), Err(Error::BadDescriptor));
}

#[test]
fn pipe_keys_count_up() {
    let mut s = scheme();
    let (r1, _) = pipe(&mut s, 0).unwrap();
    let (r2, w2) = pipe(&mut s, 0).unwrap();
    assert_eq!(r1, 1);
    assert_eq!(r2, 2);
    assert_eq!(from_raw_id(w2), (true, 2));
    assert_eq!(from_raw_id(r2), (false, 2));
}

#[test]
fn pipe_fcntl_flags_per_end() {
    let mut s = scheme();
    let (r, w) = pipe(&mut s, 5).unwrap();
    assert_eq!(s.fcntl(r, F_GETFL, 0), Ok(5));
    assert_eq!(s.fcntl(w, F_SETFL, O_NONBLOCK | O_RDWR), Ok(0));
    assert_eq!(s.fcntl(w, F_GETFL, 0), Ok(O_NONBLOCK));
    assert_eq!(s.fcntl(r, F_GETFL, 0), Ok(5));
    assert_eq!(s.fcntl(r, 99, 0), Err(Error::InvalidArgument));
}

#[test]
fn pipe_fevent_and_events() {
    let mut s = scheme();
    let (r, w) = pipe(&mut s, 0).unwrap();
    assert_eq!(s.fevent(r, EVENT_READ), Ok(0));
    assert_eq!(s.fevent(w, EVENT_WRITE), Ok(EVENT_WRITE));
    assert_eq!(s.fevent(r, EVENT_WRITE), Err(Error::BadDescriptor));
    s.kwrite(w, b"ab").unwrap();
    assert_eq!(s.fevent(r, EVENT_READ), Ok(EVENT_READ));
    s.kread(r, 1).unwrap();
    let ev = s.take_events();
    assert_eq!(ev.len(), 2);
    assert_eq!((ev[0].id, ev[0].flags), (r, EVENT_READ));
    assert_eq!((ev[1].id, ev[1].flags), (w, EVENT_WRITE));
    assert_eq!(ev[0].scheme, pipe_scheme_id(&s));
    assert!(s.take_events().is_empty());
}

#[test]
fn pipe_seek_and_stat() {
    let s = scheme();
    assert_eq!(s.seek(1, 0, 0), Err(Error::NotSeekable));
    assert_eq!(s.kfstat(1).unwrap().st_mode, 0x1000 | 0o666);
    assert_eq!(s.fsync(1), Ok(0));
}
