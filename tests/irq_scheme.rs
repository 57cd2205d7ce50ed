use kernel::error::Error;
use kernel::flag::{SchemeId, EVENT_READ, O_CREAT, O_DIRECTORY, O_STAT, SEEK_END, SEEK_SET};
use kernel::irq::{irq_trigger, irq_to_vector, vector_to_irq, IrqScheme, INO_BSP, WORD_SIZE};

fn scheme() -> IrqScheme {
    IrqScheme::new(SchemeId(3), vec![0, 1], Some(0))
}

fn word(v: u64) -> Vec<u8> {
    v.to_le_bytes().to_vec()
}

#[test]
fn irq_round_trip() {
    let mut s = scheme();
    let fd = s.open("3", 0, 0, 0).unwrap();
    irq_trigger(&mut s, 3);
    irq_trigger(&mut s, 3);
    assert_eq!(s.kread(fd, 8), Ok((word(2), WORD_SIZE)));
    assert_eq!(s.kwrite(fd, &word(2)), Ok((WORD_SIZE, Some(3))));
    assert_eq!(s.kread(fd, 8), Ok((Vec::new(), 0)));
    irq_trigger(&mut s, 3);
    assert_eq!(s.kread(fd, 8), Ok((word(3), WORD_SIZE)));
}

#[test]
fn irq_stale_ack_is_ignored() {
    let mut s = scheme();
    let fd = s.open("/5", 0, 0, 0).unwrap();
    irq_trigger(&mut s, 5);
    assert_eq!(s.kwrite(fd, &word(7)), Ok((0, None)));
    assert_eq!(s.kread(fd, 8), Ok((word(1), WORD_SIZE)));
    assert_eq!(s.kwrite(fd, b"abc"), Err(Error::InvalidArgument));
    assert_eq!(s.kread(fd, 4), Err(Error::InvalidArgument));
}

#[test]
fn irq_reservation() {
    let mut s = scheme();
    let a = s.open("cpu-00/48", O_CREAT, 0, 0).unwrap();
    assert!(s.is_reserved(0, irq_to_vector(48)));
    assert_eq!(s.open("cpu-00/48", O_CREAT, 0, 0), Err(Error::AlreadyExists));
    assert_eq!(s.close(a), Ok(0));
    assert!(!s.is_reserved(0, irq_to_vector(48)));
    assert!(s.open("cpu-00/48", O_CREAT, 0, 0).is_ok());
}

#[test]
fn irq_extended_needs_create_or_stat() {
    let mut s = scheme();
    assert_eq!(s.open("cpu-01/40", 0, 0, 0), Err(Error::InvalidArgument));
    let st = s.open("cpu-01/40", O_STAT, 0, 0).unwrap();
    assert!(!s.is_reserved(1, 72));
    assert_eq!(s.close(st), Ok(0));
    assert_eq!(s.open("cpu-01/224", O_CREAT, 0, 0), Err(Error::NoEntity));
    assert_eq!(s.open("cpu-01/x", O_CREAT, 0, 0), Err(Error::NoEntity));
}

#[test]
fn irq_legacy_on_bsp_is_shared() {
    let mut s = scheme();
    let a = s.open("cpu-00/4", 0, 0, 0).unwrap();
    let b = s.open("cpu-00/4", 0, 0, 0).unwrap();
    assert_ne!(a, b);
    assert!(!s.is_reserved(0, 36));
}

#[test]
fn irq_paths_rejected() {
    let mut s = scheme();
    assert_eq!(s.open("3", 0, 1000, 0), Err(Error::NotPermitted));
    assert_eq!(s.open("16", 0, 0, 0), Err(Error::NoEntity));
    assert_eq!(s.open("nonsense", 0, 0, 0), Err(Error::NoEntity));
    assert_eq!(s.open("cpu-", 0, 0, 0), Err(Error::NoEntity));
    assert_eq!(s.open("cpu-zz", 0, 0, 0), Err(Error::NoEntity));
    assert_eq!(s.open("cpu-00x", 0, 0, 0), Err(Error::NoEntity));
    assert_eq!(s.open("", 0, 0, 0), Err(Error::IsDirectory));
}

#[test]
fn irq_toplevel_listing() {
    let mut s = scheme();
    let fd = s.open("", O_DIRECTORY, 0, 0).unwrap();
    let expect = b"cpu-00\ncpu-01\nbsp\n".to_vec();
    assert_eq!(s.kread(fd, 100), Ok((expect.clone(), expect.len())));
    assert_eq!(s.kread(fd, 100), Ok((Vec::new(), 0)));
    assert_eq!(s.seek(fd, 0, SEEK_SET), Ok(0));
    assert_eq!(s.kread(fd, 4), Ok((b"cpu-".to_vec(), 4)));
    assert_eq!(s.seek(fd, -4, SEEK_END), Ok(expect.len() as isize - 4));
    assert_eq!(s.kread(fd, 100), Ok((b"bsp\n".to_vec(), 4)));
    assert_eq!(s.seek(fd, -100, SEEK_SET), Err(Error::InvalidArgument));
    assert_eq!(s.kfstat(fd).unwrap().st_size, expect.len() as u64);
}

#[test]
fn irq_toplevel_without_bsp() {
    let mut s = IrqScheme::new(SchemeId(3), vec![0x1b], None);
    let fd = s.open("/", O_STAT, 0, 0).unwrap();
    assert_eq!(s.kread(fd, 100), Ok((b"cpu-1b\n".to_vec(), 7)));
    assert_eq!(s.open("bsp", 0, 0, 0), Err(Error::NoEntity));
}

#[test]
fn irq_available_listing_skips_legacy_and_reserved() {
    let mut s = scheme();
    s.set_reserved(0, 0x80, true);
    let fd = s.open("cpu-00", 0, 0, 0).unwrap();
    let (text, n) = s.kread(fd, 10000).unwrap();
    assert_eq!(text.len(), n);
    let lines: Vec<String> = String::from_utf8(text).unwrap().lines().map(|l| l.to_string()).collect();
    assert_eq!(lines.first().map(|s| s.as_str()), Some("16"));
    assert_eq!(lines.last().map(|s| s.as_str()), Some("223"));
    assert!(!lines.iter().any(|l| l == "96"));
    assert_eq!(lines.len(), 223 - 16);
    let other = s.open("cpu-01/", 0, 0, 0).unwrap();
    let (t1, _) = s.kread(other, 10000).unwrap();
    assert!(t1.starts_with(b"0\n1\n2\n"));
}

#[test]
fn irq_bsp_handle() {
    let mut s = IrqScheme::new(SchemeId(3), vec![0], Some(0x12345678));
    let fd = s.open("bsp", 0, 0, 0).unwrap();
    assert_eq!(s.kread(fd, 8), Ok((vec![0x78, 0x56, 0x34, 0x12], WORD_SIZE)));
    assert_eq!(s.kfstat(fd).unwrap().st_ino, INO_BSP);
    assert_eq!(s.kwrite(fd, &word(0)), Err(Error::BadDescriptor));
    assert_eq!(s.seek(fd, 0, SEEK_SET), Err(Error::NotSeekable));
}

#[test]
fn irq_fpath() {
    let mut s = scheme();
    let a = s.open("12", 0, 0, 0).unwrap();
    let b = s.open("cpu-01", 0, 0, 0).unwrap();
    let c = s.open("bsp", 0, 0, 0).unwrap();
    assert_eq!(s.kfpath(a, 64), Ok(b"irq:12".to_vec()));
    assert_eq!(s.kfpath(b, 64), Ok(b"irq:cpu- 1".to_vec()));
    assert_eq!(s.kfpath(c, 5), Ok(b"irq:b".to_vec()));
    assert_eq!(s.kfpath(99, 5), Err(Error::BadDescriptor));
}

#[test]
fn irq_stat_modes() {
    let mut s = scheme();
    let a = s.open("12", 0, 0, 0).unwrap();
    let st = s.kfstat(a).unwrap();
    assert_eq!(st.st_mode, 0x2000 | 0o600);
    assert_eq!(st.st_ino, 12);
    assert_eq!(st.st_size, 8);
    let b = s.open("cpu-01", 0, 0, 0).unwrap();
    assert_eq!(s.kfstat(b).unwrap().st_ino, 0x8000_0001_0000_0000);
}

#[test]
fn irq_trigger_fans_out_to_matching_handles() {
    let mut s = scheme();
    let a = s.open("3", 0, 0, 0).unwrap();
    let _b = s.open("4", 0, 0, 0).unwrap();
    let c = s.open("cpu-00/3", 0, 0, 0).unwrap();
    irq_trigger(&mut s, 3);
    let ev = s.take_events();
    let ids: Vec<usize> = ev.iter().map(|e| e.id).collect();
    assert_eq!(ids, vec![a, c]);
    assert!(ev.iter().all(|e| e.flags == EVENT_READ && e.scheme == SchemeId(3)));
    assert_eq!(s.count(3), 1);
    assert_eq!(s.count(4), 0);
}

#[test]
fn irq_closed_handle_is_gone() {
    let mut s = scheme();
    let a = s.open("3", 0, 0, 0).unwrap();
    assert_eq!(s.close(a), Ok(0));
    assert_eq!(s.close(a), Err(Error::BadDescriptor));
    assert_eq!(s.kread(a, 8), Err(Error::BadDescriptor));
}

#[test]
fn irq_vector_numbers() {
    assert_eq!(irq_to_vector(0), 32);
    assert_eq!(irq_to_vector(223), 255);
    assert_eq!(vector_to_irq(48), 16);
}
