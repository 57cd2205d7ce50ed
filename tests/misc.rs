use kernel::boot::{init_env, Bootstrap, KernelArgs};
use kernel::debug::debug_buf;
use kernel::flag::SchemeId;
use kernel::scheme::{split_url, SchemeRegistry};
use kernel::error::{mux, Error};
use kernel::text::{parse_u8, push_dec, push_hex2, push_hex2_spaced, skip_slashes, trim_end};

#[test]
fn errno_encoding() {
    assert_eq!(Error::BadDescriptor.errno(), 9);
    assert_eq!(Error::NotPermitted.errno(), 13);
    assert_eq!(Error::from_errno(17), Some(Error::AlreadyExists));
    assert_eq!(Error::from_errno(1000), None);
    assert_eq!(mux(Ok(5)), 5);
    assert_eq!(mux(Err(Error::NoEntity)), usize::MAX - 1);
}

#[test]
fn number_parsing() {
    let s = b"+48";
    assert_eq!(parse_u8(s, 0, 3, 10), Some(48));
    assert_eq!(parse_u8(b"255", 0, 3, 10), Some(255));
    assert_eq!(parse_u8(b"256", 0, 3, 10), None);
    assert_eq!(parse_u8(b"007", 0, 3, 10), Some(7));
    assert_eq!(parse_u8(b"+", 0, 1, 10), None);
    assert_eq!(parse_u8(b"", 0, 0, 10), None);
    assert_eq!(parse_u8(b"1b", 0, 2, 16), Some(0x1b));
    assert_eq!(parse_u8(b"FF", 0, 2, 16), Some(0xff));
    assert_eq!(parse_u8(b"1g", 0, 2, 16), None);
}

#[test]
fn number_formatting() {
    let mut v = Vec::new();
    push_dec(&mut v, 0);
    push_dec(&mut v, 48);
    push_dec(&mut v, 223);
    push_hex2(&mut v, 0x0b);
    push_hex2_spaced(&mut v, 0x0b);
    assert_eq!(v, b"048223" .iter().chain(b"0b b").copied().collect::<Vec<u8>>());
}

#[test]
fn slash_trimming() {
    let p = b"//cpu-00//";
    assert_eq!(skip_slashes(p, 0), 2);
    assert_eq!(trim_end(p, 2, p.len()), 8);
}

#[test]
fn bootstrap_from_args() {
    let args = KernelArgs {
        kernel_base: 0,
        kernel_size: 0,
        stack_base: 0,
        stack_size: 0,
        env_base: 0,
        env_size: 0,
        dtb_base: 0,
        dtb_size: 0,
        areas_base: 0,
        areas_size: 0,
        bootstrap_base: 0x12_3456,
        bootstrap_size: 0x3001,
        bootstrap_entry: 0x40_0000,
    };
    let b = Bootstrap::from_args(&args, b"A=1".to_vec());
    assert_eq!(b.base, 0x12_3000);
    assert_eq!(b.page_count, 3);
    assert_eq!(b.entry, 0x40_0000);
    assert_eq!(init_env(&b), b"A=1");
}

#[test]
fn debug_buffer_is_capped() {
    let big = vec![7u8; 5000];
    assert_eq!(debug_buf(&big).len(), 4096);
    assert_eq!(debug_buf(b"abc"), b"abc".to_vec());
}

#[test]
fn scheme_registry() {
    let mut r = SchemeRegistry::new();
    assert_eq!(r.insert(b"pipe".to_vec()), Ok(SchemeId(1)));
    assert_eq!(r.insert(b"irq".to_vec()), Ok(SchemeId(2)));
    assert_eq!(r.insert(b"pipe".to_vec()), Err(Error::AlreadyExists));
    assert_eq!(r.lookup(b"irq"), Some(SchemeId(2)));
    assert_eq!(r.lookup(b"ir"), None);
    let url = b"irq:cpu-00/48";
    assert_eq!(split_url(url), Some(3));
    assert_eq!(split_url(b"nocolon"), None);
    assert_eq!(split_url(b"pipe:"), Some(4));
}
