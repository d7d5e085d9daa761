use stealthmem::parse::ParseError;
use stealthmem::request::{
    new_buffer, resolve_args, Args, MemoryParams, IOCTL_MAGIC_READ, IOCTL_MAGIC_WRITE,
};

#[test]
fn resolves_a_full_triple() {
    let args = resolve_args("1234", "0x1000", "8").unwrap();
    assert_eq!(args.pid, 1234);
    assert_eq!(args.address, 4096);
    assert_eq!(args.size, 8);
}

#[test]
fn resolves_decimal_address_too() {
    let args = resolve_args("1", "4096", "8").unwrap();
    assert_eq!(args.address, 4096);
}

#[test]
fn first_bad_token_decides_the_error() {
    assert_eq!(resolve_args("x", "y", "z"), Err(ParseError::InvalidDigit));
    assert_eq!(resolve_args("", "0x1000", "8"), Err(ParseError::Empty));
    assert_eq!(resolve_args("1", "zz", "8"), Err(ParseError::InvalidDigit));
    assert_eq!(resolve_args("1", "0x1000", "no"), Err(ParseError::InvalidDigit));
}

#[test]
fn buffer_length_equals_requested_size() {
    for size in [0usize, 1, 8, 4096] {
        let buf = new_buffer(size);
        assert_eq!(buf.len(), size);
        assert!(buf.iter().all(|b| *b == 0));
    }
}

#[test]
fn request_size_field_equals_buffer_length() {
    let args = Args { pid: 1234, address: 4096, size: 8 };
    let params = MemoryParams::from_args(&args, new_buffer(args.size));
    assert_eq!(params.pid, 1234);
    assert_eq!(params.addr, 4096);
    assert_eq!(params.size, 8);
    assert_eq!(params.size, params.buf.len());
}

#[test]
fn request_with_empty_buffer() {
    let args = Args { pid: 1, address: 0, size: 0 };
    let params = MemoryParams::from_args(&args, new_buffer(0));
    assert_eq!(params.size, 0);
    assert_eq!(params.buf.len(), 0);
}

#[test]
fn construction_is_deterministic() {
    let args = Args { pid: -7, address: 0xdead_beef, size: 4 };
    let a = MemoryParams::from_args(&args, vec![9, 8, 7, 6]);
    let b = MemoryParams::from_args(&args, vec![9, 8, 7, 6]);
    assert_eq!(a.pid, b.pid);
    assert_eq!(a.addr, b.addr);
    assert_eq!(a.size, b.size);
    assert_eq!(a.buf, b.buf);
}

#[test]
fn command_codes_are_fixed() {
    assert_eq!(IOCTL_MAGIC_READ, 0xBC);
    assert_eq!(IOCTL_MAGIC_WRITE, 0xBD);
}
