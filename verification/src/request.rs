//! The memory request: the fixed-layout value handed to the control
//! device, and the resolver that builds its scalar arguments from the
//! command line's textual tokens.

use vstd::prelude::*;

use crate::parse::{
    spec_parse_address, spec_parse_i32, spec_parse_usize, maybe_hex, parse_i32, parse_usize,
    ParseError,
};

verus! {

/// Command code of a control call that copies remote memory into the
/// caller's buffer.
pub const IOCTL_MAGIC_READ: u8 = 0xBC;

/// Command code of a control call that copies the caller's buffer into
/// remote memory.
pub const IOCTL_MAGIC_WRITE: u8 = 0xBD;

/// The resolved command-line triple: no further semantic validation is
/// applied beyond parseability of each token.
#[derive(Clone, Copy, Debug, PartialEq, Eq, Structural)]
pub struct Args {
    /// Process identifier of the remote process.
    pub pid: i32,
    /// Target virtual address in the remote process.
    pub address: u64,
    /// Number of bytes to transfer.
    pub size: usize,
}

/// What resolving the three tokens returns: the first token that fails
/// to parse decides the error, in the order pid, address, size.
pub open spec fn spec_resolve(pid: Seq<char>, address: Seq<char>, size: Seq<char>) -> Result<
    Args,
    ParseError,
> {
    match spec_parse_i32(pid) {
        Err(e) => Err(e),
        Ok(p) => match spec_parse_address(address) {
            Err(e) => Err(e),
            Ok(a) => match spec_parse_usize(size) {
                Err(e) => Err(e),
                Ok(n) => Ok(Args { pid: p, address: a, size: n }),
            },
        },
    }
}

/// Resolves the three textual tokens of an invocation into typed
/// scalars.
pub fn resolve_args(pid: &str, address: &str, size: &str) -> (r: Result<Args, ParseError>)
    ensures
        r == spec_resolve(pid@, address@, size@),
{
    let p = match parse_i32(pid) {
        Err(e) => {
            return Err(e);
        },
        Ok(p) => p,
    };
    let a = match maybe_hex(address) {
        Err(e) => {
            return Err(e);
        },
        Ok(a) => a,
    };
    let n = match parse_usize(size) {
        Err(e) => {
            return Err(e);
        },
        Ok(n) => n,
    };
    Ok(Args { pid: p, address: a, size: n })
}

/// One read or write transaction: the wire contract with the driver is
/// the field order {pid, address, size, buffer}, each at its native
/// width. The buffer is exclusively owned by the invocation that built
/// the request and its length always equals `size`.
pub struct MemoryParams {
    /// Signed 32-bit identifier of the remote process.
    pub pid: i32,
    /// Unsigned 64-bit target virtual address.
    pub addr: u64,
    /// Word-sized byte count; always the length of `buf`.
    pub size: usize,
    /// The caller-owned byte region the driver fills or reads.
    pub buf: Vec<u8>,
}

impl MemoryParams {
    /// The request's invariant: the size field equals the buffer's
    /// exact length.
    pub open spec fn wf(self) -> bool {
        self.size == self.buf@.len()
    }

    /// Builds a request from the resolved triple and a caller-supplied
    /// buffer of exactly `args.size` bytes. Construction cannot fail
    /// and pins every field, so the wire value is a function of its
    /// inputs alone.
    pub fn from_args(args: &Args, buf: Vec<u8>) -> (r: Self)
        requires
            buf@.len() == args.size,
        ensures
            r.pid == args.pid,
            r.addr == args.address,
            r.size == args.size,
            r.buf@ == buf@,
            r.wf(),
    {
        Self { pid: args.pid, addr: args.address, size: args.size, buf }
    }
}

/// A freshly allocated, zero-initialized buffer of exactly `size`
/// bytes, ready to receive a read transfer.
pub fn new_buffer(size: usize) -> (r: Vec<u8>)
    ensures
        r@.len() == size,
        forall|i: int| 0 <= i < size ==> r@[i] == 0u8,
{
    let mut v: Vec<u8> = Vec::new();
    while v.len() < size
        invariant
            v@.len() <= size,
            forall|i: int| 0 <= i < v@.len() ==> v@[i] == 0u8,
        decreases size - v@.len(),
    {
        v.push(0u8);
    }
    v
}

/// Construction of the wire value is deterministic: two requests built
/// from the same resolved arguments and the same buffer contents agree
/// on every field, in order {pid, address, size, buffer}. Nothing about
/// the layout depends on the construction.
pub proof fn lemma_from_args_deterministic(a: MemoryParams, b: MemoryParams, args: Args, buf: Seq<u8>)
    requires
        a.pid == args.pid,
        a.addr == args.address,
        a.size == args.size,
        a.buf@ == buf,
        b.pid == args.pid,
        b.addr == args.address,
        b.size == args.size,
        b.buf@ == buf,
    ensures
        a.pid == b.pid,
        a.addr == b.addr,
        a.size == b.size,
        a.buf@ == b.buf@,
        a.wf() <==> b.wf(),
{
}

} // verus!
