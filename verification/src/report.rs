//! The result reporter: renders the outcome of one invocation — the
//! failure diagnostics, or the success line (transfer count, pid,
//! address in hexadecimal) followed by the buffer's byte contents.

use vstd::prelude::*;

use crate::parse::{
    dec_value, hex_value, all_dec_digits, all_hex_digits, dec_digit_value, hex_digit_value,
};

verus! {

/// The decimal digit character for `d`.
pub open spec fn dec_char(d: nat) -> char
    recommends
        d < 10,
{
    if d == 0 {
        '0'
    } else if d == 1 {
        '1'
    } else if d == 2 {
        '2'
    } else if d == 3 {
        '3'
    } else if d == 4 {
        '4'
    } else if d == 5 {
        '5'
    } else if d == 6 {
        '6'
    } else if d == 7 {
        '7'
    } else if d == 8 {
        '8'
    } else {
        '9'
    }
}

/// The lower-case hexadecimal digit character for `d`.
pub open spec fn hex_char(d: nat) -> char
    recommends
        d < 16,
{
    if d < 10 {
        dec_char(d)
    } else if d == 10 {
        'a'
    } else if d == 11 {
        'b'
    } else if d == 12 {
        'c'
    } else if d == 13 {
        'd'
    } else if d == 14 {
        'e'
    } else {
        'f'
    }
}

/// `n` written base-10, most significant digit first, no leading
/// zeros (a single `0` for zero itself).
pub open spec fn dec_string(n: nat) -> Seq<char>
    decreases n,
{
    if n < 10 {
        seq![dec_char(n)]
    } else {
        dec_string(n / 10) + seq![dec_char(n % 10)]
    }
}

/// `n` written base-16 in lower case, most significant digit first,
/// no leading zeros and no marker.
pub open spec fn hex_string(n: nat) -> Seq<char>
    decreases n,
{
    if n < 16 {
        seq![hex_char(n)]
    } else {
        hex_string(n / 16) + seq![hex_char(n % 16)]
    }
}

/// A signed value written base-10: a leading `-` for a negative one.
pub open spec fn signed_dec_string(p: int) -> Seq<char> {
    if p < 0 {
        seq!['-'] + dec_string((-p) as nat)
    } else {
        dec_string(p as nat)
    }
}

/// The bytes written base-10 and separated by comma-space.
pub open spec fn bytes_inner(s: Seq<u8>) -> Seq<char>
    decreases s.len(),
{
    if s.len() == 0 {
        Seq::empty()
    } else if s.len() == 1 {
        dec_string(s[0] as nat)
    } else {
        bytes_inner(s.drop_last()) + seq![',', ' '] + dec_string(s.last() as nat)
    }
}

/// The buffer's contents written as a bracketed, comma-separated list.
pub open spec fn bytes_string(s: Seq<u8>) -> Seq<char> {
    seq!['['] + bytes_inner(s) + seq![']']
}

/// The diagnostic printed when the device cannot be opened.
pub open spec fn open_failure_text() -> Seq<char> {
    "could not open device file"@
}

/// The diagnostic printed when the control call fails.
pub open spec fn transfer_failure_text() -> Seq<char> {
    "failed to read memory"@
}

/// The success line: transfer count, pid, and address in hexadecimal.
pub open spec fn success_line(count: int, pid: int, addr: nat) -> Seq<char> {
    "read "@ + signed_dec_string(count) + " from pid "@ + signed_dec_string(pid) + " at "@
        + hex_string(addr)
}

/// The line carrying the buffer's byte contents.
pub open spec fn value_line(buf: Seq<u8>) -> Seq<char> {
    "value: "@ + bytes_string(buf)
}

/// The single decimal digit `d` as a string slice.
fn dec_digit_str(d: u64) -> (r: &'static str)
    requires
        d < 10,
    ensures
        r@ == seq![dec_char(d as nat)],
{
    proof {
        reveal_strlit("0");
        reveal_strlit("1");
        reveal_strlit("2");
        reveal_strlit("3");
        reveal_strlit("4");
        reveal_strlit("5");
        reveal_strlit("6");
        reveal_strlit("7");
        reveal_strlit("8");
        reveal_strlit("9");
    }
    let r: &'static str = match d {
        0 => "0",
        1 => "1",
        2 => "2",
        3 => "3",
        4 => "4",
        5 => "5",
        6 => "6",
        7 => "7",
        8 => "8",
        _ => "9",
    };
    proof {
        assert(r@ =~= seq![dec_char(d as nat)]);
    }
    r
}

/// The single lower-case hexadecimal digit `d` as a string slice.
fn hex_digit_str(d: u64) -> (r: &'static str)
    requires
        d < 16,
    ensures
        r@ == seq![hex_char(d as nat)],
{
    if d < 10 {
        dec_digit_str(d)
    } else {
        proof {
            reveal_strlit("a");
            reveal_strlit("b");
            reveal_strlit("c");
            reveal_strlit("d");
            reveal_strlit("e");
            reveal_strlit("f");
        }
        let r: &'static str = match d {
            10 => "a",
            11 => "b",
            12 => "c",
            13 => "d",
            14 => "e",
            _ => "f",
        };
        proof {
            assert(r@ =~= seq![hex_char(d as nat)]);
        }
        r
    }
}

/// Renders `n` base-10.
pub fn u64_to_dec(n: u64) -> (r: String)
    ensures
        r@ == dec_string(n as nat),
    decreases n,
{
    if n < 10 {
        String::from_str(dec_digit_str(n))
    } else {
        let mut s = u64_to_dec(n / 10);
        s.append(dec_digit_str(n % 10));
        proof {
            assert(s@ =~= dec_string(n as nat));
        }
        s
    }
}

/// Renders `n` base-16, lower case, without a marker.
pub fn u64_to_hex(n: u64) -> (r: String)
    ensures
        r@ == hex_string(n as nat),
    decreases n,
{
    if n < 16 {
        String::from_str(hex_digit_str(n))
    } else {
        let mut s = u64_to_hex(n / 16);
        s.append(hex_digit_str(n % 16));
        proof {
            assert(s@ =~= hex_string(n as nat));
        }
        s
    }
}

/// Renders a signed value base-10.
pub fn i32_to_dec(p: i32) -> (r: String)
    ensures
        r@ == signed_dec_string(p as int),
{
    if p < 0 {
        let m: u64 = (-(p as i64)) as u64;
        proof {
            reveal_strlit("-");
            assert(m as nat == (-(p as int)) as nat);
        }
        let mut s = String::from_str("-");
        assert(s@ =~= seq!['-']);
        let d = u64_to_dec(m);
        s.append(d.as_str());
        s
    } else {
        u64_to_dec(p as u64)
    }
}

/// Appending one byte extends the rendered list by a separator and
/// that byte's numeral.
proof fn lemma_bytes_inner_step(s: Seq<u8>, i: int)
    requires
        0 <= i < s.len(),
    ensures
        bytes_inner(s.take(i + 1)) == if i == 0 {
            dec_string(s[0] as nat)
        } else {
            bytes_inner(s.take(i)) + seq![',', ' '] + dec_string(s[i] as nat)
        },
{
    let t = s.take(i + 1);
    assert(t.drop_last() =~= s.take(i));
    assert(t.last() == s[i]);
}

/// Renders the buffer's contents as a bracketed, comma-separated list.
pub fn bytes_to_string(buf: &Vec<u8>) -> (r: String)
    ensures
        r@ == bytes_string(buf@),
{
    proof {
        reveal_strlit("[");
        reveal_strlit("]");
        reveal_strlit(", ");
    }
    let mut s = String::from_str("[");
    assert(s@ =~= seq!['[']);
    let mut i: usize = 0;
    while i < buf.len()
        invariant
            0 <= i <= buf@.len(),
            s@ == seq!['['] + bytes_inner(buf@.take(i as int)),
        decreases buf@.len() - i,
    {
        if i > 0 {
            s.append(", ");
        }
        let d = u64_to_dec(buf[i] as u64);
        s.append(d.as_str());
        proof {
            reveal_strlit(", ");
            assert((", ")@ =~= seq![',', ' ']);
            lemma_bytes_inner_step(buf@, i as int);
            assert(s@ =~= seq!['['] + bytes_inner(buf@.take(i as int + 1)));
        }
        i += 1;
    }
    proof {
        assert(buf@.take(buf@.len() as int) =~= buf@);
    }
    s.append("]");
    proof {
        assert(s@ =~= bytes_string(buf@));
    }
    s
}

/// A rendered numeral consists of decimal digits only, and is never
/// empty.
pub proof fn lemma_dec_string_digits(n: nat)
    ensures
        all_dec_digits(dec_string(n)),
        dec_string(n).len() >= 1,
    decreases n,
{
    if n >= 10 {
        lemma_dec_string_digits(n / 10);
        assert forall|i: int| 0 <= i < dec_string(n).len() implies crate::parse::is_dec_digit(
            #[trigger] dec_string(n)[i],
        ) by {
            if i < dec_string(n / 10).len() {
                assert(dec_string(n)[i] == dec_string(n / 10)[i]);
            } else {
                assert(dec_string(n)[i] == dec_char(n % 10));
            }
        }
    }
}

/// A rendered hexadecimal numeral consists of hexadecimal digits only,
/// and is never empty.
pub proof fn lemma_hex_string_digits(n: nat)
    ensures
        all_hex_digits(hex_string(n)),
        hex_string(n).len() >= 1,
    decreases n,
{
    if n >= 16 {
        lemma_hex_string_digits(n / 16);
        assert forall|i: int| 0 <= i < hex_string(n).len() implies crate::parse::is_hex_digit(
            #[trigger] hex_string(n)[i],
        ) by {
            if i < hex_string(n / 16).len() {
                assert(hex_string(n)[i] == hex_string(n / 16)[i]);
            } else {
                assert(hex_string(n)[i] == hex_char(n % 16));
            }
        }
    }
}

/// Reading a rendered base-10 numeral back as a base-10 numeral gives
/// the value that was rendered: the reporter inverts the resolver.
pub proof fn lemma_dec_round_trip(n: nat)
    ensures
        dec_value(dec_string(n)) == n,
    decreases n,
{
    if n < 10 {
        assert(dec_string(n).drop_last() =~= Seq::<char>::empty());
        assert(dec_string(n).last() == dec_char(n));
        assert(dec_digit_value(dec_char(n)) == n);
        assert(dec_value(dec_string(n)) == dec_value(dec_string(n).drop_last()) * 10
            + dec_digit_value(dec_string(n).last()));
        assert(dec_value(Seq::<char>::empty()) == 0);
    } else {
        lemma_dec_round_trip(n / 10);
        assert(dec_string(n).drop_last() =~= dec_string(n / 10));
        assert(dec_string(n).last() == dec_char(n % 10));
        assert(dec_digit_value(dec_char(n % 10)) == n % 10);
        assert(dec_value(dec_string(n)) == dec_value(dec_string(n).drop_last()) * 10
            + dec_digit_value(dec_string(n).last()));
        assert(n / 10 * 10 + n % 10 == n);
    }
}

/// Reading a rendered base-16 numeral back as a base-16 numeral gives
/// the value that was rendered.
pub proof fn lemma_hex_round_trip(n: nat)
    ensures
        hex_value(hex_string(n)) == n,
    decreases n,
{
    if n < 16 {
        assert(hex_string(n).drop_last() =~= Seq::<char>::empty());
        assert(hex_string(n).last() == hex_char(n));
        assert(hex_digit_value(hex_char(n)) == n);
        assert(hex_value(hex_string(n)) == hex_value(hex_string(n).drop_last()) * 16
            + hex_digit_value(hex_string(n).last()));
        assert(hex_value(Seq::<char>::empty()) == 0);
    } else {
        lemma_hex_round_trip(n / 16);
        assert(hex_string(n).drop_last() =~= hex_string(n / 16));
        assert(hex_string(n).last() == hex_char(n % 16));
        assert(hex_digit_value(hex_char(n % 16)) == n % 16);
        assert(hex_value(hex_string(n)) == hex_value(hex_string(n).drop_last()) * 16
            + hex_digit_value(hex_string(n).last()));
        assert(n / 16 * 16 + n % 16 == n);
    }
}

/// The address printed in the success line, read back as an address
/// token with the base-16 marker in front, is exactly the address the
/// request carried.
pub proof fn lemma_report_parse_round_trip(addr: u64)
    ensures
        crate::parse::spec_parse_address(seq!['0', 'x'] + hex_string(addr as nat)) == Ok::<
            u64,
            crate::parse::ParseError,
        >(addr),
{
    let s = seq!['0', 'x'] + hex_string(addr as nat);
    lemma_hex_string_digits(addr as nat);
    lemma_hex_round_trip(addr as nat);
    assert(crate::parse::has_hex_prefix(s));
    assert(s.skip(2) =~= hex_string(addr as nat));
}

/// What the device channel reported for one invocation. The flow is a
/// single linear path with two early exits: the open may fail, the
/// control call may fail, and otherwise the driver hands back the
/// transfer count.
#[derive(Clone, Copy, Debug, PartialEq, Eq, Structural)]
pub enum CallOutcome {
    /// The control device could not be opened.
    OpenFailed,
    /// The control call itself failed.
    TransferFailed,
    /// The call succeeded with this transfer count.
    Transferred(i32),
}

/// The rendered report of one invocation: a single diagnostic line for
/// the error stream, or the success line and the buffer line for the
/// output stream.
pub enum Report {
    Failure(String),
    Success(String, String),
}

/// Renders the outcome of one invocation. Each early exit yields
/// exactly its diagnostic and no success output; a completed transfer
/// yields exactly the success line and the buffer line.
pub fn render_outcome(outcome: &CallOutcome, pid: i32, addr: u64, buf: &Vec<u8>) -> (r: Report)
    ensures
        match *outcome {
            CallOutcome::OpenFailed => r matches Report::Failure(m) && m@ == open_failure_text(),
            CallOutcome::TransferFailed => r matches Report::Failure(m) && m@
                == transfer_failure_text(),
            CallOutcome::Transferred(count) => r matches Report::Success(line, values) && line@
                == success_line(count as int, pid as int, addr as nat) && values@ == value_line(
                buf@,
            ),
        },
{
    match outcome {
        CallOutcome::OpenFailed => Report::Failure(String::from_str("could not open device file")),
        CallOutcome::TransferFailed => Report::Failure(String::from_str("failed to read memory")),
        CallOutcome::Transferred(count) => {
            let mut line = String::from_str("read ");
            let c = i32_to_dec(*count);
            line.append(c.as_str());
            line.append(" from pid ");
            let p = i32_to_dec(pid);
            line.append(p.as_str());
            line.append(" at ");
            let a = u64_to_hex(addr);
            line.append(a.as_str());
            let mut values = String::from_str("value: ");
            let b = bytes_to_string(buf);
            values.append(b.as_str());
            proof {
                assert(line@ =~= success_line(*count as int, pid as int, addr as nat));
                assert(values@ =~= value_line(buf@));
            }
            Report::Success(line, values)
        },
    }
}

} // verus!
