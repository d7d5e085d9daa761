//! The argument resolver: turns the textual tokens of the command line
//! (process id, target address, transfer size) into typed scalars.
//!
//! An address token may carry a `0x`/`0X` prefix, in which case the rest
//! is read base-16; otherwise the token is read base-10.

use vstd::prelude::*;

verus! {

/// Why a token was rejected.
#[derive(Clone, Copy, Debug, PartialEq, Eq, Structural)]
pub enum ParseError {
    /// The run of digits that the token calls for is empty.
    Empty,
    /// A character is not a digit of the selected base
    /// (or a sign where none is allowed).
    InvalidDigit,
    /// The digits are well formed but the value does not fit the target type.
    Overflow,
}

/// `c` is a decimal digit.
pub open spec fn is_dec_digit(c: char) -> bool {
    '0' <= c && c <= '9'
}

/// The value of a decimal digit.
pub open spec fn dec_digit_value(c: char) -> nat
    recommends
        is_dec_digit(c),
{
    (c as nat - '0' as nat) as nat
}

/// `c` is a hexadecimal digit (either case).
pub open spec fn is_hex_digit(c: char) -> bool {
    is_dec_digit(c) || ('a' <= c && c <= 'f') || ('A' <= c && c <= 'F')
}

/// The value of a hexadecimal digit.
pub open spec fn hex_digit_value(c: char) -> nat
    recommends
        is_hex_digit(c),
{
    if is_dec_digit(c) {
        dec_digit_value(c)
    } else if 'a' <= c && c <= 'f' {
        (c as nat - 'a' as nat + 10) as nat
    } else {
        (c as nat - 'A' as nat + 10) as nat
    }
}

/// Every character of `s` is a decimal digit.
pub open spec fn all_dec_digits(s: Seq<char>) -> bool {
    forall|i: int| 0 <= i < s.len() ==> is_dec_digit(#[trigger] s[i])
}

/// Every character of `s` is a hexadecimal digit.
pub open spec fn all_hex_digits(s: Seq<char>) -> bool {
    forall|i: int| 0 <= i < s.len() ==> is_hex_digit(#[trigger] s[i])
}

/// `s` read as a base-10 numeral, most significant digit first.
pub open spec fn dec_value(s: Seq<char>) -> nat
    recommends
        all_dec_digits(s),
    decreases s.len(),
{
    if s.len() == 0 {
        0
    } else {
        dec_value(s.drop_last()) * 10 + dec_digit_value(s.last())
    }
}

/// `s` read as a base-16 numeral, most significant digit first.
pub open spec fn hex_value(s: Seq<char>) -> nat
    recommends
        all_hex_digits(s),
    decreases s.len(),
{
    if s.len() == 0 {
        0
    } else {
        hex_value(s.drop_last()) * 16 + hex_digit_value(s.last())
    }
}

/// The token has the `0x`/`0X` marker that selects base-16.
pub open spec fn has_hex_prefix(s: Seq<char>) -> bool {
    s.len() >= 2 && s[0] == '0' && (s[1] == 'x' || s[1] == 'X')
}

/// What parsing a base-10 unsigned 64-bit token returns, error cases included.
pub open spec fn spec_parse_dec_u64(s: Seq<char>) -> Result<u64, ParseError> {
    if s.len() == 0 {
        Err(ParseError::Empty)
    } else if !all_dec_digits(s) {
        Err(ParseError::InvalidDigit)
    } else if dec_value(s) > u64::MAX {
        Err(ParseError::Overflow)
    } else {
        Ok(dec_value(s) as u64)
    }
}

/// What parsing a base-16 unsigned 64-bit token (without marker) returns.
pub open spec fn spec_parse_hex_u64(s: Seq<char>) -> Result<u64, ParseError> {
    if s.len() == 0 {
        Err(ParseError::Empty)
    } else if !all_hex_digits(s) {
        Err(ParseError::InvalidDigit)
    } else if hex_value(s) > u64::MAX {
        Err(ParseError::Overflow)
    } else {
        Ok(hex_value(s) as u64)
    }
}

/// What parsing an address token returns: base-16 after a `0x`/`0X`
/// marker, base-10 otherwise.
pub open spec fn spec_parse_address(s: Seq<char>) -> Result<u64, ParseError> {
    if has_hex_prefix(s) {
        spec_parse_hex_u64(s.skip(2))
    } else {
        spec_parse_dec_u64(s)
    }
}

/// What parsing a signed 32-bit token returns: an optional `-`,
/// then base-10 digits.
pub open spec fn spec_parse_i32(s: Seq<char>) -> Result<i32, ParseError> {
    if s.len() > 0 && s[0] == '-' {
        match spec_parse_dec_u64(s.skip(1)) {
            Err(e) => Err(e),
            Ok(m) => if m > 0x8000_0000u64 {
                Err(ParseError::Overflow)
            } else {
                Ok((-(m as int)) as i32)
            },
        }
    } else {
        match spec_parse_dec_u64(s) {
            Err(e) => Err(e),
            Ok(m) => if m > i32::MAX as u64 {
                Err(ParseError::Overflow)
            } else {
                Ok(m as i32)
            },
        }
    }
}

/// What parsing an unsigned word-sized token returns.
pub open spec fn spec_parse_usize(s: Seq<char>) -> Result<usize, ParseError> {
    match spec_parse_dec_u64(s) {
        Err(e) => Err(e),
        Ok(m) => if m > usize::MAX as u64 {
            Err(ParseError::Overflow)
        } else {
            Ok(m as usize)
        },
    }
}

/// Classifies a decimal digit and hands back its value.
fn dec_digit_of(c: char) -> (r: Option<u64>)
    ensures
        r is Some <==> is_dec_digit(c),
        r is Some ==> r->0 == dec_digit_value(c) && r->0 < 10,
{
    if '0' <= c && c <= '9' {
        Some(c as u64 - '0' as u64)
    } else {
        None
    }
}

/// Classifies a hexadecimal digit and hands back its value.
fn hex_digit_of(c: char) -> (r: Option<u64>)
    ensures
        r is Some <==> is_hex_digit(c),
        r is Some ==> r->0 == hex_digit_value(c) && r->0 < 16,
{
    if '0' <= c && c <= '9' {
        Some(c as u64 - '0' as u64)
    } else if 'a' <= c && c <= 'f' {
        Some(c as u64 - 'a' as u64 + 10)
    } else if 'A' <= c && c <= 'F' {
        Some(c as u64 - 'A' as u64 + 10)
    } else {
        None
    }
}

/// One more digit on the right multiplies the prefix value by the base.
proof fn lemma_dec_take_step(s: Seq<char>, i: int)
    requires
        0 <= i < s.len(),
    ensures
        dec_value(s.take(i + 1)) == dec_value(s.take(i)) * 10 + dec_digit_value(s[i]),
{
    let t = s.take(i + 1);
    assert(t.drop_last() =~= s.take(i));
    assert(t.last() == s[i]);
}

proof fn lemma_hex_take_step(s: Seq<char>, i: int)
    requires
        0 <= i < s.len(),
    ensures
        hex_value(s.take(i + 1)) == hex_value(s.take(i)) * 16 + hex_digit_value(s[i]),
{
    let t = s.take(i + 1);
    assert(t.drop_last() =~= s.take(i));
    assert(t.last() == s[i]);
}

/// Once a prefix of the numeral is over the 64-bit bound, the whole
/// numeral is too: appending digits never shrinks the value.
proof fn lemma_dec_overflow_persists(s: Seq<char>, i: int)
    requires
        0 <= i <= s.len(),
        dec_value(s.take(i)) > u64::MAX,
    ensures
        dec_value(s) > u64::MAX,
    decreases s.len() - i,
{
    if i == s.len() {
        assert(s.take(i) =~= s);
    } else {
        lemma_dec_take_step(s, i);
        lemma_dec_overflow_persists(s, i + 1);
    }
}

proof fn lemma_hex_overflow_persists(s: Seq<char>, i: int)
    requires
        0 <= i <= s.len(),
        hex_value(s.take(i)) > u64::MAX,
    ensures
        hex_value(s) > u64::MAX,
    decreases s.len() - i,
{
    if i == s.len() {
        assert(s.take(i) =~= s);
    } else {
        lemma_hex_take_step(s, i);
        lemma_hex_overflow_persists(s, i + 1);
    }
}

/// Parses a base-10 unsigned 64-bit token.
pub fn parse_dec_u64(s: &str) -> (r: Result<u64, ParseError>)
    ensures
        r == spec_parse_dec_u64(s@),
{
    let n = s.unicode_len();
    if n == 0 {
        return Err(ParseError::Empty);
    }
    let mut acc: u64 = 0;
    let mut overflowed: bool = false;
    let mut i: usize = 0;
    while i < n
        invariant
            0 <= i <= n,
            n == s@.len(),
            all_dec_digits(s@.take(i as int)),
            !overflowed ==> acc == dec_value(s@.take(i as int)),
            overflowed ==> dec_value(s@.take(i as int)) > u64::MAX,
        decreases n - i,
    {
        let c = s.get_char(i);
        match dec_digit_of(c) {
            None => {
                return Err(ParseError::InvalidDigit);
            },
            Some(d) => {
                proof {
                    lemma_dec_take_step(s@, i as int);
                }
                if !overflowed {
                    if acc > (u64::MAX - d) / 10 {
                        overflowed = true;
                    } else {
                        acc = acc * 10 + d;
                    }
                }
            },
        }
        i += 1;
    }
    proof {
        assert(s@.take(n as int) =~= s@);
        if overflowed {
            lemma_dec_overflow_persists(s@, n as int);
        }
    }
    if overflowed {
        Err(ParseError::Overflow)
    } else {
        Ok(acc)
    }
}

/// Parses a base-16 unsigned 64-bit token (digits only, no marker).
pub fn parse_hex_u64(s: &str) -> (r: Result<u64, ParseError>)
    ensures
        r == spec_parse_hex_u64(s@),
{
    let n = s.unicode_len();
    if n == 0 {
        return Err(ParseError::Empty);
    }
    let mut acc: u64 = 0;
    let mut overflowed: bool = false;
    let mut i: usize = 0;
    while i < n
        invariant
            0 <= i <= n,
            n == s@.len(),
            all_hex_digits(s@.take(i as int)),
            !overflowed ==> acc == hex_value(s@.take(i as int)),
            overflowed ==> hex_value(s@.take(i as int)) > u64::MAX,
        decreases n - i,
    {
        let c = s.get_char(i);
        match hex_digit_of(c) {
            None => {
                return Err(ParseError::InvalidDigit);
            },
            Some(d) => {
                proof {
                    lemma_hex_take_step(s@, i as int);
                }
                if !overflowed {
                    if acc > (u64::MAX - d) / 16 {
                        overflowed = true;
                    } else {
                        acc = acc * 16 + d;
                    }
                }
            },
        }
        i += 1;
    }
    proof {
        assert(s@.take(n as int) =~= s@);
        if overflowed {
            lemma_hex_overflow_persists(s@, n as int);
        }
    }
    if overflowed {
        Err(ParseError::Overflow)
    } else {
        Ok(acc)
    }
}

/// Parses an address token: base-16 after a `0x`/`0X` marker, base-10
/// otherwise.
pub fn maybe_hex(s: &str) -> (r: Result<u64, ParseError>)
    ensures
        r == spec_parse_address(s@),
{
    let n = s.unicode_len();
    if n >= 2 {
        let c0 = s.get_char(0);
        let c1 = s.get_char(1);
        if c0 == '0' && (c1 == 'x' || c1 == 'X') {
            let rest = s.substring_char(2, n);
            proof {
                assert(rest@ =~= s@.skip(2));
            }
            return parse_hex_u64(rest);
        }
    }
    parse_dec_u64(s)
}

/// Parses a signed 32-bit process-id token.
pub fn parse_i32(s: &str) -> (r: Result<i32, ParseError>)
    ensures
        r == spec_parse_i32(s@),
{
    let n = s.unicode_len();
    if n >= 1 && s.get_char(0) == '-' {
        let rest = s.substring_char(1, n);
        proof {
            assert(rest@ =~= s@.skip(1));
        }
        match parse_dec_u64(rest) {
            Err(e) => Err(e),
            Ok(m) => {
                if m > 0x8000_0000u64 {
                    Err(ParseError::Overflow)
                } else {
                    Ok((-(m as i64)) as i32)
                }
            },
        }
    } else {
        match parse_dec_u64(s) {
            Err(e) => Err(e),
            Ok(m) => {
                if m > i32::MAX as u64 {
                    Err(ParseError::Overflow)
                } else {
                    Ok(m as i32)
                }
            },
        }
    }
}

/// Parses an unsigned word-sized transfer-size token.
pub fn parse_usize(s: &str) -> (r: Result<usize, ParseError>)
    ensures
        r == spec_parse_usize(s@),
{
    match parse_dec_u64(s) {
        Err(e) => Err(e),
        Ok(m) => {
            if m > usize::MAX as u64 {
                Err(ParseError::Overflow)
            } else {
                Ok(m as usize)
            }
        },
    }
}

} // verus!
