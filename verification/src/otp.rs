use vstd::prelude::*;

use crate::mac::hmac_sha256;
use crate::mac::hmac_sha256_of;

verus! {

/// Why a code could not be produced.
#[derive(Clone, Copy, Debug, PartialEq, Eq, Structural)]
pub enum TotpError {
    /// The interval was zero, or the digit count was outside `1..=9`.
    ConfigurationError,
    /// The keyed-hash primitive could not be constructed. Defensive only:
    /// HMAC-SHA-256 accepts keys of any length, so this is never returned.
    CryptoInitError,
}

/// `10^d`.
pub open spec fn pow10(d: nat) -> nat
    decreases d,
{
    if d == 0 {
        1
    } else {
        10 * pow10((d - 1) as nat)
    }
}

/// The 8-byte big-endian encoding of `x` (RFC 4226 section 5.3: the counter is
/// authenticated in this byte order).
pub open spec fn be_bytes_of_u64(x: u64) -> Seq<u8> {
    seq![
        ((x >> 56) & 0xff) as u8,
        ((x >> 48) & 0xff) as u8,
        ((x >> 40) & 0xff) as u8,
        ((x >> 32) & 0xff) as u8,
        ((x >> 24) & 0xff) as u8,
        ((x >> 16) & 0xff) as u8,
        ((x >> 8) & 0xff) as u8,
        (x & 0xff) as u8,
    ]
}

/// Dynamic truncation (RFC 4226 section 5.3): the low nibble of the last tag
/// byte picks an offset, four bytes from there are read big-endian, and the
/// sign bit is masked off, leaving a 31-bit non-negative value.
pub open spec fn truncated_of(tag: Seq<u8>) -> u32
    recommends
        20 <= tag.len(),
{
    let offset = (tag[tag.len() - 1] & 0x0f) as int;
    (((tag[offset] as u32) << 24) | ((tag[offset + 1] as u32) << 16)
        | ((tag[offset + 2] as u32) << 8) | (tag[offset + 3] as u32)) & 0x7fffffff
}

/// The 8-byte big-endian encoding of `step`, as a vector.
pub fn counter_bytes(step: u64) -> (r: Vec<u8>)
    ensures
        r@ == be_bytes_of_u64(step),
        r@.len() == 8,
{
    proof {
        assert(forall|y: u64| #[trigger] (y & 0xff) < 256) by (bit_vector);
    }
    let mut r: Vec<u8> = Vec::new();
    r.push(((step >> 56) & 0xff) as u8);
    r.push(((step >> 48) & 0xff) as u8);
    r.push(((step >> 40) & 0xff) as u8);
    r.push(((step >> 32) & 0xff) as u8);
    r.push(((step >> 24) & 0xff) as u8);
    r.push(((step >> 16) & 0xff) as u8);
    r.push(((step >> 8) & 0xff) as u8);
    r.push((step & 0xff) as u8);
    proof {
        assert(r@ =~= be_bytes_of_u64(step));
    }
    r
}

/// Dynamic truncation of a MAC tag of at least 20 bytes; the offset read stays
/// in bounds because it is at most `15 + 4`.
pub fn dynamic_truncate(tag: &[u8]) -> (r: u32)
    requires
        20 <= tag@.len(),
    ensures
        r == truncated_of(tag@),
        r < 0x80000000,
{
    let last: u8 = tag[tag.len() - 1];
    let offset: usize = (last & 0x0f) as usize;
    proof {
        assert((last & 0x0f) < 16) by (bit_vector);
    }
    let b0: u32 = tag[offset] as u32;
    let b1: u32 = tag[offset + 1] as u32;
    let b2: u32 = tag[offset + 2] as u32;
    let b3: u32 = tag[offset + 3] as u32;
    let masked: u32 = ((b0 << 24) | (b1 << 16) | (b2 << 8) | b3) & 0x7fffffff;
    proof {
        assert(forall|y: u32| #[trigger] (y & 0x7fffffff) < 0x80000000) by (bit_vector);
    }
    masked
}

/// The decimal digit character for `d`.
pub open spec fn digit_char(d: nat) -> char
    recommends
        d < 10,
{
    if d == 0 {
        '0'
    } else if d == 1 {
        '1'
    } else if d == 2 {
        '2'
    } else if d == 3 {
        '3'
    } else if d == 4 {
        '4'
    } else if d == 5 {
        '5'
    } else if d == 6 {
        '6'
    } else if d == 7 {
        '7'
    } else if d == 8 {
        '8'
    } else {
        '9'
    }
}

/// The numeric value of a decimal digit character; `0` for any other character.
pub open spec fn char_digit(c: char) -> nat {
    if c == '0' {
        0
    } else if c == '1' {
        1
    } else if c == '2' {
        2
    } else if c == '3' {
        3
    } else if c == '4' {
        4
    } else if c == '5' {
        5
    } else if c == '6' {
        6
    } else if c == '7' {
        7
    } else if c == '8' {
        8
    } else if c == '9' {
        9
    } else {
        0
    }
}

/// The `d`-character decimal rendering of `v`, left-padded with `'0'`.
pub open spec fn decimal_chars(v: nat, d: nat) -> Seq<char>
    decreases d,
{
    if d == 0 {
        Seq::empty()
    } else {
        decimal_chars(v / 10, (d - 1) as nat).push(digit_char(v % 10))
    }
}

/// The integer a sequence of decimal digit characters denotes.
pub open spec fn decimal_value(s: Seq<char>) -> nat
    decreases s.len(),
{
    if s.len() == 0 {
        0
    } else {
        decimal_value(s.drop_last()) * 10 + char_digit(s.last())
    }
}

/// The truncated tag of the quantized time, reduced modulo `10^digits`.
pub open spec fn otp_value(secret: Seq<u8>, time: u64, interval: u64, digits: u32) -> u32
    recommends
        interval > 0,
        1 <= digits <= 9,
{
    (truncated_of(hmac_sha256_of(secret, be_bytes_of_u64((time / interval) as u64))) as nat
        % pow10(digits as nat)) as u32
}

/// The code for `(secret, time, interval, digits)`, as characters.
pub open spec fn otp_chars(secret: Seq<u8>, time: u64, interval: u64, digits: u32) -> Seq<char>
    recommends
        interval > 0,
        1 <= digits <= 9,
{
    decimal_chars(otp_value(secret, time, interval, digits) as nat, digits as nat)
}

proof fn lemma_pow10_bounds(d: nat)
    requires
        d <= 9,
    ensures
        1 <= pow10(d) <= 1_000_000_000,
{
    reveal_with_fuel(pow10, 10);
}

/// `10^d` for `1 <= d <= 9`, the supported digit counts.
fn pow10_u32(d: u32) -> (r: u32)
    requires
        1 <= d <= 9,
    ensures
        r == pow10(d as nat),
        r >= 1,
{
    proof {
        reveal_with_fuel(pow10, 10);
    }
    match d {
        1 => 10,
        2 => 100,
        3 => 1_000,
        4 => 10_000,
        5 => 100_000,
        6 => 1_000_000,
        7 => 10_000_000,
        8 => 100_000_000,
        _ => 1_000_000_000,
    }
}

/// The one-character string for the digit `d`.
fn digit_str(d: u32) -> (r: &'static str)
    requires
        d < 10,
    ensures
        r@ == seq![digit_char(d as nat)],
        r@.len() == 1,
{
    match d {
        0 => {
            proof {
                reveal_strlit("0");
                assert("0"@ =~= seq![digit_char(0)]);
            }
            "0"
        },
        1 => {
            proof {
                reveal_strlit("1");
                assert("1"@ =~= seq![digit_char(1)]);
            }
            "1"
        },
        2 => {
            proof {
                reveal_strlit("2");
                assert("2"@ =~= seq![digit_char(2)]);
            }
            "2"
        },
        3 => {
            proof {
                reveal_strlit("3");
                assert("3"@ =~= seq![digit_char(3)]);
            }
            "3"
        },
        4 => {
            proof {
                reveal_strlit("4");
                assert("4"@ =~= seq![digit_char(4)]);
            }
            "4"
        },
        5 => {
            proof {
                reveal_strlit("5");
                assert("5"@ =~= seq![digit_char(5)]);
            }
            "5"
        },
        6 => {
            proof {
                reveal_strlit("6");
                assert("6"@ =~= seq![digit_char(6)]);
            }
            "6"
        },
        7 => {
            proof {
                reveal_strlit("7");
                assert("7"@ =~= seq![digit_char(7)]);
            }
            "7"
        },
        8 => {
            proof {
                reveal_strlit("8");
                assert("8"@ =~= seq![digit_char(8)]);
            }
            "8"
        },
        _ => {
            proof {
                reveal_strlit("9");
                assert("9"@ =~= seq![digit_char(9)]);
            }
            "9"
        },
    }
}

/// The `d`-character zero-padded decimal rendering of `v`.
fn decimal_string(v: u32, d: u32) -> (r: String)
    requires
        d <= 9,
    ensures
        r@ == decimal_chars(v as nat, d as nat),
        r@.len() == d,
    decreases d,
{
    if d == 0 {
        String::new()
    } else {
        let mut s = decimal_string(v / 10, d - 1);
        s.append(digit_str(v % 10));
        proof {
            assert(s@ =~= decimal_chars(v as nat, d as nat));
        }
        s
    }
}

/// Reduces a truncated hash value modulo `10^digits` and renders it as exactly
/// `digits` decimal characters, left-padded with `'0'` (RFC 4226 section 5.4).
/// Digit counts outside `1..=9` are rejected: from ten digits up the reduction
/// of a 31-bit value would be a no-op.
pub fn format_code(value: u32, digits: u32) -> (r: Result<String, TotpError>)
    ensures
        r is Ok <==> 1 <= digits <= 9,
        r is Ok ==> r->Ok_0@ == decimal_chars((value as nat % pow10(digits as nat)), digits as nat)
            && r->Ok_0@.len() == digits,
        r is Err ==> r->Err_0 == TotpError::ConfigurationError,
{
    if digits < 1 || digits > 9 {
        return Err(TotpError::ConfigurationError);
    }
    let modulus: u32 = pow10_u32(digits);
    let code: u32 = value % modulus;
    Ok(decimal_string(code, digits))
}

/// The complete computation: quantize `time` into steps of `interval` seconds,
/// authenticate the step's big-endian encoding with HMAC-SHA-256 under
/// `secret`, truncate dynamically, reduce modulo `10^digits`, and render
/// zero-padded. Rejects `interval == 0` and digit counts outside `1..=9`.
pub fn compute_otp(secret: &[u8], time: u64, interval: u64, digits: u32) -> (r: Result<
    String,
    TotpError,
>)
    ensures
        r is Ok <==> (interval > 0 && 1 <= digits <= 9),
        r is Ok ==> r->Ok_0@ == otp_chars(secret@, time, interval, digits)
            && r->Ok_0@.len() == digits,
        r is Err ==> r->Err_0 == TotpError::ConfigurationError,
{
    if interval == 0 || digits < 1 || digits > 9 {
        return Err(TotpError::ConfigurationError);
    }
    let step: u64 = time / interval;
    let counter: Vec<u8> = counter_bytes(step);
    let tag: Vec<u8> = hmac_sha256(secret, counter.as_slice());
    let truncated: u32 = dynamic_truncate(tag.as_slice());
    proof {
        lemma_pow10_bounds(digits as nat);
        assert(otp_value(secret@, time, interval, digits) as nat == truncated as nat % pow10(
            digits as nat,
        ));
    }
    format_code(truncated, digits)
}

/// The code for `secret_key` and `time` with the standard 30-second interval
/// and 8 digits; that configuration is always accepted.
pub fn create_totp(secret_key: &[u8], time: u64) -> (r: String)
    ensures
        r@ == otp_chars(secret_key@, time, 30, 8),
        r@.len() == 8,
{
    match compute_otp(secret_key, time, 30, 8) {
        Ok(code) => code,
        Err(_) => vstd::pervasive::unreached(),
    }
}

/// A rendering has exactly the requested number of characters.
pub proof fn lemma_decimal_chars_len(v: nat, d: nat)
    ensures
        decimal_chars(v, d).len() == d,
    decreases d,
{
    if d > 0 {
        lemma_decimal_chars_len(v / 10, (d - 1) as nat);
    }
}

/// Rendering then reading back is the identity on values below `10^d`: the
/// code string denotes exactly the reduced value, zero padding included.
pub proof fn lemma_decimal_chars_value(v: nat, d: nat)
    requires
        v < pow10(d),
    ensures
        decimal_value(decimal_chars(v, d)) == v,
    decreases d,
{
    if d == 0 {
        assert(decimal_chars(v, 0) =~= Seq::<char>::empty());
    } else {
        assert(v / 10 < pow10((d - 1) as nat)) by (nonlinear_arith)
            requires
                v < 10 * pow10((d - 1) as nat),
        ;
        lemma_decimal_chars_value(v / 10, (d - 1) as nat);
        let s = decimal_chars(v / 10, (d - 1) as nat);
        let c = digit_char(v % 10);
        assert(s.push(c).drop_last() =~= s);
        assert(s.push(c).last() == c);
        assert(char_digit(c) == v % 10);
    }
}

/// Determinism: whatever two computations from identical inputs returned,
/// their contracts pin both to the same character sequence.
pub proof fn lemma_determinism(
    first: Seq<char>,
    second: Seq<char>,
    secret: Seq<u8>,
    time: u64,
    interval: u64,
    digits: u32,
)
    requires
        first == otp_chars(secret, time, interval, digits),
        second == otp_chars(secret, time, interval, digits),
    ensures
        first == second,
{
}

/// Step stability: two times in the same time step yield the same code.
pub proof fn lemma_step_stability(secret: Seq<u8>, t1: u64, t2: u64, interval: u64, digits: u32)
    requires
        interval > 0,
        t1 / interval == t2 / interval,
    ensures
        otp_chars(secret, t1, interval, digits) == otp_chars(secret, t2, interval, digits),
{
}

/// Length invariant: the code has exactly `digits` characters.
pub proof fn lemma_code_length(secret: Seq<u8>, time: u64, interval: u64, digits: u32)
    ensures
        otp_chars(secret, time, interval, digits).len() == digits,
{
    lemma_decimal_chars_len(otp_value(secret, time, interval, digits) as nat, digits as nat);
}

/// Range invariant: read back as an integer, the code denotes the reduced
/// value, which lies in `[0, 10^digits - 1]`.
pub proof fn lemma_code_range(secret: Seq<u8>, time: u64, interval: u64, digits: u32)
    requires
        1 <= digits <= 9,
    ensures
        decimal_value(otp_chars(secret, time, interval, digits)) == otp_value(
            secret,
            time,
            interval,
            digits,
        ),
        decimal_value(otp_chars(secret, time, interval, digits)) < pow10(digits as nat),
{
    lemma_pow10_bounds(digits as nat);
    let raw: nat = truncated_of(
        hmac_sha256_of(secret, be_bytes_of_u64((time / interval) as u64)),
    ) as nat;
    assert(raw % pow10(digits as nat) < pow10(digits as nat));
    lemma_decimal_chars_value(otp_value(secret, time, interval, digits) as nat, digits as nat);
}

} // verus!

