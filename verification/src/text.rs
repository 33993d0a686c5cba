//! Verified text conversions: decimal digit runs, the std-style decimal
//! integer grammars the value editors accept, decimal formatting, and
//! hexadecimal encoding and decoding of byte strings. All grammars are
//! stated over the UTF-8 bytes of the input.

use vstd::prelude::*;
use vstd::utf8::{
    decode_utf8_encode_utf8,
    encode_utf8,
    is_leading_byte_width_1,
    pop_first_scalar,
    valid_utf8,
};

verus! {

/// 10 to the `n`th power: the number of values of an `n`-digit decimal.
pub open spec fn pow10(n: nat) -> nat
    decreases n,
{
    if n == 0 {
        1
    } else {
        10 * pow10((n - 1) as nat)
    }
}

/// An ASCII decimal digit.
pub open spec fn is_digit_byte(b: u8) -> bool {
    0x30 <= b <= 0x39
}

/// The end of the run of decimal digits starting at `i`.
pub open spec fn digits_end(b: Seq<u8>, i: int) -> int
    recommends
        0 <= i <= b.len(),
    decreases b.len() - i,
    when 0 <= i <= b.len()
{
    if i < b.len() && is_digit_byte(b[i]) {
        digits_end(b, i + 1)
    } else {
        i
    }
}

/// The value of the decimal digits `b[i..j)`.
pub open spec fn dec_val(b: Seq<u8>, i: int, j: int) -> int
    decreases j - i,
{
    if i >= j {
        0
    } else {
        dec_val(b, i, j - 1) * 10 + (b[j - 1] - 0x30)
    }
}

pub proof fn lemma_pow10_pos(n: nat)
    ensures
        pow10(n) >= 1,
    decreases n,
{
    if n > 0 {
        lemma_pow10_pos((n - 1) as nat);
    }
}

pub proof fn lemma_pow10_values()
    ensures
        pow10(0) == 1,
        pow10(1) == 10,
        pow10(2) == 100,
        pow10(3) == 1000,
        pow10(4) == 10000,
        pow10(5) == 100000,
{
    assert(pow10(0) == 1);
    assert(pow10(1) == 10);
    assert(pow10(2) == 100);
    assert(pow10(3) == 1000);
    assert(pow10(4) == 10000);
    assert(pow10(5) == 100000);
}

pub proof fn lemma_pow10_increases(a: nat, b: nat)
    requires
        a <= b,
    ensures
        pow10(a) <= pow10(b),
    decreases b,
{
    if a < b {
        lemma_pow10_increases(a, (b - 1) as nat);
        lemma_pow10_pos((b - 1) as nat);
    }
}

/// Where every byte of `b[i..j)` is a digit, the run's value is
/// non-negative and below `pow10` of its width.
pub proof fn lemma_dec_val_bound(b: Seq<u8>, i: int, j: int)
    requires
        i <= j,
        forall|k: int| i <= k < j ==> is_digit_byte(#[trigger] b[k]),
    ensures
        0 <= dec_val(b, i, j) < pow10((j - i) as nat),
    decreases j - i,
{
    if i < j {
        lemma_dec_val_bound(b, i, j - 1);
        let p = pow10((j - 1 - i) as nat);
        assert(dec_val(b, i, j - 1) * 10 <= (p - 1) * 10) by (nonlinear_arith)
            requires
                dec_val(b, i, j - 1) <= p - 1,
        ;
    }
}

/// `digits_end` is the unique index that closes a digit run.
pub proof fn lemma_digits_end_unique(b: Seq<u8>, i: int, j: int)
    requires
        0 <= i <= j <= b.len(),
        forall|k: int| i <= k < j ==> is_digit_byte(#[trigger] b[k]),
        j == b.len() || !is_digit_byte(b[j]),
    ensures
        digits_end(b, i) == j,
    decreases j - i,
{
    if i < j {
        lemma_digits_end_unique(b, i + 1, j);
    }
}

/// Everything before the end of a digit run is a digit, and the run
/// stops at the end of the input or at a non-digit.
pub proof fn lemma_digits_end_props(b: Seq<u8>, i: int)
    requires
        0 <= i <= b.len(),
    ensures
        i <= digits_end(b, i) <= b.len(),
        forall|k: int| i <= k < digits_end(b, i) ==> is_digit_byte(#[trigger] b[k]),
        digits_end(b, i) < b.len() ==> !is_digit_byte(b[digits_end(b, i)]),
    decreases b.len() - i,
{
    if i < b.len() && is_digit_byte(b[i]) {
        lemma_digits_end_props(b, i + 1);
    }
}

/// A digit run's value splits at any point into a high and a low part.
pub proof fn lemma_dec_val_split(b: Seq<u8>, i: int, j: int, k: int)
    requires
        i <= j <= k,
    ensures
        dec_val(b, i, k) == dec_val(b, i, j) * pow10((k - j) as nat) + dec_val(b, j, k),
    decreases k - j,
{
    if j == k {
        assert(pow10((k - j) as nat) == 1);
        assert(dec_val(b, j, k) == 0);
        assert(dec_val(b, i, j) * 1 == dec_val(b, i, j));
    } else {
        lemma_dec_val_split(b, i, j, k - 1);
        let p = pow10((k - 1 - j) as nat);
        let a = dec_val(b, i, j);
        let low = dec_val(b, j, k - 1);
        let d = b[k - 1] - 0x30;
        assert(pow10((k - j) as nat) == 10 * p);
        assert(dec_val(b, i, k - 1) == a * p + low);
        assert((a * p + low) * 10 == a * (10 * p) + low * 10) by (nonlinear_arith);
        assert(a * (10 * p) == a * pow10((k - j) as nat));
        assert(dec_val(b, i, k) == dec_val(b, i, k - 1) * 10 + d);
        assert(dec_val(b, j, k) == low * 10 + d);
        assert(dec_val(b, i, k) == a * pow10((k - j) as nat) + dec_val(b, j, k));
    }
}

/// Appending digits to a run of digits never shrinks its value.
pub proof fn lemma_dec_val_monotone(b: Seq<u8>, i: int, j: int, k: int)
    requires
        i <= j <= k,
        forall|q: int| i <= q < k ==> is_digit_byte(#[trigger] b[q]),
    ensures
        dec_val(b, i, j) <= dec_val(b, i, k),
{
    lemma_dec_val_split(b, i, j, k);
    lemma_dec_val_bound(b, i, j);
    lemma_dec_val_bound(b, j, k);
    lemma_pow10_pos((k - j) as nat);
    assert(dec_val(b, i, j) * pow10((k - j) as nat) >= dec_val(b, i, j)) by (nonlinear_arith)
        requires
            dec_val(b, i, j) >= 0,
            pow10((k - j) as nat) >= 1,
    ;
}

/// The whole input is one run of at least one digit with value at most
/// `max_val`: the shape a decimal number field accepts after its sign.
pub open spec fn all_digits_value(b: Seq<u8>, start: int, max_val: int) -> Option<int> {
    if start < b.len() && digits_end(b, start) == b.len() && dec_val(b, start, b.len() as int)
        <= max_val {
        Some(dec_val(b, start, b.len() as int))
    } else {
        None
    }
}

/// Accumulates the digits `b[start..]` into a value, or nothing when the
/// tail is empty, holds a non-digit, or exceeds `u64::MAX`.
fn parse_u64_digits(b: &[u8], start: usize) -> (r: Option<u64>)
    requires
        start <= b@.len(),
    ensures
        match r {
            Some(v) => all_digits_value(b@, start as int, u64::MAX as int) == Some(v as int),
            None => all_digits_value(b@, start as int, u64::MAX as int) is None,
        },
{
    let n = b.len();
    if start == n {
        return None;
    }
    let mut val: u64 = 0;
    let mut k = start;
    while k < n
        invariant
            start <= k <= n,
            n == b@.len(),
            forall|q: int| start <= q < k ==> is_digit_byte(#[trigger] b@[q]),
            val == dec_val(b@, start as int, k as int),
        decreases n - k,
    {
        let d = *vstd::slice::slice_index_get(b, k);
        if d < 0x30 || d > 0x39 {
            proof {
                lemma_digits_end_props(b@, start as int);
                if digits_end(b@, start as int) == n {
                    assert(is_digit_byte(b@[k as int]));
                }
            }
            return None;
        }
        let digit = (d - 0x30) as u64;
        if val > u64::MAX / 10 {
            proof {
                lemma_overflow_case(b@, start as int, k as int, n as int, val, digit);
            }
            return None;
        }
        let scaled = val * 10;
        if digit > u64::MAX - scaled {
            proof {
                lemma_overflow_case(b@, start as int, k as int, n as int, val, digit);
            }
            return None;
        }
        val = scaled + digit;
        k = k + 1;
    }
    proof {
        lemma_digits_end_unique(b@, start as int, n as int);
    }
    Some(val)
}

/// When the next digit pushes the running value past `u64::MAX`, the
/// whole run's value is past it too.
proof fn lemma_overflow_case(b: Seq<u8>, start: int, k: int, n: int, val: u64, digit: u64)
    requires
        0 <= start <= k < n,
        n == b.len(),
        forall|q: int| start <= q < k ==> is_digit_byte(#[trigger] b[q]),
        is_digit_byte(b[k]),
        val == dec_val(b, start, k),
        digit == b[k] - 0x30,
        val * 10 + digit > u64::MAX,
    ensures
        all_digits_value(b, start, u64::MAX as int) is None,
{
    if digits_end(b, start) == n {
        lemma_digits_end_props(b, start);
        assert(dec_val(b, start, k + 1) == val * 10 + digit);
        lemma_dec_val_monotone(b, start, k + 1, n);
    }
}

/// An optional leading `+` sign: where the unsigned grammars start their
/// digits.
pub open spec fn skip_plus(b: Seq<u8>) -> int {
    if b.len() >= 1 && b[0] == 0x2b {
        1
    } else {
        0
    }
}

/// The `u64` denoted by the input under the standard grammar — an
/// optional `+`, then one or more decimal digits — or nothing when the
/// input has any other shape or overflows.
pub open spec fn spec_parse_u64(b: Seq<u8>) -> Option<u64> {
    match all_digits_value(b, skip_plus(b), u64::MAX as int) {
        Some(v) => Some(v as u64),
        None => None,
    }
}

/// The `usize` denoted by the input, under the same grammar.
pub open spec fn spec_parse_usize(b: Seq<u8>) -> Option<usize> {
    match all_digits_value(b, skip_plus(b), usize::MAX as int) {
        Some(v) => Some(v as usize),
        None => None,
    }
}

/// The `i64` denoted by the input: an optional `+` or `-` sign, then
/// one or more decimal digits, within the signed 64-bit range.
pub open spec fn spec_parse_i64(b: Seq<u8>) -> Option<i64> {
    if b.len() >= 1 && b[0] == 0x2d {
        match all_digits_value(b, 1, -(i64::MIN as int)) {
            Some(v) => Some((-v) as i64),
            None => None,
        }
    } else {
        match all_digits_value(b, skip_plus(b), i64::MAX as int) {
            Some(v) => Some(v as i64),
            None => None,
        }
    }
}

/// Parses a `u64` written in decimal, as the standard library reads it.
pub fn parse_u64(s: &str) -> (r: Option<u64>)
    ensures
        r == spec_parse_u64(encode_utf8(s@)),
{
    let b = s.as_bytes();
    if b.len() >= 1 && *vstd::slice::slice_index_get(b, 0) == 0x2b {
        parse_u64_digits(b, 1)
    } else {
        parse_u64_digits(b, 0)
    }
}

/// Parses a `usize` written in decimal, as the standard library reads
/// it.
pub fn parse_usize(s: &str) -> (r: Option<usize>)
    ensures
        r == spec_parse_usize(encode_utf8(s@)),
{
    let b = s.as_bytes();
    let start: usize = if b.len() >= 1 && *vstd::slice::slice_index_get(b, 0) == 0x2b {
        1
    } else {
        0
    };
    match parse_u64_digits(b, start) {
        Some(v) => {
            if v <= (usize::MAX as u64) {
                Some(v as usize)
            } else {
                proof {
                    lemma_digits_end_props(b@, start as int);
                }
                None
            }
        },
        None => {
            proof {
                if all_digits_value(b@, start as int, usize::MAX as int) is Some {
                    lemma_digits_end_props(b@, start as int);
                }
            }
            None
        },
    }
}

/// Parses an `i64` written in decimal, as the standard library reads
/// it.
pub fn parse_i64(s: &str) -> (r: Option<i64>)
    ensures
        r == spec_parse_i64(encode_utf8(s@)),
{
    let b = s.as_bytes();
    if b.len() >= 1 && *vstd::slice::slice_index_get(b, 0) == 0x2d {
        match parse_u64_digits(b, 1) {
            Some(v) => {
                if v > 0x8000_0000_0000_0000u64 {
                    proof {
                        lemma_digits_end_props(b@, 1);
                    }
                    None
                } else if v == 0x8000_0000_0000_0000u64 {
                    Some(i64::MIN)
                } else {
                    Some(-(v as i64))
                }
            },
            None => {
                proof {
                    if all_digits_value(b@, 1, -(i64::MIN as int)) is Some {
                        lemma_digits_end_props(b@, 1);
                    }
                }
                None
            },
        }
    } else {
        let start: usize = if b.len() >= 1 && *vstd::slice::slice_index_get(b, 0) == 0x2b {
            1
        } else {
            0
        };
        match parse_u64_digits(b, start) {
            Some(v) => {
                if v <= (i64::MAX as u64) {
                    Some(v as i64)
                } else {
                    proof {
                        lemma_digits_end_props(b@, start as int);
                    }
                    None
                }
            },
            None => {
                proof {
                    if all_digits_value(b@, start as int, i64::MAX as int) is Some {
                        lemma_digits_end_props(b@, start as int);
                    }
                }
                None
            },
        }
    }
}

/// A byte sequence of ASCII values is a valid UTF-8 encoding.
pub proof fn lemma_ascii_bytes_valid_utf8(b: Seq<u8>)
    requires
        forall|i: int| 0 <= i < b.len() ==> #[trigger] b[i] <= 0x7f,
    ensures
        valid_utf8(b),
    decreases b.len(),
{
    if b.len() > 0 {
        assert(is_leading_byte_width_1(b[0]));
        let b0 = b[0];
        assert(b0 & 0x7f == b0 && b0 & 0x7f < 0xd800) by (bit_vector)
            requires
                b0 <= 0x7f,
        ;
        assert(pop_first_scalar(b) =~= b.drop_first());
        lemma_ascii_bytes_valid_utf8(b.drop_first());
    }
}

/// The decimal digits of `v`, most significant first, with no leading
/// zero (a single `0` for zero itself).
pub open spec fn dec_digits(v: nat) -> Seq<u8>
    decreases v,
{
    if v < 10 {
        seq![(0x30 + v) as u8]
    } else {
        dec_digits(v / 10).push((0x30 + v % 10) as u8)
    }
}

/// Every byte of a decimal rendering is a digit.
pub proof fn lemma_dec_digits_ascii(v: nat)
    ensures
        dec_digits(v).len() >= 1,
        forall|i: int|
            0 <= i < dec_digits(v).len() ==> is_digit_byte(#[trigger] dec_digits(v)[i]),
    decreases v,
{
    if v >= 10 {
        lemma_dec_digits_ascii(v / 10);
    }
}

/// Reading a decimal rendering back yields the value again: formatting
/// and parsing are inverse.
pub proof fn lemma_dec_digits_val(v: nat)
    ensures
        dec_val(dec_digits(v), 0, dec_digits(v).len() as int) == v,
    decreases v,
{
    let d = dec_digits(v);
    if v < 10 {
        assert(dec_val(d, 0, 0) == 0);
        assert(dec_val(d, 0, 1) == d[0] - 0x30);
    } else {
        lemma_dec_digits_val(v / 10);
        let prev = dec_digits(v / 10);
        lemma_dec_val_take(prev, d, prev.len() as int);
        assert(dec_val(d, 0, d.len() as int) == dec_val(d, 0, d.len() - 1) * 10 + (d[d.len() - 1]
            - 0x30));
        vstd::arithmetic::div_mod::lemma_fundamental_div_mod(v as int, 10);
    }
}

/// A digit run's value only depends on the bytes in its range.
pub proof fn lemma_dec_val_take(b1: Seq<u8>, b2: Seq<u8>, j: int)
    requires
        j <= b1.len(),
        j <= b2.len(),
        forall|k: int| 0 <= k < j ==> b1[k] == #[trigger] b2[k],
    ensures
        dec_val(b1, 0, j) == dec_val(b2, 0, j),
    decreases j,
{
    if j > 0 {
        lemma_dec_val_take(b1, b2, j - 1);
    }
}

/// Appends the decimal digits of `v`, most significant first.
fn push_dec_digits(out: &mut Vec<u8>, v: u64)
    ensures
        final(out)@ == old(out)@ + dec_digits(v as nat),
    decreases v,
{
    if v < 10 {
        out.push(0x30 + (v as u8));
        assert(final(out)@ =~= old(out)@ + dec_digits(v as nat));
    } else {
        push_dec_digits(out, v / 10);
        out.push(0x30 + ((v % 10) as u8));
        assert(final(out)@ =~= old(out)@ + dec_digits(v as nat));
    }
}

/// Turns ASCII bytes into the string they encode.
fn ascii_to_string(bytes: Vec<u8>) -> (r: String)
    requires
        forall|i: int| 0 <= i < bytes@.len() ==> #[trigger] bytes@[i] <= 0x7f,
    ensures
        encode_utf8(r@) == bytes@,
{
    proof {
        lemma_ascii_bytes_valid_utf8(bytes@);
        decode_utf8_encode_utf8(bytes@);
    }
    match crate::codec::bytes_to_string(bytes) {
        Some(s) => s,
        None => {
            proof {
                assert(false);
            }
            String::new()
        },
    }
}

/// Renders `v` in decimal.
pub fn u64_to_string(v: u64) -> (r: String)
    ensures
        encode_utf8(r@) == dec_digits(v as nat),
{
    let mut out: Vec<u8> = Vec::new();
    push_dec_digits(&mut out, v);
    proof {
        lemma_dec_digits_ascii(v as nat);
    }
    ascii_to_string(out)
}

/// The decimal rendering of a signed value: a leading `-` for negative
/// values, then the digits of the magnitude.
pub open spec fn dec_digits_signed(v: i64) -> Seq<u8> {
    if v >= 0 {
        dec_digits(v as nat)
    } else {
        seq![0x2du8] + dec_digits((-(v as int)) as nat)
    }
}

/// Renders `v` in decimal, with a sign where needed.
pub fn i64_to_string(v: i64) -> (r: String)
    ensures
        encode_utf8(r@) == dec_digits_signed(v),
{
    if v >= 0 {
        let r = u64_to_string(v as u64);
        r
    } else {
        let mag: u64 = ((-(v + 1)) as u64) + 1;
        assert(mag as int == -(v as int));
        let mut out: Vec<u8> = Vec::new();
        out.push(0x2d);
        push_dec_digits(&mut out, mag);
        proof {
            lemma_dec_digits_ascii(mag as nat);
            assert(out@ =~= dec_digits_signed(v));
        }
        ascii_to_string(out)
    }
}

/// An ASCII hexadecimal digit, either case.
pub open spec fn is_hex_digit_byte(b: u8) -> bool {
    0x30 <= b <= 0x39 || 0x41 <= b <= 0x46 || 0x61 <= b <= 0x66
}

/// The value of one hexadecimal digit.
pub open spec fn hex_nibble_val(b: u8) -> u8
    recommends
        is_hex_digit_byte(b),
{
    if 0x30 <= b <= 0x39 {
        (b - 0x30) as u8
    } else if 0x41 <= b <= 0x46 {
        (b - 0x41 + 10) as u8
    } else {
        (b - 0x61 + 10) as u8
    }
}

/// The byte denoted by the hexadecimal digit pair at position `i`.
pub open spec fn hex_byte_at(b: Seq<u8>, i: int) -> u8 {
    (hex_nibble_val(b[2 * i]) * 16 + hex_nibble_val(b[2 * i + 1])) as u8
}

/// The bytes denoted by a hexadecimal digit string: two digits per
/// byte, either case; nothing when the length is odd or any byte is not
/// a hexadecimal digit.
pub open spec fn spec_hex_decode(b: Seq<u8>) -> Option<Seq<u8>> {
    if b.len() % 2 == 0 && (forall|i: int| 0 <= i < b.len() ==> is_hex_digit_byte(#[trigger] b[i])) {
        Some(Seq::new((b.len() / 2) as nat, |i: int| hex_byte_at(b, i)))
    } else {
        None
    }
}

/// The lowercase hexadecimal digit of a nibble.
pub open spec fn hex_digit_lower(n: u8) -> u8
    recommends
        n < 16,
{
    if n < 10 {
        (0x30 + n) as u8
    } else {
        (0x61 + n - 10) as u8
    }
}

/// The lowercase hexadecimal rendering of a byte string: two digits per
/// byte.
pub open spec fn spec_hex_encode(bs: Seq<u8>) -> Seq<u8> {
    Seq::new(
        2 * bs.len(),
        |i: int|
            if i % 2 == 0 {
                hex_digit_lower(bs[i / 2] / 16)
            } else {
                hex_digit_lower(bs[i / 2] % 16)
            },
    )
}

/// The value of one hexadecimal digit, or nothing for any other byte.
fn hex_nibble(b: u8) -> (r: Option<u8>)
    ensures
        r is Some <==> is_hex_digit_byte(b),
        r matches Some(v) ==> v == hex_nibble_val(b) && v < 16,
{
    if 0x30 <= b && b <= 0x39 {
        Some(b - 0x30)
    } else if 0x41 <= b && b <= 0x46 {
        Some(b - 0x41 + 10)
    } else if 0x61 <= b && b <= 0x66 {
        Some(b - 0x61 + 10)
    } else {
        None
    }
}

/// Decodes a hexadecimal digit string, either case, into the bytes it
/// denotes.
pub fn hex_decode(s: &str) -> (r: Option<Vec<u8>>)
    ensures
        match r {
            Some(v) => spec_hex_decode(encode_utf8(s@)) == Some(v@),
            None => spec_hex_decode(encode_utf8(s@)) is None,
        },
{
    let b = s.as_bytes();
    let n = b.len();
    if n % 2 != 0 {
        return None;
    }
    let half = n / 2;
    let mut out: Vec<u8> = Vec::new();
    let mut i: usize = 0;
    while i < half
        invariant
            b@ == encode_utf8(s@),
            n == b@.len(),
            n % 2 == 0,
            half == n / 2,
            i <= half,
            out@ =~= Seq::new(i as nat, |k: int| hex_byte_at(b@, k)),
            forall|k: int| 0 <= k < 2 * i ==> is_hex_digit_byte(#[trigger] b@[k]),
        decreases half - i,
    {
        let hi = match hex_nibble(*vstd::slice::slice_index_get(b, 2 * i)) {
            Some(v) => v,
            None => {
                proof {
                    assert(!is_hex_digit_byte(encode_utf8(s@)[2 * i as int]));
                    assert(spec_hex_decode(encode_utf8(s@)) is None);
                }
                return None;
            },
        };
        let lo = match hex_nibble(*vstd::slice::slice_index_get(b, 2 * i + 1)) {
            Some(v) => v,
            None => {
                proof {
                    assert(!is_hex_digit_byte(encode_utf8(s@)[2 * i as int + 1]));
                    assert(spec_hex_decode(encode_utf8(s@)) is None);
                }
                return None;
            },
        };
        out.push(hi * 16 + lo);
        proof {
            assert(out@ =~= Seq::new((i + 1) as nat, |k: int| hex_byte_at(b@, k)));
        }
        i = i + 1;
    }
    proof {
        assert(out@ =~= Seq::new((b@.len() / 2) as nat, |k: int| hex_byte_at(b@, k)));
    }
    Some(out)
}

/// Renders bytes as a lowercase hexadecimal digit string.
pub fn hex_encode(bs: &[u8]) -> (r: String)
    ensures
        encode_utf8(r@) == spec_hex_encode(bs@),
{
    let n = bs.len();
    let mut out: Vec<u8> = Vec::new();
    let mut i: usize = 0;
    while i < n
        invariant
            n == bs@.len(),
            i <= n,
            out@ =~= spec_hex_encode(bs@.take(i as int)),
        decreases n - i,
    {
        let v = *vstd::slice::slice_index_get(bs, i);
        out.push(hex_digit_byte_lower(v / 16));
        out.push(hex_digit_byte_lower(v % 16));
        proof {
            assert(out@ =~= spec_hex_encode(bs@.take(i + 1)));
        }
        i = i + 1;
    }
    proof {
        assert(bs@.take(n as int) =~= bs@);
        assert(forall|k: int| 0 <= k < out@.len() ==> #[trigger] out@[k] <= 0x7f);
    }
    ascii_to_string(out)
}

/// Rendering a value in decimal and parsing the text back yields the
/// value again.
pub proof fn lemma_u64_to_string_round_trip(v: u64)
    ensures
        spec_parse_u64(dec_digits(v as nat)) == Some(v),
{
    let d = dec_digits(v as nat);
    lemma_dec_digits_ascii(v as nat);
    lemma_digits_end_unique(d, 0, d.len() as int);
    lemma_dec_digits_val(v as nat);
    assert(skip_plus(d) == 0);
}

/// Rendering bytes in hexadecimal and parsing the digits back yields
/// the bytes again.
pub proof fn lemma_hex_round_trip(bs: Seq<u8>)
    ensures
        spec_hex_decode(spec_hex_encode(bs)) == Some(bs),
{
    let h = spec_hex_encode(bs);
    assert forall|i: int| 0 <= i < h.len() implies is_hex_digit_byte(#[trigger] h[i]) by {
        assert(bs[i / 2] / 16 < 16 && bs[i / 2] % 16 < 16);
    }
    assert forall|i: int| 0 <= i < bs.len() implies hex_byte_at(h, i) == bs[i] by {
        assert(h[2 * i] == hex_digit_lower(bs[i] / 16));
        assert(h[2 * i + 1] == hex_digit_lower(bs[i] % 16));
        vstd::arithmetic::div_mod::lemma_fundamental_div_mod(bs[i] as int, 16);
    }
    assert(Seq::new((h.len() / 2) as nat, |i: int| hex_byte_at(h, i)) =~= bs);
}

/// The lowercase hexadecimal digit of a nibble.
fn hex_digit_byte_lower(n: u8) -> (r: u8)
    requires
        n < 16,
    ensures
        r == hex_digit_lower(n),
        r <= 0x7f,
{
    if n < 10 {
        0x30 + n
    } else {
        0x61 + n - 10
    }
}

} // verus!
