//! The codec: turning a schema plus value sequence into its byte-level
//! wire form and back. The wire form of a message is the concatenation of
//! its fields' encodings, each exactly as wide as the field resolves to:
//! integers big-endian in the low bytes of the width, text as UTF-8,
//! raw bytes as-is, with no framing around or between fields.

use vstd::arithmetic::div_mod::{lemma_breakdown, lemma_mod_multiples_vanish, lemma_small_mod};
use vstd::prelude::*;
use vstd::utf8::{
    decode_utf8,
    encode_utf8,
    encode_utf8_decode_utf8,
    encode_utf8_valid_utf8,
    valid_utf8,
};

use crate::error::Error;
use crate::msg::{ItemFormat, ItemValue, ItemValueView, Message, MessageFormat, spec_resolved_len};

verus! {

/// 256 to the `n`th power: the number of distinct values of an `n`-byte
/// big-endian integer.
pub open spec fn pow256(n: nat) -> nat
    decreases n,
{
    if n == 0 {
        1
    } else {
        256 * pow256((n - 1) as nat)
    }
}

/// The low `len` bytes of `v`, big-endian: the last element is
/// `v % 256`, and bytes beyond the width are dropped.
pub open spec fn uint_be_bytes(v: nat, len: nat) -> Seq<u8>
    decreases len,
{
    if len == 0 {
        Seq::empty()
    } else {
        uint_be_bytes(v / 256, (len - 1) as nat).push((v % 256) as u8)
    }
}

/// The unsigned value of a big-endian byte sequence.
pub open spec fn be_bytes_val(b: Seq<u8>) -> nat
    decreases b.len(),
{
    if b.len() == 0 {
        0
    } else {
        (be_bytes_val(b.drop_last()) * 256 + b.last()) as nat
    }
}

/// The two's-complement 64-bit image of a signed value.
pub open spec fn twos_complement_u64(v: i64) -> u64 {
    if v >= 0 {
        v as u64
    } else {
        (v + 0x1_0000_0000_0000_0000) as u64
    }
}

/// Sign extension of an unsigned `len`-byte value: values at or above
/// half the range are read as negative.
pub open spec fn sign_extend_val(u: nat, len: nat) -> int {
    if 2 * u < pow256(len) {
        u as int
    } else {
        u - pow256(len)
    }
}

pub proof fn lemma_pow256_pos(n: nat)
    ensures
        pow256(n) >= 1,
    decreases n,
{
    if n > 0 {
        lemma_pow256_pos((n - 1) as nat);
    }
}

/// The byte widths an integer field can declare all fit a 64-bit value.
pub proof fn lemma_pow256_values()
    ensures
        pow256(0) == 1,
        pow256(1) == 0x100,
        pow256(2) == 0x1_0000,
        pow256(3) == 0x100_0000,
        pow256(4) == 0x1_0000_0000,
        pow256(5) == 0x100_0000_0000,
        pow256(6) == 0x1_0000_0000_0000,
        pow256(7) == 0x100_0000_0000_0000,
        pow256(8) == 0x1_0000_0000_0000_0000,
{
    assert(pow256(0) == 1);
    assert(pow256(1) == 0x100);
    assert(pow256(2) == 0x1_0000);
    assert(pow256(3) == 0x100_0000);
    assert(pow256(4) == 0x1_0000_0000);
    assert(pow256(5) == 0x100_0000_0000);
    assert(pow256(6) == 0x1_0000_0000_0000);
    assert(pow256(7) == 0x100_0000_0000_0000);
    assert(pow256(8) == 0x1_0000_0000_0000_0000);
}

pub proof fn lemma_pow256_increases(a: nat, b: nat)
    requires
        a <= b,
    ensures
        pow256(a) <= pow256(b),
    decreases b,
{
    if a < b {
        lemma_pow256_increases(a, (b - 1) as nat);
        lemma_pow256_pos((b - 1) as nat);
    }
}

pub proof fn lemma_pow256_add(a: nat, b: nat)
    ensures
        pow256(a + b) == pow256(a) * pow256(b),
    decreases a,
{
    if a == 0 {
    } else {
        lemma_pow256_add((a - 1) as nat, b);
        assert(256 * (pow256((a - 1) as nat) * pow256(b)) == (256 * pow256((a - 1) as nat))
            * pow256(b)) by (nonlinear_arith);
        assert((a + b - 1) as nat == (a - 1) as nat + b);
    }
}

pub proof fn lemma_uint_be_bytes_len(v: nat, len: nat)
    ensures
        uint_be_bytes(v, len).len() == len,
    decreases len,
{
    if len > 0 {
        lemma_uint_be_bytes_len(v / 256, (len - 1) as nat);
    }
}

/// Reading back the low `len` bytes of `v` yields `v` modulo the width's
/// range.
pub proof fn lemma_be_bytes_val(v: nat, len: nat)
    ensures
        be_bytes_val(uint_be_bytes(v, len)) == v % pow256(len),
    decreases len,
{
    if len == 0 {
        assert(v % 1 == 0) by (nonlinear_arith);
    } else {
        let m = pow256((len - 1) as nat);
        lemma_pow256_pos((len - 1) as nat);
        lemma_be_bytes_val(v / 256, (len - 1) as nat);
        let prefix = uint_be_bytes(v / 256, (len - 1) as nat);
        let b = uint_be_bytes(v, len);
        assert(b.drop_last() =~= prefix);
        lemma_breakdown(v as int, 256, m as int);
        assert(pow256(len) == 256 * m);
    }
}

pub proof fn lemma_be_bytes_val_small(v: nat, len: nat)
    requires
        v < pow256(len),
    ensures
        be_bytes_val(uint_be_bytes(v, len)) == v,
{
    lemma_be_bytes_val(v, len);
    lemma_pow256_pos(len);
    lemma_small_mod(v, pow256(len));
}

pub proof fn lemma_be_bytes_val_bound(b: Seq<u8>)
    ensures
        be_bytes_val(b) < pow256(b.len()),
    decreases b.len(),
{
    if b.len() > 0 {
        lemma_be_bytes_val_bound(b.drop_last());
        let p = pow256((b.len() - 1) as nat);
        assert(be_bytes_val(b.drop_last()) * 256 <= (p - 1) * 256) by (nonlinear_arith)
            requires
                be_bytes_val(b.drop_last()) <= p - 1,
        ;
    }
}

pub proof fn lemma_be_val_push(b: Seq<u8>, x: u8)
    ensures
        be_bytes_val(b.push(x)) == be_bytes_val(b) * 256 + x,
{
    assert(b.push(x).drop_last() =~= b);
}

/// Encoding a signed value in `len` bytes and sign-extending the bytes
/// read back yields the value again, whenever it lies in the signed range
/// of the width.
pub proof fn lemma_int_round_trip(x: i64, len: nat)
    requires
        1 <= len <= 8,
        -(pow256(len) as int) <= 2 * x < pow256(len) as int,
    ensures
        sign_extend_val(be_bytes_val(uint_be_bytes(twos_complement_u64(x) as nat, len)), len)
            == x as int,
{
    let p = pow256(len) as int;
    let t = twos_complement_u64(x) as nat;
    lemma_pow256_pos(len);
    lemma_be_bytes_val(t, len);
    let val = be_bytes_val(uint_be_bytes(t, len)) as int;
    if x >= 0 {
        lemma_pow256_increases(len, 8);
        lemma_small_mod(t, pow256(len));
        assert(val == x);
    } else {
        lemma_pow256_add(len, (8 - len) as nat);
        lemma_pow256_values();
        let k = pow256((8 - len) as nat) as int;
        assert(t as int == p * k + x);
        lemma_mod_multiples_vanish(k, x as int, p);
        lemma_mod_multiples_vanish(1, x as int, p);
        assert(p * 1 + x == x + p);
        lemma_small_mod((x + p) as nat, pow256(len));
        assert(val == x + p);
    }
}

/// Whether a value is of the kind its field format calls for.
pub open spec fn kind_matches(fmt: ItemFormat, v: ItemValueView) -> bool {
    match fmt {
        ItemFormat::Len { .. } => v is Len,
        ItemFormat::Uint { .. } => v is Uint,
        ItemFormat::Int { .. } => v is Int,
        ItemFormat::FixedString { .. } => v is Str,
        ItemFormat::VarString { .. } => v is Str,
        ItemFormat::FixedBytes { .. } => v is Bytes,
        ItemFormat::VarBytes { .. } => v is Bytes,
    }
}

/// A message is positionally aligned with a schema: same length, and
/// every value of the kind its field calls for.
pub open spec fn msg_matches(fmts: Seq<ItemFormat>, vals: Seq<ItemValueView>) -> bool {
    &&& vals.len() == fmts.len()
    &&& forall|i: int| 0 <= i < fmts.len() ==> #[trigger] kind_matches(fmts[i], vals[i])
}

/// The byte length field `i` resolves to, or zero where resolution fails.
pub open spec fn resolved_len_of(fmts: Seq<ItemFormat>, vals: Seq<ItemValueView>, i: int) -> int {
    match spec_resolved_len(fmts[i], vals) {
        Some(l) => l,
        None => 0,
    }
}

/// `b` padded with trailing zero bytes up to `len` bytes.
pub open spec fn zero_pad(b: Seq<u8>, len: int) -> Seq<u8>
    recommends
        b.len() <= len,
{
    b + Seq::new((len - b.len()) as nat, |i: int| 0u8)
}

/// The wire bytes of one value at width `len`: integers big-endian,
/// truncated or sign-preserved to the low `len` bytes; text as UTF-8 and
/// raw bytes as-is, zero-padded up to the width.
pub open spec fn spec_encode_item(v: ItemValueView, len: int) -> Seq<u8> {
    match v {
        ItemValueView::Len(x) => uint_be_bytes(x as nat, len as nat),
        ItemValueView::Uint(x) => uint_be_bytes(x as nat, len as nat),
        ItemValueView::Int(x) => uint_be_bytes(twos_complement_u64(x) as nat, len as nat),
        ItemValueView::Str(cs) => zero_pad(encode_utf8(cs), len),
        ItemValueView::Bytes(bs) => zero_pad(bs, len),
    }
}

/// The wire bytes of the first `n` fields of a message, concatenated in
/// order.
pub open spec fn spec_encode_prefix(
    fmts: Seq<ItemFormat>,
    vals: Seq<ItemValueView>,
    n: int,
) -> Seq<u8>
    decreases n,
{
    if n <= 0 {
        Seq::empty()
    } else {
        spec_encode_prefix(fmts, vals, n - 1) + spec_encode_item(
            vals[n - 1],
            resolved_len_of(fmts, vals, n - 1),
        )
    }
}

/// The full wire form of a message against a schema.
pub open spec fn spec_encode(fmts: Seq<ItemFormat>, vals: Seq<ItemValueView>) -> Seq<u8> {
    spec_encode_prefix(fmts, vals, fmts.len() as int)
}

/// The length check the encoder applies to one value at width `len`:
/// an integer's width must not exceed the 64-bit container, and text or
/// bytes must not be longer than the width.
pub open spec fn value_len_ok(v: ItemValueView, len: int) -> bool {
    match v {
        ItemValueView::Len(_) => len <= 8,
        ItemValueView::Uint(_) => len <= 8,
        ItemValueView::Int(_) => len <= 8,
        ItemValueView::Str(cs) => encode_utf8(cs).len() <= len,
        ItemValueView::Bytes(bs) => bs.len() <= len,
    }
}

/// Field `i` resolves to a length and its value passes the encoder's
/// length check.
pub open spec fn item_len_ok(fmts: Seq<ItemFormat>, vals: Seq<ItemValueView>, i: int) -> bool {
    &&& spec_resolved_len(fmts[i], vals) is Some
    &&& value_len_ok(vals[i], resolved_len_of(fmts, vals, i))
}

/// The error the encoder reports for field `i` when its length check
/// fails.
pub open spec fn encode_item_error(v: ItemValueView, len: int, item_idx: usize) -> Error {
    match v {
        ItemValueView::Str(cs) => Error::ValueLenOutOfBound {
            specified_len: len as usize,
            item_idx,
            len: encode_utf8(cs).len() as usize,
        },
        ItemValueView::Bytes(bs) => Error::ValueLenOutOfBound {
            specified_len: len as usize,
            item_idx,
            len: bs.len() as usize,
        },
        _ => Error::LenTooLarge { max_len: 8, item_idx, len: len as usize },
    }
}

/// A value round-trips at width `len`: integers lie within the width's
/// unsigned or signed range, and text or bytes fill the width exactly.
pub open spec fn value_fits(v: ItemValueView, len: int) -> bool {
    match v {
        ItemValueView::Len(x) => (x as nat) < pow256(len as nat),
        ItemValueView::Uint(x) => (x as nat) < pow256(len as nat),
        ItemValueView::Int(x) => -(pow256(len as nat) as int) <= 2 * x < pow256(len as nat) as int,
        ItemValueView::Str(cs) => encode_utf8(cs).len() == len,
        ItemValueView::Bytes(bs) => bs.len() == len,
    }
}

/// Field `i` resolves to a length and its value fits it exactly.
pub open spec fn item_fits(fmts: Seq<ItemFormat>, vals: Seq<ItemValueView>, i: int) -> bool {
    &&& spec_resolved_len(fmts[i], vals) is Some
    &&& value_fits(vals[i], resolved_len_of(fmts, vals, i))
}

/// Every value of the message satisfies its field's length constraints:
/// the condition under which encoding then decoding is the identity.
pub open spec fn msg_fits(fmts: Seq<ItemFormat>, vals: Seq<ItemValueView>) -> bool {
    &&& msg_matches(fmts, vals)
    &&& forall|i: int| 0 <= i < fmts.len() ==> #[trigger] item_fits(fmts, vals, i)
}

/// The value read from the `len` bytes of one field, or nothing when a
/// string field's bytes are not valid UTF-8.
pub open spec fn spec_read_item(fmt: ItemFormat, b: Seq<u8>) -> Option<ItemValueView> {
    match fmt {
        ItemFormat::Len { .. } => Some(ItemValueView::Len(be_bytes_val(b) as u64)),
        ItemFormat::Uint { .. } => Some(ItemValueView::Uint(be_bytes_val(b) as u64)),
        ItemFormat::Int { .. } => Some(
            ItemValueView::Int(sign_extend_val(be_bytes_val(b), b.len()) as i64),
        ),
        ItemFormat::FixedString { .. } | ItemFormat::VarString { .. } => if valid_utf8(b) {
            Some(ItemValueView::Str(decode_utf8(b)))
        } else {
            None
        },
        ItemFormat::FixedBytes { .. } | ItemFormat::VarBytes { .. } => Some(
            ItemValueView::Bytes(b),
        ),
    }
}

/// The values of the first `n` fields decoded from `bytes`, with the
/// position reached, walking left to right and resolving each field's
/// length from the values decoded before it; nothing when the input runs
/// out, a string field holds invalid UTF-8, or a length reference cannot
/// be satisfied.
pub open spec fn spec_decode_prefix(fmts: Seq<ItemFormat>, bytes: Seq<u8>, n: int) -> Option<
    (Seq<ItemValueView>, int),
>
    decreases n,
{
    if n <= 0 {
        Some((Seq::empty(), 0))
    } else {
        match spec_decode_prefix(fmts, bytes, n - 1) {
            None => None,
            Some((vals, pos)) => match spec_resolved_len(fmts[n - 1], vals) {
                None => None,
                Some(len) => if len < 0 || pos + len > bytes.len() {
                    None
                } else {
                    match spec_read_item(fmts[n - 1], bytes.subrange(pos, pos + len)) {
                        None => None,
                        Some(v) => Some((vals.push(v), pos + len)),
                    }
                },
            },
        }
    }
}

/// The whole message decoded from a prefix of `bytes`, or nothing when
/// decoding cannot complete.
pub open spec fn spec_decode(fmts: Seq<ItemFormat>, bytes: Seq<u8>) -> Option<Seq<ItemValueView>> {
    match spec_decode_prefix(fmts, bytes, fmts.len() as int) {
        Some((vals, _)) => Some(vals),
        None => None,
    }
}

/// Decoding stops at field `j` because fewer bytes remain than the field
/// resolves to.
pub open spec fn decode_stops_eof(fmts: Seq<ItemFormat>, bytes: Seq<u8>, j: int) -> bool {
    match spec_decode_prefix(fmts, bytes, j) {
        Some((vals, pos)) => match spec_resolved_len(fmts[j], vals) {
            Some(len) => pos + len > bytes.len(),
            None => false,
        },
        None => false,
    }
}

/// Decoding stops at string field `j` because its bytes are not valid
/// UTF-8.
pub open spec fn decode_stops_utf8(fmts: Seq<ItemFormat>, bytes: Seq<u8>, j: int) -> bool {
    match spec_decode_prefix(fmts, bytes, j) {
        Some((vals, pos)) => match spec_resolved_len(fmts[j], vals) {
            Some(len) => {
                &&& len >= 0
                &&& pos + len <= bytes.len()
                &&& (fmts[j] is FixedString || fmts[j] is VarString)
                &&& !valid_utf8(bytes.subrange(pos, pos + len))
            },
            None => false,
        },
        None => false,
    }
}

/// What a successful partial decode guarantees: one value per field so
/// far, each of its field's kind, and a position within the input.
pub proof fn lemma_decode_prefix_shape(fmts: Seq<ItemFormat>, bytes: Seq<u8>, n: int)
    ensures
        spec_decode_prefix(fmts, bytes, n) matches Some(r) ==> {
            &&& r.0.len() == if n <= 0 {
                0
            } else {
                n
            }
            &&& 0 <= r.1 <= bytes.len()
            &&& forall|k: int| 0 <= k < r.0.len() ==> #[trigger] kind_matches(fmts[k], r.0[k])
        },
    decreases n,
{
    if n > 0 {
        lemma_decode_prefix_shape(fmts, bytes, n - 1);
    }
}

/// A successful partial decode only looks at the bytes before the
/// position it reaches, so extending the input does not change it.
pub proof fn lemma_decode_prefix_extends(
    fmts: Seq<ItemFormat>,
    bytes: Seq<u8>,
    ext: Seq<u8>,
    n: int,
)
    requires
        spec_decode_prefix(fmts, bytes, n) is Some,
    ensures
        spec_decode_prefix(fmts, bytes + ext, n) == spec_decode_prefix(fmts, bytes, n),
    decreases n,
{
    if n > 0 {
        lemma_decode_prefix_extends(fmts, bytes, ext, n - 1);
        lemma_decode_prefix_shape(fmts, bytes, n - 1);
        let (vals, pos) = spec_decode_prefix(fmts, bytes, n - 1).unwrap();
        match spec_resolved_len(fmts[n - 1], vals) {
            Some(len) => {
                if 0 <= len && pos + len <= bytes.len() {
                    assert((bytes + ext).subrange(pos, pos + len) =~= bytes.subrange(
                        pos,
                        pos + len,
                    ));
                }
            },
            None => {},
        }
    }
}

/// Once a partial decode fails, every longer prefix fails too.
pub proof fn lemma_decode_prefix_none(fmts: Seq<ItemFormat>, bytes: Seq<u8>, n: int, m: int)
    requires
        spec_decode_prefix(fmts, bytes, n) is None,
        n <= m,
    ensures
        spec_decode_prefix(fmts, bytes, m) is None,
    decreases m,
{
    if n < m {
        lemma_decode_prefix_none(fmts, bytes, n, m - 1);
    }
}

/// Reading back the encoding of a value that fits its width yields the
/// value again.
pub proof fn lemma_read_encode_item(fmt: ItemFormat, v: ItemValueView, len: int)
    requires
        kind_matches(fmt, v),
        value_fits(v, len),
        v is Len || v is Uint || v is Int ==> 1 <= len <= 8,
        len >= 0,
    ensures
        spec_encode_item(v, len).len() == len,
        spec_read_item(fmt, spec_encode_item(v, len)) == Some(v),
{
    match v {
        ItemValueView::Len(x) => {
            lemma_uint_be_bytes_len(x as nat, len as nat);
            lemma_be_bytes_val_small(x as nat, len as nat);
        },
        ItemValueView::Uint(x) => {
            lemma_uint_be_bytes_len(x as nat, len as nat);
            lemma_be_bytes_val_small(x as nat, len as nat);
        },
        ItemValueView::Int(x) => {
            lemma_uint_be_bytes_len(twos_complement_u64(x) as nat, len as nat);
            lemma_int_round_trip(x, len as nat);
        },
        ItemValueView::Str(cs) => {
            encode_utf8_valid_utf8(cs);
            encode_utf8_decode_utf8(cs);
            assert(zero_pad(encode_utf8(cs), len) =~= encode_utf8(cs));
        },
        ItemValueView::Bytes(bs) => {
            assert(zero_pad(bs, len) =~= bs);
        },
    }
}

/// Appends the low `len` bytes of `v`, big-endian.
fn push_uint_be(out: &mut Vec<u8>, v: u64, len: usize)
    ensures
        final(out)@ == old(out)@ + uint_be_bytes(v as nat, len as nat),
    decreases len,
{
    if len == 0 {
        assert(final(out)@ =~= old(out)@ + uint_be_bytes(v as nat, 0));
    } else {
        push_uint_be(out, v / 256, len - 1);
        out.push((v % 256) as u8);
        assert(final(out)@ =~= old(out)@ + uint_be_bytes(v as nat, len as nat));
    }
}

/// Reads `len` bytes at `pos` as an unsigned big-endian integer.
fn read_uint_be(bytes: &[u8], pos: usize, len: usize) -> (r: u64)
    requires
        pos + len <= bytes@.len(),
        len <= 8,
    ensures
        r as nat == be_bytes_val(bytes@.subrange(pos as int, pos as int + len as int)),
{
    let _total = bytes.len();
    let mut val: u64 = 0;
    let mut j: usize = 0;
    while j < len
        invariant
            pos + len <= bytes@.len(),
            bytes@.len() <= usize::MAX,
            len <= 8,
            j <= len,
            val as nat == be_bytes_val(bytes@.subrange(pos as int, pos as int + j as int)),
            (val as nat) < pow256(j as nat),
        decreases len - j,
    {
        let b = *vstd::slice::slice_index_get(bytes, pos + j);
        proof {
            lemma_pow256_values();
            let seg_j = bytes@.subrange(pos as int, pos as int + j as int);
            let seg_j1 = bytes@.subrange(pos as int, pos as int + j as int + 1);
            assert(seg_j1 =~= seg_j.push(bytes@[pos as int + j as int]));
            lemma_be_val_push(seg_j, bytes@[pos as int + j as int]);
            lemma_pow256_increases((j + 1) as nat, 8);
            assert(val as nat * 256 + b < pow256((j + 1) as nat)) by (nonlinear_arith)
                requires
                    (val as nat) < pow256(j as nat),
                    b < 256,
                    pow256((j + 1) as nat) == 256 * pow256(j as nat),
            ;
        }
        val = val * 256 + (b as u64);
        j = j + 1;
    }
    val
}

/// The two's-complement 64-bit image of `v`, computed without overflow.
fn to_twos_complement(v: i64) -> (r: u64)
    ensures
        r == twos_complement_u64(v),
{
    if v >= 0 {
        v as u64
    } else {
        let neg = -(v + 1);
        u64::MAX - (neg as u64)
    }
}

/// Sign-extends an unsigned `len`-byte value to a signed 64-bit value.
fn from_sign_extended(u: u64, len: usize) -> (r: i64)
    requires
        1 <= len <= 8,
        (u as nat) < pow256(len as nat),
    ensures
        r as int == sign_extend_val(u as nat, len as nat),
{
    proof {
        lemma_pow256_values();
    }
    let half: u64 = match len {
        1 => 0x80,
        2 => 0x8000,
        3 => 0x80_0000,
        4 => 0x8000_0000,
        5 => 0x80_0000_0000,
        6 => 0x8000_0000_0000,
        7 => 0x80_0000_0000_0000,
        _ => 0x8000_0000_0000_0000,
    };
    assert(2 * half == pow256(len as nat));
    if u < half {
        u as i64
    } else {
        let diff = half - (u - half);
        -((diff - 1) as i64) - 1
    }
}

/// Relies on `String::from_utf8`: it returns `Ok` exactly when the bytes
/// are a valid UTF-8 encoding, and then yields the characters they
/// encode.
#[verifier::external_body]
pub(crate) fn bytes_to_string(bytes: Vec<u8>) -> (r: Option<String>)
    ensures
        r is Some <==> valid_utf8(bytes@),
        r matches Some(s) ==> s@ == decode_utf8(bytes@),
{
    String::from_utf8(bytes).ok()
}

/// Interprets the `len` bytes at `pos` as one value of the field's kind:
/// `Len`/`Uint` unsigned big-endian, `Int` sign-extended from the width,
/// strings as UTF-8 (failing with the field's position on malformed
/// bytes), byte fields as the raw bytes.
pub fn read_item(bytes: &[u8], pos: usize, len: usize, fmt: &ItemFormat, item_idx: usize) -> (r:
    Result<ItemValue, Error>)
    requires
        pos + len <= bytes@.len(),
        (fmt is Len || fmt is Uint || fmt is Int) ==> 1 <= len <= 8,
    ensures
        ({
            let seg = bytes@.subrange(pos as int, pos as int + len as int);
            match r {
                Ok(v) => spec_read_item(*fmt, seg) == Some(v@),
                Err(e) => spec_read_item(*fmt, seg) is None && e == (Error::FromUtf8 { item_idx }),
            }
        }),
{
    let _total = bytes.len();
    let ghost seg = bytes@.subrange(pos as int, pos as int + len as int);
    proof {
        lemma_be_bytes_val_bound(seg);
    }
    match fmt {
        ItemFormat::Len { .. } => {
            proof {
                lemma_pow256_increases(len as nat, 8);
                lemma_pow256_values();
            }
            Ok(ItemValue::Len(read_uint_be(bytes, pos, len)))
        },
        ItemFormat::Uint { .. } => {
            proof {
                lemma_pow256_increases(len as nat, 8);
                lemma_pow256_values();
            }
            Ok(ItemValue::Uint(read_uint_be(bytes, pos, len)))
        },
        ItemFormat::Int { .. } => {
            proof {
                lemma_pow256_increases(len as nat, 8);
                lemma_pow256_values();
            }
            let u = read_uint_be(bytes, pos, len);
            Ok(ItemValue::Int(from_sign_extended(u, len)))
        },
        ItemFormat::FixedString { .. } | ItemFormat::VarString { .. } => {
            let seg_slice = vstd::slice::slice_subrange(bytes, pos, pos + len);
            match bytes_to_string(vstd::slice::slice_to_vec(seg_slice)) {
                Some(s) => Ok(ItemValue::String(s)),
                None => Err(Error::FromUtf8 { item_idx }),
            }
        },
        ItemFormat::FixedBytes { .. } | ItemFormat::VarBytes { .. } => {
            let seg_slice = vstd::slice::slice_subrange(bytes, pos, pos + len);
            Ok(ItemValue::Bytes(vstd::slice::slice_to_vec(seg_slice)))
        },
    }
}

/// Checks one value against the width its field resolves to and appends
/// its wire bytes: integers as the low `len` bytes big-endian, text and
/// raw bytes as-is, zero-padded up to the width. On failure the output
/// is left untouched.
pub fn write_item(out: &mut Vec<u8>, fmt: &ItemFormat, item_idx: usize, value: &ItemValue, len: u64) -> (r:
    Result<(), Error>)
    requires
        kind_matches(*fmt, value@),
    ensures
        match r {
            Ok(_) => value_len_ok(value@, len as int) && final(out)@ == old(out)@
                + spec_encode_item(value@, len as int),
            Err(e) => {
                &&& !value_len_ok(value@, len as int)
                &&& final(out)@ == old(out)@
                &&& e == encode_item_error(value@, len as int, item_idx)
            },
        },
{
    match value {
        ItemValue::Len(v) => {
            if len > 8 {
                Err(Error::LenTooLarge { max_len: 8, item_idx, len: #[verifier::truncate] (len as usize) })
            } else {
                push_uint_be(out, *v, len as usize);
                Ok(())
            }
        },
        ItemValue::Uint(v) => {
            if len > 8 {
                Err(Error::LenTooLarge { max_len: 8, item_idx, len: #[verifier::truncate] (len as usize) })
            } else {
                push_uint_be(out, *v, len as usize);
                Ok(())
            }
        },
        ItemValue::Int(v) => {
            if len > 8 {
                Err(Error::LenTooLarge { max_len: 8, item_idx, len: #[verifier::truncate] (len as usize) })
            } else {
                push_uint_be(out, to_twos_complement(*v), len as usize);
                Ok(())
            }
        },
        ItemValue::String(s) => {
            let bs = s.as_str().as_bytes();
            write_raw(out, bs, item_idx, len)
        },
        ItemValue::Bytes(b) => {
            let bs = b.as_slice();
            write_raw(out, bs, item_idx, len)
        },
    }
}

/// Appends `bs` followed by zero padding up to `len` bytes, or reports
/// that the value is longer than the width.
fn write_raw(out: &mut Vec<u8>, bs: &[u8], item_idx: usize, len: u64) -> (r: Result<(), Error>)
    ensures
        match r {
            Ok(_) => bs@.len() <= len && final(out)@ == old(out)@ + zero_pad(bs@, len as int),
            Err(e) => {
                &&& bs@.len() > len
                &&& final(out)@ == old(out)@
                &&& e == (Error::ValueLenOutOfBound {
                    specified_len: len as usize,
                    item_idx,
                    len: bs@.len() as usize,
                })
            },
        },
{
    let n = bs.len();
    if (n as u64) > len {
        return Err(Error::ValueLenOutOfBound { specified_len: len as usize, item_idx, len: n });
    }
    out.extend_from_slice(bs);
    let mut k: u64 = n as u64;
    while k < len
        invariant
            n == bs@.len(),
            n <= k <= len,
            out@ == old(out)@ + bs@ + Seq::new((k - n) as nat, |i: int| 0u8),
        decreases len - k,
    {
        out.push(0);
        proof {
            assert(Seq::new((k + 1 - n) as nat, |i: int| 0u8) =~= Seq::new(
                (k - n) as nat,
                |i: int| 0u8,
            ).push(0u8));
            assert(out@ =~= old(out)@ + bs@ + Seq::new((k + 1 - n) as nat, |i: int| 0u8));
        }
        k = k + 1;
    }
    proof {
        assert(out@ =~= old(out)@ + zero_pad(bs@, len as int));
    }
    Ok(())
}

/// On a valid schema aligned with a message, every field resolves to the
/// same non-negative length whether looked up among all the values or
/// only those before it.
pub proof fn lemma_resolved_on_prefix(fmts: Seq<ItemFormat>, vals: Seq<ItemValueView>, j: int)
    requires
        crate::msg::format_valid(fmts),
        msg_matches(fmts, vals),
        0 <= j < fmts.len(),
    ensures
        spec_resolved_len(fmts[j], vals) is Some,
        spec_resolved_len(fmts[j], vals.take(j)) == spec_resolved_len(fmts[j], vals),
        resolved_len_of(fmts, vals, j) >= 0,
{
    assert(crate::msg::item_valid(fmts, j));
    match fmts[j] {
        ItemFormat::VarString { len_idx } | ItemFormat::VarBytes { len_idx } => {
            assert(kind_matches(fmts[len_idx as int], vals[len_idx as int]));
            assert(vals.take(j)[len_idx as int] == vals[len_idx as int]);
        },
        _ => {},
    }
}

/// Encodes messages against a shared schema.
pub struct MessageEncoder<'a> {
    pub fmt: &'a MessageFormat,
}

impl<'a> MessageEncoder<'a> {
    pub fn new(fmt: &'a MessageFormat) -> (r: Self)
        ensures
            r.fmt == fmt,
    {
        MessageEncoder { fmt }
    }

    /// Walks the fields left to right, resolving each field's width from
    /// the message's own values, checking each value against its width,
    /// and concatenating the fields' wire bytes; fails on the first value
    /// longer than its width, reporting its position.
    pub fn encode(self, msg: &Message) -> (r: Result<Vec<u8>, Error>)
        requires
            self.fmt.wf(),
            msg_matches(self.fmt@, msg@),
        ensures
            match r {
                Ok(bytes) => {
                    &&& forall|i: int|
                        0 <= i < self.fmt@.len() ==> #[trigger] item_len_ok(self.fmt@, msg@, i)
                    &&& bytes@ == spec_encode(self.fmt@, msg@)
                },
                Err(e) => exists|i: int|
                    {
                        &&& 0 <= i < self.fmt@.len()
                        &&& !(#[trigger] item_len_ok(self.fmt@, msg@, i))
                        &&& forall|j: int| 0 <= j < i ==> #[trigger] item_len_ok(self.fmt@, msg@, j)
                        &&& e == encode_item_error(
                            msg@[i],
                            resolved_len_of(self.fmt@, msg@, i),
                            i as usize,
                        )
                    },
            },
    {
        let ghost fmts = self.fmt@;
        let ghost vals = msg@;
        let n = self.fmt.len();
        let mut out: Vec<u8> = Vec::new();
        let mut i: usize = 0;
        while i < n
            invariant
                self.fmt.wf(),
                msg_matches(fmts, vals),
                fmts == self.fmt@,
                vals == msg@,
                n == fmts.len(),
                i <= n,
                msg.values@.len() == n,
                forall|j: int| 0 <= j < i ==> #[trigger] item_len_ok(fmts, vals, j),
                out@ == spec_encode_prefix(fmts, vals, i as int),
            decreases n - i,
        {
            let fmt_i = self.fmt.fmts()[i];
            proof {
                lemma_resolved_on_prefix(fmts, vals, i as int);
                assert(vals[i as int] == msg.values@[i as int]@);
                assert(kind_matches(fmts[i as int], vals[i as int]));
            }
            let len = match crate::msg::value_len(&fmt_i, i, msg.values.as_slice()) {
                Ok(l) => l,
                Err(e) => {
                    proof {
                        assert(false);
                    }
                    return Err(e);
                },
            };
            match write_item(&mut out, &fmt_i, i, &msg.values[i], len) {
                Ok(()) => {
                    proof {
                        assert(vals[i as int] == msg.values@[i as int]@);
                        assert(out@ == spec_encode_prefix(fmts, vals, i as int + 1));
                    }
                },
                Err(e) => {
                    proof {
                        assert(vals[i as int] == msg.values@[i as int]@);
                        assert(!item_len_ok(fmts, vals, i as int));
                    }
                    return Err(e);
                },
            }
            i = i + 1;
        }
        Ok(out)
    }
}

/// Decodes one message laid out by a shared schema from a byte source.
pub struct MessageDecoder<'a> {
    pub fmt: &'a MessageFormat,
    pub r: &'a [u8],
}

impl<'a> MessageDecoder<'a> {
    pub fn new(fmt: &'a MessageFormat, r: &'a [u8]) -> (d: Self)
        ensures
            d.fmt == fmt,
            d.r == r,
    {
        MessageDecoder { fmt, r }
    }

    /// Walks the fields left to right over a cursor into the bytes,
    /// resolving each field's width from the values decoded so far and
    /// never looking ahead or backtracking; fails with an end-of-data
    /// condition when fewer bytes remain than the field needs, or with
    /// the field's position when a string field holds invalid UTF-8.
    /// No partially populated message is ever produced.
    pub fn decode(self) -> (res: Result<Message, Error>)
        requires
            self.fmt.wf(),
        ensures
            match res {
                Ok(m) => {
                    &&& spec_decode(self.fmt@, self.r@) == Some(m@)
                    &&& m@.len() == self.fmt@.len()
                },
                Err(e) => {
                    &&& spec_decode(self.fmt@, self.r@) is None
                    &&& match e {
                        Error::EndOfStream => exists|j: int|
                            0 <= j < self.fmt@.len() && #[trigger] decode_stops_eof(
                                self.fmt@,
                                self.r@,
                                j,
                            ),
                        Error::FromUtf8 { item_idx } => item_idx < self.fmt@.len()
                            && decode_stops_utf8(self.fmt@, self.r@, item_idx as int),
                        _ => false,
                    }
                },
            },
    {
        let ghost fmts = self.fmt@;
        let bytes = self.r;
        let total = bytes.len();
        let n = self.fmt.len();
        let mut values: Vec<ItemValue> = Vec::new();
        let mut pos: usize = 0;
        let mut i: usize = 0;
        while i < n
            invariant
                self.fmt.wf(),
                fmts == self.fmt@,
                bytes == self.r,
                total == bytes@.len(),
                n == fmts.len(),
                i <= n,
                pos <= total,
                crate::msg::vals_view(values@).len() == i,
                spec_decode_prefix(fmts, bytes@, i as int) == Some(
                    (crate::msg::vals_view(values@), pos as int),
                ),
            decreases n - i,
        {
            let ghost vals = crate::msg::vals_view(values@);
            let fmt_i = self.fmt.fmts()[i];
            proof {
                lemma_decode_prefix_shape(fmts, bytes@, i as int);
                assert(crate::msg::item_valid(fmts, i as int));
                match fmts[i as int] {
                    ItemFormat::VarString { len_idx } | ItemFormat::VarBytes { len_idx } => {
                        assert(kind_matches(fmts[len_idx as int], vals[len_idx as int]));
                    },
                    _ => {},
                }
            }
            let len = match crate::msg::value_len(&fmt_i, i, values.as_slice()) {
                Ok(l) => l,
                Err(e) => {
                    proof {
                        assert(false);
                    }
                    return Err(e);
                },
            };
            if len > (total - pos) as u64 {
                proof {
                    assert(decode_stops_eof(fmts, bytes@, i as int));
                    assert(spec_decode_prefix(fmts, bytes@, i as int + 1) is None);
                    lemma_decode_prefix_none(fmts, bytes@, i as int + 1, n as int);
                }
                return Err(Error::EndOfStream);
            }
            let len_us = len as usize;
            match read_item(bytes, pos, len_us, &fmt_i, i) {
                Ok(v) => {
                    proof {
                        assert(crate::msg::vals_view(values@.push(v)) =~= vals.push(v@));
                        assert(spec_decode_prefix(fmts, bytes@, i as int + 1) == Some(
                            (vals.push(v@), pos + len_us as int),
                        ));
                    }
                    values.push(v);
                    pos = pos + len_us;
                },
                Err(e) => {
                    proof {
                        assert(fmts[i as int] is FixedString || fmts[i as int] is VarString);
                        assert(decode_stops_utf8(fmts, bytes@, i as int));
                        assert(spec_decode_prefix(fmts, bytes@, i as int + 1) is None);
                        lemma_decode_prefix_none(fmts, bytes@, i as int + 1, n as int);
                    }
                    return Err(e);
                },
            }
            i = i + 1;
        }
        Ok(Message { values })
    }
}

/// A shorter encoded prefix of a message is a prefix of every longer one.
pub proof fn lemma_encode_prefix_is_prefix(
    fmts: Seq<ItemFormat>,
    vals: Seq<ItemValueView>,
    a: int,
    b: int,
)
    requires
        0 <= a <= b,
    ensures
        spec_encode_prefix(fmts, vals, a).len() <= spec_encode_prefix(fmts, vals, b).len(),
        spec_encode_prefix(fmts, vals, a) == spec_encode_prefix(fmts, vals, b).subrange(
            0,
            spec_encode_prefix(fmts, vals, a).len() as int,
        ),
    decreases b,
{
    if a < b {
        lemma_encode_prefix_is_prefix(fmts, vals, a, b - 1);
        assert(spec_encode_prefix(fmts, vals, b).subrange(
            0,
            spec_encode_prefix(fmts, vals, a).len() as int,
        ) =~= spec_encode_prefix(fmts, vals, a));
    } else {
        assert(spec_encode_prefix(fmts, vals, b).subrange(
            0,
            spec_encode_prefix(fmts, vals, a).len() as int,
        ) =~= spec_encode_prefix(fmts, vals, a));
    }
}

/// On a valid schema, an integer field's value only matches a field whose
/// width lies in 1..=8.
proof fn lemma_int_width_bounds(fmts: Seq<ItemFormat>, vals: Seq<ItemValueView>, j: int)
    requires
        crate::msg::format_valid(fmts),
        msg_matches(fmts, vals),
        0 <= j < fmts.len(),
    ensures
        (vals[j] is Len || vals[j] is Uint || vals[j] is Int) ==> 1 <= resolved_len_of(
            fmts,
            vals,
            j,
        ) <= 8,
{
    assert(crate::msg::item_valid(fmts, j));
    assert(kind_matches(fmts[j], vals[j]));
}

/// Decoding the first `j` fields out of any cut of a message's wire
/// bytes that still contains them yields exactly those fields' values.
proof fn lemma_decode_encoded_prefix(
    fmts: Seq<ItemFormat>,
    vals: Seq<ItemValueView>,
    cut: int,
    j: int,
)
    requires
        crate::msg::format_valid(fmts),
        msg_fits(fmts, vals),
        0 <= j <= fmts.len(),
        spec_encode_prefix(fmts, vals, j).len() <= cut <= spec_encode(fmts, vals).len(),
    ensures
        spec_decode_prefix(fmts, spec_encode(fmts, vals).take(cut), j) == Some(
            (vals.take(j), spec_encode_prefix(fmts, vals, j).len() as int),
        ),
    decreases j,
{
    let enc = spec_encode(fmts, vals);
    let b = enc.take(cut);
    if j <= 0 {
        assert(vals.take(j) =~= Seq::<ItemValueView>::empty());
    } else {
        lemma_encode_prefix_is_prefix(fmts, vals, j - 1, j);
        lemma_decode_encoded_prefix(fmts, vals, cut, j - 1);
        let pos = spec_encode_prefix(fmts, vals, j - 1).len() as int;
        lemma_resolved_on_prefix(fmts, vals, j - 1);
        let len = resolved_len_of(fmts, vals, j - 1);
        assert(item_fits(fmts, vals, j - 1));
        assert(kind_matches(fmts[j - 1], vals[j - 1]));
        lemma_int_width_bounds(fmts, vals, j - 1);
        lemma_read_encode_item(fmts[j - 1], vals[j - 1], len);
        let item = spec_encode_item(vals[j - 1], len);
        let prefix_j = spec_encode_prefix(fmts, vals, j);
        assert(prefix_j == spec_encode_prefix(fmts, vals, j - 1) + item);
        lemma_encode_prefix_is_prefix(fmts, vals, j, fmts.len() as int);
        assert(b.subrange(pos, pos + len) =~= item) by {
            assert forall|k: int| 0 <= k < len implies b[pos + k] == item[k] by {
                assert(b[pos + k] == enc[pos + k]);
                assert(enc[pos + k] == prefix_j[pos + k]);
                assert(prefix_j[pos + k] == item[k]);
            }
        }
        assert(spec_decode_prefix(fmts, b, j) == Some((vals.take(j - 1).push(vals[j - 1]), pos
            + len)));
        assert(vals.take(j) =~= vals.take(j - 1).push(vals[j - 1]));
    }
}

/// Round trip: decoding the encoding of any message whose values satisfy
/// every field's length constraints yields exactly that message.
pub proof fn lemma_round_trip(fmts: Seq<ItemFormat>, vals: Seq<ItemValueView>)
    requires
        crate::msg::format_valid(fmts),
        msg_fits(fmts, vals),
    ensures
        spec_decode(fmts, spec_encode(fmts, vals)) == Some(vals),
{
    let enc = spec_encode(fmts, vals);
    let n = fmts.len() as int;
    lemma_decode_encoded_prefix(fmts, vals, enc.len() as int, n);
    assert(enc.take(enc.len() as int) =~= enc);
    assert(vals.take(n) =~= vals);
}

proof fn lemma_truncation_rec(fmts: Seq<ItemFormat>, vals: Seq<ItemValueView>, cut: int, j: int)
    requires
        crate::msg::format_valid(fmts),
        msg_fits(fmts, vals),
        0 <= j <= fmts.len(),
        spec_encode_prefix(fmts, vals, j).len() <= cut < spec_encode(fmts, vals).len(),
    ensures
        spec_decode(fmts, spec_encode(fmts, vals).take(cut)) is None,
    decreases fmts.len() - j,
{
    let n = fmts.len() as int;
    let enc = spec_encode(fmts, vals);
    if j == n {
        assert(false);
    } else if spec_encode_prefix(fmts, vals, j + 1).len() <= cut {
        lemma_truncation_rec(fmts, vals, cut, j + 1);
    } else {
        lemma_decode_encoded_prefix(fmts, vals, cut, j);
        let pos = spec_encode_prefix(fmts, vals, j).len() as int;
        lemma_resolved_on_prefix(fmts, vals, j);
        let len = resolved_len_of(fmts, vals, j);
        assert(item_fits(fmts, vals, j));
        assert(kind_matches(fmts[j], vals[j]));
        lemma_int_width_bounds(fmts, vals, j);
        lemma_read_encode_item(fmts[j], vals[j], len);
        let b = enc.take(cut);
        assert(spec_encode_prefix(fmts, vals, j + 1).len() == pos + len);
        assert(spec_decode_prefix(fmts, b, j + 1) is None);
        lemma_decode_prefix_none(fmts, b, j + 1, n);
    }
}

/// Truncation safety: decoding any strict prefix of a message's wire
/// bytes fails; the byte count never reaches the sum of the resolved
/// field lengths, so no message is produced at all.
pub proof fn lemma_truncation_fails(fmts: Seq<ItemFormat>, vals: Seq<ItemValueView>, cut: int)
    requires
        crate::msg::format_valid(fmts),
        msg_fits(fmts, vals),
        0 <= cut < spec_encode(fmts, vals).len(),
    ensures
        spec_decode(fmts, spec_encode(fmts, vals).take(cut)) is None,
{
    lemma_truncation_rec(fmts, vals, cut, 0);
}

} // verus!

