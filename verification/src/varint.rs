//! Variable-length integers (LEB128, as in protocol buffers) through the
//! `integer_encoding` crate, with the format stated as spec functions.

use integer_encoding::VarInt;
use vstd::prelude::*;

verus! {

/// Number of bytes after which a 64-bit varint must have ended.
pub open spec fn max_varint_len() -> nat {
    10
}

/// The varint encoding of `n`: seven bits per byte, least significant group first,
/// the high bit set on every byte but the last.
pub open spec fn varint_bytes(n: nat) -> Seq<u8>
    decreases n,
{
    if n < 128 {
        seq![n as u8]
    } else {
        seq![(n % 128 + 128) as u8] + varint_bytes(n / 128)
    }
}

/// Index of the first byte of `s` without the continuation bit, looking at the
/// first `limit` bytes only.
pub open spec fn varint_end(s: Seq<u8>, limit: nat) -> Option<nat>
    decreases limit,
{
    if limit == 0 || s.len() == 0 {
        None
    } else if s[0] < 128 {
        Some(0)
    } else {
        match varint_end(s.drop_first(), (limit - 1) as nat) {
            Some(i) => Some(i + 1),
            None => None,
        }
    }
}

/// The number held by the low seven bits of the first `n` bytes of `s`.
pub open spec fn leb_value(s: Seq<u8>, n: nat) -> nat
    decreases n,
{
    if n == 0 || s.len() == 0 {
        0
    } else {
        (s[0] % 128) as nat + 128 * leb_value(s.drop_first(), (n - 1) as nat)
    }
}

pub open spec fn pow2_64() -> nat {
    0x1_0000_0000_0000_0000
}

/// What reading an unsigned 64-bit varint from the front of `s` gives: the value and
/// the number of bytes it took, or `None` when no byte among the first ten ends it.
pub open spec fn varint_parse(s: Seq<u8>) -> Option<(u64, nat)> {
    match varint_end(s, max_varint_len()) {
        Some(i) => Some(((leb_value(s, i + 1) % pow2_64()) as u64, i + 1)),
        None => None,
    }
}

/// Zigzag mapping of signed integers onto unsigned ones.
pub open spec fn zigzag(n: int) -> nat {
    if n >= 0 {
        (2 * n) as nat
    } else {
        (-2 * n - 1) as nat
    }
}

/// Inverse of `zigzag`.
pub open spec fn unzigzag(n: nat) -> int {
    if n % 2 == 0 {
        (n / 2) as int
    } else {
        -((n + 1) / 2)
    }
}

/// What reading a signed 64-bit varint from the front of `s` gives.
pub open spec fn signed_varint_parse(s: Seq<u8>) -> Option<(i64, nat)> {
    match varint_parse(s) {
        Some((v, k)) => Some((unzigzag(v as nat) as i64, k)),
        None => None,
    }
}

/// `u64::encode_var_vec` of `integer_encoding`: the bytes of the varint encoding.
#[verifier::external_body]
fn u64_encode_var_vec(n: u64) -> (r: Vec<u8>)
    ensures
        r@ == varint_bytes(n as nat),
{
    n.encode_var_vec()
}

/// `u64::decode_var` of `integer_encoding`: reads a varint from the front of the slice;
/// the result is the value and the number of bytes read.
#[verifier::external_body]
fn u64_decode_var(src: &[u8]) -> (r: Option<(u64, usize)>)
    ensures
        match r {
            Some((v, k)) => varint_parse(src@) == Some((v, k as nat)),
            None => varint_parse(src@) is None,
        },
{
    u64::decode_var(src)
}

/// `i64::encode_var_vec` of `integer_encoding`: zigzag, then the varint encoding.
#[verifier::external_body]
fn i64_encode_var_vec(n: i64) -> (r: Vec<u8>)
    ensures
        r@ == varint_bytes(zigzag(n as int)),
{
    n.encode_var_vec()
}

/// `i64::decode_var` of `integer_encoding`: an unsigned varint, then zigzag decoding.
#[verifier::external_body]
fn i64_decode_var(src: &[u8]) -> (r: Option<(i64, usize)>)
    ensures
        match r {
            Some((v, k)) => signed_varint_parse(src@) == Some((v, k as nat)),
            None => signed_varint_parse(src@) is None,
        },
{
    i64::decode_var(src)
}

/// Appends the varint encoding of `n` to `out`; returns the number of bytes written.
pub fn write_varint_u64(out: &mut Vec<u8>, n: u64) -> (written: usize)
    ensures
        final(out)@ == old(out)@ + varint_bytes(n as nat),
        written == varint_bytes(n as nat).len(),
{
    let enc = u64_encode_var_vec(n);
    let written = enc.len();
    let mut i: usize = 0;
    while i < enc.len()
        invariant
            i <= enc.len(),
            enc@ == varint_bytes(n as nat),
            out@ == old(out)@ + enc@.subrange(0, i as int),
        decreases enc.len() - i,
    {
        out.push(enc[i]);
        i = i + 1;
        assert(enc@.subrange(0, i as int) == enc@.subrange(0, (i - 1) as int).push(enc@[i - 1]));
    }
    assert(enc@.subrange(0, i as int) == enc@);
    written
}

/// Appends the zigzag varint encoding of `n` to `out`; returns the number of bytes written.
pub fn write_varint_i64(out: &mut Vec<u8>, n: i64) -> (written: usize)
    ensures
        final(out)@ == old(out)@ + varint_bytes(zigzag(n as int)),
        written == varint_bytes(zigzag(n as int)).len(),
{
    let enc = i64_encode_var_vec(n);
    let written = enc.len();
    let mut i: usize = 0;
    while i < enc.len()
        invariant
            i <= enc.len(),
            enc@ == varint_bytes(zigzag(n as int)),
            out@ == old(out)@ + enc@.subrange(0, i as int),
        decreases enc.len() - i,
    {
        out.push(enc[i]);
        i = i + 1;
        assert(enc@.subrange(0, i as int) == enc@.subrange(0, (i - 1) as int).push(enc@[i - 1]));
    }
    assert(enc@.subrange(0, i as int) == enc@);
    written
}

/// The end of a varint lies among the bytes looked at.
pub proof fn lemma_varint_end_bound(s: Seq<u8>, limit: nat)
    ensures
        varint_end(s, limit) matches Some(i) ==> i < s.len() && i < limit,
    decreases limit,
{
    if limit > 0 && s.len() > 0 && s[0] >= 128 {
        lemma_varint_end_bound(s.drop_first(), (limit - 1) as nat);
    }
}

/// Reads an unsigned varint from the front of `src`.
pub fn read_varint_u64(src: &[u8]) -> (r: Option<(u64, usize)>)
    ensures
        match r {
            Some((v, k)) => varint_parse(src@) == Some((v, k as nat)),
            None => varint_parse(src@) is None,
        },
        r matches Some((v, k)) ==> 1 <= k <= src@.len() && k <= max_varint_len(),
{
    proof {
        lemma_varint_end_bound(src@, max_varint_len());
    }
    u64_decode_var(src)
}

/// Reads a zigzag-encoded signed varint from the front of `src`.
pub fn read_varint_i64(src: &[u8]) -> (r: Option<(i64, usize)>)
    ensures
        match r {
            Some((v, k)) => signed_varint_parse(src@) == Some((v, k as nat)),
            None => signed_varint_parse(src@) is None,
        },
        r matches Some((v, k)) ==> 1 <= k <= src@.len() && k <= max_varint_len(),
{
    proof {
        lemma_varint_end_bound(src@, max_varint_len());
    }
    i64_decode_var(src)
}

/// `128` to the power `k`.
pub open spec fn pow128(k: nat) -> nat
    decreases k,
{
    if k == 0 {
        1
    } else {
        128 * pow128((k - 1) as nat)
    }
}

/// The encoding of `n` takes at most `k` bytes when `n < 128^k`.
pub proof fn lemma_varint_len_bound(n: nat, k: nat)
    requires
        k >= 1,
        n < pow128(k),
    ensures
        1 <= varint_bytes(n).len() <= k,
    decreases n,
{
    if n >= 128 {
        if k == 1 {
            assert(pow128(1) == 128 * pow128(0));
        } else {
            let q = pow128((k - 1) as nat);
            assert(n / 128 < q) by (nonlinear_arith)
                requires n < 128 * q;
            lemma_varint_len_bound(n / 128, (k - 1) as nat);
        }
    }
}

/// A 64-bit value encodes into at most ten bytes.
pub proof fn lemma_varint_len_u64(n: u64)
    ensures
        1 <= varint_bytes(n as nat).len() <= max_varint_len(),
{
    reveal_with_fuel(pow128, 11);
    assert(pow128(10) == 0x4000_0000_0000_0000_00);
    lemma_varint_len_bound(n as nat, 10);
}

/// Reading the encoding of `n`, followed by anything, stops at the encoding's last byte
/// and gives back `n`.
proof fn lemma_varint_read_prefix(n: nat, rest: Seq<u8>, limit: nat)
    requires
        varint_bytes(n).len() <= limit,
    ensures
        varint_end(varint_bytes(n) + rest, limit) == Some((varint_bytes(n).len() - 1) as nat),
        leb_value(varint_bytes(n) + rest, varint_bytes(n).len()) == n,
    decreases n,
{
    let s = varint_bytes(n) + rest;
    if n < 128 {
        assert(s[0] == n as u8);
        assert(leb_value(s.drop_first(), 0) == 0);
    } else {
        let tail = varint_bytes(n / 128);
        assert(varint_bytes(n) == seq![(n % 128 + 128) as u8] + tail);
        assert(s.drop_first() == tail + rest);
        assert(s[0] == (n % 128 + 128) as u8);
        lemma_varint_read_prefix(n / 128, rest, (limit - 1) as nat);
        assert((s[0] % 128) as nat == n % 128);
    }
}

/// Reading back the varint encoding of a 64-bit value, whatever follows it, gives the
/// value and the length of its encoding.
pub proof fn lemma_varint_roundtrip(n: u64, rest: Seq<u8>)
    ensures
        varint_parse(varint_bytes(n as nat) + rest) == Some((n, varint_bytes(n as nat).len())),
{
    lemma_varint_len_u64(n);
    lemma_varint_read_prefix(n as nat, rest, max_varint_len());
}

/// The zigzag mapping of a 64-bit signed value fits in 64 bits, and is undone by `unzigzag`.
/// Zigzag interleaves the signed numbers onto the unsigned ones: `0, -1, 1, -2, 2, ...`
/// go to `0, 1, 2, 3, 4, ...`; a number and its successor's negation are neighbours.
pub proof fn lemma_zigzag_interleaves(n: nat)
    ensures
        zigzag(n as int) == 2 * n,
        zigzag(-(n as int) - 1) == 2 * n + 1,
        unzigzag(2 * n) == n as int,
        unzigzag(2 * n + 1) == -(n as int) - 1,
{
    assert((2 * n) % 2 == 0 && (2 * n) / 2 == n) by (nonlinear_arith);
    assert((2 * n + 1) % 2 == 1 && (2 * n + 2) / 2 == n + 1) by (nonlinear_arith);
}

pub proof fn lemma_zigzag_roundtrip(n: i64)
    ensures
        zigzag(n as int) < pow2_64(),
        unzigzag(zigzag(n as int)) == n as int,
{
}

/// Reading back the zigzag varint encoding of a signed 64-bit value gives the value.
pub proof fn lemma_signed_varint_roundtrip(n: i64, rest: Seq<u8>)
    ensures
        signed_varint_parse(varint_bytes(zigzag(n as int)) + rest) == Some(
            (n, varint_bytes(zigzag(n as int)).len()),
        ),
{
    lemma_zigzag_roundtrip(n);
    let z = zigzag(n as int) as u64;
    lemma_varint_roundtrip(z, rest);
}

} // verus!
