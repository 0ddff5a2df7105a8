//! Fields of `tracking.v2` frames: little-endian integers, identifiers, counted text and bytes.

use crate::tracking::uuids;
use vstd::prelude::*;
use vstd::slice::*;
use vstd::string::*;
use vstd::utf8::*;

verus! {

/// Longest text or payload in a frame, in bytes.
pub const MAX_STRING: usize = 4096;

/// Why a frame was refused.
#[derive(Debug, Clone, Copy, PartialEq, Eq, Structural)]
pub enum DecodeError {
    /// The frame ends before its last field.
    Truncated,
    /// A field holds what the protocol does not allow.
    Invalid,
}

impl DecodeError {
    pub open spec fn text(self) -> Seq<char> {
        match self {
            DecodeError::Truncated => "truncated frame"@,
            DecodeError::Invalid => "invalid frame"@,
        }
    }

    /// Human-readable form.
    pub fn message(self) -> (r: &'static str)
        ensures
            r@ == self.text(),
    {
        match self {
            DecodeError::Truncated => "truncated frame",
            DecodeError::Invalid => "invalid frame",
        }
    }
}

/// What a field reader makes of the bytes before it: a value and the bytes behind the field.
pub type Taken<T> = Result<(T, Seq<u8>), DecodeError>;

/// `v` modulo 2^16, least significant byte first.
pub open spec fn le16(v: int) -> Seq<u8> {
    seq![(v % 256) as u8, ((v / 256) % 256) as u8]
}

/// `v` modulo 2^32, least significant byte first.
#[verifier::opaque]
pub open spec fn le32(v: int) -> Seq<u8> {
    le16(v % 0x1_0000) + le16((v / 0x1_0000) % 0x1_0000)
}

/// `v` modulo 2^64, least significant byte first.
#[verifier::opaque]
pub open spec fn le64(v: int) -> Seq<u8> {
    le32(v % 0x1_0000_0000) + le32((v / 0x1_0000_0000) % 0x1_0000_0000)
}

pub open spec fn u16_at(b: Seq<u8>, i: int) -> int {
    b[i] + 256 * b[i + 1]
}

pub open spec fn u32_at(b: Seq<u8>, i: int) -> int {
    u16_at(b, i) + 0x1_0000 * u16_at(b, i + 2)
}

pub open spec fn u64_at(b: Seq<u8>, i: int) -> int {
    u32_at(b, i) + 0x1_0000_0000 * u32_at(b, i + 4)
}

/// The two's complement reading of `v`, which is below `2 * half`.
pub open spec fn signed(v: int, half: int) -> int {
    if v >= half {
        v - 2 * half
    } else {
        v
    }
}

pub open spec fn take_u8(b: Seq<u8>) -> Taken<u8> {
    if b.len() < 1 {
        Err(DecodeError::Truncated)
    } else {
        Ok((b[0], b.skip(1)))
    }
}

pub open spec fn take_u16(b: Seq<u8>) -> Taken<u16> {
    if b.len() < 2 {
        Err(DecodeError::Truncated)
    } else {
        Ok((u16_at(b, 0) as u16, b.skip(2)))
    }
}

pub open spec fn take_u32(b: Seq<u8>) -> Taken<u32> {
    if b.len() < 4 {
        Err(DecodeError::Truncated)
    } else {
        Ok((u32_at(b, 0) as u32, b.skip(4)))
    }
}

pub open spec fn take_u64(b: Seq<u8>) -> Taken<u64> {
    if b.len() < 8 {
        Err(DecodeError::Truncated)
    } else {
        Ok((u64_at(b, 0) as u64, b.skip(8)))
    }
}

pub open spec fn take_i16(b: Seq<u8>) -> Taken<i16> {
    if b.len() < 2 {
        Err(DecodeError::Truncated)
    } else {
        Ok((signed(u16_at(b, 0), 0x8000) as i16, b.skip(2)))
    }
}

pub open spec fn take_i32(b: Seq<u8>) -> Taken<i32> {
    if b.len() < 4 {
        Err(DecodeError::Truncated)
    } else {
        Ok((signed(u32_at(b, 0), 0x8000_0000) as i32, b.skip(4)))
    }
}

pub open spec fn take_i64(b: Seq<u8>) -> Taken<i64> {
    if b.len() < 8 {
        Err(DecodeError::Truncated)
    } else {
        Ok((signed(u64_at(b, 0), 0x8000_0000_0000_0000) as i64, b.skip(8)))
    }
}

/// An identifier: 16 bytes, as hyphenated text.
pub open spec fn take_uuid(b: Seq<u8>) -> Taken<Seq<char>> {
    if b.len() < 16 {
        Err(DecodeError::Truncated)
    } else {
        Ok((uuids::format_uuid(b.take(16)), b.skip(16)))
    }
}

/// An identifier that may be absent: 16 zero bytes stand for none.
pub open spec fn take_uuid_opt(b: Seq<u8>) -> Taken<Option<Seq<char>>> {
    if b.len() < 16 {
        Err(DecodeError::Truncated)
    } else if b.take(16) == uuids::nil() {
        Ok((None, b.skip(16)))
    } else {
        Ok((Some(uuids::format_uuid(b.take(16))), b.skip(16)))
    }
}

/// Counted bytes: a length of at most [`MAX_STRING`], then that many bytes.
pub open spec fn take_bytes(b: Seq<u8>) -> Taken<Seq<u8>> {
    match take_u16(b) {
        Err(e) => Err(e),
        Ok((n, rest)) => if n > MAX_STRING {
            Err(DecodeError::Invalid)
        } else if rest.len() < n {
            Err(DecodeError::Truncated)
        } else {
            Ok((rest.take(n as int), rest.skip(n as int)))
        },
    }
}

/// Counted UTF-8 text.
pub open spec fn take_str(b: Seq<u8>) -> Taken<Seq<char>> {
    match take_bytes(b) {
        Err(e) => Err(e),
        Ok((raw, rest)) => if valid_utf8(raw) {
            Ok((decode_utf8(raw), rest))
        } else {
            Err(DecodeError::Invalid)
        },
    }
}

/// The first [`MAX_STRING`] bytes of `b`.
pub open spec fn capped(b: Seq<u8>) -> Seq<u8> {
    if b.len() > MAX_STRING {
        b.take(MAX_STRING as int)
    } else {
        b
    }
}

/// Counted bytes, cut at [`MAX_STRING`].
pub open spec fn counted(b: Seq<u8>) -> Seq<u8> {
    le16(capped(b).len() as int) + capped(b)
}

/// Counted UTF-8 text, cut at [`MAX_STRING`] bytes.
pub open spec fn counted_text(s: Seq<char>) -> Seq<u8> {
    counted(encode_utf8(s))
}

/// A flag byte.
pub open spec fn bit(b: bool) -> u8 {
    if b {
        1
    } else {
        0
    }
}

// ---------------------------------------------------------------------------------------------
// A field read back is the field that was written.
// ---------------------------------------------------------------------------------------------

pub broadcast proof fn lemma_take_u8(v: u8, rest: Seq<u8>)
    ensures
        #[trigger] take_u8(seq![v] + rest) == Ok::<_, DecodeError>((v, rest)),
{
    assert((seq![v] + rest).skip(1) =~= rest);
}

/// A remainder by a product, digit by digit.
proof fn lemma_breakdown(v: int, m: int, n: int)
    requires
        m > 0,
        n > 0,
    ensures
        v % (m * n) == m * ((v / m) % n) + v % m,
{
    let a = v / m;
    let c = v % m;
    let d = a / n;
    let e = a % n;
    vstd::arithmetic::div_mod::lemma_fundamental_div_mod(v, m);
    vstd::arithmetic::div_mod::lemma_fundamental_div_mod(a, n);
    assert(v == (m * n) * d + (m * e + c)) by (nonlinear_arith)
        requires
            v == m * a + c,
            a == n * d + e,
    ;
    assert(0 <= m * e + c < m * n) by (nonlinear_arith)
        requires
            0 <= c < m,
            0 <= e < n,
    ;
    vstd::arithmetic::div_mod::lemma_fundamental_div_mod_converse(v, m * n, d, m * e + c);
}

/// Two bytes read back as the low 16 bits of the number.
pub proof fn lemma_u16_at(v: int, b: Seq<u8>, i: int)
    requires
        0 <= i <= b.len() - 2,
        b[i] == (v % 256) as u8,
        b[i + 1] == ((v / 256) % 256) as u8,
    ensures
        u16_at(b, i) == v % 0x1_0000,
{
    lemma_breakdown(v, 256, 256);
}

/// Four bytes read back as the low 32 bits of the number.
pub proof fn lemma_u32_at(v: int, b: Seq<u8>, i: int)
    requires
        0 <= i <= b.len() - 4,
        b.subrange(i, i + 4) == le32(v),
    ensures
        u32_at(b, i) == v % 0x1_0000_0000,
{
    let lo = v % 0x1_0000;
    let hi = (v / 0x1_0000) % 0x1_0000;
    let s = b.subrange(i, i + 4);
    reveal(le32);
    assert(s == le16(lo) + le16(hi));
    assert(b[i] == s[0] && b[i + 1] == s[1] && b[i + 2] == s[2] && b[i + 3] == s[3]);
    lemma_u16_at(lo, b, i);
    lemma_u16_at(hi, b, i + 2);
    lemma_breakdown(v, 0x1_0000, 0x1_0000);
}

/// The low 64 bits of a number, from both halves.
proof fn lemma_halves(v: int, lo: int, hi: int)
    requires
        lo == (v % 0x1_0000_0000) % 0x1_0000_0000,
        hi == ((v / 0x1_0000_0000) % 0x1_0000_0000) % 0x1_0000_0000,
    ensures
        lo + 0x1_0000_0000 * hi == v % 0x1_0000_0000_0000_0000,
{
    lemma_breakdown(v, 0x1_0000_0000, 0x1_0000_0000);
}

/// Bytes side by side, taken apart.
proof fn lemma_split8(b: Seq<u8>, i: int, x: Seq<u8>, y: Seq<u8>)
    requires
        0 <= i <= b.len() - 8,
        x.len() == 4,
        y.len() == 4,
        b.subrange(i, i + 8) == x + y,
    ensures
        b.subrange(i, i + 4) == x,
        b.subrange(i + 4, i + 8) == y,
{
    let s = b.subrange(i, i + 8);
    assert(b.subrange(i, i + 4) =~= s.subrange(0, 4));
    assert(s.subrange(0, 4) =~= x);
    assert(b.subrange(i + 4, i + 8) =~= s.subrange(4, 8));
    assert(s.subrange(4, 8) =~= y);
}

/// Eight bytes read back as the low 64 bits of the number.
pub proof fn lemma_u64_at(v: int, b: Seq<u8>, i: int)
    requires
        0 <= i <= b.len() - 8,
        b.subrange(i, i + 8) == le64(v),
    ensures
        u64_at(b, i) == v % 0x1_0000_0000_0000_0000,
{
    let lo = v % 0x1_0000_0000;
    let hi = (v / 0x1_0000_0000) % 0x1_0000_0000;
    reveal(le64);
    lemma_le32_len(lo);
    lemma_le32_len(hi);
    lemma_split8(b, i, le32(lo), le32(hi));
    lemma_u32_at(lo, b, i);
    lemma_u32_at(hi, b, i + 4);
    lemma_halves(v, u32_at(b, i), u32_at(b, i + 4));
}

pub proof fn lemma_le32_len(v: int)
    ensures
        le32(v).len() == 4,
{
    reveal(le32);
}

pub proof fn lemma_le64_len(v: int)
    ensures
        le64(v).len() == 8,
{
    reveal(le64);
    lemma_le32_len(v % 0x1_0000_0000);
    lemma_le32_len((v / 0x1_0000_0000) % 0x1_0000_0000);
}

/// What is in front of `rest`, and `rest` itself.
proof fn lemma_front(a: Seq<u8>, rest: Seq<u8>)
    ensures
        (a + rest).len() == a.len() + rest.len(),
        (a + rest).subrange(0, a.len() as int) == a,
        (a + rest).skip(a.len() as int) == rest,
{
    assert((a + rest).subrange(0, a.len() as int) =~= a);
    assert((a + rest).skip(a.len() as int) =~= rest);
}

pub broadcast proof fn lemma_take_u16(v: u16, rest: Seq<u8>)
    ensures
        #[trigger] take_u16(le16(v as int) + rest) == Ok::<_, DecodeError>((v, rest)),
{
    let a = le16(v as int);
    lemma_front(a, rest);
    lemma_u16_at(v as int, a + rest, 0);
}

pub broadcast proof fn lemma_take_u32(v: u32, rest: Seq<u8>)
    ensures
        #[trigger] take_u32(le32(v as int) + rest) == Ok::<_, DecodeError>((v, rest)),
{
    let a = le32(v as int);
    lemma_le32_len(v as int);
    lemma_front(a, rest);
    lemma_u32_at(v as int, a + rest, 0);
}

pub broadcast proof fn lemma_take_u64(v: u64, rest: Seq<u8>)
    ensures
        #[trigger] take_u64(le64(v as int) + rest) == Ok::<_, DecodeError>((v, rest)),
{
    let a = le64(v as int);
    lemma_le64_len(v as int);
    lemma_front(a, rest);
    lemma_u64_at(v as int, a + rest, 0);
}

pub broadcast proof fn lemma_take_i16(v: i16, rest: Seq<u8>)
    ensures
        #[trigger] take_i16(le16(v as int) + rest) == Ok::<_, DecodeError>((v, rest)),
{
    let a = le16(v as int);
    lemma_front(a, rest);
    lemma_u16_at(v as int, a + rest, 0);
}

pub broadcast proof fn lemma_take_i32(v: i32, rest: Seq<u8>)
    ensures
        #[trigger] take_i32(le32(v as int) + rest) == Ok::<_, DecodeError>((v, rest)),
{
    let a = le32(v as int);
    lemma_le32_len(v as int);
    lemma_front(a, rest);
    lemma_u32_at(v as int, a + rest, 0);
}

/// A number below zero comes back from its remainder.
proof fn lemma_signed(v: int, half: int)
    requires
        -half <= v < half,
    ensures
        signed(v % (2 * half), half) == v,
{
    if v < 0 {
        vstd::arithmetic::div_mod::lemma_fundamental_div_mod_converse(
            v,
            2 * half,
            -1,
            v + 2 * half,
        );
    } else {
        vstd::arithmetic::div_mod::lemma_small_mod(v as nat, (2 * half) as nat);
    }
}

/// What reading a signed field rests on.
proof fn lemma_read_i64(v: i64, b: Seq<u8>, rest: Seq<u8>)
    requires
        b.len() >= 8,
        b.skip(8) == rest,
        u64_at(b, 0) == (v as int) % 0x1_0000_0000_0000_0000,
    ensures
        take_i64(b) == Ok::<_, DecodeError>((v, rest)),
{
    lemma_signed(v as int, 0x8000_0000_0000_0000);
}

pub broadcast proof fn lemma_take_i64(v: i64, rest: Seq<u8>)
    ensures
        #[trigger] take_i64(le64(v as int) + rest) == Ok::<_, DecodeError>((v, rest)),
{
    let a = le64(v as int);
    lemma_le64_len(v as int);
    lemma_front(a, rest);
    lemma_u64_at(v as int, a + rest, 0);
    lemma_read_i64(v, a + rest, rest);
}

pub broadcast proof fn lemma_take_uuid(id: Seq<char>, rest: Seq<u8>)
    requires
        uuids::is_canonical(id),
    ensures
        #[trigger] take_uuid(uuids::uid_octets(id) + rest) == Ok::<_, DecodeError>((id, rest)),
{
    let b = choose|b: Seq<u8>| b.len() == 16 && id == #[trigger] uuids::format_uuid(b);
    uuids::law_uuid_text_round_trip(b);
    assert((b + rest).take(16) =~= b);
    assert((b + rest).skip(16) =~= rest);
}

pub broadcast proof fn lemma_take_bytes(v: Seq<u8>, rest: Seq<u8>)
    requires
        v.len() <= MAX_STRING,
    ensures
        #[trigger] take_bytes(counted(v) + rest) == Ok::<_, DecodeError>((v, rest)),
{
    lemma_take_u16(v.len() as u16, v + rest);
    assert(counted(v) + rest =~= le16(v.len() as int) + (v + rest));
    assert((v + rest).take(v.len() as int) =~= v);
    assert((v + rest).skip(v.len() as int) =~= rest);
}

pub broadcast proof fn lemma_take_str(s: Seq<char>, rest: Seq<u8>)
    requires
        encode_utf8(s).len() <= MAX_STRING,
    ensures
        #[trigger] take_str(counted_text(s) + rest) == Ok::<_, DecodeError>((s, rest)),
{
    lemma_take_bytes(encode_utf8(s), rest);
    encode_utf8_valid_utf8(s);
    encode_utf8_decode_utf8(s);
}

pub broadcast group group_take {
    lemma_take_u8,
    lemma_take_u16,
    lemma_take_u32,
    lemma_take_u64,
    lemma_take_i16,
    lemma_take_i32,
    lemma_take_i64,
    lemma_take_uuid,
    lemma_take_bytes,
    lemma_take_str,
}

/// Appending is associative.
pub proof fn lemma_append(w: Seq<u8>, a: Seq<u8>, b: Seq<u8>)
    ensures
        (w + a) + b == w + (a + b),
{
    assert((w + a) + b =~= w + (a + b));
}

/// Three fields appended one by one.
pub proof fn lemma_append3(w: Seq<u8>, a: Seq<u8>, b: Seq<u8>, c: Seq<u8>)
    ensures
        ((w + a) + b) + c == w + (a + (b + c)),
{
    lemma_append(w + a, b, c);
    lemma_append(w, a, b + c);
}

/// Four fields appended one by one.
pub proof fn lemma_append4(w: Seq<u8>, a: Seq<u8>, b: Seq<u8>, c: Seq<u8>, d: Seq<u8>)
    ensures
        (((w + a) + b) + c) + d == w + (a + (b + (c + d))),
{
    lemma_append3(w + a, b, c, d);
    lemma_append(w, a, b + (c + d));
}

/// Five fields appended one by one.
pub proof fn lemma_append5(
    w: Seq<u8>,
    a: Seq<u8>,
    b: Seq<u8>,
    c: Seq<u8>,
    d: Seq<u8>,
    e: Seq<u8>,
)
    ensures
        ((((w + a) + b) + c) + d) + e == w + (a + (b + (c + (d + e)))),
{
    lemma_append4(w + a, b, c, d, e);
    lemma_append(w, a, b + (c + (d + e)));
}

/// Appending to nothing.
pub proof fn lemma_append_to_empty(a: Seq<u8>)
    ensures
        Seq::<u8>::empty() + a == a,
{
    assert(Seq::<u8>::empty() + a =~= a);
}

/// Only the low 32 bits of a number show in four bytes.
pub proof fn lemma_le32_mod(v: int)
    ensures
        le32(v) == le32(v % 0x1_0000_0000),
{
    reveal(le32);
    let q = v / 0x1_0000_0000;
    let y = v % 0x1_0000_0000;
    let a = y / 0x1_0000;
    let c = y % 0x1_0000;
    vstd::arithmetic::div_mod::lemma_fundamental_div_mod_converse(
        v,
        0x1_0000,
        0x1_0000 * q + a,
        c,
    );
    vstd::arithmetic::div_mod::lemma_fundamental_div_mod_converse(v / 0x1_0000, 0x1_0000, q, a);
}

// ---------------------------------------------------------------------------------------------
// Writers: each appends one field.
// ---------------------------------------------------------------------------------------------

pub fn put_u8(w: &mut Vec<u8>, v: u8)
    ensures
        final(w)@ == old(w)@ + seq![v],
{
    w.push(v);
    assert(w@ =~= old(w)@ + seq![v]);
}

pub fn put_u16(w: &mut Vec<u8>, v: u16)
    ensures
        final(w)@ == old(w)@ + le16(v as int),
{
    w.push((v % 256) as u8);
    w.push((v / 256) as u8);
    assert(w@ =~= old(w)@ + le16(v as int));
}

pub fn put_u32(w: &mut Vec<u8>, v: u32)
    ensures
        final(w)@ == old(w)@ + le32(v as int),
{
    put_u16(w, (v % 0x1_0000) as u16);
    put_u16(w, (v / 0x1_0000) as u16);
    reveal(le32);
    assert(w@ =~= old(w)@ + le32(v as int));
}

pub fn put_u64(w: &mut Vec<u8>, v: u64)
    ensures
        final(w)@ == old(w)@ + le64(v as int),
{
    put_u32(w, (v % 0x1_0000_0000) as u32);
    put_u32(w, (v / 0x1_0000_0000) as u32);
    proof {
        let x = v as int;
        reveal(le64);
        assert((x / 0x1_0000_0000) % 0x1_0000_0000 == x / 0x1_0000_0000);
        lemma_append(old(w)@, le32(x % 0x1_0000_0000), le32(x / 0x1_0000_0000));
    }
}

pub fn put_i16(w: &mut Vec<u8>, v: i16)
    ensures
        final(w)@ == old(w)@ + le16(v as int),
{
    if v >= 0 {
        put_u16(w, v as u16);
    } else {
        put_u16(w, (v as i32 + 0x1_0000) as u16);
    }
    assert(w@ =~= old(w)@ + le16(v as int));
}

pub fn put_i32(w: &mut Vec<u8>, v: i32)
    ensures
        final(w)@ == old(w)@ + le32(v as int),
{
    if v >= 0 {
        put_u32(w, v as u32);
    } else {
        put_u32(w, (v as i64 + 0x1_0000_0000) as u32);
        proof {
            lemma_le32_mod(v as int);
            assert(v as int % 0x1_0000_0000 == v as int + 0x1_0000_0000);
        }
    }
}

pub fn put_i64(w: &mut Vec<u8>, v: i64)
    ensures
        final(w)@ == old(w)@ + le64(v as int),
{
    if v >= 0 {
        put_u64(w, v as u64);
    } else {
        put_u64(w, (v as i128 + 0x1_0000_0000_0000_0000) as u64);
        proof {
            let x = v as int;
            let y = x + 0x1_0000_0000_0000_0000;
            reveal(le64);
            assert(y % 0x1_0000_0000 == x % 0x1_0000_0000);
            assert((y / 0x1_0000_0000) % 0x1_0000_0000 == (x / 0x1_0000_0000) % 0x1_0000_0000);
        }
    }
}

/// The low 32 bits of a sequence number.
pub fn put_seq(w: &mut Vec<u8>, v: u64)
    ensures
        final(w)@ == old(w)@ + le32(v as int),
{
    put_u32(w, (v % 0x1_0000_0000) as u32);
    proof {
        lemma_le32_mod(v as int);
    }
}

pub fn put_uuid(w: &mut Vec<u8>, s: &str)
    ensures
        final(w)@ == old(w)@ + uuids::uid_octets(s@),
{
    let b = uuids::uid_bytes(s);
    w.extend_from_slice(b.as_slice());
    assert(w@ =~= old(w)@ + uuids::uid_octets(s@));
}

pub fn put_bytes(w: &mut Vec<u8>, b: &[u8])
    ensures
        final(w)@ == old(w)@ + counted(b@),
{
    let n: usize = if b.len() > MAX_STRING {
        MAX_STRING
    } else {
        b.len()
    };
    put_u16(w, n as u16);
    let head = slice_subrange(b, 0, n);
    assert(head@ =~= capped(b@));
    w.extend_from_slice(head);
    assert(w@ =~= old(w)@ + counted(b@));
}

pub fn put_str(w: &mut Vec<u8>, s: &str)
    ensures
        final(w)@ == old(w)@ + counted_text(s@),
{
    put_bytes(w, s.as_bytes());
}

// ---------------------------------------------------------------------------------------------
// Reader.
// ---------------------------------------------------------------------------------------------

/// Reads fields off the front of a frame. Its view is what is left of the frame.
pub struct Reader<'a> {
    data: &'a [u8],
    pos: usize,
}

impl<'a> View for Reader<'a> {
    type V = Seq<u8>;

    closed spec fn view(&self) -> Seq<u8> {
        self.data@.skip(self.pos as int)
    }
}

/// What a read hands back and leaves behind, given what the field reader says.
pub open spec fn reads<T>(taken: Taken<T>, r: Result<T, DecodeError>, left: Seq<u8>) -> bool {
    match taken {
        Ok((v, rest)) => r == Ok::<T, DecodeError>(v) && left == rest,
        Err(e) => r == Err::<T, DecodeError>(e),
    }
}

/// As [`reads`], for owned text or bytes.
pub open spec fn reads_view<T: View>(taken: Taken<T::V>, r: Result<T, DecodeError>, left: Seq<u8>) -> bool {
    match taken {
        Ok((v, rest)) => r is Ok && r->Ok_0@ == v && left == rest,
        Err(e) => r == Err::<T, DecodeError>(e),
    }
}

impl<'a> Reader<'a> {
    pub closed spec fn wf(&self) -> bool {
        self.pos <= self.data@.len()
    }

    pub fn new(data: &'a [u8]) -> (r: Self)
        ensures
            r.wf(),
            r@ == data@,
    {
        let r = Reader { data, pos: 0 };
        assert(r@ =~= data@);
        r
    }

    /// The next `n` bytes.
    fn need(&mut self, n: usize) -> (r: Result<&'a [u8], DecodeError>)
        requires
            old(self).wf(),
        ensures
            final(self).wf(),
            old(self)@.len() < n ==> r == Err::<&'a [u8], DecodeError>(DecodeError::Truncated),
            old(self)@.len() >= n ==> r is Ok && r->Ok_0@ == old(self)@.take(n as int)
                && final(self)@ == old(self)@.skip(n as int),
    {
        if self.data.len() - self.pos < n {
            return Err(DecodeError::Truncated);
        }
        let start: usize = self.pos;
        self.pos = start + n;
        let head = slice_subrange(self.data, start, start + n);
        assert(head@ =~= old(self)@.take(n as int));
        assert(self@ =~= old(self)@.skip(n as int));
        Ok(head)
    }

    pub fn read_u8(&mut self) -> (r: Result<u8, DecodeError>)
        requires
            old(self).wf(),
        ensures
            final(self).wf(),
            reads(take_u8(old(self)@), r, final(self)@),
    {
        let b = self.need(1)?;
        Ok(b[0])
    }

    pub fn read_u16(&mut self) -> (r: Result<u16, DecodeError>)
        requires
            old(self).wf(),
        ensures
            final(self).wf(),
            reads(take_u16(old(self)@), r, final(self)@),
    {
        let b = self.need(2)?;
        Ok(b[0] as u16 + 256 * b[1] as u16)
    }

    pub fn read_u32(&mut self) -> (r: Result<u32, DecodeError>)
        requires
            old(self).wf(),
        ensures
            final(self).wf(),
            reads(take_u32(old(self)@), r, final(self)@),
    {
        let b = self.need(4)?;
        Ok(
            b[0] as u32 + 256 * b[1] as u32 + 0x1_0000 * (b[2] as u32 + 256 * b[3] as u32),
        )
    }

    pub fn read_u64(&mut self) -> (r: Result<u64, DecodeError>)
        requires
            old(self).wf(),
        ensures
            final(self).wf(),
            reads(take_u64(old(self)@), r, final(self)@),
    {
        let b = self.need(8)?;
        let lo: u64 = b[0] as u64 + 256 * b[1] as u64 + 0x1_0000 * (b[2] as u64 + 256
            * b[3] as u64);
        let hi: u64 = b[4] as u64 + 256 * b[5] as u64 + 0x1_0000 * (b[6] as u64 + 256
            * b[7] as u64);
        Ok(lo + 0x1_0000_0000 * hi)
    }

    pub fn read_i16(&mut self) -> (r: Result<i16, DecodeError>)
        requires
            old(self).wf(),
        ensures
            final(self).wf(),
            reads(take_i16(old(self)@), r, final(self)@),
    {
        let v: u16 = self.read_u16()?;
        if v >= 0x8000 {
            Ok((v as i32 - 0x1_0000) as i16)
        } else {
            Ok(v as i16)
        }
    }

    pub fn read_i32(&mut self) -> (r: Result<i32, DecodeError>)
        requires
            old(self).wf(),
        ensures
            final(self).wf(),
            reads(take_i32(old(self)@), r, final(self)@),
    {
        let v: u32 = self.read_u32()?;
        if v >= 0x8000_0000 {
            Ok((v as i64 - 0x1_0000_0000) as i32)
        } else {
            Ok(v as i32)
        }
    }

    pub fn read_i64(&mut self) -> (r: Result<i64, DecodeError>)
        requires
            old(self).wf(),
        ensures
            final(self).wf(),
            reads(take_i64(old(self)@), r, final(self)@),
    {
        let v: u64 = self.read_u64()?;
        if v >= 0x8000_0000_0000_0000 {
            Ok((v as i128 - 0x1_0000_0000_0000_0000) as i64)
        } else {
            Ok(v as i64)
        }
    }

    pub fn read_uuid(&mut self) -> (r: Result<String, DecodeError>)
        requires
            old(self).wf(),
        ensures
            final(self).wf(),
            reads_view(take_uuid(old(self)@), r, final(self)@),
    {
        let b = self.need(16)?;
        Ok(uuids::uid_text(b))
    }

    pub fn read_uuid_opt(&mut self) -> (r: Result<Option<String>, DecodeError>)
        requires
            old(self).wf(),
        ensures
            final(self).wf(),
            match take_uuid_opt(old(self)@) {
                Ok((Some(id), rest)) => r is Ok && r->Ok_0 is Some && r->Ok_0->0@ == id
                    && final(self)@ == rest,
                Ok((None, rest)) => r is Ok && r->Ok_0 is None && final(self)@ == rest,
                Err(e) => r == Err::<Option<String>, DecodeError>(e),
            },
    {
        let b = self.need(16)?;
        let mut i: usize = 0;
        while i < 16
            invariant
                i <= 16,
                b@.len() == 16,
                forall|j: int| 0 <= j < i ==> b@[j] == 0,
            ensures
                i <= 16,
                b@.len() == 16,
                forall|j: int| 0 <= j < i ==> b@[j] == 0,
                i < 16 ==> b@[i as int] != 0,
            decreases 16 - i,
        {
            if b[i] != 0 {
                break;
            }
            i += 1;
        }
        if i == 16 {
            assert(b@ =~= uuids::nil());
            Ok(None)
        } else {
            assert(b@[i as int] != uuids::nil()[i as int]);
            Ok(Some(uuids::uid_text(b)))
        }
    }

    pub fn read_bytes(&mut self) -> (r: Result<Vec<u8>, DecodeError>)
        requires
            old(self).wf(),
        ensures
            final(self).wf(),
            reads_view(take_bytes(old(self)@), r, final(self)@),
    {
        let n: u16 = self.read_u16()?;
        if n as usize > MAX_STRING {
            return Err(DecodeError::Invalid);
        }
        let b = self.need(n as usize)?;
        Ok(slice_to_vec(b))
    }

    pub fn read_str(&mut self) -> (r: Result<String, DecodeError>)
        requires
            old(self).wf(),
        ensures
            final(self).wf(),
            reads_view(take_str(old(self)@), r, final(self)@),
    {
        let b = self.read_bytes()?;
        match utf8_text(b) {
            Some(s) => Ok(s),
            None => Err(DecodeError::Invalid),
        }
    }
}

/// `String::from_utf8`: the text that the bytes encode, if they are UTF-8.
#[verifier::external_body]
fn utf8_text(b: Vec<u8>) -> (r: Option<String>)
    ensures
        r is Some <==> valid_utf8(b@),
        r is Some ==> r->0@ == decode_utf8(b@),
{
    match String::from_utf8(b) {
        Ok(s) => Some(s),
        Err(_) => None,
    }
}

} // verus!
