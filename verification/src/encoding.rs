//! Encodings of the HTTP side: path segments, query strings, header values, Base64.

use base64::Engine;
use vstd::prelude::*;
use vstd::utf8::*;

verus! {

/// An upper-case hexadecimal digit.
pub open spec fn upper_hex(v: int) -> char {
    if v < 10 {
        (v + '0' as int) as char
    } else {
        (v - 10 + 'A' as int) as char
    }
}

/// A byte as `%` and two upper-case hexadecimal digits.
pub open spec fn percent(b: u8) -> Seq<char> {
    seq!['%', upper_hex(b as int / 16), upper_hex(b as int % 16)]
}

pub open spec fn is_alphanumeric(b: u8) -> bool {
    ||| 0x30 <= b <= 0x39
    ||| 0x41 <= b <= 0x5A
    ||| 0x61 <= b <= 0x7A
}

/// A byte in a path segment: letters, digits and `-._~` stay, the rest is percent-encoded.
pub open spec fn segment_byte(b: u8) -> Seq<char> {
    if is_alphanumeric(b) || b == 0x2D || b == 0x2E || b == 0x5F || b == 0x7E {
        seq![b as char]
    } else {
        percent(b)
    }
}

/// Bytes in a path segment.
pub open spec fn segment(b: Seq<u8>) -> Seq<char>
    decreases b.len(),
{
    if b.len() == 0 {
        Seq::empty()
    } else {
        segment(b.drop_last()) + segment_byte(b.last())
    }
}

/// Text in a path segment.
pub open spec fn segment_text(s: Seq<char>) -> Seq<char> {
    segment(encode_utf8(s))
}

/// `urlencoding::encode`: every byte but letters, digits and `-._~` percent-encoded.
#[verifier::external_body]
pub(crate) fn encode_segment(s: &str) -> (r: String)
    ensures
        r@ == segment_text(s@),
{
    urlencoding::encode(s).into_owned()
}

/// A byte in a form: letters, digits and `*-._` stay, a space becomes `+`, the rest is
/// percent-encoded.
pub open spec fn form_byte(b: u8) -> Seq<char> {
    if is_alphanumeric(b) || b == 0x2A || b == 0x2D || b == 0x2E || b == 0x5F {
        seq![b as char]
    } else if b == 0x20 {
        seq!['+']
    } else {
        percent(b)
    }
}

/// Bytes in a form.
pub open spec fn form(b: Seq<u8>) -> Seq<char>
    decreases b.len(),
{
    if b.len() == 0 {
        Seq::empty()
    } else {
        form(b.drop_last()) + form_byte(b.last())
    }
}

/// A form with one more pair at its end.
pub open spec fn form_with(q: Seq<char>, name: Seq<char>, value: Seq<char>) -> Seq<char> {
    let pair = form(encode_utf8(name)) + seq!['='] + form(encode_utf8(value));
    if q.len() == 0 {
        pair
    } else {
        q + seq!['&'] + pair
    }
}

/// `url::form_urlencoded::Serializer::append_pair`: `name=value`, both encoded, behind what is
/// there, with `&` between.
#[verifier::external_body]
pub(crate) fn form_append(q: String, name: &str, value: &str) -> (r: String)
    ensures
        r@ == form_with(q@, name@, value@),
{
    let mut s = url::form_urlencoded::Serializer::new(q);
    s.append_pair(name, value);
    s.finish()
}

/// Whether a text can stand in a header: no control characters but the tab.
pub open spec fn header_safe(s: Seq<char>) -> bool {
    forall|i: int|
        0 <= i < s.len() ==> {
            let u = #[trigger] s[i] as u32;
            (u >= 32 && u != 127) || u == 9
        }
}

/// `http::HeaderValue::from_str`: it takes a text whose bytes are 9, or 32 and above but not 127.
#[verifier::external_body]
pub(crate) fn is_header_safe(s: &str) -> (r: bool)
    ensures
        r == header_safe(s@),
{
    http::HeaderValue::from_str(s).is_ok()
}

/// What `http::StatusCode::canonical_reason` says of a status; nothing also for numbers that are
/// no status.
pub uninterp spec fn reason(status: u16) -> Option<Seq<char>>;

/// `http::StatusCode::canonical_reason`.
#[verifier::external_body]
pub(crate) fn status_reason(status: u16) -> (r: Option<&'static str>)
    ensures
        match reason(status) {
            Some(s) => r is Some && r->0@ == s,
            None => r is None,
        },
{
    match http::StatusCode::from_u16(status) {
        Ok(s) => s.canonical_reason(),
        Err(_) => None,
    }
}

/// A digit of the standard Base64 alphabet.
pub open spec fn base64_digit(v: int) -> char {
    if v < 26 {
        (v + 'A' as int) as char
    } else if v < 52 {
        (v - 26 + 'a' as int) as char
    } else if v < 62 {
        (v - 52 + '0' as int) as char
    } else if v == 62 {
        '+'
    } else {
        '/'
    }
}

/// Bytes in standard Base64 with padding.
pub open spec fn base64_text(b: Seq<u8>) -> Seq<char>
    decreases b.len(),
{
    if b.len() == 0 {
        Seq::empty()
    } else {
        let x = b[0] as int;
        if b.len() == 1 {
            seq![base64_digit(x / 4), base64_digit(x % 4 * 16), '=', '=']
        } else {
            let y = b[1] as int;
            let head = seq![base64_digit(x / 4), base64_digit(x % 4 * 16 + y / 16)];
            if b.len() == 2 {
                head + seq![base64_digit(y % 16 * 4), '=']
            } else {
                let z = b[2] as int;
                head + seq![base64_digit(y % 16 * 4 + z / 64), base64_digit(z % 64)] + base64_text(
                    b.skip(3),
                )
            }
        }
    }
}

/// `base64::engine::general_purpose::STANDARD.encode`.
#[verifier::external_body]
pub(crate) fn encode_base64(b: &[u8]) -> (r: String)
    requires
        b@.len() <= usize::MAX / 4,
    ensures
        r@ == base64_text(b@),
{
    base64::engine::general_purpose::STANDARD.encode(b)
}

} // verus!
