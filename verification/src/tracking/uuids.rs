//! Track, device and command identifiers: UUID text on this side, 16 bytes on the wire.

use vstd::prelude::*;

verus! {

/// The value of a hexadecimal digit of either case, -1 for any other character.
pub open spec fn hex_value(c: char) -> int {
    if '0' <= c && c <= '9' {
        c as int - '0' as int
    } else if 'a' <= c && c <= 'f' {
        c as int - 'a' as int + 10
    } else if 'A' <= c && c <= 'F' {
        c as int - 'A' as int + 10
    } else {
        -1
    }
}

/// The bytes written as 32 hexadecimal digits.
pub open spec fn digits_bytes(s: Seq<char>) -> Option<Seq<u8>> {
    if s.len() == 32 && (forall|i: int| 0 <= i < 32 ==> 0 <= #[trigger] hex_value(s[i])) {
        Some(Seq::new(16, |i: int| (16 * hex_value(s[2 * i]) + hex_value(s[2 * i + 1])) as u8))
    } else {
        None
    }
}

/// The bytes written as five groups of digits with hyphens between.
pub open spec fn hyphenated_bytes(s: Seq<char>) -> Option<Seq<u8>> {
    if s.len() == 36 && s[8] == '-' && s[13] == '-' && s[18] == '-' && s[23] == '-' {
        digits_bytes(
            s.subrange(0, 8) + s.subrange(9, 13) + s.subrange(14, 18) + s.subrange(19, 23)
                + s.subrange(24, 36),
        )
    } else {
        None
    }
}

/// An ASCII letter in lower case, any other character as it is.
pub open spec fn lower(c: char) -> char {
    if 'A' <= c && c <= 'Z' {
        (c as int + 32) as char
    } else {
        c
    }
}

/// Whether `s` is `urn:uuid:` in letters of any case.
pub open spec fn is_urn_prefix(s: Seq<char>) -> bool {
    s.map_values(|c: char| lower(c)) == "urn:uuid:"@
}

/// The bytes of a UUID text: bare digits, hyphenated, in braces, or as a URN.
pub open spec fn parse_uuid(s: Seq<char>) -> Option<Seq<u8>> {
    if s.len() == 32 {
        digits_bytes(s)
    } else if s.len() == 36 {
        hyphenated_bytes(s)
    } else if s.len() == 38 && s[0] == '{' && s[37] == '}' {
        hyphenated_bytes(s.subrange(1, 37))
    } else if s.len() == 45 && is_urn_prefix(s.take(9)) {
        hyphenated_bytes(s.skip(9))
    } else {
        None
    }
}

/// A lower-case hexadecimal digit.
pub open spec fn hex_digit(v: int) -> char {
    if v < 10 {
        (v + '0' as int) as char
    } else {
        (v - 10 + 'a' as int) as char
    }
}

/// Two lower-case hexadecimal digits for each byte.
pub open spec fn hex_text(b: Seq<u8>) -> Seq<char> {
    Seq::new(
        2 * b.len(),
        |i: int|
            if i % 2 == 0 {
                hex_digit(b[i / 2] as int / 16)
            } else {
                hex_digit(b[i / 2] as int % 16)
            },
    )
}

/// The hyphenated lower-case text of 16 bytes.
pub open spec fn format_uuid(b: Seq<u8>) -> Seq<char> {
    let h = hex_text(b);
    h.subrange(0, 8) + seq!['-'] + h.subrange(8, 12) + seq!['-'] + h.subrange(12, 16) + seq!['-']
        + h.subrange(16, 20) + seq!['-'] + h.subrange(20, 32)
}

/// 16 zero bytes: the absent identifier.
pub open spec fn nil() -> Seq<u8> {
    Seq::new(16, |i: int| 0u8)
}

/// The bytes that stand for an identifier on the wire: nil where it is no UUID.
pub open spec fn uid_octets(s: Seq<char>) -> Seq<u8> {
    match parse_uuid(s) {
        Some(b) => b,
        None => nil(),
    }
}

/// Whether `s` is a UUID in the hyphenated lower-case form.
pub open spec fn is_canonical(s: Seq<char>) -> bool {
    exists|b: Seq<u8>| b.len() == 16 && s == #[trigger] format_uuid(b)
}

/// Formatting and parsing undo each other.
pub proof fn law_uuid_text_round_trip(b: Seq<u8>)
    requires
        b.len() == 16,
    ensures
        format_uuid(b).len() == 36,
        parse_uuid(format_uuid(b)) == Some(b),
        uid_octets(format_uuid(b)) == b,
{
    let h = hex_text(b);
    let s = format_uuid(b);
    assert(s.len() == 36);
    let d = s.subrange(0, 8) + s.subrange(9, 13) + s.subrange(14, 18) + s.subrange(19, 23)
        + s.subrange(24, 36);
    assert(d =~= h);
    assert forall|i: int| 0 <= i < 32 implies 0 <= #[trigger] hex_value(h[i]) by {}
    assert forall|i: int| 0 <= i < 16 implies b[i] == (16 * hex_value(h[2 * i]) + hex_value(
        h[2 * i + 1],
    )) as u8 by {
        assert((2 * i) / 2 == i && (2 * i) % 2 == 0);
        assert((2 * i + 1) / 2 == i && (2 * i + 1) % 2 == 1);
        assert(hex_value(h[2 * i]) == b[i] as int / 16);
        assert(hex_value(h[2 * i + 1]) == b[i] as int % 16);
    }
    assert(digits_bytes(d)->0 =~= b);
}

/// An identifier on the wire is always 16 bytes.
pub proof fn lemma_uid_octets_len(s: Seq<char>)
    ensures
        uid_octets(s).len() == 16,
{
}

/// `uuid::Uuid::parse_str`: the 16 bytes of a UUID text in any of the four accepted forms.
#[verifier::external_body]
fn parse_text(s: &str) -> (r: Option<Vec<u8>>)
    ensures
        match parse_uuid(s@) {
            Some(b) => r is Some && r->0@ == b,
            None => r is None,
        },
{
    match uuid::Uuid::parse_str(s) {
        Ok(u) => Some(u.as_bytes().to_vec()),
        Err(_) => None,
    }
}

/// `uuid::Uuid`'s `Display`: the hyphenated lower-case text of 16 bytes.
#[verifier::external_body]
fn format_text(b: [u8; 16]) -> (r: String)
    ensures
        r@ == format_uuid(b@),
{
    uuid::Uuid::from_bytes(b).to_string()
}

/// The 16 bytes that go on the wire for an identifier.
pub fn uid_bytes(s: &str) -> (r: Vec<u8>)
    ensures
        r@ == uid_octets(s@),
{
    match parse_text(s) {
        Some(b) => b,
        None => {
            let z: Vec<u8> = vec![0, 0, 0, 0, 0, 0, 0, 0, 0, 0, 0, 0, 0, 0, 0, 0];
            assert(z@ =~= nil());
            z
        },
    }
}

/// The text of an identifier read off the wire.
pub fn uid_text(b: &[u8]) -> (r: String)
    requires
        b@.len() == 16,
    ensures
        r@ == format_uuid(b@),
{
    let a: [u8; 16] = [
        b[0], b[1], b[2], b[3], b[4], b[5], b[6], b[7], b[8], b[9], b[10], b[11], b[12], b[13],
        b[14], b[15],
    ];
    assert(a@ =~= b@);
    format_text(a)
}

proof fn lemma_hyphenated(b: Seq<u8>)
    requires
        b.len() == 16,
    ensures
        hyphenated_bytes(format_uuid(b)) == Some(b),
        format_uuid(b).len() == 36,
{
    law_uuid_text_round_trip(b);
}

/// An identifier is read in any of its forms: hyphenated, as 32 digits, in braces, or as a URN.
pub proof fn law_identifiers_are_read_in_every_form(b: Seq<u8>)
    requires
        b.len() == 16,
    ensures
        parse_uuid(format_uuid(b)) == Some(b),
        parse_uuid(hex_text(b)) == Some(b),
        parse_uuid(seq!['{'] + format_uuid(b) + seq!['}']) == Some(b),
        parse_uuid("urn:uuid:"@ + format_uuid(b)) == Some(b),
{
    let s = format_uuid(b);
    let h = hex_text(b);
    lemma_hyphenated(b);
    law_uuid_text_round_trip(b);
    let d = s.subrange(0, 8) + s.subrange(9, 13) + s.subrange(14, 18) + s.subrange(19, 23)
        + s.subrange(24, 36);
    assert(d =~= h);
    let braces = seq!['{'] + s + seq!['}'];
    assert(braces.subrange(1, 37) =~= s);
    reveal_strlit("urn:uuid:");
    let urn = "urn:uuid:"@ + s;
    assert(urn.take(9) =~= "urn:uuid:"@);
    assert(urn.skip(9) =~= s);
    assert("urn:uuid:"@.map_values(|c: char| lower(c)) =~= "urn:uuid:"@);
}

/// Upper and lower case digits mean the same.
pub proof fn law_identifiers_are_read_in_either_case(s: Seq<char>)
    requires
        s.len() == 32 || s.len() == 36,
    ensures
        parse_uuid(s.map_values(|c: char| lower(c))) == parse_uuid(s),
{
    let t = s.map_values(|c: char| lower(c));
    assert forall|c: char| #[trigger] hex_value(lower(c)) == hex_value(c) by {}
    if s.len() == 32 {
        lemma_same_digits(s, t);
    } else {
        let a = s.subrange(0, 8) + s.subrange(9, 13) + s.subrange(14, 18) + s.subrange(19, 23)
            + s.subrange(24, 36);
        let b = t.subrange(0, 8) + t.subrange(9, 13) + t.subrange(14, 18) + t.subrange(19, 23)
            + t.subrange(24, 36);
        assert forall|i: int| 0 <= i < a.len() implies #[trigger] hex_value(a[i]) == hex_value(
            b[i],
        ) by {
            assert(b[i] == lower(a[i]));
        }
        lemma_same_digits(a, b);
        assert(lower('-') == '-');
    }
}

proof fn lemma_same_digits(a: Seq<char>, b: Seq<char>)
    requires
        a.len() == b.len(),
        forall|i: int| 0 <= i < a.len() ==> #[trigger] hex_value(a[i]) == hex_value(b[i]),
    ensures
        digits_bytes(a) == digits_bytes(b),
{
    if a.len() == 32 {
        assert forall|i: int| 0 <= i < 32 implies hex_value(a[i]) == #[trigger] hex_value(b[i]) by {
            assert(hex_value(a[i]) == hex_value(b[i]));
        }
        if digits_bytes(a) is Some {
            assert(digits_bytes(b) is Some) by {
                assert forall|i: int| 0 <= i < 32 implies 0 <= #[trigger] hex_value(b[i]) by {
                    assert(hex_value(a[i]) >= 0);
                }
            }
            assert(digits_bytes(a)->0 =~= digits_bytes(b)->0) by {
                assert forall|i: int| 0 <= i < 16 implies digits_bytes(a)->0[i]
                    == digits_bytes(b)->0[i] by {
                    assert(hex_value(a[2 * i]) == hex_value(b[2 * i]));
                    assert(hex_value(a[2 * i + 1]) == hex_value(b[2 * i + 1]));
                }
            }
        } else if digits_bytes(b) is Some {
            assert forall|i: int| 0 <= i < 32 implies 0 <= #[trigger] hex_value(a[i]) by {
                assert(hex_value(b[i]) >= 0);
            }
        }
    }
}

/// What holds anything but digits where digits belong is no identifier.
pub proof fn law_other_texts_are_no_identifiers(s: Seq<char>, i: int)
    requires
        s.len() == 32,
        0 <= i < 32,
        !('0' <= s[i] && s[i] <= '9') && !('a' <= s[i] && s[i] <= 'f') && !('A' <= s[i] && s[i]
            <= 'F'),
    ensures
        parse_uuid(s) is None,
{
    assert(hex_value(s[i]) == -1);
}

} // verus!
