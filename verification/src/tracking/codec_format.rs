//! What stands where in a `tracking.v2` frame.

use crate::tracking::cmd::{ClientCmdView, ServerEvtView};
use crate::tracking::codec;
use crate::tracking::points;
use crate::tracking::types::{CommandAckStatus, ErrorCode, LatLng};
use crate::tracking::uuids;
use crate::tracking::wire;
use crate::tracking::wire::DecodeError;
use vstd::prelude::*;
use vstd::utf8::*;

verus! {

/// The number in two bytes at `i`, least significant first.
pub open spec fn at16(b: Seq<u8>, i: int) -> int {
    b[i] + 0x100 * b[i + 1]
}

/// The number in four bytes at `i`, least significant first.
pub open spec fn at32(b: Seq<u8>, i: int) -> int {
    b[i] + 0x100 * b[i + 1] + 0x1_0000 * b[i + 2] + 0x100_0000 * b[i + 3]
}

/// The number in eight bytes at `i`, least significant first.
pub open spec fn at64(b: Seq<u8>, i: int) -> int {
    at32(b, i) + 0x1_0000_0000 * at32(b, i + 4)
}

// ---------------------------------------------------------------------------------------------
// Fields.
// ---------------------------------------------------------------------------------------------

/// Numbers stand least significant byte first, in two's complement, cut to their field.
pub proof fn law_numbers_are_little_endian(v: int)
    ensures
        wire::le16(v).len() == 2,
        at16(wire::le16(v), 0) == v % 0x1_0000,
        wire::le32(v).len() == 4,
        at32(wire::le32(v), 0) == v % 0x1_0000_0000,
        wire::le64(v).len() == 8,
        at64(wire::le64(v), 0) == v % 0x1_0000_0000_0000_0000,
{
    wire::lemma_le32_len(v);
    wire::lemma_le64_len(v);
    wire::lemma_u16_at(v, wire::le16(v), 0);
    assert(wire::le32(v).subrange(0, 4) =~= wire::le32(v));
    wire::lemma_u32_at(v, wire::le32(v), 0);
    assert(wire::le64(v).subrange(0, 8) =~= wire::le64(v));
    wire::lemma_u64_at(v, wire::le64(v), 0);
}

/// Reading a number reads the same bytes in the same way and leaves what is behind them; too few
/// bytes are a truncated frame.
pub proof fn law_numbers_are_read_little_endian(b: Seq<u8>)
    ensures
        b.len() < 2 ==> wire::take_u16(b) == Err::<(u16, Seq<u8>), _>(DecodeError::Truncated),
        b.len() >= 2 ==> (wire::take_u16(b) matches Ok((v, rest)) && v == at16(b, 0) && rest
            == b.skip(2)),
        b.len() < 4 ==> wire::take_u32(b) == Err::<(u32, Seq<u8>), _>(DecodeError::Truncated),
        b.len() >= 4 ==> (wire::take_u32(b) matches Ok((v, rest)) && v == at32(b, 0) && rest
            == b.skip(4)),
        b.len() < 8 ==> wire::take_u64(b) == Err::<(u64, Seq<u8>), _>(DecodeError::Truncated),
        b.len() >= 8 ==> (wire::take_u64(b) matches Ok((v, rest)) && v == at64(b, 0) && rest
            == b.skip(8)),
{
}

/// Text and payloads stand behind their length in bytes, which is 4096 at most: what is longer is
/// cut when written and refused when read.
pub proof fn law_texts_are_counted(v: Seq<u8>, rest: Seq<u8>)
    ensures
        ({
            let f = wire::counted(v);
            let n = if v.len() > 4096 {
                4096
            } else {
                v.len() as int
            };
            &&& f.len() == 2 + n
            &&& at16(f, 0) == n
            &&& f.skip(2) == v.take(n)
        }),
        rest.len() >= 2 && at16(rest, 0) > 4096 ==> wire::take_bytes(rest) == Err::<
            (Seq<u8>, Seq<u8>),
            _,
        >(DecodeError::Invalid),
        rest.len() >= 2 && at16(rest, 0) <= 4096 && rest.len() < 2 + at16(rest, 0)
            ==> wire::take_bytes(rest) == Err::<(Seq<u8>, Seq<u8>), _>(DecodeError::Truncated),
        rest.len() >= 2 && at16(rest, 0) <= 4096 && rest.len() >= 2 + at16(rest, 0) ==> (
        wire::take_bytes(rest) matches Ok((b, behind)) && b == rest.subrange(
            2,
            2 + at16(rest, 0),
        ) && behind == rest.skip(2 + at16(rest, 0))),
{
    let f = wire::counted(v);
    let n = if v.len() > 4096 {
        4096
    } else {
        v.len() as int
    };
    wire::lemma_u16_at(n, f, 0);
    assert(f.skip(2) =~= v.take(n));
    if rest.len() >= 2 && at16(rest, 0) <= 4096 && rest.len() >= 2 + at16(rest, 0) {
        let k = at16(rest, 0);
        assert(rest.skip(2).take(k) =~= rest.subrange(2, 2 + k));
        assert(rest.skip(2).skip(k) =~= rest.skip(2 + k));
    }
}

/// Text is UTF-8 on the wire, and bytes that are not are refused.
pub proof fn law_texts_are_utf8(s: Seq<char>, b: Seq<u8>)
    ensures
        wire::counted_text(s) == wire::counted(encode_utf8(s)),
        wire::take_str(b) matches Ok((text, rest)) ==> (wire::take_bytes(b) matches Ok((raw, more))
            && valid_utf8(raw) && text == decode_utf8(raw) && rest == more),
        wire::take_bytes(b) matches Ok((raw, more)) ==> (wire::take_str(b) is Ok <==> valid_utf8(
            raw,
        )),
        wire::take_bytes(b) is Err ==> wire::take_str(b) is Err,
{
}

/// The place in a hyphenated identifier of the first digit of byte `i`.
pub open spec fn digit_place(i: int) -> int {
    2 * i + (if i < 4 {
        0int
    } else if i < 6 {
        1
    } else if i < 8 {
        2
    } else if i < 10 {
        3
    } else {
        4
    })
}

/// Whether `c` is the lower-case hexadecimal digit for `v`.
pub open spec fn shows(c: char, v: int) -> bool {
    c as int == (if v < 10 {
        48 + v
    } else {
        87 + v
    })
}

/// An identifier reads as 8-4-4-4-12 lower-case hexadecimal digits, the first byte first and in
/// each byte the upper half first.
pub proof fn law_identifiers_are_hyphenated_hex(b: Seq<u8>)
    requires
        b.len() == 16,
    ensures
        ({
            let s = uuids::format_uuid(b);
            &&& s.len() == 36
            &&& s[8] == '-' && s[13] == '-' && s[18] == '-' && s[23] == '-'
            &&& forall|i: int|
                0 <= i < 16 ==> shows(s[digit_place(i)], #[trigger] b[i] as int / 16) && shows(
                    s[digit_place(i) + 1],
                    b[i] as int % 16,
                )
        }),
{
    let h = uuids::hex_text(b);
    let s = uuids::format_uuid(b);
    assert forall|i: int| 0 <= i < 16 implies shows(
        s[digit_place(i)],
        #[trigger] b[i] as int / 16,
    ) && shows(s[digit_place(i) + 1], b[i] as int % 16) by {
        assert(s[digit_place(i)] == h[2 * i]);
        assert(s[digit_place(i) + 1] == h[2 * i + 1]);
        assert((2 * i) / 2 == i && (2 * i + 1) / 2 == i);
    }
}

/// An identifier takes 16 bytes. Those of a hyphenated text are the bytes it was made from; what
/// is no identifier stands as zeros.
pub proof fn law_identifiers_take_sixteen_bytes(b: Seq<u8>, s: Seq<char>)
    requires
        b.len() == 16,
    ensures
        uuids::uid_octets(uuids::format_uuid(b)) == b,
        uuids::uid_octets(s).len() == 16,
        s.len() != 32 && s.len() != 36 && s.len() != 38 && s.len() != 45 ==> forall|i: int|
            0 <= i < 16 ==> #[trigger] uuids::uid_octets(s)[i] == 0,
{
    uuids::law_uuid_text_round_trip(b);
    uuids::lemma_uid_octets_len(s);
}

// ---------------------------------------------------------------------------------------------
// Points.
// ---------------------------------------------------------------------------------------------

/// The size of a point with an absolute position.
pub open spec fn point_size(p: LatLng) -> int {
    9 + (if p.altitude is Some {
        4int
    } else {
        0
    }) + (if p.accuracy is Some {
        2int
    } else {
        0
    }) + (if p.timestamp_ms is Some {
        8int
    } else {
        0
    })
}

/// A point begins with a byte that says what is there (altitude 1, accuracy 2, time 16), then
/// latitude and longitude in microdegrees, then what is there, in this order. Heading, speed and
/// the unrounded sample do not show.
#[verifier::spinoff_prover]
#[verifier::rlimit(50)]
pub proof fn law_point_layout(p: LatLng)
    ensures
        ({
            let b = points::point_bytes(p, None);
            let acc = 9 + (if p.altitude is Some {
                4int
            } else {
                0
            });
            let time = acc + (if p.accuracy is Some {
                2int
            } else {
                0
            });
            &&& b.len() == point_size(p)
            &&& b[0] == (if p.altitude is Some {
                1int
            } else {
                0
            }) + (if p.accuracy is Some {
                2int
            } else {
                0
            }) + (if p.timestamp_ms is Some {
                16int
            } else {
                0
            })
            &&& at32(b, 1) == p.latitude as int % 0x1_0000_0000
            &&& at32(b, 5) == p.longitude as int % 0x1_0000_0000
            &&& p.altitude matches Some(v) ==> at32(b, 9) == v as int % 0x1_0000_0000
            &&& p.accuracy matches Some(v) ==> at16(b, acc) == v
            &&& p.timestamp_ms matches Some(v) ==> at64(b, time) == v as int % 0x1_0000_0000_0000_0000
        }),
{
    let b = points::point_bytes(p, None);
    wire::lemma_le32_len(p.latitude as int);
    wire::lemma_le32_len(p.longitude as int);
    assert(b.subrange(1, 5) =~= wire::le32(p.latitude as int));
    assert(b.subrange(5, 9) =~= wire::le32(p.longitude as int));
    wire::lemma_u32_at(p.latitude as int, b, 1);
    wire::lemma_u32_at(p.longitude as int, b, 5);
    let acc = 9 + (if p.altitude is Some {
        4int
    } else {
        0
    });
    let time = acc + (if p.accuracy is Some {
        2int
    } else {
        0
    });
    if let Some(v) = p.altitude {
        wire::lemma_le32_len(v as int);
        assert(b.subrange(9, 13) =~= wire::le32(v as int));
        wire::lemma_u32_at(v as int, b, 9);
    }
    if let Some(v) = p.timestamp_ms {
        wire::lemma_le64_len(v as int);
    }
    if let Some(v) = p.accuracy {
        assert(b[acc] == wire::le16(v as int)[0] && b[acc + 1] == wire::le16(v as int)[1]);
        wire::lemma_u16_at(v as int, b, acc);
    }
    if let Some(v) = p.timestamp_ms {
        assert(b.subrange(time, time + 8) =~= wire::le64(v as int));
        wire::lemma_u64_at(v as int, b, time);
    }
}

/// A point behind another one in a frame carries its position as two steps of 16 bits.
pub proof fn law_next_point_is_a_step(p: LatLng, lat: i32, lon: i32)
    ensures
        ({
            let b = points::point_bytes(p, Some((lat, lon)));
            &&& b.len() == point_size(p) - 4
            &&& b[0] == points::point_bytes(p, None)[0]
            &&& at16(b, 1) == (p.latitude - lat) % 0x1_0000
            &&& at16(b, 3) == (p.longitude - lon) % 0x1_0000
            &&& b.skip(5) == points::point_bytes(p, None).skip(9)
        }),
        points::fits(lat, lon, p.latitude, p.longitude) <==> -0x8000 <= p.latitude - lat <= 0x7FFF
            && -0x8000 <= p.longitude - lon <= 0x7FFF,
{
    let b = points::point_bytes(p, Some((lat, lon)));
    let a = points::point_bytes(p, None);
    law_point_layout(p);
    wire::lemma_le32_len(p.latitude as int);
    wire::lemma_le32_len(p.longitude as int);
    assert(a.skip(9) =~= points::point_tail(p));
    assert(b.skip(5) =~= points::point_tail(p));
    wire::lemma_u16_at(p.latitude - lat, b, 1);
    wire::lemma_u16_at(p.longitude - lon, b, 3);
}

/// Positions beyond the poles or the date line are refused, all others are read.
pub proof fn law_positions_off_the_globe_are_refused(b: Seq<u8>)
    ensures
        points::take_point(b, None) matches Ok((p, _)) ==> -90_000_000 <= p.latitude <= 90_000_000
            && -180_000_000 <= p.longitude <= 180_000_000,
        b.len() >= 9 ==> ({
            let lat = if at32(b, 1) >= 0x8000_0000 {
                at32(b, 1) - 0x1_0000_0000
            } else {
                at32(b, 1)
            };
            let lon = if at32(b, 5) >= 0x8000_0000 {
                at32(b, 5) - 0x1_0000_0000
            } else {
                at32(b, 5)
            };
            let there = -90_000_000 <= lat <= 90_000_000 && -180_000_000 <= lon <= 180_000_000;
            &&& !there ==> points::take_point(b, None) == Err::<(LatLng, Seq<u8>), _>(
                DecodeError::Invalid,
            )
            &&& points::take_point(b, None) matches Ok((p, _)) ==> p.latitude == lat && p.longitude
                == lon && p.heading is None && p.speed is None && p.exact is None && (p.altitude
                is Some <==> b[0] % 2 == 1) && (p.accuracy is Some <==> b[0] / 2 % 2 == 1) && (
            p.timestamp_ms is Some <==> b[0] / 16 % 2 == 1)
        }),
{
    if b.len() >= 9 {
        assert(b.skip(1)[0] == b[1] && b.skip(1)[1] == b[2] && b.skip(1)[2] == b[3] && b.skip(1)[3]
            == b[4]);
        let c = b.skip(1).skip(4);
        assert(c[0] == b[5] && c[1] == b[6] && c[2] == b[7] && c[3] == b[8]);
    }
}

/// A route is its count and the positions of its points, in order, at most 65,535 of them.
pub proof fn law_route_layout(route: Seq<LatLng>, i: int)
    ensures
        ({
            let b = points::route_bytes(route);
            let n = if route.len() > 65_535 {
                65_535
            } else {
                route.len() as int
            };
            &&& b.len() == 2 + 8 * n
            &&& at16(b, 0) == n
            &&& 0 <= i < n ==> at32(b, 2 + 8 * i) == route[i].latitude as int % 0x1_0000_0000 && at32(
                b,
                2 + 8 * i + 4,
            ) == route[i].longitude as int % 0x1_0000_0000
        }),
{
    let b = points::route_bytes(route);
    let head = points::route_head(route);
    let n = head.len() as int;
    let body = points::positions(head);
    lemma_positions_layout(head, i);
    wire::lemma_u16_at(n, b, 0);
    if 0 <= i < n {
        assert(b.skip(2) =~= body);
        assert forall|k: int| 0 <= k < body.len() implies b[2 + k] == body[k] by {}
    }
}

proof fn lemma_positions_layout(route: Seq<LatLng>, i: int)
    ensures
        points::positions(route).len() == 8 * route.len(),
        0 <= i < route.len() ==> at32(points::positions(route), 8 * i) == route[i].latitude as int % 0x1_0000_0000 && at32(points::positions(route), 8 * i + 4) == route[i].longitude as int % 0x1_0000_0000,
    decreases route.len(),
{
    if route.len() > 0 {
        let b = points::positions(route);
        let lat = route[0].latitude as int;
        let lon = route[0].longitude as int;
        let more = points::positions(route.skip(1));
        wire::lemma_le32_len(lat);
        wire::lemma_le32_len(lon);
        lemma_positions_layout(route.skip(1), i - 1);
        assert(b.subrange(0, 4) =~= wire::le32(lat));
        assert(b.subrange(4, 8) =~= wire::le32(lon));
        wire::lemma_u32_at(lat, b, 0);
        wire::lemma_u32_at(lon, b, 4);
        if 0 < i < route.len() {
            assert forall|k: int| 0 <= k < more.len() implies b[8 + k] == more[k] by {}
            assert(route.skip(1)[i - 1] == route[i]);
        }
    }
}

// ---------------------------------------------------------------------------------------------
// Frames of the client.
// ---------------------------------------------------------------------------------------------

/// A location frame: 4, the number of its last point, how many points there are, and the points,
/// the first with its position and each other as a step from the one before it.
#[verifier::spinoff_prover]
#[verifier::rlimit(50)]
pub proof fn law_location_frame_layout(seq: int, pts: Seq<LatLng>)
    requires
        0 < pts.len() <= 100,
    ensures
        ({
            let f = points::loc_frame(seq, pts);
            let first = points::point_bytes(pts[0], None);
            &&& f.len() >= 6 + first.len()
            &&& f[0] == 4
            &&& at32(f, 1) == seq % 0x1_0000_0000
            &&& f[5] == pts.len()
            &&& f.subrange(6, 6 + first.len() as int) == first
            &&& pts.len() == 1 ==> f.len() == 6 + first.len()
            &&& pts.len() > 1 ==> f.skip(6 + first.len() as int) == points::chain_bytes(
                pts.skip(1),
                Some((pts[0].latitude, pts[0].longitude)),
            )
        }),
        pts.len() > 1 ==> points::chain_bytes(
            pts.skip(1),
            Some((pts[0].latitude, pts[0].longitude)),
        ) == points::point_bytes(pts[1], Some((pts[0].latitude, pts[0].longitude)))
            + points::chain_bytes(pts.skip(2), Some((pts[1].latitude, pts[1].longitude))),
        points::chain_bytes(Seq::empty(), None).len() == 0,
{
    let f = points::loc_frame(seq, pts);
    let first = points::point_bytes(pts[0], None);
    let here = Some((pts[0].latitude, pts[0].longitude));
    let more = points::chain_bytes(pts.skip(1), here);
    wire::lemma_le32_len(seq);
    assert(f.subrange(1, 5) =~= wire::le32(seq));
    wire::lemma_u32_at(seq, f, 1);
    assert(f =~= (seq![points::C_LOC] + (wire::le32(seq) + (seq![pts.len() as u8] + (first
        + more)))));
    assert(f.subrange(6, 6 + first.len() as int) =~= first);
    assert(f.skip(6 + first.len() as int) =~= more);
    if pts.len() > 1 {
        assert(pts.skip(1)[0] == pts[1]);
        assert(pts.skip(1).skip(1) =~= pts.skip(2));
    }
}

/// The other frames of the client, field by field behind their type: resume 1, start 2, stop 3,
/// subscribe 5, unsubscribe 6, event 7, acknowledgement of a command 8.
#[verifier::spinoff_prover]
#[verifier::rlimit(50)]
pub proof fn law_client_frame_layouts(
    id: Seq<char>,
    n: u64,
    location: Option<LatLng>,
    route: Seq<LatLng>,
    bytes: Seq<u8>,
    on: bool,
    ms: u32,
    sub: u8,
    time: Option<i64>,
    status: CommandAckStatus,
    text: Option<Seq<char>>,
)
    ensures
        ({
            let f = codec::client_frame(
                ClientCmdView::Resume { track_uid: id, last_client_seq: n },
            );
            &&& f.len() == 21 && f[0] == 1
            &&& f.subrange(1, 17) == uuids::uid_octets(id)
            &&& at32(f, 17) == n as int % 0x1_0000_0000
        }),
        ({
            let f = codec::client_frame(
                ClientCmdView::TrackStart { location, route, metadata: bytes },
            );
            let start = match location {
                Some(p) => points::point_bytes(p, None),
                None => Seq::empty(),
            };
            let k = 2 + start.len() as int;
            let r = points::route_bytes(route);
            &&& f.len() == k + r.len() + wire::counted(bytes).len()
            &&& f[0] == 2
            &&& f[1] == (if location is Some {
                1int
            } else {
                0
            })
            &&& f.subrange(2, k) == start
            &&& f.subrange(k, k + r.len()) == r
            &&& f.skip(k + r.len()) == wire::counted(bytes)
        }),
        codec::client_frame(ClientCmdView::TrackStop { track_uid: id }) == seq![3u8],
        ({
            let f = codec::client_frame(
                ClientCmdView::Subscribe {
                    device_uid: id,
                    include_events: on,
                    min_location_interval_ms: ms,
                },
            );
            &&& f.len() == 20 && f[0] == 5
            &&& f.subrange(1, 17) == uuids::uid_octets(id)
            &&& f[17] == (if on {
                1int
            } else {
                0
            })
            &&& at16(f, 18) == (if ms > 65_535 {
                65_535
            } else {
                ms as int
            })
        }),
        codec::client_frame(ClientCmdView::Unsubscribe { sub }) == seq![6u8, sub],
        ({
            let f = codec::client_frame(
                ClientCmdView::Event { track_uid: id, payload: bytes, timestamp_ms: time },
            );
            let k = 1 + wire::counted(bytes).len() as int;
            &&& f.len() == k + 8 && f[0] == 7
            &&& f.subrange(1, k) == wire::counted(bytes)
            &&& at64(f, k) == (match time {
                Some(t) => t as int,
                None => 0,
            }) % 0x1_0000_0000_0000_0000
        }),
        ({
            let f = codec::client_frame(
                ClientCmdView::CommandAck { command_id: id, status, message: text },
            );
            &&& f.len() >= 18 && f[0] == 8
            &&& f.subrange(1, 17) == uuids::uid_octets(id)
            &&& f[17] == (match status {
                CommandAckStatus::Unspecified => 0int,
                CommandAckStatus::Succeeded => 1,
                CommandAckStatus::Rejected => 2,
                CommandAckStatus::Failed => 3,
            })
            &&& f.skip(18) == wire::counted_text(
                match text {
                    Some(t) => t,
                    None => Seq::empty(),
                },
            )
        }),
{
    uuids::lemma_uid_octets_len(id);
    let octets = uuids::uid_octets(id);
    {
        let f = codec::client_frame(ClientCmdView::Resume { track_uid: id, last_client_seq: n });
        wire::lemma_le32_len(n as int);
        assert(f.subrange(1, 17) =~= octets);
        assert(f.subrange(17, 21) =~= wire::le32(n as int));
        wire::lemma_u32_at(n as int, f, 17);
    }
    {
        let f = codec::client_frame(
            ClientCmdView::TrackStart { location, route, metadata: bytes },
        );
        let start = match location {
            Some(p) => points::point_bytes(p, None),
            None => Seq::empty(),
        };
        let k = 2 + start.len() as int;
        let r = points::route_bytes(route);
        assert(f.subrange(2, k) =~= start);
        assert(f.subrange(k, k + r.len()) =~= r);
        assert(f.skip(k + r.len()) =~= wire::counted(bytes));
    }
    {
        let f = codec::client_frame(
            ClientCmdView::Subscribe {
                device_uid: id,
                include_events: on,
                min_location_interval_ms: ms,
            },
        );
        let v = if ms > 65_535 {
            65_535
        } else {
            ms as int
        };
        assert(f.subrange(1, 17) =~= octets);
        assert(f[18] == wire::le16(v)[0] && f[19] == wire::le16(v)[1]);
        wire::lemma_u16_at(v, f, 18);
    }
    assert(codec::client_frame(ClientCmdView::Unsubscribe { sub }) =~= seq![6u8, sub]);
    {
        let f = codec::client_frame(
            ClientCmdView::Event { track_uid: id, payload: bytes, timestamp_ms: time },
        );
        let k = 1 + wire::counted(bytes).len() as int;
        let t = match time {
            Some(t) => t as int,
            None => 0,
        };
        wire::lemma_le64_len(t);
        assert(f.subrange(1, k) =~= wire::counted(bytes));
        assert(f.subrange(k, k + 8) =~= wire::le64(t));
        wire::lemma_u64_at(t, f, k);
    }
    {
        let f = codec::client_frame(
            ClientCmdView::CommandAck { command_id: id, status, message: text },
        );
        let m = match text {
            Some(t) => t,
            None => Seq::empty(),
        };
        assert(f.subrange(1, 17) =~= octets);
        assert(f.skip(18) =~= wire::counted_text(m));
    }
}

// ---------------------------------------------------------------------------------------------
// Frames of the server.
// ---------------------------------------------------------------------------------------------

/// The frames of the server that begin with an identifier or a number: hello 0x80, relocate 0x81,
/// resume taken 0x82, track started 0x83, track stopped 0x84, receipt 0x85.
#[verifier::spinoff_prover]
#[verifier::rlimit(50)]
pub proof fn law_server_session_frame_layouts(
    id: Seq<char>,
    n: u64,
    version: u8,
    shard: u32,
    ms: u32,
    text: Seq<char>,
    bytes: Seq<u8>,
)
    ensures
        ({
            let f = codec::server_frame(ServerEvtView::Hello { version, node_id: id, shard });
            &&& f.len() == 20 && f[0] == 0x80 && f[1] == version
            &&& at16(f, 2) == shard as int % 0x1_0000
            &&& f.skip(4) == uuids::uid_octets(id)
        }),
        ({
            let f = codec::server_frame(
                ServerEvtView::Relocate { endpoint: text, retry_after_ms: ms },
            );
            &&& f.len() >= 5 && f[0] == 0x81
            &&& at32(f, 1) == ms
            &&& f.skip(5) == wire::counted_text(text)
        }),
        ({
            let f = codec::server_frame(
                ServerEvtView::ResumeOk { track_uid: id, last_acked_seq: n },
            );
            &&& f.len() == 21 && f[0] == 0x82
            &&& f.subrange(1, 17) == uuids::uid_octets(id)
            &&& at32(f, 17) == n as int % 0x1_0000_0000
        }),
        ({
            let f = codec::server_frame(
                ServerEvtView::TrackStarted { track_uid: id, metadata: bytes },
            );
            &&& f.len() >= 17 && f[0] == 0x83
            &&& f.subrange(1, 17) == uuids::uid_octets(id)
            &&& f.skip(17) == wire::counted(bytes)
        }),
        ({
            let f = codec::server_frame(ServerEvtView::TrackStopped { track_uid: id });
            f.len() == 17 && f[0] == 0x84 && f.skip(1) == uuids::uid_octets(id)
        }),
        ({
            let f = codec::server_frame(ServerEvtView::Ack { seq: n });
            f.len() == 5 && f[0] == 0x85 && at32(f, 1) == n as int % 0x1_0000_0000
        }),
{
    uuids::lemma_uid_octets_len(id);
    let octets = uuids::uid_octets(id);
    wire::lemma_le32_len(n as int);
    wire::lemma_le32_len(ms as int);
    {
        let f = codec::server_frame(ServerEvtView::Hello { version, node_id: id, shard });
        assert(f[2] == wire::le16(shard as int)[0] && f[3] == wire::le16(shard as int)[1]);
        wire::lemma_u16_at(shard as int, f, 2);
        assert(f.skip(4) =~= octets);
    }
    {
        let f = codec::server_frame(
            ServerEvtView::Relocate { endpoint: text, retry_after_ms: ms },
        );
        assert(f.subrange(1, 5) =~= wire::le32(ms as int));
        wire::lemma_u32_at(ms as int, f, 1);
        assert(f.skip(5) =~= wire::counted_text(text));
    }
    {
        let f = codec::server_frame(
            ServerEvtView::ResumeOk { track_uid: id, last_acked_seq: n },
        );
        assert(f.subrange(1, 17) =~= octets);
        assert(f.subrange(17, 21) =~= wire::le32(n as int));
        wire::lemma_u32_at(n as int, f, 17);
    }
    {
        let f = codec::server_frame(
            ServerEvtView::TrackStarted { track_uid: id, metadata: bytes },
        );
        assert(f.subrange(1, 17) =~= octets);
        assert(f.skip(17) =~= wire::counted(bytes));
    }
    {
        let f = codec::server_frame(ServerEvtView::TrackStopped { track_uid: id });
        assert(f.skip(1) =~= octets);
    }
    {
        let f = codec::server_frame(ServerEvtView::Ack { seq: n });
        assert(f.subrange(1, 5) =~= wire::le32(n as int));
        wire::lemma_u32_at(n as int, f, 1);
    }
}

/// The frames of the server that carry a location or an error: location 0x86, error 0x88.
#[verifier::spinoff_prover]
#[verifier::rlimit(50)]
pub proof fn law_server_location_and_error_frame_layouts(
    id: Seq<char>,
    track: Seq<char>,
    n: u64,
    p: LatLng,
    sub: u8,
    code: ErrorCode,
    text: Seq<char>,
    opt_id: Option<Seq<char>>,
    ms: Option<u32>,
)
    ensures
        ({
            let f = codec::server_frame(
                ServerEvtView::LocationAdded {
                    device_uid: id,
                    track_uid: track,
                    point: p,
                    client_seq: n,
                    sub,
                },
            );
            &&& f.len() >= 6 && f[0] == 0x86 && f[1] == sub
            &&& at32(f, 2) == n as int % 0x1_0000_0000
            &&& f.skip(6) == points::point_bytes(p, None)
        }),
        ({
            let f = codec::server_frame(
                ServerEvtView::Error { code, message: text, track_uid: opt_id, retry_after_ms: ms },
            );
            &&& f.len() >= 22 && f[0] == 0x88
            &&& f[1] == (match code {
                ErrorCode::Auth => 1int,
                ErrorCode::TrackNotFound => 2,
                ErrorCode::Fenced => 3,
                ErrorCode::TryAgain => 4,
                ErrorCode::Invalid => 5,
                ErrorCode::Unauthorized => 6,
            })
            &&& at32(f, 2) == (match ms {
                Some(n) => n as int,
                None => 0,
            })
            &&& f.subrange(6, 22) == uuids::uid_octets(
                match opt_id {
                    Some(s) => s,
                    None => Seq::empty(),
                },
            )
            &&& f.skip(22) == wire::counted_text(text)
        }),
{
    wire::lemma_le32_len(n as int);
    {
        let f = codec::server_frame(
            ServerEvtView::LocationAdded {
                device_uid: id,
                track_uid: track,
                point: p,
                client_seq: n,
                sub,
            },
        );
        assert(f.subrange(2, 6) =~= wire::le32(n as int));
        wire::lemma_u32_at(n as int, f, 2);
        assert(f.skip(6) =~= points::point_bytes(p, None));
    }
    {
        let f = codec::server_frame(
            ServerEvtView::Error { code, message: text, track_uid: opt_id, retry_after_ms: ms },
        );
        let v = match ms {
            Some(n) => n as int,
            None => 0,
        };
        let o = uuids::uid_octets(
            match opt_id {
                Some(s) => s,
                None => Seq::empty(),
            },
        );
        wire::lemma_le32_len(v);
        uuids::lemma_uid_octets_len(
            match opt_id {
                Some(s) => s,
                None => Seq::empty(),
            },
        );
        assert(f.subrange(2, 6) =~= wire::le32(v));
        wire::lemma_u32_at(v, f, 2);
        assert(f.subrange(6, 22) =~= o);
        assert(f.skip(22) =~= wire::counted_text(text));
    }
}

/// The frames of the server that carry an event, a command or the presence of a device: event 0x89,
/// command 0x8A, presence 0x8B.
#[verifier::spinoff_prover]
#[verifier::rlimit(50)]
pub proof fn law_server_event_frame_layouts(
    id: Seq<char>,
    track: Seq<char>,
    sub: u8,
    bytes: Seq<u8>,
    time: Option<i64>,
    online: bool,
)
    ensures
        ({
            let f = codec::server_frame(
                ServerEvtView::EventAdded {
                    device_uid: id,
                    track_uid: track,
                    payload: bytes,
                    timestamp_ms: time,
                    sub,
                },
            );
            let k = 2 + wire::counted(bytes).len() as int;
            &&& f.len() == k + 8 && f[0] == 0x89 && f[1] == sub
            &&& f.subrange(2, k) == wire::counted(bytes)
            &&& at64(f, k) == (match time {
                Some(t) => t as int,
                None => 0,
            }) % 0x1_0000_0000_0000_0000
        }),
        ({
            let f = codec::server_frame(
                ServerEvtView::Command { command_id: id, payload: bytes, timestamp_ms: time },
            );
            let k = 17 + wire::counted(bytes).len() as int;
            &&& f.len() == k + 8 && f[0] == 0x8A
            &&& f.subrange(1, 17) == uuids::uid_octets(id)
            &&& f.subrange(17, k) == wire::counted(bytes)
            &&& at64(f, k) == (match time {
                Some(t) => t as int,
                None => 0,
            }) % 0x1_0000_0000_0000_0000
        }),
        ({
            let f = codec::server_frame(
                ServerEvtView::DevicePresence { device_uid: id, online, last_seen_ms: time, sub },
            );
            &&& f.len() == 11 && f[0] == 0x8B && f[1] == sub
            &&& f[2] == (if online {
                1int
            } else {
                0
            })
            &&& at64(f, 3) == (match time {
                Some(t) => t as int,
                None => 0,
            }) % 0x1_0000_0000_0000_0000
        }),
{
    uuids::lemma_uid_octets_len(id);
    let octets = uuids::uid_octets(id);
    let t = match time {
        Some(t) => t as int,
        None => 0,
    };
    wire::lemma_le64_len(t);
    {
        let f = codec::server_frame(
            ServerEvtView::EventAdded {
                device_uid: id,
                track_uid: track,
                payload: bytes,
                timestamp_ms: time,
                sub,
            },
        );
        let k = 2 + wire::counted(bytes).len() as int;
        assert(f.subrange(2, k) =~= wire::counted(bytes));
        assert(f.subrange(k, k + 8) =~= wire::le64(t));
        wire::lemma_u64_at(t, f, k);
    }
    {
        let f = codec::server_frame(
            ServerEvtView::Command { command_id: id, payload: bytes, timestamp_ms: time },
        );
        let k = 17 + wire::counted(bytes).len() as int;
        assert(f.subrange(1, 17) =~= octets);
        assert(f.subrange(17, k) =~= wire::counted(bytes));
        assert(f.subrange(k, k + 8) =~= wire::le64(t));
        wire::lemma_u64_at(t, f, k);
    }
    {
        let f = codec::server_frame(
            ServerEvtView::DevicePresence { device_uid: id, online, last_seen_ms: time, sub },
        );
        assert(f.subrange(3, 11) =~= wire::le64(t));
        wire::lemma_u64_at(t, f, 3);
    }
}

/// What a subscription holds, behind 0x87: its handle, the device, the track, whether the device is
/// online, what is there (location 1, time 2, route 4), those parts, and the estimates.
#[verifier::spinoff_prover]
#[verifier::rlimit(50)]
pub proof fn law_subscription_frame_layout(evt: ServerEvtView)
    requires
        evt is Subscribed,
    ensures
        ({
            let f = codec::server_frame(evt);
            let loc = match evt->Subscribed_last_location {
                Some(p) => points::point_bytes(p, None),
                None => Seq::empty(),
            };
            let time = match evt->Subscribed_last_seen_ms {
                Some(t) => wire::le64(t as int),
                None => Seq::empty(),
            };
            let way = if evt->Subscribed_route.len() > 0 {
                points::route_bytes(evt->Subscribed_route)
            } else {
                Seq::empty()
            };
            let live = loc + time + way;
            let k = 36 + live.len() as int;
            &&& f.len() >= k + 16
            &&& f[0] == 0x87 && f[1] == evt->Subscribed_sub
            &&& f.subrange(2, 18) == uuids::uid_octets(evt->Subscribed_device_uid)
            &&& f.subrange(18, 34) == uuids::uid_octets(evt->Subscribed_track_uid)
            &&& f[34] == (if evt->Subscribed_online {
                1int
            } else {
                0
            })
            &&& f[35] == (if evt->Subscribed_last_location is Some {
                1int
            } else {
                0
            }) + (if evt->Subscribed_last_seen_ms is Some {
                2int
            } else {
                0
            }) + (if evt->Subscribed_route.len() > 0 {
                4int
            } else {
                0
            })
            &&& f.subrange(36, k) == live
            &&& at64(f, k) == evt->Subscribed_estimated_distance
            &&& at64(f, k + 8) == evt->Subscribed_estimated_duration
            &&& f.skip(k + 16) == wire::counted_text(evt->Subscribed_start_location_name)
                + wire::counted_text(evt->Subscribed_end_location_name) + wire::counted(
                evt->Subscribed_metadata,
            )
        }),
{
    let loc = match evt->Subscribed_last_location {
        Some(p) => points::point_bytes(p, None),
        None => Seq::empty(),
    };
    let time = match evt->Subscribed_last_seen_ms {
        Some(t) => wire::le64(t as int),
        None => Seq::empty(),
    };
    let way = if evt->Subscribed_route.len() > 0 {
        points::route_bytes(evt->Subscribed_route)
    } else {
        Seq::empty()
    };
    let d = evt->Subscribed_estimated_distance as int;
    let u = evt->Subscribed_estimated_duration as int;
    let a = wire::counted_text(evt->Subscribed_start_location_name);
    let b = wire::counted_text(evt->Subscribed_end_location_name);
    let c = wire::counted(evt->Subscribed_metadata);
    uuids::lemma_uid_octets_len(evt->Subscribed_device_uid);
    uuids::lemma_uid_octets_len(evt->Subscribed_track_uid);
    wire::lemma_append(loc, time, way);
    wire::lemma_append(a, b, c);
    lemma_subscription_whole(
        evt->Subscribed_sub,
        uuids::uid_octets(evt->Subscribed_device_uid),
        uuids::uid_octets(evt->Subscribed_track_uid),
        wire::bit(evt->Subscribed_online),
        codec::live_flags(
            evt->Subscribed_last_location,
            evt->Subscribed_last_seen_ms,
            evt->Subscribed_route,
        ),
        loc + time + way,
        d,
        u,
        a + b + c,
    );
}

/// A subscription from its parts.
#[verifier::spinoff_prover]
#[verifier::rlimit(50)]
proof fn lemma_subscription_whole(
    sub: u8,
    device: Seq<u8>,
    track: Seq<u8>,
    online: u8,
    flags: u8,
    live: Seq<u8>,
    d: int,
    u: int,
    names: Seq<u8>,
)
    requires
        device.len() == 16,
        track.len() == 16,
        0 <= d <= u64::MAX,
        0 <= u <= u64::MAX,
    ensures
        ({
            let f = (seq![codec::S_SUBSCRIBED] + (seq![sub] + (device + (track + (seq![
                online,
            ]))))) + (seq![flags] + (live + (wire::le64(d) + (wire::le64(u) + names))));
            let k = 36 + live.len() as int;
            &&& f.len() >= k + 16
            &&& f[0] == 0x87 && f[1] == sub && f[34] == online && f[35] == flags
            &&& f.subrange(2, 18) == device
            &&& f.subrange(18, 34) == track
            &&& f.subrange(36, k) == live
            &&& at64(f, k) == d
            &&& at64(f, k + 8) == u
            &&& f.skip(k + 16) == names
        }),
{
    let front = seq![codec::S_SUBSCRIBED] + (seq![sub] + (device + (track + (seq![online]))));
    let f = front + (seq![flags] + (live + (wire::le64(d) + (wire::le64(u) + names))));
    let k = 36 + live.len() as int;
    wire::lemma_le64_len(d);
    wire::lemma_le64_len(u);
    lemma_subscription_front(sub, device, track, online);
    lemma_subscription_parts(f, front, flags, live, wire::le64(d), wire::le64(u), names);
    wire::lemma_u64_at(d, f, k);
    wire::lemma_u64_at(u, f, k + 8);
    assert(f.subrange(2, 18) =~= front.subrange(2, 18));
    assert(f.subrange(18, 34) =~= front.subrange(18, 34));
}

proof fn lemma_subscription_front(sub: u8, device: Seq<u8>, track: Seq<u8>, online: u8)
    requires
        device.len() == 16,
        track.len() == 16,
    ensures
        ({
            let front = seq![codec::S_SUBSCRIBED] + (seq![sub] + (device + (track + (seq![
                online,
            ]))));
            &&& front.len() == 35
            &&& front[0] == 0x87 && front[1] == sub && front[34] == online
            &&& front.subrange(2, 18) == device
            &&& front.subrange(18, 34) == track
        }),
{
    let front = seq![codec::S_SUBSCRIBED] + (seq![sub] + (device + (track + (seq![online]))));
    assert(front.subrange(2, 18) =~= device);
    assert(front.subrange(18, 34) =~= track);
}

proof fn lemma_subscription_parts(
    f: Seq<u8>,
    front: Seq<u8>,
    flags: u8,
    live: Seq<u8>,
    d: Seq<u8>,
    u: Seq<u8>,
    names: Seq<u8>,
)
    requires
        front.len() == 35,
        d.len() == 8,
        u.len() == 8,
        f == front + (seq![flags] + (live + (d + (u + names)))),
    ensures
        ({
            let k = 36 + live.len() as int;
            &&& f.len() >= k + 16
            &&& f[35] == flags
            &&& f.subrange(36, k) == live
            &&& f.subrange(k, k + 8) == d
            &&& f.subrange(k + 8, k + 16) == u
            &&& f.skip(k + 16) == names
            &&& forall|i: int| 0 <= i < 35 ==> f[i] == front[i]
        }),
{
    let k = 36 + live.len() as int;
    assert(f.subrange(36, k) =~= live);
    assert(f.subrange(k, k + 8) =~= d);
    assert(f.subrange(k + 8, k + 16) =~= u);
    assert(f.skip(k + 16) =~= names);
}

// ---------------------------------------------------------------------------------------------
// What is refused, and what stands for nothing.
// ---------------------------------------------------------------------------------------------

/// Error codes other than 1 to 6 are refused; a byte for online, or for the state of a command,
/// is read as far as it is known; times, waits and track identifiers of zero stand for none.
pub proof fn law_codes_are_read_as_they_are_written(code: ErrorCode, v: u8, t: i64, b: Seq<u8>)
    ensures
        codec::error_code(code.byte()) == Some(code),
        codec::error_code(v) is Some <==> 1 <= v <= 6,
        codec::error_code(v) matches Some(c) ==> c.byte() == v,
        1 <= code.byte() <= 6,
        v <= 3 ==> codec::ack_status(v).byte() == v,
        v > 3 ==> codec::ack_status(v) == CommandAckStatus::Unspecified,
        codec::time_or_none(t) == (if t == 0 {
            None::<i64>
        } else {
            Some(t)
        }),
        b.len() > 1 && b[0] == 0x88 && !(1 <= b[1] <= 6) ==> codec::parse_server(b) == Err::<
            Option<ServerEvtView>,
            _,
        >(DecodeError::Invalid),
{
}

/// The type of a frame decides what becomes of it: of the server's, 0x80 to 0x8B are known, 0x8D
/// to 0xFE are for later and passed over, and the rest is refused; of the client's, 1 to 8 are
/// known, the others up to 0x7E are for later, and the rest is refused.
pub proof fn law_frame_types(b: Seq<u8>)
    requires
        b.len() > 0,
    ensures
        codec::parse_server(b) == Ok::<Option<ServerEvtView>, DecodeError>(None) <==> 0x8D <= b[0]
            <= 0xFE,
        codec::parse_server(b) is Ok ==> 0x80 <= b[0] <= 0xFE && b[0] != 0x8C,
        b[0] < 0x80 || b[0] == 0x8C || b[0] == 0xFF ==> codec::parse_server(b) == Err::<
            Option<ServerEvtView>,
            _,
        >(DecodeError::Invalid),
        (codec::parse_client(b) matches Ok(codec::ClientDecodeView::Unknown(t)) && t == b[0]) <==> 9
            <= b[0] <= 0x7E,
        b[0] == 0 || b[0] >= 0x7F ==> codec::parse_client(b) == Err::<codec::ClientDecodeView, _>(
            DecodeError::Invalid,
        ),
        codec::parse_server_msg(b) is Ok <==> (codec::parse_server(b) matches Ok(Some(_))),
        codec::parse_client_cmd(b) is Ok <==> (codec::parse_client(b) matches Ok(
            codec::ClientDecodeView::Cmd(_),
        )),
{
}

/// The number of points that a location frame announces is 1 to 100; any other is refused.
pub proof fn law_location_frames_hold_one_to_a_hundred(b: Seq<u8>)
    requires
        b.len() >= 6,
        b[0] == 4,
    ensures
        b[5] == 0 || b[5] > 100 ==> codec::parse_client(b) == Err::<codec::ClientDecodeView, _>(
            DecodeError::Invalid,
        ),
{
    assert(b.skip(1).skip(4)[0] == b[5]);
}

/// How points are cut into frames: one after the other and all of them, up to a hundred in a frame,
/// fewer only at the end or where the next point is further than 16-bit steps reach; each frame
/// under the number of its last point, the last one under the given number.
#[verifier::spinoff_prover]
#[verifier::rlimit(50)]
pub proof fn law_points_are_cut_into_full_frames(last_seq: int, pts: Seq<LatLng>) -> (ends: Seq<int>)
    requires
        pts.len() > 0,
    ensures
        ({
            let frames = points::loc_frames(last_seq, pts);
            &&& frames.len() == ends.len()
            &&& ends.len() > 0
            &&& ends.last() == pts.len()
            &&& forall|k: int|
                0 <= k < ends.len() ==> {
                    let from = if k == 0 {
                        0
                    } else {
                        ends[k - 1]
                    };
                    let to = #[trigger] ends[k];
                    &&& 0 <= from < to <= pts.len()
                    &&& to - from <= 100
                    &&& frames[k] == points::loc_frame(
                        last_seq - (pts.len() - to),
                        pts.subrange(from, to),
                    )
                    &&& to < pts.len() && to - from < 100 ==> !(-0x8000 <= pts[to].latitude
                        - pts[to - 1].latitude <= 0x7FFF && -0x8000 <= pts[to].longitude - pts[to
                        - 1].longitude <= 0x7FFF)
                }
        }),
{
    let ends = points::frame_ends(pts, 0);
    points::lemma_frames_end(last_seq, pts);
    assert forall|k: int| 0 <= k < ends.len() implies {
        let from = if k == 0 {
            0
        } else {
            ends[k - 1]
        };
        let to = #[trigger] ends[k];
        &&& 0 <= from < to <= pts.len()
        &&& to - from <= 100
        &&& points::loc_frames(last_seq, pts)[k] == points::loc_frame(
            last_seq - (pts.len() - to),
            pts.subrange(from, to),
        )
        &&& to < pts.len() && to - from < 100 ==> !(-0x8000 <= pts[to].latitude - pts[to
            - 1].latitude <= 0x7FFF && -0x8000 <= pts[to].longitude - pts[to - 1].longitude
            <= 0x7FFF)
    } by {
        points::lemma_frame_at(last_seq, pts, k);
    }
    ends
}

// ---------------------------------------------------------------------------------------------
// Frames as they are read, whoever wrote them.
// ---------------------------------------------------------------------------------------------

/// The eight bytes at `i` as a signed number.
pub open spec fn signed64(b: Seq<u8>, i: int) -> int {
    if at64(b, i) >= 0x8000_0000_0000_0000 {
        at64(b, i) - 0x1_0000_0000_0000_0000
    } else {
        at64(b, i)
    }
}

/// Frames of a fixed size are read field by field: hello, resume taken, track stopped, receipt and
/// presence. Any byte but zero means online; a time of zero means none.
pub proof fn law_fixed_server_frames_are_read_field_by_field(b: Seq<u8>)
    ensures
        b.len() >= 20 && b[0] == 0x80 ==> (codec::parse_server(b) matches Ok(
            Some(ServerEvtView::Hello { version, node_id, shard }),
        ) && version == b[1] && shard == at16(b, 2) && node_id == uuids::format_uuid(
            b.subrange(4, 20),
        )),
        b.len() >= 21 && b[0] == 0x82 ==> (codec::parse_server(b) matches Ok(
            Some(ServerEvtView::ResumeOk { track_uid, last_acked_seq }),
        ) && track_uid == uuids::format_uuid(b.subrange(1, 17)) && last_acked_seq == at32(b, 17)),
        b.len() >= 17 && b[0] == 0x84 ==> (codec::parse_server(b) matches Ok(
            Some(ServerEvtView::TrackStopped { track_uid }),
        ) && track_uid == uuids::format_uuid(b.subrange(1, 17))),
        b.len() >= 5 && b[0] == 0x85 ==> (codec::parse_server(b) matches Ok(
            Some(ServerEvtView::Ack { seq }),
        ) && seq == at32(b, 1)),
        b.len() >= 11 && b[0] == 0x8B ==> (codec::parse_server(b) matches Ok(
            Some(ServerEvtView::DevicePresence { device_uid, online, last_seen_ms, sub }),
        ) && device_uid.len() == 0 && sub == b[1] && online == (b[2] != 0) && (last_seen_ms is None
            <==> signed64(b, 3) == 0) && (last_seen_ms matches Some(t) ==> t == signed64(b, 3))),
{
    let r = b.skip(1);
    if b.len() >= 5 {
        assert(r[0] == b[1] && r[1] == b[2] && r[2] == b[3] && r[3] == b[4]);
    }
    if b.len() >= 17 {
        assert(r.take(16) =~= b.subrange(1, 17));
    }
    if b.len() >= 20 {
        let c = r.skip(1);
        assert(c[0] == b[2] && c[1] == b[3]);
        assert(c.skip(2).take(16) =~= b.subrange(4, 20));
    }
    if b.len() >= 21 {
        let c = r.skip(16);
        assert(c[0] == b[17] && c[1] == b[18] && c[2] == b[19] && c[3] == b[20]);
    }
    if b.len() >= 11 {
        let c = r.skip(1).skip(1);
        assert(r.skip(1)[0] == b[2]);
        assert forall|i: int| 0 <= i < 8 implies c[i] == b[3 + i] by {}
    }
}

/// Frames with a payload are read field by field as well: an event and a command carry their bytes
/// behind the handle or identifier, and the time behind those.
pub proof fn law_payload_server_frames_are_read_field_by_field(b: Seq<u8>)
    ensures
        b.len() >= 4 && b[0] == 0x89 && at16(b, 2) <= 4096 && b.len() >= 12 + at16(b, 2) ==> ({
            let n = at16(b, 2);
            codec::parse_server(b) matches Ok(
                Some(
                    ServerEvtView::EventAdded { device_uid, track_uid, payload, timestamp_ms, sub },
                ),
            ) && device_uid.len() == 0 && track_uid.len() == 0 && sub == b[1] && payload
                == b.subrange(4, 4 + n) && (timestamp_ms is None <==> signed64(b, 4 + n) == 0) && (
            timestamp_ms matches Some(t) ==> t == signed64(b, 4 + n))
        }),
        b.len() >= 19 && b[0] == 0x8A && at16(b, 17) <= 4096 && b.len() >= 27 + at16(b, 17) ==> ({
            let n = at16(b, 17);
            codec::parse_server(b) matches Ok(
                Some(ServerEvtView::Command { command_id, payload, timestamp_ms }),
            ) && command_id == uuids::format_uuid(b.subrange(1, 17)) && payload == b.subrange(
                19,
                19 + n,
            ) && (timestamp_ms is None <==> signed64(b, 19 + n) == 0) && (
            timestamp_ms matches Some(t) ==> t == signed64(b, 19 + n))
        }),
        b.len() >= 19 && b[0] == 0x83 && at16(b, 17) <= 4096 && b.len() >= 19 + at16(b, 17) ==> (
        codec::parse_server(b) matches Ok(
            Some(ServerEvtView::TrackStarted { track_uid, metadata }),
        ) && track_uid == uuids::format_uuid(b.subrange(1, 17)) && metadata == b.subrange(
            19,
            19 + at16(b, 17),
        )),
{
    let r = b.skip(1);
    if b.len() >= 4 && b[0] == 0x89 && at16(b, 2) <= 4096 && b.len() >= 12 + at16(b, 2) {
        let n = at16(b, 2);
        let c = r.skip(1);
        assert(c[0] == b[2] && c[1] == b[3]);
        let d = c.skip(2);
        assert(d.take(n) =~= b.subrange(4, 4 + n));
        let e = d.skip(n);
        assert forall|i: int| 0 <= i < 8 implies e[i] == b[4 + n + i] by {}
    }
    if b.len() >= 19 && (b[0] == 0x8A || b[0] == 0x83) && at16(b, 17) <= 4096 && b.len() >= 19
        + at16(b, 17) {
        let n = at16(b, 17);
        assert(r.take(16) =~= b.subrange(1, 17));
        let c = r.skip(16);
        assert(c[0] == b[17] && c[1] == b[18]);
        let d = c.skip(2);
        assert(d.take(n) =~= b.subrange(19, 19 + n));
        let e = d.skip(n);
        assert forall|i: int| 0 <= i < e.len() implies e[i] == b[19 + n + i] by {}
    }
}

/// A location of a device is read behind its handle and number; an error behind its code, with a
/// wait and a track of zero meaning none.
pub proof fn law_location_and_error_frames_are_read_field_by_field(b: Seq<u8>)
    ensures
        b.len() >= 6 && b[0] == 0x86 ==> (match points::take_point(b.skip(6), None) {
            Ok((p, _)) => codec::parse_server(b) matches Ok(
                Some(
                    ServerEvtView::LocationAdded { device_uid, track_uid, point, client_seq, sub },
                ),
            ) && device_uid.len() == 0 && track_uid.len() == 0 && sub == b[1] && client_seq == at32(
                b,
                2,
            ) && point == p,
            Err(e) => codec::parse_server(b) == Err::<Option<ServerEvtView>, _>(e),
        }),
        b.len() >= 22 && b[0] == 0x88 && 1 <= b[1] <= 6 ==> (match wire::take_str(b.skip(22)) {
            Ok((text, _)) => codec::parse_server(b) matches Ok(
                Some(ServerEvtView::Error { code, message, track_uid, retry_after_ms }),
            ) && code.byte() == b[1] && message == text && (retry_after_ms is None <==> at32(b, 2)
                == 0) && (retry_after_ms matches Some(ms) ==> ms == at32(b, 2)) && (track_uid
                matches Some(id) ==> id == uuids::format_uuid(b.subrange(6, 22))),
            Err(e) => codec::parse_server(b) == Err::<Option<ServerEvtView>, _>(e),
        }),
{
    let r = b.skip(1);
    if b.len() >= 6 {
        let c = r.skip(1);
        assert(c[0] == b[2] && c[1] == b[3] && c[2] == b[4] && c[3] == b[5]);
        assert(c.skip(4) =~= b.skip(6));
        if b.len() >= 22 {
            assert(c.skip(4).take(16) =~= b.subrange(6, 22));
            assert(c.skip(4).skip(16) =~= b.skip(22));
        }
    }
}

} // verus!
