//! What the codec makes of frames that were cut short or carry more bytes than they need.

use crate::tracking::cmd::ServerEvtView;
use crate::tracking::codec;
use crate::tracking::codec_laws;
use crate::tracking::points;
use crate::tracking::types::{ErrorCode, LatLng};
use crate::tracking::uuids;
use crate::tracking::wire;
use crate::tracking::wire::{DecodeError, Taken};
use vstd::prelude::*;
use vstd::utf8::*;

verus! {

// ---------------------------------------------------------------------------------------------
// More bytes change nothing of what was already read.
// ---------------------------------------------------------------------------------------------

/// What a field reader makes of the same bytes with `tail` behind them.
pub open spec fn grown<V>(t: Taken<V>, tail: Seq<u8>) -> Taken<V> {
    match t {
        Err(e) => Err(e),
        Ok((v, rest)) => Ok((v, rest + tail)),
    }
}

/// Behind the first `n` bytes.
proof fn lemma_skip(b: Seq<u8>, tail: Seq<u8>, n: int)
    requires
        0 <= n <= b.len(),
    ensures
        (b + tail).skip(n) == b.skip(n) + tail,
        (b + tail).take(n) == b.take(n),
{
    assert((b + tail).skip(n) =~= b.skip(n) + tail);
    assert((b + tail).take(n) =~= b.take(n));
}

broadcast proof fn lemma_more_u8(b: Seq<u8>, tail: Seq<u8>)
    requires
        wire::take_u8(b) is Ok,
    ensures
        #[trigger] wire::take_u8(b + tail) == grown(wire::take_u8(b), tail),
{
    lemma_skip(b, tail, 1);
}

broadcast proof fn lemma_more_u16(b: Seq<u8>, tail: Seq<u8>)
    requires
        wire::take_u16(b) is Ok,
    ensures
        #[trigger] wire::take_u16(b + tail) == grown(wire::take_u16(b), tail),
{
    lemma_skip(b, tail, 2);
}

broadcast proof fn lemma_more_u32(b: Seq<u8>, tail: Seq<u8>)
    requires
        wire::take_u32(b) is Ok,
    ensures
        #[trigger] wire::take_u32(b + tail) == grown(wire::take_u32(b), tail),
{
    lemma_skip(b, tail, 4);
}

broadcast proof fn lemma_more_u64(b: Seq<u8>, tail: Seq<u8>)
    requires
        wire::take_u64(b) is Ok,
    ensures
        #[trigger] wire::take_u64(b + tail) == grown(wire::take_u64(b), tail),
{
    lemma_skip(b, tail, 8);
}

broadcast proof fn lemma_more_i32(b: Seq<u8>, tail: Seq<u8>)
    requires
        wire::take_i32(b) is Ok,
    ensures
        #[trigger] wire::take_i32(b + tail) == grown(wire::take_i32(b), tail),
{
    lemma_skip(b, tail, 4);
}

broadcast proof fn lemma_more_i64(b: Seq<u8>, tail: Seq<u8>)
    requires
        wire::take_i64(b) is Ok,
    ensures
        #[trigger] wire::take_i64(b + tail) == grown(wire::take_i64(b), tail),
{
    lemma_skip(b, tail, 8);
}

broadcast proof fn lemma_more_uuid(b: Seq<u8>, tail: Seq<u8>)
    requires
        wire::take_uuid(b) is Ok,
    ensures
        #[trigger] wire::take_uuid(b + tail) == grown(wire::take_uuid(b), tail),
{
    lemma_skip(b, tail, 16);
}

broadcast proof fn lemma_more_uuid_opt(b: Seq<u8>, tail: Seq<u8>)
    requires
        wire::take_uuid_opt(b) is Ok,
    ensures
        #[trigger] wire::take_uuid_opt(b + tail) == grown(wire::take_uuid_opt(b), tail),
{
    lemma_skip(b, tail, 16);
}

broadcast proof fn lemma_more_bytes(b: Seq<u8>, tail: Seq<u8>)
    requires
        wire::take_bytes(b) != Err::<(Seq<u8>, Seq<u8>), _>(DecodeError::Truncated),
    ensures
        #[trigger] wire::take_bytes(b + tail) == grown(wire::take_bytes(b), tail),
{
    lemma_more_u16(b, tail);
    let (n, rest) = wire::take_u16(b)->Ok_0;
    if n <= wire::MAX_STRING {
        lemma_skip(rest, tail, n as int);
    }
}

broadcast proof fn lemma_more_str(b: Seq<u8>, tail: Seq<u8>)
    requires
        wire::take_str(b) != Err::<(Seq<char>, Seq<u8>), _>(DecodeError::Truncated),
    ensures
        #[trigger] wire::take_str(b + tail) == grown(wire::take_str(b), tail),
{
    lemma_more_bytes(b, tail);
}

broadcast group group_more {
    lemma_more_u8,
    lemma_more_u16,
    lemma_more_u32,
    lemma_more_u64,
    lemma_more_i32,
    lemma_more_i64,
    lemma_more_uuid,
    lemma_more_uuid_opt,
    lemma_more_bytes,
    lemma_more_str,
}

broadcast proof fn lemma_more_point(b: Seq<u8>, tail: Seq<u8>)
    requires
        points::take_point(b, None) != Err::<(LatLng, Seq<u8>), _>(DecodeError::Truncated),
    ensures
        #[trigger] points::take_point(b + tail, None) == grown(points::take_point(b, None), tail),
{
    broadcast use group_more;

}

proof fn lemma_more_positions(b: Seq<u8>, n: nat, tail: Seq<u8>)
    requires
        points::take_positions(b, n) != Err::<(Seq<LatLng>, Seq<u8>), _>(DecodeError::Truncated),
    ensures
        points::take_positions(b + tail, n) == grown(points::take_positions(b, n), tail),
    decreases n,
{
    broadcast use group_more;

    if n > 0 {
        if let Ok((pos, rest)) = points::take_pos(b, None) {
            if points::on_globe(pos.0, pos.1) {
                lemma_more_positions(rest, (n - 1) as nat, tail);
            }
        }
    }
}

broadcast proof fn lemma_more_location(b: Seq<u8>, present: bool, tail: Seq<u8>)
    requires
        codec::take_location(b, present) != Err::<(Option<LatLng>, Seq<u8>), _>(
            DecodeError::Truncated,
        ),
    ensures
        #[trigger] codec::take_location(b + tail, present) == grown(
            codec::take_location(b, present),
            tail,
        ),
{
    broadcast use lemma_more_point;

}

broadcast proof fn lemma_more_time(b: Seq<u8>, present: bool, tail: Seq<u8>)
    requires
        points::take_time(b, present) is Ok,
    ensures
        #[trigger] points::take_time(b + tail, present) == grown(
            points::take_time(b, present),
            tail,
        ),
{
    broadcast use group_more;

}

broadcast proof fn lemma_more_route(b: Seq<u8>, present: bool, tail: Seq<u8>)
    requires
        codec::take_route_opt(b, present) != Err::<(Seq<LatLng>, Seq<u8>), _>(
            DecodeError::Truncated,
        ),
    ensures
        #[trigger] codec::take_route_opt(b + tail, present) == grown(
            codec::take_route_opt(b, present),
            tail,
        ),
{
    broadcast use group_more;

    if present {
        let (n, rest) = wire::take_u16(b)->Ok_0;
        lemma_more_positions(rest, n as nat, tail);
    }
}

broadcast proof fn lemma_more_subject(b: Seq<u8>, tail: Seq<u8>)
    requires
        codec::take_subject(b) != Err::<((u8, Seq<char>, Seq<char>, bool, u8), Seq<u8>), _>(
            DecodeError::Truncated,
        ),
    ensures
        #[trigger] codec::take_subject(b + tail) == grown(codec::take_subject(b), tail),
{
    broadcast use group_more;

    reveal(codec::take_subject);
}

broadcast proof fn lemma_more_live(b: Seq<u8>, flags: u8, tail: Seq<u8>)
    requires
        codec::take_live(b, flags) != Err::<
            ((Option<LatLng>, Option<i64>, Seq<LatLng>), Seq<u8>),
            _,
        >(DecodeError::Truncated),
    ensures
        #[trigger] codec::take_live(b + tail, flags) == grown(codec::take_live(b, flags), tail),
{
    broadcast use {lemma_more_location, lemma_more_time, lemma_more_route};

    reveal(codec::take_live);
}

broadcast proof fn lemma_more_estimates(b: Seq<u8>, tail: Seq<u8>)
    requires
        codec::take_estimates(b) != Err::<((u64, u64, Seq<char>, Seq<char>, Seq<u8>), Seq<u8>), _>(
            DecodeError::Truncated,
        ),
    ensures
        #[trigger] codec::take_estimates(b + tail) == grown(codec::take_estimates(b), tail),
{
    broadcast use group_more;

    reveal(codec::take_estimates);
}

broadcast group group_more_parts {
    lemma_more_subject,
    lemma_more_live,
    lemma_more_estimates,
}

proof fn lemma_more_server_loc(b: Seq<u8>, tail: Seq<u8>)
    requires
        codec::parse_server_loc(b) != Err::<ServerEvtView, _>(DecodeError::Truncated),
    ensures
        codec::parse_server_loc(b + tail) == codec::parse_server_loc(b),
{
    broadcast use {group_more, lemma_more_point};

}

proof fn lemma_more_subscribed(b: Seq<u8>, tail: Seq<u8>)
    requires
        codec::parse_subscribed(b) != Err::<ServerEvtView, _>(DecodeError::Truncated),
    ensures
        codec::parse_subscribed(b + tail) == codec::parse_subscribed(b),
{
    broadcast use group_more_parts;

}

proof fn lemma_more_error(b: Seq<u8>, tail: Seq<u8>)
    requires
        codec::parse_error(b) != Err::<ServerEvtView, _>(DecodeError::Truncated),
    ensures
        codec::parse_error(b + tail) == codec::parse_error(b),
{
    broadcast use group_more;

}

/// A body that was read, or refused for more than its length, stays so with more bytes behind it.
proof fn lemma_more_body(t: u8, b: Seq<u8>, tail: Seq<u8>)
    requires
        codec::parse_server_body(t, b) != Err::<ServerEvtView, _>(DecodeError::Truncated),
    ensures
        codec::parse_server_body(t, b + tail) == codec::parse_server_body(t, b),
{
    broadcast use group_more;

    if t == codec::S_LOC {
        lemma_more_server_loc(b, tail);
    } else if t == codec::S_SUBSCRIBED {
        lemma_more_subscribed(b, tail);
    } else if t == codec::S_ERROR {
        lemma_more_error(b, tail);
    }
}

/// Bytes behind a server frame are ignored: what was read of a frame, or refused for another
/// reason than its length, comes out the same with more bytes behind it.
pub proof fn law_bytes_behind_a_server_frame_are_ignored(b: Seq<u8>, tail: Seq<u8>)
    requires
        codec::parse_server(b) != Err::<Option<ServerEvtView>, _>(DecodeError::Truncated),
    ensures
        codec::parse_server(b + tail) == codec::parse_server(b),
{
    lemma_skip(b, tail, 1);
    assert((b + tail)[0] == b[0]);
    if codec::S_HELLO <= b[0] <= codec::S_PRESENCE {
        lemma_more_body(b[0], b.skip(1), tail);
    }
}

// ---------------------------------------------------------------------------------------------
// A written field is read to its last byte, whatever it holds.
// ---------------------------------------------------------------------------------------------

/// Whether a reader that succeeded left exactly `rest`.
pub open spec fn leaves<V>(t: Taken<V>, rest: Seq<u8>) -> bool {
    t matches Ok((v, left)) ==> left == rest
}

/// Fields of a fixed size.
proof fn lemma_fixed(n: int, rest: Seq<u8>)
    ensures
        leaves(wire::take_u16(wire::le16(n) + rest), rest),
        leaves(wire::take_u32(wire::le32(n) + rest), rest),
        leaves(wire::take_u64(wire::le64(n) + rest), rest),
        leaves(wire::take_i64(wire::le64(n) + rest), rest),
{
    wire::lemma_le32_len(n);
    wire::lemma_le64_len(n);
    assert((wire::le16(n) + rest).skip(2) =~= rest);
    assert((wire::le32(n) + rest).skip(4) =~= rest);
    assert((wire::le64(n) + rest).skip(8) =~= rest);
}

proof fn lemma_id(id: Seq<char>, rest: Seq<u8>)
    ensures
        leaves(wire::take_uuid(uuids::uid_octets(id) + rest), rest),
        leaves(wire::take_uuid_opt(uuids::uid_octets(id) + rest), rest),
{
    uuids::lemma_uid_octets_len(id);
    assert((uuids::uid_octets(id) + rest).skip(16) =~= rest);
}

proof fn lemma_counted(v: Seq<u8>, rest: Seq<u8>)
    ensures
        leaves(wire::take_bytes(wire::counted(v) + rest), rest),
{
    let c = wire::capped(v);
    assert(wire::capped(c) == c);
    wire::lemma_take_bytes(c, rest);
}

proof fn lemma_text(s: Seq<char>, rest: Seq<u8>)
    ensures
        leaves(wire::take_str(wire::counted_text(s) + rest), rest),
{
    lemma_counted(encode_utf8(s), rest);
}

/// A field is itself with nothing behind it.
proof fn lemma_last(a: Seq<u8>)
    ensures
        a + Seq::<u8>::empty() == a,
{
    assert(a + Seq::<u8>::empty() =~= a);
}

proof fn lemma_point(p: LatLng, rest: Seq<u8>)
    ensures
        leaves(points::take_point(points::point_bytes(p, None) + rest, None), rest),
{
    if points::on_globe(p.latitude as int, p.longitude as int) {
        points::law_point_round_trip(p, None, rest);
    } else {
        points::lemma_off_globe(p, rest);
    }
}

proof fn lemma_location(p: Option<LatLng>, rest: Seq<u8>)
    ensures
        leaves(
            codec::take_location(
                (match p {
                    Some(p) => points::point_bytes(p, None),
                    None => Seq::empty(),
                }) + rest,
                p is Some,
            ),
            rest,
        ),
{
    match p {
        Some(p) => lemma_point(p, rest),
        None => wire::lemma_append_to_empty(rest),
    }
}

/// Each position of a route takes eight bytes.
proof fn lemma_positions_len(route: Seq<LatLng>)
    ensures
        points::positions(route).len() == 8 * route.len(),
    decreases route.len(),
{
    if route.len() > 0 {
        wire::lemma_le32_len(route[0].latitude as int);
        wire::lemma_le32_len(route[0].longitude as int);
        lemma_positions_len(route.skip(1));
    }
}

proof fn lemma_positions_left(b: Seq<u8>, n: nat)
    ensures
        points::take_positions(b, n) matches Ok((v, rest)) ==> 8 * n <= b.len() && rest == b.skip(
            8 * n as int,
        ),
    decreases n,
{
    if n == 0 {
        assert(b.skip(0) =~= b);
    } else if let Ok((pos, rest)) = points::take_pos(b, None) {
        lemma_positions_left(rest, (n - 1) as nat);
        assert(rest =~= b.skip(8));
        if 8 * n <= b.len() {
            assert(rest.skip(8 * (n - 1)) =~= b.skip(8 * n as int));
        }
    }
}

proof fn lemma_route(route: Seq<LatLng>, rest: Seq<u8>)
    ensures
        leaves(
            codec::take_route_opt(
                (if route.len() > 0 {
                    points::route_bytes(route)
                } else {
                    Seq::empty()
                }) + rest,
                route.len() > 0,
            ),
            rest,
        ),
{
    if route.len() > 0 {
        let head = points::route_head(route);
        let way = points::positions(head);
        wire::lemma_append(wire::le16(head.len() as int), way, rest);
        wire::lemma_take_u16(head.len() as u16, way + rest);
        lemma_positions_len(head);
        lemma_positions_left(way + rest, head.len());
        assert((way + rest).skip(way.len() as int) =~= rest);
    } else {
        wire::lemma_append_to_empty(rest);
    }
}

/// The live part is read to its last byte if its parts are.
proof fn lemma_live_parts(
    loc: Seq<u8>,
    time: Seq<u8>,
    way: Seq<u8>,
    flags: u8,
    rest: Seq<u8>,
)
    requires
        leaves(
            codec::take_location(loc + (time + (way + rest)), points::flagged(flags, 1)),
            time + (way + rest),
        ),
        leaves(points::take_time(time + (way + rest), points::flagged(flags, 2)), way + rest),
        leaves(codec::take_route_opt(way + rest, points::flagged(flags, 4)), rest),
    ensures
        leaves(codec::take_live((loc + (time + way)) + rest, flags), rest),
{
    reveal(codec::take_live);
    wire::lemma_append(loc, time + way, rest);
    wire::lemma_append(time, way, rest);
}

proof fn lemma_live(
    last_location: Option<LatLng>,
    last_seen_ms: Option<i64>,
    route: Seq<LatLng>,
    rest: Seq<u8>,
)
    ensures
        leaves(
            codec::take_live(
                codec::live_bytes(last_location, last_seen_ms, route) + rest,
                codec::live_flags(last_location, last_seen_ms, route),
            ),
            rest,
        ),
{
    let loc = match last_location {
        Some(p) => points::point_bytes(p, None),
        None => Seq::empty(),
    };
    let time = match last_seen_ms {
        Some(t) => wire::le64(t as int),
        None => Seq::empty(),
    };
    let way = if route.len() > 0 {
        points::route_bytes(route)
    } else {
        Seq::empty()
    };
    lemma_location(last_location, time + (way + rest));
    points::lemma_take_time(last_seen_ms, way + rest);
    lemma_route(route, rest);
    let flags = codec::live_flags(last_location, last_seen_ms, route);
    codec_laws::lemma_live_flags(last_location, last_seen_ms, route);
    lemma_live_parts(loc, time, way, flags, rest);
}

proof fn lemma_estimates(
    distance: u64,
    duration: u64,
    start: Seq<char>,
    end: Seq<char>,
    metadata: Seq<u8>,
)
    ensures
        leaves(
            codec::take_estimates(
                codec::estimates_bytes(distance, duration, start, end, metadata),
            ),
            Seq::empty(),
        ),
{
    let m = wire::counted(metadata);
    let e = wire::counted_text(end) + m;
    let s = wire::counted_text(start) + e;
    lemma_fixed(distance as int, wire::le64(duration as int) + s);
    lemma_fixed(duration as int, s);
    lemma_text(start, e);
    lemma_text(end, m);
    lemma_counted(metadata, Seq::empty());
    lemma_last(m);
    reveal(codec::take_estimates);
}

/// Whom a subscription is about takes 35 bytes, the last of them the flags.
proof fn lemma_subject(b: Seq<u8>)
    ensures
        codec::take_subject(b) matches Ok((subject, rest)) ==> b.len() >= 35 && rest == b.skip(35)
            && subject.4 == b[34],
{
    reveal(codec::take_subject);
    if b.len() >= 35 {
        assert(b.skip(1).skip(16).skip(16).skip(1).skip(1) =~= b.skip(35));
    }
}

// ---------------------------------------------------------------------------------------------
// A body that lost bytes at its end does not read.
// ---------------------------------------------------------------------------------------------

proof fn lemma_cut_hello(version: u8, node_id: Seq<char>, shard: u32, c: Seq<u8>, tail: Seq<u8>)
    requires
        tail.len() > 0,
        c + tail == seq![version] + (wire::le16(shard as int) + uuids::uid_octets(node_id)),
    ensures
        codec::parse_hello(c) is Err,
{
    uuids::lemma_uid_octets_len(node_id);
    assert((c + tail).len() == 19);
}

proof fn lemma_cut_relocate(endpoint: Seq<char>, retry_after_ms: u32, c: Seq<u8>, tail: Seq<u8>)
    requires
        tail.len() > 0,
        c + tail == wire::le32(retry_after_ms as int) + wire::counted_text(endpoint),
    ensures
        codec::parse_relocate(c) is Err,
{
    broadcast use group_more;

    let e = wire::counted_text(endpoint);
    lemma_fixed(retry_after_ms as int, e);
    lemma_text(endpoint, Seq::empty());
    lemma_last(e);
}

proof fn lemma_cut_resume_ok(track_uid: Seq<char>, seq: u64, c: Seq<u8>, tail: Seq<u8>)
    requires
        tail.len() > 0,
        c + tail == uuids::uid_octets(track_uid) + wire::le32(seq as int),
    ensures
        codec::parse_resume_ok(c) is Err,
{
    uuids::lemma_uid_octets_len(track_uid);
    wire::lemma_le32_len(seq as int);
    assert((c + tail).len() == 20);
}

proof fn lemma_cut_track_started(
    track_uid: Seq<char>,
    metadata: Seq<u8>,
    c: Seq<u8>,
    tail: Seq<u8>,
)
    requires
        tail.len() > 0,
        c + tail == uuids::uid_octets(track_uid) + wire::counted(metadata),
    ensures
        codec::parse_track_started(c) is Err,
{
    broadcast use group_more;

    let m = wire::counted(metadata);
    lemma_id(track_uid, m);
    lemma_counted(metadata, Seq::empty());
    lemma_last(m);
}

proof fn lemma_cut_server_loc(point: LatLng, seq: u64, sub: u8, c: Seq<u8>, tail: Seq<u8>)
    requires
        tail.len() > 0,
        c + tail == seq![sub] + (wire::le32(seq as int) + points::point_bytes(point, None)),
    ensures
        codec::parse_server_loc(c) is Err,
{
    broadcast use {group_more, lemma_more_point};

    let p = points::point_bytes(point, None);
    wire::lemma_take_u8(sub, wire::le32(seq as int) + p);
    lemma_fixed(seq as int, p);
    lemma_point(point, Seq::empty());
    lemma_last(p);
}

/// The part in front of the flags takes 34 bytes behind the type.
proof fn lemma_subscribed_split(front: Seq<u8>, flags: u8, behind: Seq<u8>)
    requires
        front.len() == 34,
    ensures
        (front + (seq![flags] + behind)).skip(35) == behind,
        (front + (seq![flags] + behind))[34] == flags,
        (front + (seq![flags] + behind)).len() == 35 + behind.len(),
{
    assert((front + (seq![flags] + behind)).skip(35) =~= behind);
}

proof fn lemma_cut_subscribed(
    front: Seq<u8>,
    last_location: Option<LatLng>,
    last_seen_ms: Option<i64>,
    route: Seq<LatLng>,
    est: Seq<u8>,
    c: Seq<u8>,
    tail: Seq<u8>,
)
    requires
        tail.len() > 0,
        front.len() == 34,
        leaves(codec::take_estimates(est), Seq::empty()),
        c + tail == front + (seq![codec::live_flags(last_location, last_seen_ms, route)] + (
        codec::live_bytes(last_location, last_seen_ms, route) + est)),
    ensures
        codec::parse_subscribed(c) is Err,
{
    broadcast use group_more_parts;

    let flags = codec::live_flags(last_location, last_seen_ms, route);
    lemma_subscribed_split(
        front,
        flags,
        codec::live_bytes(last_location, last_seen_ms, route) + est,
    );
    lemma_subject(c + tail);
    lemma_live(last_location, last_seen_ms, route, est);
}

proof fn lemma_cut_error(
    code: ErrorCode,
    retry: int,
    track_uid: Seq<char>,
    message: Seq<char>,
    c: Seq<u8>,
    tail: Seq<u8>,
)
    requires
        tail.len() > 0,
        c + tail == seq![code.byte()] + (wire::le32(retry) + (uuids::uid_octets(track_uid)
            + wire::counted_text(message))),
    ensures
        codec::parse_error(c) is Err,
{
    broadcast use group_more;

    let m = wire::counted_text(message);
    let u = uuids::uid_octets(track_uid) + m;
    wire::lemma_take_u8(code.byte(), wire::le32(retry) + u);
    lemma_fixed(retry, u);
    lemma_id(track_uid, m);
    lemma_text(message, Seq::empty());
    lemma_last(m);
}

proof fn lemma_cut_event_added(payload: Seq<u8>, t: int, sub: u8, c: Seq<u8>, tail: Seq<u8>)
    requires
        tail.len() > 0,
        c + tail == seq![sub] + (wire::counted(payload) + wire::le64(t)),
    ensures
        codec::parse_event_added(c) is Err,
{
    broadcast use group_more;

    let n = wire::le64(t);
    wire::lemma_take_u8(sub, wire::counted(payload) + n);
    lemma_counted(payload, n);
    lemma_fixed(t, Seq::empty());
    lemma_last(n);
}

proof fn lemma_cut_command(
    command_id: Seq<char>,
    payload: Seq<u8>,
    t: int,
    c: Seq<u8>,
    tail: Seq<u8>,
)
    requires
        tail.len() > 0,
        c + tail == uuids::uid_octets(command_id) + (wire::counted(payload) + wire::le64(t)),
    ensures
        codec::parse_command(c) is Err,
{
    broadcast use group_more;

    let n = wire::le64(t);
    lemma_id(command_id, wire::counted(payload) + n);
    lemma_counted(payload, n);
    lemma_fixed(t, Seq::empty());
    lemma_last(n);
}

proof fn lemma_cut_presence(online: u8, t: int, sub: u8, c: Seq<u8>, tail: Seq<u8>)
    requires
        tail.len() > 0,
        c + tail == seq![sub] + (seq![online] + wire::le64(t)),
    ensures
        codec::parse_presence(c) is Err,
{
    wire::lemma_le64_len(t);
    assert((c + tail).len() == 10);
}

/// The body of an event's frame does not read once it lost bytes at its end.
#[verifier::spinoff_prover]
#[verifier::rlimit(30)]
proof fn lemma_cut_body(evt: ServerEvtView, c: Seq<u8>, tail: Seq<u8>)
    requires
        tail.len() > 0,
        codec::server_frame(evt).skip(1) == c + tail,
    ensures
        codec::parse_server_body(codec::server_frame(evt)[0], c) is Err,
{
    let frame = codec::server_frame(evt);
    match evt {
        ServerEvtView::Hello { version, node_id, shard } => {
            let body = seq![version] + (wire::le16(shard as int) + uuids::uid_octets(node_id));
            assert(frame.skip(1) =~= body);
            lemma_cut_hello(version, node_id, shard, c, tail);
        },
        ServerEvtView::Relocate { endpoint, retry_after_ms } => {
            let body = wire::le32(retry_after_ms as int) + wire::counted_text(endpoint);
            assert(frame.skip(1) =~= body);
            lemma_cut_relocate(endpoint, retry_after_ms, c, tail);
        },
        ServerEvtView::ResumeOk { track_uid, last_acked_seq } => {
            let body = uuids::uid_octets(track_uid) + wire::le32(last_acked_seq as int);
            assert(frame.skip(1) =~= body);
            lemma_cut_resume_ok(track_uid, last_acked_seq, c, tail);
        },
        ServerEvtView::TrackStarted { track_uid, metadata } => {
            let body = uuids::uid_octets(track_uid) + wire::counted(metadata);
            assert(frame.skip(1) =~= body);
            lemma_cut_track_started(track_uid, metadata, c, tail);
        },
        ServerEvtView::TrackStopped { track_uid } => {
            assert(frame.skip(1) =~= uuids::uid_octets(track_uid));
            uuids::lemma_uid_octets_len(track_uid);
            assert((c + tail).len() == 16);
        },
        ServerEvtView::Ack { seq } => {
            assert(frame.skip(1) =~= wire::le32(seq as int));
            wire::lemma_le32_len(seq as int);
            assert((c + tail).len() == 4);
        },
        ServerEvtView::LocationAdded { point, client_seq, sub, .. } => {
            let body = seq![sub] + (wire::le32(client_seq as int) + points::point_bytes(
                point,
                None,
            ));
            assert(frame.skip(1) =~= body);
            lemma_cut_server_loc(point, client_seq, sub, c, tail);
        },
        ServerEvtView::Subscribed {
            sub,
            device_uid,
            track_uid,
            last_location,
            route,
            estimated_distance,
            estimated_duration,
            start_location_name,
            end_location_name,
            metadata,
            online,
            last_seen_ms,
        } => {
            let front = seq![sub] + (uuids::uid_octets(device_uid) + (uuids::uid_octets(track_uid)
                + (seq![wire::bit(online)])));
            let est = codec::estimates_bytes(
                estimated_distance,
                estimated_duration,
                start_location_name,
                end_location_name,
                metadata,
            );
            let behind = seq![codec::live_flags(last_location, last_seen_ms, route)] + (
            codec::live_bytes(last_location, last_seen_ms, route) + est);
            uuids::lemma_uid_octets_len(device_uid);
            uuids::lemma_uid_octets_len(track_uid);
            assert(frame.skip(1) =~= front + behind);
            lemma_estimates(
                estimated_distance,
                estimated_duration,
                start_location_name,
                end_location_name,
                metadata,
            );
            lemma_cut_subscribed(front, last_location, last_seen_ms, route, est, c, tail);
        },
        ServerEvtView::Error { code, message, track_uid, retry_after_ms } => {
            let retry = match retry_after_ms {
                Some(ms) => ms as int,
                None => 0,
            };
            let id = codec::none_as_empty(track_uid);
            let body = seq![code.byte()] + (wire::le32(retry) + (uuids::uid_octets(id)
                + wire::counted_text(message)));
            assert(frame.skip(1) =~= body);
            lemma_cut_error(code, retry, id, message, c, tail);
        },
        ServerEvtView::EventAdded { payload, timestamp_ms, sub, .. } => {
            let t = codec::none_as_zero(timestamp_ms);
            let body = seq![sub] + (wire::counted(payload) + wire::le64(t));
            assert(frame.skip(1) =~= body);
            lemma_cut_event_added(payload, t, sub, c, tail);
        },
        ServerEvtView::Command { command_id, payload, timestamp_ms } => {
            let t = codec::none_as_zero(timestamp_ms);
            let body = uuids::uid_octets(command_id) + (wire::counted(payload) + wire::le64(t));
            assert(frame.skip(1) =~= body);
            lemma_cut_command(command_id, payload, t, c, tail);
        },
        ServerEvtView::DevicePresence { online, last_seen_ms, sub, .. } => {
            let t = codec::none_as_zero(last_seen_ms);
            let o = wire::bit(online);
            assert(frame.skip(1) =~= seq![sub] + (seq![o] + wire::le64(t)));
            lemma_cut_presence(o, t, sub, c, tail);
        },
    }
}

/// A server frame that reads back is needed to its last byte and no further: cut short anywhere
/// it is truncated, and with any bytes behind it it reads the same.
pub proof fn law_server_frame_is_needed_whole(
    evt: ServerEvtView,
    v: ServerEvtView,
    k: int,
    tail: Seq<u8>,
)
    requires
        codec::parse_server(codec::server_frame(evt)) == Ok::<_, DecodeError>(Some(v)),
    ensures
        0 <= k < codec::server_frame(evt).len() ==> codec::parse_server(
            codec::server_frame(evt).take(k),
        ) == Err::<Option<ServerEvtView>, _>(DecodeError::Truncated),
        codec::parse_server(codec::server_frame(evt) + tail) == Ok::<_, DecodeError>(Some(v)),
{
    let frame = codec::server_frame(evt);
    law_bytes_behind_a_server_frame_are_ignored(frame, tail);
    if 0 < k < frame.len() {
        let cut = frame.take(k);
        let lost = frame.skip(k);
        assert(cut + lost =~= frame);
        assert(frame.skip(1) =~= cut.skip(1) + lost);
        assert(cut[0] == frame[0]);
        lemma_cut_body(evt, cut.skip(1), lost);
        if codec::parse_server(cut) != Err::<Option<ServerEvtView>, _>(DecodeError::Truncated) {
            law_bytes_behind_a_server_frame_are_ignored(cut, lost);
        }
    }
}

} // verus!
