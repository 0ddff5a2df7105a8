//! What the codec gives back: a frame reads as the message it was made from.

use crate::tracking::cmd::{ClientCmdView, ServerEvtView};
use crate::tracking::codec;
use crate::tracking::points;
use crate::tracking::types::{CommandAckStatus, ErrorCode, LatLng};
use crate::tracking::uuids;
use crate::tracking::wire;
use crate::tracking::wire::DecodeError;
use vstd::prelude::*;
use vstd::utf8::*;

verus! {

/// Whether the wire carries the whole of a point.
pub open spec fn carries_point(p: LatLng) -> bool {
    &&& points::on_globe(p.latitude as int, p.longitude as int)
    &&& p == p.wire()
}

/// Whether the wire carries the whole of a route.
pub open spec fn carries_route(route: Seq<LatLng>) -> bool {
    &&& route.len() <= points::MAX_ROUTE_POINTS
    &&& points::all_on_globe(route)
    &&& route == points::bare_points(route)
}

pub open spec fn carries_text(s: Seq<char>) -> bool {
    encode_utf8(s).len() <= wire::MAX_STRING
}

/// An identifier, or none where it is empty.
pub open spec fn carries_opt_id(s: Seq<char>) -> bool {
    s.len() == 0 || (uuids::is_canonical(s) && uuids::uid_octets(s) != uuids::nil())
}

/// Whether the wire carries the whole of a command.
pub open spec fn carries_cmd(cmd: ClientCmdView) -> bool {
    match cmd {
        ClientCmdView::Resume { track_uid, last_client_seq } => uuids::is_canonical(track_uid)
            && last_client_seq <= u32::MAX,
        ClientCmdView::TrackStart { location, route, metadata } => {
            &&& location is Some ==> carries_point(location->0)
            &&& carries_route(route)
            &&& metadata.len() <= wire::MAX_STRING
        },
        ClientCmdView::TrackStop { track_uid } => track_uid.len() == 0,
        ClientCmdView::LocationAdd { track_uid, client_seq, point } => {
            &&& track_uid.len() == 0
            &&& client_seq <= u32::MAX
            &&& carries_point(point)
        },
        ClientCmdView::LocationBatch { track_uid, client_seq, points } => {
            &&& track_uid.len() == 0
            &&& client_seq <= u32::MAX
            &&& 2 <= points.len() <= points::MAX_LOC_POINTS
            &&& points::chainable(points)
            &&& forall|i: int| 0 <= i < points.len() ==> carries_point(#[trigger] points[i])
        },
        ClientCmdView::Subscribe { device_uid, include_events, min_location_interval_ms } => {
            &&& uuids::is_canonical(device_uid)
            &&& min_location_interval_ms <= u16::MAX
        },
        ClientCmdView::Unsubscribe { sub } => true,
        ClientCmdView::Event { track_uid, payload, timestamp_ms } => {
            &&& track_uid.len() == 0
            &&& payload.len() <= wire::MAX_STRING
            &&& timestamp_ms != Some(0i64)
        },
        ClientCmdView::CommandAck { command_id, status, message } => {
            &&& uuids::is_canonical(command_id)
            &&& message is Some ==> message->0.len() > 0 && carries_text(message->0)
        },
    }
}

/// Whether the wire carries the whole of an event.
pub open spec fn carries_evt(evt: ServerEvtView) -> bool {
    match evt {
        ServerEvtView::Hello { version, node_id, shard } => uuids::is_canonical(node_id) && shard
            <= u16::MAX,
        ServerEvtView::Relocate { endpoint, retry_after_ms } => carries_text(endpoint),
        ServerEvtView::ResumeOk { track_uid, last_acked_seq } => uuids::is_canonical(track_uid)
            && last_acked_seq <= u32::MAX,
        ServerEvtView::TrackStarted { track_uid, metadata } => uuids::is_canonical(track_uid)
            && metadata.len() <= wire::MAX_STRING,
        ServerEvtView::TrackStopped { track_uid } => uuids::is_canonical(track_uid),
        ServerEvtView::Ack { seq } => seq <= u32::MAX,
        ServerEvtView::LocationAdded { device_uid, track_uid, point, client_seq, sub } => {
            &&& device_uid.len() == 0
            &&& track_uid.len() == 0
            &&& carries_point(point)
            &&& client_seq <= u32::MAX
        },
        ServerEvtView::Subscribed {
            sub,
            device_uid,
            track_uid,
            last_location,
            route,
            estimated_distance,
            estimated_duration,
            start_location_name,
            end_location_name,
            metadata,
            online,
            last_seen_ms,
        } => {
            &&& uuids::is_canonical(device_uid)
            &&& carries_opt_id(track_uid)
            &&& last_location is Some ==> carries_point(last_location->0)
            &&& carries_route(route)
            &&& carries_text(start_location_name)
            &&& carries_text(end_location_name)
            &&& metadata.len() <= wire::MAX_STRING
        },
        ServerEvtView::Error { code, message, track_uid, retry_after_ms } => {
            &&& carries_text(message)
            &&& track_uid is Some ==> track_uid->0.len() > 0 && carries_opt_id(track_uid->0)
            &&& retry_after_ms != Some(0u32)
        },
        ServerEvtView::EventAdded { device_uid, track_uid, payload, timestamp_ms, sub } => {
            &&& device_uid.len() == 0
            &&& track_uid.len() == 0
            &&& payload.len() <= wire::MAX_STRING
            &&& timestamp_ms != Some(0i64)
        },
        ServerEvtView::Command { command_id, payload, timestamp_ms } => {
            &&& uuids::is_canonical(command_id)
            &&& payload.len() <= wire::MAX_STRING
            &&& timestamp_ms != Some(0i64)
        },
        ServerEvtView::DevicePresence { device_uid, online, last_seen_ms, sub } => {
            &&& device_uid.len() == 0
            &&& last_seen_ms != Some(0i64)
        },
    }
}

/// The type byte and the body of a frame with something behind it.
proof fn lemma_split(t: u8, body: Seq<u8>, tail: Seq<u8>)
    ensures
        ((seq![t] + body) + tail).len() > 0,
        ((seq![t] + body) + tail)[0] == t,
        ((seq![t] + body) + tail).skip(1) == body + tail,
{
    assert(((seq![t] + body) + tail).skip(1) =~= body + tail);
}

proof fn lemma_take_location(p: Option<LatLng>, rest: Seq<u8>)
    requires
        p is Some ==> carries_point(p->0),
    ensures
        codec::take_location(
            (match p {
                Some(p) => points::point_bytes(p, None),
                None => Seq::empty(),
            }) + rest,
            p is Some,
        ) == Ok::<_, DecodeError>((p, rest)),
{
    match p {
        Some(p) => points::law_point_round_trip(p, None, rest),
        None => assert(Seq::<u8>::empty() + rest =~= rest),
    }
}

proof fn lemma_resume(track_uid: Seq<char>, last_client_seq: u64, tail: Seq<u8>)
    requires
        carries_cmd(ClientCmdView::Resume { track_uid, last_client_seq }),
    ensures
        codec::parse_resume(
            (uuids::uid_octets(track_uid) + wire::le32(last_client_seq as int)) + tail,
        ) == Ok::<_, DecodeError>(ClientCmdView::Resume { track_uid, last_client_seq }),
{
    let id = uuids::uid_octets(track_uid);
    let n = wire::le32(last_client_seq as int);
    wire::lemma_append(id, n, tail);
    wire::lemma_take_uuid(track_uid, n + tail);
    wire::lemma_take_u32(last_client_seq as u32, tail);
}

proof fn lemma_track_start(
    location: Option<LatLng>,
    route: Seq<LatLng>,
    metadata: Seq<u8>,
    loc: Seq<u8>,
    tail: Seq<u8>,
)
    requires
        carries_cmd(ClientCmdView::TrackStart { location, route, metadata }),
        loc == (match location {
            Some(p) => points::point_bytes(p, None),
            None => Seq::empty(),
        }),
    ensures
        codec::parse_track_start(
            (seq![wire::bit(location is Some)] + (loc + (points::route_bytes(route)
                + wire::counted(metadata)))) + tail,
        ) == Ok::<_, DecodeError>(ClientCmdView::TrackStart { location, route, metadata }),
{
    let flag = wire::bit(location is Some);
    let r = points::route_bytes(route);
    let m = wire::counted(metadata);
    wire::lemma_append(r, m, tail);
    wire::lemma_append(loc, r + m, tail);
    wire::lemma_append(seq![flag], loc + (r + m), tail);
    wire::lemma_take_u8(flag, loc + (r + (m + tail)));
    assert(points::flagged(flag, 1) == (location is Some));
    lemma_take_location(location, r + (m + tail));
    points::law_route_round_trip(route, m + tail);
    wire::lemma_take_bytes(metadata, tail);
}

proof fn lemma_loc(seq: u64, points: Seq<LatLng>, tail: Seq<u8>)
    requires
        seq <= u32::MAX,
        1 <= points.len() <= points::MAX_LOC_POINTS,
        points::chainable(points),
        forall|i: int| 0 <= i < points.len() ==> carries_point(#[trigger] points[i]),
    ensures
        codec::parse_loc(
            (wire::le32(seq as int) + (seq![points.len() as u8] + points::chain_bytes(points, None)))
                + tail,
        ) == Ok::<_, DecodeError>(
            if points.len() == 1 {
                ClientCmdView::LocationAdd {
                    track_uid: Seq::empty(),
                    client_seq: seq,
                    point: points[0],
                }
            } else {
                ClientCmdView::LocationBatch { track_uid: Seq::empty(), client_seq: seq, points }
            },
        ),
{
    let n = wire::le32(seq as int);
    let c = points.len() as u8;
    let body = points::chain_bytes(points, None);
    wire::lemma_append(n, seq![c] + body, tail);
    wire::lemma_append(seq![c], body, tail);
    wire::lemma_take_u32(seq as u32, seq![c] + (body + tail));
    wire::lemma_take_u8(c, body + tail);
    assert(points::all_on_globe(points)) by {
        assert forall|i: int| 0 <= i < points.len() implies points::on_globe(
            (#[trigger] points[i]).latitude as int,
            points[i].longitude as int,
        ) by {
            assert(carries_point(points[i]));
        }
    }
    points::law_chain_round_trip(points, None, tail);
    assert(points::wire_points(points) =~= points) by {
        assert forall|i: int| 0 <= i < points.len() implies points::wire_points(points)[i]
            == points[i] by {
            assert(carries_point(points[i]));
        }
    }
}

/// Points that fit one frame are put in one frame.
proof fn lemma_one_frame(last_seq: int, points: Seq<LatLng>)
    requires
        1 <= points.len() <= points::MAX_LOC_POINTS,
        points::chainable(points),
    ensures
        points::loc_frames(last_seq, points).len() > 0,
        points::loc_frames(last_seq, points)[0] == points::loc_frame(last_seq, points),
{
    points::law_loc_frames_cover_points(last_seq, points);
    let frames = points::loc_frames_from(last_seq, points, 0);
    let ends = points::frame_ends(points, 0);
    let e = ends[0];
    assert(points::frame_is_run(last_seq, points, 0, e, frames[0]));
    if e < points.len() {
        assert(points::follows(points[e - 1], points[e]));
    }
    assert(points.subrange(0, e) =~= points);
}

proof fn lemma_subscribe(
    device_uid: Seq<char>,
    include_events: bool,
    min_location_interval_ms: u32,
    tail: Seq<u8>,
)
    requires
        uuids::is_canonical(device_uid),
        min_location_interval_ms <= u16::MAX,
    ensures
        codec::parse_subscribe(
            (uuids::uid_octets(device_uid) + (seq![wire::bit(include_events)] + wire::le16(
                min_location_interval_ms as int,
            ))) + tail,
        ) == Ok::<_, DecodeError>(
            ClientCmdView::Subscribe { device_uid, include_events, min_location_interval_ms },
        ),
{
    let id = uuids::uid_octets(device_uid);
    let flag = wire::bit(include_events);
    let n = wire::le16(min_location_interval_ms as int);
    wire::lemma_append(id, seq![flag] + n, tail);
    wire::lemma_append(seq![flag], n, tail);
    wire::lemma_take_uuid(device_uid, seq![flag] + (n + tail));
    wire::lemma_take_u8(flag, n + tail);
    wire::lemma_take_u16(min_location_interval_ms as u16, tail);
    assert(points::flagged(flag, 1) == include_events);
}

proof fn lemma_none_as_zero(t: Option<i64>)
    requires
        t != Some(0i64),
    ensures
        ({
            let v = codec::none_as_zero(t) as i64;
            &&& v as int == codec::none_as_zero(t)
            &&& codec::time_or_none(v) == t
        }),
{
}

proof fn lemma_event(payload: Seq<u8>, timestamp_ms: Option<i64>, tail: Seq<u8>)
    requires
        payload.len() <= wire::MAX_STRING,
        timestamp_ms != Some(0i64),
    ensures
        codec::parse_event(
            (wire::counted(payload) + wire::le64(codec::none_as_zero(timestamp_ms))) + tail,
        ) == Ok::<_, DecodeError>(
            ClientCmdView::Event { track_uid: Seq::empty(), payload, timestamp_ms },
        ),
{
    let t = codec::none_as_zero(timestamp_ms) as i64;
    lemma_none_as_zero(timestamp_ms);
    wire::lemma_append(wire::counted(payload), wire::le64(t as int), tail);
    wire::lemma_take_bytes(payload, wire::le64(t as int) + tail);
    wire::lemma_take_i64(t, tail);
}

proof fn lemma_empty_text()
    ensures
        carries_text(Seq::empty()),
{
    reveal_with_fuel(encode_utf8, 2);
}

proof fn lemma_command_ack(
    command_id: Seq<char>,
    status: CommandAckStatus,
    message: Option<Seq<char>>,
    tail: Seq<u8>,
)
    requires
        carries_cmd(ClientCmdView::CommandAck { command_id, status, message }),
    ensures
        codec::parse_command_ack(
            (uuids::uid_octets(command_id) + (seq![status.byte()] + wire::counted_text(
                codec::none_as_empty(message),
            ))) + tail,
        ) == Ok::<_, DecodeError>(ClientCmdView::CommandAck { command_id, status, message }),
{
    let id = uuids::uid_octets(command_id);
    let s = status.byte();
    let text = codec::none_as_empty(message);
    let m = wire::counted_text(text);
    lemma_empty_text();
    wire::lemma_append(id, seq![s] + m, tail);
    wire::lemma_append(seq![s], m, tail);
    wire::lemma_take_uuid(command_id, seq![s] + (m + tail));
    wire::lemma_take_u8(s, m + tail);
    wire::lemma_take_str(text, tail);
}

/// A client frame reads as the command it was made from, whatever stands behind it.
#[verifier::spinoff_prover]
#[verifier::rlimit(40)]
pub proof fn law_client_frame_round_trip(cmd: ClientCmdView, tail: Seq<u8>)
    requires
        carries_cmd(cmd),
    ensures
        codec::parse_client(codec::client_frame(cmd) + tail) == Ok::<_, DecodeError>(
            codec::ClientDecodeView::Cmd(cmd),
        ),
        codec::parse_client_cmd(codec::client_frame(cmd) + tail) == Ok::<_, DecodeError>(cmd),
{
    match cmd {
        ClientCmdView::Resume { track_uid, last_client_seq } => {
            let body = uuids::uid_octets(track_uid) + wire::le32(last_client_seq as int);
            lemma_split(codec::C_RESUME, body, tail);
            lemma_resume(track_uid, last_client_seq, tail);
        },
        ClientCmdView::TrackStart { location, route, metadata } => {
            let loc = match location {
                Some(p) => points::point_bytes(p, None),
                None => Seq::empty(),
            };
            let body = seq![wire::bit(location is Some)] + (loc + (points::route_bytes(route)
                + wire::counted(metadata)));
            lemma_split(codec::C_TRACK_START, body, tail);
            lemma_track_start(location, route, metadata, loc, tail);
        },
        ClientCmdView::TrackStop { track_uid } => {
            assert(seq![codec::C_TRACK_STOP] + Seq::<u8>::empty() =~= seq![codec::C_TRACK_STOP]);
            lemma_split(codec::C_TRACK_STOP, Seq::empty(), tail);
            assert(track_uid =~= Seq::empty());
        },
        ClientCmdView::LocationAdd { track_uid, client_seq, point } => {
            let one = seq![point];
            let body = wire::le32(client_seq as int) + (seq![one.len() as u8]
                + points::chain_bytes(one, None));
            lemma_split(points::C_LOC, body, tail);
            lemma_loc(client_seq, one, tail);
            assert(track_uid =~= Seq::empty());
        },
        ClientCmdView::LocationBatch { track_uid, client_seq, points } => {
            let body = wire::le32(client_seq as int) + (seq![points.len() as u8]
                + points::chain_bytes(points, None));
            lemma_one_frame(client_seq as int, points);
            lemma_split(points::C_LOC, body, tail);
            lemma_loc(client_seq, points, tail);
            assert(track_uid =~= Seq::empty());
        },
        ClientCmdView::Subscribe { device_uid, include_events, min_location_interval_ms } => {
            let body = uuids::uid_octets(device_uid) + (seq![wire::bit(include_events)]
                + wire::le16(min_location_interval_ms as int));
            lemma_split(codec::C_SUBSCRIBE, body, tail);
            lemma_subscribe(device_uid, include_events, min_location_interval_ms, tail);
        },
        ClientCmdView::Unsubscribe { sub } => {
            lemma_split(codec::C_UNSUBSCRIBE, seq![sub], tail);
            wire::lemma_take_u8(sub, tail);
        },
        ClientCmdView::Event { track_uid, payload, timestamp_ms } => {
            let body = wire::counted(payload) + wire::le64(codec::none_as_zero(timestamp_ms));
            lemma_split(codec::C_EVENT, body, tail);
            lemma_event(payload, timestamp_ms, tail);
            assert(track_uid =~= Seq::empty());
        },
        ClientCmdView::CommandAck { command_id, status, message } => {
            let body = uuids::uid_octets(command_id) + (seq![status.byte()] + wire::counted_text(
                codec::none_as_empty(message),
            ));
            lemma_split(codec::C_COMMAND_ACK, body, tail);
            lemma_command_ack(command_id, status, message, tail);
        },
    }
}

proof fn lemma_take_opt_id(s: Seq<char>, rest: Seq<u8>)
    requires
        carries_opt_id(s),
    ensures
        wire::take_uuid_opt(uuids::uid_octets(s) + rest) == Ok::<_, DecodeError>(
            (codec::text_or_none(s), rest),
        ),
        codec::none_as_empty(codec::text_or_none(s)) == s,
{
    let b = uuids::uid_octets(s);
    uuids::lemma_uid_octets_len(s);
    assert((b + rest).take(16) =~= b);
    assert((b + rest).skip(16) =~= rest);
    if s.len() == 0 {
        assert(s =~= Seq::empty());
    } else {
        let raw = choose|raw: Seq<u8>| raw.len() == 16 && s == #[trigger] uuids::format_uuid(raw);
        uuids::law_uuid_text_round_trip(raw);
    }
}

proof fn lemma_hello(version: u8, node_id: Seq<char>, shard: u32, tail: Seq<u8>)
    requires
        uuids::is_canonical(node_id),
        shard <= u16::MAX,
    ensures
        codec::parse_hello(
            (seq![version] + (wire::le16(shard as int) + uuids::uid_octets(node_id))) + tail,
        ) == Ok::<_, DecodeError>(ServerEvtView::Hello { version, node_id, shard }),
{
    let n = wire::le16(shard as int);
    let id = uuids::uid_octets(node_id);
    wire::lemma_append(seq![version], n + id, tail);
    wire::lemma_append(n, id, tail);
    wire::lemma_take_u8(version, n + (id + tail));
    wire::lemma_take_u16(shard as u16, id + tail);
    wire::lemma_take_uuid(node_id, tail);
}

proof fn lemma_relocate(endpoint: Seq<char>, retry_after_ms: u32, tail: Seq<u8>)
    requires
        carries_text(endpoint),
    ensures
        codec::parse_relocate(
            (wire::le32(retry_after_ms as int) + wire::counted_text(endpoint)) + tail,
        ) == Ok::<_, DecodeError>(ServerEvtView::Relocate { endpoint, retry_after_ms }),
{
    let n = wire::le32(retry_after_ms as int);
    let t = wire::counted_text(endpoint);
    wire::lemma_append(n, t, tail);
    wire::lemma_take_u32(retry_after_ms, t + tail);
    wire::lemma_take_str(endpoint, tail);
}

proof fn lemma_resume_ok(track_uid: Seq<char>, last_acked_seq: u64, tail: Seq<u8>)
    requires
        uuids::is_canonical(track_uid),
        last_acked_seq <= u32::MAX,
    ensures
        codec::parse_resume_ok(
            (uuids::uid_octets(track_uid) + wire::le32(last_acked_seq as int)) + tail,
        ) == Ok::<_, DecodeError>(ServerEvtView::ResumeOk { track_uid, last_acked_seq }),
{
    let id = uuids::uid_octets(track_uid);
    let n = wire::le32(last_acked_seq as int);
    wire::lemma_append(id, n, tail);
    wire::lemma_take_uuid(track_uid, n + tail);
    wire::lemma_take_u32(last_acked_seq as u32, tail);
}

proof fn lemma_track_started(track_uid: Seq<char>, metadata: Seq<u8>, tail: Seq<u8>)
    requires
        uuids::is_canonical(track_uid),
        metadata.len() <= wire::MAX_STRING,
    ensures
        codec::parse_track_started(
            (uuids::uid_octets(track_uid) + wire::counted(metadata)) + tail,
        ) == Ok::<_, DecodeError>(ServerEvtView::TrackStarted { track_uid, metadata }),
{
    let id = uuids::uid_octets(track_uid);
    let m = wire::counted(metadata);
    wire::lemma_append(id, m, tail);
    wire::lemma_take_uuid(track_uid, m + tail);
    wire::lemma_take_bytes(metadata, tail);
}

proof fn lemma_server_loc(point: LatLng, client_seq: u64, sub: u8, tail: Seq<u8>)
    requires
        carries_point(point),
        client_seq <= u32::MAX,
    ensures
        codec::parse_server_loc(
            (seq![sub] + (wire::le32(client_seq as int) + points::point_bytes(point, None))) + tail,
        ) == Ok::<_, DecodeError>(
            ServerEvtView::LocationAdded {
                device_uid: Seq::empty(),
                track_uid: Seq::empty(),
                point,
                client_seq,
                sub,
            },
        ),
{
    let n = wire::le32(client_seq as int);
    let p = points::point_bytes(point, None);
    wire::lemma_append(seq![sub], n + p, tail);
    wire::lemma_append(n, p, tail);
    wire::lemma_take_u8(sub, n + (p + tail));
    wire::lemma_take_u32(client_seq as u32, p + tail);
    points::law_point_round_trip(point, None, tail);
}

proof fn lemma_take_subject(
    sub: u8,
    device_uid: Seq<char>,
    track_uid: Seq<char>,
    online: bool,
    flags: u8,
    rest: Seq<u8>,
)
    requires
        uuids::is_canonical(device_uid),
        carries_opt_id(track_uid),
    ensures
        codec::take_subject(
            (seq![sub] + (uuids::uid_octets(device_uid) + (uuids::uid_octets(track_uid) + (seq![
                wire::bit(online),
            ])))) + (seq![flags] + rest),
        ) == Ok::<_, DecodeError>(((sub, device_uid, track_uid, online, flags), rest)),
{
    reveal(codec::take_subject);
    let d = uuids::uid_octets(device_uid);
    let t = uuids::uid_octets(track_uid);
    let o = wire::bit(online);
    let behind = seq![flags] + rest;
    wire::lemma_append(seq![sub], d + (t + seq![o]), behind);
    wire::lemma_append(d, t + seq![o], behind);
    wire::lemma_append(t, seq![o], behind);
    wire::lemma_take_u8(sub, d + (t + (seq![o] + behind)));
    wire::lemma_take_uuid(device_uid, t + (seq![o] + behind));
    lemma_take_opt_id(track_uid, seq![o] + behind);
    wire::lemma_take_u8(o, behind);
    wire::lemma_take_u8(flags, rest);
}

pub proof fn lemma_live_flags(
    last_location: Option<LatLng>,
    last_seen_ms: Option<i64>,
    route: Seq<LatLng>,
)
    ensures
        ({
            let flags = codec::live_flags(last_location, last_seen_ms, route);
            &&& points::flagged(flags, 1) == (last_location is Some)
            &&& points::flagged(flags, 2) == (last_seen_ms is Some)
            &&& points::flagged(flags, 4) == (route.len() > 0)
        }),
{
}

/// The live part reads back if its parts do.
proof fn lemma_take_live_parts(
    loc: Seq<u8>,
    time: Seq<u8>,
    way: Seq<u8>,
    flags: u8,
    rest: Seq<u8>,
    l: (Option<LatLng>, Option<i64>, Seq<LatLng>),
)
    requires
        codec::take_location(loc + (time + (way + rest)), points::flagged(flags, 1)) == Ok::<
            _,
            DecodeError,
        >((l.0, time + (way + rest))),
        points::take_time(time + (way + rest), points::flagged(flags, 2)) == Ok::<_, DecodeError>(
            (l.1, way + rest),
        ),
        codec::take_route_opt(way + rest, points::flagged(flags, 4)) == Ok::<_, DecodeError>(
            (l.2, rest),
        ),
    ensures
        codec::take_live((loc + (time + way)) + rest, flags) == Ok::<_, DecodeError>((l, rest)),
{
    reveal(codec::take_live);
    wire::lemma_append(loc, time + way, rest);
    wire::lemma_append(time, way, rest);
}

proof fn lemma_take_route_opt(route: Seq<LatLng>, rest: Seq<u8>)
    requires
        carries_route(route),
    ensures
        codec::take_route_opt(
            (if route.len() > 0 {
                points::route_bytes(route)
            } else {
                Seq::empty()
            }) + rest,
            route.len() > 0,
        ) == Ok::<_, DecodeError>((route, rest)),
{
    if route.len() > 0 {
        points::law_route_round_trip(route, rest);
    } else {
        assert(Seq::<u8>::empty() + rest =~= rest);
        assert(route =~= Seq::empty());
    }
}

proof fn lemma_take_live(
    last_location: Option<LatLng>,
    last_seen_ms: Option<i64>,
    route: Seq<LatLng>,
    rest: Seq<u8>,
)
    requires
        last_location is Some ==> carries_point(last_location->0),
        carries_route(route),
    ensures
        codec::take_live(
            codec::live_bytes(last_location, last_seen_ms, route) + rest,
            codec::live_flags(last_location, last_seen_ms, route),
        ) == Ok::<_, DecodeError>(((last_location, last_seen_ms, route), rest)),
{
    let loc = match last_location {
        Some(p) => points::point_bytes(p, None),
        None => Seq::empty(),
    };
    let time = match last_seen_ms {
        Some(t) => wire::le64(t as int),
        None => Seq::empty(),
    };
    let way = if route.len() > 0 {
        points::route_bytes(route)
    } else {
        Seq::empty()
    };
    let flags = codec::live_flags(last_location, last_seen_ms, route);
    lemma_live_flags(last_location, last_seen_ms, route);
    lemma_take_location(last_location, time + (way + rest));
    points::lemma_take_time(last_seen_ms, way + rest);
    lemma_take_route_opt(route, rest);
    lemma_take_live_parts(loc, time, way, flags, rest, (last_location, last_seen_ms, route));
}

proof fn lemma_take_estimates(
    distance: u64,
    duration: u64,
    start: Seq<char>,
    end: Seq<char>,
    metadata: Seq<u8>,
    rest: Seq<u8>,
)
    requires
        carries_text(start),
        carries_text(end),
        metadata.len() <= wire::MAX_STRING,
    ensures
        codec::take_estimates(
            codec::estimates_bytes(distance, duration, start, end, metadata) + rest,
        ) == Ok::<_, DecodeError>(((distance, duration, start, end, metadata), rest)),
{
    reveal(codec::take_estimates);
    let a = wire::le64(distance as int);
    let b = wire::le64(duration as int);
    let c = wire::counted_text(start);
    let d = wire::counted_text(end);
    let e = wire::counted(metadata);
    wire::lemma_append(a, b + (c + (d + e)), rest);
    wire::lemma_append(b, c + (d + e), rest);
    wire::lemma_append(c, d + e, rest);
    wire::lemma_append(d, e, rest);
    wire::lemma_take_u64(distance, b + (c + (d + (e + rest))));
    wire::lemma_take_u64(duration, c + (d + (e + rest)));
    wire::lemma_take_str(start, d + (e + rest));
    wire::lemma_take_str(end, e + rest);
    wire::lemma_take_bytes(metadata, rest);
}

/// A subscription reads back if each of its three parts does.
proof fn lemma_subscribed(
    subject: Seq<u8>,
    flags: u8,
    live: Seq<u8>,
    est: Seq<u8>,
    tail: Seq<u8>,
    s: (u8, Seq<char>, Seq<char>, bool, u8),
    l: (Option<LatLng>, Option<i64>, Seq<LatLng>),
    e: (u64, u64, Seq<char>, Seq<char>, Seq<u8>),
)
    requires
        codec::take_subject(subject + (seq![flags] + (live + (est + tail)))) == Ok::<_, DecodeError>(
            (s, live + (est + tail)),
        ),
        s.4 == flags,
        codec::take_live(live + (est + tail), flags) == Ok::<_, DecodeError>((l, est + tail)),
        codec::take_estimates(est + tail) == Ok::<_, DecodeError>((e, tail)),
    ensures
        codec::parse_server(
            ((seq![codec::S_SUBSCRIBED] + subject) + (seq![flags] + (live + est))) + tail,
        ) == Ok::<_, DecodeError>(
            Some(
                ServerEvtView::Subscribed {
                    sub: s.0,
                    device_uid: s.1,
                    track_uid: s.2,
                    last_location: l.0,
                    route: l.2,
                    estimated_distance: e.0,
                    estimated_duration: e.1,
                    start_location_name: e.2,
                    end_location_name: e.3,
                    metadata: e.4,
                    online: s.3,
                    last_seen_ms: l.1,
                },
            ),
        ),
{
    let t = seq![codec::S_SUBSCRIBED];
    let behind = seq![flags] + (live + est);
    wire::lemma_append(t, subject, behind);
    lemma_split(codec::S_SUBSCRIBED, subject + behind, tail);
    wire::lemma_append(subject, behind, tail);
    wire::lemma_append(seq![flags], live + est, tail);
    wire::lemma_append(live, est, tail);
}

proof fn lemma_error(
    code: ErrorCode,
    message: Seq<char>,
    track_uid: Option<Seq<char>>,
    retry_after_ms: Option<u32>,
    tail: Seq<u8>,
)
    requires
        carries_evt(ServerEvtView::Error { code, message, track_uid, retry_after_ms }),
    ensures
        codec::parse_error(
            (seq![code.byte()] + (wire::le32(
                match retry_after_ms {
                    Some(ms) => ms as int,
                    None => 0,
                },
            ) + (uuids::uid_octets(codec::none_as_empty(track_uid)) + wire::counted_text(message))))
                + tail,
        ) == Ok::<_, DecodeError>(
            ServerEvtView::Error { code, message, track_uid, retry_after_ms },
        ),
{
    let ms = match retry_after_ms {
        Some(ms) => ms,
        None => 0u32,
    };
    let c = code.byte();
    let n = wire::le32(ms as int);
    let uid = codec::none_as_empty(track_uid);
    let id = uuids::uid_octets(uid);
    let m = wire::counted_text(message);
    wire::lemma_append(seq![c], n + (id + m), tail);
    wire::lemma_append(n, id + m, tail);
    wire::lemma_append(id, m, tail);
    wire::lemma_take_u8(c, n + (id + (m + tail)));
    wire::lemma_take_u32(ms, id + (m + tail));
    lemma_take_opt_id(uid, m + tail);
    wire::lemma_take_str(message, tail);
}

proof fn lemma_event_added(payload: Seq<u8>, timestamp_ms: Option<i64>, sub: u8, tail: Seq<u8>)
    requires
        payload.len() <= wire::MAX_STRING,
        timestamp_ms != Some(0i64),
    ensures
        codec::parse_event_added(
            (seq![sub] + (wire::counted(payload) + wire::le64(codec::none_as_zero(timestamp_ms))))
                + tail,
        ) == Ok::<_, DecodeError>(
            ServerEvtView::EventAdded {
                device_uid: Seq::empty(),
                track_uid: Seq::empty(),
                payload,
                timestamp_ms,
                sub,
            },
        ),
{
    let t = codec::none_as_zero(timestamp_ms) as i64;
    lemma_none_as_zero(timestamp_ms);
    let p = wire::counted(payload);
    let n = wire::le64(t as int);
    wire::lemma_append(seq![sub], p + n, tail);
    wire::lemma_append(p, n, tail);
    wire::lemma_take_u8(sub, p + (n + tail));
    wire::lemma_take_bytes(payload, n + tail);
    wire::lemma_take_i64(t, tail);
}

proof fn lemma_command(
    command_id: Seq<char>,
    payload: Seq<u8>,
    timestamp_ms: Option<i64>,
    tail: Seq<u8>,
)
    requires
        uuids::is_canonical(command_id),
        payload.len() <= wire::MAX_STRING,
        timestamp_ms != Some(0i64),
    ensures
        codec::parse_command(
            (uuids::uid_octets(command_id) + (wire::counted(payload) + wire::le64(
                codec::none_as_zero(timestamp_ms),
            ))) + tail,
        ) == Ok::<_, DecodeError>(ServerEvtView::Command { command_id, payload, timestamp_ms }),
{
    let t = codec::none_as_zero(timestamp_ms) as i64;
    lemma_none_as_zero(timestamp_ms);
    let id = uuids::uid_octets(command_id);
    let p = wire::counted(payload);
    let n = wire::le64(t as int);
    wire::lemma_append(id, p + n, tail);
    wire::lemma_append(p, n, tail);
    wire::lemma_take_uuid(command_id, p + (n + tail));
    wire::lemma_take_bytes(payload, n + tail);
    wire::lemma_take_i64(t, tail);
}

proof fn lemma_presence(online: bool, last_seen_ms: Option<i64>, sub: u8, tail: Seq<u8>)
    requires
        last_seen_ms != Some(0i64),
    ensures
        codec::parse_presence(
            (seq![sub] + (seq![wire::bit(online)] + wire::le64(codec::none_as_zero(last_seen_ms))))
                + tail,
        ) == Ok::<_, DecodeError>(
            ServerEvtView::DevicePresence { device_uid: Seq::empty(), online, last_seen_ms, sub },
        ),
{
    let t = codec::none_as_zero(last_seen_ms) as i64;
    lemma_none_as_zero(last_seen_ms);
    let o = wire::bit(online);
    let n = wire::le64(t as int);
    wire::lemma_append(seq![sub], seq![o] + n, tail);
    wire::lemma_append(seq![o], n, tail);
    wire::lemma_take_u8(sub, seq![o] + (n + tail));
    wire::lemma_take_u8(o, n + tail);
    wire::lemma_take_i64(t, tail);
}

/// A server frame reads as the event it was made from, whatever stands behind it.
#[verifier::spinoff_prover]
#[verifier::rlimit(40)]
pub proof fn law_server_frame_round_trip(evt: ServerEvtView, tail: Seq<u8>)
    requires
        carries_evt(evt),
    ensures
        codec::parse_server(codec::server_frame(evt) + tail) == Ok::<_, DecodeError>(Some(evt)),
        codec::parse_server_msg(codec::server_frame(evt) + tail) == Ok::<_, DecodeError>(evt),
{
    match evt {
        ServerEvtView::Hello { version, node_id, shard } => {
            let body = seq![version] + (wire::le16(shard as int) + uuids::uid_octets(node_id));
            lemma_split(codec::S_HELLO, body, tail);
            lemma_hello(version, node_id, shard, tail);
        },
        ServerEvtView::Relocate { endpoint, retry_after_ms } => {
            let body = wire::le32(retry_after_ms as int) + wire::counted_text(endpoint);
            lemma_split(codec::S_RELOCATE, body, tail);
            lemma_relocate(endpoint, retry_after_ms, tail);
        },
        ServerEvtView::ResumeOk { track_uid, last_acked_seq } => {
            let body = uuids::uid_octets(track_uid) + wire::le32(last_acked_seq as int);
            lemma_split(codec::S_RESUME_OK, body, tail);
            lemma_resume_ok(track_uid, last_acked_seq, tail);
        },
        ServerEvtView::TrackStarted { track_uid, metadata } => {
            let body = uuids::uid_octets(track_uid) + wire::counted(metadata);
            lemma_split(codec::S_TRACK_STARTED, body, tail);
            lemma_track_started(track_uid, metadata, tail);
        },
        ServerEvtView::TrackStopped { track_uid } => {
            lemma_split(codec::S_TRACK_STOPPED, uuids::uid_octets(track_uid), tail);
            wire::lemma_take_uuid(track_uid, tail);
        },
        ServerEvtView::Ack { seq } => {
            lemma_split(codec::S_ACK, wire::le32(seq as int), tail);
            wire::lemma_take_u32(seq as u32, tail);
        },
        ServerEvtView::LocationAdded { device_uid, track_uid, point, client_seq, sub } => {
            let body = seq![sub] + (wire::le32(client_seq as int) + points::point_bytes(
                point,
                None,
            ));
            lemma_split(codec::S_LOC, body, tail);
            lemma_server_loc(point, client_seq, sub, tail);
            assert(device_uid =~= Seq::empty());
            assert(track_uid =~= Seq::empty());
        },
        ServerEvtView::Subscribed {
            sub,
            device_uid,
            track_uid,
            last_location,
            route,
            estimated_distance,
            estimated_duration,
            start_location_name,
            end_location_name,
            metadata,
            online,
            last_seen_ms,
        } => {
            let flags = codec::live_flags(last_location, last_seen_ms, route);
            let subject = seq![sub] + (uuids::uid_octets(device_uid) + (uuids::uid_octets(track_uid)
                + (seq![wire::bit(online)])));
            let live = codec::live_bytes(last_location, last_seen_ms, route);
            let est = codec::estimates_bytes(
                estimated_distance,
                estimated_duration,
                start_location_name,
                end_location_name,
                metadata,
            );
            lemma_take_subject(sub, device_uid, track_uid, online, flags, live + (est + tail));
            lemma_take_live(last_location, last_seen_ms, route, est + tail);
            lemma_take_estimates(
                estimated_distance,
                estimated_duration,
                start_location_name,
                end_location_name,
                metadata,
                tail,
            );
            lemma_subscribed(
                subject,
                flags,
                live,
                est,
                tail,
                (sub, device_uid, track_uid, online, flags),
                (last_location, last_seen_ms, route),
                (
                    estimated_distance,
                    estimated_duration,
                    start_location_name,
                    end_location_name,
                    metadata,
                ),
            );
        },
        ServerEvtView::Error { code, message, track_uid, retry_after_ms } => {
            let body = seq![code.byte()] + (wire::le32(
                match retry_after_ms {
                    Some(ms) => ms as int,
                    None => 0,
                },
            ) + (uuids::uid_octets(codec::none_as_empty(track_uid)) + wire::counted_text(message)));
            lemma_split(codec::S_ERROR, body, tail);
            lemma_error(code, message, track_uid, retry_after_ms, tail);
        },
        ServerEvtView::EventAdded { device_uid, track_uid, payload, timestamp_ms, sub } => {
            let body = seq![sub] + (wire::counted(payload) + wire::le64(
                codec::none_as_zero(timestamp_ms),
            ));
            lemma_split(codec::S_EVENT_ADDED, body, tail);
            lemma_event_added(payload, timestamp_ms, sub, tail);
            assert(device_uid =~= Seq::empty());
            assert(track_uid =~= Seq::empty());
        },
        ServerEvtView::Command { command_id, payload, timestamp_ms } => {
            let body = uuids::uid_octets(command_id) + (wire::counted(payload) + wire::le64(
                codec::none_as_zero(timestamp_ms),
            ));
            lemma_split(codec::S_COMMAND, body, tail);
            lemma_command(command_id, payload, timestamp_ms, tail);
        },
        ServerEvtView::DevicePresence { device_uid, online, last_seen_ms, sub } => {
            let body = seq![sub] + (seq![wire::bit(online)] + wire::le64(
                codec::none_as_zero(last_seen_ms),
            ));
            lemma_split(codec::S_PRESENCE, body, tail);
            lemma_presence(online, last_seen_ms, sub, tail);
            assert(device_uid =~= Seq::empty());
        },
    }
}

/// A frame of a server type that this version does not know is passed over, not refused.
pub proof fn law_unknown_server_types_are_ignored(t: u8, body: Seq<u8>)
    requires
        0x8D <= t <= 0xFE,
    ensures
        codec::parse_server(seq![t] + body) == Ok::<_, DecodeError>(None::<ServerEvtView>),
{
}

/// A client frame of an unknown type leaves the session up.
pub proof fn law_unknown_client_types_are_kept_apart(t: u8, body: Seq<u8>)
    requires
        0x09 <= t <= 0x7E,
    ensures
        codec::parse_client(seq![t] + body) == Ok::<_, DecodeError>(
            codec::ClientDecodeView::Unknown(t),
        ),
{
}

/// An identifier that is no UUID goes out as 16 zero bytes.
pub proof fn law_non_uuid_encodes_as_nil(track_uid: Seq<char>, last_client_seq: u64)
    requires
        uuids::parse_uuid(track_uid) is None,
    ensures
        codec::client_frame(ClientCmdView::Resume { track_uid, last_client_seq }).subrange(1, 17)
            == uuids::nil(),
{
    let f = codec::client_frame(ClientCmdView::Resume { track_uid, last_client_seq });
    assert(f.subrange(1, 17) =~= uuids::nil());
}

/// Heading, speed and the unrounded position of a sample change nothing on the wire.
pub proof fn law_filter_fields_stay_off_the_wire(p: LatLng, prev: Option<(i32, i32)>)
    ensures
        points::point_bytes(p, prev) == points::point_bytes(p.wire(), prev),
{
}

} // verus!
