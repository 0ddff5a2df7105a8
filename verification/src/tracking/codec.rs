//! Binary `tracking.v2` codec (little-endian). One WebSocket binary frame is one message.

use crate::clock;
use crate::tracking::cmd::{ClientCmd, ClientCmdView, ServerEvt, ServerEvtView};
use crate::tracking::points;
use crate::tracking::types::{CommandAckStatus, ErrorCode, LatLng, PROTOCOL_VERSION};
use crate::tracking::uuids;
use crate::tracking::wire;
use crate::tracking::wire::Reader;
use vstd::prelude::*;
use vstd::utf8::*;

pub use crate::tracking::points::{encode_loc_frames, micro_delta_fits, EncodeError, C_LOC, MAX_LOC_POINTS};
pub use crate::tracking::wire::{DecodeError, MAX_STRING};

verus! {

pub const SUBPROTOCOL: &'static str = "tracking.v2";

pub const DEFAULT_WS_PATH: &'static str = "/v2/ws";

pub const C_RESUME: u8 = 0x01;

pub const C_TRACK_START: u8 = 0x02;

pub const C_TRACK_STOP: u8 = 0x03;

pub const C_SUBSCRIBE: u8 = 0x05;

pub const C_UNSUBSCRIBE: u8 = 0x06;

pub const C_EVENT: u8 = 0x07;

pub const C_COMMAND_ACK: u8 = 0x08;

pub const S_HELLO: u8 = 0x80;

pub const S_RELOCATE: u8 = 0x81;

pub const S_RESUME_OK: u8 = 0x82;

pub const S_TRACK_STARTED: u8 = 0x83;

pub const S_TRACK_STOPPED: u8 = 0x84;

pub const S_ACK: u8 = 0x85;

pub const S_LOC: u8 = 0x86;

pub const S_SUBSCRIBED: u8 = 0x87;

pub const S_ERROR: u8 = 0x88;

pub const S_EVENT_ADDED: u8 = 0x89;

pub const S_COMMAND: u8 = 0x8A;

pub const S_PRESENCE: u8 = 0x8B;

/// A decoded client frame.
#[derive(Debug, Clone, PartialEq)]
pub enum ClientDecode {
    Cmd(ClientCmd),
    /// Unknown client type: the session stays up.
    Unknown(u8),
}

/// The value of a [`ClientDecode`].
pub enum ClientDecodeView {
    Cmd(ClientCmdView),
    Unknown(u8),
}

impl View for ClientDecode {
    type V = ClientDecodeView;

    open spec fn view(&self) -> ClientDecodeView {
        match *self {
            ClientDecode::Cmd(c) => ClientDecodeView::Cmd(c@),
            ClientDecode::Unknown(t) => ClientDecodeView::Unknown(t),
        }
    }
}

/// A time of 0 stands for none.
pub open spec fn time_or_none(t: i64) -> Option<i64> {
    if t == 0 {
        None
    } else {
        Some(t)
    }
}

pub open spec fn none_as_zero(t: Option<i64>) -> int {
    match t {
        Some(t) => t as int,
        None => 0,
    }
}

pub open spec fn text_or_none(s: Seq<char>) -> Option<Seq<char>> {
    if s.len() == 0 {
        None
    } else {
        Some(s)
    }
}

pub open spec fn none_as_empty(s: Option<Seq<char>>) -> Seq<char> {
    match s {
        Some(s) => s,
        None => Seq::empty(),
    }
}

// ---------------------------------------------------------------------------------------------
// Client frames: what a reader makes of them.
// ---------------------------------------------------------------------------------------------

pub open spec fn parse_resume(b: Seq<u8>) -> Result<ClientCmdView, DecodeError> {
    match wire::take_uuid(b) {
        Err(e) => Err(e),
        Ok((track_uid, b)) => match wire::take_u32(b) {
            Err(e) => Err(e),
            Ok((seq, b)) => Ok(ClientCmdView::Resume { track_uid, last_client_seq: seq as u64 }),
        },
    }
}

pub open spec fn take_location(b: Seq<u8>, present: bool) -> wire::Taken<Option<LatLng>> {
    if present {
        match points::take_point(b, None) {
            Err(e) => Err(e),
            Ok((p, b)) => Ok((Some(p), b)),
        }
    } else {
        Ok((None, b))
    }
}

pub open spec fn parse_track_start(b: Seq<u8>) -> Result<ClientCmdView, DecodeError> {
    match wire::take_u8(b) {
        Err(e) => Err(e),
        Ok((flags, b)) => match take_location(b, points::flagged(flags, 1)) {
            Err(e) => Err(e),
            Ok((location, b)) => match points::take_route(b) {
                Err(e) => Err(e),
                Ok((route, b)) => match wire::take_bytes(b) {
                    Err(e) => Err(e),
                    Ok((metadata, b)) => Ok(
                        ClientCmdView::TrackStart { location, route, metadata },
                    ),
                },
            },
        },
    }
}

pub open spec fn parse_loc(b: Seq<u8>) -> Result<ClientCmdView, DecodeError> {
    match wire::take_u32(b) {
        Err(e) => Err(e),
        Ok((seq, b)) => match wire::take_u8(b) {
            Err(e) => Err(e),
            Ok((count, b)) => if count == 0 || count > MAX_LOC_POINTS {
                Err(DecodeError::Invalid)
            } else {
                match points::take_chain(b, count as nat, None) {
                    Err(e) => Err(e),
                    Ok((points, b)) => if count == 1 {
                        Ok(
                            ClientCmdView::LocationAdd {
                                track_uid: Seq::empty(),
                                client_seq: seq as u64,
                                point: points[0],
                            },
                        )
                    } else {
                        Ok(
                            ClientCmdView::LocationBatch {
                                track_uid: Seq::empty(),
                                client_seq: seq as u64,
                                points,
                            },
                        )
                    },
                }
            },
        },
    }
}

pub open spec fn parse_subscribe(b: Seq<u8>) -> Result<ClientCmdView, DecodeError> {
    match wire::take_uuid(b) {
        Err(e) => Err(e),
        Ok((device_uid, b)) => match wire::take_u8(b) {
            Err(e) => Err(e),
            Ok((flags, b)) => match wire::take_u16(b) {
                Err(e) => Err(e),
                Ok((interval, b)) => Ok(
                    ClientCmdView::Subscribe {
                        device_uid,
                        include_events: points::flagged(flags, 1),
                        min_location_interval_ms: interval as u32,
                    },
                ),
            },
        },
    }
}

pub open spec fn parse_event(b: Seq<u8>) -> Result<ClientCmdView, DecodeError> {
    match wire::take_bytes(b) {
        Err(e) => Err(e),
        Ok((payload, b)) => match wire::take_i64(b) {
            Err(e) => Err(e),
            Ok((t, b)) => Ok(
                ClientCmdView::Event {
                    track_uid: Seq::empty(),
                    payload,
                    timestamp_ms: time_or_none(t),
                },
            ),
        },
    }
}

/// The status a byte stands for.
pub open spec fn ack_status(v: u8) -> CommandAckStatus {
    if v == 1 {
        CommandAckStatus::Succeeded
    } else if v == 2 {
        CommandAckStatus::Rejected
    } else if v == 3 {
        CommandAckStatus::Failed
    } else {
        CommandAckStatus::Unspecified
    }
}

pub open spec fn parse_command_ack(b: Seq<u8>) -> Result<ClientCmdView, DecodeError> {
    match wire::take_uuid(b) {
        Err(e) => Err(e),
        Ok((command_id, b)) => match wire::take_u8(b) {
            Err(e) => Err(e),
            Ok((status, b)) => match wire::take_str(b) {
                Err(e) => Err(e),
                Ok((message, b)) => Ok(
                    ClientCmdView::CommandAck {
                        command_id,
                        status: ack_status(status),
                        message: text_or_none(message),
                    },
                ),
            },
        },
    }
}

/// The command in the body of a client frame of a known type.
pub open spec fn parse_client_body(t: u8, b: Seq<u8>) -> Result<ClientCmdView, DecodeError> {
    if t == C_RESUME {
        parse_resume(b)
    } else if t == C_TRACK_START {
        parse_track_start(b)
    } else if t == C_TRACK_STOP {
        Ok(ClientCmdView::TrackStop { track_uid: Seq::empty() })
    } else if t == C_LOC {
        parse_loc(b)
    } else if t == C_SUBSCRIBE {
        parse_subscribe(b)
    } else if t == C_UNSUBSCRIBE {
        match wire::take_u8(b) {
            Err(e) => Err(e),
            Ok((sub, b)) => Ok(ClientCmdView::Unsubscribe { sub }),
        }
    } else if t == C_EVENT {
        parse_event(b)
    } else {
        parse_command_ack(b)
    }
}

/// What a client frame holds. Types up to 0x08 are known, the others below 0x7F are unknown and
/// harmless, the rest is invalid. Bytes behind the last field are ignored.
pub open spec fn parse_client(b: Seq<u8>) -> Result<ClientDecodeView, DecodeError> {
    if b.len() == 0 {
        Err(DecodeError::Truncated)
    } else if C_RESUME <= b[0] <= C_COMMAND_ACK {
        match parse_client_body(b[0], b.skip(1)) {
            Err(e) => Err(e),
            Ok(c) => Ok(ClientDecodeView::Cmd(c)),
        }
    } else if C_COMMAND_ACK < b[0] < 0x7F {
        Ok(ClientDecodeView::Unknown(b[0]))
    } else {
        Err(DecodeError::Invalid)
    }
}

/// The bytes of a client command.
pub open spec fn client_frame(cmd: ClientCmdView) -> Seq<u8> {
    match cmd {
        ClientCmdView::Resume { track_uid, last_client_seq } => seq![C_RESUME] + (
        uuids::uid_octets(track_uid) + wire::le32(last_client_seq as int)),
        ClientCmdView::TrackStart { location, route, metadata } => seq![C_TRACK_START] + (seq![
            wire::bit(location is Some),
        ] + ((match location {
            Some(p) => points::point_bytes(p, None),
            None => Seq::empty(),
        }) + (points::route_bytes(route) + wire::counted(metadata)))),
        ClientCmdView::TrackStop { .. } => seq![C_TRACK_STOP],
        ClientCmdView::LocationAdd { client_seq, point, .. } => points::loc_frame(
            client_seq as int,
            seq![point],
        ),
        ClientCmdView::LocationBatch { client_seq, points, .. } => if points.len() == 0 {
            Seq::empty()
        } else {
            points::loc_frames(client_seq as int, points)[0]
        },
        ClientCmdView::Subscribe { device_uid, include_events, min_location_interval_ms } => seq![
            C_SUBSCRIBE,
        ] + (uuids::uid_octets(device_uid) + (seq![wire::bit(include_events)] + wire::le16(
            if min_location_interval_ms > 0xFFFF {
                0xFFFF
            } else {
                min_location_interval_ms as int
            },
        ))),
        ClientCmdView::Unsubscribe { sub } => seq![C_UNSUBSCRIBE] + seq![sub],
        ClientCmdView::Event { payload, timestamp_ms, .. } => seq![C_EVENT] + (wire::counted(payload)
            + wire::le64(none_as_zero(timestamp_ms))),
        ClientCmdView::CommandAck { command_id, status, message } => seq![C_COMMAND_ACK] + (
        uuids::uid_octets(command_id) + (seq![status.byte()] + wire::counted_text(
            none_as_empty(message),
        ))),
    }
}

// ---------------------------------------------------------------------------------------------
// Client frames: code.
// ---------------------------------------------------------------------------------------------

/// How a decoded command relates to what the reader makes of the bytes.
pub open spec fn decodes<T: View>(want: Result<T::V, DecodeError>, r: Result<T, DecodeError>) -> bool {
    match want {
        Ok(v) => r is Ok && r->Ok_0@ == v,
        Err(e) => r == Err::<T, DecodeError>(e),
    }
}

fn nonzero_time(t: i64) -> (r: Option<i64>)
    ensures
        r == time_or_none(t),
{
    if t == 0 {
        None
    } else {
        Some(t)
    }
}

fn read_location(r: &mut Reader<'_>, present: bool) -> (res: Result<Option<LatLng>, DecodeError>)
    requires
        old(r).wf(),
    ensures
        final(r).wf(),
        wire::reads(take_location(old(r)@, present), res, final(r)@),
{
    if present {
        let p = points::read_point(r, None)?;
        Ok(Some(p))
    } else {
        Ok(None)
    }
}

fn decode_resume(r: &mut Reader<'_>) -> (res: Result<ClientCmd, DecodeError>)
    requires
        old(r).wf(),
    ensures
        decodes(parse_resume(old(r)@), res),
{
    let track_uid = r.read_uuid()?;
    let seq: u32 = r.read_u32()?;
    Ok(ClientCmd::Resume { track_uid, last_client_seq: seq as u64 })
}

fn decode_track_start(r: &mut Reader<'_>) -> (res: Result<ClientCmd, DecodeError>)
    requires
        old(r).wf(),
    ensures
        decodes(parse_track_start(old(r)@), res),
{
    let flags: u8 = r.read_u8()?;
    let location = read_location(r, flags % 2 == 1)?;
    let route = points::read_route_abs(r)?;
    let metadata = r.read_bytes()?;
    Ok(ClientCmd::TrackStart { location, route, metadata })
}

fn decode_loc(r: &mut Reader<'_>) -> (res: Result<ClientCmd, DecodeError>)
    requires
        old(r).wf(),
    ensures
        decodes(parse_loc(old(r)@), res),
{
    let seq: u32 = r.read_u32()?;
    let count: u8 = r.read_u8()?;
    if count == 0 || count > MAX_LOC_POINTS {
        return Err(DecodeError::Invalid);
    }
    proof {
        points::law_decoded_points_lie_on_globe(r@, count as nat, None);
    }
    let points = points::read_chain(r, count)?;
    let empty = String::new();
    assert(empty@ =~= Seq::<char>::empty());
    if count == 1 {
        Ok(ClientCmd::LocationAdd { track_uid: empty, client_seq: seq as u64, point: points[0] })
    } else {
        Ok(ClientCmd::LocationBatch { track_uid: empty, client_seq: seq as u64, points })
    }
}

fn decode_subscribe(r: &mut Reader<'_>) -> (res: Result<ClientCmd, DecodeError>)
    requires
        old(r).wf(),
    ensures
        decodes(parse_subscribe(old(r)@), res),
{
    let device_uid = r.read_uuid()?;
    let flags: u8 = r.read_u8()?;
    let interval: u16 = r.read_u16()?;
    Ok(
        ClientCmd::Subscribe {
            device_uid,
            include_events: flags % 2 == 1,
            min_location_interval_ms: interval as u32,
        },
    )
}

fn decode_event(r: &mut Reader<'_>) -> (res: Result<ClientCmd, DecodeError>)
    requires
        old(r).wf(),
    ensures
        decodes(parse_event(old(r)@), res),
{
    let payload = r.read_bytes()?;
    let t: i64 = r.read_i64()?;
    let empty = String::new();
    assert(empty@ =~= Seq::<char>::empty());
    Ok(ClientCmd::Event { track_uid: empty, payload, timestamp_ms: nonzero_time(t) })
}

fn decode_command_ack(r: &mut Reader<'_>) -> (res: Result<ClientCmd, DecodeError>)
    requires
        old(r).wf(),
    ensures
        decodes(parse_command_ack(old(r)@), res),
{
    let command_id = r.read_uuid()?;
    let status: u8 = r.read_u8()?;
    let message = r.read_str()?;
    let text = if message.as_str().unicode_len() == 0 {
        None
    } else {
        Some(message)
    };
    Ok(
        ClientCmd::CommandAck {
            command_id,
            status: CommandAckStatus::from_u8(status),
            message: text,
        },
    )
}

/// Decodes a client frame.
pub fn decode_client(bytes: &[u8]) -> (r: Result<ClientDecode, DecodeError>)
    ensures
        decodes(parse_client(bytes@), r),
{
    if bytes.len() == 0 {
        return Err(DecodeError::Truncated);
    }
    let mut r = Reader::new(bytes);
    let t: u8 = r.read_u8()?;
    let cmd = if t == C_RESUME {
        decode_resume(&mut r)?
    } else if t == C_TRACK_START {
        decode_track_start(&mut r)?
    } else if t == C_TRACK_STOP {
        let empty = String::new();
        assert(empty@ =~= Seq::<char>::empty());
        ClientCmd::TrackStop { track_uid: empty }
    } else if t == C_LOC {
        decode_loc(&mut r)?
    } else if t == C_SUBSCRIBE {
        decode_subscribe(&mut r)?
    } else if t == C_UNSUBSCRIBE {
        let sub: u8 = r.read_u8()?;
        ClientCmd::Unsubscribe { sub }
    } else if t == C_EVENT {
        decode_event(&mut r)?
    } else if t == C_COMMAND_ACK {
        decode_command_ack(&mut r)?
    } else if t > C_COMMAND_ACK && t < 0x7F {
        return Ok(ClientDecode::Unknown(t));
    } else {
        return Err(DecodeError::Invalid);
    };
    Ok(ClientDecode::Cmd(cmd))
}

/// What a client frame holds, where unknown types are invalid too.
pub open spec fn parse_client_cmd(b: Seq<u8>) -> Result<ClientCmdView, DecodeError> {
    match parse_client(b) {
        Ok(ClientDecodeView::Cmd(c)) => Ok(c),
        Ok(ClientDecodeView::Unknown(_)) => Err(DecodeError::Invalid),
        Err(e) => Err(e),
    }
}

/// Decodes a client frame of a known type.
pub fn decode_client_cmd(bytes: &[u8]) -> (r: Result<ClientCmd, DecodeError>)
    ensures
        decodes(parse_client_cmd(bytes@), r),
{
    match decode_client(bytes)? {
        ClientDecode::Cmd(c) => Ok(c),
        ClientDecode::Unknown(_) => Err(DecodeError::Invalid),
    }
}

fn frame_resume(track_uid: &str, last_client_seq: u64) -> (w: Vec<u8>)
    ensures
        w@ == client_frame(ClientCmdView::Resume { track_uid: track_uid@, last_client_seq }),
{
    let mut w: Vec<u8> = Vec::new();
    let ghost w0 = w@;
    wire::put_u8(&mut w, C_RESUME);
    wire::put_uuid(&mut w, track_uid);
    wire::put_seq(&mut w, last_client_seq);
    proof {
        let id = uuids::uid_octets(track_uid@);
        let n = wire::le32(last_client_seq as int);
        wire::lemma_append3(w0, seq![C_RESUME], id, n);
        wire::lemma_append_to_empty(seq![C_RESUME] + (id + n));
    }
    w
}

fn frame_track_start(location: Option<LatLng>, route: &[LatLng], metadata: &[u8]) -> (w: Vec<u8>)
    ensures
        w@ == client_frame(
            ClientCmdView::TrackStart { location, route: route@, metadata: metadata@ },
        ),
{
    let mut w: Vec<u8> = Vec::new();
    let ghost w0 = w@;
    wire::put_u8(&mut w, C_TRACK_START);
    wire::put_u8(&mut w, if location.is_some() { 1 } else { 0 });
    let ghost w1 = w@;
    let ghost loc = match location {
        Some(p) => points::point_bytes(p, None),
        None => Seq::empty(),
    };
    if let Some(p) = location {
        points::write_abs(&mut w, &p);
    }
    assert(w@ == w1 + loc) by {
        assert(w1 + Seq::<u8>::empty() =~= w1);
    }
    points::write_route_abs(&mut w, route);
    wire::put_bytes(&mut w, metadata);
    proof {
        let flag = seq![wire::bit(location is Some)];
        let r = points::route_bytes(route@);
        let m = wire::counted(metadata@);
        wire::lemma_append5(w0, seq![C_TRACK_START], flag, loc, r, m);
        wire::lemma_append_to_empty(seq![C_TRACK_START] + (flag + (loc + (r + m))));
    }
    w
}

fn frame_location(client_seq: u64, point: &LatLng) -> (w: Vec<u8>)
    ensures
        w@ == points::loc_frame(client_seq as int, seq![*point]),
{
    let mut w: Vec<u8> = Vec::new();
    let ghost w0 = w@;
    wire::put_u8(&mut w, C_LOC);
    wire::put_seq(&mut w, client_seq);
    wire::put_u8(&mut w, 1);
    points::write_abs(&mut w, point);
    proof {
        let n = wire::le32(client_seq as int);
        let p = points::point_bytes(*point, None);
        let one = seq![*point];
        assert(one.skip(1) =~= Seq::<LatLng>::empty());
        assert(points::chain_bytes(one.skip(1), Some((point.latitude, point.longitude)))
            =~= Seq::<u8>::empty());
        assert(points::chain_bytes(one, None) =~= p);
        wire::lemma_append4(w0, seq![C_LOC], n, seq![1u8], p);
        wire::lemma_append_to_empty(seq![C_LOC] + (n + (seq![1u8] + p)));
    }
    w
}

fn frame_batch(client_seq: u64, points: &[LatLng], track_uid: Ghost<Seq<char>>) -> (w: Vec<u8>)
    ensures
        w@ == client_frame(
            ClientCmdView::LocationBatch { track_uid: track_uid@, client_seq, points: points@ },
        ),
{
    let mut frames = encode_loc_frames(client_seq, points);
    let ghost all = frames@;
    let ghost f = |f: Vec<u8>| f@;
    proof {
        points::law_loc_frames_cover_points(client_seq as int, points@);
        assert(all.map_values(f).len() == all.len());
    }
    if frames.len() == 0 {
        let w: Vec<u8> = Vec::new();
        assert(w@ =~= Seq::<u8>::empty());
        w
    } else {
        assert(all.map_values(f)[0] == all[0]@);
        frames.swap_remove(0)
    }
}

fn frame_subscribe(device_uid: &str, include_events: bool, min_location_interval_ms: u32) -> (w: Vec<
    u8,
>)
    ensures
        w@ == client_frame(
            ClientCmdView::Subscribe {
                device_uid: device_uid@,
                include_events,
                min_location_interval_ms,
            },
        ),
{
    let mut w: Vec<u8> = Vec::new();
    let ghost w0 = w@;
    wire::put_u8(&mut w, C_SUBSCRIBE);
    wire::put_uuid(&mut w, device_uid);
    wire::put_u8(&mut w, if include_events { 1 } else { 0 });
    let interval: u16 = if min_location_interval_ms > 0xFFFF {
        0xFFFF
    } else {
        min_location_interval_ms as u16
    };
    wire::put_u16(&mut w, interval);
    proof {
        let id = uuids::uid_octets(device_uid@);
        let flag = seq![wire::bit(include_events)];
        let n = wire::le16(interval as int);
        wire::lemma_append4(w0, seq![C_SUBSCRIBE], id, flag, n);
        wire::lemma_append_to_empty(seq![C_SUBSCRIBE] + (id + (flag + n)));
    }
    w
}

fn frame_event(payload: &[u8], timestamp_ms: Option<i64>, track_uid: Ghost<Seq<char>>) -> (w: Vec<u8>)
    ensures
        w@ == client_frame(
            ClientCmdView::Event { track_uid: track_uid@, payload: payload@, timestamp_ms },
        ),
{
    let mut w: Vec<u8> = Vec::new();
    let ghost w0 = w@;
    wire::put_u8(&mut w, C_EVENT);
    wire::put_bytes(&mut w, payload);
    wire::put_i64(&mut w, timestamp_ms.unwrap_or(0));
    proof {
        let p = wire::counted(payload@);
        let t = wire::le64(none_as_zero(timestamp_ms));
        wire::lemma_append3(w0, seq![C_EVENT], p, t);
        wire::lemma_append_to_empty(seq![C_EVENT] + (p + t));
    }
    w
}

fn frame_command_ack(command_id: &str, status: CommandAckStatus, message: &Option<String>) -> (w: Vec<
    u8,
>)
    ensures
        w@ == client_frame(
            ClientCmdView::CommandAck {
                command_id: command_id@,
                status,
                message: crate::tracking::cmd::text_view(*message),
            },
        ),
{
    let mut w: Vec<u8> = Vec::new();
    let ghost w0 = w@;
    wire::put_u8(&mut w, C_COMMAND_ACK);
    wire::put_uuid(&mut w, command_id);
    wire::put_u8(&mut w, status.to_u8());
    let ghost text = none_as_empty(crate::tracking::cmd::text_view(*message));
    match message {
        Some(s) => wire::put_str(&mut w, s.as_str()),
        None => {
            let empty = String::new();
            assert(empty@ =~= Seq::<char>::empty());
            wire::put_str(&mut w, empty.as_str());
        },
    }
    proof {
        let id = uuids::uid_octets(command_id@);
        let st = seq![status.byte()];
        let m = wire::counted_text(text);
        wire::lemma_append4(w0, seq![C_COMMAND_ACK], id, st, m);
        wire::lemma_append_to_empty(seq![C_COMMAND_ACK] + (id + (st + m)));
    }
    w
}

/// Marshals a client command. Of a batch that needs several frames, only the first is given.
pub fn encode_client_cmd(cmd: &ClientCmd) -> (w: Vec<u8>)
    ensures
        w@ == client_frame(cmd@),
{
    match cmd {
        ClientCmd::Resume { track_uid, last_client_seq } => frame_resume(
            track_uid.as_str(),
            *last_client_seq,
        ),
        ClientCmd::TrackStart { location, route, metadata } => frame_track_start(
            *location,
            route.as_slice(),
            metadata.as_slice(),
        ),
        ClientCmd::TrackStop { track_uid } => {
            let mut w: Vec<u8> = Vec::new();
            wire::put_u8(&mut w, C_TRACK_STOP);
            proof {
                wire::lemma_append_to_empty(seq![C_TRACK_STOP]);
            }
            w
        },
        ClientCmd::LocationAdd { track_uid, client_seq, point } => frame_location(
            *client_seq,
            point,
        ),
        ClientCmd::LocationBatch { track_uid, client_seq, points } => frame_batch(
            *client_seq,
            points.as_slice(),
            Ghost(track_uid@),
        ),
        ClientCmd::Subscribe { device_uid, include_events, min_location_interval_ms } => {
            frame_subscribe(device_uid.as_str(), *include_events, *min_location_interval_ms)
        },
        ClientCmd::Unsubscribe { sub } => {
            let mut w: Vec<u8> = Vec::new();
            let ghost w0 = w@;
            wire::put_u8(&mut w, C_UNSUBSCRIBE);
            wire::put_u8(&mut w, *sub);
            proof {
                wire::lemma_append(w0, seq![C_UNSUBSCRIBE], seq![*sub]);
                wire::lemma_append_to_empty(seq![C_UNSUBSCRIBE] + seq![*sub]);
            }
            w
        },
        ClientCmd::Event { track_uid, payload, timestamp_ms } => frame_event(
            payload.as_slice(),
            *timestamp_ms,
            Ghost(track_uid@),
        ),
        ClientCmd::CommandAck { command_id, status, message } => frame_command_ack(
            command_id.as_str(),
            *status,
            message,
        ),
    }
}

/// Marshals a client command (same bytes as [`encode_client_cmd`]).
pub fn encode_client_msg(cmd: &ClientCmd) -> (w: Vec<u8>)
    ensures
        w@ == client_frame(cmd@),
{
    encode_client_cmd(cmd)
}

// ---------------------------------------------------------------------------------------------
// Server frames: what a reader makes of them.
// ---------------------------------------------------------------------------------------------

pub open spec fn parse_hello(b: Seq<u8>) -> Result<ServerEvtView, DecodeError> {
    match wire::take_u8(b) {
        Err(e) => Err(e),
        Ok((version, b)) => match wire::take_u16(b) {
            Err(e) => Err(e),
            Ok((shard, b)) => match wire::take_uuid(b) {
                Err(e) => Err(e),
                Ok((node_id, b)) => Ok(
                    ServerEvtView::Hello { version, node_id, shard: shard as u32 },
                ),
            },
        },
    }
}

pub open spec fn parse_relocate(b: Seq<u8>) -> Result<ServerEvtView, DecodeError> {
    match wire::take_u32(b) {
        Err(e) => Err(e),
        Ok((retry_after_ms, b)) => match wire::take_str(b) {
            Err(e) => Err(e),
            Ok((endpoint, b)) => Ok(ServerEvtView::Relocate { endpoint, retry_after_ms }),
        },
    }
}

pub open spec fn parse_resume_ok(b: Seq<u8>) -> Result<ServerEvtView, DecodeError> {
    match wire::take_uuid(b) {
        Err(e) => Err(e),
        Ok((track_uid, b)) => match wire::take_u32(b) {
            Err(e) => Err(e),
            Ok((seq, b)) => Ok(ServerEvtView::ResumeOk { track_uid, last_acked_seq: seq as u64 }),
        },
    }
}

pub open spec fn parse_track_started(b: Seq<u8>) -> Result<ServerEvtView, DecodeError> {
    match wire::take_uuid(b) {
        Err(e) => Err(e),
        Ok((track_uid, b)) => match wire::take_bytes(b) {
            Err(e) => Err(e),
            Ok((metadata, b)) => Ok(ServerEvtView::TrackStarted { track_uid, metadata }),
        },
    }
}

pub open spec fn parse_server_loc(b: Seq<u8>) -> Result<ServerEvtView, DecodeError> {
    match wire::take_u8(b) {
        Err(e) => Err(e),
        Ok((sub, b)) => match wire::take_u32(b) {
            Err(e) => Err(e),
            Ok((seq, b)) => match points::take_point(b, None) {
                Err(e) => Err(e),
                Ok((point, b)) => Ok(
                    ServerEvtView::LocationAdded {
                        device_uid: Seq::empty(),
                        track_uid: Seq::empty(),
                        point,
                        client_seq: seq as u64,
                        sub,
                    },
                ),
            },
        },
    }
}

pub open spec fn take_route_opt(b: Seq<u8>, present: bool) -> wire::Taken<Seq<LatLng>> {
    if present {
        points::take_route(b)
    } else {
        Ok((Seq::empty(), b))
    }
}

/// Distance, duration, the names of both ends, metadata.
#[verifier::opaque]
pub open spec fn take_estimates(b: Seq<u8>) -> wire::Taken<(u64, u64, Seq<char>, Seq<char>, Seq<u8>)> {
    match wire::take_u64(b) {
        Err(e) => Err(e),
        Ok((distance, b)) => match wire::take_u64(b) {
            Err(e) => Err(e),
            Ok((duration, b)) => match wire::take_str(b) {
                Err(e) => Err(e),
                Ok((start, b)) => match wire::take_str(b) {
                    Err(e) => Err(e),
                    Ok((end, b)) => match wire::take_bytes(b) {
                        Err(e) => Err(e),
                        Ok((metadata, b)) => Ok(((distance, duration, start, end, metadata), b)),
                    },
                },
            },
        },
    }
}

/// The live part of a subscription: last location, time last seen, route.
#[verifier::opaque]
pub open spec fn take_live(b: Seq<u8>, flags: u8) -> wire::Taken<
    (Option<LatLng>, Option<i64>, Seq<LatLng>),
> {
    match take_location(b, points::flagged(flags, 1)) {
        Err(e) => Err(e),
        Ok((last_location, b)) => match points::take_time(b, points::flagged(flags, 2)) {
            Err(e) => Err(e),
            Ok((last_seen_ms, b)) => match take_route_opt(b, points::flagged(flags, 4)) {
                Err(e) => Err(e),
                Ok((route, b)) => Ok(((last_location, last_seen_ms, route), b)),
            },
        },
    }
}

/// Whom a subscription is about: handle, device, track, whether online, and the flags.
#[verifier::opaque]
pub open spec fn take_subject(b: Seq<u8>) -> wire::Taken<(u8, Seq<char>, Seq<char>, bool, u8)> {
    match wire::take_u8(b) {
        Err(e) => Err(e),
        Ok((sub, b)) => match wire::take_uuid(b) {
            Err(e) => Err(e),
            Ok((device_uid, b)) => match wire::take_uuid_opt(b) {
                Err(e) => Err(e),
                Ok((track_uid, b)) => match wire::take_u8(b) {
                    Err(e) => Err(e),
                    Ok((online, b)) => match wire::take_u8(b) {
                        Err(e) => Err(e),
                        Ok((flags, b)) => Ok(
                            ((sub, device_uid, none_as_empty(track_uid), online != 0, flags), b),
                        ),
                    },
                },
            },
        },
    }
}

pub open spec fn parse_subscribed(b: Seq<u8>) -> Result<ServerEvtView, DecodeError> {
    match take_subject(b) {
        Err(e) => Err(e),
        Ok((subject, b)) => match take_live(b, subject.4) {
            Err(e) => Err(e),
            Ok((live, b)) => match take_estimates(b) {
                Err(e) => Err(e),
                Ok((est, b)) => Ok(
                    ServerEvtView::Subscribed {
                        sub: subject.0,
                        device_uid: subject.1,
                        track_uid: subject.2,
                        last_location: live.0,
                        route: live.2,
                        estimated_distance: est.0,
                        estimated_duration: est.1,
                        start_location_name: est.2,
                        end_location_name: est.3,
                        metadata: est.4,
                        online: subject.3,
                        last_seen_ms: live.1,
                    },
                ),
            },
        },
    }
}

/// The code a byte stands for.
pub open spec fn error_code(v: u8) -> Option<ErrorCode> {
    if v == 1 {
        Some(ErrorCode::Auth)
    } else if v == 2 {
        Some(ErrorCode::TrackNotFound)
    } else if v == 3 {
        Some(ErrorCode::Fenced)
    } else if v == 4 {
        Some(ErrorCode::TryAgain)
    } else if v == 5 {
        Some(ErrorCode::Invalid)
    } else if v == 6 {
        Some(ErrorCode::Unauthorized)
    } else {
        None
    }
}

pub open spec fn parse_error(b: Seq<u8>) -> Result<ServerEvtView, DecodeError> {
    match wire::take_u8(b) {
        Err(e) => Err(e),
        Ok((code, b)) => match error_code(code) {
            None => Err(DecodeError::Invalid),
            Some(code) => match wire::take_u32(b) {
                Err(e) => Err(e),
                Ok((retry, b)) => match wire::take_uuid_opt(b) {
                    Err(e) => Err(e),
                    Ok((track_uid, b)) => match wire::take_str(b) {
                        Err(e) => Err(e),
                        Ok((message, b)) => Ok(
                            ServerEvtView::Error {
                                code,
                                message,
                                track_uid,
                                retry_after_ms: if retry == 0 {
                                    None
                                } else {
                                    Some(retry)
                                },
                            },
                        ),
                    },
                },
            },
        },
    }
}

pub open spec fn parse_event_added(b: Seq<u8>) -> Result<ServerEvtView, DecodeError> {
    match wire::take_u8(b) {
        Err(e) => Err(e),
        Ok((sub, b)) => match wire::take_bytes(b) {
            Err(e) => Err(e),
            Ok((payload, b)) => match wire::take_i64(b) {
                Err(e) => Err(e),
                Ok((t, b)) => Ok(
                    ServerEvtView::EventAdded {
                        device_uid: Seq::empty(),
                        track_uid: Seq::empty(),
                        payload,
                        timestamp_ms: time_or_none(t),
                        sub,
                    },
                ),
            },
        },
    }
}

pub open spec fn parse_command(b: Seq<u8>) -> Result<ServerEvtView, DecodeError> {
    match wire::take_uuid(b) {
        Err(e) => Err(e),
        Ok((command_id, b)) => match wire::take_bytes(b) {
            Err(e) => Err(e),
            Ok((payload, b)) => match wire::take_i64(b) {
                Err(e) => Err(e),
                Ok((t, b)) => Ok(
                    ServerEvtView::Command { command_id, payload, timestamp_ms: time_or_none(t) },
                ),
            },
        },
    }
}

pub open spec fn parse_presence(b: Seq<u8>) -> Result<ServerEvtView, DecodeError> {
    match wire::take_u8(b) {
        Err(e) => Err(e),
        Ok((sub, b)) => match wire::take_u8(b) {
            Err(e) => Err(e),
            Ok((online, b)) => match wire::take_i64(b) {
                Err(e) => Err(e),
                Ok((t, b)) => Ok(
                    ServerEvtView::DevicePresence {
                        device_uid: Seq::empty(),
                        online: online != 0,
                        last_seen_ms: time_or_none(t),
                        sub,
                    },
                ),
            },
        },
    }
}

/// The event in the body of a server frame of a known type.
pub open spec fn parse_server_body(t: u8, b: Seq<u8>) -> Result<ServerEvtView, DecodeError> {
    if t == S_HELLO {
        parse_hello(b)
    } else if t == S_RELOCATE {
        parse_relocate(b)
    } else if t == S_RESUME_OK {
        parse_resume_ok(b)
    } else if t == S_TRACK_STARTED {
        parse_track_started(b)
    } else if t == S_TRACK_STOPPED {
        match wire::take_uuid(b) {
            Err(e) => Err(e),
            Ok((track_uid, b)) => Ok(ServerEvtView::TrackStopped { track_uid }),
        }
    } else if t == S_ACK {
        match wire::take_u32(b) {
            Err(e) => Err(e),
            Ok((seq, b)) => Ok(ServerEvtView::Ack { seq: seq as u64 }),
        }
    } else if t == S_LOC {
        parse_server_loc(b)
    } else if t == S_SUBSCRIBED {
        parse_subscribed(b)
    } else if t == S_ERROR {
        parse_error(b)
    } else if t == S_EVENT_ADDED {
        parse_event_added(b)
    } else if t == S_COMMAND {
        parse_command(b)
    } else {
        parse_presence(b)
    }
}

/// What a server frame holds. Types 0x80 to 0x8B are known; 0x8D to 0xFE are unknown and
/// ignored; the rest is invalid. Bytes behind the last field are ignored.
pub open spec fn parse_server(b: Seq<u8>) -> Result<Option<ServerEvtView>, DecodeError> {
    if b.len() == 0 {
        Err(DecodeError::Truncated)
    } else if S_HELLO <= b[0] <= S_PRESENCE {
        match parse_server_body(b[0], b.skip(1)) {
            Err(e) => Err(e),
            Ok(v) => Ok(Some(v)),
        }
    } else if 0x8D <= b[0] <= 0xFE {
        Ok(None)
    } else {
        Err(DecodeError::Invalid)
    }
}

/// The bytes of the live part of a subscription.
pub open spec fn live_bytes(
    last_location: Option<LatLng>,
    last_seen_ms: Option<i64>,
    route: Seq<LatLng>,
) -> Seq<u8> {
    (match last_location {
        Some(p) => points::point_bytes(p, None),
        None => Seq::empty(),
    }) + ((match last_seen_ms {
        Some(t) => wire::le64(t as int),
        None => Seq::empty(),
    }) + (if route.len() > 0 {
        points::route_bytes(route)
    } else {
        Seq::empty()
    }))
}

/// Which parts of a subscription are present: location 1, time 2, route 4.
pub open spec fn live_flags(
    last_location: Option<LatLng>,
    last_seen_ms: Option<i64>,
    route: Seq<LatLng>,
) -> u8 {
    ((if last_location is Some { 1int } else { 0 }) + (if last_seen_ms is Some { 2int } else { 0 })
        + (if route.len() > 0 { 4int } else { 0 })) as u8
}

pub open spec fn estimates_bytes(
    distance: u64,
    duration: u64,
    start: Seq<char>,
    end: Seq<char>,
    metadata: Seq<u8>,
) -> Seq<u8> {
    wire::le64(distance as int) + (wire::le64(duration as int) + (wire::counted_text(start) + (
    wire::counted_text(end) + wire::counted(metadata))))
}

/// The bytes of a server event.
pub open spec fn server_frame(evt: ServerEvtView) -> Seq<u8> {
    match evt {
        ServerEvtView::Hello { version, node_id, shard } => seq![S_HELLO] + (seq![version] + (
        wire::le16(shard as int) + uuids::uid_octets(node_id))),
        ServerEvtView::Relocate { endpoint, retry_after_ms } => seq![S_RELOCATE] + (wire::le32(
            retry_after_ms as int,
        ) + wire::counted_text(endpoint)),
        ServerEvtView::ResumeOk { track_uid, last_acked_seq } => seq![S_RESUME_OK] + (
        uuids::uid_octets(track_uid) + wire::le32(last_acked_seq as int)),
        ServerEvtView::TrackStarted { track_uid, metadata } => seq![S_TRACK_STARTED] + (
        uuids::uid_octets(track_uid) + wire::counted(metadata)),
        ServerEvtView::TrackStopped { track_uid } => seq![S_TRACK_STOPPED] + uuids::uid_octets(
            track_uid,
        ),
        ServerEvtView::Ack { seq } => seq![S_ACK] + wire::le32(seq as int),
        ServerEvtView::LocationAdded { point, client_seq, sub, .. } => seq![S_LOC] + (seq![sub] + (
        wire::le32(client_seq as int) + points::point_bytes(point, None))),
        ServerEvtView::Subscribed {
            sub,
            device_uid,
            track_uid,
            last_location,
            route,
            estimated_distance,
            estimated_duration,
            start_location_name,
            end_location_name,
            metadata,
            online,
            last_seen_ms,
        } => (seq![S_SUBSCRIBED] + (seq![sub] + (uuids::uid_octets(device_uid) + (
        uuids::uid_octets(track_uid) + (seq![wire::bit(online)]))))) + (seq![
            live_flags(last_location, last_seen_ms, route),
        ] + (live_bytes(last_location, last_seen_ms, route) + estimates_bytes(
            estimated_distance,
            estimated_duration,
            start_location_name,
            end_location_name,
            metadata,
        ))),
        ServerEvtView::Error { code, message, track_uid, retry_after_ms } => seq![S_ERROR] + (seq![
            code.byte(),
        ] + (wire::le32(
            match retry_after_ms {
                Some(ms) => ms as int,
                None => 0,
            },
        ) + (uuids::uid_octets(none_as_empty(track_uid)) + wire::counted_text(message)))),
        ServerEvtView::EventAdded { payload, timestamp_ms, sub, .. } => seq![S_EVENT_ADDED] + (seq![
            sub,
        ] + (wire::counted(payload) + wire::le64(none_as_zero(timestamp_ms)))),
        ServerEvtView::Command { command_id, payload, timestamp_ms } => seq![S_COMMAND] + (
        uuids::uid_octets(command_id) + (wire::counted(payload) + wire::le64(
            none_as_zero(timestamp_ms),
        ))),
        ServerEvtView::DevicePresence { online, last_seen_ms, sub, .. } => seq![S_PRESENCE] + (seq![
            sub,
        ] + (seq![wire::bit(online)] + wire::le64(none_as_zero(last_seen_ms)))),
    }
}

// ---------------------------------------------------------------------------------------------
// Server frames: code.
// ---------------------------------------------------------------------------------------------

fn decode_hello(r: &mut Reader<'_>) -> (res: Result<ServerEvt, DecodeError>)
    requires
        old(r).wf(),
    ensures
        decodes(parse_hello(old(r)@), res),
{
    let version: u8 = r.read_u8()?;
    let shard: u16 = r.read_u16()?;
    let node_id = r.read_uuid()?;
    Ok(ServerEvt::Hello { version, node_id, shard: shard as u32 })
}

fn decode_relocate(r: &mut Reader<'_>) -> (res: Result<ServerEvt, DecodeError>)
    requires
        old(r).wf(),
    ensures
        decodes(parse_relocate(old(r)@), res),
{
    let retry_after_ms: u32 = r.read_u32()?;
    let endpoint = r.read_str()?;
    Ok(ServerEvt::Relocate { endpoint, retry_after_ms })
}

fn decode_resume_ok(r: &mut Reader<'_>) -> (res: Result<ServerEvt, DecodeError>)
    requires
        old(r).wf(),
    ensures
        decodes(parse_resume_ok(old(r)@), res),
{
    let track_uid = r.read_uuid()?;
    let seq: u32 = r.read_u32()?;
    Ok(ServerEvt::ResumeOk { track_uid, last_acked_seq: seq as u64 })
}

fn decode_track_started(r: &mut Reader<'_>) -> (res: Result<ServerEvt, DecodeError>)
    requires
        old(r).wf(),
    ensures
        decodes(parse_track_started(old(r)@), res),
{
    let track_uid = r.read_uuid()?;
    let metadata = r.read_bytes()?;
    Ok(ServerEvt::TrackStarted { track_uid, metadata })
}

fn decode_server_loc(r: &mut Reader<'_>) -> (res: Result<ServerEvt, DecodeError>)
    requires
        old(r).wf(),
    ensures
        decodes(parse_server_loc(old(r)@), res),
{
    let sub: u8 = r.read_u8()?;
    let seq: u32 = r.read_u32()?;
    let point = points::read_point(r, None)?;
    let device_uid = String::new();
    let track_uid = String::new();
    assert(device_uid@ =~= Seq::<char>::empty());
    assert(track_uid@ =~= Seq::<char>::empty());
    Ok(ServerEvt::LocationAdded { device_uid, track_uid, point, client_seq: seq as u64, sub })
}

fn read_live(r: &mut Reader<'_>, flags: u8) -> (res: Result<
    (Option<LatLng>, Option<i64>, Vec<LatLng>),
    DecodeError,
>)
    requires
        old(r).wf(),
    ensures
        final(r).wf(),
        match take_live(old(r)@, flags) {
            Ok((v, rest)) => {
                &&& res is Ok
                &&& (res->Ok_0.0, res->Ok_0.1, res->Ok_0.2@) == v
                &&& final(r)@ == rest
            },
            Err(e) => res is Err && res->Err_0 == e,
        },
{
    reveal(take_live);
    let last_location = read_location(r, flags % 2 == 1)?;
    let last_seen_ms: Option<i64> = if (flags / 2) % 2 == 1 {
        let t: i64 = r.read_i64()?;
        Some(t)
    } else {
        None
    };
    if (flags / 4) % 2 == 1 {
        let route = points::read_route_abs(r)?;
        Ok((last_location, last_seen_ms, route))
    } else {
        let route: Vec<LatLng> = Vec::new();
        assert(route@ =~= Seq::<LatLng>::empty());
        Ok((last_location, last_seen_ms, route))
    }
}

fn read_estimates(r: &mut Reader<'_>) -> (res: Result<
    (u64, u64, String, String, Vec<u8>),
    DecodeError,
>)
    requires
        old(r).wf(),
    ensures
        final(r).wf(),
        match take_estimates(old(r)@) {
            Ok((v, rest)) => {
                &&& res is Ok
                &&& (
                    res->Ok_0.0,
                    res->Ok_0.1,
                    res->Ok_0.2@,
                    res->Ok_0.3@,
                    res->Ok_0.4@,
                ) == v
                &&& final(r)@ == rest
            },
            Err(e) => res is Err && res->Err_0 == e,
        },
{
    reveal(take_estimates);
    let distance: u64 = r.read_u64()?;
    let duration: u64 = r.read_u64()?;
    let start = r.read_str()?;
    let end = r.read_str()?;
    let metadata = r.read_bytes()?;
    Ok((distance, duration, start, end, metadata))
}

fn read_subject(r: &mut Reader<'_>) -> (res: Result<(u8, String, String, bool, u8), DecodeError>)
    requires
        old(r).wf(),
    ensures
        final(r).wf(),
        match take_subject(old(r)@) {
            Ok((v, rest)) => {
                &&& res is Ok
                &&& (
                    res->Ok_0.0,
                    res->Ok_0.1@,
                    res->Ok_0.2@,
                    res->Ok_0.3,
                    res->Ok_0.4,
                ) == v
                &&& final(r)@ == rest
            },
            Err(e) => res is Err && res->Err_0 == e,
        },
{
    reveal(take_subject);
    let sub: u8 = r.read_u8()?;
    let device_uid = r.read_uuid()?;
    let track = r.read_uuid_opt()?;
    let track_uid = match track {
        Some(id) => id,
        None => {
            let empty = String::new();
            assert(empty@ =~= Seq::<char>::empty());
            empty
        },
    };
    let online: u8 = r.read_u8()?;
    let flags: u8 = r.read_u8()?;
    Ok((sub, device_uid, track_uid, online != 0, flags))
}

fn decode_subscribed(r: &mut Reader<'_>) -> (res: Result<ServerEvt, DecodeError>)
    requires
        old(r).wf(),
    ensures
        decodes(parse_subscribed(old(r)@), res),
{
    let (sub, device_uid, track_uid, online, flags) = read_subject(r)?;
    let (last_location, last_seen_ms, route) = read_live(r, flags)?;
    let (
        estimated_distance,
        estimated_duration,
        start_location_name,
        end_location_name,
        metadata,
    ) = read_estimates(r)?;
    Ok(
        ServerEvt::Subscribed {
            sub,
            device_uid,
            track_uid,
            last_location,
            route,
            estimated_distance,
            estimated_duration,
            start_location_name,
            end_location_name,
            metadata,
            online,
            last_seen_ms,
        },
    )
}

fn decode_error(r: &mut Reader<'_>) -> (res: Result<ServerEvt, DecodeError>)
    requires
        old(r).wf(),
    ensures
        decodes(parse_error(old(r)@), res),
{
    let byte: u8 = r.read_u8()?;
    let code = match ErrorCode::from_u8(byte) {
        Some(code) => code,
        None => return Err(DecodeError::Invalid),
    };
    let retry: u32 = r.read_u32()?;
    let track_uid = r.read_uuid_opt()?;
    let message = r.read_str()?;
    Ok(
        ServerEvt::Error {
            code,
            message,
            track_uid,
            retry_after_ms: if retry == 0 {
                None
            } else {
                Some(retry)
            },
        },
    )
}

fn decode_event_added(r: &mut Reader<'_>) -> (res: Result<ServerEvt, DecodeError>)
    requires
        old(r).wf(),
    ensures
        decodes(parse_event_added(old(r)@), res),
{
    let sub: u8 = r.read_u8()?;
    let payload = r.read_bytes()?;
    let t: i64 = r.read_i64()?;
    let device_uid = String::new();
    let track_uid = String::new();
    assert(device_uid@ =~= Seq::<char>::empty());
    assert(track_uid@ =~= Seq::<char>::empty());
    Ok(ServerEvt::EventAdded { device_uid, track_uid, payload, timestamp_ms: nonzero_time(t), sub })
}

fn decode_command(r: &mut Reader<'_>) -> (res: Result<ServerEvt, DecodeError>)
    requires
        old(r).wf(),
    ensures
        decodes(parse_command(old(r)@), res),
{
    let command_id = r.read_uuid()?;
    let payload = r.read_bytes()?;
    let t: i64 = r.read_i64()?;
    Ok(ServerEvt::Command { command_id, payload, timestamp_ms: nonzero_time(t) })
}

fn decode_presence(r: &mut Reader<'_>) -> (res: Result<ServerEvt, DecodeError>)
    requires
        old(r).wf(),
    ensures
        decodes(parse_presence(old(r)@), res),
{
    let sub: u8 = r.read_u8()?;
    let online: u8 = r.read_u8()?;
    let t: i64 = r.read_i64()?;
    let device_uid = String::new();
    assert(device_uid@ =~= Seq::<char>::empty());
    Ok(
        ServerEvt::DevicePresence {
            device_uid,
            online: online != 0,
            last_seen_ms: nonzero_time(t),
            sub,
        },
    )
}

/// Decodes a server frame. `Ok(None)` is an unknown server type, to be ignored.
pub fn decode_server_evt(bytes: &[u8]) -> (r: Result<Option<ServerEvt>, DecodeError>)
    ensures
        match parse_server(bytes@) {
            Ok(Some(v)) => r is Ok && r->Ok_0 is Some && r->Ok_0->0@ == v,
            Ok(None) => r is Ok && r->Ok_0 is None,
            Err(e) => r == Err::<Option<ServerEvt>, DecodeError>(e),
        },
{
    if bytes.len() == 0 {
        return Err(DecodeError::Truncated);
    }
    let mut r = Reader::new(bytes);
    let t: u8 = r.read_u8()?;
    let evt = if t == S_HELLO {
        decode_hello(&mut r)?
    } else if t == S_RELOCATE {
        decode_relocate(&mut r)?
    } else if t == S_RESUME_OK {
        decode_resume_ok(&mut r)?
    } else if t == S_TRACK_STARTED {
        decode_track_started(&mut r)?
    } else if t == S_TRACK_STOPPED {
        let track_uid = r.read_uuid()?;
        ServerEvt::TrackStopped { track_uid }
    } else if t == S_ACK {
        let seq: u32 = r.read_u32()?;
        ServerEvt::Ack { seq: seq as u64 }
    } else if t == S_LOC {
        decode_server_loc(&mut r)?
    } else if t == S_SUBSCRIBED {
        decode_subscribed(&mut r)?
    } else if t == S_ERROR {
        decode_error(&mut r)?
    } else if t == S_EVENT_ADDED {
        decode_event_added(&mut r)?
    } else if t == S_COMMAND {
        decode_command(&mut r)?
    } else if t == S_PRESENCE {
        decode_presence(&mut r)?
    } else if t >= 0x8D && t <= 0xFE {
        return Ok(None);
    } else {
        return Err(DecodeError::Invalid);
    };
    Ok(Some(evt))
}

/// What a server frame holds, where unknown types are invalid too.
pub open spec fn parse_server_msg(b: Seq<u8>) -> Result<ServerEvtView, DecodeError> {
    match parse_server(b) {
        Ok(Some(v)) => Ok(v),
        Ok(None) => Err(DecodeError::Invalid),
        Err(e) => Err(e),
    }
}

/// Decodes a server frame; unknown types are invalid.
pub fn decode_server_msg(data: &[u8]) -> (r: Result<ServerEvt, DecodeError>)
    ensures
        decodes(parse_server_msg(data@), r),
{
    match decode_server_evt(data)? {
        Some(evt) => Ok(evt),
        None => Err(DecodeError::Invalid),
    }
}

fn frame_hello(version: u8, node_id: &str, shard: u32) -> (w: Vec<u8>)
    ensures
        w@ == server_frame(ServerEvtView::Hello { version, node_id: node_id@, shard }),
{
    let mut w: Vec<u8> = Vec::new();
    let ghost w0 = w@;
    wire::put_u8(&mut w, S_HELLO);
    wire::put_u8(&mut w, version);
    wire::put_u16(&mut w, (shard % 0x1_0000) as u16);
    wire::put_uuid(&mut w, node_id);
    proof {
        let n = wire::le16(shard as int);
        let id = uuids::uid_octets(node_id@);
        assert(wire::le16((shard % 0x1_0000) as int) == n) by {
            let q = shard as int / 0x1_0000;
            let c = shard as int % 0x1_0000;
            vstd::arithmetic::div_mod::lemma_fundamental_div_mod_converse(
                shard as int,
                256,
                256 * q + c / 256,
                c % 256,
            );
        }
        wire::lemma_append4(w0, seq![S_HELLO], seq![version], n, id);
        wire::lemma_append_to_empty(seq![S_HELLO] + (seq![version] + (n + id)));
    }
    w
}

fn frame_relocate(endpoint: &str, retry_after_ms: u32) -> (w: Vec<u8>)
    ensures
        w@ == server_frame(ServerEvtView::Relocate { endpoint: endpoint@, retry_after_ms }),
{
    let mut w: Vec<u8> = Vec::new();
    let ghost w0 = w@;
    wire::put_u8(&mut w, S_RELOCATE);
    wire::put_u32(&mut w, retry_after_ms);
    wire::put_str(&mut w, endpoint);
    proof {
        let n = wire::le32(retry_after_ms as int);
        let t = wire::counted_text(endpoint@);
        wire::lemma_append3(w0, seq![S_RELOCATE], n, t);
        wire::lemma_append_to_empty(seq![S_RELOCATE] + (n + t));
    }
    w
}

fn frame_resume_ok(track_uid: &str, last_acked_seq: u64) -> (w: Vec<u8>)
    ensures
        w@ == server_frame(ServerEvtView::ResumeOk { track_uid: track_uid@, last_acked_seq }),
{
    let mut w: Vec<u8> = Vec::new();
    let ghost w0 = w@;
    wire::put_u8(&mut w, S_RESUME_OK);
    wire::put_uuid(&mut w, track_uid);
    wire::put_seq(&mut w, last_acked_seq);
    proof {
        let id = uuids::uid_octets(track_uid@);
        let n = wire::le32(last_acked_seq as int);
        wire::lemma_append3(w0, seq![S_RESUME_OK], id, n);
        wire::lemma_append_to_empty(seq![S_RESUME_OK] + (id + n));
    }
    w
}

fn frame_track_started(track_uid: &str, metadata: &[u8]) -> (w: Vec<u8>)
    ensures
        w@ == server_frame(
            ServerEvtView::TrackStarted { track_uid: track_uid@, metadata: metadata@ },
        ),
{
    let mut w: Vec<u8> = Vec::new();
    let ghost w0 = w@;
    wire::put_u8(&mut w, S_TRACK_STARTED);
    wire::put_uuid(&mut w, track_uid);
    wire::put_bytes(&mut w, metadata);
    proof {
        let id = uuids::uid_octets(track_uid@);
        let m = wire::counted(metadata@);
        wire::lemma_append3(w0, seq![S_TRACK_STARTED], id, m);
        wire::lemma_append_to_empty(seq![S_TRACK_STARTED] + (id + m));
    }
    w
}

fn frame_track_stopped(track_uid: &str) -> (w: Vec<u8>)
    ensures
        w@ == server_frame(ServerEvtView::TrackStopped { track_uid: track_uid@ }),
{
    let mut w: Vec<u8> = Vec::new();
    let ghost w0 = w@;
    wire::put_u8(&mut w, S_TRACK_STOPPED);
    wire::put_uuid(&mut w, track_uid);
    proof {
        let id = uuids::uid_octets(track_uid@);
        wire::lemma_append(w0, seq![S_TRACK_STOPPED], id);
        wire::lemma_append_to_empty(seq![S_TRACK_STOPPED] + id);
    }
    w
}

fn frame_ack(seq: u64) -> (w: Vec<u8>)
    ensures
        w@ == server_frame(ServerEvtView::Ack { seq }),
{
    let mut w: Vec<u8> = Vec::new();
    let ghost w0 = w@;
    wire::put_u8(&mut w, S_ACK);
    wire::put_seq(&mut w, seq);
    proof {
        let n = wire::le32(seq as int);
        wire::lemma_append(w0, seq![S_ACK], n);
        wire::lemma_append_to_empty(seq![S_ACK] + n);
    }
    w
}

fn frame_server_loc(sub: u8, client_seq: u64, point: &LatLng) -> (w: Vec<u8>)
    ensures
        w@ == seq![S_LOC] + (seq![sub] + (wire::le32(client_seq as int) + points::point_bytes(
            *point,
            None,
        ))),
{
    let mut w: Vec<u8> = Vec::new();
    let ghost w0 = w@;
    wire::put_u8(&mut w, S_LOC);
    wire::put_u8(&mut w, sub);
    wire::put_seq(&mut w, client_seq);
    points::write_abs(&mut w, point);
    proof {
        let n = wire::le32(client_seq as int);
        let p = points::point_bytes(*point, None);
        wire::lemma_append4(w0, seq![S_LOC], seq![sub], n, p);
        wire::lemma_append_to_empty(seq![S_LOC] + (seq![sub] + (n + p)));
    }
    w
}

fn write_live(
    w: &mut Vec<u8>,
    last_location: Option<LatLng>,
    last_seen_ms: Option<i64>,
    route: &[LatLng],
)
    ensures
        final(w)@ == old(w)@ + (seq![live_flags(last_location, last_seen_ms, route@)] + live_bytes(
            last_location,
            last_seen_ms,
            route@,
        )),
{
    let ghost w0 = w@;
    let ghost none = Seq::<u8>::empty();
    let ghost loc = match last_location {
        Some(p) => points::point_bytes(p, None),
        None => none,
    };
    let ghost time = match last_seen_ms {
        Some(t) => wire::le64(t as int),
        None => none,
    };
    let ghost way = if route@.len() > 0 {
        points::route_bytes(route@)
    } else {
        none
    };
    let mut flags: u8 = 0;
    if last_location.is_some() {
        flags = flags + 1;
    }
    if last_seen_ms.is_some() {
        flags = flags + 2;
    }
    if route.len() > 0 {
        flags = flags + 4;
    }
    wire::put_u8(w, flags);
    let ghost w1 = w@;
    if let Some(p) = last_location {
        points::write_abs(w, &p);
    }
    assert(w@ == w1 + loc) by {
        assert(w1 + none =~= w1);
    }
    let ghost w2 = w@;
    if let Some(t) = last_seen_ms {
        wire::put_i64(w, t);
    }
    assert(w@ == w2 + time) by {
        assert(w2 + none =~= w2);
    }
    let ghost w3 = w@;
    if route.len() > 0 {
        points::write_route_abs(w, route);
    }
    assert(w@ == w3 + way) by {
        assert(w3 + none =~= w3);
    }
    proof {
        wire::lemma_append4(w0, seq![flags], loc, time, way);
    }
}

fn write_estimates(
    w: &mut Vec<u8>,
    distance: u64,
    duration: u64,
    start: &str,
    end: &str,
    metadata: &[u8],
)
    ensures
        final(w)@ == old(w)@ + estimates_bytes(distance, duration, start@, end@, metadata@),
{
    let ghost w0 = w@;
    wire::put_u64(w, distance);
    wire::put_u64(w, duration);
    wire::put_str(w, start);
    wire::put_str(w, end);
    wire::put_bytes(w, metadata);
    proof {
        wire::lemma_append5(
            w0,
            wire::le64(distance as int),
            wire::le64(duration as int),
            wire::counted_text(start@),
            wire::counted_text(end@),
            wire::counted(metadata@),
        );
    }
}

fn frame_subscribed_head(sub: u8, device_uid: &str, track_uid: &str, online: bool) -> (w: Vec<u8>)
    ensures
        w@ == seq![S_SUBSCRIBED] + (seq![sub] + (uuids::uid_octets(device_uid@) + (
        uuids::uid_octets(track_uid@) + (seq![wire::bit(online)])))),
{
    let mut w: Vec<u8> = Vec::new();
    let ghost w0 = w@;
    wire::put_u8(&mut w, S_SUBSCRIBED);
    wire::put_u8(&mut w, sub);
    wire::put_uuid(&mut w, device_uid);
    wire::put_uuid(&mut w, track_uid);
    wire::put_u8(&mut w, if online { 1 } else { 0 });
    proof {
        let d = uuids::uid_octets(device_uid@);
        let t = uuids::uid_octets(track_uid@);
        let o = seq![wire::bit(online)];
        wire::lemma_append5(w0, seq![S_SUBSCRIBED], seq![sub], d, t, o);
        wire::lemma_append_to_empty(seq![S_SUBSCRIBED] + (seq![sub] + (d + (t + o))));
    }
    w
}

fn frame_error(
    code: ErrorCode,
    message: &str,
    track_uid: &Option<String>,
    retry_after_ms: Option<u32>,
) -> (w: Vec<u8>)
    ensures
        w@ == server_frame(
            ServerEvtView::Error {
                code,
                message: message@,
                track_uid: crate::tracking::cmd::text_view(*track_uid),
                retry_after_ms,
            },
        ),
{
    let mut w: Vec<u8> = Vec::new();
    let ghost w0 = w@;
    wire::put_u8(&mut w, S_ERROR);
    wire::put_u8(&mut w, code.to_u8());
    wire::put_u32(&mut w, retry_after_ms.unwrap_or(0));
    let ghost uid = none_as_empty(crate::tracking::cmd::text_view(*track_uid));
    match track_uid {
        Some(s) => wire::put_uuid(&mut w, s.as_str()),
        None => {
            let empty = String::new();
            assert(empty@ =~= Seq::<char>::empty());
            wire::put_uuid(&mut w, empty.as_str());
        },
    }
    wire::put_str(&mut w, message);
    proof {
        let n = wire::le32(
            match retry_after_ms {
                Some(ms) => ms as int,
                None => 0,
            },
        );
        let c = seq![code.byte()];
        let id = uuids::uid_octets(uid);
        let m = wire::counted_text(message@);
        wire::lemma_append5(w0, seq![S_ERROR], c, n, id, m);
        wire::lemma_append_to_empty(seq![S_ERROR] + (c + (n + (id + m))));
    }
    w
}

fn frame_event_added(sub: u8, payload: &[u8], timestamp_ms: Option<i64>) -> (w: Vec<u8>)
    ensures
        w@ == seq![S_EVENT_ADDED] + (seq![sub] + (wire::counted(payload@) + wire::le64(
            none_as_zero(timestamp_ms),
        ))),
{
    let mut w: Vec<u8> = Vec::new();
    let ghost w0 = w@;
    wire::put_u8(&mut w, S_EVENT_ADDED);
    wire::put_u8(&mut w, sub);
    wire::put_bytes(&mut w, payload);
    wire::put_i64(&mut w, timestamp_ms.unwrap_or(0));
    proof {
        let p = wire::counted(payload@);
        let t = wire::le64(none_as_zero(timestamp_ms));
        wire::lemma_append4(w0, seq![S_EVENT_ADDED], seq![sub], p, t);
        wire::lemma_append_to_empty(seq![S_EVENT_ADDED] + (seq![sub] + (p + t)));
    }
    w
}

fn frame_command(command_id: &str, payload: &[u8], timestamp_ms: Option<i64>) -> (w: Vec<u8>)
    ensures
        w@ == server_frame(
            ServerEvtView::Command { command_id: command_id@, payload: payload@, timestamp_ms },
        ),
{
    let mut w: Vec<u8> = Vec::new();
    let ghost w0 = w@;
    wire::put_u8(&mut w, S_COMMAND);
    wire::put_uuid(&mut w, command_id);
    wire::put_bytes(&mut w, payload);
    wire::put_i64(&mut w, timestamp_ms.unwrap_or(0));
    proof {
        let id = uuids::uid_octets(command_id@);
        let p = wire::counted(payload@);
        let t = wire::le64(none_as_zero(timestamp_ms));
        wire::lemma_append4(w0, seq![S_COMMAND], id, p, t);
        wire::lemma_append_to_empty(seq![S_COMMAND] + (id + (p + t)));
    }
    w
}

fn frame_presence(sub: u8, online: bool, last_seen_ms: Option<i64>) -> (w: Vec<u8>)
    ensures
        w@ == seq![S_PRESENCE] + (seq![sub] + (seq![wire::bit(online)] + wire::le64(
            none_as_zero(last_seen_ms),
        ))),
{
    let mut w: Vec<u8> = Vec::new();
    let ghost w0 = w@;
    wire::put_u8(&mut w, S_PRESENCE);
    wire::put_u8(&mut w, sub);
    wire::put_u8(&mut w, if online { 1 } else { 0 });
    wire::put_i64(&mut w, last_seen_ms.unwrap_or(0));
    proof {
        let o = seq![wire::bit(online)];
        let t = wire::le64(none_as_zero(last_seen_ms));
        wire::lemma_append4(w0, seq![S_PRESENCE], seq![sub], o, t);
        wire::lemma_append_to_empty(seq![S_PRESENCE] + (seq![sub] + (o + t)));
    }
    w
}

/// Marshals a server event.
pub fn encode_server_evt(evt: &ServerEvt) -> (w: Vec<u8>)
    ensures
        w@ == server_frame(evt@),
{
    match evt {
        ServerEvt::Hello { version, node_id, shard } => frame_hello(
            *version,
            node_id.as_str(),
            *shard,
        ),
        ServerEvt::Relocate { endpoint, retry_after_ms } => frame_relocate(
            endpoint.as_str(),
            *retry_after_ms,
        ),
        ServerEvt::ResumeOk { track_uid, last_acked_seq } => frame_resume_ok(
            track_uid.as_str(),
            *last_acked_seq,
        ),
        ServerEvt::TrackStarted { track_uid, metadata } => frame_track_started(
            track_uid.as_str(),
            metadata.as_slice(),
        ),
        ServerEvt::TrackStopped { track_uid } => frame_track_stopped(track_uid.as_str()),
        ServerEvt::Ack { seq } => frame_ack(*seq),
        ServerEvt::LocationAdded { point, client_seq, sub, .. } => frame_server_loc(
            *sub,
            *client_seq,
            point,
        ),
        ServerEvt::Subscribed {
            sub,
            device_uid,
            track_uid,
            last_location,
            route,
            estimated_distance,
            estimated_duration,
            start_location_name,
            end_location_name,
            metadata,
            online,
            last_seen_ms,
        } => {
            let mut w = frame_subscribed_head(
                *sub,
                device_uid.as_str(),
                track_uid.as_str(),
                *online,
            );
            let ghost head = w@;
            write_live(&mut w, *last_location, *last_seen_ms, route.as_slice());
            write_estimates(
                &mut w,
                *estimated_distance,
                *estimated_duration,
                start_location_name.as_str(),
                end_location_name.as_str(),
                metadata.as_slice(),
            );
            proof {
                let flags = seq![live_flags(*last_location, *last_seen_ms, route@)];
                let live = live_bytes(*last_location, *last_seen_ms, route@);
                let est = estimates_bytes(
                    *estimated_distance,
                    *estimated_duration,
                    start_location_name@,
                    end_location_name@,
                    metadata@,
                );
                wire::lemma_append(head, flags + live, est);
                wire::lemma_append(flags, live, est);
            }
            w
        },
        ServerEvt::Error { code, message, track_uid, retry_after_ms } => frame_error(
            *code,
            message.as_str(),
            track_uid,
            *retry_after_ms,
        ),
        ServerEvt::EventAdded { payload, timestamp_ms, sub, .. } => frame_event_added(
            *sub,
            payload.as_slice(),
            *timestamp_ms,
        ),
        ServerEvt::Command { command_id, payload, timestamp_ms } => frame_command(
            command_id.as_str(),
            payload.as_slice(),
            *timestamp_ms,
        ),
        ServerEvt::DevicePresence { online, last_seen_ms, sub, .. } => frame_presence(
            *sub,
            *online,
            *last_seen_ms,
        ),
    }
}

// ---------------------------------------------------------------------------------------------
// Timestamps.
// ---------------------------------------------------------------------------------------------

/// A sample with its own time, or with `now` where it has none.
pub open spec fn stamped(p: LatLng, now: i64) -> LatLng {
    match p.timestamp_ms {
        Some(_) => p,
        None => LatLng { timestamp_ms: Some(now), ..p },
    }
}

/// Sets `timestamp_ms` to `now` when omitted.
pub fn stamp_lat_lng_at(p: LatLng, now: i64) -> (r: LatLng)
    ensures
        r == stamped(p, now),
{
    let mut p = p;
    if p.timestamp_ms.is_none() {
        p.timestamp_ms = Some(now);
    }
    p
}

/// Sets `timestamp_ms` to the current time when omitted (capture time for staging).
pub fn stamp_lat_lng(p: LatLng) -> (r: LatLng)
    ensures
        r.timestamp_ms is Some,
        r == stamped(p, r.timestamp_ms->0),
{
    let now: i64 = clock::now_ms();
    stamp_lat_lng_at(p, now)
}

/// Stamps every point with `now` where it has no time of its own.
pub fn stamp_lat_lngs_at(points: Vec<LatLng>, now: i64) -> (r: Vec<LatLng>)
    ensures
        r@ == points@.map_values(|p: LatLng| stamped(p, now)),
{
    let mut out: Vec<LatLng> = Vec::new();
    let mut i: usize = 0;
    while i < points.len()
        invariant
            i <= points@.len(),
            out@ == points@.take(i as int).map_values(|p: LatLng| stamped(p, now)),
        decreases points@.len() - i,
    {
        out.push(stamp_lat_lng_at(points[i], now));
        i += 1;
        assert(out@ =~= points@.take(i as int).map_values(|p: LatLng| stamped(p, now)));
    }
    assert(points@.take(i as int) =~= points@);
    out
}

/// Stamps every point with the current time where it has no time of its own.
pub fn stamp_lat_lngs(points: Vec<LatLng>) -> (r: Vec<LatLng>)
    ensures
        exists|now: i64| r@ == #[trigger] stamped_all(points@, now),
{
    let now: i64 = clock::now_ms();
    let ghost before = points@;
    let r = stamp_lat_lngs_at(points, now);
    assert(r@ == stamped_all(before, now));
    r
}

pub open spec fn stamped_all(points: Seq<LatLng>, now: i64) -> Seq<LatLng> {
    points.map_values(|p: LatLng| stamped(p, now))
}

/// Live points go without a time, so that the server stamps the ingest time.
pub fn strip_live_time(p: LatLng) -> (r: LatLng)
    ensures
        r == (LatLng { timestamp_ms: None, ..p }),
{
    let mut p = p;
    p.timestamp_ms = None;
    p
}

/// Builds a resume command.
pub fn client_resume(track_uid: &str, last_client_seq: u64) -> (r: ClientCmd)
    ensures
        r@ == (ClientCmdView::Resume { track_uid: track_uid@, last_client_seq }),
{
    ClientCmd::Resume { track_uid: track_uid.to_owned(), last_client_seq }
}

pub fn protocol_version() -> (r: u8)
    ensures
        r == 2,
{
    PROTOCOL_VERSION
}

} // verus!
