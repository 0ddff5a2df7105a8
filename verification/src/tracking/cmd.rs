//! Transport-agnostic commands and events.

use crate::tracking::types::{CommandAckStatus, ErrorCode, LatLng};
use vstd::prelude::*;

verus! {

/// What a client sends.
#[derive(Debug, Clone, PartialEq)]
pub enum ClientCmd {
    Resume { track_uid: String, last_client_seq: u64 },
    TrackStart { location: Option<LatLng>, route: Vec<LatLng>, metadata: Vec<u8> },
    /// Empty body on the wire. Idle stop is a no-op.
    TrackStop { track_uid: String },
    LocationAdd { track_uid: String, client_seq: u64, point: LatLng },
    LocationBatch { track_uid: String, client_seq: u64, points: Vec<LatLng> },
    Subscribe { device_uid: String, include_events: bool, min_location_interval_ms: u32 },
    Unsubscribe { sub: u8 },
    Event { track_uid: String, payload: Vec<u8>, timestamp_ms: Option<i64> },
    CommandAck { command_id: String, status: CommandAckStatus, message: Option<String> },
}

/// What a server sends.
#[allow(inconsistent_fields)]
#[derive(Debug, Clone, PartialEq)]
pub enum ServerEvt {
    Hello { version: u8, node_id: String, shard: u32 },
    Relocate { endpoint: String, retry_after_ms: u32 },
    ResumeOk { track_uid: String, last_acked_seq: u64 },
    TrackStarted { track_uid: String, metadata: Vec<u8> },
    TrackStopped { track_uid: String },
    /// Device ingest receipt. Never fanned out to listeners.
    Ack { seq: u64 },
    /// Listener live point (`0x86 Loc`).
    LocationAdded {
        device_uid: String,
        track_uid: String,
        point: LatLng,
        client_seq: u64,
        sub: u8,
    },
    /// Distance and duration are IEEE-754 bit patterns.
    Subscribed {
        sub: u8,
        device_uid: String,
        track_uid: String,
        last_location: Option<LatLng>,
        route: Vec<LatLng>,
        estimated_distance: u64,
        estimated_duration: u64,
        start_location_name: String,
        end_location_name: String,
        metadata: Vec<u8>,
        online: bool,
        last_seen_ms: Option<i64>,
    },
    Error {
        code: ErrorCode,
        message: String,
        track_uid: Option<String>,
        retry_after_ms: Option<u32>,
    },
    EventAdded {
        device_uid: String,
        track_uid: String,
        payload: Vec<u8>,
        timestamp_ms: Option<i64>,
        sub: u8,
    },
    Command { command_id: String, payload: Vec<u8>, timestamp_ms: Option<i64> },
    DevicePresence { device_uid: String, online: bool, last_seen_ms: Option<i64>, sub: u8 },
}

/// The value of a [`ClientCmd`].
pub enum ClientCmdView {
    Resume { track_uid: Seq<char>, last_client_seq: u64 },
    TrackStart { location: Option<LatLng>, route: Seq<LatLng>, metadata: Seq<u8> },
    TrackStop { track_uid: Seq<char> },
    LocationAdd { track_uid: Seq<char>, client_seq: u64, point: LatLng },
    LocationBatch { track_uid: Seq<char>, client_seq: u64, points: Seq<LatLng> },
    Subscribe { device_uid: Seq<char>, include_events: bool, min_location_interval_ms: u32 },
    Unsubscribe { sub: u8 },
    Event { track_uid: Seq<char>, payload: Seq<u8>, timestamp_ms: Option<i64> },
    CommandAck { command_id: Seq<char>, status: CommandAckStatus, message: Option<Seq<char>> },
}

/// The value of a [`ServerEvt`].
#[allow(inconsistent_fields)]
pub enum ServerEvtView {
    Hello { version: u8, node_id: Seq<char>, shard: u32 },
    Relocate { endpoint: Seq<char>, retry_after_ms: u32 },
    ResumeOk { track_uid: Seq<char>, last_acked_seq: u64 },
    TrackStarted { track_uid: Seq<char>, metadata: Seq<u8> },
    TrackStopped { track_uid: Seq<char> },
    Ack { seq: u64 },
    LocationAdded {
        device_uid: Seq<char>,
        track_uid: Seq<char>,
        point: LatLng,
        client_seq: u64,
        sub: u8,
    },
    Subscribed {
        sub: u8,
        device_uid: Seq<char>,
        track_uid: Seq<char>,
        last_location: Option<LatLng>,
        route: Seq<LatLng>,
        estimated_distance: u64,
        estimated_duration: u64,
        start_location_name: Seq<char>,
        end_location_name: Seq<char>,
        metadata: Seq<u8>,
        online: bool,
        last_seen_ms: Option<i64>,
    },
    Error {
        code: ErrorCode,
        message: Seq<char>,
        track_uid: Option<Seq<char>>,
        retry_after_ms: Option<u32>,
    },
    EventAdded {
        device_uid: Seq<char>,
        track_uid: Seq<char>,
        payload: Seq<u8>,
        timestamp_ms: Option<i64>,
        sub: u8,
    },
    Command { command_id: Seq<char>, payload: Seq<u8>, timestamp_ms: Option<i64> },
    DevicePresence { device_uid: Seq<char>, online: bool, last_seen_ms: Option<i64>, sub: u8 },
}

/// The characters of a text that may be absent.
pub open spec fn text_view(s: Option<String>) -> Option<Seq<char>> {
    match s {
        Some(s) => Some(s@),
        None => None,
    }
}

impl View for ClientCmd {
    type V = ClientCmdView;

    open spec fn view(&self) -> ClientCmdView {
        match *self {
            ClientCmd::Resume { track_uid, last_client_seq } => ClientCmdView::Resume {
                track_uid: track_uid@,
                last_client_seq,
            },
            ClientCmd::TrackStart { location, route, metadata } => ClientCmdView::TrackStart {
                location,
                route: route@,
                metadata: metadata@,
            },
            ClientCmd::TrackStop { track_uid } => ClientCmdView::TrackStop {
                track_uid: track_uid@,
            },
            ClientCmd::LocationAdd { track_uid, client_seq, point } => {
                ClientCmdView::LocationAdd { track_uid: track_uid@, client_seq, point }
            },
            ClientCmd::LocationBatch { track_uid, client_seq, points } => {
                ClientCmdView::LocationBatch {
                    track_uid: track_uid@,
                    client_seq,
                    points: points@,
                }
            },
            ClientCmd::Subscribe { device_uid, include_events, min_location_interval_ms } => {
                ClientCmdView::Subscribe {
                    device_uid: device_uid@,
                    include_events,
                    min_location_interval_ms,
                }
            },
            ClientCmd::Unsubscribe { sub } => ClientCmdView::Unsubscribe { sub },
            ClientCmd::Event { track_uid, payload, timestamp_ms } => ClientCmdView::Event {
                track_uid: track_uid@,
                payload: payload@,
                timestamp_ms,
            },
            ClientCmd::CommandAck { command_id, status, message } => ClientCmdView::CommandAck {
                command_id: command_id@,
                status,
                message: text_view(message),
            },
        }
    }
}

impl View for ServerEvt {
    type V = ServerEvtView;

    open spec fn view(&self) -> ServerEvtView {
        match *self {
            ServerEvt::Hello { version, node_id, shard } => ServerEvtView::Hello {
                version,
                node_id: node_id@,
                shard,
            },
            ServerEvt::Relocate { endpoint, retry_after_ms } => ServerEvtView::Relocate {
                endpoint: endpoint@,
                retry_after_ms,
            },
            ServerEvt::ResumeOk { track_uid, last_acked_seq } => ServerEvtView::ResumeOk {
                track_uid: track_uid@,
                last_acked_seq,
            },
            ServerEvt::TrackStarted { track_uid, metadata } => ServerEvtView::TrackStarted {
                track_uid: track_uid@,
                metadata: metadata@,
            },
            ServerEvt::TrackStopped { track_uid } => ServerEvtView::TrackStopped {
                track_uid: track_uid@,
            },
            ServerEvt::Ack { seq } => ServerEvtView::Ack { seq },
            ServerEvt::LocationAdded { device_uid, track_uid, point, client_seq, sub } => {
                ServerEvtView::LocationAdded {
                    device_uid: device_uid@,
                    track_uid: track_uid@,
                    point,
                    client_seq,
                    sub,
                }
            },
            ServerEvt::Subscribed {
                sub,
                device_uid,
                track_uid,
                last_location,
                route,
                estimated_distance,
                estimated_duration,
                start_location_name,
                end_location_name,
                metadata,
                online,
                last_seen_ms,
            } => ServerEvtView::Subscribed {
                sub,
                device_uid: device_uid@,
                track_uid: track_uid@,
                last_location,
                route: route@,
                estimated_distance,
                estimated_duration,
                start_location_name: start_location_name@,
                end_location_name: end_location_name@,
                metadata: metadata@,
                online,
                last_seen_ms,
            },
            ServerEvt::Error { code, message, track_uid, retry_after_ms } => ServerEvtView::Error {
                code,
                message: message@,
                track_uid: text_view(track_uid),
                retry_after_ms,
            },
            ServerEvt::EventAdded { device_uid, track_uid, payload, timestamp_ms, sub } => {
                ServerEvtView::EventAdded {
                    device_uid: device_uid@,
                    track_uid: track_uid@,
                    payload: payload@,
                    timestamp_ms,
                    sub,
                }
            },
            ServerEvt::Command { command_id, payload, timestamp_ms } => ServerEvtView::Command {
                command_id: command_id@,
                payload: payload@,
                timestamp_ms,
            },
            ServerEvt::DevicePresence { device_uid, online, last_seen_ms, sub } => {
                ServerEvtView::DevicePresence { device_uid: device_uid@, online, last_seen_ms, sub }
            },
        }
    }
}

impl ClientCmd {
    pub fn is_resume(&self) -> (r: bool)
        ensures
            r == (self@ is Resume),
    {
        matches!(self, ClientCmd::Resume { .. })
    }

    pub fn is_track_start(&self) -> (r: bool)
        ensures
            r == (self@ is TrackStart),
    {
        matches!(self, ClientCmd::TrackStart { .. })
    }

    pub fn is_loc(&self) -> (r: bool)
        ensures
            r == (self@ is LocationAdd || self@ is LocationBatch),
    {
        matches!(self, ClientCmd::LocationAdd { .. } | ClientCmd::LocationBatch { .. })
    }
}

} // verus!
