//! Settings of a tracking session.

use crate::clock::Nanos;
use vstd::prelude::*;

verus! {

/// Transport of a session.
#[derive(Debug, Clone, Copy, PartialEq, Eq, Structural)]
pub enum Transport {
    /// Binary WebSocket frames on `/v2/ws` (the only one).
    Ws,
}

impl Default for Transport {
    fn default() -> (r: Self)
        ensures
            r == Transport::Ws,
    {
        Transport::Ws
    }
}

/// Connection state machine.
#[derive(Debug, Clone, Copy, PartialEq, Eq, Structural)]
pub enum ConnectionState {
    /// Dialing, or waiting for Hello.
    Connecting,
    /// Session open.
    Open,
    /// Reconnecting after a drop.
    Reconnecting,
    /// Closed.
    Closed,
}

impl ConnectionState {
    pub open spec fn text(self) -> Seq<char> {
        match self {
            ConnectionState::Connecting => "connecting"@,
            ConnectionState::Open => "open"@,
            ConnectionState::Reconnecting => "reconnecting"@,
            ConnectionState::Closed => "closed"@,
        }
    }

    /// Text form.
    pub fn as_str(self) -> (r: &'static str)
        ensures
            r@ == self.text(),
    {
        match self {
            ConnectionState::Connecting => "connecting",
            ConnectionState::Open => "open",
            ConnectionState::Reconnecting => "reconnecting",
            ConnectionState::Closed => "closed",
        }
    }
}

/// Publisher device credentials.
#[derive(Debug, PartialEq, Eq)]
pub struct DeviceAuth {
    /// Device UID / client id.
    pub client_id: String,
    /// Device secret.
    pub client_secret: String,
}

impl DeviceAuth {
    pub open spec fn pair(self) -> (Seq<char>, Seq<char>) {
        (self.client_id@, self.client_secret@)
    }
}

impl Clone for DeviceAuth {
    fn clone(&self) -> (r: Self)
        ensures
            r.pair() == self.pair(),
    {
        DeviceAuth { client_id: self.client_id.clone(), client_secret: self.client_secret.clone() }
    }
}

/// Listener JWT credentials.
#[derive(Debug, PartialEq, Eq)]
pub struct ListenerAuth {
    /// Access token.
    pub access_token: String,
}

impl Clone for ListenerAuth {
    fn clone(&self) -> (r: Self)
        ensures
            r.access_token@ == self.access_token@,
    {
        ListenerAuth { access_token: self.access_token.clone() }
    }
}

/// Opens a session against a Pickpoint tracking endpoint.
#[derive(Debug)]
pub struct Config {
    /// Host, e.g. `wss://tracking.pickpoint.io` (`/v2/ws` is appended).
    pub endpoint: String,
    /// Always WebSocket (`tracking.v2`).
    pub transport: Transport,
    /// Device publisher auth.
    pub device: Option<DeviceAuth>,
    /// Listener auth.
    pub listener: Option<ListenerAuth>,
    /// WebSocket path (`/v2/ws` when empty).
    pub ws_path: String,
    /// Disable auto-reconnect.
    pub disable_reconnect: bool,
    /// Reconnect min delay.
    pub reconnect_min_delay: Nanos,
    /// Reconnect max delay.
    pub reconnect_max_delay: Nanos,
    /// Max reconnect attempts (`0` = unlimited).
    pub reconnect_max_attempts: u32,
    /// Whether fresh credentials can be had after an auth error.
    pub refresh_auth: bool,
    /// Offline queue size (default 10_000).
    pub max_queue_size: usize,
    /// Hello timeout (default 10 s).
    pub hello_timeout: Nanos,
    /// Listener: devices to subscribe to after Hello, and again after a reconnect.
    pub subscribe: Vec<String>,
}

/// Default hello timeout: 10 s.
pub const DEFAULT_HELLO_TIMEOUT: Nanos = 10_000_000_000;

impl Default for Config {
    fn default() -> (r: Self)
        ensures
            r.endpoint@ == Seq::<char>::empty(),
            r.transport == Transport::Ws,
            r.device is None,
            r.listener is None,
            r.ws_path@ == Seq::<char>::empty(),
            !r.disable_reconnect,
            r.reconnect_min_delay == 0,
            r.reconnect_max_delay == 0,
            r.reconnect_max_attempts == 0,
            !r.refresh_auth,
            r.max_queue_size == 10_000,
            r.hello_timeout == DEFAULT_HELLO_TIMEOUT,
            r.subscribe@ == Seq::<String>::empty(),
    {
        Config {
            endpoint: String::new(),
            transport: Transport::Ws,
            device: None,
            listener: None,
            ws_path: String::new(),
            disable_reconnect: false,
            reconnect_min_delay: 0,
            reconnect_max_delay: 0,
            reconnect_max_attempts: 0,
            refresh_auth: false,
            max_queue_size: 10_000,
            hello_timeout: DEFAULT_HELLO_TIMEOUT,
            subscribe: Vec::new(),
        }
    }
}

/// The value of a [`Config`].
pub struct ConfigView {
    pub endpoint: Seq<char>,
    pub device: Option<(Seq<char>, Seq<char>)>,
    pub listener: Option<Seq<char>>,
    pub ws_path: Seq<char>,
    pub disable_reconnect: bool,
    pub reconnect_min_delay: Nanos,
    pub reconnect_max_delay: Nanos,
    pub reconnect_max_attempts: u32,
    pub refresh_auth: bool,
    pub max_queue_size: usize,
    pub hello_timeout: Nanos,
    pub subscribe: Seq<Seq<char>>,
}

pub open spec fn device_view(d: Option<DeviceAuth>) -> Option<(Seq<char>, Seq<char>)> {
    match d {
        Some(d) => Some(d.pair()),
        None => None,
    }
}

pub open spec fn listener_view(l: Option<ListenerAuth>) -> Option<Seq<char>> {
    match l {
        Some(l) => Some(l.access_token@),
        None => None,
    }
}

/// The texts in a list.
pub open spec fn texts(v: Seq<String>) -> Seq<Seq<char>> {
    v.map_values(|s: String| s@)
}

impl View for Config {
    type V = ConfigView;

    open spec fn view(&self) -> ConfigView {
        ConfigView {
            endpoint: self.endpoint@,
            device: device_view(self.device),
            listener: listener_view(self.listener),
            ws_path: self.ws_path@,
            disable_reconnect: self.disable_reconnect,
            reconnect_min_delay: self.reconnect_min_delay,
            reconnect_max_delay: self.reconnect_max_delay,
            reconnect_max_attempts: self.reconnect_max_attempts,
            refresh_auth: self.refresh_auth,
            max_queue_size: self.max_queue_size,
            hello_timeout: self.hello_timeout,
            subscribe: texts(self.subscribe@),
        }
    }
}

} // verus!
