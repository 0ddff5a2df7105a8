//! Realtime tracking: live GPS over binary WebSocket frames (`tracking.v2`).

pub mod backoff;
pub mod client;
pub mod client_laws;
pub mod cmd;
pub mod codec;
pub mod codec_cuts;
pub mod codec_format;
pub mod codec_laws;
pub mod config;
pub mod delivery_laws;
pub mod errors;
pub mod filter;
pub mod points;
pub mod queue;
pub mod rate;
pub mod session;
pub mod session_laws;
pub mod subs;
pub mod types;
pub mod url;
pub mod uuids;
pub mod wire;

pub use backoff::{new_backoff, next_delay, reset_backoff, BackoffState, JITTER_ONE};
pub use client::{connect, Action, AfterClose, Client, DialEvent, Greeting, ResumeNext, ResumeReply};
pub use cmd::{ClientCmd, ServerEvt};
pub use codec::{
    client_resume, decode_client_cmd, decode_server_evt, decode_server_msg, encode_client_cmd,
    encode_client_msg, encode_loc_frames, encode_server_evt, stamp_lat_lng, DecodeError,
    DEFAULT_WS_PATH, SUBPROTOCOL,
};
pub use config::{Config, ConnectionState, DeviceAuth, ListenerAuth, Transport};
pub use errors::{is_auth_error, is_fatal_resume_error, is_retry_resume_error, new_error, Error};
pub use filter::{Geometry, NoiseFilter};
pub use queue::{OfflineQueue, QueuedPoint, MAX_UNACKED_FRAMES};
pub use rate::{
    can_accept_publish, next_publish_allowed_at, MAX_PUBLISH_HZ, MIN_PUBLISH_INTERVAL,
    MIN_PUBLISH_INTERVAL_MS,
};
pub use session::{Moment, MAX_EVENT_BYTES, MAX_EVENT_HZ, MIN_EVENT_INTERVAL};
pub use types::{
    Command, CommandAckStatus, ErrorCode, FinishReason, LatLng, Relocate, PROTOCOL_VERSION,
};
pub use url::build_ws_url;
