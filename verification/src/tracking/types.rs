//! Native types of the tracking session plane.

use crate::text;
use vstd::prelude::*;

verus! {

/// Protocol version in `Hello.version` and in the WebSocket subprotocol `tracking.v2`.
pub const PROTOCOL_VERSION: u8 = 2;

/// A position as the GPS delivered it: IEEE-754 bit patterns of degrees and metres.
///
/// Only the noise filter's geometry looks at it. It never appears on the wire.
#[derive(Debug, Clone, Copy, PartialEq, Eq)]
pub struct ExactFix {
    pub latitude: u64,
    pub longitude: u64,
    pub accuracy: Option<u64>,
}

/// GPS sample, in the units of the wire.
///
/// Heading and speed are filter-only and never appear on the wire; they are held as IEEE-754
/// bit patterns.
#[derive(Debug, Clone, Copy, PartialEq, Eq)]
pub struct LatLng {
    /// Microdegrees north.
    pub latitude: i32,
    /// Microdegrees east.
    pub longitude: i32,
    /// Millimetres above sea level.
    pub altitude: Option<i32>,
    /// Radius in centimetres.
    pub accuracy: Option<u16>,
    /// Local GPS heading (degrees). Filter only; not on the wire.
    pub heading: Option<u64>,
    /// Local speed (m/s). Filter only; not on the wire.
    pub speed: Option<u64>,
    pub timestamp_ms: Option<i64>,
    /// The unrounded sample. Filter only; not on the wire.
    pub exact: Option<ExactFix>,
}

impl LatLng {
    /// A bare position: every optional part is absent.
    pub open spec fn bare(latitude: i32, longitude: i32) -> LatLng {
        LatLng {
            latitude,
            longitude,
            altitude: None,
            accuracy: None,
            heading: None,
            speed: None,
            timestamp_ms: None,
            exact: None,
        }
    }

    pub fn new(latitude: i32, longitude: i32) -> (r: Self)
        ensures
            r == LatLng::bare(latitude, longitude),
    {
        LatLng {
            latitude,
            longitude,
            altitude: None,
            accuracy: None,
            heading: None,
            speed: None,
            timestamp_ms: None,
            exact: None,
        }
    }

    /// What the wire carries of the sample.
    pub open spec fn wire(self) -> LatLng {
        LatLng { heading: None, speed: None, exact: None, ..self }
    }
}

impl Default for LatLng {
    fn default() -> (r: Self)
        ensures
            r == LatLng::bare(0, 0),
    {
        LatLng::new(0, 0)
    }
}

/// Wire `Error.code` (u8). 0 is unused.
#[derive(Debug, Clone, Copy, PartialEq, Eq, Structural)]
pub enum ErrorCode {
    Auth,
    TrackNotFound,
    Fenced,
    TryAgain,
    Invalid,
    Unauthorized,
}

impl ErrorCode {
    /// The byte that stands for the code.
    pub open spec fn byte(self) -> u8 {
        match self {
            ErrorCode::Auth => 1,
            ErrorCode::TrackNotFound => 2,
            ErrorCode::Fenced => 3,
            ErrorCode::TryAgain => 4,
            ErrorCode::Invalid => 5,
            ErrorCode::Unauthorized => 6,
        }
    }

    pub fn to_u8(self) -> (r: u8)
        ensures
            r == self.byte(),
    {
        match self {
            ErrorCode::Auth => 1,
            ErrorCode::TrackNotFound => 2,
            ErrorCode::Fenced => 3,
            ErrorCode::TryAgain => 4,
            ErrorCode::Invalid => 5,
            ErrorCode::Unauthorized => 6,
        }
    }

    pub fn from_u8(v: u8) -> (r: Option<Self>)
        ensures
            r is Some <==> 1 <= v <= 6,
            r is Some ==> r->0.byte() == v,
    {
        match v {
            1 => Some(ErrorCode::Auth),
            2 => Some(ErrorCode::TrackNotFound),
            3 => Some(ErrorCode::Fenced),
            4 => Some(ErrorCode::TryAgain),
            5 => Some(ErrorCode::Invalid),
            6 => Some(ErrorCode::Unauthorized),
            _ => None,
        }
    }

    /// The name of the code, as it shows in error texts.
    pub open spec fn label(self) -> Seq<char> {
        match self {
            ErrorCode::Auth => "Auth"@,
            ErrorCode::TrackNotFound => "TrackNotFound"@,
            ErrorCode::Fenced => "Fenced"@,
            ErrorCode::TryAgain => "TryAgain"@,
            ErrorCode::Invalid => "Invalid"@,
            ErrorCode::Unauthorized => "Unauthorized"@,
        }
    }

    pub fn name(self) -> (r: &'static str)
        ensures
            r@ == self.label(),
    {
        match self {
            ErrorCode::Auth => "Auth",
            ErrorCode::TrackNotFound => "TrackNotFound",
            ErrorCode::Fenced => "Fenced",
            ErrorCode::TryAgain => "TryAgain",
            ErrorCode::Invalid => "Invalid",
            ErrorCode::Unauthorized => "Unauthorized",
        }
    }
}

/// Wire `CommandAck.status` (u8).
#[derive(Debug, Clone, Copy, PartialEq, Eq, Structural)]
pub enum CommandAckStatus {
    Unspecified,
    Succeeded,
    Rejected,
    Failed,
}

impl CommandAckStatus {
    /// The byte that stands for the status.
    pub open spec fn byte(self) -> u8 {
        match self {
            CommandAckStatus::Unspecified => 0,
            CommandAckStatus::Succeeded => 1,
            CommandAckStatus::Rejected => 2,
            CommandAckStatus::Failed => 3,
        }
    }

    pub fn to_u8(self) -> (r: u8)
        ensures
            r == self.byte(),
    {
        match self {
            CommandAckStatus::Unspecified => 0,
            CommandAckStatus::Succeeded => 1,
            CommandAckStatus::Rejected => 2,
            CommandAckStatus::Failed => 3,
        }
    }

    pub fn from_u8(v: u8) -> (r: Self)
        ensures
            v <= 3 ==> r.byte() == v,
            v > 3 ==> r == CommandAckStatus::Unspecified,
    {
        match v {
            1 => CommandAckStatus::Succeeded,
            2 => CommandAckStatus::Rejected,
            3 => CommandAckStatus::Failed,
            _ => CommandAckStatus::Unspecified,
        }
    }
}

/// Why a track row was closed. HTTP only, not on the WebSocket frame.
#[derive(Debug, Clone, Copy, PartialEq, Eq, Structural)]
pub enum FinishReason {
    ClientStop,
    Superseded,
    Idle,
}

impl FinishReason {
    /// The text form of the reason.
    pub open spec fn text(self) -> Seq<char> {
        match self {
            FinishReason::ClientStop => "client_stop"@,
            FinishReason::Superseded => "superseded"@,
            FinishReason::Idle => "idle"@,
        }
    }

    pub fn as_str(self) -> (r: &'static str)
        ensures
            r@ == self.text(),
    {
        match self {
            FinishReason::ClientStop => "client_stop",
            FinishReason::Superseded => "superseded",
            FinishReason::Idle => "idle",
        }
    }

    pub fn parse(s: &str) -> (r: Option<Self>)
        ensures
            r is Some ==> r->0.text() == s@,
            r is None ==> forall|f: FinishReason| f.text() != s@,
    {
        if text::str_eq(s, "client_stop") {
            Some(FinishReason::ClientStop)
        } else if text::str_eq(s, "superseded") {
            Some(FinishReason::Superseded)
        } else if text::str_eq(s, "idle") {
            Some(FinishReason::Idle)
        } else {
            None
        }
    }

    /// Different reasons have different texts, so parsing gives back what `as_str` wrote.
    pub proof fn law_text_tells_reasons_apart(a: FinishReason, b: FinishReason)
        requires
            a.text() == b.text(),
        ensures
            a == b,
    {
        reveal_strlit("client_stop");
        reveal_strlit("superseded");
        reveal_strlit("idle");
        assert("client_stop"@.len() != "superseded"@.len());
    }
}

/// Relocate payload.
#[derive(Debug, Clone, PartialEq, Eq)]
pub struct Relocate {
    pub endpoint: String,
    pub retry_after_ms: u32,
}

impl Default for Relocate {
    fn default() -> (r: Self)
        ensures
            r.endpoint@ == Seq::<char>::empty(),
            r.retry_after_ms == 0,
    {
        Relocate { endpoint: String::new(), retry_after_ms: 0 }
    }
}

/// Device command inject (`0x8A`).
#[derive(Debug, Clone, PartialEq)]
pub struct Command {
    pub command_id: String,
    pub payload: Vec<u8>,
    pub timestamp_ms: Option<i64>,
}

/// Codes and reasons go by their own names.
pub proof fn law_codes_and_reasons_go_by_their_names(code: ErrorCode, reason: FinishReason)
    ensures
        code.label() == (match code {
            ErrorCode::Auth => "Auth"@,
            ErrorCode::TrackNotFound => "TrackNotFound"@,
            ErrorCode::Fenced => "Fenced"@,
            ErrorCode::TryAgain => "TryAgain"@,
            ErrorCode::Invalid => "Invalid"@,
            ErrorCode::Unauthorized => "Unauthorized"@,
        }),
        reason.text() == (match reason {
            FinishReason::ClientStop => "client_stop"@,
            FinishReason::Superseded => "superseded"@,
            FinishReason::Idle => "idle"@,
        }),
{
}

/// Different codes and states stand as different bytes.
pub proof fn law_bytes_tell_codes_apart(
    a: ErrorCode,
    b: ErrorCode,
    c: CommandAckStatus,
    d: CommandAckStatus,
)
    ensures
        a.byte() == b.byte() ==> a == b,
        c.byte() == d.byte() ==> c == d,
        1 <= a.byte() <= 6,
        c.byte() <= 3,
{
}

/// The wire carries position, altitude, accuracy and time of a sample, and nothing else of it.
pub proof fn law_what_the_wire_carries_of_a_sample(p: LatLng)
    ensures
        ({
            let w = p.wire();
            &&& w.latitude == p.latitude && w.longitude == p.longitude
            &&& w.altitude == p.altitude && w.accuracy == p.accuracy && w.timestamp_ms
                == p.timestamp_ms
            &&& w.heading is None && w.speed is None && w.exact is None
        }),
        ({
            let b = LatLng::bare(p.latitude, p.longitude);
            &&& b.latitude == p.latitude && b.longitude == p.longitude
            &&& b.altitude is None && b.accuracy is None && b.timestamp_ms is None && b.heading
                is None && b.speed is None && b.exact is None
        }),
{
}

} // verus!
