//! Errors of the tracking protocol and of the session.

use crate::tracking::cmd;
use crate::tracking::cmd::{ServerEvt, ServerEvtView};
use crate::tracking::types::ErrorCode;
use vstd::prelude::*;
use vstd::string::*;

verus! {

/// Typed tracking protocol or session error.
#[derive(Debug, PartialEq, Eq)]
pub struct Error {
    /// Wire error code.
    pub code: ErrorCode,
    /// Human-readable message.
    pub message: String,
    pub track_uid: Option<String>,
    pub retry_after_ms: Option<u32>,
}

/// The value of an [`Error`].
pub struct ErrorView {
    pub code: ErrorCode,
    pub message: Seq<char>,
    pub track_uid: Option<Seq<char>>,
    pub retry_after_ms: Option<u32>,
}

impl View for Error {
    type V = ErrorView;

    open spec fn view(&self) -> ErrorView {
        ErrorView {
            code: self.code,
            message: self.message@,
            track_uid: cmd::text_view(self.track_uid),
            retry_after_ms: self.retry_after_ms,
        }
    }
}

impl Clone for Error {
    fn clone(&self) -> (r: Self)
        ensures
            r@ == self@,
    {
        Error {
            code: self.code,
            message: self.message.clone(),
            track_uid: match &self.track_uid {
                Some(s) => Some(s.clone()),
                None => None,
            },
            retry_after_ms: self.retry_after_ms,
        }
    }
}

/// An error with a code and a message and nothing else.
pub open spec fn plain_error(code: ErrorCode, message: Seq<char>) -> ErrorView {
    ErrorView { code, message, track_uid: None, retry_after_ms: None }
}

/// How an error reads.
pub open spec fn error_text(e: ErrorView) -> Seq<char> {
    if e.message.len() == 0 {
        "tracking: "@ + e.code.label()
    } else {
        "tracking: "@ + e.message + " ("@ + e.code.label() + ")"@
    }
}

impl Error {
    /// Human-readable form.
    pub fn describe(&self) -> (r: String)
        ensures
            r@ == error_text(self@),
    {
        let mut s = "tracking: ".to_owned();
        if self.message.as_str().unicode_len() == 0 {
            s.append(self.code.name());
        } else {
            s.append(self.message.as_str());
            s.append(" (");
            s.append(self.code.name());
            s.append(")");
        }
        s
    }
}

/// Builds an [`Error`] from a wire code and a message.
pub fn new_error(code: ErrorCode, message: &str) -> (r: Error)
    ensures
        r@ == plain_error(code, message@),
{
    Error { code, message: message.to_owned(), track_uid: None, retry_after_ms: None }
}

/// What an event says went wrong.
pub open spec fn event_error(evt: ServerEvtView) -> ErrorView {
    match evt {
        ServerEvtView::Error { code, message, track_uid, retry_after_ms } => ErrorView {
            code,
            message,
            track_uid,
            retry_after_ms,
        },
        _ => plain_error(ErrorCode::Invalid, "unknown error"@),
    }
}

/// The error in a server event.
pub fn error_from_evt(evt: &ServerEvt) -> (r: Error)
    ensures
        r@ == event_error(evt@),
{
    match evt {
        ServerEvt::Error { code, message, track_uid, retry_after_ms } => Error {
            code: *code,
            message: message.clone(),
            track_uid: match track_uid {
                Some(s) => Some(s.clone()),
                None => None,
            },
            retry_after_ms: *retry_after_ms,
        },
        _ => new_error(ErrorCode::Invalid, "unknown error"),
    }
}

/// Fatal resume errors clear the local track.
pub open spec fn fatal_resume(code: ErrorCode) -> bool {
    code == ErrorCode::TrackNotFound || code == ErrorCode::Auth
}

/// Resume is tried again on these.
pub open spec fn retry_resume(code: ErrorCode) -> bool {
    code == ErrorCode::Fenced || code == ErrorCode::TryAgain
}

pub open spec fn auth_related(code: ErrorCode) -> bool {
    code == ErrorCode::Auth || code == ErrorCode::Unauthorized
}

/// Fatal resume errors that clear the local track.
/// `Fenced` and `TryAgain` retry Resume. `Unauthorized` is a role error.
pub fn is_fatal_resume_error(code: ErrorCode) -> (r: bool)
    ensures
        r == fatal_resume(code),
{
    matches!(code, ErrorCode::TrackNotFound | ErrorCode::Auth)
}

/// Retry Resume (do not start a new track).
pub fn is_retry_resume_error(code: ErrorCode) -> (r: bool)
    ensures
        r == retry_resume(code),
{
    matches!(code, ErrorCode::Fenced | ErrorCode::TryAgain)
}

/// Auth-related wire codes.
pub fn is_auth_error(code: ErrorCode) -> (r: bool)
    ensures
        r == auth_related(code),
{
    matches!(code, ErrorCode::Auth | ErrorCode::Unauthorized)
}

/// No code both clears the track and retries.
pub proof fn law_fatal_and_retry_exclude_each_other(code: ErrorCode)
    ensures
        !(fatal_resume(code) && retry_resume(code)),
{
}

} // verus!
