//! Errors of the HTTP API.

use crate::text;
use vstd::prelude::*;
use vstd::string::*;

verus! {

/// Auth failed (401 / 402 / 403 / refresh failed).
#[derive(Debug, Clone, Copy, PartialEq, Eq)]
pub struct AuthError;

/// Resource not found (404).
#[derive(Debug, Clone, Copy, PartialEq, Eq)]
pub struct NotFoundError;

/// Conflict (409), e.g. device offline for a command.
#[derive(Debug, Clone, Copy, PartialEq, Eq)]
pub struct ConflictError;

/// Invalid client configuration.
#[derive(Debug, Clone, Copy, PartialEq, Eq)]
pub struct InvalidConfigError;

impl AuthError {
    /// Human-readable form.
    pub fn describe(&self) -> (r: &'static str)
        ensures
            r@ == "pickpoint: auth failed"@,
    {
        "pickpoint: auth failed"
    }
}

impl NotFoundError {
    /// Human-readable form.
    pub fn describe(&self) -> (r: &'static str)
        ensures
            r@ == "pickpoint: not found"@,
    {
        "pickpoint: not found"
    }
}

impl ConflictError {
    /// Human-readable form.
    pub fn describe(&self) -> (r: &'static str)
        ensures
            r@ == "pickpoint: conflict"@,
    {
        "pickpoint: conflict"
    }
}

impl InvalidConfigError {
    /// Human-readable form.
    pub fn describe(&self) -> (r: &'static str)
        ensures
            r@ == "pickpoint: invalid config"@,
    {
        "pickpoint: invalid config"
    }
}

/// A response other than 2xx, or a transport failure after retries.
#[derive(Debug, PartialEq, Eq)]
pub struct ApiError {
    pub status: u16,
    pub code: String,
    pub message: String,
    pub body: Vec<u8>,
}

/// The value of an [`ApiError`].
pub struct ApiErrorView {
    pub status: u16,
    pub code: Seq<char>,
    pub message: Seq<char>,
    pub body: Seq<u8>,
}

impl View for ApiError {
    type V = ApiErrorView;

    open spec fn view(&self) -> ApiErrorView {
        ApiErrorView {
            status: self.status,
            code: self.code@,
            message: self.message@,
            body: self.body@,
        }
    }
}

impl Clone for ApiError {
    fn clone(&self) -> (r: Self)
        ensures
            r@ == self@,
    {
        let body = self.body.clone();
        assert(body@ =~= self.body@);
        ApiError {
            status: self.status,
            code: self.code.clone(),
            message: self.message.clone(),
            body,
        }
    }
}

impl ApiErrorView {
    /// Auth was refused, or could not be renewed.
    pub open spec fn is_auth(self) -> bool {
        self.code == "API_AUTH"@ || self.code == "REFRESH_FAILED"@
    }

    pub open spec fn is_not_found(self) -> bool {
        self.code == "NOT_FOUND"@
    }

    pub open spec fn is_conflict(self) -> bool {
        self.code == "CONFLICT"@
    }

    pub open spec fn is_invalid_config(self) -> bool {
        self.code == "INVALID_CONFIG"@
    }

    /// How the error reads.
    pub open spec fn text(self) -> Seq<char> {
        (if self.message.len() == 0 {
            "pickpoint: request failed"@
        } else {
            "pickpoint: "@ + self.message
        }) + " (status="@ + text::decimal(self.status as nat) + " code="@ + self.code + ")"@
    }
}

impl ApiError {
    pub fn new(status: u16, code: &str, message: &str, body: Vec<u8>) -> (r: Self)
        ensures
            r@ == (ApiErrorView { status, code: code@, message: message@, body: body@ }),
    {
        ApiError { status, code: code.to_owned(), message: message.to_owned(), body }
    }

    pub fn is_auth(&self) -> (r: bool)
        ensures
            r == self@.is_auth(),
    {
        text::str_eq(self.code.as_str(), "API_AUTH") || text::str_eq(
            self.code.as_str(),
            "REFRESH_FAILED",
        )
    }

    pub fn is_not_found(&self) -> (r: bool)
        ensures
            r == self@.is_not_found(),
    {
        text::str_eq(self.code.as_str(), "NOT_FOUND")
    }

    pub fn is_conflict(&self) -> (r: bool)
        ensures
            r == self@.is_conflict(),
    {
        text::str_eq(self.code.as_str(), "CONFLICT")
    }

    pub fn is_invalid_config(&self) -> (r: bool)
        ensures
            r == self@.is_invalid_config(),
    {
        text::str_eq(self.code.as_str(), "INVALID_CONFIG")
    }

    /// Human-readable form.
    pub fn describe(&self) -> (r: String)
        ensures
            r@ == self@.text(),
    {
        let mut s = if self.message.as_str().unicode_len() == 0 {
            "pickpoint: request failed".to_owned()
        } else {
            let mut s = "pickpoint: ".to_owned();
            s.append(self.message.as_str());
            s
        };
        s.append(" (status=");
        let n = text::decimal_text(self.status as u64);
        s.append(n.as_str());
        s.append(" code=");
        s.append(self.code.as_str());
        s.append(")");
        s
    }
}

/// Error of the HTTP API.
#[derive(Debug)]
pub enum Error {
    Api(ApiError),
    Auth(AuthError),
    NotFound(NotFoundError),
    Conflict(ConflictError),
    InvalidConfig(InvalidConfigError),
    /// The HTTP client could not be set up.
    Http(String),
    /// A reply is not the JSON that was expected.
    Json(String),
    BatchCancelled,
}

/// The value of an [`Error`].
pub enum ErrorView {
    Api(ApiErrorView),
    Auth,
    NotFound,
    Conflict,
    InvalidConfig,
    Http(Seq<char>),
    Json(Seq<char>),
    BatchCancelled,
}

impl View for Error {
    type V = ErrorView;

    open spec fn view(&self) -> ErrorView {
        match *self {
            Error::Api(e) => ErrorView::Api(e@),
            Error::Auth(_) => ErrorView::Auth,
            Error::NotFound(_) => ErrorView::NotFound,
            Error::Conflict(_) => ErrorView::Conflict,
            Error::InvalidConfig(_) => ErrorView::InvalidConfig,
            Error::Http(s) => ErrorView::Http(s@),
            Error::Json(e) => ErrorView::Json(e@),
            Error::BatchCancelled => ErrorView::BatchCancelled,
        }
    }
}

/// An API error with these parts.
pub open spec fn api(status: u16, code: Seq<char>, message: Seq<char>, body: Seq<u8>) -> ErrorView {
    ErrorView::Api(ApiErrorView { status, code, message, body })
}

/// A configuration error.
pub open spec fn bad_config(message: Seq<char>) -> ErrorView {
    api(0, "INVALID_CONFIG"@, message, Seq::empty())
}

impl ErrorView {
    pub open spec fn is_auth(self) -> bool {
        match self {
            ErrorView::Auth => true,
            ErrorView::Api(e) => e.is_auth(),
            _ => false,
        }
    }

    pub open spec fn is_not_found(self) -> bool {
        match self {
            ErrorView::NotFound => true,
            ErrorView::Api(e) => e.is_not_found(),
            _ => false,
        }
    }

    pub open spec fn is_conflict(self) -> bool {
        match self {
            ErrorView::Conflict => true,
            ErrorView::Api(e) => e.is_conflict(),
            _ => false,
        }
    }

    pub open spec fn is_invalid_config(self) -> bool {
        match self {
            ErrorView::InvalidConfig => true,
            ErrorView::Api(e) => e.is_invalid_config(),
            _ => false,
        }
    }

    /// How the error reads.
    pub open spec fn text(self) -> Seq<char> {
        match self {
            ErrorView::Api(e) => e.text(),
            ErrorView::Auth => "pickpoint: auth failed"@,
            ErrorView::NotFound => "pickpoint: not found"@,
            ErrorView::Conflict => "pickpoint: conflict"@,
            ErrorView::InvalidConfig => "pickpoint: invalid config"@,
            ErrorView::Http(s) => s,
            ErrorView::Json(e) => "pickpoint: invalid JSON: "@ + e,
            ErrorView::BatchCancelled => "pickpoint: batch cancelled"@,
        }
    }
}

impl Error {
    pub fn api(status: u16, code: &str, message: &str, body: Vec<u8>) -> (r: Self)
        ensures
            r@ == api(status, code@, message@, body@),
    {
        Error::Api(ApiError::new(status, code, message, body))
    }

    pub fn invalid_config(message: &str) -> (r: Self)
        ensures
            r@ == bad_config(message@),
    {
        let none: Vec<u8> = Vec::new();
        assert(none@ =~= Seq::<u8>::empty());
        Error::Api(ApiError::new(0, "INVALID_CONFIG", message, none))
    }

    /// Whether this is an auth failure.
    pub fn is_auth(&self) -> (r: bool)
        ensures
            r == self@.is_auth(),
    {
        match self {
            Error::Auth(_) => true,
            Error::Api(e) => e.is_auth(),
            _ => false,
        }
    }

    pub fn is_not_found(&self) -> (r: bool)
        ensures
            r == self@.is_not_found(),
    {
        match self {
            Error::NotFound(_) => true,
            Error::Api(e) => e.is_not_found(),
            _ => false,
        }
    }

    pub fn is_conflict(&self) -> (r: bool)
        ensures
            r == self@.is_conflict(),
    {
        match self {
            Error::Conflict(_) => true,
            Error::Api(e) => e.is_conflict(),
            _ => false,
        }
    }

    pub fn is_invalid_config(&self) -> (r: bool)
        ensures
            r == self@.is_invalid_config(),
    {
        match self {
            Error::InvalidConfig(_) => true,
            Error::Api(e) => e.is_invalid_config(),
            _ => false,
        }
    }

    /// Human-readable form.
    pub fn describe(&self) -> (r: String)
        ensures
            r@ == self@.text(),
    {
        match self {
            Error::Api(e) => e.describe(),
            Error::Auth(e) => e.describe().to_owned(),
            Error::NotFound(e) => e.describe().to_owned(),
            Error::Conflict(e) => e.describe().to_owned(),
            Error::InvalidConfig(e) => e.describe().to_owned(),
            Error::Http(s) => s.clone(),
            Error::Json(e) => {
                let mut s = "pickpoint: invalid JSON: ".to_owned();
                s.append(e.as_str());
                s
            },
            Error::BatchCancelled => "pickpoint: batch cancelled".to_owned(),
        }
    }
}

/// No error is of two sorts at once.
pub proof fn law_error_sorts_exclude_each_other(e: ErrorView)
    ensures
        !(e.is_auth() && e.is_not_found()),
        !(e.is_auth() && e.is_conflict()),
        !(e.is_auth() && e.is_invalid_config()),
        !(e.is_not_found() && e.is_conflict()),
        !(e.is_not_found() && e.is_invalid_config()),
        !(e.is_conflict() && e.is_invalid_config()),
{
    reveal_strlit("API_AUTH");
    reveal_strlit("REFRESH_FAILED");
    reveal_strlit("NOT_FOUND");
    reveal_strlit("CONFLICT");
    reveal_strlit("INVALID_CONFIG");
    assert("API_AUTH"@[0] == 'A');
    assert("REFRESH_FAILED"@[0] == 'R');
    assert("NOT_FOUND"@[0] == 'N');
    assert("CONFLICT"@[0] == 'C');
    assert("INVALID_CONFIG"@[0] == 'I');
}

/// The sort of an error goes by its code alone, or by its kind where it carries none.
pub proof fn law_error_sorts_go_by_their_code(
    status: u16,
    code: Seq<char>,
    message: Seq<char>,
    body: Seq<u8>,
)
    ensures
        ({
            let e = api(status, code, message, body);
            &&& e matches ErrorView::Api(a) && a.status == status && a.code == code && a.message
                == message && a.body == body
            &&& e.is_auth() <==> code == "API_AUTH"@ || code == "REFRESH_FAILED"@
            &&& e.is_not_found() <==> code == "NOT_FOUND"@
            &&& e.is_conflict() <==> code == "CONFLICT"@
            &&& e.is_invalid_config() <==> code == "INVALID_CONFIG"@
        }),
        ErrorView::Auth.is_auth() && ErrorView::NotFound.is_not_found()
            && ErrorView::Conflict.is_conflict() && ErrorView::InvalidConfig.is_invalid_config(),
        !ErrorView::BatchCancelled.is_auth() && !ErrorView::Json(code).is_auth()
            && !ErrorView::Http(code).is_auth(),
        bad_config(message).is_invalid_config(),
        bad_config(message) matches ErrorView::Api(a) && a.message == message && a.status == 0
            && a.body.len() == 0,
{
}

/// An error reads as what went wrong, with status and code behind it.
pub proof fn law_errors_read_as_what_went_wrong(e: ApiErrorView)
    ensures
        e.message.len() > 0 ==> e.text() == "pickpoint: "@ + e.message + " (status="@
            + text::decimal(e.status as nat) + " code="@ + e.code + ")"@,
        e.message.len() == 0 ==> e.text() == "pickpoint: request failed"@ + " (status="@
            + text::decimal(e.status as nat) + " code="@ + e.code + ")"@,
        ErrorView::Api(e).text() == e.text(),
        ErrorView::Json(e.message).text() == "pickpoint: invalid JSON: "@ + e.message,
        ErrorView::Http(e.message).text() == e.message,
{
}

} // verus!
