//! HTTP requests: what is sent, and what follows a reply.

use crate::auth;
use crate::auth::{pairs_view, push_pair, AuthKind};
use crate::clock::{Nanos, NANOS_PER_MILLI};
use crate::config::{DEFAULT_RETRY_BASE, MIN_RETRY_BASE};
use crate::devices::{DeviceInput, DeviceInputView};
use crate::encoding;
use crate::error;
use crate::error::{Error, ErrorView};
use crate::random;
use crate::text;
use vstd::arithmetic::power2::*;
use vstd::prelude::*;
use vstd::string::*;
use vstd::utf8::*;

verus! {

/// HTTP method.
#[derive(Debug, Clone, Copy, PartialEq, Eq, Structural)]
pub enum Method {
    Get,
    Post,
    Patch,
    Delete,
}

/// What a 4xx reply that is no auth failure comes to.
#[derive(Debug, Clone, Copy, PartialEq, Eq, Structural)]
pub enum OnClientError {
    /// An error.
    Throw,
    /// An empty result.
    Empty,
    /// An empty result; a conflict is an error.
    EmptyOrConflict,
}

/// The body of a request.
#[derive(Debug)]
pub enum RequestBody {
    /// Any document.
    Json(serde_json::Value),
    /// A device.
    Device(DeviceInput),
    /// A command for a device, in Base64.
    Command { payload: String },
}

/// A request to the API.
#[derive(Debug)]
pub struct RequestOpts {
    pub method: Method,
    pub path: String,
    pub query: Vec<(String, String)>,
    pub body: Option<RequestBody>,
    pub on_client_error: OnClientError,
    /// What stands for an empty result.
    pub empty: Vec<u8>,
}

/// The value of a [`RequestBody`].
pub enum BodyView {
    Json(serde_json::Value),
    Device(DeviceInputView),
    Command { payload: Seq<char> },
}

impl View for RequestBody {
    type V = BodyView;

    open spec fn view(&self) -> BodyView {
        match *self {
            RequestBody::Json(v) => BodyView::Json(v),
            RequestBody::Device(d) => BodyView::Device(d@),
            RequestBody::Command { payload } => BodyView::Command { payload: payload@ },
        }
    }
}

/// The value of a [`RequestOpts`].
pub struct RequestView {
    pub method: Method,
    pub path: Seq<char>,
    pub query: Seq<(Seq<char>, Seq<char>)>,
    pub body: Option<BodyView>,
    pub on_client_error: OnClientError,
    pub empty: Seq<u8>,
}

impl View for RequestOpts {
    type V = RequestView;

    open spec fn view(&self) -> RequestView {
        RequestView {
            method: self.method,
            path: self.path@,
            query: pairs_view(self.query@),
            body: match self.body {
                Some(b) => Some(b@),
                None => None,
            },
            on_client_error: self.on_client_error,
            empty: self.empty@,
        }
    }
}

/// A request without parameters, whose errors are errors.
pub open spec fn plain_request(method: Method, path: Seq<char>, body: Option<BodyView>) -> RequestView {
    RequestView {
        method,
        path,
        query: Seq::empty(),
        body,
        on_client_error: OnClientError::Throw,
        empty: Seq::empty(),
    }
}

/// A request without parameters, whose errors are errors.
pub fn new_request(method: Method, path: &str, body: Option<RequestBody>) -> (r: RequestOpts)
    ensures
        r@ == plain_request(
            method,
            path@,
            match body {
                Some(b) => Some(b@),
                None => None,
            },
        ),
{
    let r = RequestOpts {
        method,
        path: path.to_owned(),
        query: Vec::new(),
        body,
        on_client_error: OnClientError::Throw,
        empty: Vec::new(),
    };
    assert(r@.query =~= Seq::<(Seq<char>, Seq<char>)>::empty());
    assert(r@.empty =~= Seq::<u8>::empty());
    r
}

/// A request with its address and headers.
#[derive(Debug)]
pub struct Prepared {
    pub method: Method,
    pub url: String,
    pub headers: Vec<(String, String)>,
}

/// What requests are made with.
#[derive(Debug)]
pub struct Transport {
    pub base_url: String,
    pub auth: AuthKind,
    pub max_retries: u32,
    pub retry_base: Nanos,
}

/// The query string of pairs: those without a value are left out.
pub open spec fn query_text(pairs: Seq<(Seq<char>, Seq<char>)>) -> Seq<char>
    decreases pairs.len(),
{
    if pairs.len() == 0 {
        Seq::empty()
    } else {
        let q = query_text(pairs.drop_last());
        let (name, value) = pairs.last();
        if value.len() == 0 {
            q
        } else {
            encoding::form_with(q, name, value)
        }
    }
}

/// The address of a request.
pub open spec fn request_url(
    base_url: Seq<char>,
    path: Seq<char>,
    pairs: Seq<(Seq<char>, Seq<char>)>,
) -> Seq<char> {
    let q = query_text(pairs);
    if q.len() == 0 {
        base_url + path
    } else {
        base_url + path + "?"@ + q
    }
}

/// The query string of pairs.
fn encode_query(pairs: &Vec<(String, String)>) -> (r: String)
    ensures
        r@ == query_text(pairs_view(pairs@)),
{
    let ghost all = pairs_view(pairs@);
    let mut q = String::new();
    let mut i: usize = 0;
    assert(q@ =~= query_text(all.take(0)));
    while i < pairs.len()
        invariant
            i <= pairs@.len(),
            all == pairs_view(pairs@),
            q@ == query_text(all.take(i as int)),
        decreases pairs@.len() - i,
    {
        assert(all.take(i + 1).drop_last() =~= all.take(i as int));
        assert(all.take(i + 1).last() == all[i as int]);
        if pairs[i].1.as_str().unicode_len() > 0 {
            q = encoding::form_append(q, pairs[i].0.as_str(), pairs[i].1.as_str());
        }
        i += 1;
    }
    assert(all.take(i as int) =~= all);
    q
}

/// The headers of a request with a body.
pub open spec fn with_content_type(h: Seq<(Seq<char>, Seq<char>)>) -> Seq<(Seq<char>, Seq<char>)> {
    h.push(("content-type"@, "application/json"@))
}

impl Transport {
    /// A request with its address and headers, the token as it is now.
    pub fn prepare(&self, opts: &RequestOpts) -> (r: Result<Prepared, Error>)
        ensures
            match self.auth@.headers() {
                Err(e) => r is Err && r->Err_0@ == e,
                Ok(h) => {
                    &&& r is Ok
                    &&& r->Ok_0.method == opts.method
                    &&& r->Ok_0.url@ == request_url(
                        self.base_url@,
                        opts.path@,
                        pairs_view(opts.query@),
                    )
                    &&& pairs_view(r->Ok_0.headers@) == (if opts.body is Some {
                        with_content_type(h)
                    } else {
                        h
                    })
                },
            },
    {
        let mut url = self.base_url.clone();
        url.append(opts.path.as_str());
        let q = encode_query(&opts.query);
        if q.as_str().unicode_len() > 0 {
            url.append("?");
            url.append(q.as_str());
        }
        let mut headers = self.auth.apply()?;
        if opts.body.is_some() {
            push_pair(&mut headers, "content-type", "application/json");
        }
        Ok(Prepared { method: opts.method, url, headers })
    }

    /// The request that renews a token pair; its body holds the refresh token.
    pub fn refresh_request(&self) -> (r: Prepared)
        ensures
            r.method == Method::Post,
            r.url@ == self.base_url@ + "/v2/client-tokens/refresh"@,
            pairs_view(r.headers@) == seq![
                ("Accept"@, "application/json"@),
                ("Content-Type"@, "application/json"@),
            ],
    {
        let mut url = self.base_url.clone();
        url.append("/v2/client-tokens/refresh");
        let mut headers: Vec<(String, String)> = Vec::new();
        assert(pairs_view(headers@) =~= Seq::<(Seq<char>, Seq<char>)>::empty());
        push_pair(&mut headers, "Accept", "application/json");
        push_pair(&mut headers, "Content-Type", "application/json");
        Prepared { method: Method::Post, url, headers }
    }
}

/// `s` without slashes at the end.
pub open spec fn slashes_trimmed(s: Seq<char>) -> Seq<char>
    decreases s.len(),
{
    if s.len() > 0 && s.last() == '/' {
        slashes_trimmed(s.drop_last())
    } else {
        s
    }
}

/// Drops slashes at the end.
pub fn trim_slash(s: &str) -> (r: String)
    ensures
        r@ == slashes_trimmed(s@),
{
    let v = text::chars_of(s);
    let mut n: usize = v.len();
    assert(v@.take(n as int) =~= v@);
    while n > 0 && v[n - 1] == '/'
        invariant
            n <= v@.len(),
            slashes_trimmed(v@.take(n as int)) == slashes_trimmed(v@),
        decreases n,
    {
        assert(v@.take(n as int).drop_last() =~= v@.take(n - 1));
        n -= 1;
    }
    assert(v@.take(n as int) =~= v@.subrange(0, n as int));
    text::from_chars(vstd::slice::slice_subrange(v.as_slice(), 0, n))
}

/// The parts of an error document that say what went wrong.
#[derive(Debug, PartialEq, Eq)]
pub struct ErrorBody {
    pub message: Option<String>,
    pub error: Option<String>,
}

/// The value of an [`ErrorBody`].
pub struct ErrorBodyView {
    pub message: Option<Seq<char>>,
    pub error: Option<Seq<char>>,
}

impl View for ErrorBody {
    type V = ErrorBodyView;

    open spec fn view(&self) -> ErrorBodyView {
        ErrorBodyView {
            message: crate::config::opt_text(self.message),
            error: crate::config::opt_text(self.error),
        }
    }
}

pub open spec fn body_view(b: Option<ErrorBody>) -> Option<ErrorBodyView> {
    match b {
        Some(b) => Some(b@),
        None => None,
    }
}

/// The name of a status.
pub open spec fn status_text(status: u16) -> Seq<char> {
    match encoding::reason(status) {
        Some(s) => s,
        None => "unknown"@,
    }
}

/// The message of an error reply: its `message`, else its `error`, else the name of the status.
pub open spec fn reply_message(body: Option<ErrorBodyView>, status: u16) -> Seq<char> {
    match body {
        Some(b) => if auth::given(b.message) {
            b.message->0
        } else if auth::given(b.error) {
            b.error->0
        } else {
            status_text(status)
        },
        None => status_text(status),
    }
}

/// The name of a status.
pub fn http_status_text(status: u16) -> (r: String)
    ensures
        r@ == status_text(status),
{
    match encoding::status_reason(status) {
        Some(s) => s.to_owned(),
        None => "unknown".to_owned(),
    }
}

/// The message of an error reply.
pub fn message_from_body(body: Option<ErrorBody>, status: u16) -> (r: String)
    ensures
        r@ == reply_message(body_view(body), status),
{
    if let Some(b) = body {
        if let Some(m) = b.message {
            if m.as_str().unicode_len() > 0 {
                return m;
            }
        }
        if let Some(e) = b.error {
            if e.as_str().unicode_len() > 0 {
                return e;
            }
        }
    }
    http_status_text(status)
}

// ---------------------------------------------------------------------------------------------
// A request and its retries.
// ---------------------------------------------------------------------------------------------

/// Where a request stands.
#[derive(Debug)]
pub struct RequestState {
    attempt: u32,
    auth_retried: bool,
    unauthorized: Vec<u8>,
}

/// The value of a [`RequestState`].
#[verifier::ext_equal]
pub struct RequestStateView {
    /// Retries so far.
    pub attempt: u32,
    /// The token was renewed for this request.
    pub auth_retried: bool,
    /// The body of the 401 reply that is being dealt with.
    pub unauthorized: Seq<u8>,
}

impl View for RequestState {
    type V = RequestStateView;

    closed spec fn view(&self) -> RequestStateView {
        RequestStateView {
            attempt: self.attempt,
            auth_retried: self.auth_retried,
            unauthorized: self.unauthorized@,
        }
    }
}

/// What came of the last step.
#[derive(Debug)]
pub enum Reply {
    /// The request did not get through.
    NetworkError(String),
    /// A response, with the error document in it if there is one.
    Response { status: u16, raw: Vec<u8>, error: Option<ErrorBody> },
    /// Whether the token was renewed.
    Refreshed(bool),
}

/// The value of a [`Reply`].
pub enum ReplyView {
    NetworkError(Seq<char>),
    Response { status: u16, raw: Seq<u8>, error: Option<ErrorBodyView> },
    Refreshed(bool),
}

impl View for Reply {
    type V = ReplyView;

    open spec fn view(&self) -> ReplyView {
        match *self {
            Reply::NetworkError(e) => ReplyView::NetworkError(e@),
            Reply::Response { status, raw, error } => ReplyView::Response {
                status,
                raw: raw@,
                error: body_view(error),
            },
            Reply::Refreshed(ok) => ReplyView::Refreshed(ok),
        }
    }
}

/// What to do next.
#[derive(Debug)]
pub enum Step {
    /// Send the request (again).
    Send,
    /// Renew the token.
    Refresh,
    /// Wait a random time of at most this many milliseconds, then send again.
    Backoff { max_ms: u64 },
    /// The request is done.
    Done(Result<Vec<u8>, Error>),
}

/// The value of a [`Step`].
pub enum StepView {
    Send,
    Refresh,
    Backoff { max_ms: u64 },
    Done(Result<Seq<u8>, ErrorView>),
}

impl View for Step {
    type V = StepView;

    open spec fn view(&self) -> StepView {
        match *self {
            Step::Send => StepView::Send,
            Step::Refresh => StepView::Refresh,
            Step::Backoff { max_ms } => StepView::Backoff { max_ms },
            Step::Done(r) => StepView::Done(
                match r {
                    Ok(v) => Ok(v@),
                    Err(e) => Err(e@),
                },
            ),
        }
    }
}

/// The longest a duration can be: just under 2^64 seconds.
pub const LONGEST: Nanos = 18_446_744_073_709_551_615_999_999_999;

/// The backoff base in force.
pub open spec fn effective_base(base: Nanos) -> int {
    if base == 0 {
        DEFAULT_RETRY_BASE as int
    } else if base < MIN_RETRY_BASE {
        MIN_RETRY_BASE as int
    } else {
        base as int
    }
}

/// The longest wait before a retry in milliseconds: the base doubled with each attempt, 16 times
/// at most; a minute where that is no duration any more.
pub open spec fn backoff_ms(base: Nanos, attempt: u32) -> u64 {
    let grown = effective_base(base) * pow2(
        if attempt < 16 {
            attempt as nat
        } else {
            16
        },
    ) as int;
    let max = if grown > LONGEST {
        60_000_000_000
    } else {
        grown
    };
    ((max / NANOS_PER_MILLI as int) % 0x1_0000_0000_0000_0000) as u64
}

/// The longest wait before a retry in milliseconds.
pub fn backoff_ceiling(base: Nanos, attempt: u32) -> (r: u64)
    ensures
        r == backoff_ms(base, attempt),
{
    let b: u128 = if base == 0 {
        DEFAULT_RETRY_BASE
    } else if base < MIN_RETRY_BASE {
        MIN_RETRY_BASE
    } else {
        base
    };
    let n: u32 = if attempt < 16 {
        attempt
    } else {
        16
    };
    let mut factor: u128 = 1;
    let mut i: u32 = 0;
    proof {
        lemma2_to64();
    }
    while i < n
        invariant
            i <= n <= 16,
            factor == pow2(i as nat),
            factor <= 65536,
            pow2(16) == 65536,
        decreases n - i,
    {
        proof {
            lemma_pow2_unfold((i + 1) as nat);
            if i + 1 < 16 {
                lemma_pow2_strictly_increases((i + 1) as nat, 16);
            }
        }
        factor = factor * 2;
        i += 1;
    }
    let max: u128 = if b > LONGEST / factor {
        proof {
            assert(b * factor > LONGEST) by (nonlinear_arith)
                requires
                    b > LONGEST as int / factor as int,
                    factor > 0,
            ;
        }
        60_000_000_000
    } else {
        proof {
            assert(b * factor <= LONGEST) by (nonlinear_arith)
                requires
                    b <= LONGEST as int / factor as int,
                    factor > 0,
            ;
        }
        b * factor
    };
    ((max / NANOS_PER_MILLI) % 0x1_0000_0000_0000_0000) as u64
}

/// How long to wait before a retry: a random time of at most `max_ms`.
pub fn backoff_wait_ms(max_ms: u64) -> (r: u64)
    ensures
        r <= max_ms,
{
    random::uniform_up_to(max_ms)
}

/// Whether a 4xx reply that is no auth failure gives an empty result.
pub open spec fn gives_empty(mode: OnClientError, status: u16) -> bool {
    match mode {
        OnClientError::Throw => false,
        OnClientError::Empty => true,
        OnClientError::EmptyOrConflict => status != 409,
    }
}

/// A 4xx reply that is no auth failure.
pub open spec fn client_error(
    mode: OnClientError,
    empty: Seq<u8>,
    status: u16,
    raw: Seq<u8>,
    body: Option<ErrorBodyView>,
) -> Result<Seq<u8>, ErrorView> {
    if gives_empty(mode, status) {
        Ok(empty)
    } else {
        Err(
            error::api(
                status,
                if status == 404 {
                    "NOT_FOUND"@
                } else if status == 409 {
                    "CONFLICT"@
                } else {
                    "CLIENT_ERROR"@
                },
                reply_message(body, status),
                raw,
            ),
        )
    }
}

impl RequestStateView {
    pub open spec fn fresh() -> RequestStateView {
        RequestStateView { attempt: 0, auth_retried: false, unauthorized: Seq::empty() }
    }

    /// The state after one more retry.
    pub open spec fn retried(self) -> RequestStateView {
        RequestStateView { attempt: (self.attempt + 1) as u32, ..self }
    }

    /// The state and the next step after a reply.
    pub open spec fn after(
        self,
        bearer: bool,
        max_retries: u32,
        retry_base: Nanos,
        mode: OnClientError,
        empty: Seq<u8>,
        reply: ReplyView,
    ) -> (RequestStateView, StepView) {
        let again = (
            self.retried(),
            StepView::Backoff { max_ms: backoff_ms(retry_base, self.attempt) },
        );
        match reply {
            ReplyView::NetworkError(e) => if self.attempt >= max_retries {
                (
                    self,
                    StepView::Done(
                        Err(error::api(0, "NETWORK"@, "network error: "@ + e, Seq::empty())),
                    ),
                )
            } else {
                again
            },
            ReplyView::Refreshed(ok) => if ok {
                (RequestStateView { auth_retried: true, ..self }, StepView::Send)
            } else {
                (self, StepView::Done(Err(unauthorized_error(self.unauthorized))))
            },
            ReplyView::Response { status, raw, error } => if status == 401 {
                if !self.auth_retried && bearer {
                    (RequestStateView { unauthorized: raw, ..self }, StepView::Refresh)
                } else {
                    (self, StepView::Done(Err(unauthorized_error(raw))))
                }
            } else if status == 402 || status == 403 {
                (
                    self,
                    StepView::Done(
                        Err(error::api(status, "API_AUTH"@, "auth failed"@, raw)),
                    ),
                )
            } else if status == 204 {
                (self, StepView::Done(Ok(Seq::empty())))
            } else if 200 <= status < 300 {
                (self, StepView::Done(Ok(raw)))
            } else if 400 <= status < 500 {
                (self, StepView::Done(client_error(mode, empty, status, raw, error)))
            } else if 500 <= status < 600 {
                if self.attempt >= max_retries {
                    (
                        self,
                        StepView::Done(
                            Err(
                                error::api(
                                    status,
                                    "SERVER_ERROR"@,
                                    "server error after retries"@,
                                    raw,
                                ),
                            ),
                        ),
                    )
                } else {
                    again
                }
            } else {
                (
                    self,
                    StepView::Done(
                        Err(
                            error::api(
                                status,
                                "CLIENT_ERROR"@,
                                reply_message(error, status),
                                raw,
                            ),
                        ),
                    ),
                )
            },
        }
    }
}

pub open spec fn unauthorized_error(raw: Seq<u8>) -> ErrorView {
    error::api(401, "API_AUTH"@, "auth failed (401)"@, raw)
}

fn clone_bytes(v: &Vec<u8>) -> (r: Vec<u8>)
    ensures
        r@ == v@,
{
    let r = v.clone();
    assert(r@ =~= v@);
    r
}

impl RequestState {
    /// A request about to be sent for the first time.
    pub fn new() -> (r: Self)
        ensures
            r@ == RequestStateView::fresh(),
    {
        let r = RequestState { attempt: 0, auth_retried: false, unauthorized: Vec::new() };
        assert(r@ =~= RequestStateView::fresh());
        r
    }

    /// Waits and sends again, if there are retries left.
    fn retry(&mut self, retry_base: Nanos) -> (r: Step)
        requires
            old(self)@.attempt < u32::MAX,
        ensures
            final(self)@ == old(self)@.retried(),
            r@ == (StepView::Backoff { max_ms: backoff_ms(retry_base, old(self)@.attempt) }),
    {
        let max_ms: u64 = backoff_ceiling(retry_base, self.attempt);
        self.attempt = self.attempt + 1;
        Step::Backoff { max_ms }
    }

    /// Takes what came of the last step; gives the next one.
    pub fn do_request(&mut self, transport: &Transport, opts: &RequestOpts, reply: Reply) -> (r: Step)
        ensures
            (final(self)@, r@) == old(self)@.after(
                transport.auth@.is_bearer(),
                transport.max_retries,
                transport.retry_base,
                opts.on_client_error,
                opts.empty@,
                reply@,
            ),
    {
        match reply {
            Reply::NetworkError(e) => {
                if self.attempt >= transport.max_retries {
                    let mut m = "network error: ".to_owned();
                    m.append(e.as_str());
                    let none: Vec<u8> = Vec::new();
                    assert(none@ =~= Seq::<u8>::empty());
                    return Step::Done(Err(Error::api(0, "NETWORK", m.as_str(), none)));
                }
                self.retry(transport.retry_base)
            },
            Reply::Refreshed(ok) => {
                if ok {
                    self.auth_retried = true;
                    return Step::Send;
                }
                let raw = clone_bytes(&self.unauthorized);
                Step::Done(Err(Error::api(401, "API_AUTH", "auth failed (401)", raw)))
            },
            Reply::Response { status, raw, error } => self.on_response(
                transport,
                opts,
                status,
                raw,
                error,
            ),
        }
    }

    fn on_response(
        &mut self,
        transport: &Transport,
        opts: &RequestOpts,
        status: u16,
        raw: Vec<u8>,
        error: Option<ErrorBody>,
    ) -> (r: Step)
        ensures
            (final(self)@, r@) == old(self)@.after(
                transport.auth@.is_bearer(),
                transport.max_retries,
                transport.retry_base,
                opts.on_client_error,
                opts.empty@,
                ReplyView::Response { status, raw: raw@, error: body_view(error) },
            ),
    {
        if status == 401 {
            if !self.auth_retried && transport.auth.is_bearer() {
                self.unauthorized = raw;
                return Step::Refresh;
            }
            return Step::Done(Err(Error::api(401, "API_AUTH", "auth failed (401)", raw)));
        }
        if status == 402 || status == 403 {
            return Step::Done(Err(Error::api(status, "API_AUTH", "auth failed", raw)));
        }
        if status == 204 {
            let none: Vec<u8> = Vec::new();
            assert(none@ =~= Seq::<u8>::empty());
            return Step::Done(Ok(none));
        }
        if status >= 200 && status < 300 {
            return Step::Done(Ok(raw));
        }
        if status >= 400 && status < 500 {
            let quiet = match opts.on_client_error {
                OnClientError::Throw => false,
                OnClientError::Empty => true,
                OnClientError::EmptyOrConflict => status != 409,
            };
            if quiet {
                return Step::Done(Ok(clone_bytes(&opts.empty)));
            }
            let code = if status == 404 {
                "NOT_FOUND"
            } else if status == 409 {
                "CONFLICT"
            } else {
                "CLIENT_ERROR"
            };
            let m = message_from_body(error, status);
            return Step::Done(Err(Error::api(status, code, m.as_str(), raw)));
        }
        if status >= 500 && status < 600 {
            if self.attempt >= transport.max_retries {
                return Step::Done(
                    Err(Error::api(status, "SERVER_ERROR", "server error after retries", raw)),
                );
            }
            return self.retry(transport.retry_base);
        }
        let m = message_from_body(error, status);
        Step::Done(Err(Error::api(status, "CLIENT_ERROR", m.as_str(), raw)))
    }
}

// ---------------------------------------------------------------------------------------------
// Laws.
// ---------------------------------------------------------------------------------------------

/// How often a request may still be sent again.
pub open spec fn resends_left(s: RequestStateView, max_retries: u32) -> int {
    max_retries - s.attempt + (if s.auth_retried {
        0int
    } else {
        1
    })
}

/// A request is sent again at most once for each retry, and once more for a renewed token: every
/// step that sends again uses one of those up, and a step that finds none left ends the request.
pub proof fn law_retries_are_bounded(
    s: RequestStateView,
    bearer: bool,
    max_retries: u32,
    retry_base: Nanos,
    mode: OnClientError,
    empty: Seq<u8>,
    reply: ReplyView,
)
    requires
        s.attempt <= max_retries,
        reply is Refreshed ==> !s.auth_retried,
    ensures
        ({
            let (t, step) = s.after(bearer, max_retries, retry_base, mode, empty, reply);
            &&& t.attempt <= max_retries
            &&& (step is Send || step is Backoff) ==> resends_left(t, max_retries) == resends_left(
                s,
                max_retries,
            ) - 1
            &&& step is Refresh ==> !s.auth_retried && !t.auth_retried && bearer
            &&& resends_left(s, max_retries) == 0 ==> step is Done
        }),
{
}

/// On 401 the token is renewed once and the request sent again; a second 401 is final.
pub proof fn law_one_refresh_on_unauthorized(
    s: RequestStateView,
    max_retries: u32,
    retry_base: Nanos,
    mode: OnClientError,
    empty: Seq<u8>,
    raw: Seq<u8>,
    error: Option<ErrorBodyView>,
    raw2: Seq<u8>,
    error2: Option<ErrorBodyView>,
)
    requires
        !s.auth_retried,
    ensures
        ({
            let unauthorized = ReplyView::Response { status: 401, raw, error };
            let (a, first) = s.after(true, max_retries, retry_base, mode, empty, unauthorized);
            let (b, second) = a.after(
                true,
                max_retries,
                retry_base,
                mode,
                empty,
                ReplyView::Refreshed(true),
            );
            let (_, third) = b.after(
                true,
                max_retries,
                retry_base,
                mode,
                empty,
                ReplyView::Response { status: 401, raw: raw2, error: error2 },
            );
            let (_, refused) = a.after(
                true,
                max_retries,
                retry_base,
                mode,
                empty,
                ReplyView::Refreshed(false),
            );
            &&& first == StepView::Refresh
            &&& second == StepView::Send
            &&& third == StepView::Done(Err(unauthorized_error(raw2)))
            &&& refused == StepView::Done(Err(unauthorized_error(raw)))
        }),
{
}

/// Auth failures are errors in either mode and are told apart as such.
pub proof fn law_auth_failures_are_never_empty(
    s: RequestStateView,
    bearer: bool,
    max_retries: u32,
    retry_base: Nanos,
    mode: OnClientError,
    empty: Seq<u8>,
    status: u16,
    raw: Seq<u8>,
    error: Option<ErrorBodyView>,
)
    requires
        status == 402 || status == 403 || (status == 401 && (s.auth_retried || !bearer)),
    ensures
        ({
            let step = s.after(
                bearer,
                max_retries,
                retry_base,
                mode,
                empty,
                ReplyView::Response { status, raw, error },
            ).1;
            step is Done && step->Done_0 is Err && step->Done_0->Err_0.is_auth()
        }),
{
}

/// Any other 4xx gives an empty result where one is asked for; elsewhere 404 is not found, 409 a
/// conflict, and the message is the server's own if it sent one.
pub proof fn law_client_errors(
    s: RequestStateView,
    bearer: bool,
    max_retries: u32,
    retry_base: Nanos,
    mode: OnClientError,
    empty: Seq<u8>,
    status: u16,
    raw: Seq<u8>,
    error: Option<ErrorBodyView>,
)
    requires
        400 <= status < 500,
        !(401 <= status <= 403),
    ensures
        ({
            let step = s.after(
                bearer,
                max_retries,
                retry_base,
                mode,
                empty,
                ReplyView::Response { status, raw, error },
            ).1;
            &&& step is Done
            &&& gives_empty(mode, status) ==> step->Done_0 == Ok::<_, ErrorView>(empty)
            &&& !gives_empty(mode, status) ==> {
                let e = step->Done_0->Err_0;
                &&& step->Done_0 is Err
                &&& e is Api
                &&& e->Api_0.status == status
                &&& e->Api_0.body == raw
                &&& e->Api_0.message == reply_message(error, status)
                &&& e.is_not_found() == (status == 404)
                &&& e.is_conflict() == (status == 409)
                &&& !e.is_auth()
            }
        }),
{
    reveal_strlit("API_AUTH");
    reveal_strlit("REFRESH_FAILED");
    reveal_strlit("NOT_FOUND");
    reveal_strlit("CONFLICT");
    reveal_strlit("CLIENT_ERROR");
    assert("API_AUTH"@[0] == 'A');
    assert("REFRESH_FAILED"@[0] == 'R');
    assert("NOT_FOUND"@[0] == 'N');
    assert("CONFLICT"@.len() != "CLIENT_ERROR"@.len());
    assert("CONFLICT"@[0] == 'C');
    assert("CLIENT_ERROR"@[0] == 'C');
}

/// The wait before a retry never exceeds the base doubled with each attempt, and stops growing
/// after 16 of them.
pub proof fn law_backoff_is_bounded(base: Nanos, attempt: u32)
    ensures
        backoff_ms(base, attempt) * NANOS_PER_MILLI <= effective_base(base) * pow2(attempt as nat),
        attempt >= 16 ==> backoff_ms(base, attempt) == backoff_ms(base, 16),
{
    lemma2_to64();
    let n: nat = if attempt < 16 {
        attempt as nat
    } else {
        16
    };
    if n < attempt {
        lemma_pow2_strictly_increases(n, attempt as nat);
    }
    lemma_pow2_pos(n);
    let b = effective_base(base);
    let p = pow2(n) as int;
    let q = pow2(attempt as nat) as int;
    assert(0 <= b * p <= b * q) by (nonlinear_arith)
        requires
            0 < p <= q,
            b >= 0,
    ;
}

/// Every 5xx reply is tried again while retries are left, one more each time, and the next step is
/// to wait; with none left it is a server error that carries the status and the bytes of the
/// reply. A request that does not get through goes the same way and ends as a network error.
pub proof fn law_server_and_network_errors_are_retried(
    s: RequestStateView,
    bearer: bool,
    max_retries: u32,
    retry_base: Nanos,
    mode: OnClientError,
    empty: Seq<u8>,
    status: u16,
    raw: Seq<u8>,
    error: Option<ErrorBodyView>,
    e: Seq<char>,
)
    ensures
        500 <= status <= 599 ==> ({
            let (t, step) = s.after(
                bearer,
                max_retries,
                retry_base,
                mode,
                empty,
                ReplyView::Response { status, raw, error },
            );
            &&& s.attempt < max_retries ==> step is Backoff && t.attempt == s.attempt + 1
                && t.auth_retried == s.auth_retried
            &&& s.attempt >= max_retries ==> t == s && (step matches StepView::Done(
                Err(ErrorView::Api(a)),
            ) && a.status == status && a.code == "SERVER_ERROR"@ && a.body == raw)
        }),
        ({
            let (t, step) = s.after(
                bearer,
                max_retries,
                retry_base,
                mode,
                empty,
                ReplyView::NetworkError(e),
            );
            &&& s.attempt < max_retries ==> step is Backoff && t.attempt == s.attempt + 1
                && t.auth_retried == s.auth_retried
            &&& s.attempt >= max_retries ==> t == s && (step matches StepView::Done(
                Err(ErrorView::Api(a)),
            ) && a.status == 0 && a.code == "NETWORK"@ && a.message == "network error: "@ + e
                && a.body.len() == 0)
        }),
{
}

/// Only a 5xx reply or a request that did not get through is waited for and sent again.
pub proof fn law_nothing_else_is_retried(
    s: RequestStateView,
    bearer: bool,
    max_retries: u32,
    retry_base: Nanos,
    mode: OnClientError,
    empty: Seq<u8>,
    reply: ReplyView,
)
    ensures
        ({
            let (t, step) = s.after(bearer, max_retries, retry_base, mode, empty, reply);
            &&& step is Backoff <==> s.attempt < max_retries && (reply is NetworkError || (
            reply matches ReplyView::Response { status, .. } && 500 <= status <= 599))
            &&& step is Refresh <==> bearer && !s.auth_retried && (
            reply matches ReplyView::Response { status, .. } && status == 401)
            &&& step is Send <==> reply == ReplyView::Refreshed(true)
            &&& !(step is Backoff) ==> t.attempt == s.attempt
            &&& t.auth_retried <==> s.auth_retried || reply == ReplyView::Refreshed(true)
        }),
{
}

/// What a request comes to is what the server said: of a 2xx reply its bytes, and nothing of a
/// 204, which has none.
pub proof fn law_success_hands_over_the_bytes(
    s: RequestStateView,
    bearer: bool,
    max_retries: u32,
    retry_base: Nanos,
    mode: OnClientError,
    empty: Seq<u8>,
    status: u16,
    raw: Seq<u8>,
    error: Option<ErrorBodyView>,
)
    ensures
        ({
            let (t, step) = s.after(
                bearer,
                max_retries,
                retry_base,
                mode,
                empty,
                ReplyView::Response { status, raw, error },
            );
            &&& 200 <= status <= 299 && status != 204 ==> step == StepView::Done(Ok(raw)) && t == s
            &&& status == 204 ==> step == StepView::Done(Ok(Seq::empty())) && t == s
            &&& step matches StepView::Done(Ok(b)) ==> 200 <= status <= 299 || (400 <= status <= 499
                && b == empty)
        }),
{
}

/// How a refusal is told: 401, 402 and 403 are auth failures in every mode; of the other 4xx, 404
/// is not found and 409 a conflict; a request that asks for it gets its empty result instead, but
/// never on a conflict that it wants to hear of. Redirects and whatever is no HTTP status are
/// errors too. All carry the status and the bytes of the reply.
pub proof fn law_refusals_are_told_apart(
    s: RequestStateView,
    bearer: bool,
    max_retries: u32,
    retry_base: Nanos,
    mode: OnClientError,
    empty: Seq<u8>,
    status: u16,
    raw: Seq<u8>,
    error: Option<ErrorBodyView>,
)
    requires
        !(200 <= status <= 299),
        !(500 <= status <= 599),
        status == 401 ==> s.auth_retried || !bearer,
    ensures
        ({
            let step = s.after(
                bearer,
                max_retries,
                retry_base,
                mode,
                empty,
                ReplyView::Response { status, raw, error },
            ).1;
            let auth = status == 401 || status == 402 || status == 403;
            let quiet = 400 <= status <= 499 && !auth && (mode == OnClientError::Empty || (mode
                == OnClientError::EmptyOrConflict && status != 409));
            &&& quiet ==> step == StepView::Done(Ok(empty))
            &&& !quiet ==> (step matches StepView::Done(Err(ErrorView::Api(a))) && a.status
                == status && a.body == raw && a.code == (if auth {
                "API_AUTH"@
            } else if status == 404 {
                "NOT_FOUND"@
            } else if status == 409 {
                "CONFLICT"@
            } else {
                "CLIENT_ERROR"@
            }))
        }),
{
}

/// The message of a refusal is what the server says: its message, else its error text, else the
/// name of the status.
pub proof fn law_message_is_the_servers_own(body: Option<ErrorBodyView>, status: u16)
    ensures
        ({
            let said = reply_message(body, status);
            let m = body matches Some(b) && (b.message matches Some(m) && m.len() > 0);
            let e = body matches Some(b) && (b.error matches Some(e) && e.len() > 0);
            &&& m ==> said == body->0.message->0
            &&& !m && e ==> said == body->0.error->0
            &&& !m && !e ==> said == (match encoding::reason(status) {
                Some(r) => r,
                None => "unknown"@,
            })
        }),
{
}

/// Where a request stands after a run of replies.
pub open spec fn after_failures(
    s: RequestStateView,
    bearer: bool,
    max_retries: u32,
    retry_base: Nanos,
    mode: OnClientError,
    empty: Seq<u8>,
    replies: Seq<ReplyView>,
) -> RequestStateView
    decreases replies.len(),
{
    if replies.len() == 0 {
        s
    } else {
        after_failures(
            s,
            bearer,
            max_retries,
            retry_base,
            mode,
            empty,
            replies.drop_last(),
        ).after(bearer, max_retries, retry_base, mode, empty, replies.last()).0
    }
}

/// A request that keeps failing is sent once and then exactly `max_retries` times more.
pub proof fn law_a_failing_request_uses_up_its_retries(
    bearer: bool,
    max_retries: u32,
    retry_base: Nanos,
    mode: OnClientError,
    empty: Seq<u8>,
    replies: Seq<ReplyView>,
    next: ReplyView,
)
    requires
        replies.len() <= max_retries,
        forall|i: int|
            0 <= i < replies.len() ==> ((#[trigger] replies[i]) is NetworkError || (
            replies[i] matches ReplyView::Response { status, .. } && 500 <= status <= 599)),
        next is NetworkError || (next matches ReplyView::Response { status, .. } && 500 <= status
            <= 599),
    ensures
        ({
            let s = after_failures(
                RequestStateView::fresh(),
                bearer,
                max_retries,
                retry_base,
                mode,
                empty,
                replies,
            );
            let step = s.after(bearer, max_retries, retry_base, mode, empty, next).1;
            &&& s.attempt == replies.len()
            &&& replies.len() < max_retries ==> step is Backoff
            &&& replies.len() == max_retries ==> (step matches StepView::Done(r) && r is Err)
        }),
    decreases replies.len(),
{
    if replies.len() > 0 {
        let head = replies.drop_last();
        assert forall|i: int| 0 <= i < head.len() implies ((#[trigger] head[i]) is NetworkError || (
        head[i] matches ReplyView::Response { status, .. } && 500 <= status <= 599)) by {
            assert(head[i] == replies[i]);
        }
        assert(replies.last() == replies[replies.len() - 1]);
        law_a_failing_request_uses_up_its_retries(
            bearer,
            max_retries,
            retry_base,
            mode,
            empty,
            head,
            replies.last(),
        );
    }
}

/// The ceiling of the wait before a retry: the base for the first and twice as much each time,
/// up to the seventeenth. No base stands for a second, and none is below 200 ms.
pub proof fn law_backoff_doubles(base: Nanos, attempt: u32)
    requires
        base < 200_000_000_000_000_000_000,
    ensures
        base == 0 ==> backoff_ms(base, 0) == 1000,
        0 < base < 200_000_000 ==> backoff_ms(base, 0) == 200,
        base >= 200_000_000 ==> backoff_ms(base, 0) == base / 1_000_000,
        base % 1_000_000 == 0 && base >= 200_000_000 && attempt < 16 ==> backoff_ms(
            base,
            (attempt + 1) as u32,
        ) == 2 * backoff_ms(base, attempt),
        (base == 0 || base < 200_000_000) && attempt < 16 ==> backoff_ms(base, (attempt + 1) as u32)
            == 2 * backoff_ms(base, attempt),
        attempt >= 16 ==> backoff_ms(base, attempt) == backoff_ms(base, 16),
{
    lemma2_to64();
    let b = effective_base(base);
    assert(b * pow2(0) as int == b) by (nonlinear_arith)
        requires
            pow2(0) == 1,
    ;
    if attempt < 16 {
        let p = pow2(attempt as nat) as int;
        let k = b / 1_000_000;
        lemma_pow2_unfold((attempt + 1) as nat);
        lemma_pow2_pos(attempt as nat);
        if attempt < 15 {
            lemma_pow2_strictly_increases((attempt + 1) as nat, 16);
        }
        assert(2 * p <= 65536);
        assert(b * (2 * p) == 2 * (b * p)) by (nonlinear_arith);
        assert(0 <= b * p <= 200_000_000_000_000_000_000 * 32768) by (nonlinear_arith)
            requires
                0 <= b <= 200_000_000_000_000_000_000,
                0 <= p <= 32768,
        ;
        if b == 1_000_000 * k {
            assert(b * p == 1_000_000 * (k * p)) by (nonlinear_arith)
                requires
                    b == 1_000_000 * k,
            ;
            assert(backoff_ms(base, attempt) == k * p);
            assert(backoff_ms(base, (attempt + 1) as u32) == 2 * (k * p));
        }
    }
}

/// The address of a request: base and path, and where any parameter has a value a `?` and the
/// parameters.
pub proof fn law_request_address(
    base: Seq<char>,
    path: Seq<char>,
    pairs: Seq<(Seq<char>, Seq<char>)>,
)
    ensures
        ({
            let some = exists|i: int| 0 <= i < pairs.len() && (#[trigger] pairs[i]).1.len() > 0;
            &&& !some ==> request_url(base, path, pairs) == base + path
            &&& some ==> request_url(base, path, pairs) == base + path + seq!['?'] + query_text(
                pairs,
            )
        }),
    decreases pairs.len(),
{
    reveal_strlit("?");
    assert("?"@ =~= seq!['?']);
    lemma_query_empty(pairs);
}

proof fn lemma_query_empty(pairs: Seq<(Seq<char>, Seq<char>)>)
    ensures
        query_text(pairs).len() > 0 <==> exists|i: int|
            0 <= i < pairs.len() && (#[trigger] pairs[i]).1.len() > 0,
    decreases pairs.len(),
{
    if pairs.len() > 0 {
        let head = pairs.drop_last();
        lemma_query_empty(head);
        if exists|i: int| 0 <= i < pairs.len() && (#[trigger] pairs[i]).1.len() > 0 {
            let i = choose|i: int| 0 <= i < pairs.len() && (#[trigger] pairs[i]).1.len() > 0;
            if i < head.len() {
                assert(head[i].1.len() > 0);
            }
        }
        if exists|i: int| 0 <= i < head.len() && (#[trigger] head[i]).1.len() > 0 {
            let i = choose|i: int| 0 <= i < head.len() && (#[trigger] head[i]).1.len() > 0;
            assert(pairs[i].1.len() > 0);
        }
        if pairs.last().1.len() > 0 {
            assert(pairs[pairs.len() - 1].1.len() > 0);
        }
    }
}

/// Parameters stand in their order as `name=value`, both form-encoded, with `&` between; one
/// without a value does not show.
pub proof fn law_parameters_stand_in_order(
    pairs: Seq<(Seq<char>, Seq<char>)>,
    name: Seq<char>,
    value: Seq<char>,
)
    ensures
        query_text(Seq::empty()).len() == 0,
        value.len() == 0 ==> query_text(pairs.push((name, value))) == query_text(pairs),
        value.len() > 0 ==> ({
            let shown = encoding::form(encode_utf8(name)) + seq!['='] + encoding::form(
                encode_utf8(value),
            );
            let before = query_text(pairs);
            &&& before.len() == 0 ==> query_text(pairs.push((name, value))) == shown
            &&& before.len() > 0 ==> query_text(pairs.push((name, value))) == before + seq!['&']
                + shown
        }),
{
    let all = pairs.push((name, value));
    assert(all.drop_last() =~= pairs);
    assert(all.last() == (name, value));
}

/// A base address loses the slashes at its end and nothing else.
pub proof fn law_only_slashes_at_the_end_go(s: Seq<char>)
    ensures
        slashes_trimmed(s).len() <= s.len(),
        s.take(slashes_trimmed(s).len() as int) == slashes_trimmed(s),
        forall|i: int| slashes_trimmed(s).len() <= i < s.len() ==> #[trigger] s[i] == '/',
        slashes_trimmed(s).len() > 0 ==> slashes_trimmed(s).last() != '/',
    decreases s.len(),
{
    if s.len() > 0 && s.last() == '/' {
        let h = s.drop_last();
        law_only_slashes_at_the_end_go(h);
        let n = slashes_trimmed(s).len() as int;
        assert(s.take(n) =~= h.take(n));
        assert forall|i: int| n <= i < s.len() implies #[trigger] s[i] == '/' by {
            if i < h.len() {
                assert(h[i] == s[i]);
            }
        }
    } else {
        assert(s.take(s.len() as int) =~= s);
    }
}

/// A request with a body says that it is JSON, behind its other headers.
pub proof fn law_bodies_are_announced_as_json(h: Seq<(Seq<char>, Seq<char>)>)
    ensures
        with_content_type(h).len() == h.len() + 1,
        with_content_type(h).take(h.len() as int) == h,
        with_content_type(h).last() == ("content-type"@, "application/json"@),
{
    assert(with_content_type(h).take(h.len() as int) =~= h);
}

/// A 401 that cannot be mended is an auth failure with the bytes of the reply that was refused,
/// also when the renewal in between failed.
pub proof fn law_unauthorized_replies_are_told_with_their_bytes(
    s: RequestStateView,
    max_retries: u32,
    retry_base: Nanos,
    mode: OnClientError,
    empty: Seq<u8>,
    raw: Seq<u8>,
    error: Option<ErrorBodyView>,
)
    requires
        !s.auth_retried,
    ensures
        ({
            let reply = ReplyView::Response { status: 401, raw, error };
            let (a, first) = s.after(true, max_retries, retry_base, mode, empty, reply);
            let last = a.after(
                true,
                max_retries,
                retry_base,
                mode,
                empty,
                ReplyView::Refreshed(false),
            ).1;
            let key = s.after(false, max_retries, retry_base, mode, empty, reply).1;
            &&& first is Refresh
            &&& a.attempt == s.attempt && !a.auth_retried
            &&& last matches StepView::Done(Err(ErrorView::Api(e))) && e.status == 401 && e.code
                == "API_AUTH"@ && e.body == raw
            &&& key matches StepView::Done(Err(ErrorView::Api(e))) && e.status == 401 && e.code
                == "API_AUTH"@ && e.body == raw
        }),
        RequestStateView::fresh().attempt == 0,
        !RequestStateView::fresh().auth_retried,
{
}

} // verus!
