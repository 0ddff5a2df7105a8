//! Authentication of HTTP requests.

use crate::clock::{Nanos, NANOS_PER_MILLI};
use crate::config::{ClientAuth, ClientAuthView, Config, ConfigView};
use crate::encoding;
use crate::error;
use crate::error::{Error, ErrorView};
use crate::text;
use vstd::prelude::*;
use vstd::string::*;

verus! {

/// A short-lived token pair and its renewal. At most one renewal is under way at a time.
#[derive(Debug)]
pub struct ClientAuthSession {
    access_token: String,
    refresh_token: String,
    expires_at: i64,
    issued_at: Nanos,
    refreshing: bool,
}

/// The value of a [`ClientAuthSession`].
pub struct SessionView {
    pub pair: ClientAuthView,
    /// When the pair came, on the monotonic clock.
    pub issued_at: Nanos,
    pub refreshing: bool,
}

impl View for ClientAuthSession {
    type V = SessionView;

    closed spec fn view(&self) -> SessionView {
        SessionView {
            pair: ClientAuthView {
                access_token: self.access_token@,
                refresh_token: self.refresh_token@,
                expires_at: self.expires_at,
            },
            issued_at: self.issued_at,
            refreshing: self.refreshing,
        }
    }
}

/// Whether a pair has all its parts.
pub open spec fn complete(p: ClientAuthView) -> bool {
    p.access_token.len() > 0 && p.refresh_token.len() > 0 && p.expires_at != 0
}

fn is_complete(p: &ClientAuth) -> (r: bool)
    ensures
        r == complete(p@),
{
    p.access_token.as_str().unicode_len() > 0 && p.refresh_token.as_str().unicode_len() > 0
        && p.expires_at != 0
}

impl SessionView {
    /// Milliseconds since the pair came.
    pub open spec fn age_ms(self, now: Nanos) -> int {
        if now >= self.issued_at {
            (now - self.issued_at) / NANOS_PER_MILLI as int
        } else {
            0
        }
    }

    /// The lifetime of the pair in milliseconds, counted from when it came.
    pub open spec fn ttl_ms(self, now_ms: i64, now: Nanos) -> int {
        self.pair.expires_at - (now_ms - self.age_ms(now))
    }

    /// Whether the pair is to be renewed before it is used again: at half its lifetime; where it
    /// came with none left, from 30 s before its end.
    pub open spec fn due(self, now_ms: i64, now: Nanos) -> bool {
        let ttl = self.ttl_ms(now_ms, now);
        if ttl <= 0 {
            now_ms >= self.pair.expires_at - 30_000
        } else {
            now >= self.issued_at + (ttl / 2) * NANOS_PER_MILLI
        }
    }

    /// The session and the next step when a renewal is wanted; `waited` says that the end of
    /// another one has just been waited for.
    pub open spec fn begin(self, waited: bool) -> (SessionView, RefreshStepView) {
        if self.refreshing {
            (self, RefreshStepView::Wait)
        } else if waited {
            (self, RefreshStepView::Done)
        } else {
            (
                SessionView { refreshing: true, ..self },
                RefreshStepView::Renew { refresh_token: self.pair.refresh_token },
            )
        }
    }

    /// The session after a renewal came to `ev`.
    pub open spec fn finish(self, ev: RefreshEvent, now: Nanos) -> SessionView {
        match refresh_outcome(ev) {
            Ok(p) => self.renewed(p, now),
            Err(_) => SessionView { refreshing: false, ..self },
        }
    }

    /// The session with a new pair that came at `now`.
    pub open spec fn renewed(self, pair: ClientAuthView, now: Nanos) -> SessionView {
        SessionView { pair, issued_at: now, refreshing: false }
    }
}

/// What to do about a renewal.
#[derive(Debug)]
pub enum RefreshStep {
    /// Ask for a new pair with this refresh token.
    Renew { refresh_token: String },
    /// Another renewal is under way: wait for its end.
    Wait,
    /// There is nothing to do: the renewal that was waited for is over.
    Done,
    /// There is nothing that could be renewed.
    Unable,
}

/// The value of a [`RefreshStep`].
pub enum RefreshStepView {
    Renew { refresh_token: Seq<char> },
    Wait,
    Done,
    Unable,
}

impl View for RefreshStep {
    type V = RefreshStepView;

    open spec fn view(&self) -> RefreshStepView {
        match *self {
            RefreshStep::Renew { refresh_token } => RefreshStepView::Renew {
                refresh_token: refresh_token@,
            },
            RefreshStep::Wait => RefreshStepView::Wait,
            RefreshStep::Done => RefreshStepView::Done,
            RefreshStep::Unable => RefreshStepView::Unable,
        }
    }
}

/// What a renewal comes to.
#[derive(Debug)]
pub enum RefreshEvent {
    /// The request did not get through.
    NetworkError(String),
    /// A response: its status, its body, and the pair in it or why there is none.
    Response { status: u16, raw: Vec<u8>, pair: Result<ClientAuth, String> },
}

/// An error of a renewal.
pub open spec fn refresh_error(status: u16, message: Seq<char>, body: Seq<u8>) -> ErrorView {
    error::api(status, "REFRESH_FAILED"@, message, body)
}

/// The new pair, or why the renewal failed.
pub open spec fn refresh_outcome(ev: RefreshEvent) -> Result<ClientAuthView, ErrorView> {
    match ev {
        RefreshEvent::NetworkError(e) => Err(
            refresh_error(0, "client token refresh network error: "@ + e@, Seq::empty()),
        ),
        RefreshEvent::Response { status, raw, pair } => if !(200 <= status < 300) {
            Err(
                refresh_error(
                    status,
                    "client token refresh failed ("@ + text::decimal(status as nat) + ")"@,
                    raw@,
                ),
            )
        } else {
            match pair {
                Err(e) => Err(
                    refresh_error(0, "refresh returned invalid JSON: "@ + e@, raw@),
                ),
                Ok(p) => if complete(p@) {
                    Ok(p@)
                } else {
                    Err(
                        refresh_error(0, "refresh returned invalid clientAuth pair"@, raw@),
                    )
                },
            }
        },
    }
}

/// Decides what a renewal came to.
pub fn refresh_result(ev: RefreshEvent) -> (r: Result<ClientAuth, Error>)
    ensures
        match refresh_outcome(ev) {
            Ok(p) => r is Ok && r->Ok_0@ == p,
            Err(e) => r is Err && r->Err_0@ == e,
        },
{
    match ev {
        RefreshEvent::NetworkError(e) => {
            let mut m = "client token refresh network error: ".to_owned();
            m.append(e.as_str());
            let none: Vec<u8> = Vec::new();
            assert(none@ =~= Seq::<u8>::empty());
            Err(Error::api(0, "REFRESH_FAILED", m.as_str(), none))
        },
        RefreshEvent::Response { status, raw, pair } => {
            if status < 200 || status >= 300 {
                let n = text::decimal_text(status as u64);
                let m = text::concat3("client token refresh failed (", n.as_str(), ")");
                return Err(Error::api(status, "REFRESH_FAILED", m.as_str(), raw));
            }
            match pair {
                Err(e) => {
                    let mut m = "refresh returned invalid JSON: ".to_owned();
                    m.append(e.as_str());
                    Err(Error::api(0, "REFRESH_FAILED", m.as_str(), raw))
                },
                Ok(p) => {
                    if is_complete(&p) {
                        Ok(p)
                    } else {
                        Err(
                            Error::api(
                                0,
                                "REFRESH_FAILED",
                                "refresh returned invalid clientAuth pair",
                                raw,
                            ),
                        )
                    }
                },
            }
        },
    }
}

impl ClientAuthSession {
    pub fn new(initial: ClientAuth, now: Nanos) -> (r: Result<Self, Error>)
        ensures
            complete(initial@) ==> r is Ok && r->Ok_0@ == (SessionView {
                pair: initial@,
                issued_at: now,
                refreshing: false,
            }),
            !complete(initial@) ==> r is Err && r->Err_0@ == error::bad_config(
                "client_auth requires access_token, refresh_token, and expires_at (unix ms)"@,
            ),
    {
        if !is_complete(&initial) {
            return Err(
                Error::invalid_config(
                    "client_auth requires access_token, refresh_token, and expires_at (unix ms)",
                ),
            );
        }
        Ok(
            ClientAuthSession {
                access_token: initial.access_token,
                refresh_token: initial.refresh_token,
                expires_at: initial.expires_at,
                issued_at: now,
                refreshing: false,
            },
        )
    }

    /// Whether the pair is to be renewed before it is used again.
    pub fn needs_proactive_refresh(&self, now_ms: i64, now: Nanos) -> (r: bool)
        ensures
            r == self@.due(now_ms, now),
    {
        let age: u128 = if now >= self.issued_at {
            (now - self.issued_at) / NANOS_PER_MILLI
        } else {
            0
        };
        let ttl: i128 = self.expires_at as i128 - (now_ms as i128 - age as i128);
        if ttl <= 0 {
            return now_ms as i128 >= self.expires_at as i128 - 30_000;
        }
        let half: u128 = (ttl / 2) as u128;
        let after: u128 = half * NANOS_PER_MILLI;
        now >= self.issued_at && now - self.issued_at >= after
    }

    /// The access token.
    pub fn token(&self) -> (r: String)
        ensures
            r@ == self@.pair.access_token,
    {
        self.access_token.clone()
    }

    /// Begins a renewal, unless one is under way or has just been waited for.
    pub fn begin_refresh(&mut self, waited: bool) -> (r: RefreshStep)
        ensures
            (final(self)@, r@) == old(self)@.begin(waited),
    {
        if self.refreshing {
            return RefreshStep::Wait;
        }
        if waited {
            return RefreshStep::Done;
        }
        self.refreshing = true;
        RefreshStep::Renew { refresh_token: self.refresh_token.clone() }
    }

    /// Ends a renewal: a new pair replaces the old one, an error leaves it.
    pub fn finish_refresh(&mut self, ev: RefreshEvent, now: Nanos) -> (r: Result<(), Error>)
        ensures
            final(self)@ == old(self)@.finish(ev, now),
            match refresh_outcome(ev) {
                Ok(_) => r is Ok,
                Err(e) => r is Err && r->Err_0@ == e,
            },
    {
        self.refreshing = false;
        let pair = refresh_result(ev)?;
        self.access_token = pair.access_token;
        self.refresh_token = pair.refresh_token;
        self.expires_at = pair.expires_at;
        self.issued_at = now;
        Ok(())
    }
}

/// How requests are authenticated.
#[derive(Debug)]
pub enum AuthKind {
    /// `x-api-key`.
    ApiKey(String),
    /// A bearer token that is never renewed.
    Static(String),
    /// A bearer token that is renewed.
    Session(ClientAuthSession),
}

/// The value of an [`AuthKind`].
pub enum AuthView {
    ApiKey(Seq<char>),
    Static(Seq<char>),
    Session(SessionView),
}

impl View for AuthKind {
    type V = AuthView;

    open spec fn view(&self) -> AuthView {
        match *self {
            AuthKind::ApiKey(k) => AuthView::ApiKey(k@),
            AuthKind::Static(t) => AuthView::Static(t@),
            AuthKind::Session(s) => AuthView::Session(s@),
        }
    }
}

/// A header as text.
pub open spec fn pair_view(p: (String, String)) -> (Seq<char>, Seq<char>) {
    (p.0@, p.1@)
}

/// Pairs of texts.
pub open spec fn pairs_view(v: Seq<(String, String)>) -> Seq<(Seq<char>, Seq<char>)> {
    v.map_values(|p: (String, String)| pair_view(p))
}

impl AuthView {
    pub open spec fn is_bearer(self) -> bool {
        !(self is ApiKey)
    }

    /// Whether the token is to be renewed before a request.
    pub open spec fn due(self, now_ms: i64, now: Nanos) -> bool {
        self is Session && self->Session_0.due(now_ms, now)
    }

    /// What is left and what to do when a renewal is wanted.
    pub open spec fn begin(self, waited: bool) -> (AuthView, RefreshStepView) {
        match self {
            AuthView::Session(s) => (AuthView::Session(s.begin(waited).0), s.begin(waited).1),
            _ => (self, RefreshStepView::Unable),
        }
    }

    /// The bearer token in use.
    pub open spec fn bearer(self) -> Seq<char> {
        match self {
            AuthView::ApiKey(_) => Seq::empty(),
            AuthView::Static(t) => t,
            AuthView::Session(s) => s.pair.access_token,
        }
    }

    /// The headers of a request.
    pub open spec fn headers(self) -> Result<Seq<(Seq<char>, Seq<char>)>, ErrorView> {
        let accept = ("Accept"@, "application/json"@);
        match self {
            AuthView::ApiKey(k) => if encoding::header_safe(k) {
                Ok(seq![accept, ("x-api-key"@, k)])
            } else {
                Err(error::bad_config("api_key contains invalid header characters"@))
            },
            _ => {
                let value = "Bearer "@ + self.bearer();
                if encoding::header_safe(value) {
                    Ok(seq![accept, ("authorization"@, value)])
                } else {
                    Err(
                        error::api(
                            0,
                            "INVALID_TOKEN"@,
                            "access token is not a valid header"@,
                            Seq::empty(),
                        ),
                    )
                }
            },
        }
    }
}

/// Appends a header.
pub(crate) fn push_pair(v: &mut Vec<(String, String)>, name: &str, value: &str)
    ensures
        pairs_view(final(v)@) == pairs_view(old(v)@).push((name@, value@)),
{
    v.push((name.to_owned(), value.to_owned()));
    assert(pairs_view(v@) =~= pairs_view(old(v)@).push((name@, value@)));
}

impl AuthKind {
    pub fn is_bearer(&self) -> (r: bool)
        ensures
            r == self@.is_bearer(),
    {
        match self {
            AuthKind::ApiKey(_) => false,
            _ => true,
        }
    }

    /// Whether the token is to be renewed before a request.
    pub fn needs_refresh(&self, now_ms: i64, now: Nanos) -> (r: bool)
        ensures
            r == self@.due(now_ms, now),
    {
        match self {
            AuthKind::Session(s) => s.needs_proactive_refresh(now_ms, now),
            _ => false,
        }
    }

    /// Begins a renewal where there is something to renew.
    pub fn refresh_after_unauthorized(&mut self, waited: bool) -> (r: RefreshStep)
        ensures
            (final(self)@, r@) == old(self)@.begin(waited),
    {
        match self {
            AuthKind::Session(s) => s.begin_refresh(waited),
            _ => RefreshStep::Unable,
        }
    }

    /// Ends a renewal.
    pub fn finish_refresh(&mut self, ev: RefreshEvent, now: Nanos) -> (r: Result<(), Error>)
        requires
            old(self)@ is Session,
        ensures
            final(self)@ == AuthView::Session(old(self)@->Session_0.finish(ev, now)),
            match refresh_outcome(ev) {
                Ok(_) => r is Ok,
                Err(e) => r is Err && r->Err_0@ == e,
            },
    {
        match self {
            AuthKind::Session(s) => s.finish_refresh(ev, now),
            _ => Ok(()),
        }
    }

    /// The headers of a request, with the token as it is now.
    pub fn apply(&self) -> (r: Result<Vec<(String, String)>, Error>)
        ensures
            match self@.headers() {
                Ok(h) => r is Ok && pairs_view(r->Ok_0@) == h,
                Err(e) => r is Err && r->Err_0@ == e,
            },
    {
        let mut headers: Vec<(String, String)> = Vec::new();
        assert(pairs_view(headers@) =~= Seq::<(Seq<char>, Seq<char>)>::empty());
        push_pair(&mut headers, "Accept", "application/json");
        match self {
            AuthKind::ApiKey(key) => {
                if !encoding::is_header_safe(key.as_str()) {
                    return Err(
                        Error::invalid_config("api_key contains invalid header characters"),
                    );
                }
                push_pair(&mut headers, "x-api-key", key.as_str());
            },
            _ => {
                let token = match self {
                    AuthKind::Static(t) => t.clone(),
                    AuthKind::Session(s) => s.token(),
                    AuthKind::ApiKey(_) => String::new(),
                };
                let mut value = "Bearer ".to_owned();
                value.append(token.as_str());
                if !encoding::is_header_safe(value.as_str()) {
                    let none: Vec<u8> = Vec::new();
                    assert(none@ =~= Seq::<u8>::empty());
                    return Err(
                        Error::api(
                            0,
                            "INVALID_TOKEN",
                            "access token is not a valid header",
                            none,
                        ),
                    );
                }
                push_pair(&mut headers, "authorization", value.as_str());
            },
        }
        Ok(headers)
    }
}

/// A text that is there and not empty.
pub open spec fn given(s: Option<Seq<char>>) -> bool {
    s is Some && s->0.len() > 0
}

fn is_given(s: &Option<String>) -> (r: bool)
    ensures
        r == given(crate::config::opt_text(*s)),
{
    match s {
        Some(s) => s.as_str().unicode_len() > 0,
        None => false,
    }
}

/// How requests are authenticated under a configuration, which must name exactly one way.
pub open spec fn resolved(cfg: ConfigView, now: Nanos) -> Result<AuthView, ErrorView> {
    let key = given(cfg.api_key);
    let pair = cfg.client_auth is Some;
    let token = given(cfg.access_token);
    if (key && pair) || (key && token) || (pair && token) {
        Err(error::bad_config("provide only one of: api_key | client_auth | access_token"@))
    } else if key {
        Ok(AuthView::ApiKey(cfg.api_key->0))
    } else if pair {
        if complete(cfg.client_auth->0) {
            Ok(
                AuthView::Session(
                    SessionView { pair: cfg.client_auth->0, issued_at: now, refreshing: false },
                ),
            )
        } else {
            Err(
                error::bad_config(
                    "client_auth requires access_token, refresh_token, and expires_at (unix ms)"@,
                ),
            )
        }
    } else if token {
        Ok(AuthView::Static(cfg.access_token->0))
    } else {
        Err(error::bad_config("auth required: api_key, client_auth, or access_token"@))
    }
}

/// Finds how requests are authenticated.
pub fn resolve_auth(cfg: &Config, now: Nanos) -> (r: Result<AuthKind, Error>)
    ensures
        match resolved(cfg@, now) {
            Ok(a) => r is Ok && r->Ok_0@ == a,
            Err(e) => r is Err && r->Err_0@ == e,
        },
{
    let mut n: u8 = 0;
    if is_given(&cfg.api_key) {
        n = n + 1;
    }
    if cfg.client_auth.is_some() {
        n = n + 1;
    }
    if is_given(&cfg.access_token) {
        n = n + 1;
    }
    if n > 1 {
        return Err(
            Error::invalid_config("provide only one of: api_key | client_auth | access_token"),
        );
    }
    if n == 0 {
        return Err(Error::invalid_config("auth required: api_key, client_auth, or access_token"));
    }
    if let Some(key) = &cfg.api_key {
        if key.as_str().unicode_len() > 0 {
            return Ok(AuthKind::ApiKey(key.clone()));
        }
    }
    if let Some(auth) = &cfg.client_auth {
        let session = ClientAuthSession::new(auth.clone(), now)?;
        return Ok(AuthKind::Session(session));
    }
    let token = match &cfg.access_token {
        Some(t) => t.clone(),
        None => String::new(),
    };
    Ok(AuthKind::Static(token))
}

/// A renewal that fails is an auth failure, whatever went wrong.
pub proof fn law_failed_refresh_is_an_auth_failure(ev: RefreshEvent)
    ensures
        refresh_outcome(ev) is Err ==> refresh_outcome(ev)->Err_0.is_auth(),
{
}

/// At most one renewal is under way: whoever else wants one waits, and whoever waited finds it
/// done when it is over, however it ended.
pub proof fn law_one_renewal_at_a_time(
    s: SessionView,
    waited: bool,
    ev: RefreshEvent,
    now: Nanos,
)
    requires
        !s.refreshing,
    ensures
        s.begin(false).1 is Renew,
        s.begin(false).0.begin(waited) == (s.begin(false).0, RefreshStepView::Wait),
        s.begin(false).0.finish(ev, now).begin(true).1 is Done,
        s.begin(false).0.finish(ev, now).begin(false).1 is Renew,
{
}

/// A failed renewal leaves the pair as it was; one that succeeds replaces it whole.
pub proof fn law_renewal_replaces_the_pair_or_nothing(s: SessionView, ev: RefreshEvent, now: Nanos)
    ensures
        refresh_outcome(ev) is Err ==> s.finish(ev, now).pair == s.pair && s.finish(
            ev,
            now,
        ).issued_at == s.issued_at,
        refresh_outcome(ev) is Ok ==> s.finish(ev, now).pair == refresh_outcome(ev)->Ok_0 && complete(
            s.finish(ev, now).pair,
        ),
        !s.finish(ev, now).refreshing,
{
}

/// The pair is renewed at half its lifetime, neither before nor later.
pub proof fn law_refresh_at_half_life(s: SessionView, now_ms: i64, now: Nanos)
    requires
        now >= s.issued_at,
        s.ttl_ms(now_ms, now) > 0,
    ensures
        s.due(now_ms, now) <==> now - s.issued_at >= (s.ttl_ms(now_ms, now) / 2) * NANOS_PER_MILLI,
{
}

/// How many ways to authenticate a configuration names.
pub open spec fn ways(cfg: ConfigView) -> int {
    (if given(cfg.api_key) {
        1int
    } else {
        0
    }) + (if cfg.client_auth is Some {
        1int
    } else {
        0
    }) + (if given(cfg.access_token) {
        1int
    } else {
        0
    })
}

/// A configuration is accepted if and only if it names exactly one way to authenticate and, where
/// that is a token pair, the pair is complete. Any other is a configuration error.
pub proof fn law_exactly_one_way_to_authenticate(cfg: ConfigView, now: Nanos)
    ensures
        resolved(cfg, now) is Ok <==> ways(cfg) == 1 && (cfg.client_auth is Some ==> complete(
            cfg.client_auth->0,
        )),
        resolved(cfg, now) is Err ==> resolved(cfg, now)->Err_0.is_invalid_config(),
{
}

/// A renewal that succeeds at `came` (while the wall clock shows `wall_ms`) replaces the pair
/// whole, and the lifetime of the new pair counts from `came`, whatever the session held before.
/// With the clocks in step it is due at half its lifetime and not before; one that came with
/// nothing left is due at once.
pub proof fn law_renewed_pair_lives_from_its_renewal(
    s: SessionView,
    status: u16,
    raw: Vec<u8>,
    p: ClientAuth,
    came: Nanos,
    wall_ms: i64,
)
    requires
        200 <= status < 300,
        p.access_token@.len() > 0,
        p.refresh_token@.len() > 0,
        p.expires_at != 0,
    ensures
        ({
            let t = s.finish(RefreshEvent::Response { status, raw, pair: Ok(p) }, came);
            &&& t.issued_at == came
            &&& t.pair.access_token == p.access_token@
            &&& t.pair.refresh_token == p.refresh_token@
            &&& t.pair.expires_at == p.expires_at
            &&& !t.refreshing
            &&& forall|now_ms: i64, now: Nanos|
                now >= came && now_ms == wall_ms + (now - came) / 1_000_000 && p.expires_at
                    > wall_ms ==> (#[trigger] t.due(now_ms, now) <==> now >= came + (p.expires_at
                    - wall_ms) / 2 * 1_000_000)
            &&& forall|now_ms: i64, now: Nanos|
                now >= came && now_ms == wall_ms + (now - came) / 1_000_000 && p.expires_at
                    <= wall_ms ==> #[trigger] t.due(now_ms, now)
        }),
{
}

/// The same of the pair that a client is made with: its lifetime counts from then.
pub proof fn law_first_pair_lives_from_the_start(
    cfg: ConfigView,
    came: Nanos,
    wall_ms: i64,
    now_ms: i64,
    now: Nanos,
)
    requires
        cfg.client_auth is Some,
        resolved(cfg, came) is Ok,
        now >= came,
        now_ms == wall_ms + (now - came) / 1_000_000,
    ensures
        resolved(cfg, came)->Ok_0 is Session,
        ({
            let a = resolved(cfg, came)->Ok_0;
            let p = cfg.client_auth->0;
            &&& a->Session_0.pair == p
            &&& a->Session_0.issued_at == came
            &&& !a->Session_0.refreshing
            &&& p.expires_at > wall_ms ==> (a.due(now_ms, now) <==> now >= came + (p.expires_at
                - wall_ms) / 2 * 1_000_000)
            &&& p.expires_at <= wall_ms ==> a.due(now_ms, now)
        }),
{
}

/// A renewal succeeds exactly where a 2xx reply holds a pair with all its parts. Everything else
/// leaves the pair and its age as they were, is told as a failed refresh with the status of the
/// refusal and the bytes of the reply, and ends the renewal all the same.
pub proof fn law_only_a_whole_pair_renews(s: SessionView, ev: RefreshEvent, now: Nanos)
    ensures
        refresh_outcome(ev) is Ok <==> (ev matches RefreshEvent::Response {
            status,
            raw,
            pair: Ok(p),
        } && 200 <= status <= 299 && p.access_token@.len() > 0 && p.refresh_token@.len() > 0
            && p.expires_at != 0),
        refresh_outcome(ev) matches Err(e) ==> {
            let t = s.finish(ev, now);
            &&& t.pair == s.pair
            &&& t.issued_at == s.issued_at
            &&& !t.refreshing
            &&& e matches ErrorView::Api(a) && a.code == "REFRESH_FAILED"@ && (match ev {
                RefreshEvent::NetworkError(_) => a.status == 0 && a.body.len() == 0,
                RefreshEvent::Response { status, raw, .. } => {
                    &&& a.body == raw@
                    &&& a.status == (if 200 <= status <= 299 {
                        0
                    } else {
                        status
                    })
                },
            })
        },
        refresh_outcome(ev) matches Ok(q) ==> (ev matches RefreshEvent::Response {
            pair: Ok(p),
            ..
        } && q.access_token == p.access_token@ && q.refresh_token == p.refresh_token@
            && q.expires_at == p.expires_at),
{
}

/// A renewal is asked for with the refresh token of the pair in use, and only by a session that
/// has none under way; beginning one changes nothing else. Whatever is not a renewable pair has
/// nothing to renew and is never due.
pub proof fn law_renewal_uses_the_refresh_token(
    s: SessionView,
    a: AuthView,
    waited: bool,
    now_ms: i64,
    now: Nanos,
)
    ensures
        s.begin(waited).0.pair == s.pair,
        s.begin(waited).0.issued_at == s.issued_at,
        s.begin(waited).1 is Renew <==> !s.refreshing && !waited,
        s.begin(waited).1 is Wait <==> s.refreshing,
        s.begin(waited).1 is Done <==> !s.refreshing && waited,
        s.begin(waited).1 matches RefreshStepView::Renew { refresh_token } ==> refresh_token
            == s.pair.refresh_token,
        s.begin(waited).0.refreshing == (s.refreshing || !waited),
        a is Session ==> a.begin(waited).1 == a->Session_0.begin(waited).1 && a.begin(waited).0
            == AuthView::Session(a->Session_0.begin(waited).0) && a.due(now_ms, now)
            == a->Session_0.due(now_ms, now),
        !(a is Session) ==> a.begin(waited) == (a, RefreshStepView::Unable) && !a.due(now_ms, now),
{
}

/// A request carries exactly one credential, and it is the configured one: the key under
/// `x-api-key`, or the token in use as a bearer. A credential that fits no header is an error, not
/// a request without it.
pub proof fn law_requests_carry_their_credential(a: AuthView)
    ensures
        ({
            let (name, value) = match a {
                AuthView::ApiKey(k) => ("x-api-key"@, k),
                AuthView::Static(t) => ("authorization"@, "Bearer "@ + t),
                AuthView::Session(s) => ("authorization"@, "Bearer "@ + s.pair.access_token),
            };
            &&& a.headers() is Ok <==> encoding::header_safe(value)
            &&& a.headers() matches Ok(h) ==> h.len() == 2 && h[0] == (
                "Accept"@,
                "application/json"@,
            ) && h[1] == (name, value)
            &&& a.headers() matches Err(e) ==> (e matches ErrorView::Api(x) && x.code == (
            if a is ApiKey {
                "INVALID_CONFIG"@
            } else {
                "INVALID_TOKEN"@
            }))
            &&& a.is_bearer() <==> !(a is ApiKey)
        }),
{
}

/// After a renewal requests go out with the new token, and only then.
pub proof fn law_requests_use_the_newest_token(
    s: SessionView,
    status: u16,
    raw: Vec<u8>,
    p: ClientAuth,
    e: String,
    now: Nanos,
)
    requires
        200 <= status < 300,
        p.access_token@.len() > 0,
        p.refresh_token@.len() > 0,
        p.expires_at != 0,
    ensures
        AuthView::Session(
            s.finish(RefreshEvent::Response { status, raw, pair: Ok(p) }, now),
        ).bearer() == p.access_token@,
        AuthView::Session(s.finish(RefreshEvent::NetworkError(e), now)).bearer()
            == s.pair.access_token,
{
}

/// What a configuration with exactly one credential comes to: that credential, as it was given.
pub proof fn law_the_given_credential_is_used(cfg: ConfigView, now: Nanos)
    requires
        resolved(cfg, now) is Ok,
    ensures
        ({
            let key = cfg.api_key matches Some(k) && k.len() > 0;
            let token = cfg.access_token matches Some(t) && t.len() > 0;
            let pair = cfg.client_auth is Some;
            &&& key ==> resolved(cfg, now)->Ok_0 == AuthView::ApiKey(cfg.api_key->0)
            &&& token ==> resolved(cfg, now)->Ok_0 == AuthView::Static(cfg.access_token->0)
            &&& pair ==> resolved(cfg, now)->Ok_0 is Session
            &&& (key && !token && !pair) || (!key && token && !pair) || (!key && !token && pair)
        }),
{
}

/// A configuration is refused if it names no credential, more than one, or a pair that lacks a
/// token or an end.
pub proof fn law_other_configurations_are_refused(cfg: ConfigView, now: Nanos)
    ensures
        ({
            let key = cfg.api_key matches Some(k) && k.len() > 0;
            let token = cfg.access_token matches Some(t) && t.len() > 0;
            let pair = cfg.client_auth is Some;
            &&& (key && token) || (key && pair) || (token && pair) ==> resolved(cfg, now) is Err
            &&& !key && !token && !pair ==> resolved(cfg, now) is Err
            &&& (cfg.client_auth matches Some(p) && (p.access_token.len() == 0
                || p.refresh_token.len() == 0 || p.expires_at == 0)) ==> resolved(cfg, now) is Err
            &&& (key && !token && !pair) || (!key && token && !pair) ==> resolved(cfg, now) is Ok
            &&& !key && !token && (cfg.client_auth matches Some(p) && p.access_token.len() > 0
                && p.refresh_token.len() > 0 && p.expires_at != 0) ==> resolved(cfg, now) is Ok
            &&& resolved(cfg, now) matches Err(e) ==> (e matches ErrorView::Api(a) && a.status == 0
                && a.code == "INVALID_CONFIG"@)
        }),
{
}

/// Pairs of strings show as pairs of texts: names as names, values as values, each in its place.
pub proof fn law_pairs_show_as_they_are(v: Seq<(String, String)>, i: int)
    requires
        0 <= i < v.len(),
    ensures
        pairs_view(v).len() == v.len(),
        pairs_view(v)[i].0 == v[i].0@,
        pairs_view(v)[i].1 == v[i].1@,
{
}

/// A clock that runs behind the arrival of a pair does not make it due, as long as the pair had
/// any time to live.
pub proof fn law_a_pair_is_not_due_before_it_came(s: SessionView, now_ms: i64, now: Nanos)
    requires
        now < s.issued_at,
        s.pair.expires_at > now_ms,
    ensures
        !s.due(now_ms, now),
{
    assert((s.ttl_ms(now_ms, now) / 2) * 1_000_000 >= 0);
}

/// What a failed renewal says: that the line failed, with which status it was refused, that the
/// reply was no JSON, or that it held no whole pair.
pub proof fn law_failed_renewals_say_why(ev: RefreshEvent)
    ensures
        refresh_outcome(ev) matches Err(ErrorView::Api(a)) ==> match ev {
            RefreshEvent::NetworkError(e) => a.message == "client token refresh network error: "@
                + e@,
            RefreshEvent::Response { status, pair, .. } => if !(200 <= status <= 299) {
                a.message == "client token refresh failed ("@ + text::decimal(status as nat) + ")"@
            } else {
                match pair {
                    Err(e) => a.message == "refresh returned invalid JSON: "@ + e@,
                    Ok(_) => a.message == "refresh returned invalid clientAuth pair"@,
                }
            },
        },
{
}

} // verus!
