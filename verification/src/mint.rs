//! Minting of client tokens with a secret API key (server-side).

use crate::auth;
use crate::auth::{pairs_view, push_pair};
use crate::clock::Nanos;
use crate::config::{Config, ConfigView, DEFAULT_BASE_URL, DEFAULT_TIMEOUT};
use crate::error;
use crate::error::{Error, ErrorView};
use crate::text;
use crate::tracking::config;
use crate::transport;
use crate::transport::{trim_slash, Method, Prepared};
use vstd::prelude::*;
use vstd::string::*;

verus! {

/// Response of `POST /v2/client-tokens`.
#[derive(Debug, PartialEq, Eq)]
pub struct TokenPair {
    pub access_token: String,
    pub refresh_token: String,
    pub expires_at: i64,
    pub expires_in: i64,
    pub scopes: Vec<String>,
}

/// A request for client tokens. No scopes stand for all that the key can grant.
#[derive(Debug)]
pub struct MintRequest {
    pub request: Prepared,
    pub scopes: Vec<String>,
    /// Lifetime in seconds, where one is asked for.
    pub ttl_sec: Option<i64>,
}

/// The base address of a configuration.
pub open spec fn base_of(cfg: ConfigView) -> Seq<char> {
    transport::slashes_trimmed(
        match cfg.base_url {
            Some(u) => u,
            None => DEFAULT_BASE_URL@,
        },
    )
}

/// The base address of a configuration.
pub fn base_url(cfg: &Config) -> (r: String)
    ensures
        r@ == base_of(cfg@),
{
    match &cfg.base_url {
        Some(u) => trim_slash(u.as_str()),
        None => trim_slash(DEFAULT_BASE_URL),
    }
}

/// The per-attempt timeout of a configuration.
pub fn timeout_of(cfg: &Config) -> (r: Nanos)
    ensures
        r == (match cfg@.timeout {
            Some(t) => t,
            None => DEFAULT_TIMEOUT,
        }),
{
    match cfg.timeout {
        Some(t) => t,
        None => DEFAULT_TIMEOUT,
    }
}

fn clone_texts(v: &[String]) -> (r: Vec<String>)
    ensures
        config::texts(r@) == config::texts(v@),
{
    let mut out: Vec<String> = Vec::new();
    let mut i: usize = 0;
    assert(config::texts(out@) =~= config::texts(v@).take(0));
    while i < v.len()
        invariant
            i <= v@.len(),
            config::texts(out@) == config::texts(v@).take(i as int),
        decreases v@.len() - i,
    {
        let ghost before = config::texts(out@);
        out.push(v[i].clone());
        i += 1;
        assert(config::texts(out@) =~= before.push(v@[i - 1]@));
        assert(config::texts(out@) =~= config::texts(v@).take(i as int));
    }
    assert(config::texts(v@).take(i as int) =~= config::texts(v@));
    out
}

/// The request for a client-token pair; it needs an API key.
pub fn mint_request(cfg: &Config, scopes: &[String], ttl_sec: Option<i64>) -> (r: Result<
    MintRequest,
    Error,
>)
    ensures
        !auth::given(cfg@.api_key) ==> r is Err && r->Err_0@ == error::bad_config(
            "mint_client_tokens requires api_key"@,
        ),
        auth::given(cfg@.api_key) ==> {
            &&& r is Ok
            &&& r->Ok_0.request.method == Method::Post
            &&& r->Ok_0.request.url@ == base_of(cfg@) + "/v2/client-tokens"@
            &&& pairs_view(r->Ok_0.request.headers@) == seq![
                ("Accept"@, "application/json"@),
                ("Content-Type"@, "application/json"@),
                ("x-api-key"@, cfg@.api_key->0),
            ]
            &&& config::texts(r->Ok_0.scopes@) == config::texts(scopes@)
            &&& r->Ok_0.ttl_sec == (if ttl_sec is Some && ttl_sec->0 > 0 {
                ttl_sec
            } else {
                None
            })
        },
{
    if let Some(key) = &cfg.api_key {
        if key.as_str().unicode_len() > 0 {
            let mut url = base_url(cfg);
            url.append("/v2/client-tokens");
            let mut headers: Vec<(String, String)> = Vec::new();
            assert(pairs_view(headers@) =~= Seq::<(Seq<char>, Seq<char>)>::empty());
            push_pair(&mut headers, "Accept", "application/json");
            push_pair(&mut headers, "Content-Type", "application/json");
            push_pair(&mut headers, "x-api-key", key.as_str());
            let ttl: Option<i64> = match ttl_sec {
                Some(t) => if t > 0 {
                    Some(t)
                } else {
                    None
                },
                None => None,
            };
            return Ok(
                MintRequest {
                    request: Prepared { method: Method::Post, url, headers },
                    scopes: clone_texts(scopes),
                    ttl_sec: ttl,
                },
            );
        }
    }
    Err(Error::invalid_config("mint_client_tokens requires api_key"))
}

/// What came of a request for client tokens.
#[derive(Debug)]
pub enum MintEvent {
    NetworkError(String),
    /// A response, with the pair in it or why there is none.
    Response { status: u16, raw: Vec<u8>, pair: Result<TokenPair, String> },
}

/// What a request for client tokens came to.
pub open spec fn mint_outcome(ev: MintEvent) -> Result<TokenPair, ErrorView> {
    match ev {
        MintEvent::NetworkError(e) => Err(
            error::api(0, "NETWORK"@, "mint client tokens network error: "@ + e@, Seq::empty()),
        ),
        MintEvent::Response { status, raw, pair } => if status < 200 || status >= 300 {
            Err(
                error::api(
                    status,
                    "CLIENT_ERROR"@,
                    "mint client tokens failed ("@ + text::decimal(status as nat) + ")"@,
                    raw@,
                ),
            )
        } else {
            match pair {
                Ok(p) => Ok(p),
                Err(e) => Err(ErrorView::Json(e@)),
            }
        },
    }
}

/// Decides what a request for client tokens came to.
pub fn mint_client_tokens(ev: MintEvent) -> (r: Result<TokenPair, Error>)
    ensures
        match mint_outcome(ev) {
            Ok(p) => r == Ok::<TokenPair, Error>(p),
            Err(e) => r is Err && r->Err_0@ == e,
        },
        match ev {
            MintEvent::NetworkError(e) => r is Err && r->Err_0@ == error::api(
                0,
                "NETWORK"@,
                "mint client tokens network error: "@ + e@,
                Seq::empty(),
            ),
            MintEvent::Response { status, raw, pair } => if 200 <= status < 300 {
                match pair {
                    Ok(p) => r == Ok::<TokenPair, Error>(p),
                    Err(e) => r is Err && r->Err_0@ == ErrorView::Json(e@),
                }
            } else {
                r is Err && r->Err_0@ == error::api(
                    status,
                    "CLIENT_ERROR"@,
                    "mint client tokens failed ("@ + text::decimal(status as nat) + ")"@,
                    raw@,
                )
            },
        },
{
    match ev {
        MintEvent::NetworkError(e) => {
            let mut m = "mint client tokens network error: ".to_owned();
            m.append(e.as_str());
            let none: Vec<u8> = Vec::new();
            assert(none@ =~= Seq::<u8>::empty());
            Err(Error::api(0, "NETWORK", m.as_str(), none))
        },
        MintEvent::Response { status, raw, pair } => {
            if status < 200 || status >= 300 {
                let n = text::decimal_text(status as u64);
                let m = text::concat3("mint client tokens failed (", n.as_str(), ")");
                return Err(Error::api(status, "CLIENT_ERROR", m.as_str(), raw));
            }
            match pair {
                Ok(p) => Ok(p),
                Err(e) => Err(Error::Json(e)),
            }
        },
    }
}

/// Minting hands over the pair of every 2xx reply that holds one, as it came, and nothing else. A
/// refusal is told with its status and bytes, a failure of the line as such, and a reply that
/// cannot be read as bad JSON.
pub proof fn law_minting_hands_over_the_pair(ev: MintEvent)
    ensures
        mint_outcome(ev) is Ok <==> (ev matches MintEvent::Response { status, pair, .. } && 200
            <= status <= 299 && pair is Ok),
        mint_outcome(ev) matches Ok(p) ==> (ev matches MintEvent::Response { pair, .. } && pair
            == Ok::<TokenPair, String>(p)),
        mint_outcome(ev) matches Err(e) ==> match ev {
            MintEvent::NetworkError(_) => e matches ErrorView::Api(a) && a.status == 0 && a.code
                == "NETWORK"@,
            MintEvent::Response { status, raw, pair } => if 200 <= status <= 299 {
                e == ErrorView::Json(pair->Err_0@)
            } else {
                e matches ErrorView::Api(a) && a.status == status && a.code == "CLIENT_ERROR"@
                    && a.body == raw@
            },
        },
{
}

} // verus!
