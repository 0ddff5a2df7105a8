//! Settings of the HTTP client.

use crate::clock::Nanos;
use vstd::prelude::*;

verus! {

/// Default public API base URL.
pub const DEFAULT_BASE_URL: &'static str = "https://api.pickpoint.io";

/// Default max retries for 5xx and network errors.
pub const DEFAULT_MAX_RETRIES: u32 = 3;

/// Default exponential backoff base: 1 s.
pub const DEFAULT_RETRY_BASE: Nanos = 1_000_000_000;

/// Minimum retry base: 200 ms.
pub const MIN_RETRY_BASE: Nanos = 200_000_000;

/// Default per-attempt timeout: 30 s.
pub const DEFAULT_TIMEOUT: Nanos = 30_000_000_000;

/// Max parallel geocode batch requests.
pub const MAX_CONCURRENCY: usize = 20;

/// Default parallel geocode batch requests.
pub const DEFAULT_CONCURRENCY: usize = 20;

/// Pair from `POST /v2/client-tokens` (via your backend).
/// `expires_at` is unix epoch milliseconds.
#[derive(Debug, PartialEq, Eq)]
pub struct ClientAuth {
    pub access_token: String,
    pub refresh_token: String,
    pub expires_at: i64,
}

/// The value of a [`ClientAuth`].
pub struct ClientAuthView {
    pub access_token: Seq<char>,
    pub refresh_token: Seq<char>,
    pub expires_at: i64,
}

impl View for ClientAuth {
    type V = ClientAuthView;

    open spec fn view(&self) -> ClientAuthView {
        ClientAuthView {
            access_token: self.access_token@,
            refresh_token: self.refresh_token@,
            expires_at: self.expires_at,
        }
    }
}

impl Clone for ClientAuth {
    fn clone(&self) -> (r: Self)
        ensures
            r@ == self@,
    {
        ClientAuth {
            access_token: self.access_token.clone(),
            refresh_token: self.refresh_token.clone(),
            expires_at: self.expires_at,
        }
    }
}

/// Configures the public API client.
/// Provide exactly one of `api_key`, `client_auth`, or `access_token`.
#[derive(Debug)]
pub struct Config {
    /// Secret key (`x-api-key`). Prefer for server-side use.
    pub api_key: Option<String>,
    /// Short-lived pair, refreshed at about half its lifetime and on 401.
    pub client_auth: Option<ClientAuth>,
    /// Static bearer (not refreshable). Prefer [`ClientAuth`].
    pub access_token: Option<String>,
    /// Defaults to [`DEFAULT_BASE_URL`].
    pub base_url: Option<String>,
    /// Retries after 5xx and network errors. Default 3.
    pub max_retries: Option<u32>,
    /// Exponential backoff base. Default 1 s; at least [`MIN_RETRY_BASE`].
    pub retry_base: Option<Nanos>,
    /// Per-attempt timeout. Default 30 s.
    pub timeout: Option<Nanos>,
    /// Caps parallel geocode batch requests. Default and max: [`MAX_CONCURRENCY`].
    pub concurrency: Option<usize>,
}

/// The value of a [`Config`].
pub struct ConfigView {
    pub api_key: Option<Seq<char>>,
    pub client_auth: Option<ClientAuthView>,
    pub access_token: Option<Seq<char>>,
    pub base_url: Option<Seq<char>>,
    pub max_retries: Option<u32>,
    pub retry_base: Option<Nanos>,
    pub timeout: Option<Nanos>,
    pub concurrency: Option<usize>,
}

/// The characters of a text that may be absent.
pub open spec fn opt_text(s: Option<String>) -> Option<Seq<char>> {
    match s {
        Some(s) => Some(s@),
        None => None,
    }
}

impl View for Config {
    type V = ConfigView;

    open spec fn view(&self) -> ConfigView {
        ConfigView {
            api_key: opt_text(self.api_key),
            client_auth: match self.client_auth {
                Some(a) => Some(a@),
                None => None,
            },
            access_token: opt_text(self.access_token),
            base_url: opt_text(self.base_url),
            max_retries: self.max_retries,
            retry_base: self.retry_base,
            timeout: self.timeout,
            concurrency: self.concurrency,
        }
    }
}

impl ConfigView {
    /// Nothing set.
    pub open spec fn blank() -> ConfigView {
        ConfigView {
            api_key: None,
            client_auth: None,
            access_token: None,
            base_url: None,
            max_retries: None,
            retry_base: None,
            timeout: None,
            concurrency: None,
        }
    }
}

impl Default for Config {
    fn default() -> (r: Self)
        ensures
            r@ == ConfigView::blank(),
    {
        Config {
            api_key: None,
            client_auth: None,
            access_token: None,
            base_url: None,
            max_retries: None,
            retry_base: None,
            timeout: None,
            concurrency: None,
        }
    }
}

impl Config {
    pub fn with_api_key(api_key: &str) -> (r: Self)
        ensures
            r@ == (ConfigView { api_key: Some(api_key@), ..ConfigView::blank() }),
    {
        let mut c = Config::default();
        c.api_key = Some(api_key.to_owned());
        c
    }

    pub fn with_client_auth(auth: ClientAuth) -> (r: Self)
        ensures
            r@ == (ConfigView { client_auth: Some(auth@), ..ConfigView::blank() }),
    {
        let mut c = Config::default();
        c.client_auth = Some(auth);
        c
    }

    pub fn with_access_token(token: &str) -> (r: Self)
        ensures
            r@ == (ConfigView { access_token: Some(token@), ..ConfigView::blank() }),
    {
        let mut c = Config::default();
        c.access_token = Some(token.to_owned());
        c
    }

    pub fn base_url(self, url: &str) -> (r: Self)
        ensures
            r@ == (ConfigView { base_url: Some(url@), ..self@ }),
    {
        let mut c = self;
        c.base_url = Some(url.to_owned());
        c
    }

    pub fn max_retries(self, n: u32) -> (r: Self)
        ensures
            r@ == (ConfigView { max_retries: Some(n), ..self@ }),
    {
        let mut c = self;
        c.max_retries = Some(n);
        c
    }

    pub fn retry_base(self, d: Nanos) -> (r: Self)
        ensures
            r@ == (ConfigView { retry_base: Some(d), ..self@ }),
    {
        let mut c = self;
        c.retry_base = Some(d);
        c
    }

    pub fn timeout(self, d: Nanos) -> (r: Self)
        ensures
            r@ == (ConfigView { timeout: Some(d), ..self@ }),
    {
        let mut c = self;
        c.timeout = Some(d);
        c
    }

    pub fn concurrency(self, n: usize) -> (r: Self)
        ensures
            r@ == (ConfigView { concurrency: Some(n), ..self@ }),
    {
        let mut c = self;
        c.concurrency = Some(n);
        c
    }
}

} // verus!
