use pickpoint::auth::{AuthKind, ClientAuthSession, RefreshEvent, RefreshStep};
use pickpoint::clock::NANOS_PER_MILLI;
use pickpoint::mint::{mint_client_tokens, mint_request, timeout_of, MintEvent, TokenPair};
use pickpoint::transport::{Method, Prepared, Reply, RequestOpts, RequestState, Step};
use pickpoint::{query, Client, ClientAuth, Config, DeviceListQuery, Error};

/// Wall-clock time at the start of a test.
const EPOCH_MS: i64 = 1_700_000_000_000;

/// Both clocks, driven by hand.
#[derive(Clone, Copy)]
struct Clock {
    ms: i64,
}

impl Clock {
    fn new() -> Self {
        Clock { ms: 0 }
    }

    fn wall_ms(&self) -> i64 {
        EPOCH_MS + self.ms
    }

    fn instant(&self) -> u128 {
        5_000_000_000 + self.ms as u128 * NANOS_PER_MILLI
    }
}

fn pair(access: &str, refresh: &str, expires_at: i64) -> ClientAuth {
    ClientAuth {
        access_token: access.into(),
        refresh_token: refresh.into(),
        expires_at,
    }
}

fn session(access: &str, refresh: &str, ttl_ms: i64, clock: Clock) -> Client {
    Client::new(
        Config::with_client_auth(pair(access, refresh, clock.wall_ms() + ttl_ms)),
        clock.instant(),
    )
    .unwrap()
}

fn response(status: u16, body: &str) -> Reply {
    Reply::Response {
        status,
        raw: body.as_bytes().to_vec(),
        error: None,
    }
}

fn renewed(p: ClientAuth) -> RefreshEvent {
    RefreshEvent::Response {
        status: 200,
        raw: Vec::new(),
        pair: Ok(p),
    }
}

fn bearer(p: &Prepared) -> String {
    p.headers
        .iter()
        .find(|(n, _)| n == "authorization")
        .map(|(_, v)| v.clone())
        .unwrap_or_default()
}

/// Renews the token once and says what came of it.
fn refresh(
    c: &mut Client,
    clock: Clock,
    server: &mut dyn FnMut(&str) -> RefreshEvent,
) -> Result<bool, Error> {
    match c.transport.auth.refresh_after_unauthorized(false) {
        RefreshStep::Renew { refresh_token } => {
            let ev = server(&refresh_token);
            c.transport.auth.finish_refresh(ev, clock.instant())?;
            Ok(true)
        }
        RefreshStep::Done => Ok(true),
        RefreshStep::Wait => panic!("nobody else renews"),
        RefreshStep::Unable => Ok(false),
    }
}

/// Runs a request to its end, renewing the token where that is due or asked for.
fn run(
    c: &mut Client,
    opts: &RequestOpts,
    clock: Clock,
    server: &mut dyn FnMut(&Prepared) -> Reply,
    tokens: &mut dyn FnMut(&str) -> RefreshEvent,
) -> Result<Vec<u8>, Error> {
    let mut state = RequestState::new();
    loop {
        if c.transport.auth.needs_refresh(clock.wall_ms(), clock.instant()) {
            refresh(c, clock, tokens)?;
        }
        let prepared = c.transport.prepare(opts)?;
        let mut reply = server(&prepared);
        loop {
            match state.do_request(&c.transport, opts, reply) {
                Step::Send | Step::Backoff { .. } => break,
                Step::Refresh => {
                    let ok = refresh(c, clock, tokens).unwrap_or(false);
                    reply = Reply::Refreshed(ok);
                }
                Step::Done(r) => return r,
            }
        }
    }
}

#[test]
fn client_auth_refresh_on_401() {
    let clock = Clock::new();
    let mut c = session("access-1", "refresh-1", 60_000, clock);
    let opts = c.forward(&query(&[("q", "a")]));
    let mut n = 0;
    let raw = run(
        &mut c,
        &opts,
        clock,
        &mut |p| {
            n += 1;
            if n == 1 {
                assert_eq!(bearer(p), "Bearer access-1");
                return response(401, "{}");
            }
            assert_eq!(bearer(p), "Bearer access-2");
            response(200, r#"[{"ok":true}]"#)
        },
        &mut |token| {
            assert_eq!(token, "refresh-1");
            renewed(pair("access-2", "refresh-2", clock.wall_ms() + 60_000))
        },
    )
    .unwrap();
    assert_eq!(
        pickpoint::geocoding::decode_json_array(&raw).unwrap().len(),
        1
    );
}

#[test]
fn single_flight_refresh() {
    let mut clock = Clock::new();
    let mut c = session("stale", "refresh-1", 80, clock);
    clock.ms = 50;
    assert!(c.transport.auth.needs_refresh(clock.wall_ms(), clock.instant()));
    let mut refreshes = 0;
    // Four requests find the token due; the first renews it, the others wait.
    match c.transport.auth.refresh_after_unauthorized(false) {
        RefreshStep::Renew { refresh_token } => {
            refreshes += 1;
            assert_eq!(refresh_token, "refresh-1");
        }
        other => panic!("{other:?}"),
    }
    for _ in 0..3 {
        assert!(matches!(
            c.transport.auth.refresh_after_unauthorized(false),
            RefreshStep::Wait
        ));
    }
    c.transport
        .auth
        .finish_refresh(
            renewed(pair("access-fresh", "refresh-2", clock.wall_ms() + 120_000)),
            clock.instant(),
        )
        .unwrap();
    for _ in 0..3 {
        assert!(matches!(
            c.transport.auth.refresh_after_unauthorized(true),
            RefreshStep::Done
        ));
    }
    assert!(!c.transport.auth.needs_refresh(clock.wall_ms(), clock.instant()));
    let opts = c.forward(&query(&[("q", "x")]));
    assert_eq!(
        bearer(&c.transport.prepare(&opts).unwrap()),
        "Bearer access-fresh"
    );
    assert_eq!(refreshes, 1);
}

#[test]
fn refresh_rotation_second_client_fails() {
    let mut clock = Clock::new();
    let mut valid = "refresh-1".to_string();
    let mut tokens = |token: &str, now: i64| {
        if token != valid {
            return RefreshEvent::Response {
                status: 401,
                raw: b"{}".to_vec(),
                pair: Err("missing field".into()),
            };
        }
        valid = "refresh-2".into();
        renewed(pair("a2", "refresh-2", now + 60_000))
    };
    let mut a = session("a1", "refresh-1", 50, clock);
    let mut b = session("a1", "refresh-1", 50, clock);
    clock.ms = 40;
    let opts = a.forward(&query(&[("q", "a")]));
    run(&mut a, &opts, clock, &mut |_| response(200, "[]"), &mut |t| {
        tokens(t, clock.wall_ms())
    })
    .unwrap();
    let err = run(&mut b, &opts, clock, &mut |_| response(200, "[]"), &mut |t| {
        tokens(t, clock.wall_ms())
    })
    .unwrap_err();
    assert!(err.is_auth(), "{err:?}");
    assert_eq!(
        err.describe(),
        "pickpoint: client token refresh failed (401) (status=401 code=REFRESH_FAILED)"
    );
}

#[test]
fn unauthorized_retry_exactly_once() {
    let clock = Clock::new();
    let mut c = session("a1", "r1", 60_000, clock);
    let opts = c.forward(&query(&[("q", "x")]));
    let mut hits = 0;
    let mut refreshes = 0;
    let err = run(
        &mut c,
        &opts,
        clock,
        &mut |_| {
            hits += 1;
            response(401, "{}")
        },
        &mut |_| {
            refreshes += 1;
            renewed(pair("a2", "r2", clock.wall_ms() + 60_000))
        },
    )
    .unwrap_err();
    assert!(err.is_auth());
    assert_eq!(hits, 2);
    assert_eq!(refreshes, 1);
}

#[test]
fn proactive_refresh_halfway_ttl() {
    let mut clock = Clock::new();
    let ttl = 200;
    let mut c = session("a1", "r1", ttl, clock);
    let mut refreshed = false;
    let early = c.forward(&query(&[("q", "early")]));
    run(&mut c, &early, clock, &mut |_| response(200, "[]"), &mut |_| {
        refreshed = true;
        renewed(pair("a2", "r2", clock.wall_ms() + 60_000))
    })
    .unwrap();
    assert!(!refreshed);
    clock.ms = ttl / 2 - 1;
    assert!(!c.transport.auth.needs_refresh(clock.wall_ms(), clock.instant()));
    clock.ms = ttl * 55 / 100 + 10;
    let late = c.forward(&query(&[("q", "late")]));
    run(&mut c, &late, clock, &mut |_| response(200, "[]"), &mut |_| {
        refreshed = true;
        renewed(pair("a2", "r2", clock.wall_ms() + 60_000))
    })
    .unwrap();
    assert!(refreshed);
}

#[test]
fn mixed_fan_out_shares_401_refresh() {
    let clock = Clock::new();
    let mut c = session("a1", "r1", 60_000, clock);
    let requests = [
        c.forward(&query(&[("q", "a")])),
        c.search(&query(&[("q", "b")])),
        c.devices().list(DeviceListQuery::default()),
    ];
    let mut states = [RequestState::new(), RequestState::new(), RequestState::new()];
    let mut refreshes = 0;
    // All three were sent with the old token.
    for (state, opts) in states.iter_mut().zip(&requests) {
        assert!(matches!(
            state.do_request(&c.transport, opts, response(401, "{}")),
            Step::Refresh
        ));
        match c.transport.auth.refresh_after_unauthorized(false) {
            RefreshStep::Renew { .. } => refreshes += 1,
            RefreshStep::Wait => {}
            other => panic!("{other:?}"),
        }
    }
    c.transport
        .auth
        .finish_refresh(
            renewed(pair("a2", "r2", clock.wall_ms() + 60_000)),
            clock.instant(),
        )
        .unwrap();
    for (state, opts) in states.iter_mut().zip(&requests) {
        assert!(matches!(
            state.do_request(&c.transport, opts, Reply::Refreshed(true)),
            Step::Send
        ));
        assert_eq!(bearer(&c.transport.prepare(opts).unwrap()), "Bearer a2");
        match state.do_request(&c.transport, opts, response(200, "{}")) {
            Step::Done(Ok(raw)) => assert_eq!(raw, b"{}"),
            other => panic!("{other:?}"),
        }
    }
    assert_eq!(refreshes, 1);
}

#[test]
fn mint_tokens_ok() {
    let cfg = Config::with_api_key("secret").base_url("http://s/");
    let m = mint_request(&cfg, &["geocoding".into()], Some(600)).unwrap();
    assert_eq!(m.request.method, Method::Post);
    assert_eq!(m.request.url, "http://s/v2/client-tokens");
    assert_eq!(
        m.request.headers,
        vec![
            ("Accept".to_string(), "application/json".to_string()),
            ("Content-Type".to_string(), "application/json".to_string()),
            ("x-api-key".to_string(), "secret".to_string()),
        ]
    );
    assert_eq!(m.scopes, vec!["geocoding"]);
    assert_eq!(m.ttl_sec, Some(600));
    let minted = mint_client_tokens(MintEvent::Response {
        status: 200,
        raw: Vec::new(),
        pair: Ok(TokenPair {
            access_token: "a".into(),
            refresh_token: "r".into(),
            expires_at: 123,
            expires_in: 600,
            scopes: vec!["geocoding".into()],
        }),
    })
    .unwrap();
    assert_eq!(minted.access_token, "a");
    assert_eq!(minted.expires_at, 123);
}

#[test]
fn mint_tokens_empty_scopes() {
    let m = mint_request(&Config::with_api_key("secret"), &[], None).unwrap();
    assert_eq!(m.request.headers[2].1, "secret");
    assert_eq!(m.scopes.len(), 0);
    assert_eq!(m.ttl_sec, None);
}

#[test]
fn mint_tokens_with_scopes() {
    let m = mint_request(
        &Config::with_api_key("k"),
        &["geocoding".into(), "devices".into()],
        Some(600),
    )
    .unwrap();
    assert!(m.scopes.contains(&"devices".to_string()));
    assert_eq!(
        mint_request(&Config::with_api_key("k"), &[], Some(0))
            .unwrap()
            .ttl_sec,
        None
    );
}

#[test]
fn mint_requires_api_key() {
    let err = mint_request(&Config::default(), &[], None).unwrap_err();
    assert!(err.is_invalid_config());
    let empty = Config {
        api_key: Some(String::new()),
        ..Default::default()
    };
    assert!(mint_request(&empty, &[], None).is_err());
    assert_eq!(timeout_of(&Config::default()), 30_000_000_000);
    assert_eq!(timeout_of(&Config::default().timeout(7)), 7);
}

#[test]
fn mint_failures() {
    match mint_client_tokens(MintEvent::NetworkError("down".into())) {
        Err(Error::Api(api)) => {
            assert_eq!((api.status, api.code.as_str()), (0, "NETWORK"));
            assert_eq!(api.message, "mint client tokens network error: down");
        }
        other => panic!("{other:?}"),
    }
    match mint_client_tokens(MintEvent::Response {
        status: 403,
        raw: b"no".to_vec(),
        pair: Err("eof".into()),
    }) {
        Err(Error::Api(api)) => {
            assert_eq!((api.status, api.code.as_str()), (403, "CLIENT_ERROR"));
            assert_eq!(api.message, "mint client tokens failed (403)");
            assert_eq!(api.body, b"no");
        }
        other => panic!("{other:?}"),
    }
    match mint_client_tokens(MintEvent::Response {
        status: 201,
        raw: b"{".to_vec(),
        pair: Err("eof".into()),
    }) {
        Err(Error::Json(e)) => assert_eq!(e, "eof"),
        other => panic!("{other:?}"),
    }
}

#[test]
fn refresh_failures_are_auth_failures() {
    let now = 1_000_000_000u128;
    let failures = [
        (
            RefreshEvent::NetworkError("down".into()),
            "client token refresh network error: down",
        ),
        (
            RefreshEvent::Response {
                status: 500,
                raw: b"x".to_vec(),
                pair: Ok(pair("a", "r", 1)),
            },
            "client token refresh failed (500)",
        ),
        (
            RefreshEvent::Response {
                status: 200,
                raw: b"{".to_vec(),
                pair: Err("eof".into()),
            },
            "refresh returned invalid JSON: eof",
        ),
        (
            RefreshEvent::Response {
                status: 200,
                raw: Vec::new(),
                pair: Ok(pair("a", "", 1)),
            },
            "refresh returned invalid clientAuth pair",
        ),
    ];
    for (ev, message) in failures {
        let mut s = ClientAuthSession::new(pair("a1", "r1", 99), now).unwrap();
        assert!(matches!(s.begin_refresh(false), RefreshStep::Renew { .. }));
        let err = s.finish_refresh(ev, now + 5).unwrap_err();
        assert!(err.is_auth());
        match err {
            Error::Api(api) => assert_eq!(api.message, message),
            other => panic!("{other:?}"),
        }
        // The old pair stays, and another renewal may begin.
        assert_eq!(s.token(), "a1");
        match s.begin_refresh(false) {
            RefreshStep::Renew { refresh_token } => assert_eq!(refresh_token, "r1"),
            other => panic!("{other:?}"),
        }
    }
}

#[test]
fn incomplete_pairs_are_refused() {
    for p in [pair("", "r", 1), pair("a", "", 1), pair("a", "r", 0)] {
        let err = Client::new(Config::with_client_auth(p), 0).unwrap_err();
        assert!(err.is_invalid_config());
        assert_eq!(
            err.describe(),
            "pickpoint: client_auth requires access_token, refresh_token, and expires_at (unix ms) (status=0 code=INVALID_CONFIG)"
        );
    }
    let both = Config {
        api_key: Some("k".into()),
        client_auth: Some(pair("a", "r", 1)),
        ..Default::default()
    };
    let err = Client::new(both, 0).unwrap_err();
    assert!(err.is_invalid_config());
}

#[test]
fn only_sessions_are_renewed() {
    let mut key = Client::new(Config::with_api_key("k"), 0).unwrap();
    assert!(!key.transport.auth.is_bearer());
    assert!(!key.transport.auth.needs_refresh(i64::MAX, u128::MAX));
    assert!(matches!(
        key.transport.auth.refresh_after_unauthorized(false),
        RefreshStep::Unable
    ));
    let mut fixed = Client::new(Config::with_access_token("t"), 0).unwrap();
    assert!(fixed.transport.auth.is_bearer());
    assert!(matches!(fixed.transport.auth, AuthKind::Static(_)));
    assert!(matches!(
        fixed.transport.auth.refresh_after_unauthorized(false),
        RefreshStep::Unable
    ));
    let opts = fixed.search(&query(&[]));
    let mut hits = 0;
    let err = run(
        &mut fixed,
        &opts,
        Clock::new(),
        &mut |_| {
            hits += 1;
            response(401, "first")
        },
        &mut |_| panic!("a fixed token is not renewed"),
    )
    .unwrap_err();
    assert_eq!(hits, 1);
    match err {
        Error::Api(api) => {
            assert_eq!(api.message, "auth failed (401)");
            assert_eq!(api.body, b"first");
        }
        other => panic!("{other:?}"),
    }
}

#[test]
fn a_pair_that_came_expired_is_due_near_its_end() {
    let now = 10_000_000_000u128;
    let s = ClientAuthSession::new(pair("a", "r", EPOCH_MS), now).unwrap();
    assert!(s.needs_proactive_refresh(EPOCH_MS, now));
    assert!(s.needs_proactive_refresh(EPOCH_MS + 1, now));
    // A clock that runs backwards counts as no time passed.
    assert!(!s.needs_proactive_refresh(EPOCH_MS - 40_000, 0));
}

#[test]
fn the_request_that_renews() {
    let c = Client::new(
        Config::with_client_auth(pair("a", "r", 1)).base_url("http://s/"),
        0,
    )
    .unwrap();
    let p = c.transport.refresh_request();
    assert_eq!(p.method, Method::Post);
    assert_eq!(p.url, "http://s/v2/client-tokens/refresh");
    assert_eq!(p.headers.len(), 2);
    assert_eq!(p.headers[1].0, "Content-Type");
}
