use pickpoint::transport::{
    backoff_ceiling, backoff_wait_ms, http_status_text, message_from_body, trim_slash, ErrorBody,
    Method, OnClientError, Prepared, Reply, RequestBody, RequestOpts, RequestState, Step,
};
use pickpoint::{
    address, geocoding, query, routing, AuthError, Client, Config, ConflictError, DeviceInput,
    DeviceListQuery, Error, InvalidConfigError, NotFoundError, DEFAULT_BASE_URL, DEFAULT_MAX_RETRIES, DEFAULT_RETRY_BASE, DEFAULT_TIMEOUT, MAX_CONCURRENCY,
    MIN_RETRY_BASE,
};

const NOW: u128 = 1_000_000_000;

fn client(cfg: Config) -> Client {
    Client::new(cfg, NOW).unwrap()
}

fn response(status: u16, body: &str) -> Reply {
    let error = match serde_json::from_str::<serde_json::Value>(body) {
        Ok(serde_json::Value::Object(m)) => Some(ErrorBody {
            message: m.get("message").and_then(|v| v.as_str()).map(str::to_string),
            error: m.get("error").and_then(|v| v.as_str()).map(str::to_string),
        }),
        _ => None,
    };
    Reply::Response {
        status,
        raw: body.as_bytes().to_vec(),
        error,
    }
}

/// Runs a request against a server; gives the outcome and the waits between attempts.
fn run_with_waits(
    c: &Client,
    opts: &RequestOpts,
    server: &mut dyn FnMut(&Prepared) -> Reply,
) -> (Result<Vec<u8>, Error>, Vec<u64>) {
    let mut state = RequestState::new();
    let mut waits = Vec::new();
    loop {
        let prepared = match c.transport.prepare(opts) {
            Ok(p) => p,
            Err(e) => return (Err(e), waits),
        };
        match state.do_request(&c.transport, opts, server(&prepared)) {
            Step::Send => {}
            Step::Refresh => panic!("nothing to renew"),
            Step::Backoff { max_ms } => {
                assert!(backoff_wait_ms(max_ms) <= max_ms);
                waits.push(max_ms);
            }
            Step::Done(r) => return (r, waits),
        }
    }
}

fn run(
    c: &Client,
    opts: &RequestOpts,
    server: &mut dyn FnMut(&Prepared) -> Reply,
) -> Result<Vec<u8>, Error> {
    run_with_waits(c, opts, server).0
}

fn header<'a>(p: &'a Prepared, name: &str) -> Option<&'a str> {
    p.headers
        .iter()
        .find(|(n, _)| n.eq_ignore_ascii_case(name))
        .map(|(_, v)| v.as_str())
}

#[test]
fn invalid_config() {
    assert!(Client::new(Config::default(), NOW).is_err());
    assert!(Client::new(
        Config {
            api_key: Some("a".into()),
            access_token: Some("b".into()),
            ..Default::default()
        },
        NOW
    )
    .is_err());
    let err = Client::new(Config::default(), NOW).unwrap_err();
    assert!(err.is_invalid_config());
    assert_eq!(
        err.describe(),
        "pickpoint: auth required: api_key, client_auth, or access_token (status=0 code=INVALID_CONFIG)"
    );
}

#[test]
fn forward_and_search_share_api_key() {
    let c = client(Config::with_api_key("secret").base_url("http://server/"));

    let places = run(&c, &c.forward(&query(&[("q", "Berlin")])), &mut |p| {
        assert_eq!(p.method, Method::Get);
        assert_eq!(p.url, "http://server/v2/geocode/forward?q=Berlin");
        assert_eq!(header(p, "x-api-key"), Some("secret"));
        assert_eq!(header(p, "accept"), Some("application/json"));
        assert_eq!(header(p, "content-type"), None);
        response(200, r#"[{"display_name":"Berlin"}]"#)
    })
    .unwrap();
    let places = geocoding::decode_json_array(&places).unwrap();
    assert_eq!(places.len(), 1);
    assert_eq!(places[0]["display_name"], "Berlin");

    let found = run(&c, &c.search(&query(&[("q", "Berlin")])), &mut |p| {
        assert_eq!(p.url, "http://server/v2/address/search?q=Berlin");
        assert_eq!(header(p, "x-api-key"), Some("secret"));
        response(200, r#"{"type":"FeatureCollection","features":[]}"#)
    })
    .unwrap();
    assert_eq!(
        address::decode_document(&found).unwrap()["type"],
        "FeatureCollection"
    );

    let list = run(&c, &c.devices().list(DeviceListQuery::default()), &mut |p| {
        assert_eq!(p.url, "http://server/v2/devices");
        assert_eq!(header(p, "x-api-key"), Some("secret"));
        response(
            200,
            r#"{"data":[{"uid":"d1","name":"A","type":"car"}],"total":1}"#,
        )
    })
    .unwrap();
    assert_eq!(address::decode_document(&list).unwrap()["total"], 1);
}

#[test]
fn geocode_empty_on_4xx() {
    let c = client(Config::with_api_key("k"));
    let places = run(&c, &c.forward(&query(&[("q", "nowhere")])), &mut |_| {
        response(404, "not found")
    })
    .unwrap();
    assert!(geocoding::decode_json_array(&places).unwrap().is_empty());
    let rev = run(
        &c,
        &c.reverse(&query(&[("lat", "0"), ("lon", "0")])),
        &mut |_| response(400, "bad"),
    )
    .unwrap();
    assert!(geocoding::decode_optional(&rev).unwrap().is_none());
}

#[test]
fn geocode_conflict() {
    let c = client(Config::with_api_key("k"));
    let q = query(&[("q", "x")]);
    assert_eq!(
        run(&c, &c.forward(&q), &mut |_| response(409, "{}")).unwrap(),
        b"[]"
    );
    assert_eq!(
        run(&c, &c.reverse(&q), &mut |_| response(409, "{}")).unwrap(),
        b"null"
    );
    assert_eq!(
        run(&c, &c.lookup(&q), &mut |_| response(422, "{}")).unwrap(),
        b"[]"
    );
    assert!(run(&c, &c.lookup(&q), &mut |_| response(409, "{}"))
        .unwrap_err()
        .is_conflict());
}

#[test]
fn devices_404() {
    let c = client(Config::with_api_key("k"));
    let err = run(&c, &c.devices().get("missing"), &mut |p| {
        assert!(p.url.ends_with("/v2/devices/missing"));
        response(404, r#"{"message":"Device not found"}"#)
    })
    .unwrap_err();
    assert!(err.is_not_found());
    assert!(!err.is_auth() && !err.is_conflict());
    assert_eq!(
        err.describe(),
        "pickpoint: Device not found (status=404 code=NOT_FOUND)"
    );
}

#[test]
fn devices_conflict_409() {
    let c = client(Config::with_api_key("k"));
    let err = run(&c, &c.devices().command("u1", b"x"), &mut |p| {
        assert!(p.url.ends_with("/v2/devices/u1/command"));
        response(409, r#"{"message":"device offline"}"#)
    })
    .unwrap_err();
    assert!(err.is_conflict());
}

#[test]
fn command_base64() {
    let c = client(Config::with_api_key("k"));
    let opts = c.devices().command("uid-1", b"hi");
    assert_eq!(opts.method, Method::Post);
    assert_eq!(opts.path, "/v2/devices/uid-1/command");
    match &opts.body {
        Some(RequestBody::Command { payload }) => assert_eq!(payload, "aGk="),
        other => panic!("{other:?}"),
    }
    let raw = run(&c, &opts, &mut |p| {
        assert_eq!(header(p, "content-type"), Some("application/json"));
        response(200, r#"{"delivered":1}"#)
    })
    .unwrap();
    assert_eq!(address::decode_document(&raw).unwrap()["delivered"], 1);
}

#[test]
fn base64_of_every_length() {
    let c = client(Config::with_api_key("k"));
    let text = |b: &[u8]| match c.device_command("u", b).body {
        Some(RequestBody::Command { payload }) => payload,
        other => panic!("{other:?}"),
    };
    assert_eq!(text(b""), "");
    assert_eq!(text(b"f"), "Zg==");
    assert_eq!(text(b"foo"), "Zm9v");
    assert_eq!(text(b"foobar"), "Zm9vYmFy");
    assert_eq!(text(&[0xFB, 0xFF, 0xBF]), "+/+/");
}

#[test]
fn address_search_400_throws() {
    let c = client(Config::with_api_key("k"));
    match run(&c, &c.search(&query(&[("q", "x")])), &mut |_| {
        response(400, r#"{"message":"bad","errorCode":400}"#)
    }) {
        Err(Error::Api(api)) => {
            assert_eq!(api.status, 400);
            assert_eq!(api.code, "CLIENT_ERROR");
            assert_eq!(api.message, "bad");
        }
        other => panic!("{other:?}"),
    }
}

#[test]
fn routing_400_throws() {
    let c = client(Config::with_api_key("k"));
    let body = serde_json::Value::Object(Default::default());
    let opts = c.route(body);
    assert_eq!(opts.path, "/v2/route");
    match run(&c, &opts, &mut |_| {
        response(400, r#"{"message":"bad","errorCode":400}"#)
    }) {
        Err(Error::Api(api)) => assert_eq!(api.status, 400),
        other => panic!("{other:?}"),
    }
}

#[test]
fn routing_paths_and_replies() {
    let c = client(Config::with_api_key("k"));
    let null = || serde_json::Value::Null;
    assert_eq!(c.optimized_route(null()).path, "/v2/route/optimized");
    assert_eq!(c.matrix(null()).path, "/v2/route/matrix");
    assert_eq!(c.locate(null()).path, "/v2/route/locate");
    let opts = c.elevation(null());
    assert_eq!(opts.path, "/v2/route/elevation");
    assert_eq!(opts.method, Method::Post);
    assert!(matches!(opts.body, Some(RequestBody::Json(_))));
    assert!(routing::decode_reply(b"").unwrap().is_null());
    assert_eq!(routing::decode_reply(b"[7]").unwrap()[0], 7);
    assert!(matches!(routing::decode_reply(b"{"), Err(Error::Json(_))));
}

#[test]
fn device_requests() {
    let c = client(Config::with_api_key("k").base_url("http://s"));
    let input = || DeviceInput {
        name: "A".into(),
        kind: "car".into(),
        description: None,
        metadata: Some("m".into()),
    };
    let opts = c.create_device(input());
    assert_eq!((opts.method, opts.path.as_str()), (Method::Post, "/v2/devices"));
    match opts.body {
        Some(RequestBody::Device(d)) => assert_eq!(d, input()),
        other => panic!("{other:?}"),
    }
    let opts = c.update_device("a b/c", input());
    assert_eq!(opts.method, Method::Patch);
    assert_eq!(opts.path, "/v2/devices/a%20b%2Fc");
    assert_eq!(c.get_device("é~-._").path, "/v2/devices/%C3%A9~-._");
    let opts = c.delete_device("u");
    assert_eq!((opts.method, opts.path.as_str()), (Method::Delete, "/v2/devices/u"));
    assert!(run(&c, &opts, &mut |_| response(204, "ignored"))
        .unwrap()
        .is_empty());

    let opts = c.list_devices(DeviceListQuery {
        skip: Some(10),
        take: Some(25),
        search: Some("a b".into()),
        idle: true,
    });
    assert_eq!(
        c.transport.prepare(&opts).unwrap().url,
        "http://s/v2/devices?skip=10&take=25&search=a+b&idle=1"
    );
    let opts = c.list_devices(DeviceListQuery {
        skip: Some(0),
        take: Some(-1),
        search: Some(String::new()),
        idle: false,
    });
    assert_eq!(c.transport.prepare(&opts).unwrap().url, "http://s/v2/devices");
}

#[test]
fn query_last_value_wins_and_empty_values_are_left_out() {
    let c = client(Config::with_api_key("k").base_url("http://s"));
    let q = query(&[("q", "x"), ("limit", ""), ("q", "a&b=ü"), ("z", "1*")]);
    assert_eq!(
        c.transport.prepare(&c.forward(&q)).unwrap().url,
        "http://s/v2/geocode/forward?q=a%26b%3D%C3%BC&z=1*"
    );
    let none = query(&[("q", "")]);
    assert_eq!(
        c.transport.prepare(&c.search(&none)).unwrap().url,
        "http://s/v2/address/search"
    );
}

#[test]
fn client_settings() {
    let c = client(Config::with_api_key("k"));
    assert_eq!(c.concurrency(), 20);
    assert_eq!(c.retry_base(), DEFAULT_RETRY_BASE);
    assert_eq!(c.timeout(), DEFAULT_TIMEOUT);
    assert_eq!(c.transport.base_url, DEFAULT_BASE_URL);
    assert_eq!(c.transport.max_retries, DEFAULT_MAX_RETRIES);
    let c = client(
        Config::with_access_token("t")
            .base_url("https://x///")
            .concurrency(100)
            .retry_base(1)
            .timeout(5)
            .max_retries(0),
    );
    assert_eq!(c.concurrency(), MAX_CONCURRENCY);
    assert_eq!(c.retry_base(), MIN_RETRY_BASE);
    assert_eq!(c.timeout(), 5);
    assert_eq!(c.transport.base_url, "https://x");
    assert_eq!(c.transport.max_retries, 0);
    assert_eq!(client(Config::with_api_key("k").concurrency(0)).concurrency(), 20);
    assert_eq!(client(Config::with_api_key("k").concurrency(7)).concurrency(), 7);
    assert_eq!(trim_slash("/a//"), "/a");
    assert_eq!(trim_slash("///"), "");
}

#[test]
fn retries_stop_at_their_limit() {
    let c = client(Config::with_api_key("k").max_retries(2));
    let opts = c.search(&query(&[("q", "x")]));
    let mut hits = 0;
    let (r, waits) = run_with_waits(&c, &opts, &mut |_| {
        hits += 1;
        response(503, "down")
    });
    assert_eq!(hits, 3);
    assert_eq!(waits, vec![1000, 2000]);
    match r {
        Err(Error::Api(api)) => {
            assert_eq!((api.status, api.code.as_str()), (503, "SERVER_ERROR"));
            assert_eq!(api.message, "server error after retries");
            assert_eq!(api.body, b"down");
        }
        other => panic!("{other:?}"),
    }

    let mut hits = 0;
    let r = run(&c, &opts, &mut |_| {
        hits += 1;
        Reply::NetworkError("reset".into())
    });
    assert_eq!(hits, 3);
    match r {
        Err(Error::Api(api)) => {
            assert_eq!((api.status, api.code.as_str()), (0, "NETWORK"));
            assert_eq!(api.message, "network error: reset");
            assert!(api.body.is_empty());
        }
        other => panic!("{other:?}"),
    }
}

#[test]
fn backoff_ceilings() {
    assert_eq!(backoff_ceiling(MIN_RETRY_BASE, 0), 200);
    assert_eq!(backoff_ceiling(MIN_RETRY_BASE, 3), 1600);
    assert_eq!(backoff_ceiling(1, 0), 200);
    assert_eq!(backoff_ceiling(0, 0), 1000);
    assert_eq!(backoff_ceiling(DEFAULT_RETRY_BASE, 16), 65_536_000);
    assert_eq!(backoff_ceiling(DEFAULT_RETRY_BASE, 90), 65_536_000);
    assert_eq!(backoff_ceiling(u128::MAX, 1), 60_000);
    assert_eq!(backoff_wait_ms(0), 0);
}

#[test]
fn waits_are_drawn_at_random() {
    let draws: Vec<u64> = (0..64).map(|_| backoff_wait_ms(1_000_000)).collect();
    assert!(draws.iter().all(|d| *d <= 1_000_000));
    assert!(draws.iter().any(|d| *d != draws[0]));
}

#[test]
fn other_statuses_are_errors() {
    let c = client(Config::with_api_key("k"));
    let opts = c.forward(&query(&[("q", "x")]));
    for status in [302, 700] {
        match run(&c, &opts, &mut |_| response(status, "")) {
            Err(Error::Api(api)) => {
                assert_eq!((api.status, api.code.as_str()), (status, "CLIENT_ERROR"))
            }
            other => panic!("{other:?}"),
        }
    }
    for status in [402, 403] {
        let err = run(&c, &opts, &mut |_| response(status, "raw")).unwrap_err();
        assert!(err.is_auth());
        assert_eq!(
            err.describe(),
            format!("pickpoint: auth failed (status={status} code=API_AUTH)")
        );
    }
    let err = run(&c, &opts, &mut |_| response(401, "raw")).unwrap_err();
    assert!(err.is_auth());
    assert_eq!(
        err.describe(),
        "pickpoint: auth failed (401) (status=401 code=API_AUTH)"
    );
}

#[test]
fn messages_of_error_replies() {
    let body = |m: Option<&str>, e: Option<&str>| {
        Some(ErrorBody {
            message: m.map(str::to_string),
            error: e.map(str::to_string),
        })
    };
    assert_eq!(message_from_body(body(Some("m"), Some("e")), 400), "m");
    assert_eq!(message_from_body(body(Some(""), Some("e")), 400), "e");
    assert_eq!(message_from_body(body(None, Some("")), 404), "Not Found");
    assert_eq!(message_from_body(None, 418), "I'm a teapot");
    assert_eq!(http_status_text(400), "Bad Request");
    assert_eq!(http_status_text(299), "unknown");
    assert_eq!(http_status_text(7), "unknown");
}

#[test]
fn keys_and_tokens_must_fit_a_header() {
    let c = client(Config::with_api_key("a\nb"));
    let opts = c.search(&query(&[]));
    let err = c.transport.prepare(&opts).unwrap_err();
    assert!(err.is_invalid_config());
    let c = client(Config::with_access_token("a\nb"));
    match c.transport.prepare(&opts) {
        Err(Error::Api(api)) => {
            assert_eq!((api.status, api.code.as_str()), (0, "INVALID_TOKEN"));
            assert_eq!(api.message, "access token is not a valid header");
        }
        other => panic!("{other:?}"),
    }
    let c = client(Config::with_access_token("tok\té"));
    let p = c.transport.prepare(&opts).unwrap();
    assert_eq!(header(&p, "authorization"), Some("Bearer tok\té"));
}

#[test]
fn decoding_of_replies() {
    assert!(geocoding::decode_json_array(b"").unwrap().is_empty());
    assert!(geocoding::decode_json_array(b"[]").unwrap().is_empty());
    assert!(geocoding::decode_json_array(b" null ").unwrap().is_empty());
    let one = geocoding::decode_json_array(br#"{"a":1}"#).unwrap();
    assert_eq!(one.len(), 1);
    assert_eq!(one[0]["a"], 1);
    let two = geocoding::decode_json_array(b"[1,2]").unwrap();
    assert_eq!(two.len(), 2);
    match geocoding::decode_json_array(b"[1,") {
        Err(Error::Json(e)) => {
            let err = Error::Json(e.clone());
            assert_eq!(err.describe(), format!("pickpoint: invalid JSON: {e}"));
        }
        other => panic!("{other:?}"),
    }
    assert!(geocoding::decode_optional(b"").unwrap().is_none());
    assert!(geocoding::decode_optional(b"null").unwrap().is_none());
    assert!(geocoding::decode_optional(b" null").unwrap().unwrap().is_null());
    assert_eq!(geocoding::decode_optional(b"3").unwrap().unwrap(), 3);
    assert!(matches!(geocoding::decode_optional(b"x"), Err(Error::Json(_))));
    assert!(matches!(address::decode_document(b""), Err(Error::Json(_))));
}

#[test]
fn error_descriptions() {
    assert_eq!(Error::Auth(AuthError).describe(), "pickpoint: auth failed");
    assert_eq!(Error::NotFound(NotFoundError).describe(), "pickpoint: not found");
    assert_eq!(Error::Conflict(ConflictError).describe(), "pickpoint: conflict");
    assert_eq!(
        Error::InvalidConfig(InvalidConfigError).describe(),
        "pickpoint: invalid config"
    );
    assert_eq!(Error::BatchCancelled.describe(), "pickpoint: batch cancelled");
    assert_eq!(Error::Http("boom".into()).describe(), "boom");
    assert_eq!(
        Error::api(7, "X", "", Vec::new()).describe(),
        "pickpoint: request failed (status=7 code=X)"
    );
    assert!(Error::Auth(AuthError).is_auth());
    assert!(Error::NotFound(NotFoundError).is_not_found());
    assert!(Error::Conflict(ConflictError).is_conflict());
    assert!(Error::InvalidConfig(InvalidConfigError).is_invalid_config());
    assert!(!Error::BatchCancelled.is_auth());
}

#[test]
fn lookups_choose_what_is_empty() {
    let c = client(Config::with_api_key("k"));
    let q = query(&[("osm_ids", "R1")]);
    assert_eq!(c.forward(&q).on_client_error, OnClientError::Empty);
    assert_eq!(c.search(&q).on_client_error, OnClientError::Throw);
    assert_eq!(c.lookup(&q).path, "/v2/address/lookup");
    assert_eq!(c.lookup(&q).empty, b"[]");
    assert_eq!(c.reverse(&q).empty, b"null");
}
