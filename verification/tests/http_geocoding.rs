use pickpoint::batch::Batch;
use pickpoint::transport::{Reply, RequestOpts, RequestState, Step};
use pickpoint::{geocoding, query, Client, Config, Error, Query};

fn client(cfg: Config) -> Client {
    Client::new(cfg, 0).unwrap()
}

fn response(status: u16, body: &str) -> Reply {
    Reply::Response {
        status,
        raw: body.as_bytes().to_vec(),
        error: None,
    }
}

fn value_of(opts: &RequestOpts, name: &str) -> String {
    opts.query
        .iter()
        .find(|(n, _)| n == name)
        .map(|(_, v)| v.clone())
        .unwrap_or_default()
}

/// Runs one request to its end.
fn run(
    c: &Client,
    opts: &RequestOpts,
    server: &mut dyn FnMut(&str) -> Reply,
) -> Result<Vec<serde_json::Value>, Error> {
    let q = value_of(opts, "q");
    let mut state = RequestState::new();
    loop {
        match state.do_request(&c.transport, opts, server(&q)) {
            Step::Send | Step::Backoff { .. } => {}
            Step::Refresh => panic!("nothing to renew"),
            Step::Done(r) => return geocoding::decode_json_array(&r?),
        }
    }
}

/// What went on during a batch: inputs in the order of their start, and the most under way.
struct Course {
    started: Vec<usize>,
    most: usize,
}

/// Runs a batch, letting `pick` choose which of the requests under way ends next.
fn run_batch(
    c: &Client,
    requests: &[RequestOpts],
    server: &mut dyn FnMut(&str) -> Reply,
    pick: &mut dyn FnMut(&[usize]) -> usize,
) -> (Result<Vec<Vec<serde_json::Value>>, Error>, Course) {
    let mut batch: Batch<Vec<serde_json::Value>> = c.geocoding().run_batch(requests.len());
    let mut under_way: Vec<usize> = Vec::new();
    let mut course = Course {
        started: Vec::new(),
        most: 0,
    };
    while !batch.is_complete() {
        while let Some(i) = batch.start() {
            under_way.push(i);
            course.started.push(i);
        }
        course.most = course.most.max(under_way.len());
        let i = under_way.remove(pick(&under_way));
        let r = run(c, &requests[i], server);
        if let Err(e) = batch.finish(i, r) {
            assert!(batch.start().is_none());
            return (Err(e), course);
        }
    }
    (Ok(batch.into_results()), course)
}

fn queries(values: &[&str]) -> Vec<Query> {
    values.iter().map(|v| query(&[("q", *v)])).collect()
}

#[test]
fn geocode_empty_on_400() {
    let c = client(Config::with_api_key("k"));
    let out = run(&c, &c.forward(&query(&[("q", "x")])), &mut |_| {
        response(400, r#"{"message":"bad"}"#)
    })
    .unwrap();
    assert!(out.is_empty());
}

#[test]
fn forward_batch_concurrency() {
    let c = client(Config::with_api_key("k").concurrency(4));
    let qs = queries(&["x"; 12]);
    let requests = c.forward_batch(&qs);
    assert_eq!(requests.len(), 12);
    let (out, course) = run_batch(
        &c,
        &requests,
        &mut |_| response(200, r#"[{"ok":true}]"#),
        &mut |_| 0,
    );
    assert_eq!(out.unwrap().len(), 12);
    assert!(course.most <= 4);
    assert_eq!(course.most, 4);
}

#[test]
fn batch_pipeline_fills_slots() {
    let c = client(Config::with_api_key("k").concurrency(2));
    let qs = queries(&["slow", "a", "b", "c"]);
    let requests = c.forward_batch(&qs);
    let mut ended = Vec::new();
    // The slow request ends last; the others take turns in the second place.
    let (out, course) = run_batch(
        &c,
        &requests,
        &mut |q| {
            ended.push(q.to_string());
            response(200, r#"[{"ok":true}]"#)
        },
        &mut |under_way| under_way.len() - 1,
    );
    assert_eq!(out.unwrap().len(), 4);
    assert_eq!(course.started, vec![0, 1, 2, 3]);
    assert_eq!(ended, vec!["a", "b", "c", "slow"]);
}

#[test]
fn batch_abort_on_403() {
    let c = client(Config::with_api_key("k").concurrency(4));
    let qs = queries(&["bad", "a", "b", "c", "d", "e"]);
    let requests = c.forward_batch(&qs);
    let mut hits = 0;
    let (out, course) = run_batch(
        &c,
        &requests,
        &mut |q| {
            hits += 1;
            if q == "bad" {
                response(403, "{}")
            } else {
                response(200, r#"[{"ok":true}]"#)
            }
        },
        &mut |_| 0,
    );
    assert!(out.unwrap_err().is_auth());
    assert!(hits < 6);
    assert!(course.started.len() < 6);
}

#[test]
fn batch_preserves_order() {
    let c = client(Config::with_api_key("k").concurrency(10));
    let qs = queries(&["slow", "fast1", "fast2"]);
    let requests = c.forward_batch(&qs);
    let (out, _) = run_batch(
        &c,
        &requests,
        &mut |q| {
            if q == "slow" {
                response(200, r#"[{"id":"slow"}]"#)
            } else {
                response(200, r#"[{"id":"fast"}]"#)
            }
        },
        &mut |under_way| under_way.len() - 1,
    );
    let out = out.unwrap();
    assert_eq!(out[0][0]["id"], "slow");
    assert_eq!(out[1][0]["id"], "fast");
}

#[test]
fn retry_budget_per_slot() {
    let c = client(
        Config::with_api_key("k")
            .max_retries(5)
            .retry_base(pickpoint::MIN_RETRY_BASE),
    );
    let qs = queries(&["flaky", "ok"]);
    let requests = c.forward_batch(&qs);
    let mut attempts = std::collections::HashMap::new();
    let (out, _) = run_batch(
        &c,
        &requests,
        &mut |q| {
            let n = attempts.entry(q.to_string()).or_insert(0);
            *n += 1;
            if q == "flaky" && *n < 3 {
                return response(503, "{}");
            }
            response(200, &format!(r#"[{{"q":"{q}"}}]"#))
        },
        &mut |_| 0,
    );
    let out = out.unwrap();
    assert_eq!(attempts["flaky"], 3);
    assert_eq!(attempts["ok"], 1);
    assert_eq!(out[0][0]["q"], "flaky");
}

#[test]
fn batches_of_every_kind() {
    let c = client(Config::with_api_key("k"));
    let qs = queries(&["a", "b"]);
    let paths = |v: Vec<RequestOpts>| -> Vec<(String, String)> {
        v.iter()
            .map(|r| (r.path.clone(), value_of(r, "q")))
            .collect()
    };
    let both = |p: &str| {
        vec![
            (p.to_string(), "a".to_string()),
            (p.to_string(), "b".to_string()),
        ]
    };
    assert_eq!(paths(c.forward_batch(&qs)), both("/v2/geocode/forward"));
    assert_eq!(paths(c.reverse_batch(&qs)), both("/v2/geocode/reverse"));
    assert_eq!(paths(c.lookup_batch(&qs)), both("/v2/address/lookup"));
    assert!(c.forward_batch(&[]).is_empty());
}

#[test]
fn an_empty_batch_is_complete() {
    let mut b: Batch<u8> = Batch::new(0, 3);
    assert!(b.is_complete());
    assert!(b.start().is_none());
    assert!(b.into_results().is_empty());
}

#[test]
fn a_batch_has_room_for_one() {
    let mut b: Batch<u8> = Batch::new(2, 0);
    assert_eq!(b.start(), Some(0));
    assert_eq!(b.start(), None);
    assert!(b.finish(0, Ok(5)).is_ok());
    assert!(!b.is_complete());
    assert_eq!(b.start(), Some(1));
    assert!(b.finish(1, Ok(6)).is_ok());
    assert!(b.is_complete());
    assert_eq!(b.into_results(), vec![5, 6]);
}

#[test]
fn a_failed_batch_stops() {
    let mut b: Batch<u8> = Batch::new(3, 2);
    assert_eq!(b.start(), Some(0));
    assert_eq!(b.start(), Some(1));
    assert!(matches!(
        b.finish(1, Err(Error::BatchCancelled)),
        Err(Error::BatchCancelled)
    ));
    assert_eq!(b.start(), None);
    assert!(!b.is_complete());
}
