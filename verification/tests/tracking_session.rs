use pickpoint::tracking::client::{after_resume, dial_result, greeting};
use pickpoint::tracking::{
    connect, decode_client_cmd, encode_server_evt, Action, AfterClose, Client, ClientCmd,
    CommandAckStatus, Config, ConnectionState, DeviceAuth, DialEvent, Error, ErrorCode, Geometry,
    Greeting, LatLng, ListenerAuth, Moment, Relocate, ResumeNext, ResumeReply, ServerEvt,
    MAX_EVENT_BYTES, MAX_PUBLISH_HZ, MAX_UNACKED_FRAMES, MIN_PUBLISH_INTERVAL,
};

const TRACK: &str = "00112233-4455-6677-8899-aabbccddeeff";
const DEVICE: &str = "33333333-3333-3333-3333-333333333333";
const START: u128 = 1_000_000_000;
const MILLI: u128 = 1_000_000;
const WALL: i64 = 1_700_000_000_000;

const MOVED: Geometry = Geometry {
    moved: true,
    off_line: false,
    turned: false,
    motion_changed: false,
};

const STILL: Geometry = Geometry {
    moved: false,
    off_line: false,
    turned: false,
    motion_changed: false,
};

fn at(ms: u128) -> Moment {
    Moment {
        instant: START + ms * MILLI,
        wall_ms: WALL + ms as i64,
    }
}

fn point(lat: f64, lon: f64) -> LatLng {
    LatLng::new((lat * 1e6).round() as i32, (lon * 1e6).round() as i32)
}

fn device_config() -> Config {
    Config {
        endpoint: "wss://tracking.example.com".into(),
        device: Some(DeviceAuth {
            client_id: "c".into(),
            client_secret: "s".into(),
        }),
        ..Default::default()
    }
}

fn listener_config() -> Config {
    Config {
        endpoint: "wss://tracking.example.com".into(),
        listener: Some(ListenerAuth {
            access_token: "jwt".into(),
        }),
        ..Default::default()
    }
}

fn hello(version: u8) -> Vec<u8> {
    encode_server_evt(&ServerEvt::Hello {
        version,
        node_id: DEVICE.into(),
        shard: 1,
    })
}

/// Dials and opens; gives the number of the dial.
fn dial(c: &mut Client) -> u64 {
    let gen = c.begin_dial();
    assert!(c.dial_url().unwrap().is_ok());
    assert!(matches!(
        dial_result(DialEvent::Binary(hello(2))),
        Ok(Greeting::Hello)
    ));
    c.open(gen).unwrap();
    gen
}

fn open_session(cfg: Config) -> (Client, u64) {
    let mut c = connect(cfg, START).unwrap();
    assert_eq!(c.state(), ConnectionState::Connecting);
    let gen = dial(&mut c);
    assert_eq!(c.state(), ConnectionState::Open);
    (c, gen)
}

fn started(c: &mut Client) -> Vec<Action> {
    c.dispatch(ServerEvt::TrackStarted {
        track_uid: TRACK.into(),
        metadata: Vec::new(),
    })
}

fn error_evt(code: ErrorCode, message: &str, retry_after_ms: Option<u32>) -> ServerEvt {
    ServerEvt::Error {
        code,
        message: message.into(),
        track_uid: None,
        retry_after_ms,
    }
}

fn sent(actions: &[Action]) -> Vec<ClientCmd> {
    actions
        .iter()
        .filter_map(|a| match a {
            Action::Send(frame) => Some(decode_client_cmd(frame).unwrap()),
            _ => None,
        })
        .collect()
}

fn hangs_up(actions: &[Action]) -> bool {
    actions.iter().any(|a| matches!(a, Action::HangUp))
}

fn failed<T>(r: Result<T, Error>) -> (ErrorCode, String) {
    match r {
        Ok(_) => panic!("expected an error"),
        Err(e) => (e.code, e.message),
    }
}

#[test]
fn connect_needs_endpoint_and_credentials() {
    let no_endpoint = Config {
        endpoint: String::new(),
        ..device_config()
    };
    assert_eq!(
        failed(connect(no_endpoint, START)),
        (ErrorCode::Invalid, "Endpoint is required".into())
    );
    let no_auth = Config {
        device: None,
        ..device_config()
    };
    assert_eq!(
        failed(connect(no_auth, START)),
        (
            ErrorCode::Invalid,
            "Device or Listener auth is required".into()
        )
    );
    let quick = Config {
        hello_timeout: 0,
        ..device_config()
    };
    assert_eq!(
        connect(quick, START).unwrap().config().hello_timeout,
        10_000_000_000
    );
}

#[test]
fn publish_rate_limit() {
    let (mut c, _) = open_session(Config {
        disable_reconnect: true,
        ..device_config()
    });
    let out = c.start_track(Some(point(1.0, 2.0)), vec![], WALL).unwrap();
    assert!(sent(&out)[0].is_track_start());
    started(&mut c);

    let mut accepted = 0;
    for i in 0..(MAX_PUBLISH_HZ * 3) {
        let ((_, ok), _) = c.publish(point(i as f64, 0.0), at(0), MOVED, &[]);
        if ok {
            accepted += 1;
        }
    }
    assert_eq!(accepted, 1);
    assert_eq!(c.client_seq(), 1);

    let later = at(MIN_PUBLISH_INTERVAL / MILLI + 5);
    let ((seq, ok), out) = c.publish(point(9.0, 9.0), later, MOVED, &[]);
    assert!(ok);
    assert_eq!(seq, 2);
    match &sent(&out)[..] {
        [ClientCmd::LocationBatch {
            client_seq, points, ..
        }] => {
            assert_eq!(*client_seq, 2);
            assert_eq!(points[..], [point(9.0, 9.0)]);
        }
        [ClientCmd::LocationAdd {
            client_seq, point: p, ..
        }] => {
            assert_eq!(*client_seq, 2);
            assert_eq!(*p, point(9.0, 9.0));
        }
        other => panic!("{other:?}"),
    }
}

#[test]
fn send_event_limits() {
    let (mut c, _) = open_session(device_config());
    assert_eq!(
        failed(c.send_event(b"early".to_vec(), at(0))),
        (ErrorCode::Invalid, "start_track() before send_event()".into())
    );
    c.start_track(None, vec![], WALL).unwrap();
    started(&mut c);

    assert_eq!(
        failed(c.send_event(vec![0u8; MAX_EVENT_BYTES + 1], at(0))),
        (ErrorCode::Invalid, "event payload exceeds 4 KiB".into())
    );
    let (ok, out) = c.send_event(b"a".to_vec(), at(0)).unwrap();
    assert!(ok);
    match &sent(&out)[..] {
        [ClientCmd::Event {
            payload,
            timestamp_ms,
            ..
        }] => {
            assert_eq!(payload, b"a");
            assert_eq!(*timestamp_ms, Some(WALL));
        }
        other => panic!("{other:?}"),
    }
    let (ok, out) = c.send_event(b"b".to_vec(), at(999)).unwrap();
    assert!(!ok);
    assert!(out.is_empty());
    let (ok, _) = c.send_event(vec![0u8; MAX_EVENT_BYTES], at(1000)).unwrap();
    assert!(ok);
}

#[test]
fn events_on_a_dead_socket() {
    let (mut c, _) = open_session(device_config());
    c.start_track(None, vec![], WALL).unwrap();
    started(&mut c);
    c.writer_gone();
    assert_eq!(
        failed(c.send_event(b"a".to_vec(), at(0))),
        (ErrorCode::TryAgain, "socket not open".into())
    );
}

#[test]
fn listener_subscribe_and_location() {
    let (mut c, _) = open_session(listener_config());
    let out = c.subscribe("device-1".into()).unwrap();
    match &sent(&out)[..] {
        [ClientCmd::Subscribe {
            include_events,
            min_location_interval_ms,
            ..
        }] => {
            assert!(*include_events);
            assert_eq!(*min_location_interval_ms, 0);
        }
        other => panic!("{other:?}"),
    }
    let out = c.dispatch(ServerEvt::Subscribed {
        sub: 4,
        device_uid: "device-1".into(),
        track_uid: String::new(),
        last_location: None,
        route: vec![],
        estimated_distance: 0,
        estimated_duration: 0,
        start_location_name: String::new(),
        end_location_name: String::new(),
        metadata: vec![],
        online: true,
        last_seen_ms: None,
    });
    assert!(matches!(
        out[..],
        [Action::Deliver(ServerEvt::Subscribed { sub: 4, .. })]
    ));
    let out = c.dispatch(ServerEvt::LocationAdded {
        device_uid: String::new(),
        track_uid: "t1".into(),
        point: point(1.5, 2.5),
        client_seq: 3,
        sub: 4,
    });
    match &out[..] {
        [Action::Deliver(ServerEvt::LocationAdded {
            device_uid, point, ..
        })] => {
            assert_eq!(device_uid, "device-1");
            assert_eq!(point.latitude, 1_500_000);
        }
        other => panic!("{other:?}"),
    }
    // A handle that nobody gave out names no device.
    let out = c.dispatch(ServerEvt::DevicePresence {
        device_uid: String::new(),
        online: false,
        last_seen_ms: None,
        sub: 9,
    });
    match &out[..] {
        [Action::Deliver(ServerEvt::DevicePresence { device_uid, .. })] => {
            assert_eq!(device_uid, "")
        }
        other => panic!("{other:?}"),
    }
    let out = c.dispatch(ServerEvt::EventAdded {
        device_uid: String::new(),
        track_uid: String::new(),
        payload: b"e".to_vec(),
        timestamp_ms: None,
        sub: 4,
    });
    match &out[..] {
        [Action::Deliver(ServerEvt::EventAdded { device_uid, .. })] => {
            assert_eq!(device_uid, "device-1")
        }
        other => panic!("{other:?}"),
    }
    let out = c.unsubscribe("device-1").unwrap();
    assert!(matches!(sent(&out)[..], [ClientCmd::Unsubscribe { sub: 4 }]));
    assert!(c.unsubscribe("device-1").unwrap().is_empty());
}

#[test]
fn auth_error_without_refresh_closes() {
    let (mut c, _) = open_session(Config {
        reconnect_min_delay: 10 * MILLI,
        reconnect_max_delay: 20 * MILLI,
        ..device_config()
    });
    c.start_track(None, vec![], WALL).unwrap();
    let out = c.dispatch(error_evt(ErrorCode::Auth, "bad creds", None));
    match &out[..] {
        [Action::Started(Err(e)), Action::RefreshAuth, Action::Deliver(_)] => {
            assert_eq!(e.code, ErrorCode::Auth);
            assert_eq!(e.message, "bad creds");
        }
        other => panic!("{other:?}"),
    }
    let out = c.handle_auth_error().unwrap();
    assert!(hangs_up(&out));
    assert_eq!(c.state(), ConnectionState::Closed);
    assert!(!c.may_redial());
}

#[test]
fn auth_error_refresh_redials() {
    let (mut c, gen) = open_session(Config {
        refresh_auth: true,
        ..device_config()
    });
    c.start_track(None, vec![], WALL).unwrap();
    let out = c.dispatch(error_evt(ErrorCode::Unauthorized, "expired", None));
    assert!(out.iter().any(|a| matches!(a, Action::RefreshAuth)));
    assert!(c.handle_auth_error().is_none());
    let (out, redial) = c.reauthorize(
        Some(DeviceAuth {
            client_id: "c2".into(),
            client_secret: "s2".into(),
        }),
        None,
    );
    assert!(hangs_up(&out));
    assert_eq!(redial, Some(false));
    assert_eq!(c.config().device.as_ref().unwrap().client_id, "c2");
    // The old socket no longer counts.
    assert!(matches!(c.on_socket_closed(gen), AfterClose::Ignore));
    dial(&mut c);
    assert_eq!(c.state(), ConnectionState::Open);
}

#[test]
fn failed_refresh_ends_the_session() {
    let (mut c, _) = open_session(Config {
        refresh_auth: true,
        ..device_config()
    });
    c.refresh_failed();
    assert_eq!(c.state(), ConnectionState::Closed);
    assert!(!c.may_redial());
}

#[test]
fn new_listener_token_replaces_device_credentials() {
    let (mut c, _) = open_session(device_config());
    c.reauthorize(
        None,
        Some(ListenerAuth {
            access_token: "j2".into(),
        }),
    );
    assert!(c.config().device.is_none());
    assert_eq!(c.config().listener.as_ref().unwrap().access_token, "j2");
}

#[test]
fn reconnect_sends_resume_not_track_start() {
    let (mut c, gen) = open_session(Config {
        reconnect_min_delay: 20 * MILLI,
        reconnect_max_delay: 50 * MILLI,
        ..device_config()
    });
    let mut starts = sent(&c.start_track(None, vec![], WALL).unwrap()).len();
    started(&mut c);
    c.publish(point(1.0, 2.0), at(0), STILL, &[]);
    c.publish(point(3.0, 4.0), at(25), MOVED, &[]);
    assert_eq!(c.client_seq(), 2);

    match c.on_socket_closed_with(gen, 0) {
        AfterClose::Redial { delay, send_resume } => {
            assert_eq!(delay, 0);
            assert!(send_resume);
        }
        other => panic!("{other:?}"),
    }
    assert_eq!(c.state(), ConnectionState::Reconnecting);
    dial(&mut c);
    let cmds = sent(&c.auto_resume().unwrap().unwrap());
    starts += cmds.iter().filter(|m| m.is_track_start()).count();
    match &cmds[..] {
        [ClientCmd::Resume {
            track_uid,
            last_client_seq,
        }] => {
            assert_eq!(track_uid, TRACK);
            assert_eq!(*last_client_seq, 2);
        }
        other => panic!("{other:?}"),
    }
    assert_eq!(starts, 1);
    assert_eq!(c.state(), ConnectionState::Open);
    // The server has the first point only; the second goes out again.
    let out = c.dispatch(ServerEvt::ResumeOk {
        track_uid: TRACK.into(),
        last_acked_seq: 1,
    });
    match &sent(&out)[..] {
        [cmd] => assert!(cmd.is_loc()),
        other => panic!("{other:?}"),
    }
    assert!(out.iter().any(|a| matches!(a, Action::Resumed(Ok(1)))));
    assert_eq!(c.last_acked_seq(), 1);
}

#[test]
fn reconnect_track_not_found_clears_cursor() {
    let (mut c, gen) = open_session(device_config());
    c.start_track(None, vec![], WALL).unwrap();
    c.dispatch(ServerEvt::TrackStarted {
        track_uid: "t-gone".into(),
        metadata: vec![],
    });
    assert_eq!(c.track_uid(), "t-gone");
    assert!(matches!(
        c.on_socket_closed(gen),
        AfterClose::Redial {
            send_resume: true,
            ..
        }
    ));
    dial(&mut c);
    assert!(sent(&c.auto_resume().unwrap().unwrap())[0].is_resume());
    let out = c.dispatch(error_evt(ErrorCode::TrackNotFound, "track expired", None));
    assert!(matches!(out[0], Action::Resumed(Err(_))));
    assert_eq!(c.track_uid(), "");
    assert!(matches!(
        after_resume(ResumeReply::Refused(Error {
            code: ErrorCode::TrackNotFound,
            message: "track expired".into(),
            track_uid: None,
            retry_after_ms: None,
        })),
        ResumeNext::Failed(_)
    ));
    // The next sample starts anew.
    let ((seq, ok), out) = c.publish(point(1.0, 1.0), at(100), STILL, &[]);
    assert_eq!((seq, ok), (0, true));
    assert!(sent(&out)[0].is_track_start());
}

#[test]
fn relocate_dials_new_endpoint() {
    let mut c = connect(
        Config {
            disable_reconnect: true,
            ..device_config()
        },
        START,
    )
    .unwrap();
    c.begin_dial();
    let frame = encode_server_evt(&ServerEvt::Relocate {
        endpoint: "wss://node7.example.com".into(),
        retry_after_ms: 10,
    });
    let rel = match dial_result(DialEvent::Binary(frame)) {
        Ok(Greeting::Relocate(rel)) => rel,
        other => panic!("{other:?}"),
    };
    assert_eq!(c.relocate(rel), 10);
    assert!(!c.after_relocate(false).unwrap());
    assert_eq!(
        c.dial_url().unwrap().unwrap().host_str(),
        Some("node7.example.com")
    );
    dial(&mut c);
    assert_eq!(c.state(), ConnectionState::Open);
    c.start_track(None, vec![], WALL).unwrap();
    let out = started(&mut c);
    match &out[..] {
        [Action::Started(Ok(uid)), Action::Deliver(_)] => assert_eq!(uid, TRACK),
        other => panic!("{other:?}"),
    }
    // With a track, moving on resumes it.
    assert!(c.after_relocate(false).unwrap());
    let out = c.dispatch(ServerEvt::Relocate {
        endpoint: String::new(),
        retry_after_ms: 0,
    });
    match &out[..] {
        [Action::Relocate(rel)] => assert_eq!(
            *rel,
            Relocate {
                endpoint: String::new(),
                retry_after_ms: 0
            }
        ),
        other => panic!("{other:?}"),
    }
    assert_eq!(c.relocate(Relocate::default()), 0);
    assert_eq!(c.config().endpoint, "wss://node7.example.com");
    c.close();
    assert_eq!(
        failed(c.after_relocate(false)),
        (ErrorCode::Invalid, "closed".into())
    );
}

#[test]
fn queue_flush_after_resume() {
    let (mut c, gen) = open_session(Config {
        reconnect_min_delay: 20 * MILLI,
        reconnect_max_delay: 50 * MILLI,
        ..device_config()
    });
    c.start_track(None, vec![], WALL).unwrap();
    started(&mut c);
    c.on_socket_closed(gen);
    assert_eq!(c.state(), ConnectionState::Reconnecting);
    let ((seq, ok), out) = c.publish(point(9.0, 9.0), at(0), STILL, &[]);
    assert!(ok);
    assert_eq!(seq, 1);
    assert!(out.is_empty());
    assert_eq!(c.offline_queue().staging_len(), 1);

    dial(&mut c);
    assert!(sent(&c.auto_resume().unwrap().unwrap())[0].is_resume());
    let out = c.dispatch(ServerEvt::ResumeOk {
        track_uid: TRACK.into(),
        last_acked_seq: 0,
    });
    match &sent(&out)[..] {
        [ClientCmd::LocationBatch {
            client_seq, points, ..
        }] => {
            assert_eq!(*client_seq, 1);
            assert_eq!(points.len(), 1);
        }
        [ClientCmd::LocationAdd { client_seq, .. }] => assert_eq!(*client_seq, 1),
        other => panic!("{other:?}"),
    }
    assert_eq!(c.client_seq(), 1);
}

#[test]
fn staged_samples_are_answered_with_their_numbers() {
    let (mut c, gen) = open_session(device_config());
    c.start_track(None, vec![], WALL).unwrap();
    started(&mut c);
    c.publish(point(1.0, 1.0), at(0), STILL, &[]);
    c.on_socket_closed(gen);
    for i in 1..4u64 {
        let ((seq, ok), _) = c.publish(point(i as f64, 9.0), at(20 * i as u128), MOVED, &[]);
        assert_eq!((seq, ok), (1 + i, true));
    }
    // A sample that the filter holds has no number of its own.
    let ((seq, ok), _) = c.publish(point(3.0, 9.0), at(80), STILL, &[]);
    assert_eq!((seq, ok), (1, true));
    dial(&mut c);
    c.auto_resume().unwrap();
    c.dispatch(ServerEvt::ResumeOk {
        track_uid: TRACK.into(),
        last_acked_seq: 1,
    });
    let sent: Vec<(u64, i32)> = c
        .offline_queue()
        .peek_all()
        .iter()
        .map(|p| (p.seq, p.point.latitude))
        .collect();
    assert_eq!(sent, vec![(2, 1_000_000), (3, 2_000_000), (4, 3_000_000)]);
}

#[test]
fn first_publish_starts_the_trip() {
    let (mut c, _) = open_session(device_config());
    let ((seq, ok), out) = c.publish(point(55.75, 37.61), at(0), STILL, &[]);
    assert_eq!((seq, ok), (0, true));
    match &sent(&out)[..] {
        [ClientCmd::TrackStart {
            location,
            route,
            metadata,
        }] => {
            assert_eq!(location.unwrap().latitude, 55_750_000);
            assert!(route.is_empty() && metadata.is_empty());
        }
        other => panic!("{other:?}"),
    }
    // Samples wait until the track is there.
    let ((seq, ok), out) = c.publish(point(55.76, 37.61), at(20), MOVED, &[]);
    assert_eq!((seq, ok), (1, true));
    assert!(out.is_empty());
    let ((_, ok), _) = c.publish(point(55.76, 37.61), at(40), STILL, &[]);
    assert!(ok);
    assert_eq!(c.offline_queue().staging_len(), 1);
    let out = started(&mut c);
    assert_eq!(sent(&out).len(), 1);
    assert_eq!(c.client_seq(), 1);
    assert_eq!(c.offline_queue().staging_len(), 0);
}

#[test]
fn publish_without_a_socket() {
    let mut c = connect(device_config(), START).unwrap();
    let ((seq, ok), out) = c.publish(point(1.0, 1.0), at(0), STILL, &[]);
    assert_eq!((seq, ok), (0, false));
    assert!(out.is_empty());
    assert_eq!(
        failed(c.start_track(None, vec![], WALL)),
        (ErrorCode::TryAgain, "socket not open".into())
    );
    assert_eq!(
        failed(c.ack_command(DEVICE.into(), CommandAckStatus::Failed, None)),
        (ErrorCode::TryAgain, "socket not open".into())
    );
}

#[test]
fn the_window_holds_samples_back() {
    let (mut c, _) = open_session(device_config());
    c.start_track(None, vec![], WALL).unwrap();
    started(&mut c);
    let n = MAX_UNACKED_FRAMES as u64;
    for i in 0..n {
        let ((seq, ok), out) = c.publish(point(i as f64, 0.0), at(20 * i as u128), MOVED, &[]);
        assert_eq!((seq, ok), (i + 1, true));
        assert_eq!(out.len(), 1);
    }
    assert!(c.offline_queue().window_full());
    for i in n..n + 3 {
        let ((seq, ok), out) = c.publish(point(i as f64, 0.0), at(20 * i as u128), MOVED, &[]);
        assert_eq!((seq, ok), (i + 1, true));
        assert!(out.is_empty());
    }
    assert_eq!(c.offline_queue().staging_len(), 3);
    // A receipt is not handed on; it opens the window.
    let out = c.dispatch(ServerEvt::Ack { seq: 2 });
    assert!(out.iter().all(|a| matches!(a, Action::Send(_))));
    assert!(!out.is_empty());
    assert_eq!(c.last_acked_seq(), 2);
    assert_eq!(c.client_seq(), n + 3);
    c.dispatch(ServerEvt::Ack { seq: 1 });
    assert_eq!(c.last_acked_seq(), 2);
}

#[test]
fn close_stops_the_track_then_hangs_up() {
    let (mut c, gen) = open_session(device_config());
    c.start_track(None, vec![], WALL).unwrap();
    started(&mut c);
    c.stop_track(None).unwrap();
    let out = c.close();
    assert_eq!(out.len(), 3);
    match &out[0] {
        Action::Send(frame) => {
            assert!(matches!(
                decode_client_cmd(frame).unwrap(),
                ClientCmd::TrackStop { .. }
            ));
        }
        other => panic!("{other:?}"),
    }
    match &out[1] {
        Action::Stopped(Err(e)) => assert_eq!(e.message, "client closed"),
        other => panic!("{other:?}"),
    }
    assert!(matches!(out[2], Action::HangUp));
    assert_eq!(c.state(), ConnectionState::Closed);
    assert!(!c.may_redial());
    match c.on_socket_closed(gen) {
        AfterClose::Ended(out) => assert!(out.is_empty()),
        other => panic!("{other:?}"),
    }
    assert_eq!(
        failed(c.subscribe(DEVICE.into())),
        (ErrorCode::Invalid, "closed".into())
    );
    let gen = c.begin_dial();
    assert_eq!(
        failed(c.open(gen)),
        (ErrorCode::Invalid, "dial superseded".into())
    );
}

#[test]
fn stopping() {
    let (mut c, _) = open_session(device_config());
    assert!(c.stop_track(None).unwrap().is_none());
    assert!(c.stop_track(Some(String::new())).unwrap().is_none());
    c.start_track(None, vec![], WALL).unwrap();
    started(&mut c);
    assert_eq!(sent(&c.stop_track(None).unwrap().unwrap()).len(), 1);
    let out = c.dispatch(ServerEvt::TrackStopped {
        track_uid: TRACK.into(),
    });
    assert!(matches!(
        out[..],
        [Action::Stopped(Ok(())), Action::Deliver(_)]
    ));
    assert_eq!(c.track_uid(), "");
    // Another track that stopped leaves the live one alone.
    c.start_track(None, vec![], WALL).unwrap();
    started(&mut c);
    c.dispatch(ServerEvt::TrackStopped {
        track_uid: DEVICE.into(),
    });
    assert_eq!(c.track_uid(), TRACK);
}

#[test]
fn resuming_by_hand() {
    let (mut c, _) = open_session(device_config());
    let out = c.resume(&TRACK.to_string(), 7).unwrap();
    match &sent(&out)[..] {
        [ClientCmd::Resume {
            track_uid,
            last_client_seq,
        }] => {
            assert_eq!(track_uid, TRACK);
            assert_eq!(*last_client_seq, 7);
        }
        other => panic!("{other:?}"),
    }
    assert_eq!(c.client_seq(), 7);
    let out = c.dispatch(error_evt(ErrorCode::TryAgain, "busy", Some(10)));
    let refused = match &out[0] {
        Action::Resumed(Err(e)) => Error {
            code: e.code,
            message: e.message.clone(),
            track_uid: None,
            retry_after_ms: e.retry_after_ms,
        },
        other => panic!("{other:?}"),
    };
    assert_eq!(c.track_uid(), TRACK);
    assert!(matches!(
        after_resume(ResumeReply::Refused(refused)),
        ResumeNext::Retry { wait_ms: 50 }
    ));
    c.resume_again().unwrap();
    c.resume(&TRACK.to_string(), 7).unwrap();
    let out = c.dispatch(ServerEvt::ResumeOk {
        track_uid: String::new(),
        last_acked_seq: 9,
    });
    assert!(matches!(
        out[..],
        [Action::Resumed(Ok(9)), Action::Deliver(_)]
    ));
    assert_eq!(c.client_seq(), 9);
    assert_eq!(c.track_uid(), TRACK);
    c.close();
    assert_eq!(
        failed(c.resume_again()),
        (ErrorCode::Invalid, "closed".into())
    );
}

#[test]
fn waits_between_resumes() {
    let wait = |code: ErrorCode, retry_after_ms: Option<u32>| {
        after_resume(ResumeReply::Refused(Error {
            code,
            message: String::new(),
            track_uid: None,
            retry_after_ms,
        }))
    };
    assert!(matches!(
        wait(ErrorCode::Fenced, None),
        ResumeNext::Retry { wait_ms: 200 }
    ));
    assert!(matches!(
        wait(ErrorCode::TrackNotFound, None),
        ResumeNext::Failed(_)
    ));
    assert!(matches!(
        wait(ErrorCode::TryAgain, None),
        ResumeNext::Retry { wait_ms: 200 }
    ));
    assert!(matches!(
        wait(ErrorCode::TryAgain, Some(1234)),
        ResumeNext::Retry { wait_ms: 1234 }
    ));
    assert!(matches!(
        wait(ErrorCode::Invalid, Some(1)),
        ResumeNext::Failed(_)
    ));
    assert!(matches!(
        after_resume(ResumeReply::Acked(3)),
        ResumeNext::Done(3)
    ));
    match after_resume(ResumeReply::Cancelled) {
        ResumeNext::Failed(e) => {
            assert_eq!(
                (e.code, e.message.as_str()),
                (ErrorCode::TryAgain, "resume cancelled")
            )
        }
        other => panic!("{other:?}"),
    }
}

#[test]
fn commands_go_to_their_own_receiver() {
    let (mut c, _) = open_session(device_config());
    let out = c.dispatch(ServerEvt::Command {
        command_id: DEVICE.into(),
        payload: b"go".to_vec(),
        timestamp_ms: Some(5),
    });
    match &out[..] {
        [Action::DeliverCommand(cmd)] => {
            assert_eq!(cmd.command_id, DEVICE);
            assert_eq!(cmd.payload, b"go");
            assert_eq!(cmd.timestamp_ms, Some(5));
        }
        other => panic!("{other:?}"),
    }
    let out = c
        .ack_command(
            DEVICE.into(),
            CommandAckStatus::Succeeded,
            Some("done".into()),
        )
        .unwrap();
    match &sent(&out)[..] {
        [ClientCmd::CommandAck {
            command_id,
            status,
            message,
        }] => {
            assert_eq!(command_id, DEVICE);
            assert_eq!(*status, CommandAckStatus::Succeeded);
            assert_eq!(message.as_deref(), Some("done"));
        }
        other => panic!("{other:?}"),
    }
}

#[test]
fn reconnecting_can_be_disabled() {
    let (mut c, gen) = open_session(Config {
        disable_reconnect: true,
        ..device_config()
    });
    c.start_track(None, vec![], WALL).unwrap();
    match c.on_socket_closed(gen) {
        AfterClose::Ended(out) => match &out[..] {
            [Action::Started(Err(e))] => {
                assert_eq!(
                    (e.code, e.message.as_str()),
                    (ErrorCode::TryAgain, "connection closed")
                )
            }
            other => panic!("{other:?}"),
        },
        other => panic!("{other:?}"),
    }
    assert_eq!(c.state(), ConnectionState::Closed);
}

#[test]
fn reconnect_attempts_run_out() {
    let (mut c, gen) = open_session(Config {
        reconnect_max_attempts: 1,
        reconnect_min_delay: 100 * MILLI,
        reconnect_max_delay: 800 * MILLI,
        ..device_config()
    });
    c.resume(&TRACK.to_string(), 0).unwrap();
    match c.on_socket_closed(gen) {
        AfterClose::Redial { delay, .. } => assert!(delay < 100 * MILLI),
        other => panic!("{other:?}"),
    }
    // The dial fails.
    let gen = c.begin_dial();
    match c.on_socket_closed(gen) {
        AfterClose::Ended(out) => match &out[..] {
            [Action::Resumed(Err(e))] => {
                assert_eq!(e.message, "reconnect attempts exhausted")
            }
            other => panic!("{other:?}"),
        },
        other => panic!("{other:?}"),
    }
    assert_eq!(c.state(), ConnectionState::Closed);
}

#[test]
fn a_later_dial_voids_an_earlier_one() {
    let mut c = connect(device_config(), START).unwrap();
    let first = c.begin_dial();
    let second = c.begin_dial();
    assert_eq!(second, first + 1);
    assert_eq!(c.dial_gen(), second);
    assert_eq!(
        failed(c.open(first)),
        (ErrorCode::Invalid, "dial superseded".into())
    );
    c.open(second).unwrap();
    assert!(matches!(c.on_socket_closed(first), AfterClose::Ignore));
    assert_eq!(c.state(), ConnectionState::Open);
}

#[test]
fn devices_are_subscribed_again() {
    let (mut c, gen) = open_session(Config {
        subscribe: vec![DEVICE.into(), TRACK.into(), DEVICE.into()],
        ..listener_config()
    });
    let uids = |out: &[Action]| -> Vec<String> {
        sent(out)
            .into_iter()
            .map(|cmd| match cmd {
                ClientCmd::Subscribe { device_uid, .. } => device_uid,
                other => panic!("{other:?}"),
            })
            .collect()
    };
    let mut first = uids(&c.resubscribe());
    first.sort();
    assert_eq!(first, vec![TRACK, DEVICE]);
    c.on_socket_closed(gen);
    dial(&mut c);
    assert_eq!(uids(&c.resubscribe()).len(), 2);
    assert!(c.auto_resume().unwrap().is_none());
    c.unsubscribe(DEVICE).unwrap();
    assert_eq!(uids(&c.resubscribe()), vec![TRACK]);
}

#[test]
fn what_a_dial_comes_to() {
    let outcome = |ev: DialEvent| failed(dial_result(ev));
    assert_eq!(
        outcome(DialEvent::BadRequest("x".into())),
        (ErrorCode::Invalid, "ws request: x".into())
    );
    assert_eq!(
        outcome(DialEvent::DialFailed("x".into())),
        (ErrorCode::TryAgain, "ws dial: x".into())
    );
    assert_eq!(
        outcome(DialEvent::Timeout),
        (ErrorCode::TryAgain, "hello timeout".into())
    );
    assert_eq!(
        outcome(DialEvent::Ended),
        (ErrorCode::TryAgain, "connection closed before hello".into())
    );
    assert_eq!(
        outcome(DialEvent::ReadFailed("x".into())),
        (ErrorCode::TryAgain, "ws read: x".into())
    );
    assert_eq!(
        outcome(DialEvent::Other("Text".into())),
        (ErrorCode::Invalid, "expected binary hello, got Text".into())
    );
    assert_eq!(
        outcome(DialEvent::Binary(vec![0x80])),
        (ErrorCode::Invalid, "decode hello: truncated frame".into())
    );
    assert_eq!(
        outcome(DialEvent::Binary(vec![0xF0])),
        (ErrorCode::Invalid, "expected hello".into())
    );
    assert_eq!(
        outcome(DialEvent::Binary(hello(3))),
        (ErrorCode::Invalid, "unsupported hello version 3".into())
    );
    let fenced = encode_server_evt(&error_evt(ErrorCode::Fenced, "elsewhere", Some(5)));
    assert_eq!(
        outcome(DialEvent::Binary(fenced)),
        (ErrorCode::Fenced, "elsewhere".into())
    );
    assert_eq!(
        failed(greeting(None)),
        (ErrorCode::Invalid, "expected hello".into())
    );
}

#[test]
fn unknown_track_on_a_live_session_is_forgotten() {
    let (mut c, _) = open_session(device_config());
    c.start_track(None, vec![], WALL).unwrap();
    started(&mut c);
    c.publish(point(1.0, 1.0), at(0), STILL, &[]);
    let out = c.dispatch(error_evt(ErrorCode::TrackNotFound, "gone", None));
    assert!(matches!(out[..], [Action::Deliver(_)]));
    assert_eq!(c.track_uid(), "");
    assert_eq!(c.offline_queue().size(), 0);
    // The filter keeps what it saw.
    assert!(c.noise_filter().last_emitted().is_some());
}

#[test]
fn a_new_start_supersedes() {
    let (mut c, _) = open_session(device_config());
    c.start_track(None, vec![], WALL).unwrap();
    started(&mut c);
    c.publish(point(1.0, 1.0), at(0), STILL, &[]);
    let out = c
        .start_track_meta(
            Some(point(2.0, 2.0)),
            vec![point(2.0, 2.0), point(3.0, 3.0)],
            b"order".to_vec(),
            WALL,
        )
        .unwrap();
    match &sent(&out)[..] {
        [ClientCmd::TrackStart {
            route, metadata, ..
        }] => {
            assert_eq!(route.len(), 2);
            assert_eq!(metadata, b"order");
        }
        other => panic!("{other:?}"),
    }
    assert_eq!(c.client_seq(), 0);
    assert_eq!(c.offline_queue().size(), 0);
    assert_eq!(
        c.noise_filter().last_emitted().unwrap().timestamp_ms,
        Some(WALL)
    );
}

#[test]
fn resume_after_publish() {
    let (mut c, _) = open_session(Config {
        disable_reconnect: true,
        ..device_config()
    });
    c.start_track(Some(point(1.0, 1.0)), vec![], WALL).unwrap();
    let out = started(&mut c);
    let uid = match &out[0] {
        Action::Started(Ok(uid)) => uid.clone(),
        other => panic!("{other:?}"),
    };
    let ((_, ok), _) = c.publish(point(2.0, 2.0), at(0), MOVED, &[]);
    assert!(ok);
    let out = c.dispatch(ServerEvt::LocationAdded {
        device_uid: String::new(),
        track_uid: uid.clone(),
        point: point(2.0, 2.0),
        client_seq: 1,
        sub: 0,
    });
    assert!(matches!(
        out[..],
        [Action::Deliver(ServerEvt::LocationAdded { .. })]
    ));
    let out = c.resume(&uid, 1).unwrap();
    assert!(sent(&out)[0].is_resume());
    let out = c.dispatch(ServerEvt::ResumeOk {
        track_uid: uid,
        last_acked_seq: 0,
    });
    let acked = out.iter().find_map(|a| match a {
        Action::Resumed(r) => Some(r),
        _ => None,
    });
    match acked {
        Some(Ok(acked)) => assert_eq!(*acked, 0),
        other => panic!("{other:?}"),
    }
}
