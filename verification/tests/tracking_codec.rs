use pickpoint::tracking::codec::{
    decode_client, protocol_version, stamp_lat_lngs, stamp_lat_lngs_at, strip_live_time,
    ClientDecode,
};
use pickpoint::tracking::points::micro_delta_fits;
use pickpoint::tracking::types::ExactFix;
use pickpoint::tracking::uuids::{uid_bytes, uid_text};
use pickpoint::tracking::url::{choose_scheme, normalize_endpoint, try_build_ws_url};
use pickpoint::tracking::{
    build_ws_url, decode_client_cmd, decode_server_evt, decode_server_msg, encode_client_cmd,
    encode_client_msg, encode_loc_frames, encode_server_evt, is_auth_error,
    is_fatal_resume_error, is_retry_resume_error, new_error, ClientCmd, CommandAckStatus, Config,
    DecodeError, DeviceAuth, Error, ErrorCode, FinishReason, LatLng, ListenerAuth, ServerEvt,
    DEFAULT_WS_PATH, PROTOCOL_VERSION, SUBPROTOCOL,
};
use pickpoint::tracking::errors::error_from_evt;

const A: &str = "00112233-4455-6677-8899-aabbccddeeff";
const B: &str = "33333333-3333-3333-3333-333333333333";

fn full_point() -> LatLng {
    LatLng {
        altitude: Some(-1500),
        accuracy: Some(65_535),
        timestamp_ms: Some(-2),
        ..LatLng::new(-90_000_000, 180_000_000)
    }
}

fn round_trip_client(cmd: ClientCmd) {
    let b = encode_client_cmd(&cmd);
    assert_eq!(b, encode_client_msg(&cmd));
    assert_eq!(decode_client_cmd(&b).unwrap(), cmd);
}

fn round_trip_server(evt: ServerEvt) {
    let b = encode_server_evt(&evt);
    assert_eq!(decode_server_msg(&b).unwrap(), evt);
    // A shorter frame is truncated; a longer one reads the same.
    for n in 0..b.len() {
        assert_eq!(
            decode_server_evt(&b[..n]),
            Err(DecodeError::Truncated),
            "{evt:?} cut at {n}"
        );
        assert!(decode_server_msg(&b[..n]).is_err(), "{evt:?} cut at {n}");
    }
    let mut longer = b;
    longer.extend_from_slice(&[0xff, 0x00, 0x80]);
    assert_eq!(decode_server_evt(&longer), Ok(Some(evt)));
}

#[test]
fn client_commands_round_trip() {
    round_trip_client(ClientCmd::Resume {
        track_uid: A.into(),
        last_client_seq: u32::MAX as u64,
    });
    round_trip_client(ClientCmd::TrackStart {
        location: None,
        route: vec![],
        metadata: vec![],
    });
    round_trip_client(ClientCmd::TrackStart {
        location: Some(full_point()),
        route: vec![LatLng::new(1, 2), LatLng::new(90_000_000, -180_000_000), LatLng::new(-3, 4)],
        metadata: b"meta".to_vec(),
    });
    round_trip_client(ClientCmd::LocationAdd {
        track_uid: String::new(),
        client_seq: 9,
        point: full_point(),
    });
    round_trip_client(ClientCmd::LocationBatch {
        track_uid: String::new(),
        client_seq: 12,
        points: vec![
            LatLng::new(10, 20),
            LatLng::new(10 + 32_767, 20 - 32_768),
            LatLng {
                altitude: Some(5),
                ..LatLng::new(10, 0)
            },
        ],
    });
    round_trip_client(ClientCmd::Subscribe {
        device_uid: B.into(),
        include_events: false,
        min_location_interval_ms: 1500,
    });
    round_trip_client(ClientCmd::Unsubscribe { sub: 255 });
    round_trip_client(ClientCmd::Event {
        track_uid: String::new(),
        payload: vec![0, 255, 7],
        timestamp_ms: Some(1),
    });
    for status in [
        CommandAckStatus::Unspecified,
        CommandAckStatus::Succeeded,
        CommandAckStatus::Rejected,
        CommandAckStatus::Failed,
    ] {
        round_trip_client(ClientCmd::CommandAck {
            command_id: A.into(),
            status,
            message: Some("é".into()),
        });
    }
}

#[test]
fn track_stop_has_no_body() {
    let b = encode_client_cmd(&ClientCmd::TrackStop {
        track_uid: A.into(),
    });
    assert_eq!(b, vec![0x03]);
    assert_eq!(
        decode_client_cmd(&b).unwrap(),
        ClientCmd::TrackStop {
            track_uid: String::new()
        }
    );
}

#[test]
fn server_events_round_trip() {
    round_trip_server(ServerEvt::Hello {
        version: 2,
        node_id: A.into(),
        shard: 65_535,
    });
    round_trip_server(ServerEvt::Relocate {
        endpoint: "wss://x".into(),
        retry_after_ms: 1,
    });
    round_trip_server(ServerEvt::ResumeOk {
        track_uid: A.into(),
        last_acked_seq: 4_000_000_000,
    });
    round_trip_server(ServerEvt::TrackStarted {
        track_uid: A.into(),
        metadata: vec![1, 2],
    });
    round_trip_server(ServerEvt::TrackStopped {
        track_uid: B.into(),
    });
    round_trip_server(ServerEvt::Ack { seq: 77 });
    round_trip_server(ServerEvt::LocationAdded {
        device_uid: String::new(),
        track_uid: String::new(),
        point: full_point(),
        client_seq: 3,
        sub: 8,
    });
    for (location, seen, route) in [
        (None, None, vec![]),
        (Some(full_point()), None, vec![LatLng::new(5, 6)]),
        (None, Some(-9), vec![LatLng::new(7, 8), LatLng::new(0, 0)]),
    ] {
        round_trip_server(ServerEvt::Subscribed {
            sub: 1,
            device_uid: B.into(),
            track_uid: A.into(),
            last_location: location,
            route,
            estimated_distance: 1.5f64.to_bits(),
            estimated_duration: 99.25f64.to_bits(),
            start_location_name: "Straße".into(),
            end_location_name: String::new(),
            metadata: vec![9; 300],
            online: true,
            last_seen_ms: seen,
        });
    }
    for code in [
        ErrorCode::Auth,
        ErrorCode::TrackNotFound,
        ErrorCode::Fenced,
        ErrorCode::TryAgain,
        ErrorCode::Invalid,
        ErrorCode::Unauthorized,
    ] {
        round_trip_server(ServerEvt::Error {
            code,
            message: "why".into(),
            track_uid: Some(A.into()),
            retry_after_ms: Some(50),
        });
    }
    round_trip_server(ServerEvt::EventAdded {
        device_uid: String::new(),
        track_uid: String::new(),
        payload: b"p".to_vec(),
        timestamp_ms: Some(i64::MIN),
        sub: 0,
    });
    round_trip_server(ServerEvt::Command {
        command_id: A.into(),
        payload: vec![],
        timestamp_ms: Some(i64::MAX),
    });
    round_trip_server(ServerEvt::DevicePresence {
        device_uid: String::new(),
        online: false,
        last_seen_ms: Some(12),
        sub: 2,
    });
}

#[test]
fn absent_parts_stand_as_zeros() {
    let b = encode_server_evt(&ServerEvt::Error {
        code: ErrorCode::TryAgain,
        message: String::new(),
        track_uid: None,
        retry_after_ms: None,
    });
    assert_eq!(hex::encode(&b), format!("8804{}{}0000", "00".repeat(4), "00".repeat(16)));
    match decode_server_msg(&b).unwrap() {
        ServerEvt::Error {
            track_uid,
            retry_after_ms,
            ..
        } => {
            assert!(track_uid.is_none());
            assert!(retry_after_ms.is_none());
        }
        other => panic!("{other:?}"),
    }
    // A time of zero is no time.
    let b = encode_server_evt(&ServerEvt::Command {
        command_id: A.into(),
        payload: vec![],
        timestamp_ms: Some(0),
    });
    match decode_server_msg(&b).unwrap() {
        ServerEvt::Command { timestamp_ms, .. } => assert!(timestamp_ms.is_none()),
        other => panic!("{other:?}"),
    }
}

#[test]
fn unknown_types() {
    assert_eq!(decode_server_evt(&[0xFE, 1, 2]).unwrap(), None);
    assert!(decode_server_msg(&[0xFE]).is_err());
    assert!(matches!(
        decode_client(&[0x7E, 0]).unwrap(),
        ClientDecode::Unknown(0x7E)
    ));
    assert_eq!(decode_client_cmd(&[0x7E]), Err(DecodeError::Invalid));
    for t in [0x00, 0x7F, 0x80, 0xFF] {
        assert!(decode_client(&[t]).is_err());
    }
    assert_eq!(decode_client_cmd(&[]), Err(DecodeError::Truncated));
    assert_eq!(decode_server_evt(&[]), Err(DecodeError::Truncated));
}

#[test]
fn a_route_keeps_positions_only() {
    let b = encode_client_cmd(&ClientCmd::TrackStart {
        location: None,
        route: vec![full_point()],
        metadata: vec![],
    });
    match decode_client_cmd(&b).unwrap() {
        ClientCmd::TrackStart { route, .. } => {
            assert_eq!(route, vec![LatLng::new(-90_000_000, 180_000_000)])
        }
        other => panic!("{other:?}"),
    }
}

#[test]
fn frames_out_of_range() {
    // A latitude beyond the pole.
    let b = encode_client_cmd(&ClientCmd::LocationAdd {
        track_uid: String::new(),
        client_seq: 1,
        point: LatLng::new(90_000_001, 0),
    });
    assert_eq!(decode_client_cmd(&b), Err(DecodeError::Invalid));
    // No points, and more than a frame takes.
    assert_eq!(
        decode_client_cmd(&[0x04, 1, 0, 0, 0, 0]),
        Err(DecodeError::Invalid)
    );
    assert_eq!(
        decode_client_cmd(&[0x04, 1, 0, 0, 0, 101]),
        Err(DecodeError::Invalid)
    );
    // A string that claims more than 4096 bytes.
    assert_eq!(
        decode_server_evt(&[0x81, 0, 0, 0, 0, 0x01, 0x10]),
        Err(DecodeError::Invalid)
    );
    // A string that is no UTF-8.
    assert_eq!(
        decode_server_evt(&[0x81, 0, 0, 0, 0, 1, 0, 0xFF]),
        Err(DecodeError::Invalid)
    );
    // An error code that nobody assigned.
    let mut b = encode_server_evt(&ServerEvt::Error {
        code: ErrorCode::Auth,
        message: String::new(),
        track_uid: None,
        retry_after_ms: None,
    });
    b[1] = 7;
    assert_eq!(decode_server_evt(&b), Err(DecodeError::Invalid));
    assert_eq!(DecodeError::Invalid.message(), "invalid frame");
    assert_eq!(DecodeError::Truncated.message(), "truncated frame");
}

#[test]
fn long_payloads_are_cut() {
    let b = encode_client_cmd(&ClientCmd::Event {
        track_uid: String::new(),
        payload: vec![7; 5000],
        timestamp_ms: None,
    });
    match decode_client_cmd(&b).unwrap() {
        ClientCmd::Event {
            payload,
            timestamp_ms,
            ..
        } => {
            assert_eq!(payload, vec![7; 4096]);
            assert!(timestamp_ms.is_none());
        }
        other => panic!("{other:?}"),
    }
}

#[test]
fn filter_fields_stay_off_the_wire() {
    let bare = LatLng::new(55_000_000, 37_000_000);
    let local = LatLng {
        heading: Some(1),
        speed: Some(2),
        exact: Some(ExactFix {
            latitude: 3,
            longitude: 4,
            accuracy: None,
        }),
        ..bare
    };
    assert_eq!(
        encode_loc_frames(5, &[local, local]),
        encode_loc_frames(5, &[bare, bare])
    );
}

#[test]
fn location_frames_hold_a_hundred_points() {
    let points: Vec<LatLng> = (0..250).map(|i| LatLng::new(i, -i)).collect();
    let frames = encode_loc_frames(1000, &points);
    let sizes: Vec<u8> = frames.iter().map(|f| f[5]).collect();
    assert_eq!(sizes, vec![100, 100, 50]);
    let mut all = Vec::new();
    for frame in &frames {
        match decode_client_cmd(frame).unwrap() {
            ClientCmd::LocationBatch {
                client_seq, points, ..
            } => {
                all.extend(points);
                assert_eq!(client_seq, 750 + all.len() as u64);
            }
            other => panic!("{other:?}"),
        }
    }
    assert_eq!(all, points);
    assert!(encode_loc_frames(7, &[]).is_empty());
    assert!(micro_delta_fits(0, 0, 32_767, -32_768));
    assert!(!micro_delta_fits(0, 0, 32_768, 0));
    assert!(!micro_delta_fits(i32::MIN, 0, i32::MAX, 0));
}

#[test]
fn identifiers() {
    let bytes = hex::decode("00112233445566778899aabbccddeeff").unwrap();
    assert_eq!(uid_bytes(A), bytes);
    assert_eq!(uid_text(&bytes), A);
    assert_eq!(uid_bytes("00112233445566778899AABBCCDDEEFF"), bytes);
    assert_eq!(uid_bytes(&format!("{{{A}}}")), bytes);
    assert_eq!(uid_bytes(&format!("urn:uuid:{A}")), bytes);
    assert_eq!(uid_bytes(""), vec![0; 16]);
    assert_eq!(uid_bytes("00112233-4455-6677-8899-aabbccddeefg"), vec![0; 16]);
}

#[test]
fn times_are_stamped_and_stripped() {
    let p = LatLng::new(1, 2);
    let stamped = stamp_lat_lngs_at(vec![p, LatLng { timestamp_ms: Some(3), ..p }], 9);
    assert_eq!(stamped[0].timestamp_ms, Some(9));
    assert_eq!(stamped[1].timestamp_ms, Some(3));
    assert!(stamp_lat_lngs(vec![p])[0].timestamp_ms.unwrap() > 1_600_000_000_000);
    assert_eq!(strip_live_time(stamped[0]), p);
    assert_eq!(protocol_version(), PROTOCOL_VERSION);
    assert_eq!(SUBPROTOCOL, "tracking.v2");
}

#[test]
fn names_and_codes() {
    assert_eq!(ErrorCode::from_u8(0), None);
    assert_eq!(ErrorCode::from_u8(6), Some(ErrorCode::Unauthorized));
    assert_eq!(ErrorCode::from_u8(7), None);
    assert_eq!(ErrorCode::TrackNotFound.to_u8(), 2);
    assert_eq!(CommandAckStatus::from_u8(1), CommandAckStatus::Succeeded);
    assert_eq!(CommandAckStatus::from_u8(99), CommandAckStatus::Unspecified);
    for r in [
        FinishReason::ClientStop,
        FinishReason::Superseded,
        FinishReason::Idle,
    ] {
        assert_eq!(FinishReason::parse(r.as_str()), Some(r));
    }
    assert_eq!(FinishReason::ClientStop.as_str(), "client_stop");
    assert_eq!(FinishReason::parse("Idle"), None);
    assert!(is_fatal_resume_error(ErrorCode::Auth));
    assert!(!is_fatal_resume_error(ErrorCode::Unauthorized));
    assert!(is_retry_resume_error(ErrorCode::Fenced));
    assert!(!is_retry_resume_error(ErrorCode::Invalid));
    assert!(is_auth_error(ErrorCode::Unauthorized));
    assert!(!is_auth_error(ErrorCode::TryAgain));
}

#[test]
fn errors_from_events() {
    let e = error_from_evt(&ServerEvt::Error {
        code: ErrorCode::Fenced,
        message: "m".into(),
        track_uid: Some(A.into()),
        retry_after_ms: Some(4),
    });
    assert_eq!(e.code, ErrorCode::Fenced);
    assert_eq!(e.track_uid.as_deref(), Some(A));
    assert_eq!(e.retry_after_ms, Some(4));
    let e = error_from_evt(&ServerEvt::Ack { seq: 1 });
    assert_eq!(e.code, ErrorCode::Invalid);
    let e: Error = new_error(ErrorCode::TryAgain, "later");
    assert_eq!(e.describe(), "tracking: later (TryAgain)");
    assert_eq!(new_error(ErrorCode::Auth, "").describe(), "tracking: Auth");
}

#[test]
fn endpoints() {
    assert_eq!(normalize_endpoint("  host:1 ").as_deref(), Some("ws://host:1"));
    assert_eq!(normalize_endpoint("http://h").as_deref(), Some("http://h"));
    assert_eq!(normalize_endpoint(" \t"), None);
    assert_eq!(choose_scheme("http"), Ok(Some("ws")));
    assert_eq!(choose_scheme("https"), Ok(Some("wss")));
    assert_eq!(choose_scheme("wss"), Ok(None));
    assert_eq!(
        choose_scheme("ftp"),
        Err("tracking: unsupported scheme \"ftp\"".to_string())
    );
}

#[test]
fn websocket_addresses() {
    let cfg = |endpoint: &str, ws_path: &str| Config {
        endpoint: endpoint.into(),
        ws_path: ws_path.into(),
        device: Some(DeviceAuth {
            client_id: "a b".into(),
            client_secret: "&=".into(),
        }),
        listener: Some(ListenerAuth {
            access_token: "unused".into(),
        }),
        ..Default::default()
    };
    assert_eq!(
        build_ws_url(&cfg("http://h:9/old", "")).unwrap().as_str(),
        "ws://h:9/v2/ws?client-id=a+b&client-secret=%26%3D"
    );
    assert_eq!(
        build_ws_url(&cfg("h:9", "/own")).unwrap().as_str(),
        "ws://h:9/own?client-id=a+b&client-secret=%26%3D"
    );
    assert_eq!(
        build_ws_url(&cfg(" ", "")),
        Err("tracking: Endpoint is required".to_string())
    );
    assert_eq!(
        build_ws_url(&cfg("ftp://h", "")),
        Err("tracking: unsupported scheme \"ftp\"".to_string())
    );
    assert!(build_ws_url(&cfg("ws://", ""))
        .unwrap_err()
        .starts_with("tracking: bad endpoint: "));
    assert_eq!(DEFAULT_WS_PATH, "/v2/ws");
    for (endpoint, scheme) in [
        ("http://h", "ws"),
        ("https://h", "wss"),
        ("ws://h", "ws"),
        ("wss://h", "wss"),
        ("h", "ws"),
    ] {
        assert_eq!(build_ws_url(&cfg(endpoint, "")).unwrap().scheme(), scheme);
    }
    let own = build_ws_url(&cfg("https://h:443/x?a=1#f", "")).unwrap();
    assert_eq!(
        own.as_str(),
        "wss://h/v2/ws?a=1&client-id=a+b&client-secret=%26%3D#f"
    );
    let none = Config {
        endpoint: "wss://h".into(),
        ..Default::default()
    };
    assert!(try_build_ws_url(&none)
        .unwrap()
        .unwrap()
        .as_str()
        .starts_with("wss://h/v2/ws"));
}
