use pickpoint::tracking::filter::{collapse_one_collinear, HEARTBEAT_MS};
use pickpoint::tracking::queue::DEFAULT_MAX_QUEUE;
use pickpoint::tracking::types::ExactFix;
use pickpoint::tracking::{
    can_accept_publish, new_backoff, next_delay, next_publish_allowed_at, Geometry, LatLng,
    NoiseFilter, OfflineQueue, JITTER_ONE, MAX_UNACKED_FRAMES, MIN_PUBLISH_INTERVAL,
};

const MIN_MOVE_M: f64 = 2.0;

/// A sample with its exact position.
fn sample(lat: f64, lon: f64, accuracy: f64, heading: f64, timestamp_ms: i64) -> LatLng {
    LatLng {
        latitude: (lat * 1e6).round() as i32,
        longitude: (lon * 1e6).round() as i32,
        accuracy: Some((accuracy * 100.0).round() as u16),
        heading: Some(heading.to_bits()),
        timestamp_ms: Some(timestamp_ms),
        exact: Some(ExactFix {
            latitude: lat.to_bits(),
            longitude: lon.to_bits(),
            accuracy: Some(accuracy.to_bits()),
        }),
        ..Default::default()
    }
}

fn position(p: &LatLng) -> (f64, f64) {
    let e = p.exact.unwrap();
    (f64::from_bits(e.latitude), f64::from_bits(e.longitude))
}

fn accuracy(p: &LatLng) -> f64 {
    f64::from_bits(p.exact.unwrap().accuracy.unwrap())
}

fn haversine_m(a: &LatLng, b: &LatLng) -> f64 {
    let ((alat, alon), (blat, blon)) = (position(a), position(b));
    let dlat = (blat - alat).to_radians();
    let dlon = (blon - alon).to_radians();
    let h = (dlat / 2.0).sin().powi(2)
        + alat.to_radians().cos() * blat.to_radians().cos() * (dlon / 2.0).sin().powi(2);
    2.0 * 6_371_000.0 * h.sqrt().asin()
}

fn project_m(origin: &LatLng, p: &LatLng) -> (f64, f64) {
    let ((olat, olon), (lat, lon)) = (position(origin), position(p));
    let x = (lon - olon) * 111_320.0 * olat.to_radians().cos();
    (x, (lat - olat) * 111_320.0)
}

fn perpendicular_m(a: &LatLng, b: &LatLng, p: &LatLng) -> f64 {
    let (dx, dy) = project_m(a, b);
    let (px, py) = project_m(a, p);
    let len2 = dx * dx + dy * dy;
    if len2 < 1e-6 {
        return haversine_m(a, p);
    }
    let t = (px * dx + py * dy) / len2;
    ((px - t * dx).powi(2) + (py - t * dy).powi(2)).sqrt()
}

/// What geometry says of a sample that comes next.
fn geometry(f: &NoiseFilter, current: &LatLng) -> Geometry {
    let mut g = quiet();
    let last = match f.last_emitted() {
        Some(last) => last,
        None => return g,
    };
    let acc = accuracy(current);
    g.moved = haversine_m(&last, current) >= MIN_MOVE_M.max(2.0 * acc);
    if let Some(cand) = f.candidate() {
        g.off_line = perpendicular_m(&last, current, &cand) >= MIN_MOVE_M.max(acc);
    }
    if let (Some(h0), Some(h1)) = (last.heading, current.heading) {
        let d = (f64::from_bits(h1) - f64::from_bits(h0)).rem_euclid(360.0);
        g.turned = d.min(360.0 - d) >= 25.0;
    }
    g
}

fn quiet() -> Geometry {
    Geometry {
        moved: false,
        off_line: false,
        turned: false,
        motion_changed: false,
    }
}

fn plain(n: i32) -> LatLng {
    LatLng::new(n, 0)
}

#[test]
fn filter_50hz_collinear_heartbeat() {
    let mut f = NoiseFilter::new();
    let mut emitted = 0;
    // 2 s of 50 Hz, ~0.05 m/step north, accuracy 5 m, so the move floor is 10 m.
    for i in 0..100 {
        let t = i * 20;
        let lat = 55.0 + (i as f64) * 0.05 / 111_320.0;
        let p = sample(lat, 37.0, 5.0, 0.0, t);
        let g = geometry(&f, &p);
        if f.push(p, g).is_some() {
            emitted += 1;
        }
    }
    assert!(
        (2..=4).contains(&emitted),
        "expected ~1 Hz heartbeat, got {emitted} emits from 100 samples"
    );
}

#[test]
fn filter_lets_a_turn_pass() {
    let mut f = NoiseFilter::new();
    let a = sample(55.0, 37.0, 5.0, 350.0, 0);
    assert_eq!(f.push_at(a, 0, geometry(&f, &a)), Some(a));
    let b = sample(55.0, 37.0, 5.0, 10.0, 20);
    assert_eq!(f.push_at(b, 20, geometry(&f, &b)), None);
    let c = sample(55.0, 37.0, 5.0, 20.0, 40);
    assert_eq!(f.push_at(c, 40, geometry(&f, &c)), Some(c));
}

#[test]
fn filter_decides_by_each_finding() {
    let all = Geometry {
        moved: false,
        off_line: true,
        turned: true,
        motion_changed: true,
    };
    let mut f = NoiseFilter::new();
    let bare = |t: i64| LatLng {
        timestamp_ms: Some(t),
        ..plain(1)
    };
    assert!(f.push(bare(0), quiet()).is_some());
    // Without headings, speeds and a candidate the findings say nothing.
    assert!(!f.should_emit(&bare(10), 10, all));
    assert!(f.push(bare(10), quiet()).is_none());
    assert!(f.should_emit(&bare(20), 20, all));
    assert!(f.should_emit(
        &bare(20),
        20,
        Geometry {
            moved: true,
            ..quiet()
        }
    ));
    assert!(!f.should_emit(&bare(999), HEARTBEAT_MS - 1, quiet()));
    assert!(f.should_emit(&bare(1000), HEARTBEAT_MS, quiet()));
    f.reset();
    assert!(f.last_emitted().is_none() && f.candidate().is_none());
    let fast = LatLng {
        speed: Some(3.0f64.to_bits()),
        ..bare(0)
    };
    f.seed(fast);
    assert!(f.should_emit(
        &fast,
        1,
        Geometry {
            motion_changed: true,
            ..quiet()
        }
    ));
    assert!(!f.should_emit(&fast, 1, quiet()));
}

#[test]
fn filter_stamps_samples_without_a_time() {
    let mut f = NoiseFilter::new();
    let out = f.push(plain(7), quiet()).unwrap();
    assert!(out.timestamp_ms.unwrap() > 1_600_000_000_000);
    assert_eq!(out.latitude, 7);
    let mut g = NoiseFilter::default();
    g.seed(plain(7));
    assert!(g.should_emit(&plain(7), 1000, quiet()));
    assert!(!g.should_emit(&plain(7), 999, quiet()));
}

#[test]
fn collinear_points_collapse_one_at_a_time() {
    let mut v = vec![plain(0), plain(1), plain(2), plain(3)];
    assert!(collapse_one_collinear(&mut v, &[false, false, true, true]));
    assert_eq!(v, vec![plain(0), plain(1), plain(3)]);
    assert!(!collapse_one_collinear(&mut v, &[true, false, true]));
    let mut two = vec![plain(0), plain(1)];
    assert!(!collapse_one_collinear(&mut two, &[true, true]));
}

#[test]
fn a_full_queue_gives_up_collinear_points_first() {
    let mut q = OfflineQueue::new(3);
    q.push_staging(plain(0), &[]);
    q.push_staging(plain(1), &[]);
    q.push_staging(plain(2), &[]);
    assert!(q.is_full());
    q.push_staging(plain(3), &[false, false, true, false]);
    assert_eq!(q.peek_staging(), vec![plain(0), plain(1), plain(3)]);
    q.push_staging(plain(4), &[false, false, false, false]);
    assert_eq!(q.peek_staging(), vec![plain(1), plain(3), plain(4)]);
    assert_eq!(q.size(), 3);
}

#[test]
fn numbers_are_assigned_in_order() {
    let mut q = OfflineQueue::new(0);
    assert_eq!(q.last_assigned_seq(), 0);
    for i in 0..4 {
        q.push_staging(plain(i), &[]);
    }
    let got = q.assign_from_staging(3, 10);
    let seqs: Vec<u64> = got.iter().map(|p| p.seq).collect();
    assert_eq!(seqs, vec![11, 12, 13]);
    assert_eq!(q.staging_len(), 1);
    assert_eq!(q.last_assigned_seq(), 13);
    assert_eq!(q.unsent_inflight().len(), 3);
    q.record_frame(12);
    assert_eq!(q.unsent_inflight().len(), 1);
    assert_eq!(q.window_remaining(), MAX_UNACKED_FRAMES - 1);
    q.mark_unsent();
    assert_eq!(q.unsent_inflight().len(), 3);
    assert_eq!(q.window_remaining(), MAX_UNACKED_FRAMES);
    assert_eq!(q.assign_from_staging(9, 13).len(), 1);
    q.push_inflight_unsent(15, plain(9), &[]);
    assert_eq!(q.peek_all().len(), 5);
    q.clear();
    assert_eq!(q.size(), 0);
    assert_eq!(DEFAULT_MAX_QUEUE, 10_000);
    assert!(!q.is_full());
}

#[test]
fn the_window_opens_with_receipts() {
    let mut q = OfflineQueue::default();
    for i in 0..MAX_UNACKED_FRAMES as u64 {
        assert!(!q.window_full());
        q.record_frame(i + 1);
    }
    assert!(q.window_full());
    assert_eq!(q.window_remaining(), 0);
    q.ack_through(3);
    assert_eq!(q.window_remaining(), 3);
}

#[test]
fn backoff_defaults_and_growth() {
    let b = new_backoff(0, 0, 0);
    assert_eq!(b.min_delay, 500_000_000);
    assert_eq!(b.max_delay, 30_000_000_000);
    let mut b = new_backoff(100_000_000, 300_000_000, 0);
    // The largest draw is just below one.
    let top = JITTER_ONE - 1;
    assert_eq!(next_delay(&mut b, top), Some(99_000_000));
    assert_eq!(next_delay(&mut b, top), Some(199_000_000));
    assert_eq!(next_delay(&mut b, top), Some(299_000_000));
    assert_eq!(next_delay(&mut b, top), Some(299_000_000));
    assert_eq!(next_delay(&mut b, JITTER_ONE), Some(300_000_000));
    assert_eq!(next_delay(&mut b, u64::MAX), Some(300_000_000));
    assert_eq!(b.attempt, 6);
}

#[test]
fn publish_slots() {
    assert!(can_accept_publish(100, 100, 1));
    assert!(!can_accept_publish(100, 99, 1));
    assert!(can_accept_publish(100, 0, 0));
    assert_eq!(next_publish_allowed_at(500, 100, 2), 500 + 2 * MIN_PUBLISH_INTERVAL);
    assert_eq!(next_publish_allowed_at(100, 500, 1), 500 + MIN_PUBLISH_INTERVAL);
    assert_eq!(next_publish_allowed_at(100, 500, -3), 500);
}
