//! What each step of a session does: what it answers, what it sends, what it changes and what it
//! leaves alone.

use crate::clock::Nanos;
use crate::tracking::client;
use crate::tracking::cmd::{ClientCmdView, ServerEvtView};
use crate::tracking::codec;
use crate::tracking::config::{ConfigView, ConnectionState};
use crate::tracking::errors;
use crate::tracking::errors::ErrorView;
use crate::tracking::filter;
use crate::tracking::filter::Geometry;
use crate::tracking::queue::{QueueView, QueuedPoint};
use crate::tracking::session::{ActionView, AfterCloseView, ClientView, Moment};
use crate::tracking::subs;
use crate::tracking::types::{ErrorCode, LatLng};
use vstd::prelude::*;

verus! {

/// Whether frames can be written.
pub open spec fn writable(s: ClientView) -> bool {
    s.socket && s.writer && !(s.state == ConnectionState::Closed && s.intentional)
}

/// Whether the actions are exactly one frame with `cmd`.
pub open spec fn only_sends(out: Seq<ActionView>, cmd: ClientCmdView) -> bool {
    out.len() == 1 && out[0] == ActionView::Send(codec::client_frame(cmd))
}

/// The capture time of a sample: its own, else the moment of the call.
pub open spec fn captured(point: LatLng, at: Moment) -> i64 {
    match point.timestamp_ms {
        Some(t) => t,
        None => at.wall_ms,
    }
}

/// A frame can be written exactly while a socket is there that takes frames and the session is
/// not closed for good. A closed session says so; one without a socket may be tried again.
pub proof fn law_when_frames_can_be_written(s: ClientView, cmd: ClientCmdView)
    ensures
        s.gate() is Ok <==> writable(s),
        s.gate() matches Err(e) ==> e.code == (if s.state == ConnectionState::Closed
            && s.intentional {
            ErrorCode::Invalid
        } else {
            ErrorCode::TryAgain
        }) && e.track_uid is None && e.retry_after_ms is None,
        writable(s) ==> (s.command(cmd) matches Ok(out) && only_sends(out, cmd)),
        !writable(s) ==> s.command(cmd) is Err,
{
}

// ---------------------------------------------------------------------------------------------
// Publishing.
// ---------------------------------------------------------------------------------------------

/// A sample on a track is taken no sooner than the last one allows, and the next one 20 ms after
/// it; one that comes too soon is turned away and changes nothing. The filter sees it with its
/// capture time, and what the filter holds back is accepted without a number of its own.
pub proof fn law_publish_is_paced_and_filtered(
    s: ClientView,
    point: LatLng,
    at: Moment,
    g: Geometry,
    straight: Seq<bool>,
)
    requires
        s.track_uid.len() > 0 || s.starting,
        at.instant <= u128::MAX - 1_000_000_000,
    ensures
        ({
            let (t, answer, out) = s.published(point, at, g, straight);
            let now = captured(point, at);
            let p = LatLng { timestamp_ms: Some(now), ..point };
            let f = s.filter.after(p, now, g);
            &&& at.instant < s.next_publish_at ==> t == s && answer == (s.last_assigned_seq, false)
                && out.len() == 0
            &&& at.instant >= s.next_publish_at ==> answer.1 && t.next_publish_at == at.instant
                + 20_000_000 && t.filter == f.0
            &&& at.instant >= s.next_publish_at && f.1 is None ==> answer.0 == s.last_assigned_seq
                && out.len() == 0 && t.queue == s.queue && t.last_assigned_seq
                == s.last_assigned_seq
            &&& t.track_uid == s.track_uid
            &&& t.starting == s.starting
            &&& t.session_ready == s.session_ready
            &&& t.last_acked_seq == s.last_acked_seq
            &&& t.state == s.state && t.socket == s.socket && t.writer == s.writer
            &&& t.subscriptions == s.subscriptions
        }),
{
}

/// On an open track with fewer than eight frames without a receipt, a sample that the filter lets
/// through gets the next number, goes out alone under it without a time, and waits in the queue
/// for its receipt. Nothing else leaves the queue while there is room.
pub proof fn law_live_publish_sends_at_once(
    s: ClientView,
    point: LatLng,
    at: Moment,
    g: Geometry,
    straight: Seq<bool>,
)
    requires
        s.track_uid.len() > 0 || s.starting,
        at.instant >= s.next_publish_at,
        s.session_ready && s.state == ConnectionState::Open && s.socket,
        s.queue.sent_frame_seqs.len() < 8,
        ({
            let now = captured(point, at);
            s.filter.after(LatLng { timestamp_ms: Some(now), ..point }, now, g).1 is Some
        }),
    ensures
        ({
            let (t, answer, out) = s.published(point, at, g, straight);
            let p = LatLng { timestamp_ms: Some(captured(point, at)), ..point };
            let n = (s.last_assigned_seq + 1) % 0x1_0000_0000_0000_0000;
            &&& answer.0 == n && answer.1
            &&& t.last_assigned_seq == n
            &&& s.writer ==> only_sends(
                out,
                ClientCmdView::LocationAdd {
                    track_uid: Seq::empty(),
                    client_seq: answer.0,
                    point: LatLng { timestamp_ms: None, ..p },
                },
            )
            &&& !s.writer ==> out.len() == 0
            &&& t.queue.sent_frame_seqs == s.queue.sent_frame_seqs.push(answer.0)
            &&& s.queue.staging.len() + s.queue.inflight.len() < s.queue.max_size ==> {
                &&& t.queue.staging == s.queue.staging
                &&& t.queue.inflight.len() == s.queue.inflight.len() + 1
                &&& t.queue.inflight.last().seq == n
                &&& t.queue.inflight.last().point == p
                &&& t.queue.inflight.last().sent
                &&& forall|i: int|
                    0 <= i < s.queue.inflight.len() ==> (#[trigger] t.queue.inflight[i]).seq
                        == s.queue.inflight[i].seq && t.queue.inflight[i].point
                        == s.queue.inflight[i].point
            }
        }),
{
}

/// While a sample cannot go out, one that the filter lets through is staged behind the others and
/// answered with the number of its place. No number is used up and nothing is sent.
pub proof fn law_offline_publish_stages(
    s: ClientView,
    point: LatLng,
    at: Moment,
    g: Geometry,
    straight: Seq<bool>,
)
    requires
        s.track_uid.len() > 0 || s.starting,
        at.instant >= s.next_publish_at,
        !(s.session_ready && s.state == ConnectionState::Open && s.socket
            && s.queue.sent_frame_seqs.len() < 8),
        ({
            let now = captured(point, at);
            s.filter.after(LatLng { timestamp_ms: Some(now), ..point }, now, g).1 is Some
        }),
    ensures
        ({
            let (t, answer, out) = s.published(point, at, g, straight);
            let p = LatLng { timestamp_ms: Some(captured(point, at)), ..point };
            &&& answer.1
            &&& out.len() == 0
            &&& t.last_assigned_seq == s.last_assigned_seq
            &&& t.queue.sent_frame_seqs == s.queue.sent_frame_seqs
            &&& answer.0 == (s.last_assigned_seq + t.queue.staging.len())
                % 0x1_0000_0000_0000_0000
            &&& s.queue.staging.len() + s.queue.inflight.len() < s.queue.max_size
                ==> t.queue.staging == s.queue.staging.push(p) && t.queue.inflight
                == s.queue.inflight
        }),
{
}

/// A sample without a track starts one there: the start carries the sample with its capture time,
/// no route and no metadata; everything of an earlier trip is dropped, numbers begin anew and the
/// filter measures from the sample. Where nothing can be written the start is off again.
pub proof fn law_publish_without_a_track_starts_one(
    s: ClientView,
    point: LatLng,
    at: Moment,
    g: Geometry,
    straight: Seq<bool>,
)
    requires
        s.track_uid.len() == 0,
        !s.starting,
    ensures
        ({
            let (t, answer, out) = s.published(point, at, g, straight);
            let p = LatLng { timestamp_ms: Some(captured(point, at)), ..point };
            &&& answer == (0u64, writable(s))
            &&& t.starting == writable(s)
            &&& writable(s) ==> only_sends(
                out,
                ClientCmdView::TrackStart {
                    location: Some(p),
                    route: Seq::empty(),
                    metadata: Seq::empty(),
                },
            )
            &&& !writable(s) ==> out.len() == 0
            &&& t.queue.staging.len() == 0 && t.queue.inflight.len() == 0
                && t.queue.sent_frame_seqs.len() == 0 && t.queue.max_size == s.queue.max_size
            &&& t.last_assigned_seq == 0 && t.last_acked_seq == 0
            &&& !t.session_ready
            &&& t.filter.last_emitted == Some(p)
            &&& t.filter.candidate is None
            &&& t.filter.last_emit_at == Some(captured(point, at))
        }),
{
}

/// What gives way in a full queue, and only there: a staged point that lies on the way between its
/// neighbours, else the oldest staged one, else the oldest in flight. The new point is in, and the
/// queue is as full as before.
pub proof fn law_full_queue_gives_way(
    q: QueueView,
    point: LatLng,
    n: QueuedPoint,
    straight: Seq<bool>,
)
    requires
        q.max_size > 0,
        q.staging.len() + q.inflight.len() <= q.max_size,
    ensures
        ({
            let t = q.with_staged(point, straight);
            let all = q.staging.push(point);
            let room = q.staging.len() + q.inflight.len() < q.max_size;
            let flagged = exists|i: int|
                0 < i < all.len() - 1 && i < straight.len() && #[trigger] straight[i];
            &&& t.inflight == q.inflight && t.sent_frame_seqs == q.sent_frame_seqs && t.max_size
                == q.max_size
            &&& room ==> t.staging == all
            &&& !room ==> t.staging.len() == q.staging.len()
            &&& !room && !flagged ==> t.staging == all.skip(1)
            &&& !room && flagged ==> exists|i: int|
                0 < i < all.len() - 1 && i < straight.len() && #[trigger] straight[i] && (forall|
                    j: int,
                |
                    0 < j < i ==> !straight[j]) && t.staging == all.take(i) + all.skip(i + 1)
        }),
        ({
            let t = q.with_inflight(n, straight);
            let room = q.staging.len() + q.inflight.len() < q.max_size;
            &&& t.sent_frame_seqs == q.sent_frame_seqs && t.max_size == q.max_size
            &&& room ==> t.inflight == q.inflight.push(n) && t.staging == q.staging
            &&& !room && q.staging.len() > 0 ==> t.inflight == q.inflight.push(n)
                && t.staging.len() == q.staging.len() - 1
            &&& !room && q.staging.len() == 0 ==> t.inflight == q.inflight.skip(1).push(n)
                && t.staging.len() == 0
        }),
{
    let all = q.staging.push(point);
    filter::lemma_first_straight(straight, 1, all.len() as int);
    filter::lemma_first_straight(straight, 1, q.staging.len() as int);
    let k = filter::first_straight(straight, 1, all.len() as int);
    if k is Some {
        let i = k->0;
        assert(straight[i]);
        assert(all.remove(i) =~= all.take(i) + all.skip(i + 1));
    }
    if q.staging.len() == 0 && q.inflight.len() == q.max_size {
        assert(q.inflight.push(n).skip(1) =~= q.inflight.skip(1).push(n));
    }
}

// ---------------------------------------------------------------------------------------------
// Starting, stopping, resuming, events.
// ---------------------------------------------------------------------------------------------

/// A start asked for drops everything of an earlier trip, carries the given location, route and
/// metadata, each point with its capture time, and waits for its answer. Where nothing can be
/// written it fails and waits for nothing.
pub proof fn law_start_drops_the_trip_before(
    s: ClientView,
    location: Option<LatLng>,
    route: Seq<LatLng>,
    metadata: Seq<u8>,
    now: i64,
)
    ensures
        ({
            let (t, r) = s.start_track(location, route, metadata, now);
            let stamp = |p: LatLng|
                if p.timestamp_ms is Some {
                    p
                } else {
                    LatLng { timestamp_ms: Some(now), ..p }
                };
            let start = match location {
                Some(p) => Some(stamp(p)),
                None => None,
            };
            &&& t.queue.staging.len() == 0 && t.queue.inflight.len() == 0
                && t.queue.sent_frame_seqs.len() == 0 && t.queue.max_size == s.queue.max_size
            &&& t.last_assigned_seq == 0 && t.last_acked_seq == 0 && !t.session_ready
            &&& t.filter.last_emitted == start && t.filter.candidate is None
            &&& t.starting == writable(s) && t.start_wait == writable(s)
            &&& t.track_uid == s.track_uid && t.state == s.state && t.socket == s.socket
                && t.next_publish_at == s.next_publish_at
            &&& r is Ok <==> writable(s)
            &&& r matches Ok(out) ==> only_sends(
                out,
                ClientCmdView::TrackStart { location: start, route: route.map_values(stamp), metadata },
            )
        }),
{
    let stamp = |p: LatLng|
        if p.timestamp_ms is Some {
            p
        } else {
            LatLng { timestamp_ms: Some(now), ..p }
        };
    assert(codec::stamped_all(route, now) =~= route.map_values(stamp));
}

/// A resume by hand names the given track and number and takes them over; one after a reconnect
/// names the live track and the last number given out, and there is none without a track.
pub proof fn law_resume_names_track_and_number(s: ClientView, track_uid: Seq<char>, n: u64)
    ensures
        ({
            let (t, r) = s.resume(track_uid, n);
            &&& t.track_uid == track_uid && t.last_assigned_seq == n
            &&& t.queue == s.queue && t.last_acked_seq == s.last_acked_seq && t.session_ready
                == s.session_ready
            &&& t.resume_wait == writable(s)
            &&& r is Ok <==> writable(s)
            &&& r matches Ok(out) ==> only_sends(
                out,
                ClientCmdView::Resume { track_uid, last_client_seq: n },
            )
        }),
        ({
            let (t, r) = s.auto_resume();
            &&& t.track_uid == s.track_uid && t.last_assigned_seq == s.last_assigned_seq
                && t.queue == s.queue
            &&& s.track_uid.len() == 0 ==> t == s && r == Ok::<_, ErrorView>(
                None::<Seq<ActionView>>,
            )
            &&& s.track_uid.len() > 0 ==> t.resume_wait && (r is Ok <==> writable(s))
            &&& s.track_uid.len() > 0 && writable(s) ==> (r matches Ok(Some(out)) && only_sends(
                out,
                ClientCmdView::Resume {
                    track_uid: s.track_uid,
                    last_client_seq: s.last_assigned_seq,
                },
            ))
        }),
{
}

/// A stop is about the named track, else the live one, and does nothing without either. It waits
/// for its answer and leaves the track alone until then.
pub proof fn law_stop_names_its_track(s: ClientView, track_uid: Option<Seq<char>>)
    ensures
        ({
            let (t, r) = s.stop_track(track_uid);
            let named = track_uid matches Some(u) && u.len() > 0;
            let target = if named {
                track_uid->0
            } else {
                s.track_uid
            };
            &&& t.track_uid == s.track_uid && t.queue == s.queue && t.session_ready
                == s.session_ready
            &&& target.len() == 0 ==> t == s && r == Ok::<_, ErrorView>(None::<Seq<ActionView>>)
            &&& target.len() > 0 && !writable(s) ==> r is Err && !t.stop_wait
            &&& target.len() > 0 && writable(s) ==> t.stop_wait && (r matches Ok(Some(out))
                && only_sends(out, ClientCmdView::TrackStop { track_uid: target }))
        }),
{
}

/// An event goes out with its payload and the time of the call: at most 4 KiB, on a live track, at
/// most one a second. One that comes too soon is not accepted and changes nothing; one that finds
/// no open socket is accepted and not sent.
pub proof fn law_events_go_out_on_a_live_track(s: ClientView, payload: Seq<u8>, at: Moment)
    requires
        at.instant <= u128::MAX - 1_000_000_000,
    ensures
        ({
            let (t, r) = s.send_event(payload, at);
            let allowed = payload.len() <= 4096 && s.track_uid.len() > 0 && s.session_ready;
            &&& !allowed ==> t == s && (r matches Err(e) && e.code == ErrorCode::Invalid)
            &&& allowed && at.instant < s.next_event_at ==> t == s && (r matches Ok(a) && !a.0
                && a.1.len() == 0)
            &&& allowed && at.instant >= s.next_event_at ==> t.next_event_at == at.instant
                + 1_000_000_000 && t.queue == s.queue && t.last_assigned_seq
                == s.last_assigned_seq && t.next_publish_at == s.next_publish_at
            &&& allowed && at.instant >= s.next_event_at && s.state == ConnectionState::Open
                && s.socket ==> (r is Ok <==> s.writer) && (r matches Ok(a) ==> a.0 && only_sends(
                a.1,
                ClientCmdView::Event {
                    track_uid: Seq::empty(),
                    payload,
                    timestamp_ms: Some(at.wall_ms),
                },
            ))
            &&& allowed && at.instant >= s.next_event_at && !(s.state == ConnectionState::Open
                && s.socket) ==> (r matches Ok(a) && a.0 && a.1.len() == 0)
        }),
{
}

// ---------------------------------------------------------------------------------------------
// Listening.
// ---------------------------------------------------------------------------------------------

/// Subscribing wants a device, once, and asks the server for it with its events; it is wanted even
/// where the frame cannot be written. Unsubscribing no longer wants exactly that device, and tells
/// the server the handle that it gave for it, if it did. Other devices stay wanted, in order.
#[verifier::spinoff_prover]
#[verifier::rlimit(50)]
pub proof fn law_subscriptions_follow_the_calls(s: ClientView, d: Seq<char>, other: Seq<char>)
    requires
        s.subscriptions.no_duplicates(),
        other != d,
    ensures
        ({
            let (t, r) = s.subscribe(d);
            &&& t.subscriptions.contains(d)
            &&& t.subscriptions.no_duplicates()
            &&& t.subscriptions.contains(other) == s.subscriptions.contains(other)
            &&& t.subscriptions.take(s.subscriptions.len() as int) == s.subscriptions
            &&& t.sub_by_device == s.sub_by_device
            &&& r is Ok <==> writable(s)
            &&& r matches Ok(out) ==> only_sends(
                out,
                ClientCmdView::Subscribe {
                    device_uid: d,
                    include_events: true,
                    min_location_interval_ms: 0,
                },
            )
        }),
        ({
            let (t, r) = s.unsubscribe(d);
            &&& !t.subscriptions.contains(d)
            &&& t.subscriptions.no_duplicates()
            &&& t.subscriptions.contains(other) == s.subscriptions.contains(other)
            &&& !t.sub_by_device.contains_key(d)
            &&& s.sub_by_device.contains_key(other) ==> t.sub_by_device.contains_key(other)
                && t.sub_by_device[other] == s.sub_by_device[other]
            &&& !s.sub_by_device.contains_key(d) ==> (r matches Ok(out) && out.len() == 0)
            &&& s.sub_by_device.contains_key(d) ==> (r is Ok <==> writable(s)) && (
            r matches Ok(out) ==> only_sends(
                out,
                ClientCmdView::Unsubscribe { sub: s.sub_by_device[d] },
            ))
        }),
{
    let subs = s.subscriptions;
    let a = s.subscribe(d).0.subscriptions;
    assert(a.take(subs.len() as int) =~= subs);
    if !subs.contains(d) {
        assert(a[subs.len() as int] == d);
        if subs.contains(other) {
            let i = choose|i: int| 0 <= i < subs.len() && subs[i] == other;
            assert(a[i] == other);
        }
    }
    let b = s.unsubscribe(d).0.subscriptions;
    if subs.contains(d) {
        let k = subs.index_of(d);
        assert(subs[k] == d);
        assert forall|i: int| 0 <= i < b.len() implies b[i] != d by {
            if i < k {
                assert(b[i] == subs[i]);
            } else {
                assert(b[i] == subs[i + 1]);
            }
        }
        assert forall|i: int, j: int| 0 <= i < b.len() && 0 <= j < b.len() && i != j implies b[i]
            != b[j] by {
            let i1 = if i < k {
                i
            } else {
                i + 1
            };
            let j1 = if j < k {
                j
            } else {
                j + 1
            };
            assert(b[i] == subs[i1] && b[j] == subs[j1]);
        }
        if subs.contains(other) {
            let i = choose|i: int| 0 <= i < subs.len() && subs[i] == other;
            let i1 = if i < k {
                i
            } else {
                i - 1
            };
            assert(b[i1] == other);
        }
        if b.contains(other) {
            let i = choose|i: int| 0 <= i < b.len() && b[i] == other;
            let i1 = if i < k {
                i
            } else {
                i + 1
            };
            assert(subs[i1] == other);
        }
    }
}

/// After a reconnect every wanted device is asked for again, once each and in order, and handles
/// from before mean nothing any more.
pub proof fn law_reconnect_subscribes_again(s: ClientView)
    ensures
        ({
            let (t, out) = s.resubscribed();
            &&& t.subscriptions == s.subscriptions
            &&& forall|d: Seq<char>| !(#[trigger] t.sub_by_device.contains_key(d))
            &&& forall|h: u8| !(#[trigger] t.device_by_sub.contains_key(h))
            &&& writable(s) ==> out.len() == s.subscriptions.len() && forall|i: int|
                0 <= i < out.len() ==> (#[trigger] out[i]) == ActionView::Send(
                    codec::client_frame(
                        ClientCmdView::Subscribe {
                            device_uid: s.subscriptions[i],
                            include_events: true,
                            min_location_interval_ms: 0,
                        },
                    ),
                )
            &&& !writable(s) ==> out.len() == 0
            &&& t.queue == s.queue && t.track_uid == s.track_uid
        }),
{
}

/// An event of a device is handed on as it came; where it names no device it gets the name behind
/// its handle, and stays without one where the handle is unknown. Nothing else changes.
pub proof fn law_device_events_are_handed_on_under_their_name(
    s: ClientView,
    device_uid: Seq<char>,
    track_uid: Seq<char>,
    point: LatLng,
    client_seq: u64,
    payload: Seq<u8>,
    timestamp_ms: Option<i64>,
    online: bool,
    sub: u8,
)
    ensures
        ({
            let name = if device_uid.len() > 0 {
                device_uid
            } else if s.device_by_sub.contains_key(sub) {
                s.device_by_sub[sub]
            } else {
                Seq::empty()
            };
            let a = s.dispatched(
                ServerEvtView::LocationAdded { device_uid, track_uid, point, client_seq, sub },
            );
            let b = s.dispatched(
                ServerEvtView::EventAdded { device_uid, track_uid, payload, timestamp_ms, sub },
            );
            let c = s.dispatched(
                ServerEvtView::DevicePresence {
                    device_uid,
                    online,
                    last_seen_ms: timestamp_ms,
                    sub,
                },
            );
            &&& a.0 == s && b.0 == s && c.0 == s
            &&& a.1.len() == 1 && b.1.len() == 1 && c.1.len() == 1
            &&& a.1[0] == ActionView::Deliver(
                ServerEvtView::LocationAdded {
                    device_uid: name,
                    track_uid,
                    point,
                    client_seq,
                    sub,
                },
            )
            &&& b.1[0] == ActionView::Deliver(
                ServerEvtView::EventAdded {
                    device_uid: name,
                    track_uid,
                    payload,
                    timestamp_ms,
                    sub,
                },
            )
            &&& c.1[0] == ActionView::Deliver(
                ServerEvtView::DevicePresence {
                    device_uid: name,
                    online,
                    last_seen_ms: timestamp_ms,
                    sub,
                },
            )
        }),
{
}

/// The server's answer to a subscription ties its handle to the device both ways and is handed
/// on; other devices and handles keep theirs.
pub proof fn law_subscribed_ties_handle_and_device(
    s: ClientView,
    evt: ServerEvtView,
    d: Seq<char>,
    h: u8,
)
    requires
        evt is Subscribed,
    ensures
        ({
            let (t, out) = s.dispatched(evt);
            let device = evt->Subscribed_device_uid;
            let sub = evt->Subscribed_sub;
            &&& t.sub_by_device.contains_key(device) && t.sub_by_device[device] == sub
            &&& t.device_by_sub.contains_key(sub) && t.device_by_sub[sub] == device
            &&& d != device ==> t.sub_by_device.contains_key(d) == s.sub_by_device.contains_key(d)
                && (s.sub_by_device.contains_key(d) ==> t.sub_by_device[d] == s.sub_by_device[d])
            &&& h != sub ==> t.device_by_sub.contains_key(h) == s.device_by_sub.contains_key(h) && (
            s.device_by_sub.contains_key(h) ==> t.device_by_sub[h] == s.device_by_sub[h])
            &&& out.len() == 1 && out[0] == ActionView::Deliver(evt)
            &&& t.queue == s.queue && t.subscriptions == s.subscriptions && t.track_uid
                == s.track_uid
        }),
{
}

// ---------------------------------------------------------------------------------------------
// Other events from the server.
// ---------------------------------------------------------------------------------------------

/// A stopped track is gone with its points if it is the live one; another track's stop leaves
/// everything. Either way a pending stop is answered and the event handed on.
pub proof fn law_stopped_track_is_gone(s: ClientView, track_uid: Seq<char>)
    ensures
        ({
            let (t, out) = s.dispatched(ServerEvtView::TrackStopped { track_uid });
            &&& s.track_uid == track_uid ==> t.track_uid.len() == 0 && !t.session_ready
                && t.queue.staging.len() == 0 && t.queue.inflight.len() == 0
                && t.queue.sent_frame_seqs.len() == 0 && t.filter.last_emitted is None
                && t.filter.candidate is None
            &&& s.track_uid != track_uid ==> t.track_uid == s.track_uid && t.queue == s.queue
                && t.session_ready == s.session_ready && t.filter == s.filter
            &&& !t.stop_wait
            &&& t.last_assigned_seq == s.last_assigned_seq
            &&& out.len() == (if s.stop_wait {
                2int
            } else {
                1
            })
            &&& out.last() == ActionView::Deliver(ServerEvtView::TrackStopped { track_uid })
            &&& s.stop_wait ==> out[0] == ActionView::Stopped(Ok(()))
        }),
{
}

/// After an error no call is pending any more. It costs the track where the server does not know
/// it, or where a pending resume is refused for that or for auth; anything else keeps track and
/// points.
pub proof fn law_errors_cost_the_track_only_where_it_is_lost(
    s: ClientView,
    code: ErrorCode,
    message: Seq<char>,
    track_uid: Option<Seq<char>>,
    retry_after_ms: Option<u32>,
)
    ensures
        ({
            let evt = ServerEvtView::Error { code, message, track_uid, retry_after_ms };
            let (t, out) = s.dispatched(evt);
            let gone = code == ErrorCode::TrackNotFound || (s.resume_wait && code
                == ErrorCode::Auth);
            &&& gone ==> t.track_uid.len() == 0 && !t.session_ready && t.queue.staging.len() == 0
                && t.queue.inflight.len() == 0
            &&& !gone ==> t.track_uid == s.track_uid && t.session_ready == s.session_ready
                && t.queue == s.queue && t.filter == s.filter
            &&& !t.resume_wait && !t.start_wait && !t.stop_wait
            &&& t.starting == (s.starting && !s.start_wait && code != ErrorCode::TrackNotFound)
            &&& t.last_assigned_seq == s.last_assigned_seq && t.last_acked_seq == s.last_acked_seq
            &&& out.len() > 0 && out.last() == ActionView::Deliver(evt)
        }),
{
}

/// The answers that an error gives, in this order and no others: a pending resume, start and stop
/// each get the error itself, an auth error asks for fresh credentials, and the event is handed on.
pub proof fn law_errors_are_the_answer_to_pending_calls(
    s: ClientView,
    code: ErrorCode,
    message: Seq<char>,
    track_uid: Option<Seq<char>>,
    retry_after_ms: Option<u32>,
)
    ensures
        ({
            let evt = ServerEvtView::Error { code, message, track_uid, retry_after_ms };
            let e = ErrorView { code, message, track_uid, retry_after_ms };
            let out = s.dispatched(evt).1;
            let auth = code == ErrorCode::Auth || code == ErrorCode::Unauthorized;
            let a = if s.resume_wait {
                1int
            } else {
                0
            };
            let b = a + (if s.start_wait {
                1int
            } else {
                0
            });
            let c = b + (if s.stop_wait {
                1int
            } else {
                0
            });
            let d = c + (if auth {
                1int
            } else {
                0
            });
            &&& out.len() == d + 1
            &&& s.resume_wait ==> out[0] == ActionView::Resumed(Err(e))
            &&& s.start_wait ==> out[a] == ActionView::Started(Err(e))
            &&& s.stop_wait ==> out[b] == ActionView::Stopped(Err(e))
            &&& auth ==> out[c] == ActionView::RefreshAuth
            &&& out[d] == ActionView::Deliver(evt)
        }),
{
}

/// A greeting is handed on, a relocation asks for the move it names, and neither changes anything.
pub proof fn law_greetings_and_relocations_change_nothing(
    s: ClientView,
    version: u8,
    node_id: Seq<char>,
    shard: u32,
    endpoint: Seq<char>,
    retry_after_ms: u32,
)
    ensures
        ({
            let hello = ServerEvtView::Hello { version, node_id, shard };
            let a = s.dispatched(hello);
            let b = s.dispatched(ServerEvtView::Relocate { endpoint, retry_after_ms });
            &&& a.0 == s && a.1.len() == 1 && a.1[0] == ActionView::Deliver(hello)
            &&& b.0 == s && b.1.len() == 1 && b.1[0] == ActionView::Relocate {
                endpoint,
                retry_after_ms,
            }
        }),
{
}

// ---------------------------------------------------------------------------------------------
// Dialing, losing the socket, closing.
// ---------------------------------------------------------------------------------------------

/// A dial makes those before it void, ends readiness until the track is taken up again, and keeps
/// track, numbers and points. Only its own greeting opens the session, and not after a close; then
/// frames can be written and the wait before a reconnect starts over.
pub proof fn law_only_the_last_dial_opens(s: ClientView, gen: u64)
    requires
        s.dial_gen < u64::MAX,
    ensures
        ({
            let d = s.dialing();
            let (t, r) = d.opened(gen);
            &&& d.dial_gen == s.dial_gen + 1
            &&& !d.session_ready
            &&& d.state == (if s.state == ConnectionState::Open || s.state
                == ConnectionState::Reconnecting {
                ConnectionState::Reconnecting
            } else {
                ConnectionState::Connecting
            })
            &&& d.track_uid == s.track_uid && d.queue == s.queue && d.last_assigned_seq
                == s.last_assigned_seq && d.subscriptions == s.subscriptions && d.cfg == s.cfg
            &&& r is Ok <==> gen == s.dial_gen + 1 && !s.intentional
            &&& r is Err ==> t == d
            &&& r is Ok ==> t.socket && t.writer && t.state == ConnectionState::Open
                && t.backoff.attempt == 0 && t.backoff.min_delay == s.backoff.min_delay
                && t.backoff.max_delay == s.backoff.max_delay && t.backoff.max_attempts
                == s.backoff.max_attempts
            &&& t.track_uid == s.track_uid && t.queue == s.queue && t.last_assigned_seq
                == s.last_assigned_seq && t.subscriptions == s.subscriptions && t.cfg == s.cfg
                && !t.session_ready
        }),
{
}

/// What the loss of a socket costs: nothing of the trip. Every point in flight keeps its number and
/// place and counts as unsent, the window is empty, handles are void. A socket of an older dial
/// changes nothing at all.
pub proof fn law_lost_socket_keeps_every_point(s: ClientView, gen: u64, random: u64)
    ensures
        ({
            let (t, next) = s.socket_closed(gen, random);
            &&& gen != s.dial_gen ==> t == s && next is Ignore
            &&& gen == s.dial_gen ==> {
                &&& t.track_uid == s.track_uid
                &&& t.last_assigned_seq == s.last_assigned_seq
                &&& t.last_acked_seq == s.last_acked_seq
                &&& t.queue.staging == s.queue.staging
                &&& t.queue.max_size == s.queue.max_size
                &&& t.queue.inflight.len() == s.queue.inflight.len()
                &&& forall|i: int|
                    0 <= i < t.queue.inflight.len() ==> (#[trigger] t.queue.inflight[i]).seq
                        == s.queue.inflight[i].seq && t.queue.inflight[i].point
                        == s.queue.inflight[i].point && !t.queue.inflight[i].sent
                &&& t.queue.sent_frame_seqs.len() == 0
                &&& !t.socket && !t.session_ready
                &&& t.filter == s.filter
                &&& t.subscriptions == s.subscriptions
                &&& forall|d: Seq<char>| !(#[trigger] t.sub_by_device.contains_key(d))
                &&& forall|h: u8| !(#[trigger] t.device_by_sub.contains_key(h))
            }
        }),
{
}

/// What follows: after a close for good, without reconnects, or with all attempts used up the
/// session is closed; the latter two give up what is pending, as something to try again. Otherwise
/// it dials again after a wait, one attempt more, and resumes whenever a track is live.
#[verifier::spinoff_prover]
#[verifier::rlimit(50)]
pub proof fn law_what_follows_a_lost_socket(s: ClientView, random: u64)
    ensures
        ({
            let (t, next) = s.socket_closed(s.dial_gen, random);
            let used_up = s.backoff.max_attempts > 0 && s.backoff.attempt >= s.backoff.max_attempts;
            let again = !s.intentional && !s.cfg.disable_reconnect && !used_up;
            &&& again <==> next is Redial
            &&& !again <==> next is Ended
            &&& again ==> t.state == ConnectionState::Reconnecting
            &&& !again ==> t.state == ConnectionState::Closed
            &&& next matches AfterCloseView::Redial { send_resume, .. } ==> send_resume == (
            s.track_uid.len() > 0) && t.start_wait == s.start_wait && t.stop_wait == s.stop_wait
                && t.resume_wait == s.resume_wait && (s.backoff.attempt < u32::MAX
                ==> t.backoff.attempt == s.backoff.attempt + 1) && t.backoff.min_delay
                == s.backoff.min_delay && t.backoff.max_delay == s.backoff.max_delay
                && t.backoff.max_attempts == s.backoff.max_attempts
            &&& next matches AfterCloseView::Ended(out) ==> {
                &&& s.intentional ==> out.len() == 0
                &&& !s.intentional ==> !t.start_wait && !t.stop_wait && !t.resume_wait
                &&& !s.intentional ==> out.len() == (if s.start_wait {
                    1int
                } else {
                    0
                }) + (if s.stop_wait {
                    1int
                } else {
                    0
                }) + (if s.resume_wait {
                    1int
                } else {
                    0
                })
                &&& forall|i: int|
                    0 <= i < out.len() ==> match #[trigger] out[i] {
                        ActionView::Started(Err(e)) => s.start_wait && e.code
                            == ErrorCode::TryAgain,
                        ActionView::Stopped(Err(e)) => s.stop_wait && e.code == ErrorCode::TryAgain,
                        ActionView::Resumed(Err(e)) => s.resume_wait && e.code
                            == ErrorCode::TryAgain,
                        _ => false,
                    }
            }
        }),
{
}

/// A close is for good: it stops the live track, gives up what is pending, hangs up, and leaves
/// nothing that could be written to.
#[verifier::spinoff_prover]
#[verifier::rlimit(50)]
pub proof fn law_close_is_for_good(s: ClientView)
    ensures
        ({
            let (t, out) = s.closed();
            &&& t.intentional && t.state == ConnectionState::Closed && !t.socket
                && !t.session_ready
            &&& !t.start_wait && !t.stop_wait && !t.resume_wait
            &&& s.track_uid.len() > 0 && writable(s) <==> out.len() > 0 && out[0] is Send
            &&& s.track_uid.len() > 0 && writable(s) ==> out[0] == ActionView::Send(
                codec::client_frame(ClientCmdView::TrackStop { track_uid: s.track_uid }),
            )
            &&& s.socket <==> out.len() > 0 && out.last() is HangUp
            &&& forall|i: int|
                0 <= i < out.len() ==> match #[trigger] out[i] {
                    ActionView::Started(Err(e)) => s.start_wait && e.code == ErrorCode::Invalid,
                    ActionView::Stopped(Err(e)) => s.stop_wait && e.code == ErrorCode::Invalid,
                    ActionView::Resumed(Err(e)) => s.resume_wait && e.code == ErrorCode::Invalid,
                    ActionView::Send(_) => i == 0,
                    ActionView::HangUp => i == out.len() - 1,
                    _ => false,
                }
            &&& out.len() == (if s.track_uid.len() > 0 && writable(s) {
                1int
            } else {
                0
            }) + (if s.start_wait {
                1int
            } else {
                0
            }) + (if s.stop_wait {
                1int
            } else {
                0
            }) + (if s.resume_wait {
                1int
            } else {
                0
            }) + (if s.socket {
                1int
            } else {
                0
            })
        }),
{
}

/// A relocation with an endpoint changes the endpoint and nothing else; without one, nothing.
pub proof fn law_relocation_changes_the_endpoint_alone(s: ClientView, endpoint: Seq<char>)
    ensures
        ({
            let t = s.relocated(endpoint);
            &&& endpoint.len() > 0 ==> t.cfg.endpoint == endpoint
            &&& endpoint.len() == 0 ==> t == s
            &&& t == (ClientView {
                cfg: ConfigView { endpoint: t.cfg.endpoint, ..s.cfg },
                ..s
            })
        }),
{
}

/// Lost auth ends the session and hangs up. Fresh credentials replace the old ones, a listener
/// token before a device's; they void the dial, hang up, and keep the trip.
pub proof fn law_credentials_are_replaced_or_the_session_ends(
    s: ClientView,
    device: Option<(Seq<char>, Seq<char>)>,
    listener: Option<Seq<char>>,
)
    requires
        s.dial_gen < u64::MAX,
    ensures
        ({
            let (t, out) = s.auth_lost();
            &&& t.intentional && t.state == ConnectionState::Closed && !t.socket
            &&& out.len() == (if s.socket {
                1int
            } else {
                0
            })
            &&& s.socket ==> out[0] is HangUp
        }),
        ({
            let (t, out) = s.reauthorized(device, listener);
            &&& listener is Some ==> t.cfg.listener == listener && t.cfg.device is None
            &&& listener is None && device is Some ==> t.cfg.device == device && t.cfg.listener
                is None
            &&& listener is None && device is None ==> t.cfg == s.cfg
            &&& t.cfg.endpoint == s.cfg.endpoint && t.cfg.subscribe == s.cfg.subscribe
                && t.cfg.disable_reconnect == s.cfg.disable_reconnect
            &&& t.dial_gen == s.dial_gen + 1 && !t.session_ready && !t.socket
            &&& t.intentional == s.intentional && t.state == s.state
            &&& t.queue == s.queue && t.track_uid == s.track_uid && t.last_assigned_seq
                == s.last_assigned_seq && t.subscriptions == s.subscriptions
            &&& out.len() == (if s.socket {
                1int
            } else {
                0
            })
            &&& s.socket ==> out[0] is HangUp
        }),
{
}

// ---------------------------------------------------------------------------------------------
// Opening a session.
// ---------------------------------------------------------------------------------------------

/// A session needs an endpoint and a credential. It begins unconnected, without a track, with
/// nothing queued, room for 10,000 points unless told otherwise, reconnect waits of 500 ms to 30 s
/// unless told otherwise, and every wanted device once.
#[verifier::spinoff_prover]
#[verifier::rlimit(50)]
pub proof fn law_a_session_begins_empty(cfg: ConfigView, now: Nanos)
    ensures
        client::config_error(cfg) is None <==> cfg.endpoint.len() > 0 && (cfg.device is Some
            || cfg.listener is Some),
        client::config_error(cfg) matches Some(e) ==> e.code == ErrorCode::Invalid,
        ({
            let s = client::initial(cfg, now);
            &&& s.state == ConnectionState::Connecting && !s.intentional && !s.socket && !s.writer
                && !s.session_ready
            &&& s.track_uid.len() == 0 && !s.starting && s.last_assigned_seq == 0
                && s.last_acked_seq == 0
            &&& !s.start_wait && !s.stop_wait && !s.resume_wait
            &&& s.queue.staging.len() == 0 && s.queue.inflight.len() == 0
                && s.queue.sent_frame_seqs.len() == 0
            &&& s.queue.max_size == (if cfg.max_queue_size == 0 {
                10_000
            } else {
                cfg.max_queue_size as int
            })
            &&& s.filter.last_emitted is None && s.filter.candidate is None
            &&& s.backoff.attempt == 0 && s.backoff.max_attempts == cfg.reconnect_max_attempts
            &&& s.backoff.min_delay == (if cfg.reconnect_min_delay == 0 {
                500_000_000
            } else {
                cfg.reconnect_min_delay as int
            })
            &&& s.backoff.max_delay == (if cfg.reconnect_max_delay == 0 {
                30_000_000_000
            } else {
                cfg.reconnect_max_delay as int
            })
            &&& s.next_publish_at == now && s.next_event_at == now
            &&& s.cfg.hello_timeout == (if cfg.hello_timeout == 0 {
                10_000_000_000
            } else {
                cfg.hello_timeout as int
            })
            &&& s.cfg.endpoint == cfg.endpoint && s.cfg.device == cfg.device && s.cfg.listener
                == cfg.listener && s.cfg.ws_path == cfg.ws_path && s.cfg.disable_reconnect
                == cfg.disable_reconnect && s.cfg.refresh_auth == cfg.refresh_auth
            &&& forall|d: Seq<char>| #[trigger]
                s.subscriptions.contains(d) <==> cfg.subscribe.contains(d)
            &&& s.subscriptions.no_duplicates()
        }),
{
    lemma_distinct_ids(cfg.subscribe);
}

proof fn lemma_distinct_ids(ids: Seq<Seq<char>>)
    ensures
        subs::distinct(ids).no_duplicates(),
        forall|d: Seq<char>| #[trigger] subs::distinct(ids).contains(d) <==> ids.contains(d),
    decreases ids.len(),
{
    if ids.len() > 0 {
        let head = ids.drop_last();
        lemma_distinct_ids(head);
        let a = subs::distinct(head);
        let b = subs::distinct(ids);
        let last = ids.last();
        assert forall|d: Seq<char>| #[trigger] b.contains(d) <==> ids.contains(d) by {
            if b.contains(d) {
                let k = choose|k: int| 0 <= k < b.len() && b[k] == d;
                if k < a.len() {
                    assert(a[k] == d);
                    assert(a.contains(d));
                    let i = choose|i: int| 0 <= i < head.len() && head[i] == d;
                    assert(ids[i] == d);
                } else {
                    assert(ids[ids.len() - 1] == d);
                }
            }
            if ids.contains(d) {
                let i = choose|i: int| 0 <= i < ids.len() && ids[i] == d;
                if i < head.len() {
                    assert(head[i] == d);
                    assert(a.contains(d));
                    let k = choose|k: int| 0 <= k < a.len() && a[k] == d;
                    assert(b[k] == d);
                } else if !a.contains(d) {
                    assert(b[a.len() as int] == d);
                }
            }
        }
    }
}

/// Only a greeting of protocol version 2 opens a session; a relocation is followed as it stands;
/// the server's own error is passed on; anything else, or nothing, is no greeting.
pub proof fn law_only_a_hello_of_our_version_opens(evt: Option<ServerEvtView>)
    ensures
        client::greeting_of(evt) == Ok::<client::GreetingView, ErrorView>(client::GreetingView::Hello)
            <==> (evt matches Some(ServerEvtView::Hello { version, .. }) && version == 2),
        evt matches Some(ServerEvtView::Relocate { endpoint, retry_after_ms })
            ==> client::greeting_of(evt) == Ok::<client::GreetingView, ErrorView>(
            client::GreetingView::Relocate { endpoint, retry_after_ms },
        ),
        evt matches Some(ServerEvtView::Error { code, message, track_uid, retry_after_ms })
            ==> client::greeting_of(evt) == Err::<client::GreetingView, _>(
            ErrorView { code, message, track_uid, retry_after_ms },
        ),
        client::greeting_of(evt) is Ok <==> (evt matches Some(ServerEvtView::Hello { version, .. })
            && version == 2) || (evt matches Some(ServerEvtView::Relocate { .. })),
        !(evt matches Some(ServerEvtView::Error { .. })) ==> (client::greeting_of(evt) matches Err(
            e,
        ) ==> e.code == ErrorCode::Invalid),
{
}

/// What a dial comes to: the greeting in its first binary frame. A failure of the line or a missing
/// greeting is to be tried again, a bad request or anything but a greeting is not.
pub proof fn law_what_a_dial_comes_to(ev: client::DialEvent)
    ensures
        client::dial_outcome(ev) is Ok ==> ev is Binary,
        ev matches client::DialEvent::Binary(data) ==> match codec::parse_server(data@) {
            Ok(evt) => client::dial_outcome(ev) == client::greeting_of(evt),
            Err(_) => client::dial_outcome(ev) matches Err(e) && e.code == ErrorCode::Invalid,
        },
        ev is DialFailed || ev is Timeout || ev is Ended || ev is ReadFailed ==> (
        client::dial_outcome(ev) matches Err(e) && e.code == ErrorCode::TryAgain),
        ev is BadRequest || ev is Other ==> (client::dial_outcome(ev) matches Err(e) && e.code
            == ErrorCode::Invalid),
{
}

/// How long a refused resume waits: as long as the server says, never under 50 ms, and 200 ms where
/// it says nothing. Fencing and overload are waited out; a track that is unknown or not ours costs
/// the track; the two never meet.
pub proof fn law_refused_resumes_wait_as_told(ms: Option<u32>, code: ErrorCode)
    ensures
        ms is None ==> client::resume_wait_ms(ms) == 200,
        ms matches Some(n) ==> client::resume_wait_ms(ms) >= n && client::resume_wait_ms(ms) >= 50
            && (client::resume_wait_ms(ms) == n || client::resume_wait_ms(ms) == 50),
        errors::retry_resume(code) <==> code == ErrorCode::Fenced || code == ErrorCode::TryAgain,
        errors::fatal_resume(code) <==> code == ErrorCode::TrackNotFound || code == ErrorCode::Auth,
        errors::auth_related(code) <==> code == ErrorCode::Auth || code == ErrorCode::Unauthorized,
{
}

} // verus!
