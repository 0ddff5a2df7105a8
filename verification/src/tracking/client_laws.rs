//! What holds of a session across its steps.

use crate::tracking::backoff;
use crate::tracking::client;
use crate::tracking::cmd::{ClientCmdView, ServerEvtView};
use crate::tracking::codec;
use crate::tracking::config::{ConfigView, ConnectionState};
use crate::tracking::errors;
use crate::tracking::errors::ErrorView;
use crate::tracking::filter::{FilterView, Geometry};
use crate::tracking::points;
use crate::tracking::queue;
use crate::tracking::queue::{QueueView, QueuedPoint};
use crate::tracking::session;
use crate::tracking::session::{ActionView, AfterCloseView, ClientView, Moment, MIN_EVENT_INTERVAL};
use crate::tracking::subs;
use crate::tracking::types::{ErrorCode, LatLng};
use vstd::prelude::*;

verus! {

// ---------------------------------------------------------------------------------------------
// Flushing.
// ---------------------------------------------------------------------------------------------

proof fn lemma_recorded_in_order(q: QueueView, seq: u64)
    ensures
        queue::in_order(q.recorded(seq)) == queue::in_order(q),
        q.recorded(seq).size() == q.size(),
        q.recorded(seq).max_size == q.max_size,
{
    assert(queue::in_order(q.recorded(seq)) =~= queue::in_order(q));
}

proof fn lemma_record_all(q: QueueView, frames: Seq<Seq<u8>>)
    ensures
        queue::in_order(session::record_all(q, frames)) == queue::in_order(q),
        session::record_all(q, frames).sent_frame_seqs.len() == q.sent_frame_seqs.len()
            + frames.len(),
        session::record_all(q, frames).size() == q.size(),
        session::record_all(q, frames).max_size == q.max_size,
    decreases frames.len(),
{
    if frames.len() > 0 {
        lemma_record_all(q, frames.drop_last());
        lemma_recorded_in_order(
            session::record_all(q, frames.drop_last()),
            session::frame_seq(frames.last()),
        );
    }
}

/// What one flush round does to the queue.
pub proof fn lemma_flush_round(s: ClientView)
    requires
        s.flush_due(),
    ensures
        queue::in_order(s.flush_round().queue) == queue::in_order(s.queue),
        s.flush_round().queue.size() == s.queue.size(),
        s.flush_round().queue.max_size == s.queue.max_size,
        0 < s.flush_frames().len() <= s.queue.window_remaining(),
        s.flush_round().queue.window_remaining() == s.queue.window_remaining()
            - s.flush_frames().len(),
{
    let n = s.flush_take();
    if s.queue.inflight.filter(queue::unsent()).len() == 0 {
        queue::law_assigning_keeps_every_point(s.queue, n, s.last_assigned_seq);
    }
    lemma_record_all(s.flush_numbered().queue, s.flush_frames());
    let (pts, last_seq) = s.flush_points();
    points::law_loc_frames_cover_points(last_seq as int, pts);
    assert(points::loc_frames(last_seq as int, pts).len() > 0);
}

/// What flushing leaves alone: everything but the queue and the numbers.
pub open spec fn same_but_queue(a: ClientView, b: ClientView) -> bool {
    a == (ClientView { queue: a.queue, last_assigned_seq: a.last_assigned_seq, ..b })
}

/// Flushing loses no point and changes no order; it touches nothing but the queue and the
/// numbers; and it only sends frames.
pub proof fn law_flush_loses_nothing(s: ClientView)
    ensures
        queue::in_order(s.flushed().0.queue) == queue::in_order(s.queue),
        s.flushed().0.queue.size() == s.queue.size(),
        same_but_queue(s.flushed().0, s),
        forall|i: int| 0 <= i < s.flushed().1.len() ==> (#[trigger] s.flushed().1[i]) is Send,
    decreases s.queue.window_remaining(),
{
    if s.flush_due() {
        lemma_flush_round(s);
        let t = s.flush_round();
        if s.gate() is Ok {
            law_flush_loses_nothing(t);
            let now = session::sends(s.flush_frames());
            let more = t.flushed().1;
            assert forall|i: int| 0 <= i < s.flushed().1.len() implies (
            #[trigger] s.flushed().1[i]) is Send by {
                if i >= now.len() {
                    assert(s.flushed().1[i] == more[i - now.len()]);
                }
            }
        }
    }
}

/// Flushing goes on until the window is full or nothing is left to send.
pub proof fn law_flush_fills_the_window(s: ClientView)
    requires
        s.gate() is Ok,
    ensures
        !s.flushed().0.flush_due(),
    decreases s.queue.window_remaining(),
{
    if s.flush_due() {
        lemma_flush_round(s);
        law_flush_fills_the_window(s.flush_round());
    }
}

/// Flushing never has more frames on their way than the window takes.
pub proof fn law_flush_respects_the_window(s: ClientView)
    requires
        s.queue.sent_frame_seqs.len() <= queue::MAX_UNACKED_FRAMES,
    ensures
        s.flushed().0.queue.sent_frame_seqs.len() <= queue::MAX_UNACKED_FRAMES,
        s.flushed().1.len() <= s.queue.window_remaining(),
    decreases s.queue.window_remaining(),
{
    if s.flush_due() {
        lemma_flush_round(s);
        lemma_record_all(s.flush_numbered().queue, s.flush_frames());
        let t = s.flush_round();
        if s.gate() is Ok {
            law_flush_respects_the_window(t);
        }
    }
}

// ---------------------------------------------------------------------------------------------
// A dropped socket is not a new trip.
// ---------------------------------------------------------------------------------------------

/// A dropped socket is not a new trip: the track and every point without a receipt are kept, the
/// session dials again, and it asks for a resume whenever a track is live.
pub proof fn law_dropped_socket_keeps_the_trip(s: ClientView, random: u64)
    requires
        !s.intentional,
        !s.cfg.disable_reconnect,
        !backoff::exhausted(s.backoff),
    ensures
        ({
            let (t, next) = s.socket_closed(s.dial_gen, random);
            &&& next matches AfterCloseView::Redial { delay, send_resume }
            &&& send_resume == (s.track_uid.len() > 0)
            &&& delay == backoff::delay(s.backoff, random)
            &&& delay <= s.backoff.max_delay
            &&& t.state == ConnectionState::Reconnecting
            &&& t.track_uid == s.track_uid
            &&& t.last_assigned_seq == s.last_assigned_seq
            &&& queue::in_order(t.queue) == queue::in_order(s.queue)
            &&& t.queue.inflight.filter(queue::unsent()) == t.queue.inflight
            &&& t.subscriptions == s.subscriptions
        }),
{
    queue::law_mark_unsent_reopens_the_window(s.queue);
    backoff::law_delay_is_bounded(s.backoff, random);
}

/// After the reconnect the session resumes the same track, with the number it had reached, and
/// its devices are subscribed to again.
pub proof fn law_reconnect_resumes_the_same_track(s: ClientView)
    requires
        !s.intentional,
        s.track_uid.len() > 0,
    ensures
        ({
            let d = s.dialing();
            let o = d.opened(d.dial_gen);
            let r = o.0.auto_resume();
            &&& o.1 is Ok
            &&& o.0.state == ConnectionState::Open
            &&& r.1 == Ok::<_, ErrorView>(
                Some(
                    seq![
                        ActionView::Send(
                            codec::client_frame(
                                ClientCmdView::Resume {
                                    track_uid: s.track_uid,
                                    last_client_seq: s.last_assigned_seq,
                                },
                            ),
                        ),
                    ],
                ),
            )
            &&& r.0.resume_wait
            &&& r.0.track_uid == s.track_uid
            &&& r.0.resubscribed().1.len() == s.subscriptions.len()
        }),
{
}

/// Once the server takes the resume, everything behind its receipt goes out and nothing else is
/// lost: what was acknowledged leaves the queue, the rest stays in order.
pub proof fn law_resume_sends_the_rest(s: ClientView, track_uid: Seq<char>, acked: u64)
    requires
        s.state == ConnectionState::Open,
        s.socket && s.writer,
    ensures
        ({
            let (t, out) = s.on_resume_ok(track_uid, acked);
            &&& t.session_ready
            &&& t.last_acked_seq == acked
            &&& t.last_assigned_seq >= acked || t.queue.inflight.len() > 0
            &&& queue::in_order(t.queue) == queue::in_order(s.queue.acked(acked))
            &&& !t.flush_due()
            &&& !t.resume_wait
        }),
{
    let m = s.resumed(track_uid, acked);
    law_flush_loses_nothing(m);
    law_flush_fills_the_window(m);
    lemma_flush_numbers(m);
}

/// Flushing gives out new numbers only together with points in flight.
proof fn lemma_flush_numbers(s: ClientView)
    ensures
        s.flushed().0.last_assigned_seq == s.last_assigned_seq
            || s.flushed().0.queue.inflight.len() > 0,
        s.flushed().0.queue.inflight.len() >= s.queue.inflight.len(),
    decreases s.queue.window_remaining(),
{
    if s.flush_due() {
        lemma_flush_round(s);
        let t = s.flush_round();
        lemma_record_all_inflight(s.flush_numbered().queue, s.flush_frames());
        if s.gate() is Ok {
            lemma_flush_numbers(t);
        }
    }
}

proof fn lemma_record_all_inflight(q: QueueView, frames: Seq<Seq<u8>>)
    ensures
        session::record_all(q, frames).inflight.len() == q.inflight.len(),
    decreases frames.len(),
{
    if frames.len() > 0 {
        lemma_record_all_inflight(q, frames.drop_last());
    }
}

// ---------------------------------------------------------------------------------------------
// Publishing.
// ---------------------------------------------------------------------------------------------

/// The first publish starts the trip if none is live: the sample is the start location, and no
/// location goes out for it.
pub proof fn law_first_publish_starts_the_trip(
    s: ClientView,
    point: LatLng,
    at: Moment,
    g: Geometry,
    straight: Seq<bool>,
)
    requires
        s.idle(),
        s.gate() is Ok,
    ensures
        ({
            let (t, answer, out) = s.published(point, at, g, straight);
            &&& answer == (0u64, true)
            &&& t.starting
            &&& t.last_assigned_seq == 0
            &&& t.queue.size() == 0
            &&& out == seq![
                ActionView::Send(
                    codec::client_frame(
                        ClientCmdView::TrackStart {
                            location: Some(codec::stamped(point, at.wall_ms)),
                            route: Seq::empty(),
                            metadata: Seq::empty(),
                        },
                    ),
                ),
            ]
        }),
{
}

/// Whether the filter lets a sample through.
pub open spec fn lets_through(s: ClientView, point: LatLng, at: Moment, g: Geometry) -> bool {
    let p = codec::stamped(point, at.wall_ms);
    s.filter.must_emit(p, p.timestamp_ms->0, g)
}

/// Only one start is sent: while it is on its way, further samples are filtered and staged.
pub proof fn law_samples_are_staged_until_the_track_has_started(
    s: ClientView,
    point: LatLng,
    at: Moment,
    g: Geometry,
    straight: Seq<bool>,
)
    requires
        s.starting,
        !s.session_ready,
    ensures
        ({
            let (t, answer, out) = s.published(point, at, g, straight);
            &&& out.len() == 0
            &&& t.starting
            &&& t.last_assigned_seq == s.last_assigned_seq
            &&& answer.1 == (at.instant >= s.next_publish_at)
            &&& answer.0 == (if answer.1 && lets_through(s, point, at, g) {
                queue::seq_plus(s.last_assigned_seq, t.queue.staging.len() as int)
            } else {
                s.last_assigned_seq
            })
        }),
{
}

/// On a live track a sample that the filter lets through goes out at once, under the next number
/// and without a time, and waits for its receipt.
pub proof fn law_live_sample_goes_out(
    s: ClientView,
    point: LatLng,
    at: Moment,
    g: Geometry,
    straight: Seq<bool>,
)
    requires
        !s.idle(),
        s.live(),
        s.gate() is Ok,
        s.queue.wf(),
        s.queue.max_size > 0,
        at.instant >= s.next_publish_at,
        lets_through(s, point, at, g),
    ensures
        ({
            let (t, answer, out) = s.published(point, at, g, straight);
            let seq = queue::seq_plus(s.last_assigned_seq, 1);
            let p = codec::stamped(point, at.wall_ms);
            &&& answer == (seq, true)
            &&& t.last_assigned_seq == seq
            &&& t.queue.inflight.last() == (QueuedPoint { seq, point: p, sent: true })
            &&& t.queue.sent_frame_seqs == s.queue.sent_frame_seqs.push(seq)
            &&& out == seq![
                ActionView::Send(
                    codec::client_frame(
                        ClientCmdView::LocationAdd {
                            track_uid: Seq::empty(),
                            client_seq: seq,
                            point: LatLng { timestamp_ms: None, ..p },
                        },
                    ),
                ),
            ]
        }),
{
    let p = codec::stamped(point, at.wall_ms);
    let seq = queue::seq_plus(s.last_assigned_seq, 1);
    queue::law_inflight_keeps_newest(
        s.queue,
        QueuedPoint { seq, point: p, sent: true },
        straight,
    );
}

/// Whether a point goes out under a number: it waits for its receipt under it, or it is staged in
/// the place that will get it.
pub open spec fn goes_out_as(s: ClientView, seq: u64, point: LatLng) -> bool {
    ||| exists|k: int|
        0 <= k < s.queue.inflight.len() && (#[trigger] s.queue.inflight[k]).seq == seq
            && s.queue.inflight[k].point == point
    ||| exists|i: int|
        0 <= i < s.queue.staging.len() && #[trigger] s.queue.staging[i] == point && seq
            == queue::seq_plus(s.last_assigned_seq, i + 1)
}

proof fn lemma_seq_plus_twice(s: u64, a: int, b: int)
    requires
        0 <= a,
        0 <= b,
    ensures
        queue::seq_plus(queue::seq_plus(s, a), b) == queue::seq_plus(s, a + b),
{
    let m = 0x1_0000_0000_0000_0000int;
    vstd::arithmetic::div_mod::lemma_add_mod_noop(s + a, b, m);
    vstd::arithmetic::div_mod::lemma_add_mod_noop((s + a) % m, b, m);
    vstd::arithmetic::div_mod::lemma_mod_twice(s + a, m);
}

/// Frames that go out leave numbers and points as they are.
proof fn lemma_record_all_keeps(q: QueueView, frames: Seq<Seq<u8>>, k: int)
    requires
        0 <= k < q.inflight.len(),
    ensures
        session::record_all(q, frames).inflight.len() == q.inflight.len(),
        session::record_all(q, frames).inflight[k].seq == q.inflight[k].seq,
        session::record_all(q, frames).inflight[k].point == q.inflight[k].point,
        session::record_all(q, frames).staging == q.staging,
    decreases frames.len(),
{
    if frames.len() > 0 {
        lemma_record_all_keeps(q, frames.drop_last(), k);
    }
}

proof fn lemma_record_all_staging(q: QueueView, frames: Seq<Seq<u8>>)
    ensures
        session::record_all(q, frames).staging == q.staging,
    decreases frames.len(),
{
    if frames.len() > 0 {
        lemma_record_all_staging(q, frames.drop_last());
    }
}

/// A round of flushing gives a staged point the number of its place.
proof fn lemma_round_keeps_number(s: ClientView, seq: u64, point: LatLng)
    requires
        s.flush_due(),
        goes_out_as(s, seq, point),
    ensures
        goes_out_as(s.flush_round(), seq, point),
{
    let m = s.flush_numbered();
    let frames = s.flush_frames();
    let t = s.flush_round();
    lemma_record_all_staging(m.queue, frames);
    if exists|k: int|
        0 <= k < s.queue.inflight.len() && (#[trigger] s.queue.inflight[k]).seq == seq
            && s.queue.inflight[k].point == point {
        let k = choose|k: int|
            0 <= k < s.queue.inflight.len() && (#[trigger] s.queue.inflight[k]).seq == seq
                && s.queue.inflight[k].point == point;
        assert(m.queue.inflight[k] == s.queue.inflight[k]);
        lemma_record_all_keeps(m.queue, frames, k);
        assert(t.queue.inflight[k].seq == seq);
    } else {
        let i = choose|i: int|
            0 <= i < s.queue.staging.len() && #[trigger] s.queue.staging[i] == point && seq
                == queue::seq_plus(s.last_assigned_seq, i + 1);
        if s.queue.inflight.filter(queue::unsent()).len() > 0 {
            assert(t.queue.staging[i] == point);
        } else {
            let n = s.flush_take();
            if i < n {
                let k = s.queue.inflight.len() + i;
                assert(m.queue.inflight[k].seq == seq);
                assert(m.queue.inflight[k].point == point);
                lemma_record_all_keeps(m.queue, frames, k);
                assert(t.queue.inflight[k].seq == seq);
            } else {
                lemma_seq_plus_twice(s.last_assigned_seq, n, i - n + 1);
                assert(t.queue.staging[i - n] == point);
            }
        }
    }
}

/// Flushing keeps every number that a point has or is going to get.
pub proof fn law_flush_keeps_numbers(s: ClientView, seq: u64, point: LatLng)
    requires
        goes_out_as(s, seq, point),
    ensures
        goes_out_as(s.flushed().0, seq, point),
    decreases s.queue.window_remaining(),
{
    if s.flush_due() {
        lemma_flush_round(s);
        lemma_round_keeps_number(s, seq, point);
        if s.gate() is Ok {
            law_flush_keeps_numbers(s.flush_round(), seq, point);
        }
    }
}

/// With nothing left to flush and room in the window, every point waits for its receipt.
proof fn lemma_all_out(s: ClientView, seq: u64, point: LatLng)
    requires
        goes_out_as(s, seq, point),
        !s.flush_due(),
        s.session_ready && s.state == ConnectionState::Open && s.socket,
        !s.queue.window_full(),
    ensures
        s.queue.inflight.contains(QueuedPoint { seq, point, sent: true }),
{
    let unsent = s.queue.inflight.filter(queue::unsent());
    if unsent.len() == 0 {
        let n = s.flush_take();
        assert(s.queue.staging.take(n).len() == n);
        assert(s.queue.staging.len() == 0);
        let k = choose|k: int|
            0 <= k < s.queue.inflight.len() && (#[trigger] s.queue.inflight[k]).seq == seq
                && s.queue.inflight[k].point == point;
        if !s.queue.inflight[k].sent {
            s.queue.inflight.lemma_filter_contains(queue::unsent(), k);
        }
        assert(s.queue.inflight[k] == (QueuedPoint { seq, point, sent: true }));
    } else {
        assert(unsent.map_values(|p: QueuedPoint| p.point).len() > 0);
    }
}

/// The session after a reconnect whose resume the server took.
pub open spec fn reconnected(s: ClientView, track_uid: Seq<char>, acked: u64) -> (
    ClientView,
    Seq<ActionView>,
) {
    let d = s.dialing();
    d.opened(d.dial_gen).0.auto_resume().0.on_resume_ok(track_uid, acked)
}

/// A sample published while the session reconnects is answered with the number under which it
/// goes out once the server has taken the resume, provided that the queue had room for it. It
/// goes out at once unless the window is full.
pub proof fn law_staged_sample_keeps_its_number(
    s: ClientView,
    point: LatLng,
    at: Moment,
    g: Geometry,
    straight: Seq<bool>,
    track_uid: Seq<char>,
    acked: u64,
)
    requires
        s.track_uid.len() > 0,
        !s.intentional,
        !s.live(),
        at.instant >= s.next_publish_at,
        lets_through(s, point, at, g),
        s.queue.size() < s.queue.max_size,
        acked <= s.last_assigned_seq,
    ensures
        ({
            let (t, answer, out) = s.published(point, at, g, straight);
            let p = codec::stamped(point, at.wall_ms);
            let v = reconnected(t, track_uid, acked).0;
            &&& out.len() == 0
            &&& answer == (
                queue::seq_plus(s.last_assigned_seq, s.queue.staging.len() as int + 1),
                true,
            )
            &&& goes_out_as(v, answer.0, p)
            &&& v.queue.window_full() || v.queue.inflight.contains(
                QueuedPoint { seq: answer.0, point: p, sent: true },
            )
        }),
{
    let (t, answer, out) = s.published(point, at, g, straight);
    let p = codec::stamped(point, at.wall_ms);
    let d = t.dialing();
    let r = d.opened(d.dial_gen).0.auto_resume().0;
    let m = r.resumed(track_uid, acked);
    assert(m.queue.staging == s.queue.staging.push(p));
    assert(m.queue.staging[s.queue.staging.len() as int] == p);
    assert(m.last_assigned_seq == s.last_assigned_seq);
    law_flush_keeps_numbers(m, answer.0, p);
    law_flush_loses_nothing(m);
    law_flush_fills_the_window(m);
    let v = m.flushed().0;
    if !v.queue.window_full() {
        lemma_all_out(v, answer.0, p);
    }
}

/// The first sample of a trip that is published while the session reconnects goes out alone,
/// under the number it was answered with.
pub proof fn law_staged_sample_is_sent_after_the_resume(
    s: ClientView,
    point: LatLng,
    at: Moment,
    g: Geometry,
    straight: Seq<bool>,
    track_uid: Seq<char>,
    acked: u64,
)
    requires
        s.track_uid.len() > 0,
        !s.intentional,
        !s.live(),
        at.instant >= s.next_publish_at,
        lets_through(s, point, at, g),
        s.queue.size() == 0,
        s.queue.max_size > 0,
        s.queue.sent_frame_seqs.len() == 0,
        acked <= s.last_assigned_seq < u32::MAX,
    ensures
        ({
            let (t, answer, _) = s.published(point, at, g, straight);
            let p = codec::stamped(point, at.wall_ms);
            &&& answer == ((s.last_assigned_seq + 1) as u64, true)
            &&& reconnected(t, track_uid, acked).1 == seq![
                ActionView::Send(points::loc_frame(answer.0 as int, seq![p])),
                ActionView::Resumed(Ok(acked)),
            ]
        }),
{
    let (t, answer, _) = s.published(point, at, g, straight);
    let p = codec::stamped(point, at.wall_ms);
    let d = t.dialing();
    let r = d.opened(d.dial_gen).0.auto_resume().0;
    let m = r.resumed(track_uid, acked);
    let none = Seq::<QueuedPoint>::empty();
    reveal(Seq::filter);
    assert(s.queue.inflight =~= none);
    assert(m.queue.inflight =~= none);
    assert(m.queue.sent_frame_seqs =~= Seq::<u64>::empty());
    assert(m.queue.staging =~= seq![p]);
    assert(m.flush_take() == 1);
    assert(m.queue.staging.take(1) =~= seq![p]);
    let seq = answer.0;
    assert(seq == s.last_assigned_seq + 1);
    let frame = points::loc_frame(seq as int, seq![p]);
    let all = points::loc_frames(seq as int, seq![p]);
    assert(points::frame_end(seq![p], 0, 1) == 1);
    assert(seq![p].subrange(0, 1) =~= seq![p]);
    assert(points::loc_frames_from(seq as int, seq![p], 1) =~= Seq::<Seq<u8>>::empty());
    assert(all =~= seq![frame]);
    assert(m.flush_frames() == seq![frame]);
    client::lemma_frame_number(seq as int, seq![p]);
    let q = m.queue.assigned(1, m.last_assigned_seq);
    let n = m.flush_round();
    assert(seq![frame].drop_last() =~= Seq::<Seq<u8>>::empty());
    assert(session::record_all(q, Seq::<Seq<u8>>::empty()) == q);
    assert(session::record_all(q, seq![frame]) == q.recorded(session::frame_seq(frame)));
    assert(n.queue.inflight =~= seq![QueuedPoint { seq, point: p, sent: true }]);
    assert(n.queue.staging =~= Seq::<LatLng>::empty());
    assert(n.queue.inflight.drop_last() =~= none);
    assert(n.queue.inflight.filter(queue::unsent()) =~= none);
    assert(!n.flush_due());
    assert(session::sends(seq![frame]) =~= seq![ActionView::Send(frame)]);
    lemma_flush_round(m);
    assert(n.flushed() == (n, Seq::<ActionView>::empty()));
    assert(m.flush_due());
    assert(m.gate() is Ok);
    assert(m.flushed().1 =~= seq![ActionView::Send(frame)]);
}

/// Samples that come too fast are turned away and change nothing.
pub proof fn law_fast_samples_are_turned_away(
    s: ClientView,
    point: LatLng,
    at: Moment,
    g: Geometry,
    straight: Seq<bool>,
)
    requires
        !s.idle(),
        at.instant < s.next_publish_at,
    ensures
        s.published(point, at, g, straight) == (
            s,
            (s.last_assigned_seq, false),
            Seq::<ActionView>::empty(),
        ),
{
}

/// Of events, at most one a second is accepted.
pub proof fn law_events_keep_their_distance(
    s: ClientView,
    first: Seq<u8>,
    at: Moment,
    second: Seq<u8>,
    later: Moment,
)
    requires
        at.valid(),
        ({
            let r = s.send_event(first, at);
            r.1 is Ok && r.1->Ok_0.0
        }),
        ({
            let r = s.send_event(first, at).0.send_event(second, later);
            r.1 is Ok && r.1->Ok_0.0
        }),
    ensures
        later.instant - at.instant >= MIN_EVENT_INTERVAL,
{
}

// ---------------------------------------------------------------------------------------------
// Stopping and closing.
// ---------------------------------------------------------------------------------------------

/// Closing a session with a live track sends the stop first and hangs up last.
pub proof fn law_close_stops_then_hangs_up(s: ClientView)
    requires
        s.track_uid.len() > 0,
        s.gate() is Ok,
    ensures
        ({
            let out = s.closed().1;
            &&& out.len() >= 2
            &&& out[0] == ActionView::Send(
                codec::client_frame(ClientCmdView::TrackStop { track_uid: s.track_uid }),
            )
            &&& out.last() == ActionView::HangUp
        }),
{
}

/// After a close there is no dial and no resume: no dial opens, a lost socket ends the session,
/// nothing can be sent, and nothing that the server says changes that.
pub proof fn law_no_resume_after_close(s: ClientView, gen: u64, random: u64, evt: ServerEvtView)
    ensures
        ({
            let c = s.closed().0;
            &&& c.intentional
            &&& c.gate() is Err
            &&& c.opened(gen).1 is Err
            &&& !(c.socket_closed(gen, random).1 is Redial)
            &&& c.dispatched(evt).0.intentional
            &&& c.dispatched(evt).0.state == ConnectionState::Closed
        }),
{
    let c = s.closed().0;
    law_events_keep_the_connection(c, evt);
}

/// Events from the server change neither the settings nor whether the session is over, nor the
/// socket, nor the wanted devices.
pub proof fn law_events_keep_the_connection(s: ClientView, evt: ServerEvtView)
    ensures
        ({
            let t = s.dispatched(evt).0;
            &&& t.cfg == s.cfg
            &&& t.state == s.state
            &&& t.intentional == s.intentional
            &&& t.dial_gen == s.dial_gen
            &&& t.socket == s.socket
            &&& t.subscriptions == s.subscriptions
        }),
{
    match evt {
        ServerEvtView::ResumeOk { track_uid, last_acked_seq } => {
            law_flush_loses_nothing(s.resumed(track_uid, last_acked_seq));
        },
        ServerEvtView::TrackStarted { track_uid, .. } => {
            law_flush_loses_nothing(s.started(track_uid));
        },
        ServerEvtView::Ack { seq } => {
            law_flush_loses_nothing(s.receipted(seq));
        },
        _ => {},
    }
}

/// Stopping without a track does nothing.
pub proof fn law_idle_stop_is_a_no_op(s: ClientView)
    requires
        s.track_uid.len() == 0,
    ensures
        s.stop_track(None) == (s, Ok::<_, ErrorView>(None::<Seq<ActionView>>)),
        s.stop_track(Some(Seq::empty())) == (s, Ok::<_, ErrorView>(None::<Seq<ActionView>>)),
{
}

// ---------------------------------------------------------------------------------------------
// Events and errors.
// ---------------------------------------------------------------------------------------------

/// Receipts are for the session alone: they are never handed on, and they never take the highest
/// acknowledged number back.
pub proof fn law_receipts_stay_inside(s: ClientView, seq: u64)
    ensures
        ({
            let (t, out) = s.dispatched(ServerEvtView::Ack { seq });
            &&& t.last_acked_seq >= s.last_acked_seq
            &&& t.last_acked_seq >= seq
            &&& forall|i: int| 0 <= i < out.len() ==> (#[trigger] out[i]) is Send
        }),
{
    law_flush_loses_nothing(s.receipted(seq));
}

/// Commands reach the command receiver and nobody else.
pub proof fn law_commands_go_to_the_command_receiver(
    s: ClientView,
    command_id: Seq<char>,
    payload: Seq<u8>,
    timestamp_ms: Option<i64>,
)
    ensures
        s.dispatched(ServerEvtView::Command { command_id, payload, timestamp_ms }) == (
            s,
            seq![ActionView::DeliverCommand { command_id, payload, timestamp_ms }],
        ),
{
}

/// A track that the server does not know is forgotten, so that the next publish starts a new one.
pub proof fn law_unknown_track_lets_publish_start_anew(s: ClientView, evt: ServerEvtView)
    requires
        evt matches ServerEvtView::Error { code, .. } && code == ErrorCode::TrackNotFound,
    ensures
        s.dispatched(evt).0.idle(),
        s.dispatched(evt).0.queue.size() == 0,
        !s.dispatched(evt).0.session_ready,
{
}

/// Fencing and overload do not cost the track: a pending resume is answered with the error, to be
/// tried again.
pub proof fn law_retryable_resume_keeps_the_track(s: ClientView, evt: ServerEvtView)
    requires
        s.resume_wait,
        evt matches ServerEvtView::Error { code, .. } && errors::retry_resume(code),
    ensures
        ({
            let (t, out) = s.dispatched(evt);
            &&& t.track_uid == s.track_uid
            &&& t.queue == s.queue
            &&& out.len() > 0
            &&& out[0] == ActionView::Resumed(Err(errors::event_error(evt)))
        }),
{
}

/// A fatal error on a resume takes the track and its points.
pub proof fn law_fatal_resume_drops_the_track(s: ClientView, evt: ServerEvtView)
    requires
        s.resume_wait,
        evt matches ServerEvtView::Error { code, .. } && errors::fatal_resume(code),
    ensures
        s.dispatched(evt).0.track_uid.len() == 0,
        s.dispatched(evt).0.queue.size() == 0,
        s.dispatched(evt).0.filter == FilterView::fresh(),
{
}

/// An auth error asks for fresh credentials; where there are none to be had the session is over,
/// and with new ones the next dial uses exactly those.
pub proof fn law_auth_errors_refresh_or_end(
    s: ClientView,
    evt: ServerEvtView,
    device: (Seq<char>, Seq<char>),
    token: Seq<char>,
)
    requires
        evt matches ServerEvtView::Error { code, .. } && errors::auth_related(code),
    ensures
        s.dispatched(evt).1.contains(ActionView::RefreshAuth),
        s.auth_lost().0.intentional,
        s.auth_lost().0.state == ConnectionState::Closed,
        s.reauthorized(Some(device), None).0.cfg.device == Some(device),
        s.reauthorized(Some(device), None).0.cfg.listener is None,
        s.reauthorized(None, Some(token)).0.cfg.listener == Some(token),
        s.reauthorized(None, Some(token)).0.cfg.device is None,
{
    let out = s.dispatched(evt).1;
    assert(out[out.len() - 2] == ActionView::RefreshAuth);
}

/// Live events of a subscribed device name that device.
pub proof fn law_listener_events_name_their_device(
    s: ClientView,
    subscribed: ServerEvtView,
    device: Seq<char>,
    handle: u8,
    point: LatLng,
    client_seq: u64,
)
    requires
        subscribed matches ServerEvtView::Subscribed { sub, device_uid, .. } && sub == handle
            && device_uid == device,
    ensures
        ({
            let t = s.dispatched(subscribed).0;
            t.dispatched(
                ServerEvtView::LocationAdded {
                    device_uid: Seq::empty(),
                    track_uid: Seq::empty(),
                    point,
                    client_seq,
                    sub: handle,
                },
            ).1 == seq![
                ActionView::Deliver(
                    ServerEvtView::LocationAdded {
                        device_uid: device,
                        track_uid: Seq::empty(),
                        point,
                        client_seq,
                        sub: handle,
                    },
                ),
            ]
        }),
{
}

/// A superseding start drops everything of the trip before it and numbers from the beginning.
pub proof fn law_start_supersedes(
    s: ClientView,
    location: Option<LatLng>,
    route: Seq<LatLng>,
    metadata: Seq<u8>,
    now: i64,
    track_uid: Seq<char>,
)
    requires
        s.gate() is Ok,
    ensures
        ({
            let t = s.start_track(location, route, metadata, now).0;
            let (u, out) = t.on_track_started(track_uid);
            &&& t.queue.size() == 0
            &&& t.last_assigned_seq == 0
            &&& u.track_uid == track_uid
            &&& u.last_assigned_seq == 0
            &&& u.session_ready
            &&& out == seq![ActionView::Started(Ok(track_uid))]
        }),
{
    let t = s.start_track(location, route, metadata, now).0;
    let m = t.started(track_uid);
    reveal(Seq::filter);
    assert(m.queue.staging.take(m.flush_take()) =~= Seq::<LatLng>::empty());
    assert(!m.flush_due());
    assert(Seq::<ActionView>::empty() + seq![
        ActionView::Started(Ok::<Seq<char>, ErrorView>(track_uid)),
    ] =~= seq![ActionView::Started(Ok::<Seq<char>, ErrorView>(track_uid))]);
}

/// Every device asked for in the settings is subscribed to, once each, when a session opens.
pub proof fn law_configured_devices_are_subscribed(cfg: ConfigView, now: u128)
    ensures
        forall|i: int|
            0 <= i < cfg.subscribe.len() ==> client::initial(cfg, now).subscriptions.contains(
                #[trigger] cfg.subscribe[i],
            ),
        client::initial(cfg, now).subscriptions.no_duplicates(),
{
    lemma_distinct(cfg.subscribe);
}

proof fn lemma_distinct(ids: Seq<Seq<char>>)
    ensures
        subs::distinct(ids).no_duplicates(),
        forall|i: int| 0 <= i < ids.len() ==> subs::distinct(ids).contains(#[trigger] ids[i]),
    decreases ids.len(),
{
    if ids.len() > 0 {
        let head = ids.drop_last();
        lemma_distinct(head);
        let d = subs::distinct(head);
        let all = subs::distinct(ids);
        assert forall|i: int| 0 <= i < ids.len() implies all.contains(#[trigger] ids[i]) by {
            if i < head.len() {
                assert(d.contains(head[i]));
                let k = choose|k: int| 0 <= k < d.len() && d[k] == head[i];
                assert(all[k] == ids[i]);
            } else if !d.contains(ids.last()) {
                assert(all[d.len() as int] == ids.last());
            }
        }
    }
}

} // verus!
