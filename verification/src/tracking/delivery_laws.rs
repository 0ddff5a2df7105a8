//! Every sample is kept until its receipt: what happens to numbers, points and frames from the
//! moment a sample is taken in to the moment the server has it.

use crate::tracking::client;
use crate::tracking::client_laws;
use crate::tracking::cmd::ServerEvtView;
use crate::tracking::config::ConnectionState;
use crate::tracking::filter::Geometry;
use crate::tracking::points;
use crate::tracking::queue;
use crate::tracking::queue::{QueueView, QueuedPoint};
use crate::tracking::session;
use crate::tracking::session::{ActionView, ClientView, Moment};
use crate::tracking::types::LatLng;
use vstd::prelude::*;

verus! {

// ---------------------------------------------------------------------------------------------
// What flushing does to the points it holds.
// ---------------------------------------------------------------------------------------------

/// Whether `t` holds in flight the points of `kept`, each under its number and in order, and
/// behind them as many of the points of `staged` as were numbered behind `last`; the others wait.
pub open spec fn holds_on(
    t: ClientView,
    kept: Seq<QueuedPoint>,
    staged: Seq<LatLng>,
    last: u64,
) -> bool {
    let k = kept.len() as int;
    let m = t.queue.inflight.len() - k;
    &&& 0 <= m <= staged.len()
    &&& forall|i: int|
        0 <= i < k ==> (#[trigger] t.queue.inflight[i]).seq == kept[i].seq
            && t.queue.inflight[i].point == kept[i].point
    &&& forall|i: int|
        k <= i < k + m ==> (#[trigger] t.queue.inflight[i]).point == staged[i - k]
            && t.queue.inflight[i].seq == (last + (i - k) + 1) % 0x1_0000_0000_0000_0000
    &&& t.queue.staging == staged.skip(m)
    &&& t.last_assigned_seq == (last + m) % 0x1_0000_0000_0000_0000
}

proof fn lemma_record_all_same(q: QueueView, frames: Seq<Seq<u8>>)
    ensures
        session::record_all(q, frames).inflight.len() == q.inflight.len(),
        session::record_all(q, frames).staging == q.staging,
        session::record_all(q, frames).max_size == q.max_size,
        session::record_all(q, frames).sent_frame_seqs == q.sent_frame_seqs + frames.map_values(
            |f: Seq<u8>| session::frame_seq(f),
        ),
        forall|i: int|
            0 <= i < q.inflight.len() ==> (#[trigger] session::record_all(q, frames).inflight[i]).seq
                == q.inflight[i].seq && session::record_all(q, frames).inflight[i].point
                == q.inflight[i].point && (q.inflight[i].sent ==> session::record_all(
                q,
                frames,
            ).inflight[i].sent),
    decreases frames.len(),
{
    let f = |f: Seq<u8>| session::frame_seq(f);
    if frames.len() > 0 {
        lemma_record_all_same(q, frames.drop_last());
        assert(frames.map_values(f) =~= frames.drop_last().map_values(f).push(
            session::frame_seq(frames.last()),
        ));
        assert(session::record_all(q, frames).sent_frame_seqs =~= q.sent_frame_seqs
            + frames.map_values(f));
    } else {
        assert(q.sent_frame_seqs + frames.map_values(f) =~= q.sent_frame_seqs);
    }
}

/// Two stretches of numbering make one.
proof fn lemma_wrap(s: u64, a: int, b: int)
    requires
        0 <= a,
        0 <= b,
    ensures
        ((s + a) % 0x1_0000_0000_0000_0000 + b) % 0x1_0000_0000_0000_0000 == (s + a + b)
            % 0x1_0000_0000_0000_0000,
{
    vstd::arithmetic::div_mod::lemma_add_mod_noop(s + a, b, 0x1_0000_0000_0000_0000);
    vstd::arithmetic::div_mod::lemma_add_mod_noop(
        (s + a) % 0x1_0000_0000_0000_0000,
        b,
        0x1_0000_0000_0000_0000,
    );
    vstd::arithmetic::div_mod::lemma_mod_twice(s + a, 0x1_0000_0000_0000_0000);
}

proof fn lemma_round_holds_on(s: ClientView)
    requires
        s.flush_due(),
    ensures
        holds_on(s.flush_round(), s.queue.inflight, s.queue.staging, s.last_assigned_seq),
{
    let m = s.flush_numbered();
    lemma_record_all_same(m.queue, s.flush_frames());
    if s.queue.inflight.filter(queue::unsent()).len() > 0 {
        assert(s.queue.staging.skip(0) =~= s.queue.staging);
    }
}

/// Rounds of flushing add up.
proof fn lemma_holds_on_twice(
    a: ClientView,
    b: ClientView,
    kept: Seq<QueuedPoint>,
    staged: Seq<LatLng>,
    last: u64,
)
    requires
        holds_on(a, kept, staged, last),
        holds_on(b, a.queue.inflight, a.queue.staging, a.last_assigned_seq),
    ensures
        holds_on(b, kept, staged, last),
{
    let k = kept.len() as int;
    let m = a.queue.inflight.len() - k;
    let n = b.queue.inflight.len() - a.queue.inflight.len();
    assert(staged.skip(m).skip(n) =~= staged.skip(m + n));
    lemma_wrap(last, m, n);
    assert forall|i: int| 0 <= i < k implies (#[trigger] b.queue.inflight[i]).seq == kept[i].seq
        && b.queue.inflight[i].point == kept[i].point by {
        assert(a.queue.inflight[i].seq == kept[i].seq);
    }
    assert forall|i: int| k <= i < k + m + n implies (#[trigger] b.queue.inflight[i]).point
        == staged[i - k] && b.queue.inflight[i].seq == (last + (i - k) + 1)
        % 0x1_0000_0000_0000_0000 by {
        if i < k + m {
            assert(a.queue.inflight[i].point == staged[i - k]);
        } else {
            lemma_wrap(last, m, i - k - m + 1);
        }
    }
}

/// Flushing keeps every point and every number, and numbers what it takes from the staged points
/// one after the other.
pub proof fn law_flush_keeps_points_and_numbers(s: ClientView)
    ensures
        holds_on(s.flushed().0, s.queue.inflight, s.queue.staging, s.last_assigned_seq),
    decreases s.queue.window_remaining(),
{
    if s.flush_due() {
        let t = s.flush_round();
        lemma_round_holds_on(s);
        if s.gate() is Ok && t.queue.window_remaining() < s.queue.window_remaining() {
            law_flush_keeps_points_and_numbers(t);
            lemma_holds_on_twice(
                t,
                t.flushed().0,
                s.queue.inflight,
                s.queue.staging,
                s.last_assigned_seq,
            );
        }
    } else {
        assert(s.queue.staging.skip(0) =~= s.queue.staging);
    }
}

/// What flushing adds to the window: one entry for each frame sent, behind those that were there.
proof fn lemma_flush_window(s: ClientView)
    ensures
        ({
            let (t, out) = s.flushed();
            let n = s.queue.sent_frame_seqs.len();
            &&& t.queue.sent_frame_seqs.len() >= n
            &&& t.queue.sent_frame_seqs.take(n as int) == s.queue.sent_frame_seqs
            &&& s.gate() is Ok ==> t.queue.sent_frame_seqs.len() == n + out.len()
            &&& same_settings(t, s)
        }),
    decreases s.queue.window_remaining(),
{
    let n = s.queue.sent_frame_seqs.len() as int;
    if s.flush_due() {
        let t = s.flush_round();
        lemma_record_all_same(s.flush_numbered().queue, s.flush_frames());
        client_laws::lemma_flush_round(s);
        assert(t.queue.sent_frame_seqs.take(n) =~= s.queue.sent_frame_seqs);
        if s.gate() is Ok {
            lemma_flush_window(t);
            let u = t.flushed().0;
            let k = t.queue.sent_frame_seqs.len() as int;
            assert(u.queue.sent_frame_seqs.take(n) =~= u.queue.sent_frame_seqs.take(k).take(n));
        }
    } else {
        assert(s.queue.sent_frame_seqs.take(n) =~= s.queue.sent_frame_seqs);
    }
}

/// Everything but the queue and the numbers.
pub open spec fn same_settings(t: ClientView, s: ClientView) -> bool {
    &&& t.cfg == s.cfg
    &&& t.state == s.state
    &&& t.track_uid == s.track_uid
    &&& t.last_acked_seq == s.last_acked_seq
    &&& t.filter == s.filter
    &&& t.session_ready == s.session_ready
    &&& t.backoff == s.backoff
    &&& t.next_publish_at == s.next_publish_at
    &&& t.next_event_at == s.next_event_at
    &&& t.subscriptions == s.subscriptions
    &&& t.sub_by_device == s.sub_by_device
    &&& t.device_by_sub == s.device_by_sub
    &&& t.intentional == s.intentional
    &&& t.dial_gen == s.dial_gen
    &&& t.socket == s.socket
    &&& t.writer == s.writer
    &&& t.start_wait == s.start_wait
    &&& t.stop_wait == s.stop_wait
    &&& t.resume_wait == s.resume_wait
    &&& t.starting == s.starting
    &&& t.queue.max_size == s.queue.max_size
}

/// Whether the session is open for samples.
pub open spec fn takes_samples(s: ClientView) -> bool {
    s.session_ready && s.state == ConnectionState::Open && s.socket && s.writer
}

/// Whether nothing that could go out is left: every point in flight was sent and none is staged, or
/// eight frames are without a receipt.
pub open spec fn nothing_waits(q: QueueView) -> bool {
    ||| q.sent_frame_seqs.len() >= 8
    ||| q.staging.len() == 0 && forall|i: int|
        0 <= i < q.inflight.len() ==> (#[trigger] q.inflight[i]).sent
}

/// On an open session flushing leaves nothing that could go out.
pub proof fn law_flush_leaves_nothing_waiting(s: ClientView)
    requires
        takes_samples(s),
    ensures
        nothing_waits(s.flushed().0.queue),
{
    client_laws::law_flush_fills_the_window(s);
    lemma_flush_window(s);
    let u = s.flushed().0;
    let unsent = u.queue.inflight.filter(queue::unsent());
    if u.queue.sent_frame_seqs.len() < 8 {
        if unsent.len() > 0 {
            assert(unsent.map_values(|p: QueuedPoint| p.point).len() > 0);
        }
        assert(u.queue.staging.take(u.flush_take()).len() == u.flush_take());
        assert forall|i: int| 0 <= i < u.queue.inflight.len() implies (
        #[trigger] u.queue.inflight[i]).sent by {
            if !u.queue.inflight[i].sent {
                u.queue.inflight.lemma_filter_contains(queue::unsent(), i);
            }
        }
    }
}

// ---------------------------------------------------------------------------------------------
// Receipts.
// ---------------------------------------------------------------------------------------------

/// A receipt for number `n` takes exactly the points with a number up to `n` out of the queue:
/// every point behind it stays in flight under its number and in order, staged points move up
/// behind them or wait, and nothing is lost. The highest number with a receipt never goes back.
#[verifier::spinoff_prover]
#[verifier::rlimit(50)]
pub proof fn law_receipt_covers_exactly_its_number(s: ClientView, n: u64)
    ensures
        ({
            let (t, out) = s.dispatched(ServerEvtView::Ack { seq: n });
            let kept = s.queue.inflight.filter(|p: QueuedPoint| p.seq > n);
            &&& holds_on(t, kept, s.queue.staging, s.last_assigned_seq)
            &&& t.queue.inflight.map_values(|p: QueuedPoint| p.point) + t.queue.staging
                == kept.map_values(|p: QueuedPoint| p.point) + s.queue.staging
            &&& t.last_acked_seq == (if n > s.last_acked_seq {
                n
            } else {
                s.last_acked_seq
            })
            &&& t.queue.sent_frame_seqs.take(
                s.queue.sent_frame_seqs.filter(|f: u64| f > n).len() as int,
            ) == s.queue.sent_frame_seqs.filter(|f: u64| f > n)
            &&& s.socket && s.writer && !s.intentional ==> t.queue.sent_frame_seqs.len()
                == s.queue.sent_frame_seqs.filter(|f: u64| f > n).len() + out.len()
            &&& t.track_uid == s.track_uid
            &&& t.session_ready == s.session_ready
            &&& t.state == s.state
            &&& takes_samples(s) ==> nothing_waits(t.queue)
            &&& forall|i: int| 0 <= i < out.len() ==> (#[trigger] out[i]) is Send
        }),
        forall|i: int|
            0 <= i < s.queue.inflight.len() && (#[trigger] s.queue.inflight[i]).seq > n
                ==> exists|j: int|
                0 <= j < s.dispatched(ServerEvtView::Ack { seq: n }).0.queue.inflight.len() && (
                #[trigger] s.dispatched(ServerEvtView::Ack { seq: n }).0.queue.inflight[j]).seq
                    == s.queue.inflight[i].seq && s.dispatched(
                    ServerEvtView::Ack { seq: n },
                ).0.queue.inflight[j].point == s.queue.inflight[i].point,
{
    let above = |p: QueuedPoint| p.seq > n;
    let later = |f: u64| f > n;
    assert(queue::behind(n) =~= above);
    assert(queue::frames_behind(n) =~= later);
    let m = s.receipted(n);
    let kept = s.queue.inflight.filter(above);
    assert(m.queue.inflight == kept);
    assert(m.queue.sent_frame_seqs == s.queue.sent_frame_seqs.filter(later));
    law_flush_keeps_points_and_numbers(m);
    lemma_flush_window(m);
    client_laws::law_flush_loses_nothing(m);
    if takes_samples(s) {
        law_flush_leaves_nothing_waiting(m);
    }
    assert(m.gate() == s.gate());
    let t = m.flushed().0;
    lemma_in_order(t, kept, s.queue.staging, s.last_assigned_seq);
    assert forall|i: int|
        0 <= i < s.queue.inflight.len() && (#[trigger] s.queue.inflight[i]).seq
            > n implies exists|j: int|
        0 <= j < t.queue.inflight.len() && (#[trigger] t.queue.inflight[j]).seq
            == s.queue.inflight[i].seq && t.queue.inflight[j].point == s.queue.inflight[i].point by {
        s.queue.inflight.lemma_filter_contains(above, i);
        let j = choose|j: int| 0 <= j < kept.len() && kept[j] == s.queue.inflight[i];
        assert(t.queue.inflight[j].seq == kept[j].seq);
    }
}

proof fn lemma_in_order(t: ClientView, kept: Seq<QueuedPoint>, staged: Seq<LatLng>, last: u64)
    requires
        holds_on(t, kept, staged, last),
    ensures
        t.queue.inflight.map_values(|p: QueuedPoint| p.point) + t.queue.staging
            == kept.map_values(|p: QueuedPoint| p.point) + staged,
{
    let f = |p: QueuedPoint| p.point;
    let a = t.queue.inflight.map_values(f) + t.queue.staging;
    let b = kept.map_values(f) + staged;
    let k = kept.len() as int;
    assert(a.len() == b.len());
    assert forall|i: int| 0 <= i < a.len() implies a[i] == b[i] by {
        if i < k {
            assert(t.queue.inflight[i].point == kept[i].point);
        } else if i < t.queue.inflight.len() {
            assert(t.queue.inflight[i].point == staged[i - k]);
        }
    }
    assert(a =~= b);
}

/// A receipt that covers nothing in flight takes nothing away, and receipts add up: one for `a`
/// and then one for `b` leave in flight what one for the higher of both does.
pub proof fn law_receipts_add_up(q: QueueView, a: u64, b: u64)
    ensures
        q.acked(a).inflight == q.inflight.filter(|p: QueuedPoint| p.seq > a),
        q.acked(a).staging == q.staging,
        q.acked(a).max_size == q.max_size,
        a <= b ==> q.acked(a).acked(b) == q.acked(b),
        a <= b ==> q.acked(b).acked(a).inflight == q.acked(b).inflight,
{
    assert(queue::behind(a) =~= |p: QueuedPoint| p.seq > a);
    if a <= b {
        queue::law_acks_are_cumulative(q, a, b);
        assert forall|i: int| 0 <= i < q.acked(b).inflight.len() implies #[trigger] queue::behind(a)(
            q.acked(b).inflight[i],
        ) by {
            q.inflight.lemma_filter_pred(queue::behind(b), i);
        }
        queue::lemma_filter_all(q.acked(b).inflight, queue::behind(a));
    }
}

/// When the server takes a resume and names the last number it has, exactly the points up to it
/// leave the queue. The others stay under their numbers, new numbers continue behind the higher
/// of both sides' last ones, and the session is ready again.
pub proof fn law_resume_continues_behind_the_servers_number(
    s: ClientView,
    track_uid: Seq<char>,
    n: u64,
)
    ensures
        ({
            let (t, out) = s.dispatched(
                ServerEvtView::ResumeOk { track_uid, last_acked_seq: n },
            );
            let last = if s.last_assigned_seq < n {
                n
            } else {
                s.last_assigned_seq
            };
            &&& holds_on(
                t,
                s.queue.inflight.filter(|p: QueuedPoint| p.seq > n),
                s.queue.staging,
                last,
            )
            &&& t.last_acked_seq == n
            &&& t.session_ready
            &&& !t.resume_wait
            &&& t.track_uid == (if track_uid.len() > 0 {
                track_uid
            } else {
                s.track_uid
            })
            &&& t.state == s.state
            &&& s.state == ConnectionState::Open && s.socket && s.writer ==> nothing_waits(t.queue)
            &&& out.len() > 0
            &&& out.last() == ActionView::Deliver(
                ServerEvtView::ResumeOk { track_uid, last_acked_seq: n },
            )
            &&& s.resume_wait ==> out.contains(ActionView::Resumed(Ok(n)))
            &&& !s.resume_wait ==> forall|i: int|
                0 <= i < out.len() ==> !((#[trigger] out[i]) is Resumed)
        }),
{
    assert(queue::behind(n) =~= |p: QueuedPoint| p.seq > n);
    let m = s.resumed(track_uid, n);
    law_flush_keeps_points_and_numbers(m);
    lemma_flush_window(m);
    client_laws::law_flush_loses_nothing(m);
    if takes_samples(m) {
        law_flush_leaves_nothing_waiting(m);
    }
    let sent = m.flushed().1;
    let (t, out) = s.dispatched(ServerEvtView::ResumeOk { track_uid, last_acked_seq: n });
    if s.resume_wait {
        assert(out[sent.len() as int] == ActionView::Resumed(Ok(n)));
    } else {
        assert forall|i: int| 0 <= i < out.len() implies !((#[trigger] out[i]) is Resumed) by {
            if i < sent.len() {
                assert(out[i] == sent[i]);
            }
        }
    }
}

/// A track that has started numbers its samples from 1, in the order in which they were staged.
pub proof fn law_started_track_numbers_from_one(
    s: ClientView,
    track_uid: Seq<char>,
    metadata: Seq<u8>,
)
    requires
        s.queue.inflight.len() == 0,
    ensures
        ({
            let (t, out) = s.dispatched(ServerEvtView::TrackStarted { track_uid, metadata });
            &&& t.track_uid == track_uid
            &&& t.session_ready
            &&& !t.starting && !t.start_wait
            &&& t.last_acked_seq == 0
            &&& holds_on(t, Seq::empty(), s.queue.staging, 0)
            &&& s.state == ConnectionState::Open && s.socket && s.writer ==> nothing_waits(t.queue)
            &&& s.start_wait ==> out.contains(ActionView::Started(Ok(track_uid)))
            &&& out.len() > 0
            &&& out.last() == ActionView::Deliver(
                ServerEvtView::TrackStarted { track_uid, metadata },
            )
        }),
{
    let m = s.started(track_uid);
    law_flush_keeps_points_and_numbers(m);
    lemma_flush_window(m);
    if takes_samples(m) {
        law_flush_leaves_nothing_waiting(m);
    }
    let sent = m.flushed().1;
    let (t, out) = s.dispatched(ServerEvtView::TrackStarted { track_uid, metadata });
    if s.start_wait {
        assert(out[sent.len() as int] == ActionView::Started(Ok(track_uid)));
    }
}

// ---------------------------------------------------------------------------------------------
// What goes out.
// ---------------------------------------------------------------------------------------------

/// The points in flight carry consecutive numbers up to the last one given out, of which the
/// first `a` have been sent; and numbers still fit the wire.
pub open spec fn in_line(s: ClientView, a: int) -> bool {
    let n = s.queue.inflight.len() as int;
    &&& 0 <= a <= n
    &&& s.last_assigned_seq >= n
    &&& s.last_assigned_seq + s.queue.staging.len() <= u32::MAX
    &&& forall|i: int|
        0 <= i < n ==> (#[trigger] s.queue.inflight[i]).seq == s.last_assigned_seq - n + 1 + i
    &&& forall|i: int| 0 <= i < n ==> ((#[trigger] s.queue.inflight[i]).sent <==> i < a)
}

/// The points of a stretch of the queue.
pub open spec fn stretch(q: QueueView, from: int, to: int) -> Seq<LatLng> {
    q.inflight.subrange(from, to).map_values(|p: QueuedPoint| p.point)
}

/// The frames carry the points in flight from `cuts[0]` to `cuts.last()`, cut at `cuts`, each
/// under the number of its last point.
pub open spec fn carries(out: Seq<ActionView>, q: QueueView, cuts: Seq<int>) -> bool {
    &&& cuts.len() == out.len() + 1
    &&& 0 <= cuts[0]
    &&& cuts.last() <= q.inflight.len()
    &&& forall|i: int|
        0 <= i < out.len() ==> cuts[i] < cuts[i + 1] <= cuts.last() && (#[trigger] out[i])
            == ActionView::Send(
            points::loc_frame(
                q.inflight[cuts[i + 1] - 1].seq as int,
                stretch(q, cuts[i], cuts[i + 1]),
            ),
        )
}

/// Whether a point can stand behind another one in a frame: its step fits 16 bits each way.
pub open spec fn one_step(a: LatLng, b: LatLng) -> bool {
    -0x8000 <= b.latitude - a.latitude <= 0x7FFF && -0x8000 <= b.longitude - a.longitude <= 0x7FFF
}

/// Whether frame `i` is as long as it can be: a hundred points, or up to where the next one does
/// not fit or `stop` is.
pub open spec fn full(q: QueueView, cuts: Seq<int>, i: int, stop: int) -> bool {
    let from = cuts[i];
    let to = cuts[i + 1];
    &&& to - from <= 100
    &&& to - from == 100 || to == stop || (to < q.inflight.len() && !one_step(
        q.inflight[to - 1].point,
        q.inflight[to].point,
    ))
}

/// Behind the sent ones, all are unsent.
proof fn lemma_unsent_part(p: Seq<QueuedPoint>, a: int)
    requires
        0 <= a <= p.len(),
        forall|i: int| 0 <= i < p.len() ==> ((#[trigger] p[i]).sent <==> i < a),
    ensures
        p.filter(queue::unsent()) == p.skip(a),
    decreases p.len(),
{
    reveal(Seq::filter);
    if p.len() == 0 {
        assert(p.skip(a) =~= p);
    } else {
        let h = p.drop_last();
        if a < p.len() {
            assert forall|i: int| 0 <= i < h.len() implies ((#[trigger] h[i]).sent <==> i < a) by {
                assert(h[i] == p[i]);
            }
            lemma_unsent_part(h, a);
            assert(!p[p.len() - 1].sent);
            assert(h.skip(a).push(p.last()) =~= p.skip(a));
        } else {
            assert forall|i: int| 0 <= i < h.len() implies ((#[trigger] h[i]).sent <==> i < a
                - 1) by {
                assert(h[i] == p[i]);
            }
            lemma_unsent_part(h, a - 1);
            assert(p[p.len() - 1].sent);
            assert(h.skip(a - 1) =~= p.skip(a));
        }
    }
}

/// Recording frames marks the points up to the last of them.
proof fn lemma_record_marks(q: QueueView, first: int, a: int, frames: Seq<Seq<u8>>, ends: Seq<int>)
    requires
        0 <= a <= q.inflight.len(),
        forall|i: int| 0 <= i < q.inflight.len() ==> (#[trigger] q.inflight[i]).seq == first + i,
        forall|i: int| 0 <= i < q.inflight.len() ==> ((#[trigger] q.inflight[i]).sent <==> i < a),
        frames.len() == ends.len(),
        forall|k: int|
            0 <= k < frames.len() ==> session::frame_seq(#[trigger] frames[k]) == first + ends[k]
                - 1,
        forall|k: int| 0 <= k < ends.len() ==> a < (#[trigger] ends[k]) <= q.inflight.len(),
        forall|k: int| 0 < k < ends.len() ==> ends[k - 1] < #[trigger] ends[k],
    ensures
        forall|i: int|
            0 <= i < q.inflight.len() ==> ((#[trigger] session::record_all(
                q,
                frames,
            ).inflight[i]).sent <==> i < (if ends.len() > 0 {
                ends.last()
            } else {
                a
            })),
    decreases frames.len(),
{
    if frames.len() > 0 {
        let fh = frames.drop_last();
        let eh = ends.drop_last();
        assert forall|k: int| 0 <= k < fh.len() implies session::frame_seq(#[trigger] fh[k])
            == first + eh[k] - 1 by {
            assert(fh[k] == frames[k] && eh[k] == ends[k]);
        }
        assert forall|k: int| 0 <= k < eh.len() implies a < (#[trigger] eh[k])
            <= q.inflight.len() by {
            assert(eh[k] == ends[k]);
        }
        assert forall|k: int| 0 < k < eh.len() implies eh[k - 1] < #[trigger] eh[k] by {
            assert(eh[k] == ends[k] && eh[k - 1] == ends[k - 1]);
        }
        lemma_record_marks(q, first, a, fh, eh);
        lemma_record_all_same(q, fh);
        let h = session::record_all(q, fh);
        let n = frames.len() - 1;
        assert(session::frame_seq(frames[n]) == first + ends[n] - 1);
        assert(eh.len() > 0 ==> eh.last() == ends[n - 1] && ends[n - 1] < ends[n]);
        assert(a < ends[n]);
        assert forall|i: int| 0 <= i < q.inflight.len() implies ((#[trigger] session::record_all(
            q,
            frames,
        ).inflight[i]).sent <==> i < ends.last()) by {
            assert(h.inflight[i].seq == q.inflight[i].seq);
            assert(q.inflight[i].seq == first + i);
            assert(session::record_all(q, frames).inflight[i] == (if h.inflight[i].seq
                <= session::frame_seq(frames.last()) {
                QueuedPoint { sent: true, ..h.inflight[i] }
            } else {
                h.inflight[i]
            }));
        }
    }
}

/// What one round of flushing is about: the unsent points, now all numbered.
proof fn lemma_round_points(s: ClientView, a: int)
    requires
        in_line(s, a),
        s.flush_due(),
    ensures
        ({
            let m = s.flush_numbered();
            let n = m.queue.inflight.len() as int;
            &&& a < n
            &&& in_line(m, a)
            &&& s.flush_points().0 == stretch(m.queue, a, n)
            &&& s.flush_points().1 == m.last_assigned_seq
        }),
{
    let m = s.flush_numbered();
    let old_part = s.queue.inflight;
    let unsent = old_part.filter(queue::unsent());
    lemma_unsent_part(old_part, a);
    if unsent.len() > 0 {
        assert(s.flush_points().0 =~= stretch(m.queue, a, old_part.len() as int));
        assert(unsent.last() == old_part[old_part.len() - 1]);
    } else {
        let n = s.flush_take();
        assert(a == old_part.len());
        assert(s.flush_points().0 =~= stretch(m.queue, a, m.queue.inflight.len() as int));
    }
}

/// Where the frames for the points from `a` on end.
spec fn ends_from(a: int, ends: Seq<int>, nf: int) -> Seq<int> {
    Seq::new(nf as nat, |k: int| a + ends[k])
}

/// The first `nf` location frames for the points of a queue from `a` on.
#[verifier::spinoff_prover]
#[verifier::rlimit(50)]
proof fn lemma_frames_run(q: QueueView, first: int, a: int, pts: Seq<LatLng>, nf: int, k: int)
    requires
        0 <= a < q.inflight.len(),
        0 <= first,
        first + q.inflight.len() <= u32::MAX + 1,
        pts.len() == q.inflight.len() - a,
        0 <= k < nf <= points::frame_ends(pts, 0).len(),
    ensures
        ({
            let last = first + q.inflight.len() - 1;
            let ends = points::frame_ends(pts, 0);
            let abs = ends_from(a, ends, nf);
            let from = points::frame_start(ends, 0, k);
            let frame = points::loc_frames(last, pts)[k];
            &&& a < abs[k] <= q.inflight.len()
            &&& a + from < abs[k]
            &&& k > 0 ==> abs[k - 1] == a + from
            &&& k == 0 ==> from == 0
            &&& frame == points::loc_frame(first + abs[k] - 1, pts.subrange(from, ends[k]))
            &&& 0 <= from < ends[k] <= pts.len()
            &&& ends[k] - from <= 100
            &&& ends[k] < pts.len() ==> ends[k] - from == 100 || !one_step(
                pts[ends[k] - 1],
                pts[ends[k]],
            )
            &&& session::frame_seq(frame) == first + abs[k] - 1
        }),
{
    let last = first + q.inflight.len() - 1;
    let ends = points::frame_ends(pts, 0);
    let from = points::frame_start(ends, 0, k);
    points::lemma_frame_at(last, pts, k);
    client::lemma_frame_number(first + a + ends[k] - 1, pts.subrange(from, ends[k]));
    assert(last - pts.len() + ends[k] == first + a + ends[k] - 1);
}

/// A stretch of the queue holds the points of a frame.
proof fn lemma_stretch(q: QueueView, a: int, pts: Seq<LatLng>, from: int, to: int)
    requires
        0 <= a <= q.inflight.len(),
        pts == stretch(q, a, q.inflight.len() as int),
        0 <= from <= to <= pts.len(),
    ensures
        stretch(q, a + from, a + to) == pts.subrange(from, to),
{
    assert(stretch(q, a + from, a + to) =~= pts.subrange(from, to));
}

/// Where the frames for the points from `a` on begin and end.
spec fn cuts_from(a: int, pts: Seq<LatLng>, nf: int) -> Seq<int> {
    seq![a] + ends_from(a, points::frame_ends(pts, 0), nf)
}

/// What sending frames for the points of a queue from `a` on starts from.
spec fn ready(q: QueueView, first: int, a: int, pts: Seq<LatLng>, nf: int) -> bool {
    &&& 0 <= a < q.inflight.len()
    &&& 0 <= first
    &&& first + q.inflight.len() <= u32::MAX + 1
    &&& forall|i: int| 0 <= i < q.inflight.len() ==> (#[trigger] q.inflight[i]).seq == first + i
    &&& forall|i: int| 0 <= i < q.inflight.len() ==> ((#[trigger] q.inflight[i]).sent <==> i < a)
    &&& pts == stretch(q, a, q.inflight.len() as int)
    &&& 0 < nf <= points::frame_ends(pts, 0).len()
}

/// Sending the first `nf` frames marks the points in them.
#[verifier::spinoff_prover]
#[verifier::rlimit(50)]
proof fn lemma_frames_mark(q: QueueView, first: int, a: int, pts: Seq<LatLng>, nf: int)
    requires
        ready(q, first, a, pts, nf),
    ensures
        ({
            let frames = points::loc_frames(first + q.inflight.len() - 1, pts).take(nf);
            let r = session::record_all(q, frames);
            forall|i: int|
                0 <= i < q.inflight.len() ==> ((#[trigger] r.inflight[i]).sent <==> i < cuts_from(
                    a,
                    pts,
                    nf,
                ).last())
        }),
{
    let last = first + q.inflight.len() - 1;
    let frames = points::loc_frames(last, pts).take(nf);
    let ends = points::frame_ends(pts, 0);
    points::lemma_frames_end(last, pts);
    let abs = ends_from(a, ends, nf);
    assert forall|k: int| 0 <= k < frames.len() implies session::frame_seq(#[trigger] frames[k])
        == first + abs[k] - 1 by {
        lemma_frames_run(q, first, a, pts, nf, k);
    }
    assert forall|k: int| 0 <= k < abs.len() implies a < (#[trigger] abs[k])
        <= q.inflight.len() by {
        lemma_frames_run(q, first, a, pts, nf, k);
    }
    assert forall|k: int| 0 < k < abs.len() implies abs[k - 1] < #[trigger] abs[k] by {
        lemma_frames_run(q, first, a, pts, nf, k);
    }
    lemma_record_marks(q, first, a, frames, abs);
    assert(cuts_from(a, pts, nf).last() == abs.last());
}

/// Frame `i` carries its points.
proof fn lemma_frame_carries(q: QueueView, first: int, a: int, pts: Seq<LatLng>, nf: int, i: int)
    requires
        ready(q, first, a, pts, nf),
        0 <= i < nf,
    ensures
        ({
            let cuts = cuts_from(a, pts, nf);
            &&& cuts[i] < cuts[i + 1] <= q.inflight.len()
            &&& points::loc_frames(first + q.inflight.len() - 1, pts)[i] == points::loc_frame(
                q.inflight[cuts[i + 1] - 1].seq as int,
                stretch(q, cuts[i], cuts[i + 1]),
            )
        }),
{
    let ends = points::frame_ends(pts, 0);
    let abs = ends_from(a, ends, nf);
    let cuts = cuts_from(a, pts, nf);
    let from = points::frame_start(ends, 0, i);
    lemma_frames_run(q, first, a, pts, nf, i);
    assert(cuts[i + 1] == abs[i]);
    assert(cuts[i] == a + from);
    lemma_stretch(q, a, pts, from, ends[i]);
    assert(q.inflight[abs[i] - 1].seq == first + abs[i] - 1);
}

/// Cuts rise.
proof fn lemma_cuts_rise(q: QueueView, first: int, a: int, pts: Seq<LatLng>, nf: int, i: int)
    requires
        ready(q, first, a, pts, nf),
        0 <= i <= nf,
    ensures
        cuts_from(a, pts, nf)[i] <= cuts_from(a, pts, nf).last(),
    decreases nf - i,
{
    if i < nf {
        lemma_frame_carries(q, first, a, pts, nf, i);
        lemma_cuts_rise(q, first, a, pts, nf, i + 1);
    }
}

/// The first `nf` frames carry the points in them.
#[verifier::spinoff_prover]
#[verifier::rlimit(50)]
proof fn lemma_frames_carry(q: QueueView, first: int, a: int, pts: Seq<LatLng>, nf: int)
    requires
        ready(q, first, a, pts, nf),
    ensures
        carries(
            session::sends(points::loc_frames(first + q.inflight.len() - 1, pts).take(nf)),
            q,
            cuts_from(a, pts, nf),
        ),
{
    let last = first + q.inflight.len() - 1;
    points::lemma_frames_end(last, pts);
    let frames = points::loc_frames(last, pts).take(nf);
    let cuts = cuts_from(a, pts, nf);
    let out = session::sends(frames);
    assert forall|i: int| 0 <= i < out.len() implies cuts[i] < cuts[i + 1] <= cuts.last() && (
    #[trigger] out[i]) == ActionView::Send(
        points::loc_frame(
            q.inflight[cuts[i + 1] - 1].seq as int,
            stretch(q, cuts[i], cuts[i + 1]),
        ),
    ) by {
        lemma_frame_carries(q, first, a, pts, nf, i);
        lemma_cuts_rise(q, first, a, pts, nf, i + 1);
    }
    lemma_frame_carries(q, first, a, pts, nf, nf - 1);
}

/// The first `nf` frames are as long as they can be.
proof fn lemma_frames_full(q: QueueView, first: int, a: int, pts: Seq<LatLng>, nf: int)
    requires
        ready(q, first, a, pts, nf),
    ensures
        forall|i: int|
            0 <= i < nf ==> #[trigger] full(
                q,
                cuts_from(a, pts, nf),
                i,
                q.inflight.len() as int,
            ),
{
    let cuts = cuts_from(a, pts, nf);
    let ends = points::frame_ends(pts, 0);
    let abs = ends_from(a, ends, nf);
    assert forall|i: int| 0 <= i < nf implies #[trigger] full(
        q,
        cuts,
        i,
        q.inflight.len() as int,
    ) by {
        lemma_frames_run(q, first, a, pts, nf, i);
        let e = ends[i];
        assert(cuts[i + 1] == abs[i]);
        assert(cuts[i] == a + points::frame_start(ends, 0, i));
        if e < pts.len() {
            assert(pts[e - 1] == q.inflight[a + e - 1].point);
            assert(pts[e] == q.inflight[a + e].point);
        }
    }
}

/// Sending the first `nf` frames marks the points in them and carries them.
proof fn lemma_frames_sent(q: QueueView, first: int, a: int, pts: Seq<LatLng>, nf: int) -> (cuts:
    Seq<int>)
    requires
        ready(q, first, a, pts, nf),
    ensures
        ({
            let all = points::loc_frames(first + q.inflight.len() - 1, pts);
            let frames = all.take(nf);
            let r = session::record_all(q, frames);
            &&& cuts.len() == nf + 1
            &&& cuts[0] == a
            &&& carries(session::sends(frames), r, cuts)
            &&& forall|i: int|
                0 <= i < r.inflight.len() ==> ((#[trigger] r.inflight[i]).sent <==> i < cuts.last())
            &&& nf == all.len() ==> cuts.last() == q.inflight.len()
            &&& forall|i: int| 0 <= i < nf ==> #[trigger] full(q, cuts, i, q.inflight.len() as int)
        }),
{
    let last = first + q.inflight.len() - 1;
    let frames = points::loc_frames(last, pts).take(nf);
    let cuts = cuts_from(a, pts, nf);
    points::lemma_frames_end(last, pts);
    lemma_frames_mark(q, first, a, pts, nf);
    lemma_frames_carry(q, first, a, pts, nf);
    lemma_frames_full(q, first, a, pts, nf);
    lemma_record_all_same(q, frames);
    lemma_carries_on(session::sends(frames), q, session::record_all(q, frames), cuts);
    if nf == points::frame_ends(pts, 0).len() {
        assert(cuts.last() == a + points::frame_ends(pts, 0).last());
    }
    cuts
}

/// Where a round stops for want of points: at the end of the queue, where nothing is left to take
/// or nothing was taken.
spec fn round_stop(s: ClientView) -> int {
    let t = s.flush_round();
    if t.queue.staging.len() == 0 || t.queue.inflight.len() == s.queue.inflight.len() {
        t.queue.inflight.len() as int
    } else {
        -1
    }
}

/// One round of flushing sends the unsent points from the first on, and marks what it sent.
#[verifier::spinoff_prover]
#[verifier::rlimit(50)]
proof fn lemma_round_sends(s: ClientView, a: int) -> (cuts: Seq<int>)
    requires
        in_line(s, a),
        takes_samples(s),
        s.flush_due(),
    ensures
        cuts.len() == s.flush_frames().len() + 1,
        cuts[0] == a,
        carries(session::sends(s.flush_frames()), s.flush_round().queue, cuts),
        in_line(s.flush_round(), cuts.last()),
        takes_samples(s.flush_round()),
        cuts.last() == s.flush_round().queue.inflight.len()
            || s.flush_round().queue.window_remaining() == 0,
        forall|i: int|
            0 <= i < s.flush_frames().len() ==> #[trigger] full(
                s.flush_round().queue,
                cuts,
                i,
                round_stop(s),
            ),
{
    let m = s.flush_numbered();
    let q = m.queue;
    let n = q.inflight.len() as int;
    let first = m.last_assigned_seq - n + 1;
    lemma_round_points(s, a);
    let (pts, last) = s.flush_points();
    let all = points::loc_frames(last as int, pts);
    let nf = s.flush_frames().len() as int;
    client_laws::lemma_flush_round(s);
    assert(s.flush_frames() =~= all.take(nf));
    lemma_record_all_same(q, s.flush_frames());
    let t = s.flush_round();
    assert forall|i: int| 0 <= i < n implies (#[trigger] t.queue.inflight[i]).seq
        == t.last_assigned_seq - n + 1 + i by {
        assert(q.inflight[i].seq == first + i);
    }
    points::lemma_frames_end(last as int, pts);
    let cuts = lemma_frames_sent(q, first, a, pts, nf);
    assert(t.queue == session::record_all(q, all.take(nf)));
    assert(0 <= cuts.last() <= n) by {
        lemma_cuts_at_least(session::sends(s.flush_frames()), t.queue, cuts, nf);
    }
    let whole = t.queue.staging.len() == 0 || n == s.queue.inflight.len();
    let stop = round_stop(s);
    assert forall|i: int| 0 <= i < nf implies #[trigger] full(t.queue, cuts, i, stop) by {
        assert(full(q, cuts, i, n));
        let out = session::sends(s.flush_frames());
        lemma_cuts_at_least(out, t.queue, cuts, i);
        let o = out[i];
        let e = cuts[i + 1];
        if e < n {
            assert(t.queue.inflight[e - 1].point == q.inflight[e - 1].point);
            assert(t.queue.inflight[e].point == q.inflight[e].point);
        } else if !whole {
            lemma_cuts_at_most(q, cuts, i);
            lemma_staged_fill(s);
            lemma_last_cut(out, t.queue, cuts, i);
        }
    }
    cuts
}

/// A round that leaves staged points took as many as its frames can hold.
proof fn lemma_staged_fill(s: ClientView)
    requires
        s.flush_due(),
        s.flush_round().queue.staging.len() > 0,
        s.flush_round().queue.inflight.len() != s.queue.inflight.len(),
    ensures
        s.flush_round().queue.inflight.len() - s.queue.inflight.len() == 100
            * s.queue.window_remaining(),
        s.flush_frames().len() <= s.queue.window_remaining(),
        s.queue.inflight.filter(queue::unsent()).len() == 0,
{
    lemma_record_all_same(s.flush_numbered().queue, s.flush_frames());
}

/// A hundred points a frame at most.
proof fn lemma_cuts_at_most(q: QueueView, cuts: Seq<int>, i: int)
    requires
        0 <= i < cuts.len() - 1,
        forall|k: int| 0 <= k < cuts.len() - 1 ==> #[trigger] full(q, cuts, k, q.inflight.len() as int),
    ensures
        cuts[i] <= cuts[0] + 100 * i,
    decreases i,
{
    if i > 0 {
        lemma_cuts_at_most(q, cuts, i - 1);
        assert(full(q, cuts, i - 1, q.inflight.len() as int));
        assert(cuts[(i - 1) + 1] == cuts[i]);
    }
}

/// The cut at the end of the queue is the last one.
proof fn lemma_last_cut(out: Seq<ActionView>, q: QueueView, cuts: Seq<int>, i: int)
    requires
        carries(out, q, cuts),
        0 <= i < out.len(),
        cuts[i + 1] == q.inflight.len(),
    ensures
        i + 1 == out.len(),
{
    if i + 1 < out.len() {
        let o = out[i + 1];
        assert(cuts[i + 1] < cuts[(i + 1) + 1]);
    }
}

proof fn lemma_rising(s: Seq<int>, i: int, j: int)
    requires
        0 <= i <= j < s.len(),
        forall|k: int| 0 < k < s.len() ==> s[k - 1] < #[trigger] s[k],
    ensures
        s[i] <= s[j],
    decreases j - i,
{
    if i < j {
        lemma_rising(s, i, j - 1);
        assert(s[j - 1] < s[j]);
    }
}

/// Frames carry the same points of a queue that kept them in their places.
proof fn lemma_carries_on(out: Seq<ActionView>, q: QueueView, r: QueueView, cuts: Seq<int>)
    requires
        carries(out, q, cuts),
        q.inflight.len() <= r.inflight.len(),
        forall|i: int|
            0 <= i < q.inflight.len() ==> (#[trigger] r.inflight[i]).seq == q.inflight[i].seq
                && r.inflight[i].point == q.inflight[i].point,
    ensures
        carries(out, r, cuts),
{
    assert forall|i: int| 0 <= i < out.len() implies cuts[i] < cuts[i + 1] <= cuts.last() && (
    #[trigger] out[i]) == ActionView::Send(
        points::loc_frame(
            r.inflight[cuts[i + 1] - 1].seq as int,
            stretch(r, cuts[i], cuts[i + 1]),
        ),
    ) by {
        lemma_cuts_at_least(out, q, cuts, i);
        assert(r.inflight[cuts[i + 1] - 1].seq == q.inflight[cuts[i + 1] - 1].seq);
        let x = stretch(q, cuts[i], cuts[i + 1]);
        let y = stretch(r, cuts[i], cuts[i + 1]);
        assert forall|j: int| 0 <= j < x.len() implies x[j] == y[j] by {
            assert(r.inflight[cuts[i] + j].point == q.inflight[cuts[i] + j].point);
        }
        assert(x =~= y);
    }
}

proof fn lemma_cuts_at_least(out: Seq<ActionView>, q: QueueView, cuts: Seq<int>, i: int)
    requires
        carries(out, q, cuts),
        0 <= i <= out.len(),
    ensures
        cuts[0] <= cuts[i],
    decreases i,
{
    if i > 0 {
        lemma_cuts_at_least(out, q, cuts, i - 1);
        let o = out[i - 1];
        assert(cuts[i - 1] < cuts[(i - 1) + 1]);
    }
}

/// Whether frame `i` is as long as it can be, given that `sn` points had numbers before.
pub open spec fn as_long_as_can_be(q: QueueView, cuts: Seq<int>, i: int, sn: int) -> bool {
    ||| full(q, cuts, i, sn)
    ||| q.staging.len() == 0 && full(q, cuts, i, q.inflight.len() as int)
}

/// The frames of one round and of those behind it.
#[verifier::spinoff_prover]
#[verifier::rlimit(50)]
proof fn lemma_join(
    now: Seq<ActionView>,
    more: Seq<ActionView>,
    tq: QueueView,
    uq: QueueView,
    head: Seq<int>,
    rest: Seq<int>,
    sn: int,
    stop: int,
)
    requires
        carries(now, tq, head),
        carries(more, uq, rest),
        rest[0] == head.last(),
        tq.inflight.len() <= uq.inflight.len(),
        forall|i: int|
            0 <= i < tq.inflight.len() ==> (#[trigger] uq.inflight[i]).seq == tq.inflight[i].seq
                && uq.inflight[i].point == tq.inflight[i].point,
        forall|i: int| 0 <= i < now.len() ==> #[trigger] full(tq, head, i, stop),
        stop == -1 || (stop == tq.inflight.len() && (stop == sn || (uq.staging.len() == 0
            && uq.inflight.len() == stop))),
        forall|i: int|
            0 <= i < more.len() ==> #[trigger] as_long_as_can_be(
                uq,
                rest,
                i,
                tq.inflight.len() as int,
            ),
        more.len() > 0 ==> head.last() == tq.inflight.len(),
    ensures
        carries(now + more, uq, head.drop_last() + rest),
        forall|i: int|
            0 <= i < now.len() + more.len() ==> #[trigger] as_long_as_can_be(
                uq,
                head.drop_last() + rest,
                i,
                sn,
            ),
{
    lemma_carries_on(now, tq, uq, head);
    let cuts = head.drop_last() + rest;
    let out = now + more;
    let k = now.len() as int;
    let n = tq.inflight.len() as int;
    lemma_cuts_at_least(more, uq, rest, more.len() as int);
    assert(cuts.last() == rest.last());
    lemma_cuts_at_least(now, tq, head, k);
    assert forall|i: int| 0 <= i < out.len() implies cuts[i] < cuts[i + 1] <= cuts.last() && (
    #[trigger] out[i]) == ActionView::Send(
        points::loc_frame(
            uq.inflight[cuts[i + 1] - 1].seq as int,
            stretch(uq, cuts[i], cuts[i + 1]),
        ),
    ) by {
        if i < k {
            assert(out[i] == now[i]);
            assert(cuts[i] == head[i]);
            assert(cuts[i + 1] == head[i + 1]);
        } else {
            assert(out[i] == more[i - k]);
            assert(cuts[i] == rest[i - k]);
            assert(cuts[i + 1] == rest[i - k + 1]);
        }
    }
    assert(carries(out, uq, cuts));
    assert forall|i: int| 0 <= i < out.len() implies #[trigger] as_long_as_can_be(
        uq,
        cuts,
        i,
        sn,
    ) by {
        lemma_cuts_at_least(out, uq, cuts, i);
        let o = out[i];
        let e = cuts[i + 1];
        if i < k {
            assert(full(tq, head, i, stop));
            assert(cuts[i] == head[i] && e == head[i + 1]);
            let o1 = now[i];
            if e < n {
                assert(uq.inflight[e - 1].point == tq.inflight[e - 1].point);
                assert(uq.inflight[e].point == tq.inflight[e].point);
            }
        } else {
            assert(rest[i - k] == cuts[i] && rest[i - k + 1] == e);
            assert(as_long_as_can_be(uq, rest, i - k, n));
            lemma_cuts_at_least(more, uq, rest, i - k);
            assert(e > n);
        }
    }
}

/// On an open session, flushing sends every point that waits exactly once and in order, each
/// frame under the number of its last point, until all are out or eight frames are without a
/// receipt; and what it sent is exactly what it marks as sent. A frame ends before a hundred points
/// only where the next one does not fit, where the points that already had numbers end, or where
/// no more are left.
#[verifier::spinoff_prover]
#[verifier::rlimit(50)]
pub proof fn law_flush_sends_what_waits_once_and_in_order(s: ClientView, a: int) -> (cuts: Seq<int>)
    requires
        in_line(s, a),
        takes_samples(s),
    ensures
        cuts.len() > 0,
        cuts[0] == a,
        carries(s.flushed().1, s.flushed().0.queue, cuts),
        in_line(s.flushed().0, cuts.last()),
        (cuts.last() == s.flushed().0.queue.inflight.len() && s.flushed().0.queue.staging.len()
            == 0) || s.flushed().0.queue.sent_frame_seqs.len() >= 8,
        forall|i: int|
            0 <= i < s.flushed().1.len() ==> #[trigger] as_long_as_can_be(
                s.flushed().0.queue,
                cuts,
                i,
                s.queue.inflight.len() as int,
            ),
    decreases s.queue.window_remaining(),
{
    if s.flush_due() {
        client_laws::lemma_flush_round(s);
        let t = s.flush_round();
        let head = lemma_round_sends(s, a);
        let rest = law_flush_sends_what_waits_once_and_in_order(t, head.last());
        let now = session::sends(s.flush_frames());
        let (u, more) = t.flushed();
        assert(s.flushed() == (u, now + more));
        law_flush_keeps_points_and_numbers(t);
        assert(t.queue.window_remaining() == 0 ==> more.len() == 0);
        lemma_join(
            now,
            more,
            t.queue,
            u.queue,
            head,
            rest,
            s.queue.inflight.len() as int,
            round_stop(s),
        );
        let cuts = head.drop_last() + rest;
        assert(cuts.last() == rest.last());
        assert(cuts[0] == a);
        cuts
    } else {
        let cuts = seq![a];
        lemma_unsent_part(s.queue.inflight, a);
        if s.queue.sent_frame_seqs.len() < 8 {
            let unsent = s.queue.inflight.filter(queue::unsent());
            if unsent.len() > 0 {
                assert(unsent.map_values(|p: QueuedPoint| p.point).len() > 0);
            } else {
                assert(s.queue.staging.take(s.flush_take()).len() == s.flush_take());
            }
        }
        cuts
    }
}

/// After a reconnect everything without a receipt goes out again: the first frame begins with the
/// first point that the server does not have, and it goes on in order until all points in flight
/// and staged are out or eight frames are without a receipt.
#[verifier::spinoff_prover]
#[verifier::rlimit(50)]
pub proof fn law_resume_sends_everything_without_receipt(
    s: ClientView,
    track_uid: Seq<char>,
    n: u64,
) -> (cuts: Seq<int>)
    requires
        s.state == ConnectionState::Open,
        s.socket && s.writer,
        s.last_assigned_seq + s.queue.staging.len() <= u32::MAX,
        s.last_assigned_seq >= s.queue.inflight.len(),
        forall|i: int|
            0 <= i < s.queue.inflight.len() ==> (#[trigger] s.queue.inflight[i]).seq
                == s.last_assigned_seq - s.queue.inflight.len() + 1 + i
                && !s.queue.inflight[i].sent,
        n <= s.last_assigned_seq,
    ensures
        ({
            let (t, out) = s.dispatched(
                ServerEvtView::ResumeOk { track_uid, last_acked_seq: n },
            );
            let sent = out.take(cuts.len() - 1);
            &&& cuts.len() > 0
            &&& cuts.len() - 1 <= out.len()
            &&& cuts[0] == 0
            &&& carries(sent, t.queue, cuts)
            &&& t.queue.inflight.len() > 0 && s.queue.inflight.len() > 0
                && s.queue.inflight[0].seq > n ==> t.queue.inflight[0].point
                == s.queue.inflight[0].point
            &&& (cuts.last() == t.queue.inflight.len() && t.queue.staging.len() == 0)
                || t.queue.sent_frame_seqs.len() >= 8
            &&& forall|i: int|
                0 <= i < t.queue.inflight.len() ==> ((#[trigger] t.queue.inflight[i]).sent <==> i
                    < cuts.last())
        }),
{
    let above = |p: QueuedPoint| p.seq > n;
    assert(queue::behind(n) =~= above);
    let m = s.resumed(track_uid, n);
    let first = s.last_assigned_seq - s.queue.inflight.len() + 1;
    lemma_numbers_behind(s.queue.inflight, first as int, n);
    let cuts = law_flush_sends_what_waits_once_and_in_order(m, 0);
    law_flush_keeps_points_and_numbers(m);
    let (t, out) = s.dispatched(ServerEvtView::ResumeOk { track_uid, last_acked_seq: n });
    assert(out.take(cuts.len() - 1) =~= m.flushed().1);
    if s.queue.inflight.len() > 0 && s.queue.inflight[0].seq > n {
        assert(m.queue.inflight[0] == s.queue.inflight[0]);
        assert(t.queue.inflight[0].point == m.queue.inflight[0].point);
    }
    cuts
}

/// Of consecutive numbers, those behind `n` are the last ones.
proof fn lemma_numbers_behind(p: Seq<QueuedPoint>, first: int, n: u64)
    requires
        forall|i: int| 0 <= i < p.len() ==> (#[trigger] p[i]).seq == first + i,
    ensures
        p.filter(queue::behind(n)) == p.skip(
            if n < first {
                0
            } else if n - first + 1 > p.len() {
                p.len() as int
            } else {
                n - first + 1
            },
        ),
    decreases p.len(),
{
    reveal(Seq::filter);
    if p.len() == 0 {
        assert(p.skip(0) =~= p);
    } else {
        let h = p.drop_last();
        assert forall|i: int| 0 <= i < h.len() implies (#[trigger] h[i]).seq == first + i by {
            assert(h[i] == p[i]);
        }
        lemma_numbers_behind(h, first, n);
        assert(p[p.len() - 1].seq == first + p.len() - 1);
        let c = if n < first {
            0
        } else if n - first + 1 > p.len() {
            p.len() as int
        } else {
            n - first + 1
        };
        if p.last().seq > n {
            assert(h.skip(c).push(p.last()) =~= p.skip(c));
        } else {
            assert(p.skip(c) =~= Seq::<QueuedPoint>::empty());
            assert(h.filter(queue::behind(n)) =~= Seq::<QueuedPoint>::empty());
        }
    }
}

// ---------------------------------------------------------------------------------------------
// Numbers stay in line.
// ---------------------------------------------------------------------------------------------

/// A trip whose numbers are in line stays so: a sample that goes out is the next in line, a lost
/// socket only makes all points unsent, and a receipt takes the first ones away.
#[verifier::spinoff_prover]
#[verifier::rlimit(50)]
pub proof fn law_numbers_stay_in_line(
    s: ClientView,
    a: int,
    point: LatLng,
    at: Moment,
    g: Geometry,
    straight: Seq<bool>,
    random: u64,
    n: u64,
)
    requires
        in_line(s, a),
        s.track_uid.len() > 0,
        s.queue.staging.len() + s.queue.inflight.len() < s.queue.max_size,
        s.last_assigned_seq + s.queue.staging.len() < u32::MAX,
    ensures
        takes_samples(s) && nothing_waits(s.queue) ==> exists|b: int| #[trigger]
            in_line(s.published(point, at, g, straight).0, b),
        in_line(s.socket_closed(s.dial_gen, random).0, 0),
        in_line(s.receipted(n), if n < s.last_assigned_seq - s.queue.inflight.len() + 1 {
            a
        } else if n - (s.last_assigned_seq - s.queue.inflight.len() + 1) + 1 >= a {
            0
        } else {
            a - (n - (s.last_assigned_seq - s.queue.inflight.len() + 1) + 1)
        }),
{
    let len = s.queue.inflight.len() as int;
    let first = s.last_assigned_seq - len + 1;
    lemma_numbers_behind(s.queue.inflight, first, n);
    let t = s.published(point, at, g, straight).0;
    if takes_samples(s) && nothing_waits(s.queue) {
        if t.queue.inflight.len() == len {
            assert(in_line(t, a)) by {
                assert(t.queue.inflight == s.queue.inflight);
            }
        } else {
            assert(s.queue.sent_frame_seqs.len() < 8);
            assert(a == len) by {
                if a < len {
                    assert(s.queue.inflight[a].sent);
                }
            }
            assert(in_line(t, a + 1));
        }
    }
}

} // verus!
