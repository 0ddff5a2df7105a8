//! Offline queue: staged points without a number, and numbered points waiting for their receipt.

use crate::tracking::filter;
use crate::tracking::filter::collapse_one_collinear;
use crate::tracking::types::LatLng;
use vstd::prelude::*;

verus! {

/// Default cap across staging and in-flight points.
pub const DEFAULT_MAX_QUEUE: usize = 10_000;

/// Most location frames without a receipt (send window).
pub const MAX_UNACKED_FRAMES: usize = 8;

/// A point waiting for its receipt, with its number.
#[derive(Debug, Clone, Copy, PartialEq, Eq)]
pub struct QueuedPoint {
    pub seq: u64,
    pub point: LatLng,
    pub sent: bool,
}

/// Staging (no number yet) and in flight (numbered, waiting for a receipt).
#[derive(Debug)]
pub struct OfflineQueue {
    max_size: usize,
    staging: Vec<LatLng>,
    inflight: Vec<QueuedPoint>,
    sent_frame_seqs: Vec<u64>,
}

/// The value of an [`OfflineQueue`].
#[verifier::ext_equal]
pub struct QueueView {
    pub max_size: nat,
    pub staging: Seq<LatLng>,
    pub inflight: Seq<QueuedPoint>,
    pub sent_frame_seqs: Seq<u64>,
}

impl View for OfflineQueue {
    type V = QueueView;

    closed spec fn view(&self) -> QueueView {
        QueueView {
            max_size: self.max_size as nat,
            staging: self.staging@,
            inflight: self.inflight@,
            sent_frame_seqs: self.sent_frame_seqs@,
        }
    }
}

/// `s + k` modulo 2^64.
pub open spec fn seq_plus(s: u64, k: int) -> u64 {
    ((s + k) % 0x1_0000_0000_0000_0000) as u64
}

/// Points with the numbers behind `next_seq`, unsent.
pub open spec fn numbered(points: Seq<LatLng>, next_seq: u64) -> Seq<QueuedPoint> {
    Seq::new(
        points.len(),
        |i: int| QueuedPoint { seq: seq_plus(next_seq, i + 1), point: points[i], sent: false },
    )
}

/// Points with number `last_seq` or less count as sent.
pub open spec fn sent_through(points: Seq<QueuedPoint>, last_seq: u64) -> Seq<QueuedPoint> {
    points.map_values(
        |p: QueuedPoint|
            if p.seq <= last_seq {
                QueuedPoint { sent: true, ..p }
            } else {
                p
            },
    )
}

pub open spec fn all_unsent(points: Seq<QueuedPoint>) -> Seq<QueuedPoint> {
    points.map_values(|p: QueuedPoint| QueuedPoint { sent: false, ..p })
}

pub open spec fn behind(ack: u64) -> spec_fn(QueuedPoint) -> bool {
    |p: QueuedPoint| p.seq > ack
}

pub open spec fn frames_behind(ack: u64) -> spec_fn(u64) -> bool {
    |s: u64| s > ack
}

pub open spec fn unsent() -> spec_fn(QueuedPoint) -> bool {
    |p: QueuedPoint| !p.sent
}

impl QueueView {
    pub open spec fn empty(max_size: nat) -> QueueView {
        QueueView {
            max_size,
            staging: Seq::empty(),
            inflight: Seq::empty(),
            sent_frame_seqs: Seq::empty(),
        }
    }

    pub open spec fn size(self) -> nat {
        self.staging.len() + self.inflight.len()
    }

    /// The queue holds no more than it may.
    pub open spec fn wf(self) -> bool {
        self.size() <= self.max_size
    }

    /// The queue with one point dropped if it is over its cap: a collinear staged one, else the
    /// oldest staged one, else the oldest in flight.
    pub open spec fn trimmed(self, straight: Seq<bool>) -> QueueView {
        if self.size() <= self.max_size {
            self
        } else if filter::first_straight(straight, 1, self.staging.len() as int) is Some {
            QueueView { staging: filter::collapsed(self.staging, straight), ..self }
        } else if self.staging.len() > 0 {
            QueueView { staging: self.staging.skip(1), ..self }
        } else {
            QueueView { inflight: self.inflight.skip(1), ..self }
        }
    }

    pub open spec fn with_staged(self, point: LatLng, straight: Seq<bool>) -> QueueView {
        (QueueView { staging: self.staging.push(point), ..self }).trimmed(straight)
    }

    pub open spec fn with_inflight(self, p: QueuedPoint, straight: Seq<bool>) -> QueueView {
        (QueueView { inflight: self.inflight.push(p), ..self }).trimmed(straight)
    }

    pub open spec fn recorded(self, last_seq: u64) -> QueueView {
        QueueView {
            inflight: sent_through(self.inflight, last_seq),
            sent_frame_seqs: self.sent_frame_seqs.push(last_seq),
            ..self
        }
    }

    pub open spec fn acked(self, ack: u64) -> QueueView {
        QueueView {
            inflight: self.inflight.filter(behind(ack)),
            sent_frame_seqs: self.sent_frame_seqs.filter(frames_behind(ack)),
            ..self
        }
    }

    pub open spec fn cleared(self) -> QueueView {
        QueueView::empty(self.max_size)
    }

    pub open spec fn marked_unsent(self) -> QueueView {
        QueueView {
            inflight: all_unsent(self.inflight),
            sent_frame_seqs: Seq::empty(),
            ..self
        }
    }

    /// `n` staged points numbered behind `next_seq` and moved in flight.
    pub open spec fn assigned(self, n: int, next_seq: u64) -> QueueView {
        QueueView {
            staging: self.staging.skip(n),
            inflight: self.inflight + numbered(self.staging.take(n), next_seq),
            ..self
        }
    }

    pub open spec fn window_full(self) -> bool {
        self.sent_frame_seqs.len() >= MAX_UNACKED_FRAMES
    }

    pub open spec fn window_remaining(self) -> int {
        if self.window_full() {
            0
        } else {
            MAX_UNACKED_FRAMES - self.sent_frame_seqs.len()
        }
    }
}

impl OfflineQueue {
    /// The queue holds no more than it may.
    pub open spec fn wf(&self) -> bool {
        self@.wf()
    }

    /// Creates a queue that holds `max_size` points (0 stands for 10_000).
    pub fn new(max_size: usize) -> (r: Self)
        ensures
            r.wf(),
            r@ == QueueView::empty(
                if max_size == 0 {
                    DEFAULT_MAX_QUEUE as nat
                } else {
                    max_size as nat
                },
            ),
    {
        let r = OfflineQueue {
            max_size: if max_size == 0 {
                DEFAULT_MAX_QUEUE
            } else {
                max_size
            },
            staging: Vec::new(),
            inflight: Vec::new(),
            sent_frame_seqs: Vec::new(),
        };
        assert(r@ =~= QueueView::empty(r@.max_size));
        r
    }

    /// Points held, staged and in flight.
    pub fn size(&self) -> (r: usize)
        requires
            self.wf(),
        ensures
            r == self@.size(),
    {
        self.staging.len() + self.inflight.len()
    }

    /// Whether the next point makes another one go.
    pub fn is_full(&self) -> (r: bool)
        requires
            self.wf(),
        ensures
            r == (self@.size() == self@.max_size),
    {
        self.staging.len() + self.inflight.len() == self.max_size
    }

    pub fn staging_len(&self) -> (r: usize)
        ensures
            r == self@.staging.len(),
    {
        self.staging.len()
    }

    /// The number of the newest point in flight, 0 if there is none.
    pub fn last_assigned_seq(&self) -> (r: u64)
        ensures
            r == (if self@.inflight.len() > 0 {
                self@.inflight.last().seq
            } else {
                0
            }),
    {
        let n: usize = self.inflight.len();
        if n > 0 {
            self.inflight[n - 1].seq
        } else {
            0
        }
    }

    /// Drops one point if the queue is over its cap.
    fn enforce_cap(&mut self, straight: &[bool])
        requires
            old(self)@.size() <= old(self)@.max_size + 1,
        ensures
            final(self).wf(),
            final(self)@ == old(self)@.trimmed(straight@),
    {
        proof {
            filter::lemma_first_straight(straight@, 1, self.staging@.len() as int);
        }
        if self.staging.len() as u128 + self.inflight.len() as u128 <= self.max_size as u128 {
            return;
        }
        let ghost before = self@;
        if collapse_one_collinear(&mut self.staging, straight) {
            return;
        }
        if self.staging.len() > 0 {
            self.staging.remove(0);
            assert(self.staging@ =~= before.staging.skip(1));
            return;
        }
        self.inflight.remove(0);
        assert(self.inflight@ =~= before.inflight.skip(1));
    }

    /// Stages a point that cannot be sent yet (socket down or window full).
    ///
    /// `straight` flags the collinear ones among the staged points with the new one behind them.
    pub fn push_staging(&mut self, point: LatLng, straight: &[bool])
        requires
            old(self).wf(),
        ensures
            final(self).wf(),
            final(self)@ == old(self)@.with_staged(point, straight@),
    {
        self.staging.push(point);
        self.enforce_cap(straight);
    }

    /// Numbers the next `n` staged points and moves them in flight as unsent.
    pub fn assign_from_staging(&mut self, n: usize, next_seq: u64) -> (r: Vec<QueuedPoint>)
        requires
            old(self).wf(),
        ensures
            final(self).wf(),
            ({
                let take = if n <= old(self)@.staging.len() {
                    n as int
                } else {
                    old(self)@.staging.len() as int
                };
                &&& final(self)@ == old(self)@.assigned(take, next_seq)
                &&& r@ == numbered(old(self)@.staging.take(take), next_seq)
            }),
    {
        let take: usize = if n < self.staging.len() {
            n
        } else {
            self.staging.len()
        };
        let ghost before = self@;
        let mut out: Vec<QueuedPoint> = Vec::new();
        let mut seq: u64 = next_seq;
        let mut i: usize = 0;
        while i < take
            invariant
                i <= take,
                take <= before.staging.len(),
                before.max_size == self.max_size,
                before.sent_frame_seqs == self.sent_frame_seqs@,
                before.staging == self.staging@,
                seq == seq_plus(next_seq, i as int),
                out@ =~= numbered(before.staging.take(i as int), next_seq),
                self.inflight@ =~= before.inflight + out@,
            decreases take - i,
        {
            let point = self.staging[i];
            seq = seq.wrapping_add(1);
            proof {
                let m = 0x1_0000_0000_0000_0000int;
                vstd::arithmetic::div_mod::lemma_mod_adds(next_seq + i, 1, m);
                vstd::arithmetic::div_mod::lemma_add_mod_noop(next_seq + i, 1, m);
            }
            let q = QueuedPoint { seq, point, sent: false };
            self.inflight.push(q);
            out.push(q);
            i += 1;
        }
        let rest = self.staging.split_off(take);
        self.staging = rest;
        assert(self.staging@ =~= before.staging.skip(take as int));
        assert(self@ =~= before.assigned(take as int, next_seq));
        out
    }

    /// Enqueues a numbered point as sent. Returns how many points had to go: 0 or 1.
    pub fn enqueue(&mut self, seq: u64, point: LatLng, straight: &[bool]) -> (r: usize)
        requires
            old(self).wf(),
        ensures
            final(self).wf(),
            final(self)@ == old(self)@.with_inflight(
                QueuedPoint { seq, point, sent: true },
                straight@,
            ),
            r == (if old(self)@.size() == old(self)@.max_size {
                1int
            } else {
                0
            }),
    {
        let full = self.is_full();
        self.inflight.push(QueuedPoint { seq, point, sent: true });
        self.enforce_cap(straight);
        if full {
            1
        } else {
            0
        }
    }

    /// Enqueues a numbered point as unsent.
    pub fn push_inflight_unsent(&mut self, seq: u64, point: LatLng, straight: &[bool])
        requires
            old(self).wf(),
        ensures
            final(self).wf(),
            final(self)@ == old(self)@.with_inflight(
                QueuedPoint { seq, point, sent: false },
                straight@,
            ),
    {
        self.inflight.push(QueuedPoint { seq, point, sent: false });
        self.enforce_cap(straight);
    }

    /// Everything in flight has to be sent again.
    pub fn mark_unsent(&mut self)
        requires
            old(self).wf(),
        ensures
            final(self).wf(),
            final(self)@ == old(self)@.marked_unsent(),
    {
        let ghost before = self@;
        let mut i: usize = 0;
        while i < self.inflight.len()
            invariant
                i <= self.inflight@.len(),
                self.inflight@.len() == before.inflight.len(),
                self.max_size == before.max_size,
                self.staging@ == before.staging,
                forall|j: int|
                    0 <= j < i ==> self.inflight@[j] == (QueuedPoint {
                        sent: false,
                        ..before.inflight[j]
                    }),
                forall|j: int| i <= j < self.inflight@.len() ==> self.inflight@[j]
                    == before.inflight[j],
            decreases self.inflight@.len() - i,
        {
            let mut p = self.inflight[i];
            p.sent = false;
            self.inflight[i] = p;
            i += 1;
        }
        self.sent_frame_seqs.clear();
        assert(self@ =~= before.marked_unsent());
    }

    pub fn window_full(&self) -> (r: bool)
        ensures
            r == self@.window_full(),
    {
        self.sent_frame_seqs.len() >= MAX_UNACKED_FRAMES
    }

    pub fn window_remaining(&self) -> (r: usize)
        ensures
            r == self@.window_remaining(),
    {
        if self.sent_frame_seqs.len() >= MAX_UNACKED_FRAMES {
            0
        } else {
            MAX_UNACKED_FRAMES - self.sent_frame_seqs.len()
        }
    }

    /// Notes that a frame went out whose last point has number `last_seq`.
    pub fn record_frame(&mut self, last_seq: u64)
        requires
            old(self).wf(),
        ensures
            final(self).wf(),
            final(self)@ == old(self)@.recorded(last_seq),
    {
        let ghost before = self@;
        self.sent_frame_seqs.push(last_seq);
        let ghost seqs = self.sent_frame_seqs@;
        let mut i: usize = 0;
        while i < self.inflight.len()
            invariant
                i <= self.inflight@.len(),
                self.inflight@.len() == before.inflight.len(),
                self.max_size == before.max_size,
                self.staging@ == before.staging,
                self.sent_frame_seqs@ == seqs,
                forall|j: int|
                    0 <= j < i ==> self.inflight@[j] == sent_through(before.inflight, last_seq)[j],
                forall|j: int| i <= j < self.inflight@.len() ==> self.inflight@[j]
                    == before.inflight[j],
            decreases self.inflight@.len() - i,
        {
            let mut p = self.inflight[i];
            if p.seq <= last_seq {
                p.sent = true;
                self.inflight[i] = p;
            }
            i += 1;
        }
        assert(self@ =~= before.recorded(last_seq));
    }

    /// Drops points in flight up to and with number `ack`.
    pub fn ack_through(&mut self, ack: u64)
        requires
            old(self).wf(),
        ensures
            final(self).wf(),
            final(self)@ == old(self)@.acked(ack),
    {
        let ghost before = self@;
        let mut points: Vec<QueuedPoint> = Vec::new();
        let mut i: usize = 0;
        proof {
            reveal(Seq::filter);
        }
        while i < self.inflight.len()
            invariant
                i <= self.inflight@.len(),
                self.inflight@ == before.inflight,
                points@ =~= before.inflight.take(i as int).filter(behind(ack)),
            decreases self.inflight@.len() - i,
        {
            proof {
                reveal(Seq::filter);
                assert(before.inflight.take(i + 1).drop_last() =~= before.inflight.take(i as int));
            }
            let p = self.inflight[i];
            if p.seq > ack {
                points.push(p);
            }
            i += 1;
        }
        assert(before.inflight.take(i as int) =~= before.inflight);
        let mut frames: Vec<u64> = Vec::new();
        let mut k: usize = 0;
        while k < self.sent_frame_seqs.len()
            invariant
                k <= self.sent_frame_seqs@.len(),
                self.sent_frame_seqs@ == before.sent_frame_seqs,
                frames@ =~= before.sent_frame_seqs.take(k as int).filter(frames_behind(ack)),
            decreases self.sent_frame_seqs@.len() - k,
        {
            proof {
                reveal(Seq::filter);
                assert(before.sent_frame_seqs.take(k + 1).drop_last()
                    =~= before.sent_frame_seqs.take(k as int));
            }
            let s: u64 = self.sent_frame_seqs[k];
            if s > ack {
                frames.push(s);
            }
            k += 1;
        }
        assert(before.sent_frame_seqs.take(k as int) =~= before.sent_frame_seqs);
        self.inflight = points;
        self.sent_frame_seqs = frames;
        proof {
            before.inflight.lemma_filter_len(behind(ack));
        }
        assert(self@ =~= before.acked(ack));
    }

    /// The points in flight.
    pub fn peek_all(&self) -> (r: Vec<QueuedPoint>)
        ensures
            r@ == self@.inflight,
    {
        let r = self.inflight.clone();
        assert(r@ =~= self@.inflight);
        r
    }

    /// The staged points.
    pub fn peek_staging(&self) -> (r: Vec<LatLng>)
        ensures
            r@ == self@.staging,
    {
        let r = self.staging.clone();
        assert(r@ =~= self@.staging);
        r
    }

    /// The points in flight that have to be sent (again).
    pub fn unsent_inflight(&self) -> (r: Vec<QueuedPoint>)
        ensures
            r@ == self@.inflight.filter(unsent()),
    {
        let mut out: Vec<QueuedPoint> = Vec::new();
        let mut i: usize = 0;
        proof {
            reveal(Seq::filter);
        }
        while i < self.inflight.len()
            invariant
                i <= self.inflight@.len(),
                out@ =~= self.inflight@.take(i as int).filter(unsent()),
            decreases self.inflight@.len() - i,
        {
            proof {
                reveal(Seq::filter);
                assert(self.inflight@.take(i + 1).drop_last() =~= self.inflight@.take(i as int));
            }
            let p = self.inflight[i];
            if !p.sent {
                out.push(p);
            }
            i += 1;
        }
        assert(self.inflight@.take(i as int) =~= self.inflight@);
        out
    }

    pub fn clear(&mut self)
        requires
            old(self).wf(),
        ensures
            final(self).wf(),
            final(self)@ == old(self)@.cleared(),
    {
        self.staging.clear();
        self.inflight.clear();
        self.sent_frame_seqs.clear();
        assert(self@ =~= old(self)@.cleared());
    }
}

/// A queue without room: every point pushed goes at once.
impl Default for OfflineQueue {
    fn default() -> (r: Self)
        ensures
            r.wf(),
            r@ == QueueView::empty(0),
    {
        let r = OfflineQueue {
            max_size: 0,
            staging: Vec::new(),
            inflight: Vec::new(),
            sent_frame_seqs: Vec::new(),
        };
        assert(r@ =~= QueueView::empty(0));
        r
    }
}

/// A full queue keeps the newest staged point: what goes is an older one.
pub proof fn law_staging_keeps_newest(q: QueueView, point: LatLng, straight: Seq<bool>)
    requires
        q.wf(),
        q.staging.len() > 0 || q.size() < q.max_size,
    ensures
        q.with_staged(point, straight).wf(),
        q.with_staged(point, straight).staging.len() > 0,
        q.with_staged(point, straight).staging.last() == point,
        q.with_staged(point, straight).inflight == q.inflight,
{
    filter::lemma_first_straight(straight, 1, (q.staging.len() + 1) as int);
}

/// A full queue keeps the newest point in flight, and drops one of those in flight only when
/// nothing is staged: the oldest.
pub proof fn law_inflight_keeps_newest(q: QueueView, p: QueuedPoint, straight: Seq<bool>)
    requires
        q.wf(),
        q.max_size > 0,
    ensures
        q.with_inflight(p, straight).wf(),
        q.with_inflight(p, straight).inflight.len() > 0,
        q.with_inflight(p, straight).inflight.last() == p,
        q.staging.len() > 0 ==> q.with_inflight(p, straight).inflight == q.inflight.push(p),
        q.staging.len() == 0 && q.size() == q.max_size ==> q.with_inflight(p, straight).inflight
            == q.inflight.skip(1).push(p),
{
    filter::lemma_first_straight(straight, 1, q.staging.len() as int);
    if q.staging.len() == 0 && q.size() == q.max_size {
        assert(q.inflight.push(p).skip(1) =~= q.inflight.skip(1).push(p));
    }
}

/// A receipt covers everything up to its number: nothing covered stays, nothing else goes.
pub proof fn law_ack_is_inclusive(q: QueueView, ack: u64)
    ensures
        forall|i: int|
            0 <= i < q.acked(ack).inflight.len() ==> (#[trigger] q.acked(ack).inflight[i]).seq > ack,
        forall|i: int|
            0 <= i < q.inflight.len() && (#[trigger] q.inflight[i]).seq > ack ==> q.acked(
                ack,
            ).inflight.contains(q.inflight[i]),
        q.acked(ack).staging == q.staging,
{
    assert forall|i: int| 0 <= i < q.acked(ack).inflight.len() implies (#[trigger] q.acked(
        ack,
    ).inflight[i]).seq > ack by {
        q.inflight.lemma_filter_pred(behind(ack), i);
    }
    assert forall|i: int|
        0 <= i < q.inflight.len() && (#[trigger] q.inflight[i]).seq > ack implies q.acked(
        ack,
    ).inflight.contains(q.inflight[i]) by {
        q.inflight.lemma_filter_contains(behind(ack), i);
    }
}

proof fn lemma_filter_twice<A>(s: Seq<A>, p: spec_fn(A) -> bool, q: spec_fn(A) -> bool)
    requires
        forall|x: A| #[trigger] p(x) ==> q(x),
    ensures
        s.filter(q).filter(p) == s.filter(p),
    decreases s.len(),
{
    reveal(Seq::filter);
    if s.len() > 0 {
        let t = s.drop_last();
        lemma_filter_twice(t, p, q);
        let x = s.last();
        if q(x) {
            assert(t.filter(q).push(x).drop_last() =~= t.filter(q));
        }
    }
}

/// A later receipt covers an earlier one.
pub proof fn law_acks_are_cumulative(q: QueueView, a: u64, b: u64)
    requires
        a <= b,
    ensures
        q.acked(a).acked(b) == q.acked(b),
{
    lemma_filter_twice(q.inflight, behind(b), behind(a));
    lemma_filter_twice(q.sent_frame_seqs, frames_behind(b), frames_behind(a));
}

/// The points of a queue in the order in which they go out.
pub open spec fn in_order(q: QueueView) -> Seq<LatLng> {
    q.inflight.map_values(|p: QueuedPoint| p.point) + q.staging
}

/// Numbering staged points loses none and changes no order.
pub proof fn law_assigning_keeps_every_point(q: QueueView, n: int, next_seq: u64)
    requires
        0 <= n <= q.staging.len(),
    ensures
        in_order(q.assigned(n, next_seq)) == in_order(q),
        q.assigned(n, next_seq).size() == q.size(),
{
    assert(in_order(q.assigned(n, next_seq)) =~= in_order(q));
}

/// After a drop of the socket everything without a receipt is sent again, and the window is open.
pub proof fn law_mark_unsent_reopens_the_window(q: QueueView)
    ensures
        q.marked_unsent().inflight.filter(unsent()) == q.marked_unsent().inflight,
        q.marked_unsent().window_remaining() == MAX_UNACKED_FRAMES,
        in_order(q.marked_unsent()) == in_order(q),
{
    lemma_filter_all(q.marked_unsent().inflight, unsent());
    assert(in_order(q.marked_unsent()) =~= in_order(q));
}

pub proof fn lemma_filter_all<A>(s: Seq<A>, p: spec_fn(A) -> bool)
    requires
        forall|i: int| 0 <= i < s.len() ==> #[trigger] p(s[i]),
    ensures
        s.filter(p) == s,
    decreases s.len(),
{
    reveal(Seq::filter);
    if s.len() > 0 {
        lemma_filter_all(s.drop_last(), p);
        assert(p(s[s.len() - 1]));
        assert(s.drop_last().push(s.last()) =~= s);
    }
}

/// A frame that went out marks the points up to its number as sent and takes a place in the
/// window; numbers, points and staged points stay.
pub proof fn law_recorded_frame_marks_its_points(q: QueueView, n: u64)
    ensures
        ({
            let t = q.recorded(n);
            &&& t.inflight.len() == q.inflight.len()
            &&& forall|i: int|
                0 <= i < q.inflight.len() ==> (#[trigger] t.inflight[i]).seq == q.inflight[i].seq
                    && t.inflight[i].point == q.inflight[i].point && (t.inflight[i].sent <==> (
                q.inflight[i].sent || q.inflight[i].seq <= n))
            &&& t.sent_frame_seqs == q.sent_frame_seqs.push(n)
            &&& t.staging == q.staging && t.max_size == q.max_size
        }),
{
}

/// Numbering takes the oldest staged points, gives them consecutive numbers in their order, and
/// puts them behind those in flight, as unsent.
pub proof fn law_staged_points_are_numbered_in_order(q: QueueView, n: int, next_seq: u64)
    requires
        0 <= n <= q.staging.len(),
    ensures
        ({
            let t = q.assigned(n, next_seq);
            let k = q.inflight.len();
            &&& t.staging == q.staging.skip(n)
            &&& t.inflight.len() == k + n
            &&& t.inflight.take(k as int) == q.inflight
            &&& forall|i: int|
                0 <= i < n ==> (#[trigger] t.inflight[k + i]).point == q.staging[i] && t.inflight[k
                    + i].seq == (next_seq + i + 1) % 0x1_0000_0000_0000_0000 && !t.inflight[k
                    + i].sent
            &&& t.sent_frame_seqs == q.sent_frame_seqs && t.max_size == q.max_size
        }),
        numbered(q.staging.take(n), next_seq) == q.assigned(n, next_seq).inflight.skip(
            q.inflight.len() as int,
        ),
{
    let t = q.assigned(n, next_seq);
    assert(t.inflight.take(q.inflight.len() as int) =~= q.inflight);
    assert(numbered(q.staging.take(n), next_seq) =~= t.inflight.skip(q.inflight.len() as int));
    assert forall|i: int| 0 <= i < n implies (#[trigger] t.inflight[q.inflight.len() + i]).point
        == q.staging[i] && t.inflight[q.inflight.len() + i].seq == (next_seq + i + 1)
        % 0x1_0000_0000_0000_0000 && !t.inflight[q.inflight.len() + i].sent by {
        assert(t.inflight[q.inflight.len() + i] == numbered(q.staging.take(n), next_seq)[i]);
    }
}

/// What the counters count: points held, whether eight frames are without a receipt, and how many
/// more may go out. What has to be sent is what is in flight and not sent. A cleared queue is
/// empty and keeps its cap.
pub proof fn law_queue_counts_what_it_holds(q: QueueView, i: int)
    ensures
        q.size() == q.staging.len() + q.inflight.len(),
        q.wf() <==> q.staging.len() + q.inflight.len() <= q.max_size,
        q.window_full() <==> q.sent_frame_seqs.len() >= 8,
        q.sent_frame_seqs.len() <= 8 ==> q.window_remaining() + q.sent_frame_seqs.len() == 8,
        q.sent_frame_seqs.len() >= 8 ==> q.window_remaining() == 0,
        q.inflight.filter(unsent()) == q.inflight.filter(|p: QueuedPoint| !p.sent),
        q.cleared().staging.len() == 0,
        q.cleared().inflight.len() == 0,
        q.cleared().sent_frame_seqs.len() == 0,
        q.cleared().max_size == q.max_size,
        0 <= i < q.inflight.len() ==> q.marked_unsent().inflight[i].seq == q.inflight[i].seq
            && q.marked_unsent().inflight[i].point == q.inflight[i].point
            && !q.marked_unsent().inflight[i].sent,
        q.marked_unsent().inflight.len() == q.inflight.len(),
        q.marked_unsent().staging == q.staging,
        q.marked_unsent().sent_frame_seqs.len() == 0,
{
    assert(unsent() =~= |p: QueuedPoint| !p.sent);
}

} // verus!
