//! Device GPS filter: about one sample a second, plus the vertices of the way.
//!
//! Distances and angles come in as findings; the filter decides what to do with them. Heading and
//! speed stay local: they are never written to the wire.

use crate::clock;
use crate::tracking::types::LatLng;
use vstd::prelude::*;

verus! {

/// A sample goes out at the latest this long after the one before it.
pub const HEARTBEAT_MS: i64 = 1000;

/// What geometry says of a new sample against the last emitted one and the held candidate.
#[derive(Debug, Clone, Copy, PartialEq, Eq)]
pub struct Geometry {
    /// The sample is at least the larger of two metres and twice its accuracy away.
    pub moved: bool,
    /// The candidate lies off the straight way from the last emitted sample to the new one.
    pub off_line: bool,
    /// The heading changed by at least 25 degrees.
    pub turned: bool,
    /// One of the two speeds is above half a metre per second, and one is not.
    pub motion_changed: bool,
}

/// About one sample a second plus vertices. At one sample a second everything passes.
#[derive(Debug, Clone, Copy, PartialEq, Eq)]
pub struct NoiseFilter {
    last_emitted: Option<LatLng>,
    candidate: Option<LatLng>,
    last_emit_at: Option<i64>,
}

/// The value of a [`NoiseFilter`].
pub struct FilterView {
    pub last_emitted: Option<LatLng>,
    pub candidate: Option<LatLng>,
    pub last_emit_at: Option<i64>,
}

impl View for NoiseFilter {
    type V = FilterView;

    closed spec fn view(&self) -> FilterView {
        FilterView {
            last_emitted: self.last_emitted,
            candidate: self.candidate,
            last_emit_at: self.last_emit_at,
        }
    }
}

impl FilterView {
    /// A filter that has seen nothing.
    pub open spec fn fresh() -> FilterView {
        FilterView { last_emitted: None, candidate: None, last_emit_at: None }
    }

    /// A filter whose last emitted sample is `p`, sent at `now`.
    pub open spec fn emitted(p: LatLng, now: i64) -> FilterView {
        FilterView { last_emitted: Some(p), candidate: None, last_emit_at: Some(now) }
    }

    /// Whether a sample must go out.
    pub open spec fn must_emit(self, current: LatLng, now: i64, g: Geometry) -> bool {
        match self.last_emitted {
            None => true,
            Some(last) => {
                ||| self.last_emit_at is Some && now - self.last_emit_at->0 >= HEARTBEAT_MS
                ||| g.moved
                ||| self.candidate is Some && g.off_line
                ||| last.heading is Some && current.heading is Some && g.turned
                ||| last.speed is Some && current.speed is Some && g.motion_changed
            },
        }
    }

    /// The filter after `seed`.
    pub open spec fn seeded(p: LatLng) -> FilterView {
        FilterView::emitted(
            p,
            match p.timestamp_ms {
                Some(t) => t,
                None => 0,
            },
        )
    }

    /// The filter and its answer after a sample that carries its time `now`.
    pub open spec fn after(self, current: LatLng, now: i64, g: Geometry) -> (FilterView, Option<
        LatLng,
    >) {
        if self.must_emit(current, now, g) {
            (FilterView::emitted(current, now), Some(current))
        } else {
            (FilterView { candidate: Some(current), ..self }, None)
        }
    }
}

impl NoiseFilter {
    pub fn new() -> (r: Self)
        ensures
            r@ == FilterView::fresh(),
    {
        NoiseFilter { last_emitted: None, candidate: None, last_emit_at: None }
    }

    /// The last sample that went out.
    pub fn last_emitted(&self) -> (r: Option<LatLng>)
        ensures
            r == self@.last_emitted,
    {
        self.last_emitted
    }

    /// The sample held back.
    pub fn candidate(&self) -> (r: Option<LatLng>)
        ensures
            r == self@.candidate,
    {
        self.candidate
    }

    /// Seeds after the start of a track, so that the start point is not emitted again.
    pub fn seed(&mut self, point: LatLng)
        ensures
            final(self)@ == FilterView::seeded(point),
    {
        let t: i64 = match point.timestamp_ms {
            Some(t) => t,
            None => 0,
        };
        self.last_emitted = Some(point);
        self.candidate = None;
        self.last_emit_at = Some(t);
    }

    pub fn reset(&mut self)
        ensures
            final(self)@ == FilterView::fresh(),
    {
        self.last_emitted = None;
        self.candidate = None;
        self.last_emit_at = None;
    }

    /// Pushes a sample. `None` means it is held as candidate, or dropped as collinear.
    ///
    /// A sample without a time is taken to be made now.
    pub fn push(&mut self, current: LatLng, g: Geometry) -> (r: Option<LatLng>)
        ensures
            exists|now: i64|
                (current.timestamp_ms is Some ==> now == current.timestamp_ms->0) && (
                final(self)@,
                r,
            ) == #[trigger] old(self)@.after(
                LatLng { timestamp_ms: Some(now), ..current },
                now,
                g,
            ),
    {
        let now: i64 = match current.timestamp_ms {
            Some(t) => t,
            None => clock::now_ms(),
        };
        self.push_at(current, now, g)
    }

    /// Pushes a sample made at `now`.
    pub fn push_at(&mut self, current: LatLng, now: i64, g: Geometry) -> (r: Option<LatLng>)
        ensures
            (final(self)@, r) == old(self)@.after(
                LatLng { timestamp_ms: Some(now), ..current },
                now,
                g,
            ),
    {
        let mut current = current;
        current.timestamp_ms = Some(now);
        if self.should_emit(&current, now, g) {
            Some(self.emit(current, now))
        } else {
            self.candidate = Some(current);
            None
        }
    }

    /// Whether a sample must go out.
    pub fn should_emit(&self, current: &LatLng, now: i64, g: Geometry) -> (r: bool)
        ensures
            r == self@.must_emit(*current, now, g),
    {
        let last = match self.last_emitted {
            None => return true,
            Some(last) => last,
        };
        if let Some(at) = self.last_emit_at {
            if now as i128 - at as i128 >= HEARTBEAT_MS as i128 {
                return true;
            }
        }
        if g.moved {
            return true;
        }
        if self.candidate.is_some() && g.off_line {
            return true;
        }
        if last.heading.is_some() && current.heading.is_some() && g.turned {
            return true;
        }
        last.speed.is_some() && current.speed.is_some() && g.motion_changed
    }

    fn emit(&mut self, point: LatLng, now: i64) -> (r: LatLng)
        ensures
            final(self)@ == FilterView::emitted(point, now),
            r == point,
    {
        self.last_emitted = Some(point);
        self.candidate = None;
        self.last_emit_at = Some(now);
        point
    }
}

impl Default for NoiseFilter {
    fn default() -> (r: Self)
        ensures
            r@ == FilterView::fresh(),
    {
        NoiseFilter::new()
    }
}

/// Which middle sample is dropped: the first that lies on the straight way between its
/// neighbours. `straight[i]` tells that of sample `i`.
pub open spec fn first_straight(straight: Seq<bool>, from: int, len: int) -> Option<int>
    decreases len - from,
{
    if from + 1 >= len || from >= straight.len() {
        None
    } else if straight[from] {
        Some(from)
    } else {
        first_straight(straight, from + 1, len)
    }
}

/// The samples after one middle collinear sample was dropped, if there is one.
pub open spec fn collapsed(points: Seq<LatLng>, straight: Seq<bool>) -> Seq<LatLng> {
    match first_straight(straight, 1, points.len() as int) {
        Some(i) => points.remove(i),
        None => points,
    }
}

/// The sample found is a middle one, is straight, and none before it is.
pub proof fn lemma_first_straight(straight: Seq<bool>, from: int, len: int)
    requires
        0 <= from,
    ensures
        match first_straight(straight, from, len) {
            Some(i) => {
                &&& from <= i < len - 1
                &&& i < straight.len()
                &&& straight[i]
                &&& forall|j: int| from <= j < i ==> !straight[j]
            },
            None => forall|j: int| from <= j < len - 1 && j < straight.len() ==> !straight[j],
        },
    decreases len - from,
{
    if from + 1 >= len || from >= straight.len() {
    } else if !straight[from] {
        lemma_first_straight(straight, from + 1, len);
    }
}

/// Drops the first middle sample that is flagged as straight. Returns whether one was dropped.
///
/// `straight[i]` says whether sample `i` lies within its accuracy (at least two metres) of the
/// line between its neighbours; samples without a flag are not.
pub fn collapse_one_collinear(points: &mut Vec<LatLng>, straight: &[bool]) -> (r: bool)
    ensures
        r == (first_straight(straight@, 1, old(points)@.len() as int) is Some),
        final(points)@ == collapsed(old(points)@, straight@),
{
    let n: usize = points.len();
    let mut i: usize = 1;
    while i < n && i < n - 1 && i < straight.len()
        invariant
            1 <= i,
            n == points@.len(),
            points@ == old(points)@,
            first_straight(straight@, 1, n as int) == first_straight(straight@, i as int, n as int),
        decreases n - i,
    {
        if straight[i] {
            points.remove(i);
            return true;
        }
        i += 1;
    }
    false
}

/// With one sample a second or less, every sample goes out, whatever the geometry.
pub proof fn law_slow_samples_pass_through(f: FilterView, current: LatLng, now: i64, g: Geometry)
    requires
        f.last_emitted is Some ==> f.last_emit_at is Some && now - f.last_emit_at->0
            >= HEARTBEAT_MS,
    ensures
        f.after(current, now, g).1 == Some(current),
{
}

/// A sample that nothing sets apart is held, and within the heartbeat none goes out.
pub proof fn law_collinear_samples_are_held(f: FilterView, current: LatLng, now: i64, g: Geometry)
    requires
        f.last_emitted is Some,
        f.last_emit_at is Some,
        now - f.last_emit_at->0 < HEARTBEAT_MS,
        !g.moved && !g.off_line && !g.turned && !g.motion_changed,
    ensures
        f.after(current, now, g).1 is None,
        f.after(current, now, g).0.candidate == Some(current),
        f.after(current, now, g).0.last_emitted == f.last_emitted,
{
}

/// The start point of a track is not emitted again: a sample right behind the seed that has not
/// moved is held.
pub proof fn law_seed_is_not_repeated(p: LatLng, current: LatLng, now: i64, g: Geometry)
    requires
        p.timestamp_ms is Some,
        now - p.timestamp_ms->0 < HEARTBEAT_MS,
        !g.moved && !g.turned && !g.motion_changed,
    ensures
        FilterView::seeded(p).after(current, now, g).1 is None,
{
}

/// Whatever the filter holds and whatever optional parts a sample has, each of these alone makes
/// it go out: it is the first; a second has passed since the last one went out; it has moved; the
/// held sample lies off the line to it; it turned, where both headings are known; it came to a
/// stop or set off, where both speeds are known.
pub proof fn law_each_sign_of_motion_lets_a_sample_out(
    f: FilterView,
    current: LatLng,
    now: i64,
    g: Geometry,
)
    ensures
        ({
            let out = f.after(current, now, g).1;
            &&& f.last_emitted is None ==> out == Some(current)
            &&& (f.last_emit_at matches Some(t) && now - t >= 1000) ==> out == Some(current)
            &&& g.moved ==> out == Some(current)
            &&& f.candidate is Some && g.off_line ==> out == Some(current)
            &&& (f.last_emitted matches Some(last) && last.heading is Some && current.heading
                is Some && g.turned) ==> out == Some(current)
            &&& (f.last_emitted matches Some(last) && last.speed is Some && current.speed is Some
                && g.motion_changed) ==> out == Some(current)
        }),
{
}

/// Nothing else makes a sample go out: less than a second after the last one, a sample is held
/// that has not moved, does not bend the line of a held one, and neither turned nor changed
/// between rest and motion as far as that can be told.
pub proof fn law_nothing_else_lets_a_sample_out(
    f: FilterView,
    current: LatLng,
    now: i64,
    g: Geometry,
)
    requires
        f.last_emitted is Some,
        f.last_emit_at matches Some(t) ==> now - t < 1000,
        !g.moved,
        f.candidate is None || !g.off_line,
        !g.turned || f.last_emitted->0.heading is None || current.heading is None,
        !g.motion_changed || f.last_emitted->0.speed is None || current.speed is None,
    ensures
        f.after(current, now, g).1 is None,
{
}

/// What a sample leaves behind: one that went out is the one that the next is measured against,
/// from its own time on, with none held; one that did not is held in place of the one before it,
/// and what the next is measured against stays.
pub proof fn law_filter_remembers_what_went_out(
    f: FilterView,
    current: LatLng,
    now: i64,
    g: Geometry,
)
    ensures
        ({
            let (t, out) = f.after(current, now, g);
            &&& out matches Some(p) ==> p == current && t.last_emitted == Some(current)
                && t.candidate is None && t.last_emit_at == Some(now)
            &&& out is None ==> t.candidate == Some(current) && t.last_emitted == f.last_emitted
                && t.last_emit_at == f.last_emit_at
        }),
        FilterView::fresh().last_emitted is None,
        FilterView::fresh().candidate is None,
        FilterView::fresh().last_emit_at is None,
        FilterView::seeded(current).last_emitted == Some(current),
        FilterView::seeded(current).candidate is None,
        FilterView::seeded(current).last_emit_at == Some(
            match current.timestamp_ms {
                Some(t) => t,
                None => 0,
            },
        ),
{
}

/// Asking whether a sample must go out and handing it in agree.
pub proof fn law_must_emit_says_what_goes_out(
    f: FilterView,
    current: LatLng,
    now: i64,
    g: Geometry,
)
    ensures
        f.must_emit(current, now, g) == (f.after(current, now, g).1 == Some(current)),
        !f.must_emit(current, now, g) == (f.after(current, now, g).1 is None),
{
}

/// Two samples in a row go out no more than a second apart, whatever happened in between: the
/// first sample that comes a second or more after the last one that went out goes out itself.
pub proof fn law_heartbeat_is_kept_across_held_samples(
    f: FilterView,
    first: LatLng,
    t: i64,
    g: Geometry,
    held: LatLng,
    u: i64,
    h: Geometry,
    next: LatLng,
    v: i64,
    k: Geometry,
)
    requires
        f.after(first, t, g).1 is Some,
        v - t >= 1000,
    ensures
        f.after(first, t, g).0.after(held, u, h).1 is None ==> f.after(first, t, g).0.after(
            held,
            u,
            h,
        ).0.after(next, v, k).1 == Some(next),
        f.after(first, t, g).0.after(next, v, k).1 == Some(next),
{
}

/// Which staged sample gives way: a middle one that lies on the straight way between its
/// neighbours, the earliest such; the rest stays in order. Without one nothing goes.
pub proof fn law_collapse_drops_the_first_straight_middle_sample(
    points: Seq<LatLng>,
    straight: Seq<bool>,
)
    ensures
        (forall|i: int| 0 < i < points.len() - 1 && i < straight.len() ==> !straight[i])
            ==> collapsed(points, straight) == points,
        forall|i: int|
            0 < i < points.len() - 1 && i < straight.len() && (#[trigger] straight[i]) && (forall|
                j: int,
            |
                0 < j < i ==> !straight[j]) ==> collapsed(points, straight) == points.take(i)
                + points.skip(i + 1),
{
    lemma_first_straight(straight, 1, points.len() as int);
    assert forall|i: int|
        0 < i < points.len() - 1 && i < straight.len() && (#[trigger] straight[i]) && (forall|
            j: int,
        |
            0 < j < i ==> !straight[j]) implies collapsed(points, straight) == points.take(i)
        + points.skip(i + 1) by {
        let k = first_straight(straight, 1, points.len() as int);
        assert(k is Some);
        assert(k->0 == i);
        assert(points.remove(i) =~= points.take(i) + points.skip(i + 1));
    }
}

} // verus!
