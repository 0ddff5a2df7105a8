//! GPS points on the wire: absolute and delta-coded positions, routes, and location frames.

use crate::tracking::types::LatLng;
use crate::tracking::wire;
use crate::tracking::wire::{DecodeError, Reader, Taken};
use vstd::prelude::*;
use vstd::slice::*;

verus! {

pub const C_LOC: u8 = 0x04;

/// Most points in one location frame.
pub const MAX_LOC_POINTS: u8 = 100;

/// Most points in a route.
pub const MAX_ROUTE_POINTS: usize = 0xFFFF;

const LAT_MIN: i32 = -90_000_000;

const LAT_MAX: i32 = 90_000_000;

const LON_MIN: i32 = -180_000_000;

const LON_MAX: i32 = 180_000_000;

/// Why points could not be written.
#[derive(Debug, Clone, Copy, PartialEq, Eq, Structural)]
pub enum EncodeError {
    Empty,
    DeltaOverflow,
}

impl EncodeError {
    pub open spec fn text(self) -> Seq<char> {
        match self {
            EncodeError::Empty => "empty loc"@,
            EncodeError::DeltaOverflow => "intra-frame delta overflows i16"@,
        }
    }

    /// Human-readable form.
    pub fn message(self) -> (r: &'static str)
        ensures
            r@ == self.text(),
    {
        match self {
            EncodeError::Empty => "empty loc",
            EncodeError::DeltaOverflow => "intra-frame delta overflows i16",
        }
    }
}

// ---------------------------------------------------------------------------------------------
// What the bytes of a point are.
// ---------------------------------------------------------------------------------------------

/// Whether a position lies on the globe.
pub open spec fn on_globe(lat: int, lon: int) -> bool {
    -90_000_000 <= lat <= 90_000_000 && -180_000_000 <= lon <= 180_000_000
}

pub open spec fn is_i16(d: int) -> bool {
    -0x8000 <= d <= 0x7FFF
}

/// Whether the step from one position to the next fits two 16-bit deltas.
pub open spec fn fits(prev_lat: i32, prev_lon: i32, lat: i32, lon: i32) -> bool {
    is_i16(lat - prev_lat) && is_i16(lon - prev_lon)
}

/// Whether `b` can follow `a` in one frame.
pub open spec fn follows(a: LatLng, b: LatLng) -> bool {
    fits(a.latitude, a.longitude, b.latitude, b.longitude)
}

/// Which optional parts a point has: altitude 1, accuracy 2, time 16.
pub open spec fn point_flags(p: LatLng) -> u8 {
    ((if p.altitude is Some { 1int } else { 0 }) + (if p.accuracy is Some { 2int } else { 0 }) + (
    if p.timestamp_ms is Some { 16int } else { 0 })) as u8
}

/// The optional parts of a point.
pub open spec fn point_tail(p: LatLng) -> Seq<u8> {
    (match p.altitude {
        Some(v) => wire::le32(v as int),
        None => Seq::empty(),
    }) + ((match p.accuracy {
        Some(v) => wire::le16(v as int),
        None => Seq::empty(),
    }) + (match p.timestamp_ms {
        Some(v) => wire::le64(v as int),
        None => Seq::empty(),
    }))
}

/// The position of a point: absolute, or as deltas to the position before it.
pub open spec fn point_pos(p: LatLng, prev: Option<(i32, i32)>) -> Seq<u8> {
    match prev {
        None => wire::le32(p.latitude as int) + wire::le32(p.longitude as int),
        Some((lat, lon)) => wire::le16(p.latitude - lat) + wire::le16(p.longitude - lon),
    }
}

pub open spec fn point_bytes(p: LatLng, prev: Option<(i32, i32)>) -> Seq<u8> {
    seq![point_flags(p)] + (point_pos(p, prev) + point_tail(p))
}

/// Points one after the other, each but the first coded against its predecessor.
pub open spec fn chain_bytes(points: Seq<LatLng>, prev: Option<(i32, i32)>) -> Seq<u8>
    decreases points.len(),
{
    if points.len() == 0 {
        Seq::empty()
    } else {
        point_bytes(points[0], prev) + chain_bytes(
            points.skip(1),
            Some((points[0].latitude, points[0].longitude)),
        )
    }
}

/// Whether the points can be coded as a chain.
pub open spec fn chainable(points: Seq<LatLng>) -> bool {
    forall|i: int| 0 < i < points.len() ==> follows(#[trigger] points[i - 1], points[i])
}

/// A location frame: the low 32 bits of the last point's number, a count, and the points.
pub open spec fn loc_frame(seq: int, points: Seq<LatLng>) -> Seq<u8> {
    seq![C_LOC] + (wire::le32(seq) + (seq![points.len() as u8] + chain_bytes(points, None)))
}

/// Where the frame that holds points `start..end` stops when it is filled greedily.
pub open spec fn frame_end(points: Seq<LatLng>, start: int, end: int) -> int
    decreases points.len() - end,
{
    if 0 < end < points.len() && end - start < MAX_LOC_POINTS && follows(points[end - 1], points[end]) {
        frame_end(points, start, end + 1)
    } else {
        end
    }
}

/// The frames for the points from `start` on, where the last point of all has number `last_seq`.
pub open spec fn loc_frames_from(last_seq: int, points: Seq<LatLng>, start: int) -> Seq<Seq<u8>>
    decreases points.len() - start,
{
    if 0 <= start < points.len() {
        let end = frame_end(points, start, start + 1);
        if start < end <= points.len() {
            seq![loc_frame(last_seq - points.len() + end, points.subrange(start, end))]
                + loc_frames_from(last_seq, points, end)
        } else {
            Seq::empty()
        }
    } else {
        Seq::empty()
    }
}

pub open spec fn loc_frames(last_seq: int, points: Seq<LatLng>) -> Seq<Seq<u8>> {
    loc_frames_from(last_seq, points, 0)
}

/// The positions of a route.
pub open spec fn positions(route: Seq<LatLng>) -> Seq<u8>
    decreases route.len(),
{
    if route.len() == 0 {
        Seq::empty()
    } else {
        (wire::le32(route[0].latitude as int) + wire::le32(route[0].longitude as int)) + positions(
            route.skip(1),
        )
    }
}

/// As much of a route as a frame can hold.
pub open spec fn route_head(route: Seq<LatLng>) -> Seq<LatLng> {
    if route.len() > MAX_ROUTE_POINTS {
        route.take(MAX_ROUTE_POINTS as int)
    } else {
        route
    }
}

pub open spec fn route_bytes(route: Seq<LatLng>) -> Seq<u8> {
    wire::le16(route_head(route).len() as int) + positions(route_head(route))
}

// ---------------------------------------------------------------------------------------------
// What a reader makes of bytes.
// ---------------------------------------------------------------------------------------------

pub open spec fn take_pos(b: Seq<u8>, prev: Option<(i32, i32)>) -> Taken<(int, int)> {
    match prev {
        None => match wire::take_i32(b) {
            Err(e) => Err(e),
            Ok((lat, b)) => match wire::take_i32(b) {
                Err(e) => Err(e),
                Ok((lon, b)) => Ok(((lat as int, lon as int), b)),
            },
        },
        Some((plat, plon)) => match wire::take_i16(b) {
            Err(e) => Err(e),
            Ok((dlat, b)) => match wire::take_i16(b) {
                Err(e) => Err(e),
                Ok((dlon, b)) => Ok(((plat + dlat, plon + dlon), b)),
            },
        },
    }
}

pub open spec fn take_altitude(b: Seq<u8>, present: bool) -> Taken<Option<i32>> {
    if present {
        match wire::take_i32(b) {
            Err(e) => Err(e),
            Ok((v, b)) => Ok((Some(v), b)),
        }
    } else {
        Ok((None, b))
    }
}

pub open spec fn take_accuracy(b: Seq<u8>, present: bool) -> Taken<Option<u16>> {
    if present {
        match wire::take_u16(b) {
            Err(e) => Err(e),
            Ok((v, b)) => Ok((Some(v), b)),
        }
    } else {
        Ok((None, b))
    }
}

pub open spec fn take_time(b: Seq<u8>, present: bool) -> Taken<Option<i64>> {
    if present {
        match wire::take_i64(b) {
            Err(e) => Err(e),
            Ok((v, b)) => Ok((Some(v), b)),
        }
    } else {
        Ok((None, b))
    }
}

/// Whether the flag of weight `w` (a power of two) is set.
pub open spec fn flagged(flags: u8, w: int) -> bool {
    (flags as int / w) % 2 == 1
}

pub open spec fn take_point(b: Seq<u8>, prev: Option<(i32, i32)>) -> Taken<LatLng> {
    match wire::take_u8(b) {
        Err(e) => Err(e),
        Ok((flags, b)) => match take_pos(b, prev) {
            Err(e) => Err(e),
            Ok(((lat, lon), b)) => if !on_globe(lat, lon) {
                Err(DecodeError::Invalid)
            } else {
                match take_altitude(b, flagged(flags, 1)) {
                    Err(e) => Err(e),
                    Ok((altitude, b)) => match take_accuracy(b, flagged(flags, 2)) {
                        Err(e) => Err(e),
                        Ok((accuracy, b)) => match take_time(b, flagged(flags, 16)) {
                            Err(e) => Err(e),
                            Ok((timestamp_ms, b)) => Ok(
                                (
                                    LatLng {
                                        altitude,
                                        accuracy,
                                        timestamp_ms,
                                        ..LatLng::bare(lat as i32, lon as i32)
                                    },
                                    b,
                                ),
                            ),
                        },
                    },
                }
            },
        },
    }
}

/// `n` points, each but the first coded against its predecessor.
pub open spec fn take_chain(b: Seq<u8>, n: nat, prev: Option<(i32, i32)>) -> Taken<Seq<LatLng>>
    decreases n,
{
    if n == 0 {
        Ok((Seq::empty(), b))
    } else {
        match take_point(b, prev) {
            Err(e) => Err(e),
            Ok((p, b)) => match take_chain(b, (n - 1) as nat, Some((p.latitude, p.longitude))) {
                Err(e) => Err(e),
                Ok((more, b)) => Ok((seq![p] + more, b)),
            },
        }
    }
}

pub open spec fn take_positions(b: Seq<u8>, n: nat) -> Taken<Seq<LatLng>>
    decreases n,
{
    if n == 0 {
        Ok((Seq::empty(), b))
    } else {
        match take_pos(b, None) {
            Err(e) => Err(e),
            Ok(((lat, lon), b)) => if !on_globe(lat, lon) {
                Err(DecodeError::Invalid)
            } else {
                match take_positions(b, (n - 1) as nat) {
                    Err(e) => Err(e),
                    Ok((more, b)) => Ok((seq![LatLng::bare(lat as i32, lon as i32)] + more, b)),
                }
            },
        }
    }
}

pub open spec fn take_route(b: Seq<u8>) -> Taken<Seq<LatLng>> {
    match wire::take_u16(b) {
        Err(e) => Err(e),
        Ok((n, b)) => take_positions(b, n as nat),
    }
}

// ---------------------------------------------------------------------------------------------
// Writers.
// ---------------------------------------------------------------------------------------------

/// Whether the step to the next position fits in 16-bit microdegree deltas.
pub fn micro_delta_fits(prev_lat: i32, prev_lon: i32, lat: i32, lon: i32) -> (r: bool)
    ensures
        r == fits(prev_lat, prev_lon, lat, lon),
{
    let dlat: i64 = lat as i64 - prev_lat as i64;
    let dlon: i64 = lon as i64 - prev_lon as i64;
    dlat >= -0x8000 && dlat <= 0x7FFF && dlon >= -0x8000 && dlon <= 0x7FFF
}

/// Appends one point, absolute or as deltas to `prev`, and gives its position.
///
/// Where the deltas do not fit, only the flags have been written.
pub fn write_point(w: &mut Vec<u8>, p: &LatLng, prev: Option<(i32, i32)>) -> (r: Result<
    (i32, i32),
    EncodeError,
>)
    ensures
        match prev {
            Some((lat, lon)) if !fits(lat, lon, p.latitude, p.longitude) => {
                &&& r == Err::<(i32, i32), EncodeError>(EncodeError::DeltaOverflow)
                &&& final(w)@ == old(w)@ + seq![point_flags(*p)]
            },
            _ => {
                &&& r == Ok::<(i32, i32), EncodeError>((p.latitude, p.longitude))
                &&& final(w)@ == old(w)@ + point_bytes(*p, prev)
            },
        },
{
    let lat: i32 = p.latitude;
    let lon: i32 = p.longitude;
    let mut flags: u8 = 0;
    if p.altitude.is_some() {
        flags = flags + 1;
    }
    if p.accuracy.is_some() {
        flags = flags + 2;
    }
    if p.timestamp_ms.is_some() {
        flags = flags + 16;
    }
    wire::put_u8(w, flags);
    let ghost w1 = w@;
    match prev {
        Some((plat, plon)) => {
            if !micro_delta_fits(plat, plon, lat, lon) {
                return Err(EncodeError::DeltaOverflow);
            }
            wire::put_i16(w, (lat - plat) as i16);
            wire::put_i16(w, (lon - plon) as i16);
            proof {
                wire::lemma_append(w1, wire::le16(lat - plat), wire::le16(lon - plon));
            }
        },
        None => {
            wire::put_i32(w, lat);
            wire::put_i32(w, lon);
            proof {
                wire::lemma_append(w1, wire::le32(lat as int), wire::le32(lon as int));
            }
        },
    }
    let ghost pos = point_pos(*p, prev);
    write_tail(w, p);
    proof {
        wire::lemma_append(w1, pos, point_tail(*p));
        wire::lemma_append(old(w)@, seq![flags], pos + point_tail(*p));
    }
    Ok((lat, lon))
}

/// Appends the optional parts of a point.
fn write_tail(w: &mut Vec<u8>, p: &LatLng)
    ensures
        final(w)@ == old(w)@ + point_tail(*p),
{
    let ghost none = Seq::<u8>::empty();
    let ghost alt = match p.altitude {
        Some(v) => wire::le32(v as int),
        None => none,
    };
    let ghost acc = match p.accuracy {
        Some(v) => wire::le16(v as int),
        None => none,
    };
    let ghost time = match p.timestamp_ms {
        Some(v) => wire::le64(v as int),
        None => none,
    };
    let ghost w0 = w@;
    if let Some(v) = p.altitude {
        wire::put_i32(w, v);
    }
    assert(w@ == w0 + alt) by {
        assert(w0 + none =~= w0);
    }
    let ghost w1 = w@;
    if let Some(v) = p.accuracy {
        wire::put_u16(w, v);
    }
    assert(w@ == w1 + acc) by {
        assert(w1 + none =~= w1);
    }
    let ghost w2 = w@;
    if let Some(v) = p.timestamp_ms {
        wire::put_i64(w, v);
    }
    assert(w@ == w2 + time) by {
        assert(w2 + none =~= w2);
    }
    proof {
        wire::lemma_append(w1, acc, time);
        wire::lemma_append(w0, alt, acc + time);
    }
}

/// Appends one point with its absolute position.
pub fn write_abs(w: &mut Vec<u8>, p: &LatLng)
    ensures
        final(w)@ == old(w)@ + point_bytes(*p, None),
{
    let _ = write_point(w, p, None);
}

/// Appends a route: a count, then absolute positions.
pub fn write_route_abs(w: &mut Vec<u8>, route: &[LatLng])
    ensures
        final(w)@ == old(w)@ + route_bytes(route@),
{
    let n: usize = if route.len() > MAX_ROUTE_POINTS {
        MAX_ROUTE_POINTS
    } else {
        route.len()
    };
    wire::put_u16(w, n as u16);
    let ghost head = route_head(route@);
    let ghost want = w@ + positions(head);
    assert(head.skip(0) =~= head);
    let mut i: usize = 0;
    while i < n
        invariant
            n == head.len(),
            n <= route@.len(),
            head == route_head(route@),
            i <= n,
            w@ + positions(head.skip(i as int)) == want,
        decreases n - i,
    {
        let ghost before = w@;
        let ghost rest = head.skip(i as int);
        wire::put_i32(w, route[i].latitude);
        wire::put_i32(w, route[i].longitude);
        proof {
            let a = wire::le32(route@[i as int].latitude as int);
            let b = wire::le32(route@[i as int].longitude as int);
            assert(rest[0] == route@[i as int]);
            assert(rest.skip(1) =~= head.skip(i + 1));
            assert(w@ + positions(head.skip(i + 1)) =~= before + ((a + b) + positions(
                head.skip(i + 1),
            )));
        }
        i += 1;
    }
    assert(w@ + positions(head.skip(n as int)) =~= w@);
    assert(want =~= old(w)@ + route_bytes(route@));
}

/// A location frame for points that can be chained.
fn encode_loc_frame(seq: u64, points: &[LatLng]) -> (r: Vec<u8>)
    requires
        points@.len() <= MAX_LOC_POINTS,
        chainable(points@),
    ensures
        r@ == loc_frame(seq as int, points@),
{
    let mut w: Vec<u8> = Vec::new();
    wire::put_u8(&mut w, C_LOC);
    wire::put_seq(&mut w, seq);
    wire::put_u8(&mut w, points.len() as u8);
    let ghost body = chain_bytes(points@, None);
    let ghost want = w@ + body;
    assert(want =~= loc_frame(seq as int, points@));
    assert(points@.skip(0) =~= points@);
    let mut prev: Option<(i32, i32)> = None;
    let mut i: usize = 0;
    while i < points.len()
        invariant
            i <= points@.len(),
            chainable(points@),
            prev == (if i == 0 {
                None::<(i32, i32)>
            } else {
                Some((points@[i - 1].latitude, points@[i - 1].longitude))
            }),
            w@ + chain_bytes(points@.skip(i as int), prev) == want,
        decreases points@.len() - i,
    {
        let ghost before = w@;
        let ghost before_prev = prev;
        let ghost rest = points@.skip(i as int);
        proof {
            if i > 0 {
                assert(follows(points@[i - 1], points@[i as int]));
            }
        }
        let p = points[i];
        let _ = write_point(&mut w, &p, prev);
        prev = Some((p.latitude, p.longitude));
        proof {
            assert(rest[0] == p);
            assert(rest.skip(1) =~= points@.skip(i + 1));
            wire::lemma_append(
                before,
                point_bytes(p, before_prev),
                chain_bytes(points@.skip(i + 1), prev),
            );
        }
        i += 1;
    }
    assert(w@ + chain_bytes(points@.skip(points@.len() as int), prev) =~= w@);
    w
}

/// Where the frame that begins at `start` ends.
fn run_end(points: &[LatLng], start: usize) -> (end: usize)
    requires
        start < points@.len(),
    ensures
        end == frame_end(points@, start as int, start + 1),
        start < end <= points@.len(),
        end - start <= MAX_LOC_POINTS,
        chainable(points@.subrange(start as int, end as int)),
{
    let n: usize = points.len();
    let mut i: usize = start + 1;
    while i < n && i - start < MAX_LOC_POINTS as usize && micro_delta_fits(
        points[i - 1].latitude,
        points[i - 1].longitude,
        points[i].latitude,
        points[i].longitude,
    )
        invariant
            n == points@.len(),
            start < i <= n,
            frame_end(points@, start as int, i as int) == frame_end(
                points@,
                start as int,
                start + 1,
            ),
        decreases n - i,
    {
        i += 1;
    }
    proof {
        lemma_frame_end(points@, start as int, start + 1);
    }
    i
}

/// One more frame behind those that are there.
proof fn lemma_push_frame(
    before: Seq<Seq<u8>>,
    frame: Seq<u8>,
    tail: Seq<Seq<u8>>,
    all: Seq<Seq<u8>>,
)
    requires
        before + (seq![frame] + tail) == all,
    ensures
        before.push(frame) + tail == all,
{
    assert(before.push(frame) + tail =~= before + (seq![frame] + tail));
}

/// The bytes of frames.
pub open spec fn frame_views(v: Seq<Vec<u8>>) -> Seq<Seq<u8>> {
    v.map_values(|f: Vec<u8>| f@)
}

/// Splits points into location frames: 1 to 100 points each, every delta within 16 bits.
///
/// `last_seq` is the number of the last point. Numbers are taken modulo 2^64.
pub fn encode_loc_frames(last_seq: u64, points: &[LatLng]) -> (r: Vec<Vec<u8>>)
    ensures
        frame_views(r@) == loc_frames(last_seq as int, points@),
{
    let n: usize = points.len();
    let base: u64 = last_seq.wrapping_sub(n as u64);
    let mut out: Vec<Vec<u8>> = Vec::new();
    let mut i: usize = 0;
    let ghost all = loc_frames(last_seq as int, points@);
    assert(frame_views(out@) + all =~= all);
    while i < n
        invariant
            n == points@.len(),
            i <= n,
            base == last_seq.wrapping_sub(n as u64),
            all == loc_frames(last_seq as int, points@),
            frame_views(out@) + loc_frames_from(last_seq as int, points@, i as int) == all,
        decreases n - i,
    {
        let start: usize = i;
        let ghost before = frame_views(out@);
        i = run_end(points, start);
        let chunk = slice_subrange(points, start, i);
        let seq: u64 = base.wrapping_add(i as u64);
        let frame = encode_loc_frame(seq, chunk);
        let ghost shown = frame@;
        out.push(frame);
        proof {
            lemma_loc_frame_number(last_seq - n + i, seq as int, chunk@);
            assert(frame_views(out@) =~= before.push(shown));
            lemma_push_frame(
                before,
                shown,
                loc_frames_from(last_seq as int, points@, i as int),
                all,
            );
        }
    }
    assert(frame_views(out@) + Seq::<Seq<u8>>::empty() =~= frame_views(out@));
    out
}

/// A frame carries the low 32 bits of its number, so that numbers modulo 2^64 give the same.
proof fn lemma_loc_frame_number(x: int, y: int, points: Seq<LatLng>)
    requires
        0 <= y < 0x1_0000_0000_0000_0000,
        y == x || y == x + 0x1_0000_0000_0000_0000 || y == x - 0x1_0000_0000_0000_0000,
    ensures
        loc_frame(x, points) == loc_frame(y, points),
{
    lemma_wrapped_seq(x, y);
}

/// A number modulo 2^64 has the low 32 bits of the number itself.
proof fn lemma_wrapped_seq(x: int, y: int)
    requires
        0 <= y < 0x1_0000_0000_0000_0000,
        y == x || y == x + 0x1_0000_0000_0000_0000 || y == x - 0x1_0000_0000_0000_0000,
    ensures
        wire::le32(x) == wire::le32(y),
{
    wire::lemma_le32_mod(x);
    wire::lemma_le32_mod(y);
    let k: int = if y == x {
        0
    } else if y > x {
        0x1_0000_0000
    } else {
        -0x1_0000_0000
    };
    vstd::arithmetic::div_mod::lemma_mod_multiples_vanish(k, x, 0x1_0000_0000);
}

// ---------------------------------------------------------------------------------------------
// Readers.
// ---------------------------------------------------------------------------------------------

fn check_coord(lat: i32, lon: i32) -> (r: bool)
    ensures
        r == on_globe(lat as int, lon as int),
{
    LAT_MIN <= lat && lat <= LAT_MAX && LON_MIN <= lon && lon <= LON_MAX
}

/// `base + d`, stopping at the ends of the 32-bit range.
fn step(base: i32, d: i16) -> (r: i32)
    ensures
        i32::MIN <= base + d <= i32::MAX ==> r == base + d,
        base + d > i32::MAX ==> r == i32::MAX,
        base + d < i32::MIN ==> r == i32::MIN,
{
    let sum: i64 = base as i64 + d as i64;
    if sum > i32::MAX as i64 {
        i32::MAX
    } else if sum < i32::MIN as i64 {
        i32::MIN
    } else {
        sum as i32
    }
}

/// Reads a position. Sums that leave the 32-bit range stop at its ends, off the globe.
fn read_pos(r: &mut Reader<'_>, prev: Option<(i32, i32)>) -> (res: Result<(i32, i32), DecodeError>)
    requires
        old(r).wf(),
    ensures
        final(r).wf(),
        match take_pos(old(r)@, prev) {
            Ok(((lat, lon), rest)) => {
                &&& final(r)@ == rest
                &&& res is Ok
                &&& on_globe(res->Ok_0.0 as int, res->Ok_0.1 as int) == on_globe(lat, lon)
                &&& on_globe(lat, lon) ==> res->Ok_0 == (lat as i32, lon as i32)
            },
            Err(e) => res == Err::<(i32, i32), DecodeError>(e),
        },
{
    match prev {
        Some((plat, plon)) => {
            let dlat: i16 = r.read_i16()?;
            let dlon: i16 = r.read_i16()?;
            Ok((step(plat, dlat), step(plon, dlon)))
        },
        None => {
            let lat: i32 = r.read_i32()?;
            let lon: i32 = r.read_i32()?;
            Ok((lat, lon))
        },
    }
}

/// Reads one point, absolute or as deltas to `prev`.
pub fn read_point(r: &mut Reader<'_>, prev: Option<(i32, i32)>) -> (res: Result<LatLng, DecodeError>)
    requires
        old(r).wf(),
    ensures
        final(r).wf(),
        wire::reads(take_point(old(r)@, prev), res, final(r)@),
{
    let flags: u8 = r.read_u8()?;
    let (lat, lon) = read_pos(r, prev)?;
    if !check_coord(lat, lon) {
        return Err(DecodeError::Invalid);
    }
    let mut p = LatLng::new(lat, lon);
    if flags % 2 == 1 {
        let v: i32 = r.read_i32()?;
        p.altitude = Some(v);
    }
    if (flags / 2) % 2 == 1 {
        let v: u16 = r.read_u16()?;
        p.accuracy = Some(v);
    }
    if (flags / 16) % 2 == 1 {
        let v: i64 = r.read_i64()?;
        p.timestamp_ms = Some(v);
    }
    Ok(p)
}

/// Points already read in front of what is still to come.
pub open spec fn in_front(head: Seq<LatLng>, t: Taken<Seq<LatLng>>) -> Taken<Seq<LatLng>> {
    match t {
        Ok((more, b)) => Ok((head + more, b)),
        Err(e) => Err(e),
    }
}

/// Reads `n` points, each but the first coded against its predecessor.
pub fn read_chain(r: &mut Reader<'_>, n: u8) -> (res: Result<Vec<LatLng>, DecodeError>)
    requires
        old(r).wf(),
    ensures
        final(r).wf(),
        wire::reads_view(take_chain(old(r)@, n as nat, None), res, final(r)@),
{
    let ghost want = take_chain(r@, n as nat, None);
    let mut out: Vec<LatLng> = Vec::new();
    let mut prev: Option<(i32, i32)> = None;
    let mut i: u8 = 0;
    assert(in_front(out@, want) == want) by {
        if let Ok((more, b)) = want {
            assert(out@ + more =~= more);
        }
    }
    while i < n
        invariant
            i <= n,
            r.wf(),
            want == take_chain(old(r)@, n as nat, None),
            in_front(out@, take_chain(r@, (n - i) as nat, prev)) == want,
        decreases n - i,
    {
        let ghost head = out@;
        let ghost b = r@;
        let ghost before = prev;
        let p = read_point(r, prev)?;
        out.push(p);
        prev = Some((p.latitude, p.longitude));
        i += 1;
        proof {
            if let Ok((more, rest)) = take_chain(r@, (n - i) as nat, prev) {
                assert(head + (seq![p] + more) =~= out@ + more);
            }
        }
    }
    assert(out@ + Seq::<LatLng>::empty() =~= out@);
    Ok(out)
}

/// Reads a route: a count, then absolute positions.
pub fn read_route_abs(r: &mut Reader<'_>) -> (res: Result<Vec<LatLng>, DecodeError>)
    requires
        old(r).wf(),
    ensures
        final(r).wf(),
        wire::reads_view(take_route(old(r)@), res, final(r)@),
{
    let n: u16 = r.read_u16()?;
    let ghost want = take_positions(r@, n as nat);
    let mut out: Vec<LatLng> = Vec::new();
    let mut i: u16 = 0;
    assert(in_front(out@, want) == want) by {
        if let Ok((more, b)) = want {
            assert(out@ + more =~= more);
        }
    }
    while i < n
        invariant
            i <= n,
            r.wf(),
            want == take_route(old(r)@),
            in_front(out@, take_positions(r@, (n - i) as nat)) == want,
        decreases n - i,
    {
        let ghost head = out@;
        let (lat, lon) = read_pos(r, None)?;
        if !check_coord(lat, lon) {
            return Err(DecodeError::Invalid);
        }
        let p = LatLng::new(lat, lon);
        out.push(p);
        i += 1;
        proof {
            if let Ok((more, rest)) = take_positions(r@, (n - i) as nat) {
                assert(head + (seq![p] + more) =~= out@ + more);
            }
        }
    }
    assert(out@ + Seq::<LatLng>::empty() =~= out@);
    Ok(out)
}

// ---------------------------------------------------------------------------------------------
// Laws.
// ---------------------------------------------------------------------------------------------

/// Whether a point may stand behind the position `prev` in a frame.
pub open spec fn may_follow(p: LatLng, prev: Option<(i32, i32)>) -> bool {
    match prev {
        Some((lat, lon)) => fits(lat, lon, p.latitude, p.longitude),
        None => true,
    }
}

proof fn lemma_take_pos(p: LatLng, prev: Option<(i32, i32)>, rest: Seq<u8>)
    requires
        may_follow(p, prev),
    ensures
        take_pos(point_pos(p, prev) + rest, prev) == Ok::<_, DecodeError>(
            ((p.latitude as int, p.longitude as int), rest),
        ),
{
    match prev {
        None => {
            let lon = wire::le32(p.longitude as int);
            wire::lemma_append(wire::le32(p.latitude as int), lon, rest);
            wire::lemma_take_i32(p.latitude, lon + rest);
            wire::lemma_take_i32(p.longitude, rest);
        },
        Some((plat, plon)) => {
            let dlat = (p.latitude - plat) as i16;
            let dlon = (p.longitude - plon) as i16;
            wire::lemma_append(wire::le16(dlat as int), wire::le16(dlon as int), rest);
            wire::lemma_take_i16(dlat, wire::le16(dlon as int) + rest);
            wire::lemma_take_i16(dlon, rest);
        },
    }
}

proof fn lemma_take_altitude(v: Option<i32>, rest: Seq<u8>)
    ensures
        take_altitude(
            (match v {
                Some(v) => wire::le32(v as int),
                None => Seq::empty(),
            }) + rest,
            v is Some,
        ) == Ok::<_, DecodeError>((v, rest)),
{
    match v {
        Some(v) => wire::lemma_take_i32(v, rest),
        None => assert(Seq::<u8>::empty() + rest =~= rest),
    }
}

proof fn lemma_take_accuracy(v: Option<u16>, rest: Seq<u8>)
    ensures
        take_accuracy(
            (match v {
                Some(v) => wire::le16(v as int),
                None => Seq::empty(),
            }) + rest,
            v is Some,
        ) == Ok::<_, DecodeError>((v, rest)),
{
    match v {
        Some(v) => wire::lemma_take_u16(v, rest),
        None => assert(Seq::<u8>::empty() + rest =~= rest),
    }
}

pub proof fn lemma_take_time(v: Option<i64>, rest: Seq<u8>)
    ensures
        take_time(
            (match v {
                Some(v) => wire::le64(v as int),
                None => Seq::empty(),
            }) + rest,
            v is Some,
        ) == Ok::<_, DecodeError>((v, rest)),
{
    match v {
        Some(v) => wire::lemma_take_i64(v, rest),
        None => assert(Seq::<u8>::empty() + rest =~= rest),
    }
}

proof fn lemma_flags(p: LatLng)
    ensures
        flagged(point_flags(p), 1) == (p.altitude is Some),
        flagged(point_flags(p), 2) == (p.accuracy is Some),
        flagged(point_flags(p), 16) == (p.timestamp_ms is Some),
{
}

/// A point reads back if each of its parts does.
proof fn lemma_take_point(
    p: LatLng,
    prev: Option<(i32, i32)>,
    pos: Seq<u8>,
    alt: Seq<u8>,
    acc: Seq<u8>,
    time: Seq<u8>,
    rest: Seq<u8>,
)
    requires
        on_globe(p.latitude as int, p.longitude as int),
        take_pos(pos + (alt + (acc + (time + rest))), prev) == Ok::<_, DecodeError>(
            ((p.latitude as int, p.longitude as int), alt + (acc + (time + rest))),
        ),
        take_altitude(alt + (acc + (time + rest)), p.altitude is Some) == Ok::<_, DecodeError>(
            (p.altitude, acc + (time + rest)),
        ),
        take_accuracy(acc + (time + rest), p.accuracy is Some) == Ok::<_, DecodeError>(
            (p.accuracy, time + rest),
        ),
        take_time(time + rest, p.timestamp_ms is Some) == Ok::<_, DecodeError>(
            (p.timestamp_ms, rest),
        ),
    ensures
        take_point((seq![point_flags(p)] + (pos + (alt + (acc + time)))) + rest, prev) == Ok::<
            _,
            DecodeError,
        >((p.wire(), rest)),
{
    let flags = point_flags(p);
    wire::lemma_append(alt, acc + time, rest);
    wire::lemma_append(acc, time, rest);
    wire::lemma_append(pos, alt + (acc + time), rest);
    wire::lemma_append(seq![flags], pos + (alt + (acc + time)), rest);
    wire::lemma_take_u8(flags, pos + (alt + (acc + (time + rest))));
    lemma_flags(p);
}

/// A written point reads back as what the wire carries of it, and whatever is behind it stays.
pub proof fn law_point_round_trip(p: LatLng, prev: Option<(i32, i32)>, rest: Seq<u8>)
    requires
        on_globe(p.latitude as int, p.longitude as int),
        may_follow(p, prev),
    ensures
        take_point(point_bytes(p, prev) + rest, prev) == Ok::<_, DecodeError>((p.wire(), rest)),
{
    let alt = match p.altitude {
        Some(v) => wire::le32(v as int),
        None => Seq::empty(),
    };
    let acc = match p.accuracy {
        Some(v) => wire::le16(v as int),
        None => Seq::empty(),
    };
    let time = match p.timestamp_ms {
        Some(v) => wire::le64(v as int),
        None => Seq::empty(),
    };
    lemma_take_pos(p, prev, alt + (acc + (time + rest)));
    lemma_take_altitude(p.altitude, acc + (time + rest));
    lemma_take_accuracy(p.accuracy, time + rest);
    lemma_take_time(p.timestamp_ms, rest);
    lemma_take_point(p, prev, point_pos(p, prev), alt, acc, time, rest);
}

/// A written point that is off the globe does not read back.
pub proof fn lemma_off_globe(p: LatLng, rest: Seq<u8>)
    requires
        !on_globe(p.latitude as int, p.longitude as int),
    ensures
        take_point(point_bytes(p, None) + rest, None) is Err,
{
    let tail = point_tail(p);
    wire::lemma_append(point_pos(p, None), tail, rest);
    wire::lemma_append(seq![point_flags(p)], point_pos(p, None) + tail, rest);
    wire::lemma_take_u8(point_flags(p), point_pos(p, None) + (tail + rest));
    lemma_take_pos(p, None, tail + rest);
}

/// What the wire carries of each point.
pub open spec fn wire_points(points: Seq<LatLng>) -> Seq<LatLng> {
    points.map_values(|p: LatLng| p.wire())
}

pub open spec fn all_on_globe(points: Seq<LatLng>) -> bool {
    forall|i: int|
        0 <= i < points.len() ==> on_globe(
            (#[trigger] points[i]).latitude as int,
            points[i].longitude as int,
        )
}

/// A written chain of points reads back in full and in order.
pub proof fn law_chain_round_trip(points: Seq<LatLng>, prev: Option<(i32, i32)>, rest: Seq<u8>)
    requires
        all_on_globe(points),
        chainable(points),
        points.len() > 0 ==> may_follow(points[0], prev),
    ensures
        take_chain(chain_bytes(points, prev) + rest, points.len(), prev) == Ok::<_, DecodeError>(
            (wire_points(points), rest),
        ),
    decreases points.len(),
{
    if points.len() == 0 {
        assert(chain_bytes(points, prev) + rest =~= rest);
        assert(wire_points(points) =~= Seq::empty());
    } else {
        let p = points[0];
        let more = points.skip(1);
        let here = Some((p.latitude, p.longitude));
        assert forall|i: int| 0 < i < more.len() implies follows(
            #[trigger] more[i - 1],
            more[i],
        ) by {
            assert(more[i - 1] == points[i]);
            assert(points[(i + 1) - 1] == points[i]);
            assert(more[i] == points[i + 1]);
        }
        if more.len() > 0 {
            assert(points[1 - 1] == p);
            assert(follows(points[1 - 1], points[1]));
        }
        law_chain_round_trip(more, here, rest);
        law_point_round_trip(p, prev, chain_bytes(more, here) + rest);
        wire::lemma_append(point_bytes(p, prev), chain_bytes(more, here), rest);
        assert(seq![p.wire()] + wire_points(more) =~= wire_points(points));
    }
}

/// Points read off the wire always lie on the globe.
pub proof fn law_decoded_points_lie_on_globe(b: Seq<u8>, n: nat, prev: Option<(i32, i32)>)
    ensures
        match take_chain(b, n, prev) {
            Ok((points, _)) => points.len() == n && all_on_globe(points),
            Err(_) => true,
        },
    decreases n,
{
    if n > 0 {
        if let Ok((p, b1)) = take_point(b, prev) {
            law_decoded_points_lie_on_globe(
                b1,
                (n - 1) as nat,
                Some((p.latitude, p.longitude)),
            );
        }
    }
}

/// The bare positions of a route.
pub open spec fn bare_points(route: Seq<LatLng>) -> Seq<LatLng> {
    route.map_values(|p: LatLng| LatLng::bare(p.latitude, p.longitude))
}

proof fn lemma_positions_round_trip(route: Seq<LatLng>, rest: Seq<u8>)
    requires
        all_on_globe(route),
    ensures
        take_positions(positions(route) + rest, route.len()) == Ok::<_, DecodeError>(
            (bare_points(route), rest),
        ),
    decreases route.len(),
{
    broadcast use wire::group_take;

    if route.len() == 0 {
        assert(positions(route) + rest =~= rest);
        assert(bare_points(route) =~= Seq::empty());
    } else {
        let p = route[0];
        let more = route.skip(1);
        let lat = wire::le32(p.latitude as int);
        let lon = wire::le32(p.longitude as int);
        let tail = positions(more) + rest;
        lemma_positions_round_trip(more, rest);
        assert(positions(route) + rest == lat + (lon + tail)) by {
            wire::lemma_append(lat + lon, positions(more), rest);
            wire::lemma_append(lat, lon, tail);
        }
        assert(seq![LatLng::bare(p.latitude, p.longitude)] + bare_points(more)
            =~= bare_points(route));
    }
}

/// A written route reads back as bare positions, cut at the most points a frame can hold.
pub proof fn law_route_round_trip(route: Seq<LatLng>, rest: Seq<u8>)
    requires
        all_on_globe(route),
    ensures
        take_route(route_bytes(route) + rest) == Ok::<_, DecodeError>(
            (bare_points(route_head(route)), rest),
        ),
{
    broadcast use wire::group_take;

    let head = route_head(route);
    lemma_positions_round_trip(head, rest);
    wire::lemma_append(wire::le16(head.len() as int), positions(head), rest);
    wire::lemma_take_u16(head.len() as u16, positions(head) + rest);
}

/// Where the frames for the points from `start` on end.
pub open spec fn frame_ends(points: Seq<LatLng>, start: int) -> Seq<int>
    decreases points.len() - start,
{
    if 0 <= start < points.len() {
        let end = frame_end(points, start, start + 1);
        if start < end <= points.len() {
            seq![end] + frame_ends(points, end)
        } else {
            Seq::empty()
        }
    } else {
        Seq::empty()
    }
}

proof fn lemma_frame_end(points: Seq<LatLng>, start: int, end: int)
    requires
        0 <= start < end <= points.len(),
        end - start <= MAX_LOC_POINTS,
        chainable(points.subrange(start, end)),
    ensures
        ({
            let stop = frame_end(points, start, end);
            &&& end <= stop <= points.len()
            &&& stop - start <= MAX_LOC_POINTS
            &&& chainable(points.subrange(start, stop))
            &&& stop < points.len() ==> stop - start == MAX_LOC_POINTS || !follows(
                points[stop - 1],
                points[stop],
            )
        }),
    decreases points.len() - end,
{
    if end < points.len() && end - start < MAX_LOC_POINTS && follows(points[end - 1], points[end]) {
        let a = points.subrange(start, end);
        let b = points.subrange(start, end + 1);
        assert forall|i: int| 0 < i < b.len() implies follows(#[trigger] b[i - 1], b[i]) by {
            if i < a.len() {
                assert(a[i - 1] == b[i - 1]);
                assert(a[i] == b[i]);
            } else {
                assert(b[i - 1] == points[end - 1]);
                assert(b[i] == points[end]);
            }
        }
        lemma_frame_end(points, start, end + 1);
    }
}

/// The start of frame `k`: where the frame before it ended.
pub open spec fn frame_start(ends: Seq<int>, start: int, k: int) -> int {
    if k == 0 {
        start
    } else {
        ends[k - 1]
    }
}

/// What holds of the frame for points `s..e`: 1 to 100 points within 16-bit steps of each other,
/// more only where the next one does not fit, under the number of the last.
pub open spec fn frame_is_run(last_seq: int, points: Seq<LatLng>, s: int, e: int, frame: Seq<u8>) -> bool {
    &&& 0 <= s < e <= points.len()
    &&& e - s <= MAX_LOC_POINTS
    &&& chainable(points.subrange(s, e))
    &&& frame == loc_frame(last_seq - points.len() + e, points.subrange(s, e))
    &&& e < points.len() ==> e - s == MAX_LOC_POINTS || !follows(points[e - 1], points[e])
}

/// What [`law_loc_frames_cover_points`] says of the frames from `start` on.
pub open spec fn frames_cover(last_seq: int, points: Seq<LatLng>, start: int) -> bool {
    let frames = loc_frames_from(last_seq, points, start);
    let ends = frame_ends(points, start);
    &&& frames.len() == ends.len()
    &&& start < points.len() ==> ends.len() > 0 && ends.last() == points.len()
    &&& forall|k: int|
        #![trigger frames[k]]
        #![trigger ends[k]]
        0 <= k < ends.len() ==> frame_is_run(
            last_seq,
            points,
            frame_start(ends, start, k),
            ends[k],
            frames[k],
        )
}

proof fn lemma_frames_cover(last_seq: int, points: Seq<LatLng>, start: int)
    requires
        0 <= start <= points.len(),
    ensures
        frames_cover(last_seq, points, start),
    decreases points.len() - start,
{
    if start < points.len() {
        let end = frame_end(points, start, start + 1);
        lemma_frame_end(points, start, start + 1);
        lemma_frames_cover(last_seq, points, end);
        let frames = loc_frames_from(last_seq, points, start);
        let ends = frame_ends(points, start);
        let frames1 = loc_frames_from(last_seq, points, end);
        let ends1 = frame_ends(points, end);
        assert(ends =~= seq![end] + ends1);
        let first = loc_frame(last_seq - points.len() + end, points.subrange(start, end));
        assert(frames =~= seq![first] + frames1);
        assert(frame_is_run(last_seq, points, start, end, first));
        assert forall|k: int|
            #![trigger frames[k]]
            #![trigger ends[k]]
            0 <= k < ends.len() implies frame_is_run(
            last_seq,
            points,
            frame_start(ends, start, k),
            ends[k],
            frames[k],
        ) by {
            if k > 0 {
                assert(ends[k] == ends1[k - 1]);
                assert(frames[k] == frames1[k - 1]);
                assert(frame_start(ends, start, k) == frame_start(ends1, end, k - 1));
            }
        }
        if ends1.len() == 0 {
            assert(end == points.len());
        } else {
            assert(ends.last() == ends1.last());
        }
    }
}

/// Location frames cut the points into consecutive runs that leave nothing out and change no
/// order. Each run has 1 to 100 points within 16-bit steps of each other and stops only where it
/// must; its frame carries the number of its last point.
pub proof fn law_loc_frames_cover_points(last_seq: int, points: Seq<LatLng>)
    ensures
        frames_cover(last_seq, points, 0),
{
    lemma_frames_cover(last_seq, points, 0);
}

/// Frame `k` carries the points from where the one before it ended, under the number of its last.
pub proof fn lemma_frame_at(last_seq: int, points: Seq<LatLng>, k: int)
    requires
        0 <= k < frame_ends(points, 0).len(),
    ensures
        ({
            let ends = frame_ends(points, 0);
            let from = frame_start(ends, 0, k);
            &&& loc_frames(last_seq, points).len() == ends.len()
            &&& 0 <= from < ends[k] <= points.len()
            &&& ends[k] - from <= 100
            &&& ends[k] < points.len() ==> ends[k] - from == 100 || !follows(
                points[ends[k] - 1],
                points[ends[k]],
            )
            &&& loc_frames(last_seq, points)[k] == loc_frame(
                last_seq - points.len() + ends[k],
                points.subrange(from, ends[k]),
            )
        }),
{
    lemma_frames_cover(last_seq, points, 0);
    let ends = frame_ends(points, 0);
    assert(frame_is_run(
        last_seq,
        points,
        frame_start(ends, 0, k),
        ends[k],
        loc_frames(last_seq, points)[k],
    ));
}

/// The frames end with the last point.
pub proof fn lemma_frames_end(last_seq: int, points: Seq<LatLng>)
    ensures
        loc_frames(last_seq, points).len() == frame_ends(points, 0).len(),
        points.len() > 0 ==> frame_ends(points, 0).len() > 0 && frame_ends(points, 0).last()
            == points.len(),
{
    lemma_frames_cover(last_seq, points, 0);
}

} // verus!
