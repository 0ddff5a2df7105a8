//! Tracking session (device or listener).
//!
//! [`Client`] holds the state of a session and decides what happens; it does no I/O itself. Each
//! method takes what happened and gives back what to do: frames to write, calls to answer, events
//! to hand on.

use crate::clock::Nanos;
use crate::tracking::backoff::{new_backoff, next_delay, reset_backoff, BackoffState};
use crate::tracking::cmd;
use crate::tracking::cmd::{ClientCmd, ServerEvt};
use crate::tracking::codec;
use crate::tracking::codec::{
    encode_client_cmd, encode_loc_frames, stamp_lat_lng_at, stamp_lat_lngs_at, strip_live_time,
};
use crate::tracking::config;
use crate::tracking::config::{Config, ConnectionState, DeviceAuth, ListenerAuth};
use crate::tracking::errors;
use crate::tracking::errors::{
    error_from_evt, is_auth_error, is_fatal_resume_error, new_error, Error,
};
use crate::tracking::filter::{Geometry, NoiseFilter};
use crate::tracking::points;
use crate::tracking::queue;
use crate::tracking::queue::{OfflineQueue, QueuedPoint};
use crate::tracking::rate::{can_accept_publish, next_publish_allowed_at};
use crate::tracking::session;
use crate::tracking::session::{ActionView, AfterCloseView, ClientView, Moment, MAX_EVENT_BYTES, MIN_EVENT_INTERVAL};
use crate::tracking::subs;
use crate::tracking::subs::{DeviceSet, DeviceTable, HandleTable};
use crate::tracking::types::{Command, CommandAckStatus, ErrorCode, LatLng, Relocate};
use crate::tracking::wire;
use vstd::prelude::*;
use vstd::string::*;

verus! {

/// What a step asks of the outside.
#[derive(Debug)]
pub enum Action {
    /// Write a binary frame.
    Send(Vec<u8>),
    /// Close the socket.
    HangUp,
    /// Hand an event to the receiver.
    Deliver(ServerEvt),
    /// Hand a command to the command receiver.
    DeliverCommand(Command),
    /// Answer a pending start.
    Started(Result<String, Error>),
    /// Answer a pending stop.
    Stopped(Result<(), Error>),
    /// Answer a pending resume.
    Resumed(Result<u64, Error>),
    /// Move to another endpoint.
    Relocate(Relocate),
    /// Get fresh credentials, or give up.
    RefreshAuth,
}

impl View for Action {
    type V = ActionView;

    open spec fn view(&self) -> ActionView {
        match *self {
            Action::Send(f) => ActionView::Send(f@),
            Action::HangUp => ActionView::HangUp,
            Action::Deliver(e) => ActionView::Deliver(e@),
            Action::DeliverCommand(c) => ActionView::DeliverCommand {
                command_id: c.command_id@,
                payload: c.payload@,
                timestamp_ms: c.timestamp_ms,
            },
            Action::Started(r) => ActionView::Started(
                match r {
                    Ok(s) => Ok(s@),
                    Err(e) => Err(e@),
                },
            ),
            Action::Stopped(r) => ActionView::Stopped(
                match r {
                    Ok(_) => Ok(()),
                    Err(e) => Err(e@),
                },
            ),
            Action::Resumed(r) => ActionView::Resumed(
                match r {
                    Ok(n) => Ok(n),
                    Err(e) => Err(e@),
                },
            ),
            Action::Relocate(r) => ActionView::Relocate {
                endpoint: r.endpoint@,
                retry_after_ms: r.retry_after_ms,
            },
            Action::RefreshAuth => ActionView::RefreshAuth,
        }
    }
}

/// The values of actions.
pub open spec fn acts(v: Seq<Action>) -> Seq<ActionView> {
    v.map_values(|a: Action| a@)
}

/// What follows when the socket is gone.
#[derive(Debug)]
pub enum AfterClose {
    /// The socket of an older dial: nothing.
    Ignore,
    /// The session is over; pending calls are answered.
    Ended(Vec<Action>),
    /// Wait, then dial again.
    Redial { delay: Nanos, send_resume: bool },
}

impl View for AfterClose {
    type V = AfterCloseView;

    open spec fn view(&self) -> AfterCloseView {
        match *self {
            AfterClose::Ignore => AfterCloseView::Ignore,
            AfterClose::Ended(v) => AfterCloseView::Ended(acts(v@)),
            AfterClose::Redial { delay, send_resume } => AfterCloseView::Redial {
                delay,
                send_resume,
            },
        }
    }
}

/// Tracking session (device or listener).
#[derive(Debug)]
pub struct Client {
    cfg: Config,
    state: ConnectionState,
    track_uid: String,
    last_assigned_seq: u64,
    last_acked_seq: u64,
    queue: OfflineQueue,
    filter: NoiseFilter,
    session_ready: bool,
    backoff: BackoffState,
    next_publish_at: Nanos,
    next_event_at: Nanos,
    subscriptions: DeviceSet,
    sub_by_device: HandleTable,
    device_by_sub: DeviceTable,
    intentional: bool,
    dial_gen: u64,
    socket: bool,
    writer: bool,
    start_wait: bool,
    stop_wait: bool,
    resume_wait: bool,
    starting: bool,
}

impl View for Client {
    type V = ClientView;

    closed spec fn view(&self) -> ClientView {
        ClientView {
            cfg: self.cfg@,
            state: self.state,
            track_uid: self.track_uid@,
            last_assigned_seq: self.last_assigned_seq,
            last_acked_seq: self.last_acked_seq,
            queue: self.queue@,
            filter: self.filter@,
            session_ready: self.session_ready,
            backoff: self.backoff,
            next_publish_at: self.next_publish_at,
            next_event_at: self.next_event_at,
            subscriptions: self.subscriptions@,
            sub_by_device: self.sub_by_device@,
            device_by_sub: self.device_by_sub@,
            intentional: self.intentional,
            dial_gen: self.dial_gen,
            socket: self.socket,
            writer: self.writer,
            start_wait: self.start_wait,
            stop_wait: self.stop_wait,
            resume_wait: self.resume_wait,
            starting: self.starting,
        }
    }
}

/// Why a configuration opens no session.
pub open spec fn config_error(cfg: config::ConfigView) -> Option<errors::ErrorView> {
    if cfg.endpoint.len() == 0 {
        Some(errors::plain_error(ErrorCode::Invalid, "Endpoint is required"@))
    } else if cfg.device is None && cfg.listener is None {
        Some(errors::plain_error(ErrorCode::Invalid, "Device or Listener auth is required"@))
    } else {
        None
    }
}

/// The state of a session before its first dial.
pub open spec fn initial(cfg: config::ConfigView, now: Nanos) -> ClientView {
    ClientView {
        cfg: config::ConfigView {
            hello_timeout: if cfg.hello_timeout == 0 {
                config::DEFAULT_HELLO_TIMEOUT
            } else {
                cfg.hello_timeout
            },
            ..cfg
        },
        state: ConnectionState::Connecting,
        track_uid: Seq::empty(),
        last_assigned_seq: 0,
        last_acked_seq: 0,
        queue: queue::QueueView::empty(
            if cfg.max_queue_size == 0 {
                queue::DEFAULT_MAX_QUEUE as nat
            } else {
                cfg.max_queue_size as nat
            },
        ),
        filter: crate::tracking::filter::FilterView::fresh(),
        session_ready: false,
        backoff: BackoffState {
            attempt: 0,
            min_delay: if cfg.reconnect_min_delay == 0 {
                crate::tracking::backoff::DEFAULT_MIN_DELAY
            } else {
                cfg.reconnect_min_delay
            },
            max_delay: if cfg.reconnect_max_delay == 0 {
                crate::tracking::backoff::DEFAULT_MAX_DELAY
            } else {
                cfg.reconnect_max_delay
            },
            max_attempts: cfg.reconnect_max_attempts,
        },
        next_publish_at: now,
        next_event_at: now,
        subscriptions: subs::distinct(cfg.subscribe),
        sub_by_device: Map::empty(),
        device_by_sub: Map::empty(),
        intentional: false,
        dial_gen: 0,
        socket: false,
        writer: false,
        start_wait: false,
        stop_wait: false,
        resume_wait: false,
        starting: false,
    }
}

/// Sets up a tracking session; the first dial follows.
pub fn connect(cfg: Config, now: Nanos) -> (r: Result<Client, Error>)
    ensures
        match config_error(cfg@) {
            Some(e) => r is Err && r->Err_0@ == e,
            None => r is Ok && r->Ok_0.wf() && r->Ok_0@ == initial(cfg@, now),
        },
{
    if cfg.endpoint.as_str().unicode_len() == 0 {
        return Err(new_error(ErrorCode::Invalid, "Endpoint is required"));
    }
    if cfg.device.is_none() && cfg.listener.is_none() {
        return Err(new_error(ErrorCode::Invalid, "Device or Listener auth is required"));
    }
    let ghost given = cfg@;
    let mut cfg = cfg;
    if cfg.hello_timeout == 0 {
        cfg.hello_timeout = config::DEFAULT_HELLO_TIMEOUT;
    }
    let subscriptions = DeviceSet::from_list(&cfg.subscribe);
    let client = Client {
        backoff: new_backoff(
            cfg.reconnect_min_delay,
            cfg.reconnect_max_delay,
            cfg.reconnect_max_attempts,
        ),
        queue: OfflineQueue::new(cfg.max_queue_size),
        filter: NoiseFilter::new(),
        cfg,
        state: ConnectionState::Connecting,
        track_uid: String::new(),
        last_assigned_seq: 0,
        last_acked_seq: 0,
        session_ready: false,
        next_publish_at: now,
        next_event_at: now,
        subscriptions,
        sub_by_device: HandleTable::new(),
        device_by_sub: DeviceTable::new(),
        intentional: false,
        dial_gen: 0,
        socket: false,
        writer: false,
        start_wait: false,
        stop_wait: false,
        resume_wait: false,
        starting: false,
    };
    assert(client@ =~= initial(given, now));
    Ok(client)
}

proof fn lemma_frame_holds_number(seq: int, pts: Seq<LatLng>)
    ensures
        points::loc_frame(seq, pts).len() >= 5,
{
    wire::lemma_le32_len(seq);
}

/// The number of a frame reads back as it stands on the wire.
pub proof fn lemma_frame_number(seq: int, pts: Seq<LatLng>)
    ensures
        session::frame_seq(points::loc_frame(seq, pts)) == seq % 0x1_0000_0000,
{
    let n = wire::le32(seq);
    let frame = points::loc_frame(seq, pts);
    wire::lemma_le32_len(seq);
    assert(frame.subrange(1, 5) =~= n);
    wire::lemma_u32_at(seq, frame, 1);
}

/// There is a frame for points, and every frame has room for its number.
proof fn lemma_frames_hold_number(last_seq: int, pts: Seq<LatLng>)
    ensures
        pts.len() > 0 ==> points::loc_frames(last_seq, pts).len() > 0,
        forall|k: int|
            0 <= k < points::loc_frames(last_seq, pts).len() ==> (#[trigger] points::loc_frames(
                last_seq,
                pts,
            )[k]).len() >= 5,
{
    points::law_loc_frames_cover_points(last_seq, pts);
    let frames = points::loc_frames_from(last_seq, pts, 0);
    let ends = points::frame_ends(pts, 0);
    assert forall|k: int| 0 <= k < frames.len() implies (#[trigger] points::loc_frames(
        last_seq,
        pts,
    )[k]).len() >= 5 by {
        let s = points::frame_start(ends, 0, k);
        let e = ends[k];
        assert(points::frame_is_run(last_seq, pts, s, e, frames[k]));
        lemma_frame_holds_number(last_seq - pts.len() + e, pts.subrange(s, e));
    }
}

/// The points without their numbers.
fn points_of(v: &Vec<QueuedPoint>) -> (r: Vec<LatLng>)
    ensures
        r@ == v@.map_values(|p: QueuedPoint| p.point),
{
    let mut pts: Vec<LatLng> = Vec::new();
    let mut i: usize = 0;
    while i < v.len()
        invariant
            i <= v@.len(),
            pts@ =~= v@.take(i as int).map_values(|p: QueuedPoint| p.point),
        decreases v@.len() - i,
    {
        pts.push(v[i].point);
        i += 1;
    }
    assert(v@.take(i as int) =~= v@);
    pts
}

impl Client {
    /// The parts are sound, and no more frames are on their way than the window takes.
    pub closed spec fn wf(&self) -> bool {
        &&& self.queue.wf()
        &&& self.subscriptions.wf()
        &&& self.sub_by_device.wf()
        &&& self@.queue.sent_frame_seqs.len() <= queue::MAX_UNACKED_FRAMES
    }

    /// Connection state.
    pub fn state(&self) -> (r: ConnectionState)
        ensures
            r == self@.state,
    {
        self.state
    }

    /// Active track UID, empty if there is none.
    pub fn track_uid(&self) -> (r: String)
        ensures
            r@ == self@.track_uid,
    {
        self.track_uid.clone()
    }

    /// Last assigned publish number.
    pub fn client_seq(&self) -> (r: u64)
        ensures
            r == self@.last_assigned_seq,
    {
        self.last_assigned_seq
    }

    /// Highest number the server has acknowledged.
    pub fn last_acked_seq(&self) -> (r: u64)
        ensures
            r == self@.last_acked_seq,
    {
        self.last_acked_seq
    }

    /// The number of the current dial.
    pub fn dial_gen(&self) -> (r: u64)
        ensures
            r == self@.dial_gen,
    {
        self.dial_gen
    }

    /// The settings in force.
    pub fn config(&self) -> (r: &Config)
        ensures
            r@ == self@.cfg,
    {
        &self.cfg
    }

    /// The filter, for the geometry of the next sample.
    pub fn noise_filter(&self) -> (r: &NoiseFilter)
        ensures
            r@ == self@.filter,
    {
        &self.filter
    }

    /// The queue, for the collinearity of staged points.
    pub fn offline_queue(&self) -> (r: &OfflineQueue)
        requires
            self.wf(),
        ensures
            r.wf(),
            r@ == self@.queue,
    {
        &self.queue
    }

    /// Whether the session may dial again.
    pub fn may_redial(&self) -> (r: bool)
        ensures
            r == !self@.intentional,
    {
        !self.intentional
    }

    /// The socket takes no more frames.
    pub fn writer_gone(&mut self)
        requires
            old(self).wf(),
        ensures
            final(self).wf(),
            final(self)@ == (ClientView { writer: false, ..old(self)@ }),
    {
        self.writer = false;
    }

    /// Whether a frame can be sent, and why not.
    pub fn gate(&self) -> (r: Result<(), Error>)
        ensures
            match self@.gate() {
                Ok(_) => r is Ok,
                Err(e) => r is Err && r->Err_0@ == e,
            },
    {
        if self.state == ConnectionState::Closed && self.intentional {
            return Err(new_error(ErrorCode::Invalid, "closed"));
        }
        if !self.socket || !self.writer {
            return Err(new_error(ErrorCode::TryAgain, "socket not open"));
        }
        Ok(())
    }

    /// One flush round: the frames that go out now, which are noted in the queue.
    fn flush_round(&mut self) -> (r: Vec<Vec<u8>>)
        requires
            old(self).wf(),
            old(self)@.may_flush(),
        ensures
            final(self).wf(),
            old(self)@.flush_due() ==> {
                &&& final(self)@ == old(self)@.flush_round()
                &&& r@.map_values(|f: Vec<u8>| f@) == old(self)@.flush_frames()
                &&& r@.len() > 0
                &&& final(self)@.queue.window_remaining() < old(self)@.queue.window_remaining()
            },
            !old(self)@.flush_due() ==> final(self)@ == old(self)@ && r@.len() == 0,
    {
        let ghost before = self@;
        let remaining: usize = self.queue.window_remaining();
        let (pts, last_seq) = self.take_flush_points();
        if pts.len() == 0 {
            let none: Vec<Vec<u8>> = Vec::new();
            return none;
        }
        let all = encode_loc_frames(last_seq, pts.as_slice());
        proof {
            lemma_frames_hold_number(last_seq as int, pts@);
            let frames = all@.map_values(|f: Vec<u8>| f@);
            assert(frames == points::loc_frames(last_seq as int, pts@));
            assert forall|k: int| 0 <= k < all@.len() implies (#[trigger] all@[k])@.len() >= 5 by {
                assert(frames[k] == all@[k]@);
            }
            assert(frames.take(frames.len() as int) =~= frames);
        }
        self.note_frames(all, remaining)
    }

    /// The points of one flush round and the number of the last; staged ones get their numbers.
    fn take_flush_points(&mut self) -> (r: (Vec<LatLng>, u64))
        requires
            old(self).wf(),
            old(self)@.may_flush(),
        ensures
            final(self).wf(),
            (r.0@, r.1) == old(self)@.flush_points() || (r.0@.len() == 0 && old(
                self,
            )@.flush_points().0.len() == 0),
            r.0@.len() > 0 ==> final(self)@ == old(self)@.flush_numbered(),
            r.0@.len() == 0 ==> final(self)@ == old(self)@,
            final(self)@.queue.sent_frame_seqs == old(self)@.queue.sent_frame_seqs,
    {
        let ghost before = self@;
        let unsent = self.queue.unsent_inflight();
        if unsent.len() > 0 {
            let last_seq: u64 = unsent[unsent.len() - 1].seq;
            let pts = points_of(&unsent);
            return (pts, last_seq);
        }
        let room: usize = 100 * self.queue.window_remaining();
        let staged: usize = self.queue.staging_len();
        let take: usize = if staged < room {
            staged
        } else {
            room
        };
        if take == 0 {
            let none: Vec<LatLng> = Vec::new();
            return (none, 0);
        }
        let assigned = self.queue.assign_from_staging(take, self.last_assigned_seq);
        let last_seq: u64 = assigned[assigned.len() - 1].seq;
        self.last_assigned_seq = last_seq;
        let pts = points_of(&assigned);
        assert(pts@ =~= before.queue.staging.take(take as int));
        assert(self@ =~= before.flush_numbered());
        (pts, last_seq)
    }

    /// Notes the first frames, as many as the window takes, and gives them.
    fn note_frames(&mut self, all: Vec<Vec<u8>>, remaining: usize) -> (r: Vec<Vec<u8>>)
        requires
            old(self).wf(),
            remaining == old(self)@.queue.window_remaining(),
            forall|k: int| 0 <= k < all@.len() ==> (#[trigger] all@[k])@.len() >= 5,
        ensures
            final(self).wf(),
            ({
                let frames = all@.map_values(|f: Vec<u8>| f@);
                let n = if all@.len() > remaining {
                    remaining as int
                } else {
                    all@.len() as int
                };
                &&& r@.map_values(|f: Vec<u8>| f@) == frames.take(n)
                &&& r@.len() == n
                &&& final(self)@ == (ClientView {
                    queue: session::record_all(old(self)@.queue, frames.take(n)),
                    ..old(self)@
                })
                &&& final(self)@.queue.window_remaining() == remaining - n
            }),
    {
        let ghost before = self@;
        let ghost frames = all@.map_values(|f: Vec<u8>| f@);
        let mut out: Vec<Vec<u8>> = Vec::new();
        let n: usize = if all.len() > remaining {
            remaining
        } else {
            all.len()
        };
        let mut i: usize = 0;
        assert(frames.take(0) =~= Seq::<Seq<u8>>::empty());
        assert(out@.map_values(|f: Vec<u8>| f@) =~= frames.take(0));
        assert(self@ =~= (ClientView {
            queue: session::record_all(before.queue, frames.take(0)),
            ..before
        }));
        while i < n
            invariant
                i <= n,
                n <= all@.len(),
                n <= remaining,
                frames == all@.map_values(|f: Vec<u8>| f@),
                remaining == before.queue.window_remaining(),
                before.queue.sent_frame_seqs.len() <= queue::MAX_UNACKED_FRAMES,
                self.wf(),
                forall|k: int| 0 <= k < all@.len() ==> (#[trigger] all@[k])@.len() >= 5,
                out@.map_values(|f: Vec<u8>| f@) == frames.take(i as int),
                out@.len() == i,
                self@ == (ClientView {
                    queue: session::record_all(before.queue, frames.take(i as int)),
                    ..before
                }),
                self@.queue.sent_frame_seqs.len() == before.queue.sent_frame_seqs.len() + i,
            decreases n - i,
        {
            let frame = all[i].clone();
            assert(frame@ =~= frames[i as int]);
            let seq: u64 = frame[1] as u64 + 256 * frame[2] as u64 + 0x1_0000 * (frame[3] as u64
                + 256 * frame[4] as u64);
            let ghost shown = out@.map_values(|f: Vec<u8>| f@);
            assert(seq == session::frame_seq(frame@));
            let ghost mid = self@;
            self.queue.record_frame(seq);
            out.push(frame);
            proof {
                let now = frames.take(i + 1);
                assert(now.drop_last() =~= frames.take(i as int));
                assert(now.last() == frame@);
                assert(out@.map_values(|f: Vec<u8>| f@) =~= shown.push(frame@));
                assert(shown.push(frame@) =~= now);
                assert(self@ =~= (ClientView { queue: mid.queue.recorded(seq), ..mid }));
            }
            i += 1;
        }
        out
    }
}

/// Actions in front of those of a step.
pub open spec fn after_actions(head: Seq<ActionView>, step: (ClientView, Seq<ActionView>)) -> (
    ClientView,
    Seq<ActionView>,
) {
    (step.0, head + step.1)
}

/// Appends one action.
fn push_action(out: &mut Vec<Action>, a: Action)
    ensures
        acts(final(out)@) == acts(old(out)@).push(a@),
{
    out.push(a);
    assert(acts(out@) =~= acts(old(out)@).push(a@));
}

/// No actions.
fn no_actions() -> (r: Vec<Action>)
    ensures
        acts(r@) == Seq::<ActionView>::empty(),
        r@.len() == 0,
{
    let r: Vec<Action> = Vec::new();
    assert(acts(r@) =~= Seq::<ActionView>::empty());
    r
}

/// Appends frames to be sent.
fn push_sends(out: &mut Vec<Action>, frames: Vec<Vec<u8>>)
    ensures
        acts(final(out)@) == acts(old(out)@) + session::sends(
            frames@.map_values(|f: Vec<u8>| f@),
        ),
{
    let ghost all = frames@.map_values(|f: Vec<u8>| f@);
    let ghost before = acts(out@);
    let mut i: usize = 0;
    assert(before + session::sends(all.take(0)) =~= before);
    while i < frames.len()
        invariant
            i <= frames@.len(),
            all == frames@.map_values(|f: Vec<u8>| f@),
            acts(out@) == before + session::sends(all.take(i as int)),
        decreases frames@.len() - i,
    {
        let frame = frames[i].clone();
        assert(frame@ =~= all[i as int]);
        push_action(out, Action::Send(frame));
        i += 1;
        assert(acts(out@) =~= before + session::sends(all.take(i as int)));
    }
    assert(all.take(i as int) =~= all);
}

impl Client {
    /// Sends what the queue holds, until the window is full or nothing is left.
    pub fn flush_queue(&mut self) -> (out: Vec<Action>)
        requires
            old(self).wf(),
        ensures
            final(self).wf(),
            (final(self)@, acts(out@)) == old(self)@.flushed(),
    {
        let ghost want = self@.flushed();
        let mut out = no_actions();
        assert(acts(out@) + want.1 =~= want.1);
        loop
            invariant
                self.wf(),
                want == old(self)@.flushed(),
                after_actions(acts(out@), self@.flushed()) == want,
            decreases self@.queue.window_remaining(),
        {
            let ghost before = self@;
            let ghost sent = acts(out@);
            if !self.session_ready || self.state != ConnectionState::Open || !self.socket
                || self.queue.window_remaining() == 0 {
                assert(sent + Seq::<ActionView>::empty() =~= sent);
                return out;
            }
            let open = self.gate().is_ok();
            let frames = self.flush_round();
            if frames.len() == 0 || !open {
                assert(sent + Seq::<ActionView>::empty() =~= sent);
                return out;
            }
            push_sends(&mut out, frames);
            proof {
                let now = session::sends(before.flush_frames());
                assert(sent + (now + self@.flushed().1) =~= (sent + now) + self@.flushed().1);
            }
        }
    }

    /// The track is gone.
    fn forget_track(&mut self)
        requires
            old(self).wf(),
        ensures
            final(self).wf(),
            final(self)@ == old(self)@.forgot_track(),
    {
        self.track_uid = String::new();
        self.queue.clear();
        self.session_ready = false;
        assert(self@ =~= old(self)@.forgot_track());
    }

    fn on_resume_ok(&mut self, track_uid: &String, last_acked_seq: u64) -> (out: Vec<Action>)
        requires
            old(self).wf(),
        ensures
            final(self).wf(),
            (final(self)@, acts(out@)) == old(self)@.on_resume_ok(track_uid@, last_acked_seq),
    {
        let waited = self.resume_wait;
        if track_uid.as_str().unicode_len() > 0 {
            self.track_uid = track_uid.clone();
        }
        self.last_acked_seq = last_acked_seq;
        if self.last_assigned_seq < self.last_acked_seq {
            self.last_assigned_seq = self.last_acked_seq;
        }
        proof {
            self.queue@.sent_frame_seqs.lemma_filter_len(queue::frames_behind(last_acked_seq));
        }
        self.queue.ack_through(last_acked_seq);
        self.session_ready = true;
        self.resume_wait = false;
        let mut out = self.flush_queue();
        let ghost sent = acts(out@);
        if waited {
            push_action(&mut out, Action::Resumed(Ok(last_acked_seq)));
            assert(acts(out@) =~= sent + seq![
                ActionView::Resumed(Ok::<u64, errors::ErrorView>(last_acked_seq)),
            ]);
        } else {
            assert(acts(out@) =~= sent + Seq::<ActionView>::empty());
        }
        out
    }

    fn on_track_started(&mut self, track_uid: &String) -> (out: Vec<Action>)
        requires
            old(self).wf(),
        ensures
            final(self).wf(),
            (final(self)@, acts(out@)) == old(self)@.on_track_started(track_uid@),
    {
        let waited = self.start_wait;
        self.track_uid = track_uid.clone();
        self.last_assigned_seq = 0;
        self.last_acked_seq = 0;
        self.session_ready = true;
        self.starting = false;
        self.start_wait = false;
        let mut out = self.flush_queue();
        let ghost sent = acts(out@);
        if waited {
            push_action(&mut out, Action::Started(Ok(track_uid.clone())));
            assert(acts(out@) =~= sent + seq![
                ActionView::Started(Ok::<Seq<char>, errors::ErrorView>(track_uid@)),
            ]);
        } else {
            assert(acts(out@) =~= sent + Seq::<ActionView>::empty());
        }
        out
    }

    fn on_track_stopped(&mut self, track_uid: &String) -> (out: Vec<Action>)
        requires
            old(self).wf(),
        ensures
            final(self).wf(),
            (final(self)@, acts(out@)) == old(self)@.on_track_stopped(track_uid@),
    {
        let waited = self.stop_wait;
        if crate::text::str_eq(self.track_uid.as_str(), track_uid.as_str()) {
            self.forget_track();
            self.filter.reset();
        }
        self.stop_wait = false;
        let mut out = no_actions();
        if waited {
            push_action(&mut out, Action::Stopped(Ok(())));
            assert(acts(out@) =~= seq![ActionView::Stopped(Ok::<(), errors::ErrorView>(()))]);
        }
        out
    }

    fn on_ack(&mut self, seq: u64) -> (out: Vec<Action>)
        requires
            old(self).wf(),
        ensures
            final(self).wf(),
            (final(self)@, acts(out@)) == old(self)@.on_ack(seq),
    {
        if seq > self.last_acked_seq {
            self.last_acked_seq = seq;
        }
        proof {
            self.queue@.sent_frame_seqs.lemma_filter_len(queue::frames_behind(seq));
        }
        self.queue.ack_through(seq);
        self.flush_queue()
    }

    fn on_error(&mut self, evt: &ServerEvt, code: ErrorCode) -> (out: Vec<Action>)
        requires
            old(self).wf(),
        ensures
            final(self).wf(),
            (final(self)@, acts(out@)) == old(self)@.on_error(evt@, code),
    {
        let e = error_from_evt(evt);
        let mut out = no_actions();
        let ghost none = Seq::<ActionView>::empty();
        let ghost a = if self.resume_wait {
            seq![ActionView::Resumed(Err::<u64, errors::ErrorView>(e@))]
        } else {
            none
        };
        let ghost b = if self.start_wait {
            seq![ActionView::Started(Err::<Seq<char>, errors::ErrorView>(e@))]
        } else {
            none
        };
        let ghost c = if self.stop_wait {
            seq![ActionView::Stopped(Err::<(), errors::ErrorView>(e@))]
        } else {
            none
        };
        if self.resume_wait {
            self.resume_wait = false;
            if is_fatal_resume_error(code) {
                self.forget_track();
                self.filter.reset();
            }
            push_action(&mut out, Action::Resumed(Err(e.clone())));
        }
        assert(acts(out@) =~= a);
        if self.start_wait {
            self.start_wait = false;
            self.starting = false;
            push_action(&mut out, Action::Started(Err(e.clone())));
        }
        assert(acts(out@) =~= a + b);
        if self.stop_wait {
            self.stop_wait = false;
            push_action(&mut out, Action::Stopped(Err(e.clone())));
        }
        assert(acts(out@) =~= a + (b + c));
        if code == ErrorCode::TrackNotFound {
            self.forget_track();
            self.starting = false;
        }
        assert(self@ =~= old(self)@.after_error(code));
        let ghost sent = acts(out@);
        if is_auth_error(code) {
            push_action(&mut out, Action::RefreshAuth);
            assert(acts(out@) =~= sent + seq![ActionView::RefreshAuth]);
        } else {
            assert(acts(out@) =~= sent + none);
        }
        out
    }

    /// The device of an event: the one it names, else the one its handle stands for.
    fn resolve(&self, device_uid: String, sub: u8) -> (r: String)
        ensures
            r@ == self@.resolved(device_uid@, sub),
    {
        if device_uid.as_str().unicode_len() == 0 {
            self.device_by_sub.get(sub)
        } else {
            device_uid
        }
    }

    /// Takes an event from the server.
    pub fn dispatch(&mut self, msg: ServerEvt) -> (out: Vec<Action>)
        requires
            old(self).wf(),
        ensures
            final(self).wf(),
            (final(self)@, acts(out@)) == old(self)@.dispatched(msg@),
    {
        let ghost evt = msg@;
        let mut out = no_actions();
        let deliver = match msg {
            ServerEvt::Relocate { endpoint, retry_after_ms } => {
                push_action(
                    &mut out,
                    Action::Relocate(Relocate { endpoint, retry_after_ms }),
                );
                return out;
            },
            ServerEvt::Ack { seq } => return self.on_ack(seq),
            ServerEvt::Command { command_id, payload, timestamp_ms } => {
                push_action(
                    &mut out,
                    Action::DeliverCommand(Command { command_id, payload, timestamp_ms }),
                );
                return out;
            },
            ServerEvt::ResumeOk { track_uid, last_acked_seq } => {
                out = self.on_resume_ok(&track_uid, last_acked_seq);
                ServerEvt::ResumeOk { track_uid, last_acked_seq }
            },
            ServerEvt::TrackStarted { track_uid, metadata } => {
                out = self.on_track_started(&track_uid);
                ServerEvt::TrackStarted { track_uid, metadata }
            },
            ServerEvt::TrackStopped { track_uid } => {
                out = self.on_track_stopped(&track_uid);
                ServerEvt::TrackStopped { track_uid }
            },
            ServerEvt::Error { code, message, track_uid, retry_after_ms } => {
                let evt = ServerEvt::Error { code, message, track_uid, retry_after_ms };
                out = self.on_error(&evt, code);
                evt
            },
            ServerEvt::Subscribed {
                sub,
                device_uid,
                track_uid,
                last_location,
                route,
                estimated_distance,
                estimated_duration,
                start_location_name,
                end_location_name,
                metadata,
                online,
                last_seen_ms,
            } => {
                self.sub_by_device.insert(device_uid.clone(), sub);
                self.device_by_sub.insert(sub, device_uid.clone());
                ServerEvt::Subscribed {
                    sub,
                    device_uid,
                    track_uid,
                    last_location,
                    route,
                    estimated_distance,
                    estimated_duration,
                    start_location_name,
                    end_location_name,
                    metadata,
                    online,
                    last_seen_ms,
                }
            },
            ServerEvt::LocationAdded { device_uid, track_uid, point, client_seq, sub } => {
                let device_uid = self.resolve(device_uid, sub);
                ServerEvt::LocationAdded { device_uid, track_uid, point, client_seq, sub }
            },
            ServerEvt::EventAdded { device_uid, track_uid, payload, timestamp_ms, sub } => {
                let device_uid = self.resolve(device_uid, sub);
                ServerEvt::EventAdded { device_uid, track_uid, payload, timestamp_ms, sub }
            },
            ServerEvt::DevicePresence { device_uid, online, last_seen_ms, sub } => {
                let device_uid = self.resolve(device_uid, sub);
                ServerEvt::DevicePresence { device_uid, online, last_seen_ms, sub }
            },
            ServerEvt::Hello { version, node_id, shard } => {
                ServerEvt::Hello { version, node_id, shard }
            },
        };
        push_action(&mut out, Action::Deliver(deliver));
        out
    }
}

/// The actions of a call that was accepted, or its error.
pub open spec fn answers(want: Result<Seq<ActionView>, errors::ErrorView>, r: Result<Vec<Action>, Error>) -> bool {
    match want {
        Ok(a) => r is Ok && acts(r->Ok_0@) == a,
        Err(e) => r is Err && r->Err_0@ == e,
    }
}

/// As [`answers`], where a call may have nothing to do.
pub open spec fn answers_opt(
    want: Result<Option<Seq<ActionView>>, errors::ErrorView>,
    r: Result<Option<Vec<Action>>, Error>,
) -> bool {
    match want {
        Ok(Some(a)) => r is Ok && r->Ok_0 is Some && acts(r->Ok_0->0@) == a,
        Ok(None) => r is Ok && r->Ok_0 is None,
        Err(e) => r is Err && r->Err_0@ == e,
    }
}

impl Client {
    /// A command as an action, if it can be sent.
    fn send_cmd(&self, cmd: ClientCmd) -> (r: Result<Vec<Action>, Error>)
        ensures
            answers(self@.command(cmd@), r),
            r is Ok ==> acts(r->Ok_0@) == self@.sent(cmd@),
            r is Err ==> self@.sent(cmd@) == Seq::<ActionView>::empty(),
    {
        self.gate()?;
        let mut out = no_actions();
        push_action(&mut out, Action::Send(encode_client_cmd(&cmd)));
        assert(acts(out@) =~= self@.sent(cmd@));
        Ok(out)
    }

    /// Drops everything of the track before a start.
    fn begin_start(&mut self, location: Option<LatLng>, now: i64)
        requires
            old(self).wf(),
        ensures
            final(self).wf(),
            final(self)@ == old(self)@.start_begun(location, now),
    {
        self.starting = true;
        self.queue.clear();
        self.last_assigned_seq = 0;
        self.last_acked_seq = 0;
        self.session_ready = false;
        self.filter.reset();
        if let Some(p) = location {
            self.filter.seed(stamp_lat_lng_at(p, now));
        }
        assert(self@ =~= old(self)@.start_begun(location, now));
    }

    /// Starts a track; the answer comes with `track_started`.
    pub fn start_track(&mut self, loc: Option<LatLng>, route: Vec<LatLng>, now: i64) -> (r: Result<
        Vec<Action>,
        Error,
    >)
        requires
            old(self).wf(),
        ensures
            final(self).wf(),
            ({
                let want = old(self)@.start_track(loc, route@, Seq::empty(), now);
                final(self)@ == want.0 && answers(want.1, r)
            }),
    {
        let none: Vec<u8> = Vec::new();
        assert(none@ =~= Seq::<u8>::empty());
        self.start_track_meta(loc, route, none, now)
    }

    /// Starts a track with opaque metadata (4 KiB at most; more is cut off).
    pub fn start_track_meta(
        &mut self,
        loc: Option<LatLng>,
        route: Vec<LatLng>,
        metadata: Vec<u8>,
        now: i64,
    ) -> (r: Result<Vec<Action>, Error>)
        requires
            old(self).wf(),
        ensures
            final(self).wf(),
            ({
                let want = old(self)@.start_track(loc, route@, metadata@, now);
                final(self)@ == want.0 && answers(want.1, r)
            }),
    {
        self.start_wait = true;
        self.begin_start(loc, now);
        let location = match loc {
            Some(p) => Some(stamp_lat_lng_at(p, now)),
            None => None,
        };
        let route = stamp_lat_lngs_at(route, now);
        let r = self.send_cmd(ClientCmd::TrackStart { location, route, metadata });
        if r.is_err() {
            self.start_wait = false;
            self.starting = false;
        }
        r
    }

    /// Resumes a track by hand; a reconnect resumes by itself.
    pub fn resume(&mut self, track_uid: &String, last_client_seq: u64) -> (r: Result<
        Vec<Action>,
        Error,
    >)
        requires
            old(self).wf(),
        ensures
            final(self).wf(),
            ({
                let want = old(self)@.resume(track_uid@, last_client_seq);
                final(self)@ == want.0 && answers(want.1, r)
            }),
    {
        self.track_uid = track_uid.clone();
        self.last_assigned_seq = last_client_seq;
        self.resume_wait = true;
        let r = self.send_cmd(ClientCmd::Resume { track_uid: track_uid.clone(), last_client_seq });
        if r.is_err() {
            self.resume_wait = false;
        }
        r
    }

    /// Resumes the live track behind a reconnect. `None` means there is none.
    pub fn auto_resume(&mut self) -> (r: Result<Option<Vec<Action>>, Error>)
        requires
            old(self).wf(),
        ensures
            final(self).wf(),
            ({
                let want = old(self)@.auto_resume();
                final(self)@ == want.0 && answers_opt(want.1, r)
            }),
    {
        if self.track_uid.as_str().unicode_len() == 0 {
            return Ok(None);
        }
        self.resume_wait = true;
        let out = self.send_cmd(
            ClientCmd::Resume {
                track_uid: self.track_uid.clone(),
                last_client_seq: self.last_assigned_seq,
            },
        )?;
        Ok(Some(out))
    }

    /// Publishes a GPS sample.
    ///
    /// If there is no live track, this starts one (the sample is the start location). Further
    /// samples are filtered, and staged until the track has started. Gives `(seq, accepted)` and
    /// what to send; a staged sample has the number under which it will go out.
    ///
    /// `g` is the geometry of the sample against the filter; `straight` flags the collinear ones
    /// among the staged points with the sample behind them.
    pub fn publish(&mut self, point: LatLng, at: Moment, g: Geometry, straight: &[bool]) -> (r: (
        (u64, bool),
        Vec<Action>,
    ))
        requires
            old(self).wf(),
            at.valid(),
        ensures
            final(self).wf(),
            (final(self)@, r.0, acts(r.1@)) == old(self)@.published(point, at, g, straight@),
    {
        if self.track_uid.as_str().unicode_len() == 0 && !self.starting {
            self.begin_start(Some(point), at.wall_ms);
            let route: Vec<LatLng> = Vec::new();
            let metadata: Vec<u8> = Vec::new();
            assert(route@ =~= Seq::<LatLng>::empty());
            assert(metadata@ =~= Seq::<u8>::empty());
            let location = Some(stamp_lat_lng_at(point, at.wall_ms));
            return match self.send_cmd(ClientCmd::TrackStart { location, route, metadata }) {
                Ok(out) => ((0, true), out),
                Err(_) => {
                    self.starting = false;
                    ((0, false), no_actions())
                },
            };
        }
        self.publish_sample(point, at, g, straight)
    }

    fn publish_sample(&mut self, point: LatLng, at: Moment, g: Geometry, straight: &[bool]) -> (r: (
        (u64, bool),
        Vec<Action>,
    ))
        requires
            old(self).wf(),
            at.valid(),
        ensures
            final(self).wf(),
            (final(self)@, r.0, acts(r.1@)) == old(self)@.publish_sample(point, at, g, straight@),
    {
        let ghost before = self@;
        if !can_accept_publish(self.next_publish_at, at.instant, 1) {
            return ((self.last_assigned_seq, false), no_actions());
        }
        self.next_publish_at = next_publish_allowed_at(self.next_publish_at, at.instant, 1);
        let pt = stamp_lat_lng_at(point, at.wall_ms);
        let live = self.session_ready && self.state == ConnectionState::Open && self.socket
            && !self.queue.window_full();
        let emitted = match self.filter.push(pt, g) {
            Some(e) => e,
            None => return ((self.last_assigned_seq, true), no_actions()),
        };
        if !live {
            self.queue.push_staging(emitted, straight);
            assert(self@ =~= before.publish_sample(point, at, g, straight@).0);
            let place: u64 = self.queue.staging_len() as u64;
            let seq: u64 = self.last_assigned_seq.wrapping_add(place);
            return ((seq, true), no_actions());
        }
        let seq: u64 = self.last_assigned_seq.wrapping_add(1);
        self.last_assigned_seq = seq;
        let _ = self.queue.enqueue(seq, emitted, straight);
        self.queue.record_frame(seq);
        assert(self@ =~= before.publish_sample(point, at, g, straight@).0);
        let empty = String::new();
        assert(empty@ =~= Seq::<char>::empty());
        let sent = self.send_cmd(
            ClientCmd::LocationAdd {
                track_uid: empty,
                client_seq: seq,
                point: strip_live_time(emitted),
            },
        );
        match sent {
            Ok(out) => ((seq, true), out),
            Err(_) => ((seq, true), no_actions()),
        }
    }

    /// Stops the active (or given) track. Without a track there is nothing to do.
    pub fn stop_track(&mut self, track_uid: Option<String>) -> (r: Result<
        Option<Vec<Action>>,
        Error,
    >)
        requires
            old(self).wf(),
        ensures
            final(self).wf(),
            ({
                let want = old(self)@.stop_track(cmd::text_view(track_uid));
                final(self)@ == want.0 && answers_opt(want.1, r)
            }),
    {
        let given = match track_uid {
            Some(u) => if u.as_str().unicode_len() > 0 {
                Some(u)
            } else {
                None
            },
            None => None,
        };
        let target = match given {
            Some(u) => u,
            None => {
                if self.track_uid.as_str().unicode_len() == 0 {
                    return Ok(None);
                }
                self.track_uid.clone()
            },
        };
        self.stop_wait = true;
        match self.send_cmd(ClientCmd::TrackStop { track_uid: target }) {
            Ok(out) => Ok(Some(out)),
            Err(e) => {
                self.stop_wait = false;
                Err(e)
            },
        }
    }

    /// Fans out an opaque payload (4 KiB at most, one a second). Says whether it was accepted.
    pub fn send_event(&mut self, payload: Vec<u8>, at: Moment) -> (r: Result<
        (bool, Vec<Action>),
        Error,
    >)
        requires
            old(self).wf(),
            at.valid(),
        ensures
            final(self).wf(),
            ({
                let want = old(self)@.send_event(payload@, at);
                &&& final(self)@ == want.0
                &&& match want.1 {
                    Ok((accepted, a)) => r is Ok && r->Ok_0.0 == accepted && acts(r->Ok_0.1@) == a,
                    Err(e) => r is Err && r->Err_0@ == e,
                }
            }),
    {
        if payload.len() > MAX_EVENT_BYTES {
            return Err(new_error(ErrorCode::Invalid, "event payload exceeds 4 KiB"));
        }
        if self.track_uid.as_str().unicode_len() == 0 || !self.session_ready {
            return Err(new_error(ErrorCode::Invalid, "start_track() before send_event()"));
        }
        if at.instant < self.next_event_at {
            return Ok((false, no_actions()));
        }
        self.next_event_at = at.instant + MIN_EVENT_INTERVAL;
        if self.state != ConnectionState::Open || !self.socket {
            return Ok((true, no_actions()));
        }
        let empty = String::new();
        assert(empty@ =~= Seq::<char>::empty());
        let out = self.send_cmd(
            ClientCmd::Event { track_uid: empty, payload, timestamp_ms: Some(at.wall_ms) },
        )?;
        Ok((true, out))
    }

    /// Acknowledges a received command.
    pub fn ack_command(
        &self,
        command_id: String,
        status: CommandAckStatus,
        message: Option<String>,
    ) -> (r: Result<Vec<Action>, Error>)
        ensures
            answers(
                self@.command(
                    cmd::ClientCmdView::CommandAck {
                        command_id: command_id@,
                        status,
                        message: cmd::text_view(message),
                    },
                ),
                r,
            ),
    {
        self.send_cmd(ClientCmd::CommandAck { command_id, status, message })
    }

    /// Subscribes to a device (listener), events included.
    pub fn subscribe(&mut self, device_uid: String) -> (r: Result<Vec<Action>, Error>)
        requires
            old(self).wf(),
        ensures
            final(self).wf(),
            ({
                let want = old(self)@.subscribe(device_uid@);
                final(self)@ == want.0 && answers(want.1, r)
            }),
    {
        self.subscriptions.insert(device_uid.clone());
        self.send_cmd(
            ClientCmd::Subscribe { device_uid, include_events: true, min_location_interval_ms: 0 },
        )
    }

    /// Unsubscribes from a device; the server is told if it gave out a handle.
    pub fn unsubscribe(&mut self, device_uid: &str) -> (r: Result<Vec<Action>, Error>)
        requires
            old(self).wf(),
        ensures
            final(self).wf(),
            ({
                let want = old(self)@.unsubscribe(device_uid@);
                final(self)@ == want.0 && answers(want.1, r)
            }),
    {
        self.subscriptions.remove(device_uid);
        let sub = self.sub_by_device.remove(device_uid);
        match sub {
            Some(sub) => self.send_cmd(ClientCmd::Unsubscribe { sub }),
            None => Ok(no_actions()),
        }
    }

    /// Subscribes again to every device after a reconnect.
    pub fn resubscribe(&mut self) -> (out: Vec<Action>)
        requires
            old(self).wf(),
        ensures
            final(self).wf(),
            (final(self)@, acts(out@)) == old(self)@.resubscribed(),
    {
        self.sub_by_device.clear();
        self.device_by_sub.clear();
        let mut out = no_actions();
        if self.gate().is_err() {
            return out;
        }
        let ghost ids = self.subscriptions@;
        let ghost one = |d: Seq<char>|
            ActionView::Send(codec::client_frame(session::subscribe_cmd(d)));
        let mut i: usize = 0;
        assert(acts(out@) =~= ids.take(0).map_values(one));
        while i < self.subscriptions.len()
            invariant
                i <= ids.len(),
                ids == self.subscriptions@,
                one == (|d: Seq<char>|
                    ActionView::Send(codec::client_frame(session::subscribe_cmd(d)))),
                acts(out@) == ids.take(i as int).map_values(one),
            decreases ids.len() - i,
        {
            let device_uid = self.subscriptions.get(i).clone();
            let cmd = ClientCmd::Subscribe {
                device_uid,
                include_events: true,
                min_location_interval_ms: 0,
            };
            push_action(&mut out, Action::Send(encode_client_cmd(&cmd)));
            i += 1;
            assert(acts(out@) =~= ids.take(i as int).map_values(one));
        }
        assert(ids.take(i as int) =~= ids);
        out
    }

    /// Gives up every pending call.
    fn reject_pending(&mut self, err: Error) -> (out: Vec<Action>)
        requires
            old(self).wf(),
        ensures
            final(self).wf(),
            final(self)@ == old(self)@.none_pending(),
            acts(out@) == old(self)@.rejections(err@),
    {
        let mut out = no_actions();
        let ghost none = Seq::<ActionView>::empty();
        let ghost a = if self.start_wait {
            seq![ActionView::Started(Err::<Seq<char>, errors::ErrorView>(err@))]
        } else {
            none
        };
        let ghost b = if self.stop_wait {
            seq![ActionView::Stopped(Err::<(), errors::ErrorView>(err@))]
        } else {
            none
        };
        let ghost c = if self.resume_wait {
            seq![ActionView::Resumed(Err::<u64, errors::ErrorView>(err@))]
        } else {
            none
        };
        if self.start_wait {
            self.start_wait = false;
            push_action(&mut out, Action::Started(Err(err.clone())));
        }
        assert(acts(out@) =~= a);
        if self.stop_wait {
            self.stop_wait = false;
            push_action(&mut out, Action::Stopped(Err(err.clone())));
        }
        assert(acts(out@) =~= a + b);
        if self.resume_wait {
            self.resume_wait = false;
            push_action(&mut out, Action::Resumed(Err(err.clone())));
        }
        assert(acts(out@) =~= a + (b + c));
        assert(self@ =~= old(self)@.none_pending());
        out
    }

    /// Ends the session: stops the track if one is live, then hangs up. No resume follows.
    pub fn close(&mut self) -> (out: Vec<Action>)
        requires
            old(self).wf(),
        ensures
            final(self).wf(),
            (final(self)@, acts(out@)) == old(self)@.closed(),
    {
        let ghost before = self@;
        let mut out = no_actions();
        if self.track_uid.as_str().unicode_len() > 0 {
            match self.send_cmd(ClientCmd::TrackStop { track_uid: self.track_uid.clone() }) {
                Ok(sent) => {
                    out = sent;
                },
                Err(_) => {},
            }
        }
        let ghost stop = acts(out@);
        self.intentional = true;
        self.state = ConnectionState::Closed;
        self.session_ready = false;
        let mut rejected = self.reject_pending(new_error(ErrorCode::Invalid, "client closed"));
        let ghost rej = acts(rejected@);
        out.append(&mut rejected);
        assert(acts(out@) =~= stop + rej);
        if self.socket {
            self.socket = false;
            push_action(&mut out, Action::HangUp);
            assert(acts(out@) =~= stop + (rej + seq![ActionView::HangUp]));
        } else {
            assert(acts(out@) =~= stop + (rej + Seq::<ActionView>::empty()));
        }
        out
    }
}

/// What came of a dial up to its first frame.
#[derive(Debug)]
pub enum DialEvent {
    /// The address makes no request.
    BadRequest(String),
    /// No connection.
    DialFailed(String),
    /// No frame in time.
    Timeout,
    /// The connection ended before a frame.
    Ended,
    /// Reading failed.
    ReadFailed(String),
    /// A binary frame.
    Binary(Vec<u8>),
    /// Any other message.
    Other(String),
}

/// What the first frame of a connection asks for.
#[derive(Debug)]
pub enum Greeting {
    /// The session can open.
    Hello,
    /// The session is to move.
    Relocate(Relocate),
}

/// The value of a [`Greeting`].
pub enum GreetingView {
    Hello,
    Relocate { endpoint: Seq<char>, retry_after_ms: u32 },
}

impl View for Greeting {
    type V = GreetingView;

    open spec fn view(&self) -> GreetingView {
        match *self {
            Greeting::Hello => GreetingView::Hello,
            Greeting::Relocate(r) => GreetingView::Relocate {
                endpoint: r.endpoint@,
                retry_after_ms: r.retry_after_ms,
            },
        }
    }
}

pub open spec fn invalid(message: Seq<char>) -> errors::ErrorView {
    errors::plain_error(ErrorCode::Invalid, message)
}

pub open spec fn try_again(message: Seq<char>) -> errors::ErrorView {
    errors::plain_error(ErrorCode::TryAgain, message)
}

/// What the first event of a connection asks for: Hello of the right version opens the session.
pub open spec fn greeting_of(evt: Option<cmd::ServerEvtView>) -> Result<GreetingView, errors::ErrorView> {
    match evt {
        Some(cmd::ServerEvtView::Hello { version, .. }) => if version
            == crate::tracking::types::PROTOCOL_VERSION {
            Ok(GreetingView::Hello)
        } else {
            Err(
                invalid(
                    "unsupported hello version "@ + crate::text::decimal(version as nat),
                ),
            )
        },
        Some(cmd::ServerEvtView::Relocate { endpoint, retry_after_ms }) => Ok(
            GreetingView::Relocate { endpoint, retry_after_ms },
        ),
        Some(cmd::ServerEvtView::Error { code, message, track_uid, retry_after_ms }) => Err(
            errors::ErrorView { code, message, track_uid, retry_after_ms },
        ),
        _ => Err(invalid("expected hello"@)),
    }
}

/// What a dial came to.
pub open spec fn dial_outcome(ev: DialEvent) -> Result<GreetingView, errors::ErrorView> {
    match ev {
        DialEvent::BadRequest(e) => Err(invalid("ws request: "@ + e@)),
        DialEvent::DialFailed(e) => Err(try_again("ws dial: "@ + e@)),
        DialEvent::Timeout => Err(try_again("hello timeout"@)),
        DialEvent::Ended => Err(try_again("connection closed before hello"@)),
        DialEvent::ReadFailed(e) => Err(try_again("ws read: "@ + e@)),
        DialEvent::Other(m) => Err(invalid("expected binary hello, got "@ + m@)),
        DialEvent::Binary(data) => match codec::parse_server(data@) {
            Err(e) => Err(invalid("decode hello: "@ + e.text())),
            Ok(evt) => greeting_of(evt),
        },
    }
}

fn error2(code: ErrorCode, a: &str, b: &str) -> (r: Error)
    ensures
        r@ == errors::plain_error(code, a@ + b@),
{
    let mut s = a.to_owned();
    s.append(b);
    Error { code, message: s, track_uid: None, retry_after_ms: None }
}

/// Decides what the first event of a connection asks for.
pub fn greeting(evt: Option<ServerEvt>) -> (r: Result<Greeting, Error>)
    ensures
        match greeting_of(
            match evt {
                Some(e) => Some(e@),
                None => None,
            },
        ) {
            Ok(g) => r is Ok && r->Ok_0@ == g,
            Err(e) => r is Err && r->Err_0@ == e,
        },
{
    match evt {
        Some(ServerEvt::Hello { version, .. }) => {
            if version == crate::tracking::types::PROTOCOL_VERSION {
                Ok(Greeting::Hello)
            } else {
                let n = crate::text::decimal_text(version as u64);
                Err(error2(ErrorCode::Invalid, "unsupported hello version ", n.as_str()))
            }
        },
        Some(ServerEvt::Relocate { endpoint, retry_after_ms }) => Ok(
            Greeting::Relocate(Relocate { endpoint, retry_after_ms }),
        ),
        Some(ServerEvt::Error { code, message, track_uid, retry_after_ms }) => Err(
            Error { code, message, track_uid, retry_after_ms },
        ),
        _ => Err(new_error(ErrorCode::Invalid, "expected hello")),
    }
}

/// Decides what a dial came to.
pub fn dial_result(ev: DialEvent) -> (r: Result<Greeting, Error>)
    ensures
        match dial_outcome(ev) {
            Ok(g) => r is Ok && r->Ok_0@ == g,
            Err(e) => r is Err && r->Err_0@ == e,
        },
{
    match ev {
        DialEvent::BadRequest(e) => Err(error2(ErrorCode::Invalid, "ws request: ", e.as_str())),
        DialEvent::DialFailed(e) => Err(error2(ErrorCode::TryAgain, "ws dial: ", e.as_str())),
        DialEvent::Timeout => Err(new_error(ErrorCode::TryAgain, "hello timeout")),
        DialEvent::Ended => Err(
            new_error(ErrorCode::TryAgain, "connection closed before hello"),
        ),
        DialEvent::ReadFailed(e) => Err(error2(ErrorCode::TryAgain, "ws read: ", e.as_str())),
        DialEvent::Other(m) => Err(
            error2(ErrorCode::Invalid, "expected binary hello, got ", m.as_str()),
        ),
        DialEvent::Binary(data) => match codec::decode_server_evt(data.as_slice()) {
            Err(e) => Err(error2(ErrorCode::Invalid, "decode hello: ", e.message())),
            Ok(evt) => greeting(evt),
        },
    }
}

/// What came of a resume.
#[derive(Debug)]
pub enum ResumeReply {
    /// The server took it, and has everything up to this number.
    Acked(u64),
    /// The server refused it.
    Refused(Error),
    /// Nobody will answer.
    Cancelled,
}

/// What to do after a resume.
#[derive(Debug)]
pub enum ResumeNext {
    Done(u64),
    /// Wait, then resume again.
    Retry { wait_ms: u64 },
    Failed(Error),
}

/// How long to wait before a resume is tried again: as the server says (200 ms where it does
/// not), and 50 ms at least.
pub open spec fn resume_wait_ms(retry_after_ms: Option<u32>) -> u64 {
    match retry_after_ms {
        Some(ms) => if ms < 50 {
            50
        } else {
            ms as u64
        },
        None => 200,
    }
}

/// Decides what follows a resume: fencing and overload are waited out, other errors are final.
pub fn after_resume(reply: ResumeReply) -> (r: ResumeNext)
    ensures
        match reply {
            ResumeReply::Acked(seq) => r == ResumeNext::Done(seq),
            ResumeReply::Refused(e) => if errors::retry_resume(e.code) {
                r == (ResumeNext::Retry { wait_ms: resume_wait_ms(e.retry_after_ms) })
            } else {
                r == ResumeNext::Failed(e)
            },
            ResumeReply::Cancelled => r is Failed && r->Failed_0@ == try_again(
                "resume cancelled"@,
            ),
        },
{
    match reply {
        ResumeReply::Acked(seq) => ResumeNext::Done(seq),
        ResumeReply::Refused(e) => {
            if errors::is_retry_resume_error(e.code) {
                let ms: u64 = e.retry_after_ms.unwrap_or(200) as u64;
                ResumeNext::Retry {
                    wait_ms: if ms < 50 {
                        50
                    } else {
                        ms
                    },
                }
            } else {
                ResumeNext::Failed(e)
            }
        },
        ResumeReply::Cancelled => ResumeNext::Failed(
            new_error(ErrorCode::TryAgain, "resume cancelled"),
        ),
    }
}

impl Client {
    /// Begins a dial; gives its number. Dials before it are void.
    pub fn begin_dial(&mut self) -> (gen: u64)
        requires
            old(self).wf(),
        ensures
            final(self).wf(),
            final(self)@ == old(self)@.dialing(),
            gen == final(self)@.dial_gen,
    {
        self.dial_gen = self.dial_gen.wrapping_add(1);
        self.session_ready = false;
        self.state = match self.state {
            ConnectionState::Open => ConnectionState::Reconnecting,
            ConnectionState::Reconnecting => ConnectionState::Reconnecting,
            _ => ConnectionState::Connecting,
        };
        self.dial_gen
    }

    /// The address to dial; nothing where it might not stay below 4 GiB.
    pub fn dial_url(&self) -> (r: Option<Result<url::Url, Error>>)
        ensures
            r is Some <==> crate::tracking::url::addressable(self@.cfg) || crate::text::trimmed(
                self@.cfg.endpoint,
            ).len() == 0,
            r is Some ==> match crate::tracking::url::ws_url(self@.cfg) {
                Ok(u) => r->0 == Ok::<url::Url, Error>(u),
                Err(e) => r->0 is Err && r->0->Err_0@ == invalid(e),
            },
            r is Some ==> (r->0 is Err <==> crate::tracking::url::refused(self@.cfg)),
            r is Some && r->0 is Ok ==> crate::tracking::url::is_session_url(r->0->Ok_0, self@.cfg),
    {
        match crate::tracking::url::try_build_ws_url(&self.cfg) {
            None => None,
            Some(Ok(u)) => Some(Ok(u)),
            Some(Err(e)) => Some(Err(new_error(ErrorCode::Invalid, e.as_str()))),
        }
    }

    /// Hello came on dial `gen`: the session is open.
    pub fn open(&mut self, gen: u64) -> (r: Result<(), Error>)
        requires
            old(self).wf(),
        ensures
            final(self).wf(),
            ({
                let want = old(self)@.opened(gen);
                &&& final(self)@ == want.0
                &&& match want.1 {
                    Ok(_) => r is Ok,
                    Err(e) => r is Err && r->Err_0@ == e,
                }
            }),
    {
        if gen != self.dial_gen || self.intentional {
            return Err(new_error(ErrorCode::Invalid, "dial superseded"));
        }
        self.socket = true;
        self.writer = true;
        self.state = ConnectionState::Open;
        reset_backoff(&mut self.backoff);
        Ok(())
    }

    /// Whether a resume may be tried again after a wait.
    pub fn resume_again(&self) -> (r: Result<(), Error>)
        ensures
            r is Ok <==> !self@.intentional,
            r is Err ==> r->Err_0@ == invalid("closed"@),
    {
        if self.intentional {
            return Err(new_error(ErrorCode::Invalid, "closed"));
        }
        Ok(())
    }

    /// Takes over another endpoint, where one is named. Gives how long to wait before the dial.
    pub fn relocate(&mut self, rel: Relocate) -> (wait_ms: u32)
        requires
            old(self).wf(),
        ensures
            final(self).wf(),
            final(self)@ == old(self)@.relocated(rel.endpoint@),
            wait_ms == rel.retry_after_ms,
    {
        if rel.endpoint.as_str().unicode_len() > 0 {
            self.cfg.endpoint = rel.endpoint;
            assert(self@ =~= old(self)@.relocated(rel.endpoint@));
        }
        rel.retry_after_ms
    }

    /// Whether the dial behind a relocation is to resume: if asked for, and whenever a track is
    /// live. After the end of the session there is no dial.
    pub fn after_relocate(&self, send_resume: bool) -> (r: Result<bool, Error>)
        ensures
            self@.intentional ==> r is Err && r->Err_0@ == invalid("closed"@),
            !self@.intentional ==> r is Ok && r->Ok_0 == (send_resume || self@.track_uid.len() > 0),
    {
        if self.intentional {
            return Err(new_error(ErrorCode::Invalid, "closed"));
        }
        Ok(send_resume || self.track_uid.as_str().unicode_len() > 0)
    }

    /// Auth was refused. `None` means that fresh credentials can be had; otherwise the session is
    /// over.
    pub fn handle_auth_error(&mut self) -> (r: Option<Vec<Action>>)
        requires
            old(self).wf(),
        ensures
            final(self).wf(),
            old(self)@.cfg.refresh_auth ==> r is None && final(self)@ == old(self)@,
            !old(self)@.cfg.refresh_auth ==> {
                &&& r is Some
                &&& (final(self)@, acts(r->0@)) == old(self)@.auth_lost()
            },
    {
        if self.cfg.refresh_auth {
            return None;
        }
        let mut out = no_actions();
        self.intentional = true;
        self.state = ConnectionState::Closed;
        if self.socket {
            self.socket = false;
            push_action(&mut out, Action::HangUp);
            assert(acts(out@) =~= seq![ActionView::HangUp]);
        }
        assert(self@ =~= old(self)@.auth_lost().0);
        Some(out)
    }

    /// Takes fresh credentials and hangs up. Gives whether the dial that follows is to resume;
    /// after the end of the session there is none.
    pub fn reauthorize(&mut self, device: Option<DeviceAuth>, listener: Option<ListenerAuth>) -> (r: (
        Vec<Action>,
        Option<bool>,
    ))
        requires
            old(self).wf(),
        ensures
            final(self).wf(),
            (final(self)@, acts(r.0@)) == old(self)@.reauthorized(
                config::device_view(device),
                config::listener_view(listener),
            ),
            r.1 == (if old(self)@.intentional {
                None
            } else {
                Some(old(self)@.track_uid.len() > 0)
            }),
    {
        let ghost d = config::device_view(device);
        let ghost l = config::listener_view(listener);
        if let Some(d) = device {
            self.cfg.device = Some(d);
            self.cfg.listener = None;
        }
        if let Some(l) = listener {
            self.cfg.listener = Some(l);
            self.cfg.device = None;
        }
        self.dial_gen = self.dial_gen.wrapping_add(1);
        self.session_ready = false;
        let mut out = no_actions();
        if self.socket {
            self.socket = false;
            push_action(&mut out, Action::HangUp);
            assert(acts(out@) =~= seq![ActionView::HangUp]);
        }
        assert(self@ =~= old(self)@.reauthorized(d, l).0);
        let next = if self.intentional {
            None
        } else {
            Some(self.track_uid.as_str().unicode_len() > 0)
        };
        (out, next)
    }

    /// Fresh credentials could not be had: the session is over.
    pub fn refresh_failed(&mut self)
        requires
            old(self).wf(),
        ensures
            final(self).wf(),
            final(self)@ == (ClientView {
                intentional: true,
                state: ConnectionState::Closed,
                ..old(self)@
            }),
    {
        self.intentional = true;
        self.state = ConnectionState::Closed;
    }

    /// The socket of dial `gen` is gone. The wait before a reconnect is random.
    pub fn on_socket_closed(&mut self, gen: u64) -> (r: AfterClose)
        requires
            old(self).wf(),
        ensures
            final(self).wf(),
            exists|random: u64|
                random < crate::tracking::backoff::JITTER_ONE && (final(self)@, r@)
                    == #[trigger] old(self)@.socket_closed(gen, random),
    {
        let random: u64 = crate::random::uniform_up_to(crate::tracking::backoff::JITTER_ONE - 1);
        self.on_socket_closed_with(gen, random)
    }

    /// The socket of dial `gen` is gone; `random` sets the wait, in units of 2^-53.
    pub fn on_socket_closed_with(&mut self, gen: u64, random: u64) -> (r: AfterClose)
        requires
            old(self).wf(),
        ensures
            final(self).wf(),
            (final(self)@, r@) == old(self)@.socket_closed(gen, random),
    {
        if gen != self.dial_gen {
            return AfterClose::Ignore;
        }
        self.socket = false;
        self.session_ready = false;
        self.queue.mark_unsent();
        self.sub_by_device.clear();
        self.device_by_sub.clear();
        assert(self@ =~= old(self)@.socket_gone());
        if self.intentional {
            self.state = ConnectionState::Closed;
            return AfterClose::Ended(no_actions());
        }
        if self.cfg.disable_reconnect {
            self.state = ConnectionState::Closed;
            let out = self.reject_pending(new_error(ErrorCode::TryAgain, "connection closed"));
            return AfterClose::Ended(out);
        }
        self.state = ConnectionState::Reconnecting;
        let send_resume = self.track_uid.as_str().unicode_len() > 0;
        match next_delay(&mut self.backoff, random) {
            Some(delay) => AfterClose::Redial { delay, send_resume },
            None => {
                self.state = ConnectionState::Closed;
                let out = self.reject_pending(
                    new_error(ErrorCode::TryAgain, "reconnect attempts exhausted"),
                );
                AfterClose::Ended(out)
            },
        }
    }
}

/// Whatever happens, a session holds no more points than its queue takes and has no more frames
/// on their way than the window lets out.
pub proof fn law_session_is_bounded(c: Client)
    requires
        c.wf(),
    ensures
        c@.queue.size() <= c@.queue.max_size,
        c@.queue.sent_frame_seqs.len() <= queue::MAX_UNACKED_FRAMES,
{
}

} // verus!
