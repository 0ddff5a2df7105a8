//! The tracking session as a state machine: what each step does to the state, and what it asks
//! of the outside.

use crate::clock::Nanos;
use crate::tracking::backoff;
use crate::tracking::backoff::BackoffState;
use crate::tracking::cmd::{ClientCmdView, ServerEvtView};
use crate::tracking::codec;
use crate::tracking::config::{ConfigView, ConnectionState};
use crate::tracking::errors;
use crate::tracking::errors::ErrorView;
use crate::tracking::filter::{FilterView, Geometry};
use crate::tracking::points;
use crate::tracking::queue;
use crate::tracking::queue::{QueueView, QueuedPoint};
use crate::tracking::rate;
use crate::tracking::subs;
use crate::tracking::types::{ErrorCode, LatLng};
use crate::tracking::wire;
use vstd::prelude::*;

verus! {

/// Max opaque event payload.
pub const MAX_EVENT_BYTES: usize = 4096;

/// Max opaque event rate.
pub const MAX_EVENT_HZ: u32 = 1;

/// Minimum gap between events.
pub const MIN_EVENT_INTERVAL: Nanos = 1_000_000_000;

/// What a step asks of the outside.
pub enum ActionView {
    /// Write a binary frame.
    Send(Seq<u8>),
    /// Close the socket.
    HangUp,
    /// Hand an event to the receiver.
    Deliver(ServerEvtView),
    /// Hand a command to the command receiver.
    DeliverCommand { command_id: Seq<char>, payload: Seq<u8>, timestamp_ms: Option<i64> },
    /// Answer a pending start.
    Started(Result<Seq<char>, ErrorView>),
    /// Answer a pending stop.
    Stopped(Result<(), ErrorView>),
    /// Answer a pending resume.
    Resumed(Result<u64, ErrorView>),
    /// Move to another endpoint.
    Relocate { endpoint: Seq<char>, retry_after_ms: u32 },
    /// Get fresh credentials, or give up.
    RefreshAuth,
}

/// The state of a session.
#[verifier::ext_equal]
pub struct ClientView {
    pub cfg: ConfigView,
    pub state: ConnectionState,
    pub track_uid: Seq<char>,
    pub last_assigned_seq: u64,
    pub last_acked_seq: u64,
    pub queue: QueueView,
    pub filter: FilterView,
    /// Bound to a track on this socket.
    pub session_ready: bool,
    pub backoff: BackoffState,
    pub next_publish_at: Nanos,
    pub next_event_at: Nanos,
    pub subscriptions: Seq<Seq<char>>,
    pub sub_by_device: Map<Seq<char>, u8>,
    pub device_by_sub: Map<u8, Seq<char>>,
    /// Closed for good.
    pub intentional: bool,
    pub dial_gen: u64,
    /// A socket is attached.
    pub socket: bool,
    /// The socket still takes frames.
    pub writer: bool,
    pub start_wait: bool,
    pub stop_wait: bool,
    pub resume_wait: bool,
    /// A start is on its way.
    pub starting: bool,
}

/// Frames as actions.
pub open spec fn sends(frames: Seq<Seq<u8>>) -> Seq<ActionView> {
    frames.map_values(|f: Seq<u8>| ActionView::Send(f))
}

/// The number in a location frame, as it stands on the wire.
pub open spec fn frame_seq(frame: Seq<u8>) -> u64 {
    wire::u32_at(frame, 1) as u64
}

/// The queue after frames went out.
pub open spec fn record_all(q: QueueView, frames: Seq<Seq<u8>>) -> QueueView
    decreases frames.len(),
{
    if frames.len() == 0 {
        q
    } else {
        record_all(q, frames.drop_last()).recorded(frame_seq(frames.last()))
    }
}

pub open spec fn closed_error() -> ErrorView {
    errors::plain_error(ErrorCode::Invalid, "closed"@)
}

pub open spec fn not_open_error() -> ErrorView {
    errors::plain_error(ErrorCode::TryAgain, "socket not open"@)
}

impl ClientView {
    /// Why a frame cannot be sent, if it cannot.
    pub open spec fn gate(self) -> Result<(), ErrorView> {
        if self.state == ConnectionState::Closed && self.intentional {
            Err(closed_error())
        } else if !self.socket || !self.writer {
            Err(not_open_error())
        } else {
            Ok(())
        }
    }

    /// A command as an action, if it can be sent.
    pub open spec fn sent(self, cmd: ClientCmdView) -> Seq<ActionView> {
        if self.gate() is Ok {
            seq![ActionView::Send(codec::client_frame(cmd))]
        } else {
            Seq::empty()
        }
    }

    // -----------------------------------------------------------------------------------------
    // Flushing the queue.
    // -----------------------------------------------------------------------------------------

    /// Whether queued points may go out now.
    pub open spec fn may_flush(self) -> bool {
        self.session_ready && self.state == ConnectionState::Open && self.socket
            && self.queue.window_remaining() > 0
    }

    /// How many staged points the open window takes at most.
    pub open spec fn flush_take(self) -> int {
        let room = 100 * self.queue.window_remaining();
        if self.queue.staging.len() < room {
            self.queue.staging.len() as int
        } else {
            room
        }
    }

    /// The points of one flush round, with the number of the last: the unsent ones in flight; if
    /// there are none, staged ones.
    pub open spec fn flush_points(self) -> (Seq<LatLng>, u64) {
        let unsent = self.queue.inflight.filter(queue::unsent());
        if unsent.len() > 0 {
            (unsent.map_values(|p: QueuedPoint| p.point), unsent.last().seq)
        } else {
            let n = self.flush_take();
            (self.queue.staging.take(n), queue::seq_plus(self.last_assigned_seq, n))
        }
    }

    /// The state once the points of a round have numbers.
    pub open spec fn flush_numbered(self) -> ClientView {
        if self.queue.inflight.filter(queue::unsent()).len() > 0 {
            self
        } else {
            let n = self.flush_take();
            ClientView {
                queue: self.queue.assigned(n, self.last_assigned_seq),
                last_assigned_seq: queue::seq_plus(self.last_assigned_seq, n),
                ..self
            }
        }
    }

    /// The frames of one flush round: as many as the window takes.
    pub open spec fn flush_frames(self) -> Seq<Seq<u8>> {
        let (pts, last_seq) = self.flush_points();
        let all = points::loc_frames(last_seq as int, pts);
        if all.len() > self.queue.window_remaining() {
            all.take(self.queue.window_remaining())
        } else {
            all
        }
    }

    /// Whether a flush round has anything to do.
    pub open spec fn flush_due(self) -> bool {
        self.may_flush() && self.flush_points().0.len() > 0
    }

    /// The state after one flush round.
    pub open spec fn flush_round(self) -> ClientView {
        let s = self.flush_numbered();
        ClientView { queue: record_all(s.queue, self.flush_frames()), ..s }
    }

    /// The state and the frames sent after flushing until the window is full or nothing is left.
    /// Where the socket takes no frames, one round is noted and nothing sent.
    pub open spec fn flushed(self) -> (ClientView, Seq<ActionView>)
        decreases self.queue.window_remaining(),
    {
        if !self.flush_due() {
            (self, Seq::empty())
        } else {
            let s = self.flush_round();
            if self.gate() is Err || s.queue.window_remaining() >= self.queue.window_remaining() {
                (s, Seq::empty())
            } else {
                let (t, more) = s.flushed();
                (t, sends(self.flush_frames()) + more)
            }
        }
    }

    // -----------------------------------------------------------------------------------------
    // Events from the server.
    // -----------------------------------------------------------------------------------------

    /// The track is gone.
    pub open spec fn forgot_track(self) -> ClientView {
        ClientView {
            track_uid: Seq::empty(),
            queue: self.queue.cleared(),
            session_ready: false,
            ..self
        }
    }

    /// The track is gone, and the filter starts over.
    pub open spec fn lost_track(self) -> ClientView {
        ClientView { filter: FilterView::fresh(), ..self.forgot_track() }
    }

    /// The track is taken up again: points with a receipt leave the queue.
    pub open spec fn resumed(self, track_uid: Seq<char>, last_acked_seq: u64) -> ClientView {
        ClientView {
            track_uid: if track_uid.len() > 0 {
                track_uid
            } else {
                self.track_uid
            },
            last_acked_seq,
            last_assigned_seq: if self.last_assigned_seq < last_acked_seq {
                last_acked_seq
            } else {
                self.last_assigned_seq
            },
            queue: self.queue.acked(last_acked_seq),
            session_ready: true,
            resume_wait: false,
            ..self
        }
    }

    pub open spec fn on_resume_ok(self, track_uid: Seq<char>, last_acked_seq: u64) -> (
        ClientView,
        Seq<ActionView>,
    ) {
        let (t, out) = self.resumed(track_uid, last_acked_seq).flushed();
        (
            t,
            out + (if self.resume_wait {
                seq![ActionView::Resumed(Ok(last_acked_seq))]
            } else {
                Seq::empty()
            }),
        )
    }

    /// A new track is there, and numbers begin anew.
    pub open spec fn started(self, track_uid: Seq<char>) -> ClientView {
        ClientView {
            track_uid,
            last_assigned_seq: 0,
            last_acked_seq: 0,
            session_ready: true,
            starting: false,
            start_wait: false,
            ..self
        }
    }

    pub open spec fn on_track_started(self, track_uid: Seq<char>) -> (ClientView, Seq<ActionView>) {
        let (t, out) = self.started(track_uid).flushed();
        (
            t,
            out + (if self.start_wait {
                seq![ActionView::Started(Ok(track_uid))]
            } else {
                Seq::empty()
            }),
        )
    }

    pub open spec fn on_track_stopped(self, track_uid: Seq<char>) -> (ClientView, Seq<ActionView>) {
        let s = if self.track_uid == track_uid {
            self.lost_track()
        } else {
            self
        };
        (
            ClientView { stop_wait: false, ..s },
            if self.stop_wait {
                seq![ActionView::Stopped(Ok(()))]
            } else {
                Seq::empty()
            },
        )
    }

    /// A receipt came in.
    pub open spec fn receipted(self, seq: u64) -> ClientView {
        ClientView {
            last_acked_seq: if seq > self.last_acked_seq {
                seq
            } else {
                self.last_acked_seq
            },
            queue: self.queue.acked(seq),
            ..self
        }
    }

    pub open spec fn on_ack(self, seq: u64) -> (ClientView, Seq<ActionView>) {
        self.receipted(seq).flushed()
    }

    /// The state after an error: a pending resume that failed for good takes the track with it,
    /// pending calls are answered, and a track that the server does not know is forgotten.
    pub open spec fn after_error(self, code: ErrorCode) -> ClientView {
        let a = if self.resume_wait && errors::fatal_resume(code) {
            self.lost_track()
        } else {
            self
        };
        let b = ClientView {
            resume_wait: false,
            start_wait: false,
            stop_wait: false,
            starting: if self.start_wait {
                false
            } else {
                a.starting
            },
            ..a
        };
        if code == ErrorCode::TrackNotFound {
            ClientView { starting: false, ..b.forgot_track() }
        } else {
            b
        }
    }

    /// The answers to pending calls when an error comes in: resume, start, stop.
    pub open spec fn error_answers(self, e: ErrorView) -> Seq<ActionView> {
        (if self.resume_wait {
            seq![ActionView::Resumed(Err(e))]
        } else {
            Seq::empty()
        }) + ((if self.start_wait {
            seq![ActionView::Started(Err(e))]
        } else {
            Seq::empty()
        }) + (if self.stop_wait {
            seq![ActionView::Stopped(Err(e))]
        } else {
            Seq::empty()
        }))
    }

    pub open spec fn on_error(self, evt: ServerEvtView, code: ErrorCode) -> (
        ClientView,
        Seq<ActionView>,
    ) {
        (
            self.after_error(code),
            self.error_answers(errors::event_error(evt)) + (if errors::auth_related(code) {
                seq![ActionView::RefreshAuth]
            } else {
                Seq::empty()
            }),
        )
    }

    /// The device that a handle stands for, where an event names none.
    pub open spec fn resolved(self, device_uid: Seq<char>, sub: u8) -> Seq<char> {
        if device_uid.len() == 0 {
            subs::device_of(self.device_by_sub, sub)
        } else {
            device_uid
        }
    }

    /// The state and the actions after an event from the server.
    pub open spec fn dispatched(self, evt: ServerEvtView) -> (ClientView, Seq<ActionView>) {
        match evt {
            ServerEvtView::Relocate { endpoint, retry_after_ms } => (
                self,
                seq![ActionView::Relocate { endpoint, retry_after_ms }],
            ),
            ServerEvtView::ResumeOk { track_uid, last_acked_seq } => {
                let (s, out) = self.on_resume_ok(track_uid, last_acked_seq);
                (s, out.push(ActionView::Deliver(evt)))
            },
            ServerEvtView::TrackStarted { track_uid, .. } => {
                let (s, out) = self.on_track_started(track_uid);
                (s, out.push(ActionView::Deliver(evt)))
            },
            ServerEvtView::TrackStopped { track_uid } => {
                let (s, out) = self.on_track_stopped(track_uid);
                (s, out.push(ActionView::Deliver(evt)))
            },
            ServerEvtView::Ack { seq } => self.on_ack(seq),
            ServerEvtView::Command { command_id, payload, timestamp_ms } => (
                self,
                seq![ActionView::DeliverCommand { command_id, payload, timestamp_ms }],
            ),
            ServerEvtView::Error { code, .. } => {
                let (s, out) = self.on_error(evt, code);
                (s, out.push(ActionView::Deliver(evt)))
            },
            ServerEvtView::Subscribed { sub, device_uid, .. } => (
                ClientView {
                    sub_by_device: self.sub_by_device.insert(device_uid, sub),
                    device_by_sub: self.device_by_sub.insert(sub, device_uid),
                    ..self
                },
                seq![ActionView::Deliver(evt)],
            ),
            ServerEvtView::LocationAdded { device_uid, track_uid, point, client_seq, sub } => (
                self,
                seq![
                    ActionView::Deliver(
                        ServerEvtView::LocationAdded {
                            device_uid: self.resolved(device_uid, sub),
                            track_uid,
                            point,
                            client_seq,
                            sub,
                        },
                    ),
                ],
            ),
            ServerEvtView::EventAdded { device_uid, track_uid, payload, timestamp_ms, sub } => (
                self,
                seq![
                    ActionView::Deliver(
                        ServerEvtView::EventAdded {
                            device_uid: self.resolved(device_uid, sub),
                            track_uid,
                            payload,
                            timestamp_ms,
                            sub,
                        },
                    ),
                ],
            ),
            ServerEvtView::DevicePresence { device_uid, online, last_seen_ms, sub } => (
                self,
                seq![
                    ActionView::Deliver(
                        ServerEvtView::DevicePresence {
                            device_uid: self.resolved(device_uid, sub),
                            online,
                            last_seen_ms,
                            sub,
                        },
                    ),
                ],
            ),
            ServerEvtView::Hello { .. } => (self, seq![ActionView::Deliver(evt)]),
        }
    }
}

// ---------------------------------------------------------------------------------------------
// Calls from the user.
// ---------------------------------------------------------------------------------------------

/// Both clocks at the moment of a call.
#[derive(Debug, Clone, Copy, PartialEq, Eq)]
pub struct Moment {
    /// Monotonic clock.
    pub instant: Nanos,
    /// Milliseconds since the Unix epoch.
    pub wall_ms: i64,
}

impl Moment {
    /// The clock is not at the very end of its range.
    pub open spec fn valid(self) -> bool {
        self.instant <= u128::MAX - MIN_EVENT_INTERVAL
    }
}

pub open spec fn track_start(location: Option<LatLng>, route: Seq<LatLng>, metadata: Seq<u8>) -> ClientCmdView {
    ClientCmdView::TrackStart { location, route, metadata }
}

pub open spec fn stamped_opt(p: Option<LatLng>, now: i64) -> Option<LatLng> {
    match p {
        Some(p) => Some(codec::stamped(p, now)),
        None => None,
    }
}

impl ClientView {
    /// The state when a start goes out: everything of the track before is dropped.
    pub open spec fn start_begun(self, location: Option<LatLng>, now: i64) -> ClientView {
        ClientView {
            starting: true,
            queue: self.queue.cleared(),
            last_assigned_seq: 0,
            last_acked_seq: 0,
            session_ready: false,
            filter: match location {
                Some(p) => FilterView::seeded(codec::stamped(p, now)),
                None => FilterView::fresh(),
            },
            ..self
        }
    }

    /// An explicit start: on success a frame is sent and an answer awaited.
    pub open spec fn start_track(
        self,
        location: Option<LatLng>,
        route: Seq<LatLng>,
        metadata: Seq<u8>,
        now: i64,
    ) -> (ClientView, Result<Seq<ActionView>, ErrorView>) {
        let s = ClientView { start_wait: true, ..self.start_begun(location, now) };
        match self.gate() {
            Err(e) => (ClientView { start_wait: false, starting: false, ..s }, Err(e)),
            Ok(_) => (
                s,
                Ok(
                    s.sent(
                        track_start(
                            stamped_opt(location, now),
                            codec::stamped_all(route, now),
                            metadata,
                        ),
                    ),
                ),
            ),
        }
    }

    /// Whether a publish starts a track.
    pub open spec fn idle(self) -> bool {
        self.track_uid.len() == 0 && !self.starting
    }

    /// Whether a sample can go out at once.
    pub open spec fn live(self) -> bool {
        self.session_ready && self.state == ConnectionState::Open && self.socket
            && !self.queue.window_full()
    }

    /// A publish while a track is live or on its way: rate limit, filter, then out or staged. A
    /// staged sample is answered with the number under which it will go out.
    pub open spec fn publish_sample(
        self,
        point: LatLng,
        at: Moment,
        g: Geometry,
        straight: Seq<bool>,
    ) -> (ClientView, (u64, bool), Seq<ActionView>) {
        if at.instant < self.next_publish_at {
            (self, (self.last_assigned_seq, false), Seq::empty())
        } else {
            let p = codec::stamped(point, at.wall_ms);
            let (f, emitted) = self.filter.after(p, p.timestamp_ms->0, g);
            let s = ClientView {
                next_publish_at: (at.instant + rate::MIN_PUBLISH_INTERVAL) as Nanos,
                filter: f,
                ..self
            };
            match emitted {
                None => (s, (self.last_assigned_seq, true), Seq::empty()),
                Some(e) => if !self.live() {
                    let q = self.queue.with_staged(e, straight);
                    let seq = queue::seq_plus(self.last_assigned_seq, q.staging.len() as int);
                    (ClientView { queue: q, ..s }, (seq, true), Seq::empty())
                } else {
                    let seq = queue::seq_plus(self.last_assigned_seq, 1);
                    let t = ClientView {
                        last_assigned_seq: seq,
                        queue: self.queue.with_inflight(
                            QueuedPoint { seq, point: e, sent: true },
                            straight,
                        ).recorded(seq),
                        ..s
                    };
                    (
                        t,
                        (seq, true),
                        t.sent(
                            ClientCmdView::LocationAdd {
                                track_uid: Seq::empty(),
                                client_seq: seq,
                                point: LatLng { timestamp_ms: None, ..e },
                            },
                        ),
                    )
                },
            }
        }
    }

    /// A publish: without a track it starts one at the sample's position.
    pub open spec fn published(
        self,
        point: LatLng,
        at: Moment,
        g: Geometry,
        straight: Seq<bool>,
    ) -> (ClientView, (u64, bool), Seq<ActionView>) {
        if self.idle() {
            let s = self.start_begun(Some(point), at.wall_ms);
            if self.gate() is Err {
                (ClientView { starting: false, ..s }, (0, false), Seq::empty())
            } else {
                (
                    s,
                    (0, true),
                    s.sent(
                        track_start(
                            Some(codec::stamped(point, at.wall_ms)),
                            Seq::empty(),
                            Seq::empty(),
                        ),
                    ),
                )
            }
        } else {
            self.publish_sample(point, at, g, straight)
        }
    }

    /// A resume that was asked for: the track and its number are taken over.
    pub open spec fn resume(self, track_uid: Seq<char>, last_client_seq: u64) -> (
        ClientView,
        Result<Seq<ActionView>, ErrorView>,
    ) {
        let s = ClientView {
            track_uid,
            last_assigned_seq: last_client_seq,
            resume_wait: true,
            ..self
        };
        match self.gate() {
            Err(e) => (ClientView { resume_wait: false, ..s }, Err(e)),
            Ok(_) => (s, Ok(s.sent(ClientCmdView::Resume { track_uid, last_client_seq }))),
        }
    }

    /// The resume behind a reconnect: nothing to do without a track.
    pub open spec fn auto_resume(self) -> (ClientView, Result<Option<Seq<ActionView>>, ErrorView>) {
        if self.track_uid.len() == 0 {
            (self, Ok(None))
        } else {
            let s = ClientView { resume_wait: true, ..self };
            match self.gate() {
                Err(e) => (s, Err(e)),
                Ok(_) => (
                    s,
                    Ok(
                        Some(
                            s.sent(
                                ClientCmdView::Resume {
                                    track_uid: self.track_uid,
                                    last_client_seq: self.last_assigned_seq,
                                },
                            ),
                        ),
                    ),
                ),
            }
        }
    }

    /// The track that a stop is about: the given one, else the live one.
    pub open spec fn stop_target(self, track_uid: Option<Seq<char>>) -> Seq<char> {
        match track_uid {
            Some(u) => if u.len() > 0 {
                u
            } else {
                self.track_uid
            },
            None => self.track_uid,
        }
    }

    /// A stop: nothing to do without a track.
    pub open spec fn stop_track(self, track_uid: Option<Seq<char>>) -> (
        ClientView,
        Result<Option<Seq<ActionView>>, ErrorView>,
    ) {
        let target = self.stop_target(track_uid);
        if target.len() == 0 {
            (self, Ok(None))
        } else {
            match self.gate() {
                Err(e) => (ClientView { stop_wait: false, ..self }, Err(e)),
                Ok(_) => {
                    let s = ClientView { stop_wait: true, ..self };
                    (s, Ok(Some(s.sent(ClientCmdView::TrackStop { track_uid: target }))))
                },
            }
        }
    }

    /// An event: at most 4 KiB, on a live track, at most one a second. The answer says whether it
    /// was accepted.
    pub open spec fn send_event(self, payload: Seq<u8>, at: Moment) -> (
        ClientView,
        Result<(bool, Seq<ActionView>), ErrorView>,
    ) {
        if payload.len() > MAX_EVENT_BYTES {
            (
                self,
                Err(errors::plain_error(ErrorCode::Invalid, "event payload exceeds 4 KiB"@)),
            )
        } else if self.track_uid.len() == 0 || !self.session_ready {
            (
                self,
                Err(errors::plain_error(ErrorCode::Invalid, "start_track() before send_event()"@)),
            )
        } else if at.instant < self.next_event_at {
            (self, Ok((false, Seq::empty())))
        } else {
            let s = ClientView {
                next_event_at: (at.instant + MIN_EVENT_INTERVAL) as Nanos,
                ..self
            };
            if self.state != ConnectionState::Open || !self.socket {
                (s, Ok((true, Seq::empty())))
            } else {
                match self.gate() {
                    Err(e) => (s, Err(e)),
                    Ok(_) => (
                        s,
                        Ok(
                            (
                                true,
                                s.sent(
                                    ClientCmdView::Event {
                                        track_uid: Seq::empty(),
                                        payload,
                                        timestamp_ms: Some(at.wall_ms),
                                    },
                                ),
                            ),
                        ),
                    ),
                }
            }
        }
    }

    /// A command sent as it is.
    pub open spec fn command(self, cmd: ClientCmdView) -> Result<Seq<ActionView>, ErrorView> {
        match self.gate() {
            Err(e) => Err(e),
            Ok(_) => Ok(self.sent(cmd)),
        }
    }

    pub open spec fn subscribe(self, device_uid: Seq<char>) -> (
        ClientView,
        Result<Seq<ActionView>, ErrorView>,
    ) {
        let s = ClientView { subscriptions: subs::with_id(self.subscriptions, device_uid), ..self };
        (s, s.command(subscribe_cmd(device_uid)))
    }

    pub open spec fn unsubscribe(self, device_uid: Seq<char>) -> (
        ClientView,
        Result<Seq<ActionView>, ErrorView>,
    ) {
        let s = ClientView {
            subscriptions: subs::without_id(self.subscriptions, device_uid),
            sub_by_device: self.sub_by_device.remove(device_uid),
            ..self
        };
        (
            s,
            if self.sub_by_device.contains_key(device_uid) {
                s.command(ClientCmdView::Unsubscribe { sub: self.sub_by_device[device_uid] })
            } else {
                Ok(Seq::empty())
            },
        )
    }

    /// The handles are void after a reconnect; every device is subscribed to again.
    pub open spec fn resubscribed(self) -> (ClientView, Seq<ActionView>) {
        let s = ClientView {
            sub_by_device: Map::empty(),
            device_by_sub: Map::empty(),
            ..self
        };
        (
            s,
            if self.gate() is Ok {
                self.subscriptions.map_values(
                    |d: Seq<char>| ActionView::Send(codec::client_frame(subscribe_cmd(d))),
                )
            } else {
                Seq::empty()
            },
        )
    }

    /// The answers when pending calls are given up: start, stop, resume.
    pub open spec fn rejections(self, e: ErrorView) -> Seq<ActionView> {
        (if self.start_wait {
            seq![ActionView::Started(Err(e))]
        } else {
            Seq::empty()
        }) + ((if self.stop_wait {
            seq![ActionView::Stopped(Err(e))]
        } else {
            Seq::empty()
        }) + (if self.resume_wait {
            seq![ActionView::Resumed(Err(e))]
        } else {
            Seq::empty()
        }))
    }

    pub open spec fn none_pending(self) -> ClientView {
        ClientView { start_wait: false, stop_wait: false, resume_wait: false, ..self }
    }

    /// The end of the session: stop the track, give up pending calls, hang up.
    pub open spec fn closed(self) -> (ClientView, Seq<ActionView>) {
        let stop = if self.track_uid.len() > 0 {
            self.sent(ClientCmdView::TrackStop { track_uid: self.track_uid })
        } else {
            Seq::empty()
        };
        (
            ClientView {
                intentional: true,
                state: ConnectionState::Closed,
                session_ready: false,
                socket: false,
                ..self.none_pending()
            },
            stop + (self.rejections(errors::plain_error(ErrorCode::Invalid, "client closed"@)) + (if self.socket {
                seq![ActionView::HangUp]
            } else {
                Seq::empty()
            })),
        )
    }

    // -----------------------------------------------------------------------------------------
    // Dialing and reconnecting.
    // -----------------------------------------------------------------------------------------

    /// A dial begins: dials before it are void.
    pub open spec fn dialing(self) -> ClientView {
        ClientView {
            dial_gen: queue::seq_plus(self.dial_gen, 1),
            session_ready: false,
            state: if self.state == ConnectionState::Open || self.state
                == ConnectionState::Reconnecting {
                ConnectionState::Reconnecting
            } else {
                ConnectionState::Connecting
            },
            ..self
        }
    }

    /// Hello came: the session is open, unless the dial is void.
    pub open spec fn opened(self, gen: u64) -> (ClientView, Result<(), ErrorView>) {
        if gen != self.dial_gen || self.intentional {
            (self, Err(errors::plain_error(ErrorCode::Invalid, "dial superseded"@)))
        } else {
            (
                ClientView {
                    socket: true,
                    writer: true,
                    state: ConnectionState::Open,
                    backoff: BackoffState { attempt: 0, ..self.backoff },
                    ..self
                },
                Ok(()),
            )
        }
    }

    /// Another endpoint, where one is named.
    pub open spec fn relocated(self, endpoint: Seq<char>) -> ClientView {
        if endpoint.len() > 0 {
            ClientView { cfg: ConfigView { endpoint, ..self.cfg }, ..self }
        } else {
            self
        }
    }

    /// Credentials cannot be refreshed: the session is over.
    pub open spec fn auth_lost(self) -> (ClientView, Seq<ActionView>) {
        (
            ClientView {
                intentional: true,
                state: ConnectionState::Closed,
                socket: false,
                ..self
            },
            if self.socket {
                seq![ActionView::HangUp]
            } else {
                Seq::empty()
            },
        )
    }

    /// Fresh credentials: the socket goes, the next dial uses them. A new listener token wins
    /// over new device credentials.
    pub open spec fn reauthorized(
        self,
        device: Option<(Seq<char>, Seq<char>)>,
        listener: Option<Seq<char>>,
    ) -> (ClientView, Seq<ActionView>) {
        let cfg = if listener is Some {
            ConfigView { listener, device: None, ..self.cfg }
        } else if device is Some {
            ConfigView { device, listener: None, ..self.cfg }
        } else {
            self.cfg
        };
        (
            ClientView {
                cfg,
                dial_gen: queue::seq_plus(self.dial_gen, 1),
                session_ready: false,
                socket: false,
                ..self
            },
            if self.socket {
                seq![ActionView::HangUp]
            } else {
                Seq::empty()
            },
        )
    }

    /// The state once the socket of the current dial is gone: points without a receipt are to be
    /// sent again, handles are void.
    pub open spec fn socket_gone(self) -> ClientView {
        ClientView {
            socket: false,
            session_ready: false,
            queue: self.queue.marked_unsent(),
            sub_by_device: Map::empty(),
            device_by_sub: Map::empty(),
            ..self
        }
    }

    /// What follows when the socket of a dial is gone.
    pub open spec fn socket_closed(self, gen: u64, random: u64) -> (ClientView, AfterCloseView) {
        if gen != self.dial_gen {
            (self, AfterCloseView::Ignore)
        } else {
            let s = self.socket_gone();
            if s.intentional {
                (
                    ClientView { state: ConnectionState::Closed, ..s },
                    AfterCloseView::Ended(Seq::empty()),
                )
            } else if s.cfg.disable_reconnect {
                (
                    ClientView { state: ConnectionState::Closed, ..s.none_pending() },
                    AfterCloseView::Ended(
                        s.rejections(
                            errors::plain_error(ErrorCode::TryAgain, "connection closed"@),
                        ),
                    ),
                )
            } else if backoff::exhausted(s.backoff) {
                (
                    ClientView { state: ConnectionState::Closed, ..s.none_pending() },
                    AfterCloseView::Ended(
                        s.rejections(
                            errors::plain_error(ErrorCode::TryAgain, "reconnect attempts exhausted"@),
                        ),
                    ),
                )
            } else {
                (
                    ClientView {
                        state: ConnectionState::Reconnecting,
                        backoff: BackoffState {
                            attempt: s.backoff.attempt.wrapping_add(1),
                            ..s.backoff
                        },
                        ..s
                    },
                    AfterCloseView::Redial {
                        delay: backoff::delay(s.backoff, random) as Nanos,
                        send_resume: s.track_uid.len() > 0,
                    },
                )
            }
        }
    }
}

/// What follows when the socket is gone.
pub enum AfterCloseView {
    /// The socket of an older dial: nothing.
    Ignore,
    /// The session is over; pending calls are answered.
    Ended(Seq<ActionView>),
    /// Wait, then dial again.
    Redial { delay: Nanos, send_resume: bool },
}

/// A subscription always asks for events.
pub open spec fn subscribe_cmd(device_uid: Seq<char>) -> ClientCmdView {
    ClientCmdView::Subscribe { device_uid, include_events: true, min_location_interval_ms: 0 }
}

} // verus!
