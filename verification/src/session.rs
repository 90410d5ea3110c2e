//! The host's session logic: the table of resumable sessions, the answer to
//! a connection's opening message, and the answer to each later client
//! message. The server (socket I/O, threads, timers) runs these decisions.

use vstd::prelude::*;
use std::collections::{HashMap, VecDeque};
use crate::caps;
use crate::codec;
use crate::message::{
    Config, Disconnect, DisconnectView, DisplayInfo, DisplayInfoView, Frame, FrameView, HelloOk, HelloView,
    Message, MessageView, Pong, Reconnect,
};
use crate::msg;
use crate::pixel_format;
use crate::error::Error;
use crate::stream::StreamError;
use crate::reason;
use crate::text::{concat, decimal, owned, same_text, starts_with, u64_to_decimal};
use vstd::utf8::encode_utf8;
use crate::{MAX_RECTS, VERSION};

verus! {

broadcast use vstd::std_specs::hash::group_hash_axioms;

/// How many recent frames the table remembers for latency measurement.
pub const FRAME_WINDOW: usize = 512usize;

/// Sessions the host will resume via RECONNECT (session id → last frame id),
/// a bounded window of recent `(frame_id, timestamp_ns)` pairs, oldest
/// first, and the capabilities each session's client announced.
pub struct SessionTable {
    sessions: HashMap<u64, u64>,
    frames: VecDeque<(u64, u64)>,
    caps: HashMap<u64, u32>,
}

impl View for SessionTable {
    type V = (Map<u64, u64>, Seq<(u64, u64)>, Map<u64, u32>);

    closed spec fn view(&self) -> (Map<u64, u64>, Seq<(u64, u64)>, Map<u64, u32>) {
        (self.sessions@, self.frames@, self.caps@)
    }
}

/// The timestamp of the most recent entry for `frame_id` among `frames`.
pub open spec fn latest_ts(frames: Seq<(u64, u64)>, frame_id: u64) -> Option<u64>
    decreases frames.len(),
{
    if frames.len() == 0 {
        None
    } else if frames.last().0 == frame_id {
        Some(frames.last().1)
    } else {
        latest_ts(frames.drop_last(), frame_id)
    }
}

/// The last `FRAME_WINDOW` entries of `s`.
pub open spec fn keep_window(s: Seq<(u64, u64)>) -> Seq<(u64, u64)> {
    if s.len() <= FRAME_WINDOW {
        s
    } else {
        s.subrange(s.len() - FRAME_WINDOW, s.len() as int)
    }
}

impl SessionTable {
    /// The frame window never exceeds `FRAME_WINDOW` entries.
    pub open spec fn wf(&self) -> bool {
        self@.1.len() <= FRAME_WINDOW
    }

    pub fn new() -> (t: Self)
        ensures
            t.wf(),
            t@.0 == Map::<u64, u64>::empty(),
            t@.1 == Seq::<(u64, u64)>::empty(),
            t@.2 == Map::<u64, u32>::empty(),
    {
        SessionTable { sessions: HashMap::new(), frames: VecDeque::new(), caps: HashMap::new() }
    }

    /// Registers a session (last frame 0) unless it is already known.
    pub fn note_session(&mut self, id: u64)
        requires
            old(self).wf(),
        ensures
            final(self).wf(),
            final(self)@.1 == old(self)@.1,
            final(self)@.2 == old(self)@.2,
            final(self)@.0 == (if old(self)@.0.contains_key(id) {
                old(self)@.0
            } else {
                old(self)@.0.insert(id, 0)
            }),
    {
        if !self.sessions.contains_key(&id) {
            self.sessions.insert(id, 0);
        }
    }

    /// Registers an accepted session, opened by `first` (HELLO or
    /// RECONNECT): a session not yet known is recorded with last frame 0 and
    /// the capabilities its opening message announced; a known one stays as
    /// it is. The capabilities recorded for the session.
    pub fn accept(&mut self, session_id: u64, first: &Message) -> (caps: u32)
        requires
            old(self).wf(),
        ensures
            final(self).wf(),
            final(self)@.0 == accepted_sessions(old(self)@.0, session_id),
            final(self)@.1 == old(self)@.1,
            final(self)@.2 == accepted_caps(old(self)@.2, session_id, first@),
            caps == final(self)@.2[session_id],
    {
        self.note_session(session_id);
        if !self.caps.contains_key(&session_id) {
            self.caps.insert(session_id, announced_caps(first));
        }
        match self.caps.get(&session_id) {
            Some(c) => *c,
            None => 0,
        }
    }

    /// The last frame id sent on session `id`, if the session is known.
    pub fn last_frame_id(&self, id: u64) -> (r: Option<u64>)
        ensures
            r == (if self@.0.contains_key(id) {
                Some(self@.0[id])
            } else {
                None
            }),
    {
        match self.sessions.get(&id) {
            Some(n) => Some(*n),
            None => None,
        }
    }

    /// Whether `id` names a resumable session.
    pub fn has_session(&self, id: u64) -> (b: bool)
        ensures
            b == self@.0.contains_key(id),
    {
        self.sessions.contains_key(&id)
    }

    /// Records that frame `frame_id`, stamped `ts`, went out on session
    /// `session_id`; the oldest frames fall out of the window.
    pub fn note_frame(&mut self, session_id: u64, frame_id: u64, ts: u64)
        requires
            old(self).wf(),
        ensures
            final(self).wf(),
            final(self)@.0 == old(self)@.0.insert(session_id, frame_id),
            final(self)@.1 == keep_window(old(self)@.1.push((frame_id, ts))),
            final(self)@.2 == old(self)@.2,
    {
        self.sessions.insert(session_id, frame_id);
        self.frames.push_back((frame_id, ts));
        let ghost s = old(self)@.1.push((frame_id, ts));
        if self.frames.len() > FRAME_WINDOW {
            let _ = self.frames.pop_front();
            assert(self.frames@ =~= keep_window(s));
        }
    }

    /// The timestamp of the most recent remembered frame `frame_id`.
    pub fn frame_ts(&self, frame_id: u64) -> (r: Option<u64>)
        ensures
            r == latest_ts(self@.1, frame_id),
    {
        let n = self.frames.len();
        let mut i: usize = n;
        assert(self@.1.take(n as int) =~= self@.1);
        while i > 0
            invariant
                n == self@.1.len(),
                i <= n,
                latest_ts(self@.1, frame_id) == latest_ts(self@.1.take(i as int), frame_id),
            decreases i,
        {
            let (id, ts) = self.frames[i - 1];
            assert(self@.1.take(i as int).drop_last() =~= self@.1.take(i - 1));
            if id == frame_id {
                return Some(ts);
            }
            i = i - 1;
        }
        None
    }
}

/// Right after a frame is noted, a FRAME_ACK for it finds the timestamp
/// just recorded: the newest entry for a frame id wins, and the window
/// always keeps the newest entry.
pub proof fn lemma_noted_frame_found(frames: Seq<(u64, u64)>, frame_id: u64, ts: u64)
    ensures
        latest_ts(keep_window(frames.push((frame_id, ts))), frame_id) == Some(ts),
{
    let s = frames.push((frame_id, ts));
    let k = keep_window(s);
    assert(k.len() > 0 && k.last() == (frame_id, ts));
}

/// A session the host has noted, when it was opened or resumed or when a
/// frame went out on it, is resumed by a RECONNECT that names it.
pub proof fn lemma_noted_session_resumes(
    sessions: Map<u64, u64>,
    id: u64,
    last_frame_id: u64,
    frame_id: u64,
    fresh_id: u64,
)
    ensures
        spec_opening(
            Some(MessageView::Reconnect(Reconnect { session_id: id, last_frame_id })),
            if sessions.contains_key(id) {
                sessions
            } else {
                sessions.insert(id, 0)
            },
            fresh_id,
        ) == (None::<DisconnectView>, Some((id, true))),
        spec_opening(
            Some(MessageView::Reconnect(Reconnect { session_id: id, last_frame_id })),
            sessions.insert(id, frame_id),
            fresh_id,
        ) == (None::<DisconnectView>, Some((id, true))),
{
}

/// The capabilities an opening message announces: a HELLO's own, none for
/// any other message.
pub open spec fn spec_announced_caps(m: MessageView) -> u32 {
    match m {
        MessageView::Hello(h) => h.capabilities,
        _ => 0,
    }
}

/// The capabilities an opening message announces.
pub fn announced_caps(m: &Message) -> (c: u32)
    ensures
        c == spec_announced_caps(m@),
{
    match m {
        Message::Hello(h) => h.capabilities,
        _ => 0,
    }
}

/// The capabilities recorded per session once `session_id` is accepted
/// with opening message `first`: a session keeps what it announced first.
pub open spec fn accepted_caps(caps: Map<u64, u32>, session_id: u64, first: MessageView) -> Map<
    u64,
    u32,
> {
    if caps.contains_key(session_id) {
        caps
    } else {
        caps.insert(session_id, spec_announced_caps(first))
    }
}

/// A session opened by a HELLO keeps the capabilities that HELLO announced
/// when it is accepted again, whatever its later opening message (a
/// RECONNECT announces none), and frames noted in between change nothing.
pub proof fn lemma_resumed_session_keeps_caps(
    caps: Map<u64, u32>,
    session_id: u64,
    hello: HelloView,
    later: MessageView,
)
    requires
        !caps.contains_key(session_id),
    ensures
        accepted_caps(
            accepted_caps(caps, session_id, MessageView::Hello(hello)),
            session_id,
            later,
        )[session_id] == hello.capabilities,
{
}

/// The capabilities this host supports: RAW frames.
pub const HOST_CAPS: u32 = caps::RAW;

/// The negotiated capabilities: those both the client and the host have.
pub open spec fn negotiated(client_caps: u32) -> u32 {
    client_caps & HOST_CAPS
}

/// Numbers a frame from a connection's source within its session: the
/// source counts from 1 on every connection, and the session's frames
/// continue from `base`, the last frame id it sent before.
pub fn session_frame(f: Frame, base: u64) -> (g: Frame)
    requires
        base + f.frame_id <= u64::MAX,
    ensures
        g@ == (FrameView { frame_id: (base + f@.frame_id) as u64, ..f@ }),
{
    Frame { frame_id: base + f.frame_id, ..f }
}

/// The sessions the table knows once `session_id` is accepted: a new one
/// starts with last frame 0, a known one keeps its last frame.
pub open spec fn accepted_sessions(sessions: Map<u64, u64>, session_id: u64) -> Map<u64, u64> {
    if sessions.contains_key(session_id) {
        sessions
    } else {
        sessions.insert(session_id, 0)
    }
}

/// The sessions the table knows after noting, one after another, frames
/// with ids `ids` sent on session `session_id`.
pub open spec fn noted_frames(sessions: Map<u64, u64>, session_id: u64, ids: Seq<u64>) -> Map<
    u64,
    u64,
>
    decreases ids.len(),
{
    if ids.len() == 0 {
        sessions
    } else {
        noted_frames(sessions, session_id, ids.drop_last()).insert(session_id, ids.last())
    }
}

/// The ids frames get on a connection of a session whose last frame id was
/// `base`, for the source's frame numbers `ks`.
pub open spec fn session_frame_ids(base: u64, ks: Seq<u64>) -> Seq<u64> {
    Seq::new(ks.len(), |i: int| (base + ks[i]) as u64)
}

/// A session resumed by RECONNECT continues its frame numbering. The
/// RECONNECT of a known session is accepted and keeps the session's last
/// frame id; the frames of the new connection, numbered by its source from
/// 1 upwards and renumbered by `session_frame` from that last id, all lie
/// above it and rise; and once they are noted, the last of them is what
/// the next reconnection continues from, at or above every id sent.
pub proof fn lemma_reconnect_continues_frame_ids(
    sessions: Map<u64, u64>,
    session_id: u64,
    last_frame_id: u64,
    fresh_id: u64,
    ks: Seq<u64>,
)
    requires
        sessions.contains_key(session_id),
        ks.len() > 0,
        ks[0] >= 1,
        forall|i: int, j: int| 0 <= i < j < ks.len() ==> ks[i] < ks[j],
        sessions[session_id] + ks.last() <= u64::MAX,
    ensures
        spec_opening(
            Some(MessageView::Reconnect(Reconnect { session_id, last_frame_id })),
            sessions,
            fresh_id,
        ) == (None::<DisconnectView>, Some((session_id, true))),
        accepted_sessions(sessions, session_id)[session_id] == sessions[session_id],
        ({
            let ids = session_frame_ids(accepted_sessions(sessions, session_id)[session_id], ks);
            &&& forall|i: int| 0 <= i < ids.len() ==> sessions[session_id] < #[trigger] ids[i]
            &&& forall|i: int, j: int| 0 <= i < j < ids.len() ==> #[trigger] ids[i] < #[trigger] ids[j]
            &&& noted_frames(accepted_sessions(sessions, session_id), session_id, ids)[session_id]
                == ids.last()
            &&& forall|i: int|
                0 <= i < ids.len() ==> #[trigger] ids[i] <= noted_frames(
                    accepted_sessions(sessions, session_id),
                    session_id,
                    ids,
                )[session_id]
        }),
{
    let base = sessions[session_id];
    let ids = session_frame_ids(base, ks);
    assert forall|i: int| 0 <= i < ks.len() implies 1 <= #[trigger] ks[i] <= ks.last() by {
        if i > 0 {
            assert(ks[0] < ks[i]);
        }
        if i < ks.len() - 1 {
            assert(ks[i] < ks[ks.len() - 1]);
        }
    }
    assert forall|i: int| 0 <= i < ids.len() implies sessions[session_id] < #[trigger] ids[i] by {
        assert(1 <= ks[i] <= ks.last());
    }
    assert forall|i: int, j: int| 0 <= i < j < ids.len() implies #[trigger] ids[i] < #[trigger] ids[j] by {
        assert(1 <= ks[j] <= ks.last());
    }
    assert forall|i: int| 0 <= i < ids.len() implies #[trigger] ids[i] <= ids.last() by {
        assert(1 <= ks[i] <= ks.last());
        assert(ids.last() == base + ks.last());
    }
}

/// Server parameters shared by every connection.
#[derive(Debug, Clone)]
pub struct ServeConfig {
    pub bind: String,
    pub port: u16,
    pub width: u16,
    pub height: u16,
    pub fps: u32,
    pub full_every_secs: u64,
    pub stats_path: Option<String>,
    pub frame_ack: bool,
    /// `test` or `gnome`.
    pub source: String,
}

impl ServeConfig {
    /// Whether the bind address keeps the server on the loopback interface
    /// (`127.…` or `localhost…`), as it should when paired over
    /// `adb reverse`.
    pub fn loopback_only(&self) -> (b: bool)
        ensures
            b == (encode_utf8("127."@).is_prefix_of(encode_utf8(self.bind@)) || encode_utf8(
                "localhost"@,
            ).is_prefix_of(encode_utf8(self.bind@))),
    {
        starts_with(self.bind.as_str(), "127.") || starts_with(self.bind.as_str(), "localhost")
    }
}

/// The frame sources the host can serve.
#[derive(Debug, Clone, Copy, PartialEq, Eq, Structural)]
pub enum SourceKind {
    /// The animated test pattern.
    Test,
    /// A GNOME virtual monitor.
    Gnome,
}

/// The source a `--source` name selects, if any.
pub open spec fn spec_source_kind(name: Seq<char>) -> Option<SourceKind> {
    if name == "test"@ {
        Some(SourceKind::Test)
    } else if name == "gnome"@ {
        Some(SourceKind::Gnome)
    } else {
        None
    }
}

/// Selects the frame source by name: `test` or `gnome`; other names
/// select none.
pub fn source_kind(name: &str) -> (k: Option<SourceKind>)
    ensures
        k == spec_source_kind(name@),
{
    if same_text(name, "test") {
        Some(SourceKind::Test)
    } else if same_text(name, "gnome") {
        Some(SourceKind::Gnome)
    } else {
        None
    }
}

/// The producer's frame period for a requested rate: one second over the
/// rate, the rate held within 1..=240 fps.
pub open spec fn spec_frame_period_ns(fps: u32) -> u64 {
    let f: int = if fps < 1 {
        1
    } else if fps > 240 {
        240
    } else {
        fps as int
    };
    (1_000_000_000int / f) as u64
}

/// The producer's frame period, in nanoseconds.
pub fn frame_period_ns(fps: u32) -> (p: u64)
    ensures
        p == spec_frame_period_ns(fps),
{
    let f: u64 = if fps < 1 {
        1
    } else if fps > 240 {
        240
    } else {
        fps as u64
    };
    1_000_000_000 / f
}

/// The producer's cadence: the next deadline moves on by one period; if it
/// lies ahead, sleep until it, else (the producer fell behind) restart the
/// cadence from now rather than send a burst. Times are nanoseconds on
/// one clock. The new deadline and the time to sleep.
pub fn pace(next_ns: u64, now_ns: u64, period_ns: u64) -> (r: (u64, u64))
    requires
        next_ns + period_ns <= u64::MAX,
    ensures
        r == (if next_ns + period_ns > now_ns {
            ((next_ns + period_ns) as u64, (next_ns + period_ns - now_ns) as u64)
        } else {
            (now_ns, 0u64)
        }),
{
    let next = next_ns + period_ns;
    if next > now_ns {
        (next, next - now_ns)
    } else {
        (now_ns, 0)
    }
}

/// How the host answers a connection's opening message.
#[derive(Debug)]
pub enum Opening {
    /// The client closed before sending anything: close without a reply.
    Closed,
    /// Refuse the connection: send this DISCONNECT, then close.
    Refuse(Disconnect),
    /// Serve the session; `resumed` when it continues a known one.
    Serve { session_id: u64, resumed: bool },
}

/// The DISCONNECT text for a client announcing protocol `v`.
pub open spec fn version_mismatch_text(v: u16) -> Seq<char> {
    "host speaks v"@ + decimal(VERSION as nat) + ", client announced v"@ + decimal(v as nat)
}

/// The answer to an opening message (`None` when the client closed first),
/// given the resumable sessions and a fresh id for a new session.
pub open spec fn spec_opening(first: Option<MessageView>, table: Map<u64, u64>, fresh_id: u64) -> (
    Option<DisconnectView>,
    Option<(u64, bool)>,
) {
    match first {
        None => (None, None),
        Some(MessageView::Hello(h)) => if h.proto_version != VERSION {
            (
                Some(
                    DisconnectView {
                        reason: reason::PROTOCOL,
                        message: version_mismatch_text(h.proto_version),
                    },
                ),
                None,
            )
        } else {
            (None, Some((fresh_id, false)))
        },
        Some(MessageView::Reconnect(r)) => if table.contains_key(r.session_id) {
            (None, Some((r.session_id, true)))
        } else {
            (
                Some(
                    DisconnectView {
                        reason: reason::UNKNOWN_SESSION,
                        message: "unknown session; send a fresh HELLO"@,
                    },
                ),
                None,
            )
        },
        Some(other) => (
            Some(
                DisconnectView {
                    reason: reason::PROTOCOL,
                    message: "expected HELLO or RECONNECT, got "@ + msg::spec_name(
                        Message::spec_msg_type(other),
                    ),
                },
            ),
            None,
        ),
    }
}

/// An opening answer, taken apart as (refusal, accepted session).
pub open spec fn opening_view(o: Opening) -> (Option<DisconnectView>, Option<(u64, bool)>) {
    match o {
        Opening::Closed => (None, None),
        Opening::Refuse(d) => (Some(d@), None),
        Opening::Serve { session_id, resumed } => (None, Some((session_id, resumed))),
    }
}

/// A message's view, if there is a message.
pub open spec fn option_view(m: Option<Message>) -> Option<MessageView> {
    match m {
        Some(m) => Some(m@),
        None => None,
    }
}

/// Decides how to answer a connection's first message: HELLO of this
/// protocol version opens a new session under `fresh_id`; RECONNECT of a
/// known session resumes it; anything else is refused with a DISCONNECT.
pub fn open_session(first: Option<Message>, table: &SessionTable, fresh_id: u64) -> (o: Opening)
    ensures
        opening_view(o) == spec_opening(option_view(first), table@.0, fresh_id),
{
    match first {
        None => Opening::Closed,
        Some(Message::Hello(h)) => {
            if h.proto_version != VERSION {
                let a = concat("host speaks v", u64_to_decimal(VERSION as u64).as_str());
                let b = concat(a.as_str(), ", client announced v");
                let message = concat(b.as_str(), u64_to_decimal(h.proto_version as u64).as_str());
                Opening::Refuse(Disconnect { reason: reason::PROTOCOL, message })
            } else {
                Opening::Serve { session_id: fresh_id, resumed: false }
            }
        },
        Some(Message::Reconnect(r)) => {
            if table.has_session(r.session_id) {
                Opening::Serve { session_id: r.session_id, resumed: true }
            } else {
                Opening::Refuse(
                    Disconnect {
                        reason: reason::UNKNOWN_SESSION,
                        message: owned("unknown session; send a fresh HELLO"),
                    },
                )
            }
        },
        Some(other) => {
            let message = concat("expected HELLO or RECONNECT, got ", other.msg_type_name());
            Opening::Refuse(Disconnect { reason: reason::PROTOCOL, message })
        },
    }
}

/// The monitor name announced in DISPLAY_INFO for a frame source.
pub open spec fn display_name(source: Seq<char>) -> Seq<char> {
    if source == "gnome"@ {
        "USBra Display"@
    } else {
        "USBra Test Pattern"@
    }
}

/// The three messages that open an accepted session: HELLO_OK (with the
/// capabilities negotiated with a client that announced `client_caps`),
/// then DISPLAY_INFO, then CONFIG.
pub open spec fn spec_session_start(
    width: u16,
    height: u16,
    fps: u32,
    frame_ack: bool,
    source: Seq<char>,
    session_id: u64,
    client_caps: u32,
) -> Seq<MessageView> {
    seq![
        MessageView::HelloOk(
            HelloOk {
                proto_version: VERSION,
                capabilities: negotiated(client_caps),
                session_id,
                max_rects: MAX_RECTS,
            },
        ),
        MessageView::DisplayInfo(
            DisplayInfoView {
                width,
                height,
                refresh: fps as u16,
                pixel_format: pixel_format::BGRX,
                flags: DisplayInfo::FLAG_CURSOR_EMBEDDED,
                name: display_name(source),
            },
        ),
        MessageView::Config(
            Config {
                codec: codec::RAW,
                pixel_format: pixel_format::BGRX,
                refresh_hint: fps as u16,
                flags: if frame_ack {
                    Config::FLAG_FRAME_ACK
                } else {
                    0
                },
            },
        ),
    ]
}

/// The three messages that open a session, in order: HELLO_OK for this
/// protocol version and session with the capabilities both sides have
/// (the client's, masked to RAW); DISPLAY_INFO with the configured size
/// and refresh in BGRX, named after the source; and CONFIG, which asks the
/// client for FRAME_ACK exactly when the host was configured with frame
/// acks (flags `FLAG_FRAME_ACK` then, 0 otherwise), for RAW frames in BGRX
/// at the configured refresh.
pub proof fn lemma_config_frame_ack(
    width: u16,
    height: u16,
    fps: u32,
    frame_ack: bool,
    source: Seq<char>,
    session_id: u64,
    client_caps: u32,
)
    ensures
        spec_session_start(width, height, fps, frame_ack, source, session_id, client_caps).len() == 3,
        ({
            match spec_session_start(width, height, fps, frame_ack, source, session_id, client_caps)[0] {
                MessageView::HelloOk(h) => {
                    &&& h.proto_version == VERSION
                    &&& h.session_id == session_id
                    &&& h.capabilities == client_caps & caps::RAW
                    &&& h.max_rects == MAX_RECTS
                },
                _ => false,
            }
        }),
        ({
            match spec_session_start(width, height, fps, frame_ack, source, session_id, client_caps)[1] {
                MessageView::DisplayInfo(d) => {
                    &&& d.width == width && d.height == height
                    &&& d.refresh == fps as u16
                    &&& d.pixel_format == pixel_format::BGRX
                    &&& d.name == (if source == "gnome"@ {
                        "USBra Display"@
                    } else {
                        "USBra Test Pattern"@
                    })
                },
                _ => false,
            }
        }),
        ({
            match spec_session_start(width, height, fps, frame_ack, source, session_id, client_caps)[2] {
                MessageView::Config(c) => {
                    &&& frame_ack ==> c.flags == Config::FLAG_FRAME_ACK
                    &&& !frame_ack ==> c.flags == 0
                    &&& c.codec == codec::RAW
                    &&& c.pixel_format == pixel_format::BGRX
                    &&& c.refresh_hint == fps as u16
                },
                _ => false,
            }
        }),
{
}

/// The views of a list of messages.
pub open spec fn views(ms: Seq<Message>) -> Seq<MessageView> {
    ms.map_values(|m: Message| m@)
}

/// The messages the host sends when it accepts session `session_id` of a
/// client that announced `client_caps`.
pub fn session_start(cfg: &ServeConfig, session_id: u64, client_caps: u32) -> (ms: Vec<Message>)
    ensures
        views(ms@) == spec_session_start(
            cfg.width,
            cfg.height,
            cfg.fps,
            cfg.frame_ack,
            cfg.source@,
            session_id,
            client_caps,
        ),
{
    let name = if same_text(cfg.source.as_str(), "gnome") {
        owned("USBra Display")
    } else {
        owned("USBra Test Pattern")
    };
    let mut ms: Vec<Message> = Vec::new();
    ms.push(
        Message::HelloOk(
            HelloOk {
                proto_version: VERSION,
                capabilities: client_caps & HOST_CAPS,
                session_id,
                max_rects: MAX_RECTS,
            },
        ),
    );
    ms.push(
        Message::DisplayInfo(
            DisplayInfo {
                width: cfg.width,
                height: cfg.height,
                refresh: cfg.fps as u16,
                pixel_format: pixel_format::BGRX,
                flags: DisplayInfo::FLAG_CURSOR_EMBEDDED,
                name,
            },
        ),
    );
    ms.push(
        Message::Config(
            Config {
                codec: codec::RAW,
                pixel_format: pixel_format::BGRX,
                refresh_hint: cfg.fps as u16,
                flags: if cfg.frame_ack {
                    Config::FLAG_FRAME_ACK
                } else {
                    0
                },
            },
        ),
    );
    assert(views(ms@) =~= spec_session_start(
        cfg.width,
        cfg.height,
        cfg.fps,
        cfg.frame_ack,
        cfg.source@,
        session_id,
        client_caps,
    ));
    ms
}

/// How the host answers a message on a live session.
#[derive(Debug)]
pub enum Reply {
    /// Answer a PING.
    Pong(Pong),
    /// A FRAME_ACK: log the frame's host-side latency (0 if the frame is
    /// no longer remembered).
    Ack { frame_id: u64, latency_us: u64 },
    /// Send this DISCONNECT and end the session.
    Close(Disconnect),
}

/// Host-side latency of an acknowledged frame, in microseconds.
pub open spec fn spec_latency_us(ts: Option<u64>, now_ns: u64) -> u64 {
    match ts {
        Some(t) => (if now_ns >= t {
            (now_ns - t) as u64
        } else {
            0u64
        }) / 1000,
        None => 0,
    }
}

/// The answer to a client message on a live session, as (pong, ack,
/// closing DISCONNECT).
pub open spec fn spec_reply(m: MessageView, frames: Seq<(u64, u64)>, now_ns: u64) -> (
    Option<Pong>,
    Option<(u64, u64)>,
    Option<DisconnectView>,
) {
    match m {
        MessageView::Ping(p) => (
            Some(Pong { echoed_client_ts_ns: p.client_ts_ns, host_ts_ns: now_ns }),
            None,
            None,
        ),
        MessageView::FrameAck(a) => (
            None,
            Some((a.frame_id, spec_latency_us(latest_ts(frames, a.frame_id), now_ns))),
            None,
        ),
        MessageView::Disconnect(_) => (
            None,
            None,
            Some(DisconnectView { reason: reason::SHUTDOWN, message: "bye"@ }),
        ),
        other => (
            None,
            None,
            Some(
                DisconnectView {
                    reason: reason::PROTOCOL,
                    message: "unexpected "@ + msg::spec_name(Message::spec_msg_type(other)),
                },
            ),
        ),
    }
}

pub open spec fn reply_view(r: Reply) -> (Option<Pong>, Option<(u64, u64)>, Option<DisconnectView>) {
    match r {
        Reply::Pong(p) => (Some(p), None, None),
        Reply::Ack { frame_id, latency_us } => (None, Some((frame_id, latency_us)), None),
        Reply::Close(d) => (None, None, Some(d@)),
    }
}

/// Decides the answer to a client message on a live session: PING is
/// answered with PONG stamped `now_ns`, FRAME_ACK yields the frame's
/// latency, DISCONNECT is acknowledged and ends the session, and anything
/// else is a protocol violation that ends it.
pub fn on_client_message(m: &Message, table: &SessionTable, now_ns: u64) -> (r: Reply)
    ensures
        reply_view(r) == spec_reply(m@, table@.1, now_ns),
{
    match m {
        Message::Ping(p) => Reply::Pong(
            Pong { echoed_client_ts_ns: p.client_ts_ns, host_ts_ns: now_ns },
        ),
        Message::FrameAck(a) => {
            let latency_us = match table.frame_ts(a.frame_id) {
                Some(ts) => now_ns.saturating_sub(ts) / 1000,
                None => 0,
            };
            Reply::Ack { frame_id: a.frame_id, latency_us }
        },
        Message::Disconnect(_) => Reply::Close(
            Disconnect { reason: reason::SHUTDOWN, message: owned("bye") },
        ),
        other => {
            let message = concat("unexpected ", other.msg_type_name());
            Reply::Close(Disconnect { reason: reason::PROTOCOL, message })
        },
    }
}

/// The DISCONNECT that closes a session whose client sent bytes that do not
/// read as a message: an unknown message type is named, any other rejected
/// header or payload is an invalid message. A stream cut short needs no
/// answer: the client is gone.
pub open spec fn spec_read_error_reply(e: StreamError) -> Option<DisconnectView> {
    match e {
        StreamError::InvalidData(Error::UnknownMessageType(t)) => Some(
            DisconnectView {
                reason: reason::PROTOCOL,
                message: "unknown message type "@ + decimal(t as nat),
            },
        ),
        StreamError::InvalidData(_) => Some(
            DisconnectView { reason: reason::PROTOCOL, message: "invalid message"@ },
        ),
        StreamError::UnexpectedEof => None,
    }
}

/// A closing DISCONNECT, if there is one, taken by its view.
pub open spec fn option_disconnect_view(d: Option<Disconnect>) -> Option<DisconnectView> {
    match d {
        Some(d) => Some(d@),
        None => None,
    }
}

/// Decides how a live session answers a read that failed: bytes that do
/// not read as a message close it with DISCONNECT(PROTOCOL); a stream cut
/// short gets no answer.
pub fn on_read_error(e: StreamError) -> (d: Option<Disconnect>)
    ensures
        option_disconnect_view(d) == spec_read_error_reply(e),
{
    match e {
        StreamError::InvalidData(Error::UnknownMessageType(t)) => {
            let message = concat("unknown message type ", u64_to_decimal(t as u64).as_str());
            Some(Disconnect { reason: reason::PROTOCOL, message })
        },
        StreamError::InvalidData(_) => Some(
            Disconnect { reason: reason::PROTOCOL, message: owned("invalid message") },
        ),
        StreamError::UnexpectedEof => None,
    }
}

/// A nonzero session id mixed from a clock reading and a counter: the
/// counter's halves are swapped and xor-ed into the clock; 0 becomes 1.
pub open spec fn spec_session_id(clock_ns: u64, counter: u64) -> u64 {
    let mixed = clock_ns ^ ((counter << 32u64) | (counter >> 32u64));
    if mixed == 0 {
        1
    } else {
        mixed
    }
}

/// Derives a session id from a clock reading and a counter value.
pub fn session_id_from(clock_ns: u64, counter: u64) -> (id: u64)
    ensures
        id == spec_session_id(clock_ns, counter),
        id != 0,
{
    let mixed = clock_ns ^ ((counter << 32u64) | (counter >> 32u64));
    if mixed == 0 {
        1
    } else {
        mixed
    }
}

} // verus!
