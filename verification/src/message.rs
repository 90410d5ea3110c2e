//! Message payloads, the `Message` sum type, and their mathematical views.

use vstd::prelude::*;
use crate::codec;
use crate::msg;
use crate::rect::Rect;

verus! {

/// Client → host: session request and capability negotiation.
#[derive(Debug, Clone, PartialEq, Eq)]
pub struct Hello {
    pub proto_version: u16,
    pub capabilities: u32,
    pub screen_w: u16,
    pub screen_h: u16,
    pub refresh_hint: u16,
    pub name: String,
}

/// Host → client: session accepted.
#[derive(Debug, Clone, Copy, PartialEq, Eq, Structural)]
pub struct HelloOk {
    pub proto_version: u16,
    pub capabilities: u32,
    pub session_id: u64,
    pub max_rects: u16,
}

/// Host → client: the virtual display's geometry and native format.
#[derive(Debug, Clone, PartialEq, Eq)]
pub struct DisplayInfo {
    pub width: u16,
    pub height: u16,
    pub refresh: u16,
    pub pixel_format: u8,
    pub flags: u8,
    pub name: String,
}

impl Default for HelloOk {
    /// All fields zero; decoding sets every field explicitly.
    fn default() -> (h: HelloOk)
        ensures
            h == (HelloOk { proto_version: 0, capabilities: 0, session_id: 0, max_rects: 0 }),
    {
        HelloOk { proto_version: 0, capabilities: 0, session_id: 0, max_rects: 0 }
    }
}

impl DisplayInfo {
    /// Bit 0: cursor is embedded in frames.
    pub const FLAG_CURSOR_EMBEDDED: u8 = 1u8;
}

/// Host → client: authoritative session parameters.
#[derive(Debug, Clone, Copy, PartialEq, Eq, Structural)]
pub struct Config {
    pub codec: u8,
    pub pixel_format: u8,
    pub refresh_hint: u16,
    pub flags: u16,
}

impl Config {
    /// Bit 0: host wants FRAME_ACK for every frame.
    pub const FLAG_FRAME_ACK: u16 = 1u16;
}

/// Host → client: pixels for a set of damage rects, applied incrementally.
#[derive(Debug, Clone, PartialEq, Eq)]
pub struct Frame {
    pub frame_id: u64,
    pub timestamp_ns: u64,
    pub codec: u8,
    pub pixel_format: u8,
    pub rects: Vec<Rect>,
    /// RAW: concatenated tightly-packed rect rows (rect order); ZSTD: a
    /// single zstd frame of that concatenation.
    pub payload: Vec<u8>,
}

/// Host → client: damage metadata without pixels.
#[derive(Debug, Clone, PartialEq, Eq)]
pub struct DamageRegion {
    pub frame_id: u64,
    pub timestamp_ns: u64,
    pub rects: Vec<Rect>,
}

/// Client → host: RTT probe.
#[derive(Debug, Clone, Copy, PartialEq, Eq, Structural)]
pub struct Ping {
    pub client_ts_ns: u64,
}

/// Host → client: RTT reply.
#[derive(Debug, Clone, Copy, PartialEq, Eq, Structural)]
pub struct Pong {
    pub echoed_client_ts_ns: u64,
    pub host_ts_ns: u64,
}

/// Either side: graceful close.
#[derive(Debug, Clone, PartialEq, Eq)]
pub struct Disconnect {
    pub reason: u16,
    pub message: String,
}

/// Client → host: resume a known session.
#[derive(Debug, Clone, Copy, PartialEq, Eq, Structural)]
pub struct Reconnect {
    pub session_id: u64,
    pub last_frame_id: u64,
}

/// Client → host (optional): frame received/parsed acknowledgement.
#[derive(Debug, Clone, Copy, PartialEq, Eq, Structural)]
pub struct FrameAck {
    pub frame_id: u64,
    pub client_ts_ns: u64,
}

/// Every message of protocol v1.
#[derive(Debug, Clone, PartialEq, Eq)]
pub enum Message {
    Hello(Hello),
    HelloOk(HelloOk),
    Config(Config),
    DisplayInfo(DisplayInfo),
    Frame(Frame),
    DamageRegion(DamageRegion),
    Ping(Ping),
    Pong(Pong),
    Disconnect(Disconnect),
    Reconnect(Reconnect),
    FrameAck(FrameAck),
}

// ---------------------------------------------------------------------------
// Views
// ---------------------------------------------------------------------------

#[verifier::ext_equal]
pub struct HelloView {
    pub proto_version: u16,
    pub capabilities: u32,
    pub screen_w: u16,
    pub screen_h: u16,
    pub refresh_hint: u16,
    pub name: Seq<char>,
}

#[verifier::ext_equal]
pub struct DisplayInfoView {
    pub width: u16,
    pub height: u16,
    pub refresh: u16,
    pub pixel_format: u8,
    pub flags: u8,
    pub name: Seq<char>,
}

#[verifier::ext_equal]
pub struct FrameView {
    pub frame_id: u64,
    pub timestamp_ns: u64,
    pub codec: u8,
    pub pixel_format: u8,
    pub rects: Seq<Rect>,
    pub payload: Seq<u8>,
}

#[verifier::ext_equal]
pub struct DamageRegionView {
    pub frame_id: u64,
    pub timestamp_ns: u64,
    pub rects: Seq<Rect>,
}

#[verifier::ext_equal]
pub struct DisconnectView {
    pub reason: u16,
    pub message: Seq<char>,
}

/// A message as a mathematical value: strings as `Seq<char>`, vectors as
/// `Seq`.
#[verifier::ext_equal]
pub enum MessageView {
    Hello(HelloView),
    HelloOk(HelloOk),
    Config(Config),
    DisplayInfo(DisplayInfoView),
    Frame(FrameView),
    DamageRegion(DamageRegionView),
    Ping(Ping),
    Pong(Pong),
    Disconnect(DisconnectView),
    Reconnect(Reconnect),
    FrameAck(FrameAck),
}

impl View for Hello {
    type V = HelloView;

    open spec fn view(&self) -> HelloView {
        HelloView {
            proto_version: self.proto_version,
            capabilities: self.capabilities,
            screen_w: self.screen_w,
            screen_h: self.screen_h,
            refresh_hint: self.refresh_hint,
            name: self.name@,
        }
    }
}

impl View for DisplayInfo {
    type V = DisplayInfoView;

    open spec fn view(&self) -> DisplayInfoView {
        DisplayInfoView {
            width: self.width,
            height: self.height,
            refresh: self.refresh,
            pixel_format: self.pixel_format,
            flags: self.flags,
            name: self.name@,
        }
    }
}

impl View for Frame {
    type V = FrameView;

    open spec fn view(&self) -> FrameView {
        FrameView {
            frame_id: self.frame_id,
            timestamp_ns: self.timestamp_ns,
            codec: self.codec,
            pixel_format: self.pixel_format,
            rects: self.rects@,
            payload: self.payload@,
        }
    }
}

impl View for DamageRegion {
    type V = DamageRegionView;

    open spec fn view(&self) -> DamageRegionView {
        DamageRegionView {
            frame_id: self.frame_id,
            timestamp_ns: self.timestamp_ns,
            rects: self.rects@,
        }
    }
}

impl View for Disconnect {
    type V = DisconnectView;

    open spec fn view(&self) -> DisconnectView {
        DisconnectView { reason: self.reason, message: self.message@ }
    }
}

impl View for Message {
    type V = MessageView;

    open spec fn view(&self) -> MessageView {
        match self {
            Message::Hello(m) => MessageView::Hello(m@),
            Message::HelloOk(m) => MessageView::HelloOk(*m),
            Message::Config(m) => MessageView::Config(*m),
            Message::DisplayInfo(m) => MessageView::DisplayInfo(m@),
            Message::Frame(m) => MessageView::Frame(m@),
            Message::DamageRegion(m) => MessageView::DamageRegion(m@),
            Message::Ping(m) => MessageView::Ping(*m),
            Message::Pong(m) => MessageView::Pong(*m),
            Message::Disconnect(m) => MessageView::Disconnect(m@),
            Message::Reconnect(m) => MessageView::Reconnect(*m),
            Message::FrameAck(m) => MessageView::FrameAck(*m),
        }
    }
}

// ---------------------------------------------------------------------------
// Frame geometry
// ---------------------------------------------------------------------------

/// Total RAW byte length of a rect list: the sum of `w * h * 4`.
pub open spec fn rects_byte_len(rs: Seq<Rect>) -> nat
    decreases rs.len(),
{
    if rs.len() == 0 {
        0
    } else {
        rects_byte_len(rs.drop_last()) + rs.last().spec_byte_len()
    }
}

/// A prefix never has more bytes than the whole list.
pub proof fn lemma_rects_byte_len_prefix(rs: Seq<Rect>, i: int, j: int)
    requires
        0 <= i <= j <= rs.len(),
    ensures
        rects_byte_len(rs.take(i)) <= rects_byte_len(rs.take(j)),
    decreases j - i,
{
    if i < j {
        lemma_rects_byte_len_prefix(rs, i, j - 1);
        assert(rs.take(j).drop_last() =~= rs.take(j - 1));
    }
}

impl Message {
    /// The registry id of a message's kind.
    pub open spec fn spec_msg_type(m: MessageView) -> u16 {
        match m {
            MessageView::Hello(_) => msg::HELLO,
            MessageView::HelloOk(_) => msg::HELLO_OK,
            MessageView::Config(_) => msg::CONFIG,
            MessageView::DisplayInfo(_) => msg::DISPLAY_INFO,
            MessageView::Frame(_) => msg::FRAME,
            MessageView::DamageRegion(_) => msg::DAMAGE_REGION,
            MessageView::Ping(_) => msg::PING,
            MessageView::Pong(_) => msg::PONG,
            MessageView::Disconnect(_) => msg::DISCONNECT,
            MessageView::Reconnect(_) => msg::RECONNECT,
            MessageView::FrameAck(_) => msg::FRAME_ACK,
        }
    }

    pub fn msg_type(&self) -> (t: u16)
        ensures
            t == Message::spec_msg_type(self@),
    {
        match self {
            Message::Hello(_) => msg::HELLO,
            Message::HelloOk(_) => msg::HELLO_OK,
            Message::Config(_) => msg::CONFIG,
            Message::DisplayInfo(_) => msg::DISPLAY_INFO,
            Message::Frame(_) => msg::FRAME,
            Message::DamageRegion(_) => msg::DAMAGE_REGION,
            Message::Ping(_) => msg::PING,
            Message::Pong(_) => msg::PONG,
            Message::Disconnect(_) => msg::DISCONNECT,
            Message::Reconnect(_) => msg::RECONNECT,
            Message::FrameAck(_) => msg::FRAME_ACK,
        }
    }

    /// Log name of the message's kind.
    pub fn msg_type_name(&self) -> (r: &'static str)
        ensures
            r@ == msg::spec_name(Message::spec_msg_type(self@)),
    {
        msg::name(self.msg_type())
    }
}

impl Frame {
    /// Expected RAW payload length (sum of rect areas × 4). The sum must fit
    /// in a `u64`, as the summation would overflow otherwise.
    pub fn raw_payload_len(&self) -> (n: u64)
        requires
            rects_byte_len(self.rects@) <= u64::MAX,
        ensures
            n == rects_byte_len(self.rects@),
    {
        let mut total: u64 = 0;
        let mut i: usize = 0;
        while i < self.rects.len()
            invariant
                i <= self.rects@.len(),
                total == rects_byte_len(self.rects@.take(i as int)),
                rects_byte_len(self.rects@) <= u64::MAX,
            decreases self.rects@.len() - i,
        {
            proof {
                lemma_rects_byte_len_prefix(self.rects@, i + 1, self.rects@.len() as int);
                assert(self.rects@.take(i + 1).drop_last() =~= self.rects@.take(i as int));
                assert(self.rects@.take(self.rects@.len() as int) =~= self.rects@);
            }
            total = total + self.rects[i].byte_len();
            i = i + 1;
        }
        assert(self.rects@.take(i as int) =~= self.rects@);
        total
    }

    /// Where rect `i` lies in a RAW payload: it starts after the bytes of the
    /// rects before it and spans its own byte length.
    pub open spec fn spec_rect_byte_range(self, i: int) -> Option<(usize, usize)> {
        if self.codec != codec::RAW || i < 0 || i >= self.rects@.len() {
            None
        } else {
            Some(
                (
                    rects_byte_len(self.rects@.take(i)) as usize,
                    rects_byte_len(self.rects@.take(i + 1)) as usize,
                ),
            )
        }
    }

    /// Byte range of rect `i` inside the RAW payload (tightly packed,
    /// concatenated in rect order). `None` for bad indices or the ZSTD codec.
    pub fn rect_byte_range(&self, i: usize) -> (r: Option<(usize, usize)>)
        requires
            i < self.rects@.len() ==> rects_byte_len(self.rects@.take(i + 1)) <= u64::MAX,
        ensures
            r == self.spec_rect_byte_range(i as int),
    {
        if self.codec != codec::RAW || i >= self.rects.len() {
            return None;
        }
        let mut off: u64 = 0;
        let mut j: usize = 0;
        while j < i
            invariant
                j <= i < self.rects@.len(),
                off == rects_byte_len(self.rects@.take(j as int)),
                rects_byte_len(self.rects@.take(i + 1)) <= u64::MAX,
            decreases i - j,
        {
            proof {
                lemma_rects_byte_len_prefix(self.rects@, j + 1, i + 1);
                assert(self.rects@.take(j + 1).drop_last() =~= self.rects@.take(j as int));
            }
            off = off + self.rects[j].byte_len();
            j = j + 1;
        }
        proof {
            assert(self.rects@.take(i + 1).drop_last() =~= self.rects@.take(i as int));
        }
        let len = self.rects[i].byte_len();
        Some((off as usize, (off + len) as usize))
    }

    /// The frame is a single rect covering the whole `w × h` display.
    pub open spec fn spec_covers(self, w: u16, h: u16) -> bool {
        self.rects@.len() == 1 && self.rects@[0] == (Rect { x: 0, y: 0, w, h })
    }

    /// True if this frame's rects cover the whole `w×h` display.
    pub fn covers(&self, w: u16, h: u16) -> (b: bool)
        ensures
            b == self.spec_covers(w, h),
    {
        self.rects.len() == 1 && self.rects[0].x == 0 && self.rects[0].y == 0
            && self.rects[0].w == w && self.rects[0].h == h
    }
}

} // verus!
