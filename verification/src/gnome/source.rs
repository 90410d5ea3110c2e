//! Frames from the PipeWire grabber: its UBF1 framing (a 32-byte header,
//! then the BGRx pixels of the whole monitor) and what the source keeps
//! between frames.

use vstd::prelude::*;
use vstd::bytes::*;
use vstd::slice::slice_subrange;
use crate::clock::now_ns;
use crate::codec;
use crate::header::{le16_at, le32_at, le64_at};
use crate::laws::well_formed;
use crate::message::{rects_byte_len, Frame, FrameView, MessageView};
use crate::pixel_format;
use crate::rect::{full_rect, Rect};

verus! {

/// `u32` whose little-endian bytes are ASCII `"UBF1"`.
pub const UBF1_MAGIC: u32 = 0x3146_4255u32;

/// UBF1 header size: magic, frame id, timestamp, width, height, four
/// reserved bytes, payload length.
pub const UBF1_HEADER_LEN: usize = 32usize;

/// Largest payload the source accepts from the grabber.
pub const UBF1_MAX_PAYLOAD: u32 = 67108864u32;

/// A decoded UBF1 header.
#[derive(Debug, Clone, Copy, PartialEq, Eq, Structural)]
pub struct Ubf1Header {
    pub frame_id: u64,
    pub timestamp_ns: u64,
    pub width: u16,
    pub height: u16,
    pub payload_len: u32,
}

/// Why a grabber frame was refused.
#[derive(Debug, Clone, Copy, PartialEq, Eq, Structural)]
pub enum GrabError {
    /// The header does not start with `"UBF1"`; the value read.
    BadMagic(u32),
    /// The announced payload is over `UBF1_MAX_PAYLOAD`.
    TooLarge,
    /// The payload is not `width × height × 4` bytes.
    SizeMismatch { payload: usize, width: u16, height: u16 },
}

/// How a UBF1 header reads from its 32 bytes.
pub open spec fn spec_ubf1_header(b: Seq<u8>) -> Result<Ubf1Header, GrabError> {
    if le32_at(b, 0) != UBF1_MAGIC {
        Err(GrabError::BadMagic(le32_at(b, 0)))
    } else if le32_at(b, 28) > UBF1_MAX_PAYLOAD {
        Err(GrabError::TooLarge)
    } else {
        Ok(
            Ubf1Header {
                frame_id: le64_at(b, 4),
                timestamp_ns: le64_at(b, 12),
                width: le16_at(b, 20),
                height: le16_at(b, 22),
                payload_len: le32_at(b, 28),
            },
        )
    }
}

/// Decodes a UBF1 header: the magic must be `"UBF1"` and the payload no
/// larger than `UBF1_MAX_PAYLOAD`.
pub fn parse_ubf1_header(b: &[u8; 32]) -> (r: Result<Ubf1Header, GrabError>)
    ensures
        r == spec_ubf1_header(b@),
{
    let s = b.as_slice();
    let magic = u32_from_le_bytes(slice_subrange(s, 0, 4));
    if magic != UBF1_MAGIC {
        return Err(GrabError::BadMagic(magic));
    }
    let payload_len = u32_from_le_bytes(slice_subrange(s, 28, 32));
    if payload_len > UBF1_MAX_PAYLOAD {
        return Err(GrabError::TooLarge);
    }
    Ok(
        Ubf1Header {
            frame_id: u64_from_le_bytes(slice_subrange(s, 4, 12)),
            timestamp_ns: u64_from_le_bytes(slice_subrange(s, 12, 20)),
            width: u16_from_le_bytes(slice_subrange(s, 20, 22)),
            height: u16_from_le_bytes(slice_subrange(s, 22, 24)),
            payload_len,
        },
    )
}

/// The full frame a UBF1 record holds: RAW BGRX, one rect covering the
/// whole monitor.
pub open spec fn spec_ubf1_frame(h: Ubf1Header, payload: Seq<u8>) -> Result<FrameView, GrabError> {
    if payload.len() != h.width * h.height * 4 {
        Err(GrabError::SizeMismatch { payload: payload.len() as usize, width: h.width, height: h.height })
    } else {
        Ok(
            FrameView {
                frame_id: h.frame_id,
                timestamp_ns: h.timestamp_ns,
                codec: codec::RAW,
                pixel_format: pixel_format::BGRX,
                rects: seq![full_rect(h.width as int, h.height as int)],
                payload,
            },
        )
    }
}

/// The frame of a UBF1 record whose header is `h` and whose payload was
/// read after it; refused unless the payload is `width × height × 4`
/// bytes.
pub fn ubf1_frame(h: Ubf1Header, payload: Vec<u8>) -> (r: Result<Frame, GrabError>)
    ensures
        match (r, spec_ubf1_frame(h, payload@)) {
            (Ok(f), Ok(v)) => f@ == v,
            (Err(e), Err(v)) => e == v,
            _ => false,
        },
{
    assert(h.width * h.height <= 65535 * 65535) by (nonlinear_arith)
        requires
            h.width <= 65535,
            h.height <= 65535,
    ;
    let expect: u64 = h.width as u64 * h.height as u64 * 4;
    if payload.len() as u64 != expect {
        return Err(GrabError::SizeMismatch { payload: payload.len(), width: h.width, height: h.height });
    }
    let mut rects: Vec<Rect> = Vec::new();
    rects.push(Rect::new(0, 0, h.width, h.height));
    let f = Frame {
        frame_id: h.frame_id,
        timestamp_ns: h.timestamp_ns,
        codec: codec::RAW,
        pixel_format: pixel_format::BGRX,
        rects,
        payload,
    };
    assert(f@.rects =~= seq![full_rect(h.width as int, h.height as int)]);
    Ok(f)
}

/// A RAW frame of one whole-monitor rect whose payload holds the monitor's
/// pixels is a well-formed FRAME message; so are the frames a UBF1 record
/// yields and the blank frames.
pub proof fn lemma_full_frame_well_formed(
    frame_id: u64,
    timestamp_ns: u64,
    w: u16,
    h: u16,
    payload: Seq<u8>,
)
    requires
        payload.len() == w * h * 4,
    ensures
        well_formed(
            MessageView::Frame(
                FrameView {
                    frame_id,
                    timestamp_ns,
                    codec: codec::RAW,
                    pixel_format: pixel_format::BGRX,
                    rects: seq![full_rect(w as int, h as int)],
                    payload,
                },
            ),
        ),
{
    let rs = seq![full_rect(w as int, h as int)];
    assert(rs.drop_last() =~= Seq::<Rect>::empty());
    assert(rects_byte_len(Seq::<Rect>::empty()) == 0);
    assert(rs.last() == full_rect(w as int, h as int));
    assert(rects_byte_len(rs) == rs.last().spec_byte_len());
    assert(full_rect(w as int, h as int).w == w && full_rect(w as int, h as int).h == h);
}

/// A black full frame `w × h` numbered `frame_id`, stamped now.
pub fn blank_frame(frame_id: u64, w: u16, h: u16) -> (f: Frame)
    requires
        w * h * 4 <= usize::MAX,
    ensures
        f@.frame_id == frame_id,
        f@.codec == codec::RAW,
        f@.pixel_format == pixel_format::BGRX,
        f@.rects == seq![full_rect(w as int, h as int)],
        f@.payload == Seq::new((w * h * 4) as nat, |i: int| 0u8),
{
    let mut rects: Vec<Rect> = Vec::new();
    rects.push(Rect::new(0, 0, w, h));
    let payload = vec![0u8; w as usize * h as usize * 4];
    let f = Frame {
        frame_id,
        timestamp_ns: now_ns(),
        codec: codec::RAW,
        pixel_format: pixel_format::BGRX,
        rects,
        payload,
    };
    assert(f@.rects =~= seq![full_rect(w as int, h as int)]);
    assert(f@.payload =~= Seq::new((w * h * 4) as nat, |i: int| 0u8));
    f
}

/// What the GNOME source remembers between frames: the monitor size last
/// seen and the id of the last frame.
#[derive(Debug, Clone, Copy, PartialEq, Eq, Structural)]
pub struct GrabState {
    pub width: u16,
    pub height: u16,
    pub frame_id: u64,
}

impl GrabState {
    /// Takes in a frame read from the grabber: its first rect gives the
    /// monitor size, its id the last frame id. True when the size changed.
    pub fn note_frame(&mut self, f: &Frame) -> (resized: bool)
        requires
            f@.rects.len() > 0,
        ensures
            final(self).width == f@.rects[0].w,
            final(self).height == f@.rects[0].h,
            final(self).frame_id == f@.frame_id,
            resized == (f@.rects[0].w != old(self).width || f@.rects[0].h != old(self).height),
    {
        let r = f.rects[0];
        let resized = r.w != self.width || r.h != self.height;
        self.width = r.w;
        self.height = r.h;
        self.frame_id = f.frame_id;
        resized
    }

    /// The blank frame handed out when the grabber is gone or the source
    /// is stopping: numbered after the last frame (saturating), at the last
    /// size.
    pub fn blank(&self) -> (f: Frame)
        requires
            self.width * self.height * 4 <= usize::MAX,
        ensures
            is_blank_after(f@, *self),
    {
        blank_frame(self.frame_id.saturating_add(1), self.width, self.height)
    }

    /// What the source does about what happened when it went for its next
    /// frame: a frame read from the grabber is taken in (size and id) and
    /// handed out; a stopping source, or a failed read from a grabber that
    /// has exited, hands out a blank frame; any other failed read is
    /// retried.
    pub fn on_event(&mut self, ev: GrabEvent) -> (a: GrabAction)
        requires
            old(self).width * old(self).height * 4 <= usize::MAX,
            ev matches GrabEvent::Read(f) ==> f@.rects.len() > 0,
        ensures
            match ev {
                GrabEvent::Read(f) => {
                    &&& final(self).width == f@.rects[0].w
                    &&& final(self).height == f@.rects[0].h
                    &&& final(self).frame_id == f@.frame_id
                    &&& a matches GrabAction::Deliver { frame, resized } && frame@ == f@ && resized == (
                    f@.rects[0].w != old(self).width || f@.rects[0].h != old(self).height)
                },
                GrabEvent::ReadFailed { grabber_exited: false } => *final(self) == *old(self)
                    && a is Retry,
                _ => {
                    &&& *final(self) == *old(self)
                    &&& a matches GrabAction::Blank(b) && is_blank_after(b@, *old(self))
                },
            },
    {
        match ev {
            GrabEvent::Read(frame) => {
                let resized = self.note_frame(&frame);
                GrabAction::Deliver { frame, resized }
            },
            GrabEvent::ReadFailed { grabber_exited: false } => GrabAction::Retry,
            _ => GrabAction::Blank(self.blank()),
        }
    }
}

/// `f` is the blank frame that follows state `s`: numbered after the last
/// frame (saturating), RAW BGRX, one whole-monitor rect of zero bytes.
pub open spec fn is_blank_after(f: FrameView, s: GrabState) -> bool {
    &&& f.frame_id == (if s.frame_id == u64::MAX {
        u64::MAX
    } else {
        (s.frame_id + 1) as u64
    })
    &&& f.codec == codec::RAW
    &&& f.pixel_format == pixel_format::BGRX
    &&& f.rects == seq![full_rect(s.width as int, s.height as int)]
    &&& f.payload == Seq::new((s.width * s.height * 4) as nat, |i: int| 0u8)
}

/// What happened when the source went for its next frame.
#[derive(Debug)]
pub enum GrabEvent {
    /// The source is shutting down.
    Stopped,
    /// A frame was read from the grabber.
    Read(Frame),
    /// Reading from the grabber failed; whether its process has exited.
    ReadFailed { grabber_exited: bool },
}

/// What the source does next.
#[derive(Debug)]
pub enum GrabAction {
    /// Hand out this frame; `resized` when the monitor size changed.
    Deliver { frame: Frame, resized: bool },
    /// Hand out this blank frame.
    Blank(Frame),
    /// Wait a moment and read again.
    Retry,
}

} // verus!
