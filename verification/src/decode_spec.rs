//! What decoding a payload yields: the message, or the first error a reader
//! meets scanning the payload front to back.

use vstd::prelude::*;
use vstd::utf8::*;
use crate::codec;
use crate::error::Error;
use crate::header::{le16_at, le32_at, le64_at};
use crate::message::{rects_byte_len, Config, DamageRegionView, DisconnectView, DisplayInfoView, FrameAck, FrameView, HelloOk, HelloView, Message, MessageView, Ping, Pong, Reconnect};
use crate::msg;
use crate::pixel_format;
use crate::rect::Rect;
use crate::MAX_WIRE_RECTS;

verus! {

/// The first field end in `ends` that lies beyond `len` bytes.
pub open spec fn first_short(ends: Seq<int>, len: int) -> Option<int> {
    first_short_from(ends, 0, len)
}

/// The first entry of `ends`, from index `i` on, that lies beyond `len`.
pub open spec fn first_short_from(ends: Seq<int>, i: int, len: int) -> Option<int>
    decreases ends.len() - i,
{
    if i < 0 || i >= ends.len() {
        None
    } else if ends[i] > len {
        Some(ends[i])
    } else {
        first_short_from(ends, i + 1, len)
    }
}

/// A reader needed `need` bytes but the payload has `have`.
pub open spec fn truncated(need: int, have: int) -> Error {
    Error::Truncated { need: need as usize, have: have as usize }
}

/// Fixed fields ending at `ends` (ascending): truncated at the first field
/// that does not fit, else `None`.
pub open spec fn check_fixed(s: Seq<u8>, ends: Seq<int>) -> Option<Error> {
    match first_short(ends, s.len() as int) {
        Some(need) => Some(truncated(need, s.len() as int)),
        None => None,
    }
}

/// Bytes after `end` are an error.
pub open spec fn check_end(s: Seq<u8>, end: int) -> Option<Error> {
    if s.len() > end {
        Some(Error::Trailing((s.len() - end) as usize))
    } else {
        None
    }
}

/// The string whose `u8` length prefix is at `off`, and where it ends.
pub open spec fn str_at(s: Seq<u8>, off: int) -> Result<(Seq<char>, int), Error> {
    let n = s[off] as int;
    let end = off + 1 + n;
    if end > s.len() {
        Err(truncated(end, s.len() as int))
    } else if !valid_utf8(s.subrange(off + 1, end)) {
        Err(Error::BadString)
    } else {
        Ok((decode_utf8(s.subrange(off + 1, end)), end))
    }
}

/// The rect encoded at `off`.
pub open spec fn rect_at(s: Seq<u8>, off: int) -> Rect {
    Rect {
        x: le16_at(s, off),
        y: le16_at(s, off + 2),
        w: le16_at(s, off + 4),
        h: le16_at(s, off + 6),
    }
}

/// The `count` rects encoded back to back from `base`.
pub open spec fn rects_at(s: Seq<u8>, base: int, count: int) -> Seq<Rect> {
    Seq::new(count as nat, |i: int| rect_at(s, base + 8 * i))
}

/// A rect list of `count` entries from `base`: over-long counts and rects
/// cut short are both reported as truncation.
pub open spec fn check_rect_list(s: Seq<u8>, base: int, count: int) -> Option<Error> {
    if count > MAX_WIRE_RECTS {
        Some(truncated(count * 8, s.len() - base))
    } else if s.len() < base + 8 * count {
        Some(truncated(base + 8 * ((s.len() - base) / 8) + 8, s.len() as int))
    } else {
        None
    }
}

pub open spec fn decode_hello(s: Seq<u8>) -> Result<MessageView, Error> {
    match check_fixed(s, seq![2, 6, 8, 10, 12, 13]) {
        Some(e) => Err(e),
        None => match str_at(s, 12) {
            Err(e) => Err(e),
            Ok((name, end)) => match check_end(s, end) {
                Some(e) => Err(e),
                None => Ok(
                    MessageView::Hello(
                        HelloView {
                            proto_version: le16_at(s, 0),
                            capabilities: le32_at(s, 2),
                            screen_w: le16_at(s, 6),
                            screen_h: le16_at(s, 8),
                            refresh_hint: le16_at(s, 10),
                            name,
                        },
                    ),
                ),
            },
        },
    }
}

pub open spec fn decode_hello_ok(s: Seq<u8>) -> Result<MessageView, Error> {
    match check_fixed(s, seq![2, 6, 14, 16, 18]) {
        Some(e) => Err(e),
        None => match check_end(s, 18) {
            Some(e) => Err(e),
            None => Ok(
                MessageView::HelloOk(
                    HelloOk {
                        proto_version: le16_at(s, 0),
                        capabilities: le32_at(s, 2),
                        session_id: le64_at(s, 6),
                        max_rects: le16_at(s, 14),
                    },
                ),
            ),
        },
    }
}

pub open spec fn decode_config(s: Seq<u8>) -> Result<MessageView, Error> {
    match check_fixed(s, seq![1, 2, 4, 6]) {
        Some(e) => Err(e),
        None => match check_end(s, 6) {
            Some(e) => Err(e),
            None => if !codec::spec_valid(s[0]) {
                Err(Error::BadCodec(s[0]))
            } else if !pixel_format::spec_valid(s[1]) {
                Err(Error::BadPixelFormat(s[1]))
            } else {
                Ok(
                    MessageView::Config(
                        Config {
                            codec: s[0],
                            pixel_format: s[1],
                            refresh_hint: le16_at(s, 2),
                            flags: le16_at(s, 4),
                        },
                    ),
                )
            },
        },
    }
}

pub open spec fn decode_display_info(s: Seq<u8>) -> Result<MessageView, Error> {
    match check_fixed(s, seq![2, 4, 6, 7, 8, 9]) {
        Some(e) => Err(e),
        None => match str_at(s, 8) {
            Err(e) => Err(e),
            Ok((name, end)) => match check_end(s, end) {
                Some(e) => Err(e),
                None => if !pixel_format::spec_valid(s[6]) {
                    Err(Error::BadPixelFormat(s[6]))
                } else {
                    Ok(
                        MessageView::DisplayInfo(
                            DisplayInfoView {
                                width: le16_at(s, 0),
                                height: le16_at(s, 2),
                                refresh: le16_at(s, 4),
                                pixel_format: s[6],
                                flags: s[7],
                                name,
                            },
                        ),
                    )
                },
            },
        },
    }
}

/// A FRAME: fixed fields, the rect list from offset 22, then the pixel
/// payload, which for RAW must hold exactly the rects' packed bytes.
pub open spec fn decode_frame(s: Seq<u8>) -> Result<MessageView, Error> {
    match check_fixed(s, seq![8, 16, 17, 18, 20, 22]) {
        Some(e) => Err(e),
        None => {
            let count = le16_at(s, 18) as int;
            match check_rect_list(s, 22, count) {
                Some(e) => Err(e),
                None => {
                    let rects = rects_at(s, 22, count);
                    let payload = s.subrange(22 + 8 * count, s.len() as int);
                    let expect = rects_byte_len(rects);
                    if s[16] == codec::RAW && payload.len() != expect {
                        Err(truncated(expect as int, payload.len() as int))
                    } else if !codec::spec_valid(s[16]) {
                        Err(Error::BadCodec(s[16]))
                    } else if !pixel_format::spec_valid(s[17]) {
                        Err(Error::BadPixelFormat(s[17]))
                    } else {
                        Ok(
                            MessageView::Frame(
                                FrameView {
                                    frame_id: le64_at(s, 0),
                                    timestamp_ns: le64_at(s, 8),
                                    codec: s[16],
                                    pixel_format: s[17],
                                    rects,
                                    payload,
                                },
                            ),
                        )
                    }
                },
            }
        },
    }
}

pub open spec fn decode_damage_region(s: Seq<u8>) -> Result<MessageView, Error> {
    match check_fixed(s, seq![8, 16, 18, 20]) {
        Some(e) => Err(e),
        None => {
            let count = le16_at(s, 16) as int;
            match check_rect_list(s, 20, count) {
                Some(e) => Err(e),
                None => match check_end(s, 20 + 8 * count) {
                    Some(e) => Err(e),
                    None => Ok(
                        MessageView::DamageRegion(
                            DamageRegionView {
                                frame_id: le64_at(s, 0),
                                timestamp_ns: le64_at(s, 8),
                                rects: rects_at(s, 20, count),
                            },
                        ),
                    ),
                },
            }
        },
    }
}

/// Two little-endian `u64`s and nothing else.
pub open spec fn decode_two_u64(s: Seq<u8>) -> Result<(u64, u64), Error> {
    match check_fixed(s, seq![8, 16]) {
        Some(e) => Err(e),
        None => match check_end(s, 16) {
            Some(e) => Err(e),
            None => Ok((le64_at(s, 0), le64_at(s, 8))),
        },
    }
}

pub open spec fn decode_ping(s: Seq<u8>) -> Result<MessageView, Error> {
    match check_fixed(s, seq![8]) {
        Some(e) => Err(e),
        None => match check_end(s, 8) {
            Some(e) => Err(e),
            None => Ok(MessageView::Ping(Ping { client_ts_ns: le64_at(s, 0) })),
        },
    }
}

pub open spec fn decode_disconnect(s: Seq<u8>) -> Result<MessageView, Error> {
    match check_fixed(s, seq![2, 3]) {
        Some(e) => Err(e),
        None => match str_at(s, 2) {
            Err(e) => Err(e),
            Ok((message, end)) => match check_end(s, end) {
                Some(e) => Err(e),
                None => Ok(
                    MessageView::Disconnect(DisconnectView { reason: le16_at(s, 0), message }),
                ),
            },
        },
    }
}

/// Decoding the payload of a message of type `t`.
pub open spec fn spec_decode(t: u16, s: Seq<u8>) -> Result<MessageView, Error> {
    if t == msg::HELLO {
        decode_hello(s)
    } else if t == msg::HELLO_OK {
        decode_hello_ok(s)
    } else if t == msg::CONFIG {
        decode_config(s)
    } else if t == msg::DISPLAY_INFO {
        decode_display_info(s)
    } else if t == msg::FRAME {
        decode_frame(s)
    } else if t == msg::DAMAGE_REGION {
        decode_damage_region(s)
    } else if t == msg::PING {
        decode_ping(s)
    } else if t == msg::PONG {
        match decode_two_u64(s) {
            Err(e) => Err(e),
            Ok((a, b)) => Ok(MessageView::Pong(Pong { echoed_client_ts_ns: a, host_ts_ns: b })),
        }
    } else if t == msg::DISCONNECT {
        decode_disconnect(s)
    } else if t == msg::RECONNECT {
        match decode_two_u64(s) {
            Err(e) => Err(e),
            Ok((a, b)) => Ok(MessageView::Reconnect(Reconnect { session_id: a, last_frame_id: b })),
        }
    } else if t == msg::FRAME_ACK {
        match decode_two_u64(s) {
            Err(e) => Err(e),
            Ok((a, b)) => Ok(MessageView::FrameAck(FrameAck { frame_id: a, client_ts_ns: b })),
        }
    } else {
        Err(Error::UnknownMessageType(t))
    }
}

/// A decoded message, taken by its view.
pub open spec fn view_result(r: Result<Message, Error>) -> Result<MessageView, Error> {
    match r {
        Ok(m) => Ok(m@),
        Err(e) => Err(e),
    }
}

} // verus!
