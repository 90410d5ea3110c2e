//! The wire encoding of messages: what the bytes are (spec) and how they are
//! produced (exec).

use vstd::prelude::*;
use vstd::bytes::*;
use vstd::utf8::*;
use vstd::string::*;
use crate::header::{spec_header_bytes, Header};
use crate::message::{Message, MessageView};
use crate::rect::Rect;
use crate::{HEADER_LEN, MAX_PAYLOAD};

verus! {

/// A protocol string: a `u8` byte count, then the UTF-8 bytes.
pub open spec fn str_bytes(s: Seq<char>) -> Seq<u8> {
    seq![encode_utf8(s).len() as u8] + encode_utf8(s)
}

/// The UTF-8 encoding of `s` fits the `u8` length prefix.
pub open spec fn str_fits(s: Seq<char>) -> bool {
    encode_utf8(s).len() <= 255
}

/// A rect on the wire: `x, y, w, h` as little-endian `u16`s.
pub open spec fn rect_bytes(r: Rect) -> Seq<u8> {
    spec_u16_to_le_bytes(r.x) + spec_u16_to_le_bytes(r.y) + spec_u16_to_le_bytes(r.w)
        + spec_u16_to_le_bytes(r.h)
}

/// A rect list on the wire: the rects' bytes concatenated in order.
pub open spec fn rects_bytes(rs: Seq<Rect>) -> Seq<u8>
    decreases rs.len(),
{
    if rs.len() == 0 {
        Seq::empty()
    } else {
        rects_bytes(rs.drop_last()) + rect_bytes(rs.last())
    }
}

/// The payload bytes of a message (everything after the header).
pub open spec fn spec_payload(m: MessageView) -> Seq<u8> {
    match m {
        MessageView::Hello(h) => spec_u16_to_le_bytes(h.proto_version) + spec_u32_to_le_bytes(
            h.capabilities,
        ) + spec_u16_to_le_bytes(h.screen_w) + spec_u16_to_le_bytes(h.screen_h)
            + spec_u16_to_le_bytes(h.refresh_hint) + str_bytes(h.name),
        MessageView::HelloOk(h) => spec_u16_to_le_bytes(h.proto_version) + spec_u32_to_le_bytes(
            h.capabilities,
        ) + spec_u64_to_le_bytes(h.session_id) + spec_u16_to_le_bytes(h.max_rects)
            + spec_u16_to_le_bytes(0),
        MessageView::Config(c) => seq![c.codec, c.pixel_format] + spec_u16_to_le_bytes(
            c.refresh_hint,
        ) + spec_u16_to_le_bytes(c.flags),
        MessageView::DisplayInfo(d) => spec_u16_to_le_bytes(d.width) + spec_u16_to_le_bytes(
            d.height,
        ) + spec_u16_to_le_bytes(d.refresh) + seq![d.pixel_format, d.flags] + str_bytes(d.name),
        MessageView::Frame(f) => spec_u64_to_le_bytes(f.frame_id) + spec_u64_to_le_bytes(
            f.timestamp_ns,
        ) + seq![f.codec, f.pixel_format] + spec_u16_to_le_bytes(f.rects.len() as u16)
            + spec_u16_to_le_bytes(0) + rects_bytes(f.rects) + f.payload,
        MessageView::DamageRegion(d) => spec_u64_to_le_bytes(d.frame_id) + spec_u64_to_le_bytes(
            d.timestamp_ns,
        ) + spec_u16_to_le_bytes(d.rects.len() as u16) + spec_u16_to_le_bytes(0) + rects_bytes(
            d.rects,
        ),
        MessageView::Ping(p) => spec_u64_to_le_bytes(p.client_ts_ns),
        MessageView::Pong(p) => spec_u64_to_le_bytes(p.echoed_client_ts_ns) + spec_u64_to_le_bytes(
            p.host_ts_ns,
        ),
        MessageView::Disconnect(d) => spec_u16_to_le_bytes(d.reason) + str_bytes(d.message),
        MessageView::Reconnect(r) => spec_u64_to_le_bytes(r.session_id) + spec_u64_to_le_bytes(
            r.last_frame_id,
        ),
        MessageView::FrameAck(a) => spec_u64_to_le_bytes(a.frame_id) + spec_u64_to_le_bytes(
            a.client_ts_ns,
        ),
    }
}

/// Every string of the message fits its `u8` length prefix.
pub open spec fn strings_fit(m: MessageView) -> bool {
    match m {
        MessageView::Hello(h) => str_fits(h.name),
        MessageView::DisplayInfo(d) => str_fits(d.name),
        MessageView::Disconnect(d) => str_fits(d.message),
        _ => true,
    }
}

/// The message can be framed: its strings fit their `u8` length prefix and
/// its payload is within `MAX_PAYLOAD`.
pub open spec fn encodable(m: MessageView) -> bool {
    &&& strings_fit(m)
    &&& spec_payload(m).len() <= MAX_PAYLOAD
}

/// The header that frames a message's payload.
pub open spec fn spec_frame_header(m: MessageView) -> Header {
    Header::spec_new(Message::spec_msg_type(m), spec_payload(m).len() as u32)
}

/// A framed message: its header's bytes, then its payload.
pub open spec fn spec_wire(m: MessageView) -> Seq<u8> {
    spec_header_bytes(spec_frame_header(m)) + spec_payload(m)
}

fn put_u16(out: &mut Vec<u8>, v: u16)
    ensures
        final(out)@ == old(out)@ + spec_u16_to_le_bytes(v),
{
    let mut b = u16_to_le_bytes(v);
    out.append(&mut b);
}

fn put_u32(out: &mut Vec<u8>, v: u32)
    ensures
        final(out)@ == old(out)@ + spec_u32_to_le_bytes(v),
{
    let mut b = u32_to_le_bytes(v);
    out.append(&mut b);
}

fn put_u64(out: &mut Vec<u8>, v: u64)
    ensures
        final(out)@ == old(out)@ + spec_u64_to_le_bytes(v),
{
    let mut b = u64_to_le_bytes(v);
    out.append(&mut b);
}

/// Appends every byte of `bytes` to `out`.
pub fn push_bytes(out: &mut Vec<u8>, bytes: &[u8])
    ensures
        final(out)@ == old(out)@ + bytes@,
{
    let ghost start = out@;
    let mut i: usize = 0;
    while i < bytes.len()
        invariant
            i <= bytes@.len(),
            out@ == start + bytes@.take(i as int),
        decreases bytes@.len() - i,
    {
        out.push(bytes[i]);
        i = i + 1;
        assert(out@ =~= start + bytes@.take(i as int));
    }
    assert(bytes@.take(i as int) =~= bytes@);
}

fn put_rect(out: &mut Vec<u8>, r: &Rect)
    ensures
        final(out)@ == old(out)@ + rect_bytes(*r),
{
    let ghost start = out@;
    put_u16(out, r.x);
    put_u16(out, r.y);
    put_u16(out, r.w);
    put_u16(out, r.h);
    assert(out@ =~= start + rect_bytes(*r));
}

fn put_rects(out: &mut Vec<u8>, rects: &Vec<Rect>)
    ensures
        final(out)@ == old(out)@ + rects_bytes(rects@),
{
    let ghost start = out@;
    let mut i: usize = 0;
    while i < rects.len()
        invariant
            i <= rects@.len(),
            out@ == start + rects_bytes(rects@.take(i as int)),
        decreases rects@.len() - i,
    {
        put_rect(out, &rects[i]);
        proof {
            assert(rects@.take(i + 1).drop_last() =~= rects@.take(i as int));
            assert(rects@.take(i + 1).last() == rects@[i as int]);
        }
        i = i + 1;
        assert(out@ =~= start + rects_bytes(rects@.take(i as int)));
    }
    assert(rects@.take(i as int) =~= rects@);
}

/// Strings are a `u8` length then the UTF-8 bytes; the caller guarantees
/// the length fits.
fn put_str(out: &mut Vec<u8>, s: &str)
    requires
        str_fits(s@),
    ensures
        final(out)@ == old(out)@ + str_bytes(s@),
{
    let ghost start = out@;
    let bytes = s.as_bytes();
    out.push(bytes.len() as u8);
    push_bytes(out, bytes);
    assert(out@ =~= start + str_bytes(s@));
}

impl Message {
    /// The payload bytes (everything after the header).
    fn payload_bytes(&self) -> (p: Vec<u8>)
        requires
            strings_fit(self@),
        ensures
            p@ == spec_payload(self@),
    {
        let mut payload: Vec<u8> = Vec::with_capacity(64);
        match self {
            Message::Hello(m) => {
                put_u16(&mut payload, m.proto_version);
                put_u32(&mut payload, m.capabilities);
                put_u16(&mut payload, m.screen_w);
                put_u16(&mut payload, m.screen_h);
                put_u16(&mut payload, m.refresh_hint);
                put_str(&mut payload, m.name.as_str());
            },
            Message::HelloOk(m) => {
                put_u16(&mut payload, m.proto_version);
                put_u32(&mut payload, m.capabilities);
                put_u64(&mut payload, m.session_id);
                put_u16(&mut payload, m.max_rects);
                put_u16(&mut payload, 0);
            },
            Message::Config(m) => {
                payload.push(m.codec);
                payload.push(m.pixel_format);
                put_u16(&mut payload, m.refresh_hint);
                put_u16(&mut payload, m.flags);
            },
            Message::DisplayInfo(m) => {
                put_u16(&mut payload, m.width);
                put_u16(&mut payload, m.height);
                put_u16(&mut payload, m.refresh);
                payload.push(m.pixel_format);
                payload.push(m.flags);
                put_str(&mut payload, m.name.as_str());
            },
            Message::Frame(m) => {
                put_u64(&mut payload, m.frame_id);
                put_u64(&mut payload, m.timestamp_ns);
                payload.push(m.codec);
                payload.push(m.pixel_format);
                put_u16(&mut payload, m.rects.len() as u16);
                put_u16(&mut payload, 0);
                put_rects(&mut payload, &m.rects);
                push_bytes(&mut payload, m.payload.as_slice());
            },
            Message::DamageRegion(m) => {
                put_u64(&mut payload, m.frame_id);
                put_u64(&mut payload, m.timestamp_ns);
                put_u16(&mut payload, m.rects.len() as u16);
                put_u16(&mut payload, 0);
                put_rects(&mut payload, &m.rects);
            },
            Message::Ping(m) => put_u64(&mut payload, m.client_ts_ns),
            Message::Pong(m) => {
                put_u64(&mut payload, m.echoed_client_ts_ns);
                put_u64(&mut payload, m.host_ts_ns);
            },
            Message::Disconnect(m) => {
                put_u16(&mut payload, m.reason);
                put_str(&mut payload, m.message.as_str());
            },
            Message::Reconnect(m) => {
                put_u64(&mut payload, m.session_id);
                put_u64(&mut payload, m.last_frame_id);
            },
            Message::FrameAck(m) => {
                put_u64(&mut payload, m.frame_id);
                put_u64(&mut payload, m.client_ts_ns);
            },
        }
        assert(payload@ =~= spec_payload(self@));
        payload
    }

    /// Header + payload as wire bytes. Strings must fit their `u8` length
    /// prefix and the payload `MAX_PAYLOAD` (violating either is a
    /// programmer error).
    pub fn to_bytes(&self) -> (out: Vec<u8>)
        requires
            encodable(self@),
        ensures
            out@ == spec_wire(self@),
    {
        let mut payload = self.payload_bytes();
        let mut out: Vec<u8> = Vec::with_capacity(HEADER_LEN + payload.len());
        let hb = Header::new(self.msg_type(), payload.len() as u32).to_bytes();
        push_bytes(&mut out, hb.as_slice());
        out.append(&mut payload);
        out
    }

    /// Whether every string of the message fits its `u8` length prefix.
    pub fn strings_fit(&self) -> (b: bool)
        ensures
            b == strings_fit(self@),
    {
        match self {
            Message::Hello(m) => str_len_fits(m.name.as_str()),
            Message::DisplayInfo(m) => str_len_fits(m.name.as_str()),
            Message::Disconnect(m) => str_len_fits(m.message.as_str()),
            _ => true,
        }
    }

    /// The wire bytes, or `None` when the message cannot be framed.
    pub fn encode(&self) -> (r: Option<Vec<u8>>)
        ensures
            r is Some <==> encodable(self@),
            r matches Some(b) ==> b@ == spec_wire(self@),
    {
        if !self.strings_fit() {
            return None;
        }
        let payload = self.payload_bytes();
        if payload.len() > MAX_PAYLOAD {
            return None;
        }
        Some(self.to_bytes())
    }
}

/// Whether the UTF-8 bytes of `s` fit a `u8` length prefix.
fn str_len_fits(s: &str) -> (b: bool)
    ensures
        b == str_fits(s@),
{
    s.as_bytes().len() <= 255
}

} // verus!
