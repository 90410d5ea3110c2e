//! Decoding payloads: a cursor over the payload bytes, and one reader per
//! message kind, each proved to agree with the decoding spec.

use vstd::prelude::*;
use vstd::bytes::*;
use vstd::slice::{slice_subrange, slice_to_vec};
use vstd::utf8::*;
use crate::codec;
use crate::decode_spec::{
    check_end, decode_config, decode_damage_region, decode_disconnect, decode_display_info,
    decode_frame, decode_hello, decode_hello_ok, decode_ping, decode_two_u64, first_short_from,
    rect_at, rects_at, spec_decode, str_at, truncated, view_result,
};
use crate::error::Error;
use crate::header::{le16_at, le32_at, le64_at};
use crate::message::{
    rects_byte_len, Config, DamageRegion, Disconnect, DisplayInfo,
    Frame, FrameAck, Hello, HelloOk, Message, Ping, Pong, Reconnect,
};
use crate::msg;
use crate::pixel_format;
use crate::rect::{lemma_area_bound, Rect};
use crate::MAX_WIRE_RECTS;

verus! {

/// `String::from_utf8`: the bytes become a `String` exactly when they are
/// valid UTF-8, and then the string's characters are their decoding.
#[verifier::external_body]
fn string_from_utf8(bytes: Vec<u8>) -> (r: Option<String>)
    ensures
        r is Some <==> valid_utf8(bytes@),
        r matches Some(s) ==> s@ == decode_utf8(bytes@),
{
    String::from_utf8(bytes).ok()
}

/// A read position in a payload.
struct Cur<'a> {
    buf: &'a [u8],
    pos: usize,
}

impl<'a> Cur<'a> {
    spec fn wf(&self) -> bool {
        self.pos <= self.buf@.len() <= isize::MAX
    }

    /// The next `n` bytes.
    fn take(&mut self, n: usize) -> (r: Result<&'a [u8], Error>)
        requires
            old(self).wf(),
            n <= 255,
        ensures
            final(self).wf(),
            final(self).buf@ == old(self).buf@,
            match r {
                Ok(b) => old(self).pos + n <= old(self).buf@.len() && b@ == old(self).buf@.subrange(
                    old(self).pos as int,
                    old(self).pos + n,
                ) && final(self).pos == old(self).pos + n,
                Err(e) => old(self).pos + n > old(self).buf@.len() && e == truncated(
                    old(self).pos + n,
                    old(self).buf@.len() as int,
                ),
            },
    {
        if self.pos + n > self.buf.len() {
            return Err(Error::Truncated { need: self.pos + n, have: self.buf.len() });
        }
        let s = slice_subrange(self.buf, self.pos, self.pos + n);
        self.pos = self.pos + n;
        Ok(s)
    }

    fn u8(&mut self) -> (r: Result<u8, Error>)
        requires
            old(self).wf(),
        ensures
            final(self).wf(),
            final(self).buf@ == old(self).buf@,
            match r {
                Ok(v) => old(self).pos + 1 <= old(self).buf@.len() && v == old(self).buf@[old(
                    self,
                ).pos as int] && final(self).pos == old(self).pos + 1,
                Err(e) => old(self).pos + 1 > old(self).buf@.len() && e == truncated(
                    old(self).pos + 1,
                    old(self).buf@.len() as int,
                ),
            },
    {
        let b = self.take(1)?;
        Ok(b[0])
    }

    fn u16(&mut self) -> (r: Result<u16, Error>)
        requires
            old(self).wf(),
        ensures
            final(self).wf(),
            final(self).buf@ == old(self).buf@,
            match r {
                Ok(v) => old(self).pos + 2 <= old(self).buf@.len() && v == le16_at(
                    old(self).buf@,
                    old(self).pos as int,
                ) && final(self).pos == old(self).pos + 2,
                Err(e) => old(self).pos + 2 > old(self).buf@.len() && e == truncated(
                    old(self).pos + 2,
                    old(self).buf@.len() as int,
                ),
            },
    {
        let b = self.take(2)?;
        Ok(u16_from_le_bytes(b))
    }

    fn u32(&mut self) -> (r: Result<u32, Error>)
        requires
            old(self).wf(),
        ensures
            final(self).wf(),
            final(self).buf@ == old(self).buf@,
            match r {
                Ok(v) => old(self).pos + 4 <= old(self).buf@.len() && v == le32_at(
                    old(self).buf@,
                    old(self).pos as int,
                ) && final(self).pos == old(self).pos + 4,
                Err(e) => old(self).pos + 4 > old(self).buf@.len() && e == truncated(
                    old(self).pos + 4,
                    old(self).buf@.len() as int,
                ),
            },
    {
        let b = self.take(4)?;
        Ok(u32_from_le_bytes(b))
    }

    fn u64(&mut self) -> (r: Result<u64, Error>)
        requires
            old(self).wf(),
        ensures
            final(self).wf(),
            final(self).buf@ == old(self).buf@,
            match r {
                Ok(v) => old(self).pos + 8 <= old(self).buf@.len() && v == le64_at(
                    old(self).buf@,
                    old(self).pos as int,
                ) && final(self).pos == old(self).pos + 8,
                Err(e) => old(self).pos + 8 > old(self).buf@.len() && e == truncated(
                    old(self).pos + 8,
                    old(self).buf@.len() as int,
                ),
            },
    {
        let b = self.take(8)?;
        Ok(u64_from_le_bytes(b))
    }

    fn rect(&mut self) -> (r: Result<Rect, Error>)
        requires
            old(self).wf(),
        ensures
            final(self).wf(),
            final(self).buf@ == old(self).buf@,
            match r {
                Ok(v) => old(self).pos + 8 <= old(self).buf@.len() && v == rect_at(
                    old(self).buf@,
                    old(self).pos as int,
                ) && final(self).pos == old(self).pos + 8,
                Err(e) => old(self).pos + 8 > old(self).buf@.len() && e == truncated(
                    old(self).pos + 8,
                    old(self).buf@.len() as int,
                ),
            },
    {
        let b = self.take(8)?;
        let ghost s = old(self).buf@;
        let ghost p = old(self).pos as int;
        assert(b@.subrange(0, 2) =~= s.subrange(p, p + 2));
        assert(b@.subrange(2, 4) =~= s.subrange(p + 2, p + 4));
        assert(b@.subrange(4, 6) =~= s.subrange(p + 4, p + 6));
        assert(b@.subrange(6, 8) =~= s.subrange(p + 6, p + 8));
        Ok(
            Rect {
                x: u16_from_le_bytes(slice_subrange(b, 0, 2)),
                y: u16_from_le_bytes(slice_subrange(b, 2, 4)),
                w: u16_from_le_bytes(slice_subrange(b, 4, 6)),
                h: u16_from_le_bytes(slice_subrange(b, 6, 8)),
            },
        )
    }

    /// A `u8`-length-prefixed UTF-8 string.
    fn string(&mut self) -> (r: Result<String, Error>)
        requires
            old(self).wf(),
        ensures
            final(self).wf(),
            final(self).buf@ == old(self).buf@,
            old(self).pos + 1 > old(self).buf@.len() ==> r == Err::<String, Error>(
                truncated(old(self).pos + 1, old(self).buf@.len() as int),
            ),
            old(self).pos + 1 <= old(self).buf@.len() ==> match str_at(
                old(self).buf@,
                old(self).pos as int,
            ) {
                Ok((chars, end)) => r matches Ok(s) && s@ == chars && final(self).pos == end,
                Err(e) => r == Err::<String, Error>(e),
            },
    {
        let len = self.u8()?;
        let b = self.take(len as usize)?;
        match string_from_utf8(slice_to_vec(b)) {
            Some(s) => Ok(s),
            None => Err(Error::BadString),
        }
    }

    /// All remaining bytes.
    fn rest(&mut self) -> (r: &'a [u8])
        requires
            old(self).wf(),
        ensures
            final(self).wf(),
            final(self).buf@ == old(self).buf@,
            final(self).pos == old(self).buf@.len(),
            r@ == old(self).buf@.subrange(old(self).pos as int, old(self).buf@.len() as int),
    {
        let s = slice_subrange(self.buf, self.pos, self.buf.len());
        self.pos = self.buf.len();
        s
    }

    /// Every byte was consumed.
    fn done(&self) -> (r: Result<(), Error>)
        requires
            self.wf(),
        ensures
            r == (match check_end(self.buf@, self.pos as int) {
                Some(e) => Err::<(), Error>(e),
                None => Ok(()),
            }),
    {
        if self.pos != self.buf.len() {
            Err(Error::Trailing(self.buf.len() - self.pos))
        } else {
            Ok(())
        }
    }
}

fn read_hello(p: &[u8]) -> (r: Result<Message, Error>)
    requires
        p@.len() <= isize::MAX,
    ensures
        view_result(r) == decode_hello(p@),
{
    proof {
        reveal_with_fuel(first_short_from, 7);
    }
    let mut c = Cur { buf: p, pos: 0 };
    let proto_version = c.u16()?;
    let capabilities = c.u32()?;
    let screen_w = c.u16()?;
    let screen_h = c.u16()?;
    let refresh_hint = c.u16()?;
    let name = c.string()?;
    c.done()?;
    Ok(Message::Hello(Hello { proto_version, capabilities, screen_w, screen_h, refresh_hint, name }))
}

fn read_hello_ok(p: &[u8]) -> (r: Result<Message, Error>)
    requires
        p@.len() <= isize::MAX,
    ensures
        view_result(r) == decode_hello_ok(p@),
{
    proof {
        reveal_with_fuel(first_short_from, 6);
    }
    let mut c = Cur { buf: p, pos: 0 };
    let proto_version = c.u16()?;
    let capabilities = c.u32()?;
    let session_id = c.u64()?;
    let max_rects = c.u16()?;
    let _reserved = c.u16()?;
    c.done()?;
    Ok(Message::HelloOk(HelloOk { proto_version, capabilities, session_id, max_rects }))
}

fn read_config(p: &[u8]) -> (r: Result<Message, Error>)
    requires
        p@.len() <= isize::MAX,
    ensures
        view_result(r) == decode_config(p@),
{
    proof {
        reveal_with_fuel(first_short_from, 5);
    }
    let mut c = Cur { buf: p, pos: 0 };
    let codec_v = c.u8()?;
    let pf = c.u8()?;
    let refresh_hint = c.u16()?;
    let flags = c.u16()?;
    c.done()?;
    if !codec::valid(codec_v) {
        return Err(Error::BadCodec(codec_v));
    }
    if !pixel_format::valid(pf) {
        return Err(Error::BadPixelFormat(pf));
    }
    Ok(Message::Config(Config { codec: codec_v, pixel_format: pf, refresh_hint, flags }))
}

fn read_display_info(p: &[u8]) -> (r: Result<Message, Error>)
    requires
        p@.len() <= isize::MAX,
    ensures
        view_result(r) == decode_display_info(p@),
{
    proof {
        reveal_with_fuel(first_short_from, 7);
    }
    let mut c = Cur { buf: p, pos: 0 };
    let width = c.u16()?;
    let height = c.u16()?;
    let refresh = c.u16()?;
    let pf = c.u8()?;
    let flags = c.u8()?;
    let name = c.string()?;
    c.done()?;
    if !pixel_format::valid(pf) {
        return Err(Error::BadPixelFormat(pf));
    }
    Ok(Message::DisplayInfo(DisplayInfo { width, height, refresh, pixel_format: pf, flags, name }))
}

fn read_ping(p: &[u8]) -> (r: Result<Message, Error>)
    requires
        p@.len() <= isize::MAX,
    ensures
        view_result(r) == decode_ping(p@),
{
    proof {
        reveal_with_fuel(first_short_from, 2);
    }
    let mut c = Cur { buf: p, pos: 0 };
    let client_ts_ns = c.u64()?;
    c.done()?;
    Ok(Message::Ping(Ping { client_ts_ns }))
}

fn read_two_u64(p: &[u8]) -> (r: Result<(u64, u64), Error>)
    requires
        p@.len() <= isize::MAX,
    ensures
        r == decode_two_u64(p@),
{
    proof {
        reveal_with_fuel(first_short_from, 3);
    }
    let mut c = Cur { buf: p, pos: 0 };
    let a = c.u64()?;
    let b = c.u64()?;
    c.done()?;
    Ok((a, b))
}

fn read_disconnect(p: &[u8]) -> (r: Result<Message, Error>)
    requires
        p@.len() <= isize::MAX,
    ensures
        view_result(r) == decode_disconnect(p@),
{
    proof {
        reveal_with_fuel(first_short_from, 3);
    }
    let mut c = Cur { buf: p, pos: 0 };
    let reason = c.u16()?;
    let message = c.string()?;
    c.done()?;
    Ok(Message::Disconnect(Disconnect { reason, message }))
}

/// A rect list never holds more bytes than `4 * 65535²` per rect.
proof fn lemma_rects_byte_len_bound(rs: Seq<Rect>)
    ensures
        rects_byte_len(rs) <= rs.len() * 17179344900,
    decreases rs.len(),
{
    if rs.len() > 0 {
        lemma_rects_byte_len_bound(rs.drop_last());
        lemma_area_bound(rs.last());
        let n = rs.len() as int;
        assert(rects_byte_len(rs) == rects_byte_len(rs.drop_last()) + rs.last().spec_byte_len());
        assert(rs.last().spec_byte_len() <= 17179344900);
        assert((n - 1) * 17179344900 + 17179344900 == n * 17179344900);
    }
}

/// Sum of the packed byte lengths of at most `MAX_WIRE_RECTS` rects.
fn rects_total_bytes(rects: &Vec<Rect>) -> (n: u64)
    requires
        rects@.len() <= MAX_WIRE_RECTS,
    ensures
        n == rects_byte_len(rects@),
{
    let mut total: u64 = 0;
    let mut i: usize = 0;
    while i < rects.len()
        invariant
            i <= rects@.len() <= MAX_WIRE_RECTS,
            total == rects_byte_len(rects@.take(i as int)),
        decreases rects@.len() - i,
    {
        proof {
            assert(rects@.take(i + 1).drop_last() =~= rects@.take(i as int));
            lemma_rects_byte_len_bound(rects@.take(i + 1));
        }
        total = total + rects[i].byte_len();
        i = i + 1;
    }
    assert(rects@.take(i as int) =~= rects@);
    total
}

/// `count` rects from the cursor; a rect that does not fit is reported as
/// truncation at its end.
fn read_rects(c: &mut Cur, count: u16) -> (r: Result<Vec<Rect>, Error>)
    requires
        old(c).wf(),
        count <= MAX_WIRE_RECTS,
    ensures
        final(c).wf(),
        final(c).buf@ == old(c).buf@,
        match r {
            Ok(v) => old(c).pos + 8 * count <= old(c).buf@.len() && v@ == rects_at(
                old(c).buf@,
                old(c).pos as int,
                count as int,
            ) && final(c).pos == old(c).pos + 8 * count,
            Err(e) => old(c).pos + 8 * count > old(c).buf@.len() && e == truncated(
                old(c).pos + 8 * ((old(c).buf@.len() - old(c).pos) / 8) + 8,
                old(c).buf@.len() as int,
            ),
        },
{
    let ghost start = c.pos as int;
    let ghost s = c.buf@;
    let mut rects: Vec<Rect> = Vec::with_capacity(count as usize);
    let mut i: u16 = 0;
    while i < count
        invariant
            c.wf(),
            c.buf@ == s,
            s == old(c).buf@,
            start == old(c).pos,
            i <= count <= MAX_WIRE_RECTS,
            c.pos == start + 8 * i,
            rects@ =~= rects_at(s, start, i as int),
        decreases count - i,
    {
        let r = match c.rect() {
            Ok(r) => r,
            Err(e) => {
                assert((s.len() - start) / 8 == i as int);
                return Err(e);
            },
        };
        rects.push(r);
        i = i + 1;
        assert(rects@ =~= rects_at(s, start, i as int));
    }
    Ok(rects)
}

fn read_frame(p: &[u8]) -> (r: Result<Message, Error>)
    requires
        p@.len() <= isize::MAX,
    ensures
        view_result(r) == decode_frame(p@),
{
    proof {
        reveal_with_fuel(first_short_from, 7);
    }
    let mut c = Cur { buf: p, pos: 0 };
    let frame_id = c.u64()?;
    let timestamp_ns = c.u64()?;
    let codec_v = c.u8()?;
    let pf = c.u8()?;
    let count = c.u16()?;
    let _reserved = c.u16()?;
    if count > MAX_WIRE_RECTS {
        return Err(Error::Truncated { need: count as usize * 8, have: c.buf.len() - c.pos });
    }
    let rects = read_rects(&mut c, count)?;
    let payload = slice_to_vec(c.rest());
    if codec_v == codec::RAW {
        let expect = rects_total_bytes(&rects);
        if payload.len() as u64 != expect {
            return Err(Error::Truncated { need: expect as usize, have: payload.len() });
        }
    }
    if !codec::valid(codec_v) {
        return Err(Error::BadCodec(codec_v));
    }
    if !pixel_format::valid(pf) {
        return Err(Error::BadPixelFormat(pf));
    }
    let f = Frame { frame_id, timestamp_ns, codec: codec_v, pixel_format: pf, rects, payload };
    Ok(Message::Frame(f))
}

fn read_damage_region(p: &[u8]) -> (r: Result<Message, Error>)
    requires
        p@.len() <= isize::MAX,
    ensures
        view_result(r) == decode_damage_region(p@),
{
    proof {
        reveal_with_fuel(first_short_from, 5);
    }
    let mut c = Cur { buf: p, pos: 0 };
    let frame_id = c.u64()?;
    let timestamp_ns = c.u64()?;
    let count = c.u16()?;
    let _reserved = c.u16()?;
    if count > MAX_WIRE_RECTS {
        return Err(Error::Truncated { need: count as usize * 8, have: c.buf.len() - c.pos });
    }
    let rects = read_rects(&mut c, count)?;
    c.done()?;
    Ok(Message::DamageRegion(DamageRegion { frame_id, timestamp_ns, rects }))
}

impl Message {
    /// Decodes the payload of a message of type `msg_type`. Unknown types,
    /// short or over-long payloads, bad strings and unregistered codecs or
    /// pixel formats are errors, never a panic.
    pub fn decode(msg_type: u16, payload: &[u8]) -> (r: Result<Message, Error>)
        requires
            payload@.len() <= isize::MAX,
        ensures
            view_result(r) == spec_decode(msg_type, payload@),
    {
        if msg_type == msg::HELLO {
            read_hello(payload)
        } else if msg_type == msg::HELLO_OK {
            read_hello_ok(payload)
        } else if msg_type == msg::CONFIG {
            read_config(payload)
        } else if msg_type == msg::DISPLAY_INFO {
            read_display_info(payload)
        } else if msg_type == msg::FRAME {
            read_frame(payload)
        } else if msg_type == msg::DAMAGE_REGION {
            read_damage_region(payload)
        } else if msg_type == msg::PING {
            read_ping(payload)
        } else if msg_type == msg::PONG {
            let (a, b) = read_two_u64(payload)?;
            Ok(Message::Pong(Pong { echoed_client_ts_ns: a, host_ts_ns: b }))
        } else if msg_type == msg::DISCONNECT {
            read_disconnect(payload)
        } else if msg_type == msg::RECONNECT {
            let (a, b) = read_two_u64(payload)?;
            Ok(Message::Reconnect(Reconnect { session_id: a, last_frame_id: b }))
        } else if msg_type == msg::FRAME_ACK {
            let (a, b) = read_two_u64(payload)?;
            Ok(Message::FrameAck(FrameAck { frame_id: a, client_ts_ns: b }))
        } else {
            Err(Error::UnknownMessageType(msg_type))
        }
    }
}

} // verus!
