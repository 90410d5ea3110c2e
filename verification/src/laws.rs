//! Laws of the wire protocol: what a receiver reads back of what a sender
//! wrote.

use vstd::prelude::*;
use vstd::bytes::*;
use vstd::utf8::*;
use crate::codec;
use crate::decode_spec::{
    check_end, check_rect_list, decode_damage_region, decode_disconnect,
    decode_display_info, decode_frame, decode_hello, first_short_from, rect_at, rects_at,
    spec_decode, str_at,
};
use crate::encode::{rect_bytes, rects_bytes, spec_payload, str_bytes, str_fits};
use crate::encode::{encodable, spec_frame_header, spec_wire};
use crate::header::{le16_at, le32_at, le64_at, spec_header_bytes, spec_header_from_bytes, Header};
use crate::stream::{spec_read, StreamError};
use crate::{MAGIC, VERSION};
use crate::error::Error;
use crate::message::{
    rects_byte_len, DamageRegionView, DisconnectView, DisplayInfoView, Frame, FrameView, HelloView,
    Message, MessageView,
};
use crate::pixel_format;
use crate::rect::Rect;
use crate::{MAX_RECTS, MAX_WIRE_RECTS};
use crate::session::{display_name, spec_opening, spec_reply, spec_session_start};

verus! {

/// What a receiver accepts: strings fit their `u8` prefix, rect lists stay
/// within `MAX_WIRE_RECTS`, codecs and pixel formats are registered, and a RAW
/// frame carries exactly its rects' packed bytes.
pub open spec fn well_formed(m: MessageView) -> bool {
    match m {
        MessageView::Hello(h) => str_fits(h.name),
        MessageView::Config(c) => codec::spec_valid(c.codec) && pixel_format::spec_valid(
            c.pixel_format,
        ),
        MessageView::DisplayInfo(d) => str_fits(d.name) && pixel_format::spec_valid(
            d.pixel_format,
        ),
        MessageView::Frame(f) => f.rects.len() <= MAX_WIRE_RECTS && codec::spec_valid(f.codec)
            && pixel_format::spec_valid(f.pixel_format) && (f.codec == codec::RAW
            ==> f.payload.len() == rects_byte_len(f.rects)),
        MessageView::DamageRegion(d) => d.rects.len() <= MAX_WIRE_RECTS,
        MessageView::Disconnect(d) => str_fits(d.message),
        _ => true,
    }
}

/// A message a writer can frame (strings within their prefix, payload
/// within `crate::MAX_PAYLOAD`) and a reader accepts.
pub open spec fn sendable(m: MessageView) -> bool {
    &&& well_formed(m)
    &&& encodable(m)
}

proof fn lemma_le16(s: Seq<u8>, off: int, x: u16)
    requires
        0 <= off,
        off + 2 <= s.len(),
        s.subrange(off, off + 2) == spec_u16_to_le_bytes(x),
    ensures
        le16_at(s, off) == x,
{
    lemma_auto_spec_u16_to_from_le_bytes();
    assert(spec_u16_to_le_bytes(x).len() == 2);
}

proof fn lemma_le32(s: Seq<u8>, off: int, x: u32)
    requires
        0 <= off,
        off + 4 <= s.len(),
        s.subrange(off, off + 4) == spec_u32_to_le_bytes(x),
    ensures
        le32_at(s, off) == x,
{
    lemma_auto_spec_u32_to_from_le_bytes();
    assert(spec_u32_to_le_bytes(x).len() == 4);
}

proof fn lemma_le64(s: Seq<u8>, off: int, x: u64)
    requires
        0 <= off,
        off + 8 <= s.len(),
        s.subrange(off, off + 8) == spec_u64_to_le_bytes(x),
    ensures
        le64_at(s, off) == x,
{
    lemma_auto_spec_u64_to_from_le_bytes();
}

/// Lengths of the little-endian encodings.
proof fn lemma_le_lens(a: u16, b: u32, c: u64)
    ensures
        spec_u16_to_le_bytes(a).len() == 2,
        spec_u32_to_le_bytes(b).len() == 4,
        spec_u64_to_le_bytes(c).len() == 8,
{
    lemma_auto_spec_u16_to_from_le_bytes();
    lemma_auto_spec_u32_to_from_le_bytes();
    lemma_auto_spec_u64_to_from_le_bytes();
}

/// A rect's 8 bytes, wherever they sit, read back as the rect.
proof fn lemma_rect_at(s: Seq<u8>, off: int, r: Rect)
    requires
        0 <= off,
        off + 8 <= s.len(),
        s.subrange(off, off + 8) == rect_bytes(r),
    ensures
        rect_at(s, off) == r,
{
    lemma_le_lens(r.x, 0, 0);
    lemma_le_lens(r.y, 0, 0);
    lemma_le_lens(r.w, 0, 0);
    lemma_le_lens(r.h, 0, 0);
    let b = rect_bytes(r);
    assert(s.subrange(off, off + 2) =~= b.subrange(0, 2));
    assert(s.subrange(off + 2, off + 4) =~= b.subrange(2, 4));
    assert(s.subrange(off + 4, off + 6) =~= b.subrange(4, 6));
    assert(s.subrange(off + 6, off + 8) =~= b.subrange(6, 8));
    assert(b.subrange(0, 2) =~= spec_u16_to_le_bytes(r.x));
    assert(b.subrange(2, 4) =~= spec_u16_to_le_bytes(r.y));
    assert(b.subrange(4, 6) =~= spec_u16_to_le_bytes(r.w));
    assert(b.subrange(6, 8) =~= spec_u16_to_le_bytes(r.h));
    lemma_le16(s, off, r.x);
    lemma_le16(s, off + 2, r.y);
    lemma_le16(s, off + 4, r.w);
    lemma_le16(s, off + 6, r.h);
}

/// A rect list occupies 8 bytes per rect, rect `i` at offset `8 * i`.
proof fn lemma_rects_bytes(rs: Seq<Rect>)
    ensures
        rects_bytes(rs).len() == 8 * rs.len(),
        forall|i: int|
            0 <= i < rs.len() ==> #[trigger] rects_bytes(rs).subrange(8 * i, 8 * i + 8)
                == rect_bytes(rs[i]),
    decreases rs.len(),
{
    if rs.len() > 0 {
        let init = rs.drop_last();
        lemma_rects_bytes(init);
        let r = rs.last();
        lemma_le_lens(r.x, 0, 0);
        lemma_le_lens(r.y, 0, 0);
        lemma_le_lens(r.w, 0, 0);
        lemma_le_lens(r.h, 0, 0);
        let b = rects_bytes(rs);
        assert forall|i: int| 0 <= i < rs.len() implies #[trigger] b.subrange(8 * i, 8 * i + 8)
            == rect_bytes(rs[i]) by {
            if i < init.len() {
                assert(b.subrange(8 * i, 8 * i + 8) =~= rects_bytes(init).subrange(8 * i, 8 * i + 8));
                assert(init[i] == rs[i]);
            } else {
                assert(b.subrange(8 * i, 8 * i + 8) =~= rect_bytes(r));
            }
        }
    }
}

/// Rects written back to back from `base` read back as the same list.
proof fn lemma_rects_at(s: Seq<u8>, base: int, rs: Seq<Rect>)
    requires
        0 <= base,
        base + 8 * rs.len() <= s.len(),
        s.subrange(base, base + 8 * rs.len()) == rects_bytes(rs),
    ensures
        rects_at(s, base, rs.len() as int) == rs,
{
    lemma_rects_bytes(rs);
    assert forall|i: int| 0 <= i < rs.len() implies #[trigger] rect_at(s, base + 8 * i) == rs[i] by {
        assert(s.subrange(base + 8 * i, base + 8 * i + 8) =~= rects_bytes(rs).subrange(
            8 * i,
            8 * i + 8,
        ));
        lemma_rect_at(s, base + 8 * i, rs[i]);
    }
    assert(rects_at(s, base, rs.len() as int) =~= rs);
}

/// A string written at `off` reads back as itself and ends after its bytes.
proof fn lemma_str_at(s: Seq<u8>, off: int, chars: Seq<char>)
    requires
        0 <= off,
        str_fits(chars),
        off + 1 + encode_utf8(chars).len() <= s.len(),
        s.subrange(off, off + 1 + encode_utf8(chars).len()) == str_bytes(chars),
    ensures
        str_at(s, off) == Ok::<(Seq<char>, int), crate::error::Error>(
            (chars, off + 1 + encode_utf8(chars).len()),
        ),
{
    let n = encode_utf8(chars).len() as int;
    let w = s.subrange(off, off + 1 + n);
    assert(s[off] == w[0]);
    assert(s.subrange(off + 1, off + 1 + n) =~= w.subrange(1, 1 + n));
    assert(str_bytes(chars).subrange(1, 1 + n) =~= encode_utf8(chars));
    encode_utf8_valid_utf8(chars);
    encode_utf8_decode_utf8(chars);
}

proof fn lemma_decode_hello(h: HelloView)
    requires
        str_fits(h.name),
    ensures
        decode_hello(spec_payload(MessageView::Hello(h))) == Ok::<MessageView, Error>(
            MessageView::Hello(h),
        ),
{
    reveal_with_fuel(first_short_from, 7);
    let s = spec_payload(MessageView::Hello(h));
    lemma_le_lens(h.proto_version, h.capabilities, 0);
    lemma_le_lens(h.screen_w, 0, 0);
    lemma_le_lens(h.screen_h, 0, 0);
    lemma_le_lens(h.refresh_hint, 0, 0);
    let n = encode_utf8(h.name).len() as int;
    assert(s.len() == 13 + n);
    assert(s.subrange(0, 2) =~= spec_u16_to_le_bytes(h.proto_version));
    assert(s.subrange(2, 6) =~= spec_u32_to_le_bytes(h.capabilities));
    assert(s.subrange(6, 8) =~= spec_u16_to_le_bytes(h.screen_w));
    assert(s.subrange(8, 10) =~= spec_u16_to_le_bytes(h.screen_h));
    assert(s.subrange(10, 12) =~= spec_u16_to_le_bytes(h.refresh_hint));
    assert(s.subrange(12, 13 + n) =~= str_bytes(h.name));
    lemma_le16(s, 0, h.proto_version);
    lemma_le32(s, 2, h.capabilities);
    lemma_le16(s, 6, h.screen_w);
    lemma_le16(s, 8, h.screen_h);
    lemma_le16(s, 10, h.refresh_hint);
    lemma_str_at(s, 12, h.name);
    assert(check_end(s, 13 + n) is None);
}

proof fn lemma_decode_display_info(d: DisplayInfoView)
    requires
        str_fits(d.name),
        pixel_format::spec_valid(d.pixel_format),
    ensures
        decode_display_info(spec_payload(MessageView::DisplayInfo(d))) == Ok::<
            MessageView,
            Error,
        >(MessageView::DisplayInfo(d)),
{
    reveal_with_fuel(first_short_from, 7);
    let s = spec_payload(MessageView::DisplayInfo(d));
    lemma_le_lens(d.width, 0, 0);
    lemma_le_lens(d.height, 0, 0);
    lemma_le_lens(d.refresh, 0, 0);
    let n = encode_utf8(d.name).len() as int;
    assert(s.len() == 9 + n);
    assert(s.subrange(0, 2) =~= spec_u16_to_le_bytes(d.width));
    assert(s.subrange(2, 4) =~= spec_u16_to_le_bytes(d.height));
    assert(s.subrange(4, 6) =~= spec_u16_to_le_bytes(d.refresh));
    assert(s[6] == d.pixel_format);
    assert(s[7] == d.flags);
    assert(s.subrange(8, 9 + n) =~= str_bytes(d.name));
    lemma_le16(s, 0, d.width);
    lemma_le16(s, 2, d.height);
    lemma_le16(s, 4, d.refresh);
    lemma_str_at(s, 8, d.name);
    assert(check_end(s, 9 + n) is None);
}

proof fn lemma_decode_disconnect(d: DisconnectView)
    requires
        str_fits(d.message),
    ensures
        decode_disconnect(spec_payload(MessageView::Disconnect(d))) == Ok::<MessageView, Error>(
            MessageView::Disconnect(d),
        ),
{
    reveal_with_fuel(first_short_from, 3);
    let s = spec_payload(MessageView::Disconnect(d));
    lemma_le_lens(d.reason, 0, 0);
    let n = encode_utf8(d.message).len() as int;
    assert(s.len() == 3 + n);
    assert(s.subrange(0, 2) =~= spec_u16_to_le_bytes(d.reason));
    assert(s.subrange(2, 3 + n) =~= str_bytes(d.message));
    lemma_le16(s, 0, d.reason);
    lemma_str_at(s, 2, d.message);
    assert(check_end(s, 3 + n) is None);
}

proof fn lemma_decode_frame(f: FrameView)
    requires
        well_formed(MessageView::Frame(f)),
    ensures
        decode_frame(spec_payload(MessageView::Frame(f))) == Ok::<MessageView, Error>(
            MessageView::Frame(f),
        ),
{
    reveal_with_fuel(first_short_from, 7);
    let s = spec_payload(MessageView::Frame(f));
    let count = f.rects.len() as int;
    lemma_le_lens(count as u16, 0, f.frame_id);
    lemma_le_lens(0, 0, f.timestamp_ns);
    lemma_rects_bytes(f.rects);
    assert(s.len() == 22 + 8 * count + f.payload.len());
    assert(s.subrange(0, 8) =~= spec_u64_to_le_bytes(f.frame_id));
    assert(s.subrange(8, 16) =~= spec_u64_to_le_bytes(f.timestamp_ns));
    assert(s[16] == f.codec);
    assert(s[17] == f.pixel_format);
    assert(s.subrange(18, 20) =~= spec_u16_to_le_bytes(count as u16));
    assert(s.subrange(22, 22 + 8 * count) =~= rects_bytes(f.rects));
    assert(s.subrange(22 + 8 * count, s.len() as int) =~= f.payload);
    lemma_le64(s, 0, f.frame_id);
    lemma_le64(s, 8, f.timestamp_ns);
    lemma_le16(s, 18, count as u16);
    lemma_rects_at(s, 22, f.rects);
    assert(check_rect_list(s, 22, count) is None);
    assert(decode_frame(s) == Ok::<MessageView, Error>(MessageView::Frame(f)));
}

proof fn lemma_decode_damage_region(d: DamageRegionView)
    requires
        d.rects.len() <= MAX_WIRE_RECTS,
    ensures
        decode_damage_region(spec_payload(MessageView::DamageRegion(d))) == Ok::<
            MessageView,
            Error,
        >(MessageView::DamageRegion(d)),
{
    reveal_with_fuel(first_short_from, 5);
    let s = spec_payload(MessageView::DamageRegion(d));
    let count = d.rects.len() as int;
    lemma_le_lens(count as u16, 0, d.frame_id);
    lemma_le_lens(0, 0, d.timestamp_ns);
    lemma_rects_bytes(d.rects);
    assert(s.len() == 20 + 8 * count);
    assert(s.subrange(0, 8) =~= spec_u64_to_le_bytes(d.frame_id));
    assert(s.subrange(8, 16) =~= spec_u64_to_le_bytes(d.timestamp_ns));
    assert(s.subrange(16, 18) =~= spec_u16_to_le_bytes(count as u16));
    assert(s.subrange(20, 20 + 8 * count) =~= rects_bytes(d.rects));
    lemma_le64(s, 0, d.frame_id);
    lemma_le64(s, 8, d.timestamp_ns);
    lemma_le16(s, 16, count as u16);
    lemma_rects_at(s, 20, d.rects);
    assert(check_rect_list(s, 20, count) is None);
    assert(check_end(s, 20 + 8 * count) is None);
}

/// Two `u64`s written back to back read back as themselves.
proof fn lemma_two_u64(s: Seq<u8>, a: u64, b: u64)
    requires
        s == spec_u64_to_le_bytes(a) + spec_u64_to_le_bytes(b),
    ensures
        le64_at(s, 0) == a,
        le64_at(s, 8) == b,
        s.len() == 16,
{
    lemma_le_lens(0, 0, a);
    lemma_le_lens(0, 0, b);
    assert(s.subrange(0, 8) =~= spec_u64_to_le_bytes(a));
    assert(s.subrange(8, 16) =~= spec_u64_to_le_bytes(b));
    lemma_le64(s, 0, a);
    lemma_le64(s, 8, b);
}

/// Every well-formed message survives encoding and decoding: decoding the
/// payload a sender writes, under the message's own type id, gives back the
/// message.
pub proof fn lemma_payload_roundtrip(m: MessageView)
    requires
        well_formed(m),
    ensures
        spec_decode(Message::spec_msg_type(m), spec_payload(m)) == Ok::<MessageView, Error>(m),
{
    let s = spec_payload(m);
    match m {
        MessageView::Hello(h) => lemma_decode_hello(h),
        MessageView::HelloOk(h) => {
            reveal_with_fuel(first_short_from, 6);
            lemma_le_lens(h.proto_version, h.capabilities, h.session_id);
            lemma_le_lens(h.max_rects, 0, 0);
            lemma_le_lens(0, 0, 0);
            assert(s.len() == 18);
            assert(s.subrange(0, 2) =~= spec_u16_to_le_bytes(h.proto_version));
            assert(s.subrange(2, 6) =~= spec_u32_to_le_bytes(h.capabilities));
            assert(s.subrange(6, 14) =~= spec_u64_to_le_bytes(h.session_id));
            assert(s.subrange(14, 16) =~= spec_u16_to_le_bytes(h.max_rects));
            lemma_le16(s, 0, h.proto_version);
            lemma_le32(s, 2, h.capabilities);
            lemma_le64(s, 6, h.session_id);
            lemma_le16(s, 14, h.max_rects);
        },
        MessageView::Config(c) => {
            reveal_with_fuel(first_short_from, 5);
            lemma_le_lens(c.refresh_hint, 0, 0);
            lemma_le_lens(c.flags, 0, 0);
            assert(s.len() == 6);
            assert(s.subrange(2, 4) =~= spec_u16_to_le_bytes(c.refresh_hint));
            assert(s.subrange(4, 6) =~= spec_u16_to_le_bytes(c.flags));
            lemma_le16(s, 2, c.refresh_hint);
            lemma_le16(s, 4, c.flags);
        },
        MessageView::DisplayInfo(d) => lemma_decode_display_info(d),
        MessageView::Frame(f) => lemma_decode_frame(f),
        MessageView::DamageRegion(d) => lemma_decode_damage_region(d),
        MessageView::Ping(p) => {
            reveal_with_fuel(first_short_from, 2);
            lemma_le_lens(0, 0, p.client_ts_ns);
            assert(s.subrange(0, 8) =~= s);
            lemma_le64(s, 0, p.client_ts_ns);
        },
        MessageView::Pong(p) => {
            reveal_with_fuel(first_short_from, 3);
            lemma_two_u64(s, p.echoed_client_ts_ns, p.host_ts_ns);
        },
        MessageView::Disconnect(d) => lemma_decode_disconnect(d),
        MessageView::Reconnect(r) => {
            reveal_with_fuel(first_short_from, 3);
            lemma_two_u64(s, r.session_id, r.last_frame_id);
        },
        MessageView::FrameAck(a) => {
            reveal_with_fuel(first_short_from, 3);
            lemma_two_u64(s, a.frame_id, a.client_ts_ns);
        },
    }
}

/// A header's 16 bytes, whatever follows them, read back as the header when
/// its magic and version are those of this protocol.
pub proof fn lemma_header_roundtrip(h: Header, rest: Seq<u8>)
    requires
        h.magic == MAGIC,
        h.version <= VERSION,
    ensures
        spec_header_from_bytes(spec_header_bytes(h) + rest) == Ok::<Header, Error>(h),
{
    let s = spec_header_bytes(h) + rest;
    lemma_le_lens(h.version, h.magic, 0);
    lemma_le_lens(h.msg_type, h.length, 0);
    lemma_le_lens(0, h.flags, 0);
    assert(s.subrange(0, 4) =~= spec_u32_to_le_bytes(h.magic));
    assert(s.subrange(4, 6) =~= spec_u16_to_le_bytes(h.version));
    assert(s.subrange(6, 8) =~= spec_u16_to_le_bytes(h.msg_type));
    assert(s.subrange(8, 12) =~= spec_u32_to_le_bytes(h.length));
    assert(s.subrange(12, 16) =~= spec_u32_to_le_bytes(h.flags));
    lemma_le32(s, 0, h.magic);
    lemma_le16(s, 4, h.version);
    lemma_le16(s, 6, h.msg_type);
    lemma_le32(s, 8, h.length);
    lemma_le32(s, 12, h.flags);
}

/// Framed messages written one after another are read back one by one: at
/// the position where a well-formed message was written, a reader gets
/// exactly that message and stops right after it, whatever precedes or
/// follows it.
pub proof fn lemma_stream_roundtrip(pre: Seq<u8>, m: MessageView, post: Seq<u8>)
    requires
        sendable(m),
    ensures
        spec_read(pre + spec_wire(m) + post, pre.len() as int) == (
            Ok::<Option<MessageView>, StreamError>(Some(m)),
            (pre.len() + spec_wire(m).len()) as int,
        ),
{
    let w = spec_wire(m);
    let data = pre + w + post;
    let p = pre.len() as int;
    let payload = spec_payload(m);
    let h = spec_frame_header(m);
    lemma_header_roundtrip(h, payload + post);
    lemma_le_lens(0, h.magic, 0);
    lemma_le_lens(h.version, 0, 0);
    lemma_le_lens(h.msg_type, h.length, 0);
    lemma_le_lens(0, h.flags, 0);
    assert(spec_header_bytes(h).len() == 16);
    let rest = data.subrange(p, data.len() as int);
    assert(rest =~= spec_header_bytes(h) + (payload + post));
    assert(h.length == payload.len());
    assert(data.subrange(p + 16, p + 16 + payload.len()) =~= payload);
    lemma_payload_roundtrip(m);
}

/// The wire bytes of messages written one after another, in order.
pub open spec fn spec_wires(ms: Seq<MessageView>) -> Seq<u8>
    decreases ms.len(),
{
    if ms.len() == 0 {
        Seq::empty()
    } else {
        spec_wires(ms.drop_last()) + spec_wire(ms.last())
    }
}

/// Writing two lists of messages back to back writes the first list's
/// bytes, then the second's.
proof fn lemma_wires_concat(a: Seq<MessageView>, b: Seq<MessageView>)
    ensures
        spec_wires(a + b) == spec_wires(a) + spec_wires(b),
    decreases b.len(),
{
    if b.len() == 0 {
        assert(a + b =~= a);
        assert(spec_wires(a) + spec_wires(b) =~= spec_wires(a));
    } else {
        assert((a + b).drop_last() =~= a + b.drop_last());
        assert((a + b).last() == b.last());
        lemma_wires_concat(a, b.drop_last());
        assert(spec_wires(a + b) =~= spec_wires(a) + spec_wires(b));
    }
}

/// Message `i` of a list sits between the bytes of the messages before it
/// and those of the messages after it.
proof fn lemma_wires_split(ms: Seq<MessageView>, i: int)
    requires
        0 <= i < ms.len(),
    ensures
        spec_wires(ms) == spec_wires(ms.take(i)) + spec_wire(ms[i]) + spec_wires(ms.skip(i + 1)),
        spec_wires(ms.take(i + 1)) == spec_wires(ms.take(i)) + spec_wire(ms[i]),
{
    let one = seq![ms[i]];
    assert(one.drop_last() =~= Seq::<MessageView>::empty());
    assert(spec_wires(one.drop_last()) =~= Seq::<u8>::empty());
    assert(one.last() == ms[i]);
    assert(spec_wires(one) =~= spec_wire(ms[i]));
    assert(ms =~= (ms.take(i) + one) + ms.skip(i + 1));
    lemma_wires_concat(ms.take(i) + one, ms.skip(i + 1));
    lemma_wires_concat(ms.take(i), one);
    assert(ms.take(i + 1) =~= ms.take(i) + one);
}

/// A list of messages written back to back, after any bytes `pre` and
/// before any bytes `post`, is read back in order: the read at the start of
/// message `i` gives message `i` and stops at the start of message `i + 1`;
/// once all are read and nothing follows, the stream ends cleanly.
pub proof fn lemma_stream_roundtrip_all(pre: Seq<u8>, ms: Seq<MessageView>, post: Seq<u8>)
    requires
        forall|i: int| 0 <= i < ms.len() ==> sendable(#[trigger] ms[i]),
    ensures
        forall|i: int|
            #![trigger ms[i]]
            0 <= i < ms.len() ==> spec_read(
                pre + spec_wires(ms) + post,
                (pre.len() + spec_wires(ms.take(i)).len()) as int,
            ) == (
                Ok::<Option<MessageView>, StreamError>(Some(ms[i])),
                (pre.len() + spec_wires(ms.take(i + 1)).len()) as int,
            ),
        spec_read(pre + spec_wires(ms), (pre.len() + spec_wires(ms).len()) as int) == (
            Ok::<Option<MessageView>, StreamError>(None),
            (pre.len() + spec_wires(ms).len()) as int,
        ),
{
    assert forall|i: int| #![trigger ms[i]] 0 <= i < ms.len() implies spec_read(
        pre + spec_wires(ms) + post,
        (pre.len() + spec_wires(ms.take(i)).len()) as int,
    ) == (
        Ok::<Option<MessageView>, StreamError>(Some(ms[i])),
        (pre.len() + spec_wires(ms.take(i + 1)).len()) as int,
    ) by {
        lemma_wires_split(ms, i);
        let a = pre + spec_wires(ms.take(i));
        let z = spec_wires(ms.skip(i + 1)) + post;
        assert(pre + spec_wires(ms) + post =~= a + spec_wire(ms[i]) + z);
        lemma_stream_roundtrip(a, ms[i], z);
    }
    let d = pre + spec_wires(ms);
    assert(d.subrange(d.len() as int, d.len() as int).len() == 0);
}

/// A DISCONNECT whose text fits its length prefix is sendable.
proof fn lemma_disconnect_sendable(d: DisconnectView)
    requires
        str_fits(d.message),
    ensures
        sendable(MessageView::Disconnect(d)),
{
    lemma_le_lens(d.reason, 0, 0);
}

/// A text of at most `n` characters, `4 n <= 255`, fits a length prefix.
proof fn lemma_short_text_fits(s: Seq<char>, n: int)
    requires
        s.len() <= n,
        4 * n <= 255,
    ensures
        str_fits(s),
{
    crate::text::lemma_utf8_len_bound(s);
}

/// The three messages that open a session are sendable, so they reach the
/// client exactly as sent.
pub proof fn lemma_session_start_sendable(
    width: u16,
    height: u16,
    fps: u32,
    frame_ack: bool,
    source: Seq<char>,
    session_id: u64,
    client_caps: u32,
)
    ensures
        forall|k: int|
            0 <= k < 3 ==> sendable(
                #[trigger] spec_session_start(width, height, fps, frame_ack, source, session_id, client_caps)[k],
            ),
{
    let ms = spec_session_start(width, height, fps, frame_ack, source, session_id, client_caps);
    reveal_strlit("USBra Display");
    reveal_strlit("USBra Test Pattern");
    let name = display_name(source);
    lemma_short_text_fits(name, 18);
    lemma_le_lens(width, session_id as u32, session_id);
    lemma_le_lens(height, 0, 0);
    lemma_le_lens(fps as u16, 0, 0);
    lemma_le_lens(MAX_RECTS, 0, 0);
    lemma_le_lens(VERSION, 0, 0);
    lemma_le_lens(0, crate::session::negotiated(client_caps), 0);
    lemma_le_lens(if frame_ack { crate::message::Config::FLAG_FRAME_ACK } else { 0 }, 0, 0);
    assert(sendable(ms[0]));
    assert(sendable(ms[1]));
    assert(sendable(ms[2]));
}

/// Every refusal of a connection's opening message is sendable.
pub proof fn lemma_refusals_sendable(first: Option<MessageView>, table: Map<u64, u64>, fresh_id: u64)
    ensures
        spec_opening(first, table, fresh_id).0 matches Some(d) ==> sendable(
            MessageView::Disconnect(d),
        ),
{
    if let Some(d) = spec_opening(first, table, fresh_id).0 {
        reveal_strlit("host speaks v");
        reveal_strlit(", client announced v");
        reveal_strlit("unknown session; send a fresh HELLO");
        reveal_strlit("expected HELLO or RECONNECT, got ");
        lemma_names_short();
        match first {
            Some(MessageView::Hello(h)) => {
                crate::text::lemma_decimal_len_u16(VERSION as nat);
                crate::text::lemma_decimal_len_u16(h.proto_version as nat);
                lemma_short_text_fits(d.message, 43);
            },
            Some(MessageView::Reconnect(_)) => lemma_short_text_fits(d.message, 35),
            Some(other) => {
                let t = Message::spec_msg_type(other);
                assert(crate::msg::spec_name(t).len() <= 13);
                lemma_short_text_fits(d.message, 46);
            },
            None => {},
        }
        lemma_disconnect_sendable(d);
    }
}

/// Every DISCONNECT the host answers a client message with is sendable.
pub proof fn lemma_replies_sendable(m: MessageView, frames: Seq<(u64, u64)>, now_ns: u64)
    ensures
        spec_reply(m, frames, now_ns).2 matches Some(d) ==> sendable(MessageView::Disconnect(d)),
{
    if let Some(d) = spec_reply(m, frames, now_ns).2 {
        reveal_strlit("bye");
        reveal_strlit("unexpected ");
        lemma_names_short();
        assert(crate::msg::spec_name(Message::spec_msg_type(m)).len() <= 13);
        lemma_short_text_fits(d.message, 24);
        lemma_disconnect_sendable(d);
    }
}

/// Message type names have at most 13 characters.
proof fn lemma_names_short()
    ensures
        forall|t: u16| #[trigger] crate::msg::spec_name(t).len() <= 13,
{
    reveal_strlit("HELLO");
    reveal_strlit("HELLO_OK");
    reveal_strlit("CONFIG");
    reveal_strlit("DISPLAY_INFO");
    reveal_strlit("FRAME");
    reveal_strlit("DAMAGE_REGION");
    reveal_strlit("PING");
    reveal_strlit("PONG");
    reveal_strlit("DISCONNECT");
    reveal_strlit("RECONNECT");
    reveal_strlit("FRAME_ACK");
    reveal_strlit("UNKNOWN");
}

/// The RAW byte ranges of a frame's rects tile its payload in rect order:
/// the first starts at 0, each spans its rect's bytes and starts where the
/// one before ends, and the last ends at the payload length the rects call
/// for.
pub proof fn lemma_rect_ranges_tile(f: Frame, i: int)
    requires
        f.codec == codec::RAW,
        rects_byte_len(f.rects@) <= usize::MAX,
        0 <= i < f.rects@.len(),
    ensures
        f.spec_rect_byte_range(i) is Some,
        f.spec_rect_byte_range(i).unwrap().1 - f.spec_rect_byte_range(i).unwrap().0
            == f.rects@[i].spec_byte_len(),
        i == 0 ==> f.spec_rect_byte_range(i).unwrap().0 == 0,
        i + 1 < f.rects@.len() ==> f.spec_rect_byte_range(i + 1).unwrap().0
            == f.spec_rect_byte_range(i).unwrap().1,
        i + 1 == f.rects@.len() ==> f.spec_rect_byte_range(i).unwrap().1 == rects_byte_len(f.rects@),
{
    let rs = f.rects@;
    crate::message::lemma_rects_byte_len_prefix(rs, i, i + 1);
    crate::message::lemma_rects_byte_len_prefix(rs, i + 1, rs.len() as int);
    assert(rs.take(i + 1).drop_last() =~= rs.take(i));
    assert(rs.take(i + 1).last() == rs[i]);
    assert(rs.take(rs.len() as int) =~= rs);
    if i == 0 {
        assert(rs.take(0) =~= Seq::<Rect>::empty());
    }
    if i + 1 < rs.len() {
        crate::message::lemma_rects_byte_len_prefix(rs, i + 2, rs.len() as int);
        assert(rs.take(i + 2).drop_last() =~= rs.take(i + 1));
    }
}

/// A string read off the wire fits a length prefix.
proof fn lemma_str_at_fits(s: Seq<u8>, off: int)
    requires
        0 <= off < s.len(),
        str_at(s, off) is Ok,
    ensures
        str_fits(str_at(s, off).unwrap().0),
{
    let b = s.subrange(off + 1, off + 1 + s[off] as int);
    decode_utf8_encode_utf8(b);
}

/// Decoding accepts only well-formed messages, of the type it was asked
/// for; so whatever a reader accepts, a writer can send again and it reads
/// back the same.
pub proof fn lemma_decoded_well_formed(t: u16, s: Seq<u8>)
    requires
        spec_decode(t, s) is Ok,
    ensures
        well_formed(spec_decode(t, s).unwrap()),
        Message::spec_msg_type(spec_decode(t, s).unwrap()) == t,
        spec_decode(t, spec_payload(spec_decode(t, s).unwrap())) == spec_decode(t, s),
{
    reveal_with_fuel(first_short_from, 7);
    let m = spec_decode(t, s).unwrap();
    if t == crate::msg::HELLO {
        lemma_str_at_fits(s, 12);
    } else if t == crate::msg::DISPLAY_INFO {
        lemma_str_at_fits(s, 8);
    } else if t == crate::msg::DISCONNECT {
        lemma_str_at_fits(s, 2);
    }
    lemma_payload_roundtrip(m);
}

/// A reader positioned at the end of the stream finds it cleanly closed.
pub proof fn lemma_stream_clean_end(data: Seq<u8>)
    ensures
        spec_read(data, data.len() as int) == (
            Ok::<Option<MessageView>, StreamError>(None),
            data.len() as int,
        ),
{
    assert(data.subrange(data.len() as int, data.len() as int).len() == 0);
}

} // verus!
