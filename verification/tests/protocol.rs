use usbra::codec;
use usbra::error::Error;
use usbra::header::Header;
use usbra::message::{
    Config, DamageRegion, Disconnect, DisplayInfo, Frame, FrameAck, Hello, HelloOk, Message, Ping,
    Pong, Reconnect,
};
use usbra::msg;
use usbra::pixel_format;
use usbra::rect::Rect;
use usbra::stream::{read_message, write_message, ByteStream, StreamError};
use usbra::{caps, clock, reason};
use usbra::{HEADER_LEN, MAGIC, MAX_RECTS, VERSION};

fn roundtrip(m: Message) {
    let wire = m.to_bytes();
    let h = Header::from_bytes(&wire[..HEADER_LEN]).unwrap();
    assert_eq!(h.magic, MAGIC);
    assert_eq!(h.version, VERSION);
    assert_eq!(h.msg_type, m.msg_type());
    assert_eq!(h.length as usize + HEADER_LEN, wire.len());
    let back = Message::decode(h.msg_type, &wire[HEADER_LEN..]).unwrap();
    assert_eq!(back, m, "roundtrip mismatch for {}", m.msg_type_name());
}

fn sample_frame() -> Frame {
    Frame {
        frame_id: 42,
        timestamp_ns: 1_700_000_000_000_000_000,
        codec: codec::RAW,
        pixel_format: pixel_format::BGRX,
        rects: vec![
            Rect::new(0, 0, 1600, 900),
            Rect::new(10, 20, 30, 40),
            Rect::new(100, 200, 300, 400),
        ],
        payload: vec![7u8; (1600 * 900 + 30 * 40 + 300 * 400) * 4],
    }
}

#[test]
fn header_roundtrip() {
    let h = Header::new(msg::FRAME, 12345);
    assert_eq!(Header::from_bytes(&h.to_bytes()).unwrap(), h);
    let b = h.to_bytes();
    assert_eq!(&b[0..4], &[0x55, 0x53, 0x42, 0x52]); // "USBR" on the wire
}

#[test]
fn header_rejects_bad_magic() {
    let mut b = Header::new(msg::FRAME, 0).to_bytes();
    b[0] = 0x00; // magic bytes become 00 53 42 52
    assert_eq!(Header::from_bytes(&b), Err(Error::BadMagic(0x5242_5300)));
}

#[test]
fn header_rejects_newer_version() {
    let mut b = Header::new(msg::FRAME, 0).to_bytes();
    b[4] = 0x02;
    assert!(matches!(Header::from_bytes(&b), Err(Error::UnsupportedVersion(2))));
}

#[test]
fn all_messages_roundtrip() {
    roundtrip(Message::Hello(Hello {
        proto_version: VERSION,
        capabilities: caps::RAW | caps::ZSTD,
        screen_w: 1080,
        screen_h: 2340,
        refresh_hint: 60,
        name: "Pixel 8a".into(),
    }));
    roundtrip(Message::HelloOk(HelloOk {
        proto_version: VERSION,
        capabilities: caps::RAW,
        session_id: 0xDEAD_BEEF_CAFE,
        max_rects: MAX_RECTS,
    }));
    roundtrip(Message::Config(Config {
        codec: codec::RAW,
        pixel_format: pixel_format::BGRX,
        refresh_hint: 60,
        flags: Config::FLAG_FRAME_ACK,
    }));
    roundtrip(Message::DisplayInfo(DisplayInfo {
        width: 1600,
        height: 900,
        refresh: 60,
        pixel_format: pixel_format::BGRX,
        flags: DisplayInfo::FLAG_CURSOR_EMBEDDED,
        name: "USBra Test Pattern".into(),
    }));
    roundtrip(Message::Frame(sample_frame()));
    roundtrip(Message::DamageRegion(DamageRegion {
        frame_id: 43,
        timestamp_ns: 7,
        rects: vec![Rect::new(1, 2, 3, 4)],
    }));
    roundtrip(Message::Ping(Ping { client_ts_ns: 1234567890 }));
    roundtrip(Message::Pong(Pong { echoed_client_ts_ns: 1234567890, host_ts_ns: 987654321 }));
    roundtrip(Message::Disconnect(Disconnect {
        reason: reason::UNKNOWN_SESSION,
        message: "unknown session".into(),
    }));
    roundtrip(Message::Reconnect(Reconnect { session_id: 99, last_frame_id: 41 }));
    roundtrip(Message::FrameAck(FrameAck { frame_id: 42, client_ts_ns: 555 }));
}

#[test]
fn frame_rect_ranges_match_tight_packing() {
    let f = sample_frame();
    // rect 0: full 1600x900
    let (s0, e0) = f.rect_byte_range(0).unwrap();
    assert_eq!(e0 - s0, 1600 * 900 * 4);
    // rect 1 starts right after rect 0
    let (s1, e1) = f.rect_byte_range(1).unwrap();
    assert_eq!(s1, e0);
    assert_eq!(e1 - s1, 30 * 40 * 4);
    // rect 2 after rect 1
    let (s2, e2) = f.rect_byte_range(2).unwrap();
    assert_eq!(s2, e1);
    assert_eq!(e2, f.payload.len());
    // raw payload length matches
    assert_eq!(f.raw_payload_len() as usize, f.payload.len());
    // full-frame predicate: 3 rects, so not a single full rect
    assert!(!f.covers(1600, 900));
    let full = Frame {
        frame_id: 1,
        timestamp_ns: 2,
        codec: codec::RAW,
        pixel_format: pixel_format::BGRX,
        rects: vec![Rect::new(0, 0, 1600, 900)],
        payload: vec![0; 1600 * 900 * 4],
    };
    assert!(full.covers(1600, 900));
}

#[test]
fn truncated_frame_payload_errors() {
    let mut f = sample_frame();
    f.payload.truncate(10); // drop pixel bytes
    let wire = Message::Frame(f).to_bytes();
    let err = Message::decode(msg::FRAME, &wire[HEADER_LEN..]).unwrap_err();
    // RAW packing check: rects promise 6,244,800 bytes, payload has 10.
    assert_eq!(
        err,
        Error::Truncated {
            need: (1600 * 900 + 30 * 40 + 300 * 400) * 4,
            have: 10
        }
    );
}

#[test]
fn truncated_header_section_errors() {
    let f = Message::Ping(Ping { client_ts_ns: 1 }).to_bytes();
    let err = Message::decode(msg::PING, &f[HEADER_LEN..HEADER_LEN + 4]).unwrap_err();
    assert_eq!(err, Error::Truncated { need: 8, have: 4 });
}

#[test]
fn trailing_bytes_rejected() {
    let mut wire = Message::Config(Config {
        codec: 0,
        pixel_format: 0,
        refresh_hint: 60,
        flags: 0,
    })
    .to_bytes();
    wire.push(0xFF); // one byte too many
    assert_eq!(
        Message::decode(msg::CONFIG, &wire[HEADER_LEN..]),
        Err(Error::Trailing(1))
    );
}

#[test]
fn unknown_type_rejected() {
    assert_eq!(
        Message::decode(999, &[]),
        Err(Error::UnknownMessageType(999))
    );
}

#[test]
fn bad_codec_and_format_rejected() {
    let wire = Message::Config(Config { codec: 9, pixel_format: 0, refresh_hint: 0, flags: 0 })
        .to_bytes();
    assert_eq!(Message::decode(msg::CONFIG, &wire[HEADER_LEN..]), Err(Error::BadCodec(9)));
    let wire = Message::Config(Config { codec: 0, pixel_format: 9, refresh_hint: 0, flags: 0 })
        .to_bytes();
    assert_eq!(
        Message::decode(msg::CONFIG, &wire[HEADER_LEN..]),
        Err(Error::BadPixelFormat(9))
    );
}

#[test]
fn invalid_utf8_string_rejected() {
    let hello_payload = {
        let mut p = Vec::new();
        p.extend_from_slice(&1u16.to_le_bytes()); // proto_version
        p.extend_from_slice(&0u32.to_le_bytes()); // caps
        p.extend_from_slice(&0u16.to_le_bytes()); // screen_w
        p.extend_from_slice(&0u16.to_le_bytes()); // screen_h
        p.extend_from_slice(&0u16.to_le_bytes()); // refresh
        p.push(1); // name_len
        p.push(0xFF); // invalid UTF-8 byte
        p
    };
    assert_eq!(Message::decode(msg::HELLO, &hello_payload), Err(Error::BadString));
}

#[test]
fn stream_write_read_roundtrip() {
    let mut buf: Vec<u8> = Vec::new();
    let msgs = vec![
        Message::Hello(Hello {
            proto_version: VERSION,
            capabilities: caps::RAW,
            screen_w: 1080,
            screen_h: 2340,
            refresh_hint: 60,
            name: "test".into(),
        }),
        Message::Frame(sample_frame()),
        Message::Ping(Ping { client_ts_ns: 42 }),
    ];
    for m in &msgs {
        write_message(&mut buf, m);
    }
    let mut cur = ByteStream::new(buf);
    for m in &msgs {
        let back = read_message(&mut cur).unwrap().unwrap();
        assert_eq!(back, *m);
    }
    // clean EOF → None
    assert!(read_message(&mut cur).unwrap().is_none());
}

#[test]
fn read_rejects_mid_stream_garbage() {
    let mut buf: Vec<u8> = vec![0u8; HEADER_LEN];
    buf[0..4].copy_from_slice(&MAGIC.to_le_bytes()); // valid magic
    buf[8..12].copy_from_slice(&1_000_000_000u32.to_le_bytes()); // absurd length
    let mut cur = ByteStream::new(buf);
    let err = read_message(&mut cur).unwrap_err();
    assert!(matches!(err, StreamError::InvalidData(_)));
}

#[test]
fn rect_intersect_works() {
    let a = Rect::new(0, 0, 100, 100);
    let b = Rect::new(50, 50, 100, 100);
    assert_eq!(a.intersect(&b), Some(Rect::new(50, 50, 50, 50)));
    let c = Rect::new(200, 200, 10, 10);
    assert_eq!(a.intersect(&c), None);
}

#[test]
fn now_ns_is_sane() {
    let a = clock::now_ns();
    let b = clock::now_ns();
    assert!(b >= a);
    assert!(a > 1_600_000_000_000_000_000); // after Sep 2020
}

#[test]
fn oversize_string_is_programmer_error() {
    let m = Hello {
        proto_version: VERSION,
        capabilities: 0,
        screen_w: 0,
        screen_h: 0,
        refresh_hint: 0,
        name: "x".repeat(256),
    };
    assert!(Message::Hello(m.clone()).encode().is_none());
    assert!(!Message::Hello(m).strings_fit());
    let ok = Hello {
        proto_version: VERSION,
        capabilities: 0,
        screen_w: 0,
        screen_h: 0,
        refresh_hint: 0,
        name: "x".repeat(255),
    };
    let wire = Message::Hello(ok.clone()).encode().unwrap();
    assert_eq!(wire, Message::Hello(ok).to_bytes());
}

#[test]
fn decoded_messages_reencode_and_read_back_the_same() {
    // HELLO_OK with a nonzero reserved field: accepted, and re-encoded with
    // the field zeroed it still decodes to the same message.
    let mut p = Vec::new();
    p.extend_from_slice(&1u16.to_le_bytes());
    p.extend_from_slice(&caps::RAW.to_le_bytes());
    p.extend_from_slice(&77u64.to_le_bytes());
    p.extend_from_slice(&MAX_RECTS.to_le_bytes());
    p.extend_from_slice(&7u16.to_le_bytes());
    let m = Message::decode(msg::HELLO_OK, &p).unwrap();
    let wire = m.to_bytes();
    assert_eq!(&wire[HEADER_LEN + 16..], &[0, 0]);
    assert_eq!(Message::decode(msg::HELLO_OK, &wire[HEADER_LEN..]).unwrap(), m);

    // a FRAME read off the wire is sendable again, byte for byte
    let f = sample_frame();
    let wire = Message::Frame(f).to_bytes();
    let back = Message::decode(msg::FRAME, &wire[HEADER_LEN..]).unwrap();
    assert_eq!(back.encode().unwrap(), wire);
}

fn damage_payload(count: u16, rects: usize) -> Vec<u8> {
    let mut p = Vec::new();
    p.extend_from_slice(&1u64.to_le_bytes());
    p.extend_from_slice(&2u64.to_le_bytes());
    p.extend_from_slice(&count.to_le_bytes());
    p.extend_from_slice(&[0, 0]);
    for _ in 0..rects {
        p.extend_from_slice(&[0, 0, 0, 0, 1, 0, 1, 0]);
    }
    p
}

#[test]
fn readers_accept_up_to_the_wire_rect_limit() {
    // 64 is only what senders merge down to; a reader takes up to 255
    let p = damage_payload(65, 65);
    assert_eq!(p.len(), 540);
    let expected = Message::DamageRegion(DamageRegion {
        frame_id: 1,
        timestamp_ns: 2,
        rects: vec![Rect::new(0, 0, 1, 1); 65],
    });
    assert_eq!(Message::decode(msg::DAMAGE_REGION, &p).unwrap(), expected);
    let p = damage_payload(255, 255);
    match Message::decode(msg::DAMAGE_REGION, &p).unwrap() {
        Message::DamageRegion(d) => assert_eq!(d.rects.len(), 255),
        m => panic!("unexpected {m:?}"),
    }
    let p = damage_payload(256, 256);
    assert_eq!(
        Message::decode(msg::DAMAGE_REGION, &p),
        Err(Error::Truncated { need: 2048, have: 2048 })
    );
}

#[test]
fn payload_over_the_limit_is_not_encoded() {
    let mut f = sample_frame();
    f.rects = vec![Rect::new(0, 0, 4097, 4096)];
    f.payload = vec![0u8; 4097 * 4096 * 4];
    assert!(Message::Frame(f).encode().is_none());
    let mut f = sample_frame();
    f.rects = vec![Rect::new(0, 0, 16, 16)];
    f.payload = vec![0u8; 16 * 16 * 4];
    assert!(Message::Frame(f).encode().is_some());
}

#[test]
fn nanos_since_epoch_truncates_and_defaults() {
    assert_eq!(clock::nanos_since_epoch(None), 0);
    assert_eq!(clock::nanos_since_epoch(Some(1_700_000_000_000_000_000)), 1_700_000_000_000_000_000);
    assert_eq!(clock::nanos_since_epoch(Some((1u128 << 64) + 5)), 5);
}

#[test]
fn messages_read_back_in_order_each_taking_its_bytes() {
    let msgs = vec![
        Message::Ping(Ping { client_ts_ns: 1 }),
        Message::Frame(sample_frame()),
        Message::Disconnect(Disconnect { reason: reason::SHUTDOWN, message: "bye".into() }),
        Message::Ping(Ping { client_ts_ns: 2 }),
    ];
    let mut buf: Vec<u8> = vec![9, 9, 9];
    for m in &msgs {
        write_message(&mut buf, m);
    }
    let mut cur = ByteStream::new(buf[3..].to_vec());
    let mut pos = 0usize;
    for m in &msgs {
        assert_eq!(cur.position(), pos);
        assert_eq!(read_message(&mut cur).unwrap().as_ref(), Some(m));
        pos += m.to_bytes().len();
        assert_eq!(cur.position(), pos);
    }
    assert!(read_message(&mut cur).unwrap().is_none());
    assert_eq!(cur.position(), pos);
}
