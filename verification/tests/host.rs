use usbra::args::{parse, Mode, USAGE};
use usbra::events::{opening_event, reply_event, session_end_event, Event};
use usbra::gnome::source::{
    blank_frame, parse_ubf1_header, ubf1_frame, GrabAction, GrabError, GrabEvent, GrabState,
    Ubf1Header, UBF1_MAGIC,
};
use usbra::gnome::{cursor, record_virtual_props, SessionConfig, StreamProp};
use usbra::message::{Disconnect, Frame, FrameAck, Hello, Message, Ping, Reconnect};
use usbra::rect::Rect;
use usbra::session::{
    frame_period_ns, on_client_message, on_read_error, open_session, pace, session_frame,
    session_id_from,
    session_start,
    source_kind, Opening, Reply, ServeConfig, SessionTable, SourceKind,
};
use usbra::stats::{event_line, frame_fields, json_str, FrameCounters, FrameTotals, WindowSummary};
use usbra::error::Error;
use usbra::stream::StreamError;
use usbra::text::{same_text, starts_with, u64_to_decimal};
use usbra::{caps, codec, pixel_format, reason, VERSION};

fn argv(xs: &[&str]) -> Vec<String> {
    xs.iter().map(|s| s.to_string()).collect()
}

fn serve_config(source: &str, bind: &str) -> ServeConfig {
    ServeConfig {
        bind: bind.to_string(),
        port: 0,
        width: 640,
        height: 360,
        fps: 60,
        full_every_secs: 0,
        stats_path: None,
        frame_ack: true,
        source: source.to_string(),
    }
}

fn hello(v: u16) -> Message {
    Message::Hello(Hello {
        proto_version: v,
        capabilities: caps::RAW,
        screen_w: 1080,
        screen_h: 2340,
        refresh_hint: 60,
        name: "phone".to_string(),
    })
}

// ---- command line ----

#[test]
fn parse_defaults() {
    let a = parse(&argv(&[])).unwrap();
    assert_eq!(a.mode, Mode::Serve);
    assert_eq!(a.source, "test");
    assert_eq!(a.bind, "127.0.0.1");
    assert_eq!((a.port, a.width, a.height, a.fps), (8899, 1600, 900, 60));
    assert_eq!(a.full_every_secs, 2);
    assert_eq!(a.stats, None);
    assert!(!a.frame_ack);
    assert_eq!(a.frames, 600);
}

#[test]
fn parse_all_options() {
    let a = parse(&argv(&[
        "--selftest", "--frame-ack", "--bind", "0.0.0.0", "--port", "0", "--width", "800",
        "--height", "480", "--fps", "30", "--full-frame-every", "0", "--stats", "/tmp/s.jsonl",
        "--frames", "0",
    ]))
    .unwrap();
    assert_eq!(a.mode, Mode::SelfTest);
    assert!(a.frame_ack);
    assert_eq!(a.bind, "0.0.0.0");
    assert_eq!((a.port, a.width, a.height, a.fps), (0, 800, 480, 30));
    assert_eq!(a.full_every_secs, 0);
    assert_eq!(a.stats.as_deref(), Some("/tmp/s.jsonl"));
    assert_eq!(a.frames, 1, "0 frames is raised to 1");
}

#[test]
fn parse_help_is_empty_error() {
    assert_eq!(parse(&argv(&["--port", "1", "-h"])).unwrap_err(), "");
    assert_eq!(parse(&argv(&["--help"])).unwrap_err(), "");
    assert!(USAGE.contains("--full-frame-every"));
}

#[test]
fn parse_errors() {
    assert_eq!(parse(&argv(&["--port"])).unwrap_err(), "--port requires a value");
    assert_eq!(parse(&argv(&["--bogus"])).unwrap_err(), "unknown argument: --bogus");
    assert_eq!(
        parse(&argv(&["--port", "70000"])).unwrap_err(),
        "--port: invalid value \"70000\""
    );
    assert_eq!(
        parse(&argv(&["--fps", "x1"])).unwrap_err(),
        "--fps: invalid value \"x1\""
    );
    assert_eq!(
        parse(&argv(&["--width", "0"])).unwrap_err(),
        "width/height must be within 1..=8192"
    );
    assert_eq!(
        parse(&argv(&["--height", "8193"])).unwrap_err(),
        "width/height must be within 1..=8192"
    );
    assert_eq!(parse(&argv(&["--fps", "241"])).unwrap_err(), "fps must be within 1..=240");
    assert_eq!(
        parse(&argv(&["--source", "evdi"])).unwrap_err(),
        "source 'evdi' is not available yet \u{2014} the gnome/evdi backends land in M6; use --source test"
    );
}

#[test]
fn parse_gnome_quickstart() {
    let a = parse(&argv(&["--source", "gnome", "--frame-ack", "--stats", "/tmp/usbra.jsonl"])).unwrap();
    let d = parse(&argv(&[])).unwrap();
    assert_eq!(a.source, "gnome");
    assert!(a.frame_ack);
    assert_eq!(a.stats.as_deref(), Some("/tmp/usbra.jsonl"));
    assert_eq!((a.bind.as_str(), a.port), (d.bind.as_str(), d.port));
    assert_eq!((a.width, a.height, a.fps, a.full_every_secs), (d.width, d.height, d.fps, d.full_every_secs));
}

// ---- sessions ----

#[test]
fn hello_opens_new_session() {
    let t = SessionTable::new();
    match open_session(Some(hello(VERSION)), &t, 77) {
        Opening::Serve { session_id, resumed } => {
            assert_eq!(session_id, 77);
            assert!(!resumed);
        }
        o => panic!("unexpected {o:?}"),
    }
}

#[test]
fn wrong_version_is_refused() {
    let t = SessionTable::new();
    match open_session(Some(hello(9)), &t, 77) {
        Opening::Refuse(d) => {
            assert_eq!(d.reason, reason::PROTOCOL);
            assert_eq!(d.message, "host speaks v1, client announced v9");
        }
        o => panic!("unexpected {o:?}"),
    }
}

#[test]
fn reconnect_needs_known_session() {
    let mut t = SessionTable::new();
    let r = Message::Reconnect(Reconnect { session_id: 5, last_frame_id: 3 });
    match open_session(Some(r.clone()), &t, 77) {
        Opening::Refuse(d) => {
            assert_eq!(d.reason, reason::UNKNOWN_SESSION);
            assert_eq!(d.message, "unknown session; send a fresh HELLO");
        }
        o => panic!("unexpected {o:?}"),
    }
    t.note_session(5);
    assert!(t.has_session(5));
    match open_session(Some(r), &t, 77) {
        Opening::Serve { session_id, resumed } => assert_eq!((session_id, resumed), (5, true)),
        o => panic!("unexpected {o:?}"),
    }
}

#[test]
fn other_first_message_is_a_violation() {
    let t = SessionTable::new();
    match open_session(Some(Message::Ping(Ping { client_ts_ns: 1 })), &t, 77) {
        Opening::Refuse(d) => {
            assert_eq!(d.reason, reason::PROTOCOL);
            assert_eq!(d.message, "expected HELLO or RECONNECT, got PING");
        }
        o => panic!("unexpected {o:?}"),
    }
    assert!(matches!(open_session(None, &t, 77), Opening::Closed));
}

#[test]
fn session_start_messages() {
    let ms = session_start(&serve_config("test", "127.0.0.1"), 9, caps::RAW);
    assert_eq!(ms.len(), 3);
    match &ms[0] {
        Message::HelloOk(h) => {
            assert_eq!(h.session_id, 9);
            assert_eq!(h.proto_version, VERSION);
            assert_eq!(h.capabilities, caps::RAW);
        }
        m => panic!("unexpected {m:?}"),
    }
    match &ms[1] {
        Message::DisplayInfo(d) => {
            assert_eq!((d.width, d.height, d.refresh), (640, 360, 60));
            assert_eq!(d.name, "USBra Test Pattern");
        }
        m => panic!("unexpected {m:?}"),
    }
    match &ms[2] {
        Message::Config(c) => {
            assert_eq!(c.codec, codec::RAW);
            assert_eq!(c.flags, 1);
        }
        m => panic!("unexpected {m:?}"),
    }
    match &session_start(&serve_config("gnome", "127.0.0.1"), 9, caps::RAW)[1] {
        Message::DisplayInfo(d) => assert_eq!(d.name, "USBra Display"),
        m => panic!("unexpected {m:?}"),
    }
    // every opening message is sendable: it encodes and decodes back
    for m in &ms {
        let wire = m.to_bytes();
        assert_eq!(&Message::decode(m.msg_type(), &wire[16..]).unwrap(), m);
    }
}

#[test]
fn capabilities_are_negotiated() {
    let cfg = serve_config("test", "127.0.0.1");
    let hello_ok_caps = |client: u32| match &session_start(&cfg, 1, client)[0] {
        Message::HelloOk(h) => h.capabilities,
        m => panic!("unexpected {m:?}"),
    };
    assert_eq!(hello_ok_caps(caps::ZSTD), 0);
    assert_eq!(hello_ok_caps(caps::RAW), caps::RAW);
    assert_eq!(hello_ok_caps(caps::RAW | caps::ZSTD), caps::RAW);
    assert_eq!(hello_ok_caps(0), 0);
}

#[test]
fn resumed_session_keeps_caps_and_frame_ids() {
    let mut t = SessionTable::new();
    let mut h = hello(VERSION);
    if let Message::Hello(x) = &mut h {
        x.capabilities = caps::RAW | caps::ZSTD;
    }
    assert_eq!(t.last_frame_id(9), None);
    assert_eq!(t.accept(9, &h), caps::RAW | caps::ZSTD);
    assert_eq!(t.last_frame_id(9), Some(0));
    t.note_frame(9, 41, 1000);
    assert_eq!(t.last_frame_id(9), Some(41));
    let r = Message::Reconnect(Reconnect { session_id: 9, last_frame_id: 40 });
    assert_eq!(t.accept(9, &r), caps::RAW | caps::ZSTD);
    assert_eq!(t.last_frame_id(9), Some(41));
    // a session first seen through RECONNECT announced nothing
    assert_eq!(t.accept(10, &r), 0);
    // the resumed connection's first source frame continues after 41
    let f = Frame {
        frame_id: 1,
        timestamp_ns: 5,
        codec: codec::RAW,
        pixel_format: pixel_format::BGRX,
        rects: vec![Rect::new(0, 0, 1, 1)],
        payload: vec![0; 4],
    };
    let g = session_frame(f, 41);
    assert_eq!((g.frame_id, g.timestamp_ns, g.payload.len()), (42, 5, 4));
}

#[test]
fn frame_ack_latency_uses_latest_timestamp() {
    let mut t = SessionTable::new();
    t.note_frame(1, 10, 1_000_000);
    t.note_frame(1, 10, 2_000_000);
    assert_eq!(t.frame_ts(10), Some(2_000_000));
    assert_eq!(t.frame_ts(11), None);
    match on_client_message(&Message::FrameAck(FrameAck { frame_id: 10, client_ts_ns: 0 }), &t, 5_500_000) {
        Reply::Ack { frame_id, latency_us } => assert_eq!((frame_id, latency_us), (10, 3500)),
        r => panic!("unexpected {r:?}"),
    }
    match on_client_message(&Message::FrameAck(FrameAck { frame_id: 99, client_ts_ns: 0 }), &t, 5_500_000) {
        Reply::Ack { latency_us, .. } => assert_eq!(latency_us, 0),
        r => panic!("unexpected {r:?}"),
    }
    // a timestamp in the future saturates to zero
    match on_client_message(&Message::FrameAck(FrameAck { frame_id: 10, client_ts_ns: 0 }), &t, 1) {
        Reply::Ack { latency_us, .. } => assert_eq!(latency_us, 0),
        r => panic!("unexpected {r:?}"),
    }
}

#[test]
fn noted_frame_resumes_session() {
    let mut t = SessionTable::new();
    t.note_frame(42, 7, 100);
    let r = Message::Reconnect(Reconnect { session_id: 42, last_frame_id: 7 });
    assert!(matches!(open_session(Some(r), &t, 1), Opening::Serve { session_id: 42, resumed: true }));
}

#[test]
fn frame_window_forgets_old_frames() {
    let mut t = SessionTable::new();
    for i in 0..600u64 {
        t.note_frame(1, i, i * 10);
    }
    assert_eq!(t.frame_ts(0), None);
    assert_eq!(t.frame_ts(87), None);
    assert_eq!(t.frame_ts(88), Some(880));
    assert_eq!(t.frame_ts(599), Some(5990));
}

#[test]
fn ping_disconnect_and_violations() {
    let t = SessionTable::new();
    match on_client_message(&Message::Ping(Ping { client_ts_ns: 123 }), &t, 456) {
        Reply::Pong(p) => assert_eq!((p.echoed_client_ts_ns, p.host_ts_ns), (123, 456)),
        r => panic!("unexpected {r:?}"),
    }
    let bye = Message::Disconnect(Disconnect { reason: reason::SHUTDOWN, message: "x".into() });
    match on_client_message(&bye, &t, 0) {
        Reply::Close(d) => {
            assert_eq!(d.reason, reason::SHUTDOWN);
            assert_eq!(d.message, "bye");
        }
        r => panic!("unexpected {r:?}"),
    }
    match on_client_message(&hello(VERSION), &t, 0) {
        Reply::Close(d) => {
            assert_eq!(d.reason, reason::PROTOCOL);
            assert_eq!(d.message, "unexpected HELLO");
        }
        r => panic!("unexpected {r:?}"),
    }
}

#[test]
fn session_ids_are_nonzero() {
    assert_eq!(session_id_from(0, 0), 1);
    assert_eq!(session_id_from(5, 0), 5);
    assert_eq!(session_id_from(0, 1), 1u64 << 32);
    assert_eq!(session_id_from(0, 0x9E37_79B9_7F4A_7C15), 0x7F4A_7C15_9E37_79B9);
    assert_eq!(session_id_from(1u64 << 32, 1), 1);
}

#[test]
fn source_selection_and_loopback() {
    assert_eq!(source_kind("test"), Some(SourceKind::Test));
    assert_eq!(source_kind("gnome"), Some(SourceKind::Gnome));
    assert_eq!(source_kind("evdi"), None);
    assert!(serve_config("test", "127.0.0.1").loopback_only());
    assert!(serve_config("test", "localhost").loopback_only());
    assert!(!serve_config("test", "0.0.0.0").loopback_only());
}

#[test]
fn producer_cadence() {
    assert_eq!(frame_period_ns(60), 16_666_666);
    assert_eq!(frame_period_ns(0), 1_000_000_000);
    assert_eq!(frame_period_ns(1000), 4_166_666);
    // on time: sleep until the next deadline
    assert_eq!(pace(1_000, 1_500, 1_000), (2_000, 500));
    // fell behind: restart the cadence from now, no sleep
    assert_eq!(pace(1_000, 5_000, 1_000), (5_000, 0));
}

// ---- stats log ----

#[test]
fn json_str_escapes() {
    assert_eq!(json_str("plain"), "\"plain\"");
    assert_eq!(json_str("a\"b\\c"), "\"a\\\"b\\\\c\"");
    assert_eq!(json_str("\n\r\t"), "\"\\n\\r\\t\"");
    assert_eq!(json_str("\u{1}\u{1f}"), "\"\\u0001\\u001f\"");
    assert_eq!(json_str("é—"), "\"é—\"");
}

#[test]
fn event_lines() {
    assert_eq!(event_line(5, "conn_open", &[]), "{\"t_ms\":5,\"ev\":\"conn_open\"}");
    let fields = [("peer", "127.0.0.1:5000".to_string()), ("why", "a\"b".to_string())];
    assert_eq!(
        event_line(1234, "conn_end", &fields),
        "{\"t_ms\":1234,\"ev\":\"conn_end\",\"peer\":\"127.0.0.1:5000\",\"why\":\"a\\\"b\"}"
    );
    let f = frame_fields(3, 77, 2, 4096, 150, 20);
    assert_eq!(
        event_line(0, "frame", &f),
        "{\"t_ms\":0,\"ev\":\"frame\",\"id\":\"3\",\"ts_ns\":\"77\",\"rects\":\"2\",\"bytes\":\"4096\",\"gen_us\":\"150\",\"send_us\":\"20\"}"
    );
}

#[test]
fn text_helpers() {
    assert_eq!(u64_to_decimal(0), "0");
    assert_eq!(u64_to_decimal(18_446_744_073_709_551_615), "18446744073709551615");
    assert!(same_text("abc", "abc"));
    assert!(!same_text("abc", "abd"));
    assert_eq!(usbra::text::concat("ab", "cd"), "abcd");
    assert!(starts_with("127.0.0.1", "127."));
    assert!(!starts_with("12", "127."));
}

// ---- GNOME source ----

fn ubf1_bytes(magic: u32, id: u64, ts: u64, w: u16, h: u16, plen: u32) -> [u8; 32] {
    let mut b = [0u8; 32];
    b[0..4].copy_from_slice(&magic.to_le_bytes());
    b[4..12].copy_from_slice(&id.to_le_bytes());
    b[12..20].copy_from_slice(&ts.to_le_bytes());
    b[20..22].copy_from_slice(&w.to_le_bytes());
    b[22..24].copy_from_slice(&h.to_le_bytes());
    b[28..32].copy_from_slice(&plen.to_le_bytes());
    b
}

#[test]
fn ubf1_header_parses() {
    let h = parse_ubf1_header(&ubf1_bytes(UBF1_MAGIC, 7, 99, 4, 2, 32)).unwrap();
    assert_eq!(
        h,
        Ubf1Header { frame_id: 7, timestamp_ns: 99, width: 4, height: 2, payload_len: 32 }
    );
    assert_eq!(&ubf1_bytes(UBF1_MAGIC, 0, 0, 0, 0, 0)[0..4], b"UBF1");
    assert_eq!(
        parse_ubf1_header(&ubf1_bytes(0x1234_5678, 7, 99, 4, 2, 32)),
        Err(GrabError::BadMagic(0x1234_5678))
    );
    assert_eq!(
        parse_ubf1_header(&ubf1_bytes(UBF1_MAGIC, 7, 99, 4, 2, 64 * 1024 * 1024 + 1)),
        Err(GrabError::TooLarge)
    );
}

#[test]
fn ubf1_frame_is_one_full_rect() {
    let h = Ubf1Header { frame_id: 7, timestamp_ns: 99, width: 4, height: 2, payload_len: 32 };
    let f = ubf1_frame(h, vec![1u8; 32]).unwrap();
    assert_eq!(f.frame_id, 7);
    assert_eq!(f.timestamp_ns, 99);
    assert_eq!(f.codec, codec::RAW);
    assert_eq!(f.pixel_format, pixel_format::BGRX);
    assert_eq!(f.rects, vec![Rect::new(0, 0, 4, 2)]);
    assert_eq!(f.payload.len(), 32);
    assert_eq!(
        ubf1_frame(h, vec![1u8; 31]).unwrap_err(),
        GrabError::SizeMismatch { payload: 31, width: 4, height: 2 }
    );
}

#[test]
fn blank_frames_and_grab_state() {
    let f = blank_frame(3, 4, 2);
    assert_eq!(f.frame_id, 3);
    assert_eq!(f.rects, vec![Rect::new(0, 0, 4, 2)]);
    assert_eq!(f.payload, vec![0u8; 32]);
    let mut s = GrabState { width: 4, height: 2, frame_id: 9 };
    let g = Frame {
        frame_id: 12,
        timestamp_ns: 0,
        codec: codec::RAW,
        pixel_format: pixel_format::BGRX,
        rects: vec![Rect::new(0, 0, 8, 2)],
        payload: vec![0u8; 64],
    };
    assert!(s.note_frame(&g));
    assert_eq!(s, GrabState { width: 8, height: 2, frame_id: 12 });
    assert!(!s.note_frame(&g));
    assert_eq!(s.blank().frame_id, 13);
    let top = GrabState { width: 1, height: 1, frame_id: u64::MAX };
    assert_eq!(top.blank().frame_id, u64::MAX);
}

#[test]
fn session_config_and_props() {
    let c = SessionConfig::default();
    assert_eq!((c.width, c.height, c.fps), (1600, 900, 60));
    assert!(c.is_platform);
    assert_eq!(c.cursor_mode, cursor::EMBEDDED);
    assert_eq!(
        record_virtual_props(&c),
        vec![("cursor-mode", StreamProp::CursorMode(1)), ("is-platform", StreamProp::IsPlatform(true))]
    );
    let d = SessionConfig { is_platform: false, cursor_mode: cursor::HIDDEN, ..c };
    assert_eq!(record_virtual_props(&d), vec![("cursor-mode", StreamProp::CursorMode(0))]);
}

// ---- a whole conversation, over byte streams ----

fn send(buf: &mut Vec<u8>, m: &Message) {
    usbra::stream::write_message(buf, m);
}

fn recv_all(buf: Vec<u8>) -> Vec<Message> {
    let mut s = usbra::stream::ByteStream::new(buf);
    let mut out = Vec::new();
    while let Some(m) = usbra::stream::read_message(&mut s).unwrap() {
        out.push(m);
    }
    out
}

#[test]
fn conversation_handshake_frames_ping_ack_disconnect_reconnect() {
    let cfg = serve_config("test", "127.0.0.1");
    let mut table = SessionTable::new();

    // client → host: HELLO
    let mut up = Vec::new();
    send(&mut up, &hello(VERSION));
    let first = recv_all(up).pop();
    let opening = first.clone().unwrap();
    let session_id = match open_session(first, &table, session_id_from(12345, 1)) {
        Opening::Serve { session_id, resumed: false } => session_id,
        o => panic!("unexpected {o:?}"),
    };
    assert_ne!(session_id, 0);
    let client_caps = table.accept(session_id, &opening);
    assert_eq!(client_caps, caps::RAW);

    // host → client: handshake, then frames
    let mut down = Vec::new();
    for m in session_start(&cfg, session_id, client_caps) {
        send(&mut down, &m);
    }
    let mut src = usbra::testsource::TestSource::new(640, 360, 60, 0);
    for i in 0..10u64 {
        let f = src.next_frame(1000 + i);
        table.note_frame(session_id, f.frame_id, f.timestamp_ns);
        send(&mut down, &Message::Frame(f));
    }
    let got = recv_all(down);
    assert_eq!(got.len(), 13);
    assert!(matches!(&got[0], Message::HelloOk(h) if h.session_id == session_id));
    assert!(matches!(&got[1], Message::DisplayInfo(d) if (d.width, d.height) == (640, 360)));
    assert!(matches!(&got[2], Message::Config(c) if c.flags & 1 != 0));
    for (k, m) in got[3..].iter().enumerate() {
        match m {
            Message::Frame(f) => {
                let expect: usize = f.rects.iter().map(|r| r.byte_len() as usize).sum();
                assert_eq!(expect, f.payload.len(), "payload must match rect packing");
                assert_eq!(f.covers(640, 360), k == 0, "only the first frame is full");
            }
            m => panic!("unexpected on stream: {m:?}"),
        }
    }

    // client → host: PING, FRAME_ACK, DISCONNECT
    match on_client_message(&Message::Ping(Ping { client_ts_ns: 123_456_789 }), &table, 5) {
        Reply::Pong(p) => assert_eq!(p.echoed_client_ts_ns, 123_456_789),
        r => panic!("unexpected {r:?}"),
    }
    match on_client_message(&Message::FrameAck(FrameAck { frame_id: 3, client_ts_ns: 0 }), &table, 1002 + 4000) {
        Reply::Ack { frame_id, latency_us } => assert_eq!((frame_id, latency_us), (3, 4)),
        r => panic!("unexpected {r:?}"),
    }
    let bye = Message::Disconnect(Disconnect { reason: reason::SHUTDOWN, message: "test done".into() });
    assert!(matches!(on_client_message(&bye, &table, 0), Reply::Close(d) if d.reason == reason::SHUTDOWN));

    // reconnect with the known session resumes; an unknown one is refused
    let r = Message::Reconnect(Reconnect { session_id, last_frame_id: 9 });
    assert!(matches!(open_session(Some(r.clone()), &table, 1), Opening::Serve { resumed: true, .. }));
    assert_eq!(table.accept(session_id, &r), caps::RAW);
    // the resumed connection's frames continue the session's numbering
    let base = table.last_frame_id(session_id).unwrap();
    assert_eq!(base, 10);
    let mut src = usbra::testsource::TestSource::new(640, 360, 60, 0);
    let f = session_frame(src.next_frame(5000), base);
    assert_eq!(f.frame_id, 11);
    assert!(f.covers(640, 360), "a resumed stream starts with a full frame");
    let r = Message::Reconnect(Reconnect { session_id: 0xFFFF_FFFF, last_frame_id: 0 });
    match open_session(Some(r), &table, 1) {
        Opening::Refuse(d) => assert_eq!(d.reason, reason::UNKNOWN_SESSION),
        o => panic!("unexpected {o:?}"),
    }
}

#[test]
fn grabbed_and_blank_frames_are_sendable() {
    let h = Ubf1Header { frame_id: 1, timestamp_ns: 2, width: 3, height: 2, payload_len: 24 };
    for f in [ubf1_frame(h, vec![9u8; 24]).unwrap(), blank_frame(5, 3, 2)] {
        let m = Message::Frame(f);
        let wire = m.encode().unwrap();
        assert_eq!(Message::decode(m.msg_type(), &wire[16..]).unwrap(), m);
    }
}

fn fields_of(e: &Event) -> Vec<(&'static str, String)> {
    e.fields.clone()
}

#[test]
fn connection_events() {
    let t = SessionTable::new();
    let first = Some(hello(VERSION));
    let o = open_session(first.clone(), &t, 5);
    let e = opening_event(&first, &o).unwrap();
    assert_eq!(e.kind, "hello");
    assert_eq!(
        fields_of(&e),
        vec![
            ("name", "phone".to_string()),
            ("caps", "1".to_string()),
            ("screen", "1080x2340".to_string()),
            ("refresh", "60".to_string()),
        ]
    );
    let bad = Some(hello(2));
    assert!(opening_event(&bad, &open_session(bad.clone(), &t, 5)).is_none());
    let ping = Some(Message::Ping(Ping { client_ts_ns: 1 }));
    let e = opening_event(&ping, &open_session(ping.clone(), &t, 5)).unwrap();
    assert_eq!((e.kind, fields_of(&e)), ("protocol_violation", vec![("got", "PING".to_string())]));
    let e = opening_event(&None, &open_session(None, &t, 5)).unwrap();
    assert_eq!((e.kind, fields_of(&e)), ("conn_end", vec![("why", "eof-before-hello".to_string())]));

    let ack = Message::FrameAck(FrameAck { frame_id: 4, client_ts_ns: 0 });
    let e = reply_event(&ack, &on_client_message(&ack, &t, 0));
    assert_eq!(
        (e.kind, fields_of(&e)),
        ("ack", vec![("frame", "4".to_string()), ("latency_us", "0".to_string())])
    );
    let bye = Message::Disconnect(Disconnect { reason: 3, message: "done".into() });
    let e = reply_event(&bye, &on_client_message(&bye, &t, 0));
    assert_eq!(
        (e.kind, fields_of(&e)),
        ("client_disconnect", vec![("reason", "3".to_string()), ("msg", "done".to_string())])
    );
    let e = session_end_event(9, true);
    assert_eq!(
        (e.kind, fields_of(&e)),
        ("conn_end", vec![("session", "9".to_string()), ("resumed", "true".to_string())])
    );
}

#[test]
fn grab_events() {
    let mut s = GrabState { width: 2, height: 1, frame_id: 4 };
    let g = Frame {
        frame_id: 5,
        timestamp_ns: 0,
        codec: codec::RAW,
        pixel_format: pixel_format::BGRX,
        rects: vec![Rect::new(0, 0, 3, 1)],
        payload: vec![1u8; 12],
    };
    match s.on_event(GrabEvent::Read(g.clone())) {
        GrabAction::Deliver { frame, resized } => {
            assert_eq!(frame, g);
            assert!(resized);
        }
        a => panic!("unexpected {a:?}"),
    }
    assert_eq!(s, GrabState { width: 3, height: 1, frame_id: 5 });
    assert!(matches!(s.on_event(GrabEvent::ReadFailed { grabber_exited: false }), GrabAction::Retry));
    match s.on_event(GrabEvent::ReadFailed { grabber_exited: true }) {
        GrabAction::Blank(b) => {
            assert_eq!(b.frame_id, 6);
            assert_eq!(b.rects, vec![Rect::new(0, 0, 3, 1)]);
            assert_eq!(b.payload, vec![0u8; 12]);
        }
        a => panic!("unexpected {a:?}"),
    }
    assert!(matches!(s.on_event(GrabEvent::Stopped), GrabAction::Blank(_)));
    assert_eq!(s, GrabState { width: 3, height: 1, frame_id: 5 });
}

#[test]
fn frame_counters_summarize_each_second() {
    let mut c = FrameCounters::new(100);
    assert_eq!(c.note_frame(10, 500_000_000), None);
    let w = c.note_frame(30, 1_000_000_100).unwrap();
    assert_eq!(
        w,
        WindowSummary { frames: 2, bytes: 40, window_frames: 2, window_bytes: 40, elapsed_ns: 1_000_000_000 }
    );
    c.start_window(1_000_000_200);
    assert_eq!((c.frames, c.bytes, c.window_frames, c.window_bytes), (2, 40, 0, 0));
    assert_eq!(c.note_frame(5, 1_500_000_000), None);
    assert_eq!((c.frames, c.bytes, c.window_frames, c.window_bytes), (3, 45, 1, 5));
}

#[test]
fn undecodable_input_closes_with_protocol_disconnect() {
    let d = on_read_error(StreamError::InvalidData(Error::UnknownMessageType(999))).unwrap();
    assert_eq!(d.reason, reason::PROTOCOL);
    assert_eq!(d.message, "unknown message type 999");
    let d = on_read_error(StreamError::InvalidData(Error::BadMagic(7))).unwrap();
    assert_eq!((d.reason, d.message.as_str()), (reason::PROTOCOL, "invalid message"));
    let d = on_read_error(StreamError::InvalidData(Error::Truncated { need: 8, have: 2 })).unwrap();
    assert_eq!(d.reason, reason::PROTOCOL);
    assert!(on_read_error(StreamError::UnexpectedEof).is_none());
}

#[test]
fn frame_totals_count_frames_and_bytes() {
    let mut t = FrameTotals::new();
    assert!(t.fits(100, 116));
    t.record(100, 116, true);
    t.record(40, 56, false);
    t.record(8, 24, false);
    assert_eq!((t.frames, t.full_frames, t.damage_frames()), (3, 1, 2));
    assert_eq!((t.payload_bytes, t.wire_bytes), (148, 196));
    t.payload_bytes = u64::MAX - 1;
    assert!(!t.fits(2, 0));
    assert!(t.fits(1, 0));
}

#[test]
fn numbers_parse_as_rust_reads_them() {
    let a = parse(&argv(&["--port", "+42", "--width", "0007", "--fps", "4294967295", "--full-frame-every", "18446744073709551615"])).unwrap_err();
    assert_eq!(a, "fps must be within 1..=240");
    let a = parse(&argv(&["--port", "+42", "--width", "0007", "--frames", "4294967295", "--full-frame-every", "18446744073709551615"])).unwrap();
    assert_eq!((a.port, a.width, a.frames, a.full_every_secs), (42, 7, u32::MAX, u64::MAX));
    assert_eq!(parse(&argv(&["--port", "65535"])).unwrap().port, 65535);
    for bad in ["65536", "+", "", "-1", "1 ", "++1", "1+"] {
        assert_eq!(
            parse(&argv(&["--port", bad])).unwrap_err(),
            format!("--port: invalid value {bad:?}")
        );
    }
    assert!(parse(&argv(&["--frames", "4294967296"])).is_err());
    assert!(parse(&argv(&["--full-frame-every", "18446744073709551616"])).is_err());
}

#[test]
fn decimals_match_to_string() {
    for n in [0u64, 7, 10, 99, 100, 12345, u64::MAX] {
        assert_eq!(u64_to_decimal(n), n.to_string());
    }
}
