//! The events the host logs about a connection: which event each opening
//! and each client message gives rise to, and its fields.

use vstd::prelude::*;
use crate::message::{Message, MessageView};
use crate::msg;
use crate::session::{opening_view, option_view, reply_view, Opening, Reply};
use crate::text::{concat, decimal, owned, u64_to_decimal};

verus! {

/// A log event: its kind and its named string fields, in order.
#[derive(Debug)]
pub struct Event {
    pub kind: &'static str,
    pub fields: Vec<(&'static str, String)>,
}

/// An event as character sequences.
pub open spec fn event_view(e: Event) -> (Seq<char>, Seq<(Seq<char>, Seq<char>)>) {
    (e.kind@, e.fields@.map_values(|f: (&'static str, String)| (f.0@, f.1@)))
}

/// An optional event as character sequences.
pub open spec fn option_event_view(e: Option<Event>) -> Option<(Seq<char>, Seq<(Seq<char>, Seq<char>)>)> {
    match e {
        Some(e) => Some(event_view(e)),
        None => None,
    }
}

/// `true` or `false`.
pub open spec fn bool_text(b: bool) -> Seq<char> {
    if b {
        "true"@
    } else {
        "false"@
    }
}

/// The event logged for a connection's opening message (`first`, `None`
/// when the client closed first) once it is answered with `o`: the end of
/// a connection that closed before HELLO, a protocol violation when the
/// first message is neither HELLO nor RECONNECT, the HELLO or RECONNECT of
/// an accepted session, and nothing for a refused HELLO or RECONNECT.
pub open spec fn spec_opening_event(
    first: Option<MessageView>,
    o: (Option<crate::message::DisconnectView>, Option<(u64, bool)>),
) -> Option<(Seq<char>, Seq<(Seq<char>, Seq<char>)>)> {
    match first {
        None => Some(("conn_end"@, seq![("why"@, "eof-before-hello"@)])),
        Some(m) => match o.1 {
            None => match m {
                MessageView::Hello(_) => None,
                MessageView::Reconnect(_) => None,
                other => Some(
                    ("protocol_violation"@, seq![("got"@, msg::spec_name(Message::spec_msg_type(other)))]),
                ),
            },
            Some((session_id, _)) => match m {
                MessageView::Hello(h) => Some(
                    (
                        "hello"@,
                        seq![
                            ("name"@, h.name),
                            ("caps"@, decimal(h.capabilities as nat)),
                            ("screen"@, decimal(h.screen_w as nat) + "x"@ + decimal(h.screen_h as nat)),
                            ("refresh"@, decimal(h.refresh_hint as nat)),
                        ],
                    ),
                ),
                MessageView::Reconnect(r) => Some(
                    (
                        "reconnect"@,
                        seq![
                            ("session"@, decimal(session_id as nat)),
                            ("last_frame"@, decimal(r.last_frame_id as nat)),
                        ],
                    ),
                ),
                _ => None,
            },
        },
    }
}

/// The event to log once a connection's opening message is answered.
pub fn opening_event(first: &Option<Message>, o: &Opening) -> (e: Option<Event>)
    ensures
        option_event_view(e) == spec_opening_event(option_view(*first), opening_view(*o)),
{
    proof {
        reveal_strlit("x");
    }
    match first {
        None => {
            let mut fields: Vec<(&'static str, String)> = Vec::new();
            fields.push(("why", owned("eof-before-hello")));
            let e = Event { kind: "conn_end", fields };
            assert(event_view(e).1 =~= seq![("why"@, "eof-before-hello"@)]);
            Some(e)
        },
        Some(m) => match o {
            Opening::Serve { session_id, .. } => match m {
                Message::Hello(h) => {
                    let mut fields: Vec<(&'static str, String)> = Vec::new();
                    fields.push(("name", owned(h.name.as_str())));
                    fields.push(("caps", u64_to_decimal(h.capabilities as u64)));
                    let w = u64_to_decimal(h.screen_w as u64);
                    let wx = concat(w.as_str(), "x");
                    let hh = u64_to_decimal(h.screen_h as u64);
                    fields.push(("screen", concat(wx.as_str(), hh.as_str())));
                    fields.push(("refresh", u64_to_decimal(h.refresh_hint as u64)));
                    let e = Event { kind: "hello", fields };
                    assert(event_view(e).1 =~= seq![
                        ("name"@, h.name@),
                        ("caps"@, decimal(h.capabilities as nat)),
                        ("screen"@, decimal(h.screen_w as nat) + "x"@ + decimal(h.screen_h as nat)),
                        ("refresh"@, decimal(h.refresh_hint as nat)),
                    ]);
                    Some(e)
                },
                Message::Reconnect(r) => {
                    let mut fields: Vec<(&'static str, String)> = Vec::new();
                    fields.push(("session", u64_to_decimal(*session_id)));
                    fields.push(("last_frame", u64_to_decimal(r.last_frame_id)));
                    let e = Event { kind: "reconnect", fields };
                    assert(event_view(e).1 =~= seq![
                        ("session"@, decimal(*session_id as nat)),
                        ("last_frame"@, decimal(r.last_frame_id as nat)),
                    ]);
                    Some(e)
                },
                _ => None,
            },
            _ => match m {
                Message::Hello(_) => None,
                Message::Reconnect(_) => None,
                other => {
                    let mut fields: Vec<(&'static str, String)> = Vec::new();
                    fields.push(("got", owned(other.msg_type_name())));
                    let e = Event { kind: "protocol_violation", fields };
                    assert(event_view(e).1 =~= seq![
                        ("got"@, msg::spec_name(Message::spec_msg_type(other@))),
                    ]);
                    Some(e)
                },
            },
        },
    }
}

/// The event logged for a client message `m` on a live session answered
/// with `r`: a PING, an acknowledged frame and its latency, the client's
/// own DISCONNECT, or a protocol violation.
pub open spec fn spec_reply_event(
    m: MessageView,
    r: (Option<crate::message::Pong>, Option<(u64, u64)>, Option<crate::message::DisconnectView>),
) -> (Seq<char>, Seq<(Seq<char>, Seq<char>)>) {
    match r.0 {
        Some(p) => ("ping"@, seq![("client_ts_ns"@, decimal(p.echoed_client_ts_ns as nat))]),
        None => match r.1 {
            Some((frame_id, latency_us)) => (
                "ack"@,
                seq![("frame"@, decimal(frame_id as nat)), ("latency_us"@, decimal(latency_us as nat))],
            ),
            None => match m {
                MessageView::Disconnect(d) => (
                    "client_disconnect"@,
                    seq![("reason"@, decimal(d.reason as nat)), ("msg"@, d.message)],
                ),
                other => (
                    "protocol_violation"@,
                    seq![("got"@, msg::spec_name(Message::spec_msg_type(other)))],
                ),
            },
        },
    }
}

/// The event to log for a client message and the host's answer to it.
pub fn reply_event(m: &Message, r: &Reply) -> (e: Event)
    ensures
        event_view(e) == spec_reply_event(m@, reply_view(*r)),
{
    let mut fields: Vec<(&'static str, String)> = Vec::new();
    match r {
        Reply::Pong(p) => {
            fields.push(("client_ts_ns", u64_to_decimal(p.echoed_client_ts_ns)));
            let e = Event { kind: "ping", fields };
            assert(event_view(e).1 =~= seq![("client_ts_ns"@, decimal(p.echoed_client_ts_ns as nat))]);
            e
        },
        Reply::Ack { frame_id, latency_us } => {
            fields.push(("frame", u64_to_decimal(*frame_id)));
            fields.push(("latency_us", u64_to_decimal(*latency_us)));
            let e = Event { kind: "ack", fields };
            assert(event_view(e).1 =~= seq![
                ("frame"@, decimal(*frame_id as nat)),
                ("latency_us"@, decimal(*latency_us as nat)),
            ]);
            e
        },
        Reply::Close(_) => match m {
            Message::Disconnect(d) => {
                fields.push(("reason", u64_to_decimal(d.reason as u64)));
                fields.push(("msg", owned(d.message.as_str())));
                let e = Event { kind: "client_disconnect", fields };
                assert(event_view(e).1 =~= seq![
                    ("reason"@, decimal(d.reason as nat)),
                    ("msg"@, d.message@),
                ]);
                e
            },
            other => {
                fields.push(("got", owned(other.msg_type_name())));
                let e = Event { kind: "protocol_violation", fields };
                assert(event_view(e).1 =~= seq![
                    ("got"@, msg::spec_name(Message::spec_msg_type(other@))),
                ]);
                e
            },
        },
    }
}

/// The event that ends a served session.
pub fn session_end_event(session_id: u64, resumed: bool) -> (e: Event)
    ensures
        event_view(e) == (
            "conn_end"@,
            seq![("session"@, decimal(session_id as nat)), ("resumed"@, bool_text(resumed))],
        ),
{
    proof {
        reveal_strlit("true");
        reveal_strlit("false");
    }
    let mut fields: Vec<(&'static str, String)> = Vec::new();
    fields.push(("session", u64_to_decimal(session_id)));
    fields.push(("resumed", owned(if resumed { "true" } else { "false" })));
    let e = Event { kind: "conn_end", fields };
    assert(event_view(e).1 =~= seq![
        ("session"@, decimal(session_id as nat)),
        ("resumed"@, bool_text(resumed)),
    ]);
    e
}

} // verus!
