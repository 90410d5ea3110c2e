//! Message type ids.

use vstd::prelude::*;

verus! {

pub const HELLO: u16 = 1u16;
pub const HELLO_OK: u16 = 2u16;
pub const CONFIG: u16 = 3u16;
pub const DISPLAY_INFO: u16 = 4u16;
pub const FRAME: u16 = 5u16;
pub const DAMAGE_REGION: u16 = 6u16;
pub const PING: u16 = 7u16;
pub const PONG: u16 = 8u16;
pub const DISCONNECT: u16 = 9u16;
pub const RECONNECT: u16 = 10u16;
pub const FRAME_ACK: u16 = 11u16;

/// The name of message type `t` as it appears in logs.
pub open spec fn spec_name(t: u16) -> Seq<char> {
    if t == HELLO {
        "HELLO"@
    } else if t == HELLO_OK {
        "HELLO_OK"@
    } else if t == CONFIG {
        "CONFIG"@
    } else if t == DISPLAY_INFO {
        "DISPLAY_INFO"@
    } else if t == FRAME {
        "FRAME"@
    } else if t == DAMAGE_REGION {
        "DAMAGE_REGION"@
    } else if t == PING {
        "PING"@
    } else if t == PONG {
        "PONG"@
    } else if t == DISCONNECT {
        "DISCONNECT"@
    } else if t == RECONNECT {
        "RECONNECT"@
    } else if t == FRAME_ACK {
        "FRAME_ACK"@
    } else {
        "UNKNOWN"@
    }
}

/// Human-readable name of a message type id (`"UNKNOWN"` for ids outside
/// the registry).
pub fn name(t: u16) -> (r: &'static str)
    ensures
        r@ == spec_name(t),
{
    if t == HELLO {
        "HELLO"
    } else if t == HELLO_OK {
        "HELLO_OK"
    } else if t == CONFIG {
        "CONFIG"
    } else if t == DISPLAY_INFO {
        "DISPLAY_INFO"
    } else if t == FRAME {
        "FRAME"
    } else if t == DAMAGE_REGION {
        "DAMAGE_REGION"
    } else if t == PING {
        "PING"
    } else if t == PONG {
        "PONG"
    } else if t == DISCONNECT {
        "DISCONNECT"
    } else if t == RECONNECT {
        "RECONNECT"
    } else if t == FRAME_ACK {
        "FRAME_ACK"
    } else {
        "UNKNOWN"
    }
}

} // verus!
