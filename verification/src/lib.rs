//! USBra: the wire protocol of a USB second display, and the host-side logic
//! that produces, frames and serves display updates.

use vstd::prelude::*;

pub mod args;
pub mod canvas;
pub mod caps;
pub mod clock;
pub mod codec;
pub mod damage;
mod decode;
pub mod decode_spec;
pub mod encode;
pub mod error;
pub mod events;
pub mod gnome;
pub mod header;
pub mod laws;
pub mod message;
pub mod msg;
pub mod pixel_format;
pub mod reason;
pub mod rect;
pub mod session;
pub mod stats;
pub mod stream;
pub mod testsource;
pub mod text;

verus! {

/// `u32` whose little-endian bytes are ASCII `"USBR"` (`55 53 42 52`).
pub const MAGIC: u32 = 0x5242_5355u32;

/// Current protocol version.
pub const VERSION: u16 = 1u16;

/// Framing header size in bytes.
pub const HEADER_LEN: usize = 16usize;

/// Maximum payload size a reader accepts (guards against corrupt lengths).
pub const MAX_PAYLOAD: usize = 67108864usize;

/// Maximum string length in bytes (the length prefix is a `u8`).
pub const MAX_STRING: usize = 255usize;

/// Most rects a sender puts in one message; senders merge damage to stay
/// within it (a sender policy, not a wire limit).
pub const MAX_RECTS: u16 = 64u16;

/// Most rects a FRAME or DAMAGE_REGION may carry on the wire; readers
/// accept up to this many.
pub const MAX_WIRE_RECTS: u16 = 255u16;

} // verus!
