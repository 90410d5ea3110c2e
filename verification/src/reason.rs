//! DISCONNECT reason codes.

use vstd::prelude::*;

verus! {

pub const UNKNOWN_SESSION: u16 = 1u16;
pub const PROTOCOL: u16 = 2u16;
pub const SHUTDOWN: u16 = 3u16;
pub const ERROR: u16 = 4u16;

} // verus!
