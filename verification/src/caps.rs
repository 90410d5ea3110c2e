//! Session capability bits announced in HELLO.

use vstd::prelude::*;

verus! {

/// Raw tightly-packed rect pixels (always supported by v1 peers).
pub const RAW: u32 = 1u32;

/// Zstd-compressed frame payloads.
pub const ZSTD: u32 = 2u32;

} // verus!
