//! Decoding errors.

use vstd::prelude::*;

verus! {

/// Why a header or payload was rejected.
#[derive(Debug, Clone, Copy, PartialEq, Eq)]
pub enum Error {
    BadMagic(u32),
    UnsupportedVersion(u16),
    UnknownMessageType(u16),
    Truncated { need: usize, have: usize },
    Trailing(usize),
    BadString,
    BadPixelFormat(u8),
    BadCodec(u8),
    PayloadTooLarge(u32),
}

} // verus!
