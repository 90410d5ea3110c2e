//! Pixel formats. Each value names the memory byte order of a 4-byte pixel.

use vstd::prelude::*;

verus! {

/// DRM_FORMAT_XRGB8888 little-endian: bytes B, G, R, X.
pub const BGRX: u8 = 0u8;

/// DRM_FORMAT_XBGR8888 little-endian: bytes R, G, B, X.
pub const RGBX: u8 = 1u8;

/// A pixel format id is known to v1 peers.
pub open spec fn spec_valid(f: u8) -> bool {
    f <= 1
}

/// Whether `f` is a registered pixel format id.
pub fn valid(f: u8) -> (r: bool)
    ensures
        r == spec_valid(f),
{
    f <= 1
}

/// The log name of a pixel format id.
pub open spec fn spec_name(f: u8) -> Seq<char> {
    if f == BGRX {
        "BGRX"@
    } else if f == RGBX {
        "RGBX"@
    } else {
        "?"@
    }
}

/// Log name of pixel format `f` (`"?"` for unknown ids).
pub fn name(f: u8) -> (r: &'static str)
    ensures
        r@ == spec_name(f),
{
    if f == BGRX {
        "BGRX"
    } else if f == RGBX {
        "RGBX"
    } else {
        "?"
    }
}

} // verus!
