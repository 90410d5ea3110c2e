//! FRAME payload codecs.

use vstd::prelude::*;

verus! {

/// Payload = concatenated tightly-packed rect rows.
pub const RAW: u8 = 0u8;

/// Payload = single zstd frame of the RAW concatenation.
pub const ZSTD: u8 = 1u8;

/// A codec id is known to v1 peers.
pub open spec fn spec_valid(c: u8) -> bool {
    c <= 1
}

/// Whether `c` is a registered codec id.
pub fn valid(c: u8) -> (r: bool)
    ensures
        r == spec_valid(c),
{
    c <= 1
}

/// The log name of a codec id.
pub open spec fn spec_name(c: u8) -> Seq<char> {
    if c == RAW {
        "raw"@
    } else if c == ZSTD {
        "zstd"@
    } else {
        "?"@
    }
}

/// Log name of codec `c` (`"?"` for unknown ids).
pub fn name(c: u8) -> (r: &'static str)
    ensures
        r@ == spec_name(c),
{
    if c == RAW {
        "raw"
    } else if c == ZSTD {
        "zstd"
    } else {
        "?"
    }
}

} // verus!
