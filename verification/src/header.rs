//! The 16-byte framing header that precedes every payload.

use vstd::prelude::*;
use vstd::bytes::*;
use vstd::slice::slice_subrange;
use crate::error::Error;
use crate::{HEADER_LEN, MAGIC, VERSION};

verus! {

/// `magic | version | msg_type | length | flags`, all little-endian.
#[derive(Debug, Clone, Copy, PartialEq, Eq, Structural)]
pub struct Header {
    pub magic: u32,
    pub version: u16,
    pub msg_type: u16,
    pub length: u32,
    pub flags: u32,
}

/// The wire bytes of a header.
pub open spec fn spec_header_bytes(h: Header) -> Seq<u8> {
    spec_u32_to_le_bytes(h.magic) + spec_u16_to_le_bytes(h.version) + spec_u16_to_le_bytes(
        h.msg_type,
    ) + spec_u32_to_le_bytes(h.length) + spec_u32_to_le_bytes(h.flags)
}

/// The little-endian `u16` at `off` in `s`.
pub open spec fn le16_at(s: Seq<u8>, off: int) -> u16 {
    spec_u16_from_le_bytes(s.subrange(off, off + 2))
}

/// The little-endian `u32` at `off` in `s`.
pub open spec fn le32_at(s: Seq<u8>, off: int) -> u32 {
    spec_u32_from_le_bytes(s.subrange(off, off + 4))
}

/// The little-endian `u64` at `off` in `s`.
pub open spec fn le64_at(s: Seq<u8>, off: int) -> u64 {
    spec_u64_from_le_bytes(s.subrange(off, off + 8))
}

/// How a header is read from the first 16 bytes of `s`: the magic must be
/// `MAGIC` and the version no newer than `VERSION`.
pub open spec fn spec_header_from_bytes(s: Seq<u8>) -> Result<Header, Error> {
    if s.len() < 16 {
        Err(Error::Truncated { need: 16, have: s.len() as usize })
    } else if le32_at(s, 0) != MAGIC {
        Err(Error::BadMagic(le32_at(s, 0)))
    } else if le16_at(s, 4) > VERSION {
        Err(Error::UnsupportedVersion(le16_at(s, 4)))
    } else {
        Ok(
            Header {
                magic: le32_at(s, 0),
                version: le16_at(s, 4),
                msg_type: le16_at(s, 6),
                length: le32_at(s, 8),
                flags: le32_at(s, 12),
            },
        )
    }
}

impl Header {
    /// A v1 header for a payload of `length` bytes.
    pub open spec fn spec_new(msg_type: u16, length: u32) -> Header {
        Header { magic: MAGIC, version: VERSION, msg_type, length, flags: 0 }
    }

    pub fn new(msg_type: u16, length: u32) -> (h: Self)
        ensures
            h == Header::spec_new(msg_type, length),
    {
        Header { magic: MAGIC, version: VERSION, msg_type, length, flags: 0 }
    }

    /// The header's 16 wire bytes.
    pub fn to_bytes(self) -> (b: [u8; 16])
        ensures
            b@ == spec_header_bytes(self),
    {
        let m = u32_to_le_bytes(self.magic);
        let v = u16_to_le_bytes(self.version);
        let t = u16_to_le_bytes(self.msg_type);
        let l = u32_to_le_bytes(self.length);
        let f = u32_to_le_bytes(self.flags);
        let b = [
            m[0], m[1], m[2], m[3],
            v[0], v[1],
            t[0], t[1],
            l[0], l[1], l[2], l[3],
            f[0], f[1], f[2], f[3],
        ];
        assert(b@ =~= spec_header_bytes(self));
        b
    }

    /// Reads a header from the start of `b`.
    pub fn from_bytes(b: &[u8]) -> (r: Result<Header, Error>)
        ensures
            r == spec_header_from_bytes(b@),
    {
        if b.len() < HEADER_LEN {
            return Err(Error::Truncated { need: HEADER_LEN, have: b.len() });
        }
        let magic = u32_from_le_bytes(slice_subrange(b, 0, 4));
        if magic != MAGIC {
            return Err(Error::BadMagic(magic));
        }
        let version = u16_from_le_bytes(slice_subrange(b, 4, 6));
        if version > VERSION {
            return Err(Error::UnsupportedVersion(version));
        }
        Ok(
            Header {
                magic,
                version,
                msg_type: u16_from_le_bytes(slice_subrange(b, 6, 8)),
                length: u32_from_le_bytes(slice_subrange(b, 8, 12)),
                flags: u32_from_le_bytes(slice_subrange(b, 12, 16)),
            },
        )
    }
}

} // verus!
