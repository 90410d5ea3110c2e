//! Framed messages on a byte stream: writing appends a message's wire bytes;
//! reading takes one framed message from a stream position.

use vstd::prelude::*;
use vstd::slice::slice_subrange;
use crate::decode_spec::spec_decode;
use crate::encode::{encodable, spec_wire};
use crate::encode::push_bytes;
use crate::error::Error;
use crate::header::{spec_header_from_bytes, Header};
use crate::message::{Message, MessageView};
use crate::{HEADER_LEN, MAX_PAYLOAD};

verus! {

/// Why a framed message could not be read.
#[derive(Debug, Clone, Copy, PartialEq, Eq)]
pub enum StreamError {
    /// The stream ended inside a header or a payload.
    UnexpectedEof,
    /// The header or payload was rejected.
    InvalidData(Error),
}

/// A readable byte stream held in memory, with a read position.
pub struct ByteStream {
    data: Vec<u8>,
    pos: usize,
}

impl View for ByteStream {
    type V = (Seq<u8>, int);

    closed spec fn view(&self) -> (Seq<u8>, int) {
        (self.data@, self.pos as int)
    }
}

impl ByteStream {
    /// The read position lies within the data.
    pub closed spec fn wf(&self) -> bool {
        self.pos <= self.data@.len()
    }

    /// A stream over `data`, positioned at its start.
    pub fn new(data: Vec<u8>) -> (s: Self)
        ensures
            s.wf(),
            s@ == (data@, 0int),
    {
        ByteStream { data, pos: 0 }
    }

    /// The current read position.
    pub fn position(&self) -> (p: usize)
        ensures
            p == self@.1,
    {
        self.pos
    }
}

/// Validates a framing header read from the start of `b`: besides the
/// header's own checks, the announced payload must be within `MAX_PAYLOAD`.
pub open spec fn spec_read_header(b: Seq<u8>) -> Result<Header, Error> {
    match spec_header_from_bytes(b) {
        Err(e) => Err(e),
        Ok(h) => if h.length > MAX_PAYLOAD {
            Err(Error::PayloadTooLarge(h.length))
        } else {
            Ok(h)
        },
    }
}

/// Reads and validates the framing header at the start of `b`.
pub fn read_header(b: &[u8]) -> (r: Result<Header, Error>)
    ensures
        r == spec_read_header(b@),
{
    let h = Header::from_bytes(b)?;
    if h.length as usize > MAX_PAYLOAD {
        return Err(Error::PayloadTooLarge(h.length));
    }
    Ok(h)
}

/// Reading one framed message at position `pos` of `data`: the outcome and
/// the position afterwards. A stream that ends exactly at `pos` ends
/// cleanly; one that ends inside a header or payload is cut short (and is
/// consumed to its end); a rejected header or payload is invalid data.
pub open spec fn spec_read(data: Seq<u8>, pos: int) -> (
    Result<Option<MessageView>, StreamError>,
    int,
) {
    let rest = data.subrange(pos, data.len() as int);
    if rest.len() == 0 {
        (Ok(None), pos)
    } else if rest.len() < HEADER_LEN {
        (Err(StreamError::UnexpectedEof), data.len() as int)
    } else {
        match spec_read_header(rest) {
            Err(e) => (Err(StreamError::InvalidData(e)), pos + HEADER_LEN),
            Ok(h) => {
                let n = h.length as int;
                if rest.len() < HEADER_LEN + n {
                    (Err(StreamError::UnexpectedEof), data.len() as int)
                } else {
                    let end = pos + HEADER_LEN + n;
                    match spec_decode(h.msg_type, data.subrange(pos + HEADER_LEN, end)) {
                        Err(e) => (Err(StreamError::InvalidData(e)), end),
                        Ok(m) => (Ok(Some(m)), end),
                    }
                }
            },
        }
    }
}

/// A read outcome, taken by its view.
pub open spec fn view_read(r: Result<Option<Message>, StreamError>) -> Result<
    Option<MessageView>,
    StreamError,
> {
    match r {
        Ok(Some(m)) => Ok(Some(m@)),
        Ok(None) => Ok(None),
        Err(e) => Err(e),
    }
}

/// Appends the framed message (header, then payload) to `out`.
pub fn write_message(out: &mut Vec<u8>, m: &Message)
    requires
        encodable(m@),
    ensures
        final(out)@ == old(out)@ + spec_wire(m@),
{
    let bytes = m.to_bytes();
    push_bytes(out, bytes.as_slice());
}

/// Reads one framed message. `Ok(None)` = the stream ended cleanly between
/// messages.
pub fn read_message(r: &mut ByteStream) -> (res: Result<Option<Message>, StreamError>)
    requires
        old(r).wf(),
    ensures
        final(r).wf(),
        final(r)@.0 == old(r)@.0,
        (view_read(res), final(r)@.1) == spec_read(old(r)@.0, old(r)@.1),
{
    let len = r.data.len();
    let avail = len - r.pos;
    if avail == 0 {
        return Ok(None);
    }
    if avail < HEADER_LEN {
        r.pos = len;
        return Err(StreamError::UnexpectedEof);
    }
    let ghost data = r.data@;
    let ghost pos = r.pos as int;
    let ghost rest = data.subrange(pos, len as int);
    let start = r.pos;
    let header = {
        let hb = slice_subrange(r.data.as_slice(), start, len);
        assert(hb@ =~= rest);
        read_header(hb)
    };
    let header = match header {
        Ok(h) => h,
        Err(e) => {
            r.pos = start + HEADER_LEN;
            return Err(StreamError::InvalidData(e));
        },
    };
    let n = header.length as usize;
    if avail - HEADER_LEN < n {
        r.pos = len;
        return Err(StreamError::UnexpectedEof);
    }
    let end = start + HEADER_LEN + n;
    let decoded = {
        let payload = slice_subrange(r.data.as_slice(), start + HEADER_LEN, end);
        Message::decode(header.msg_type, payload)
    };
    r.pos = end;
    match decoded {
        Ok(m) => Ok(Some(m)),
        Err(e) => Err(StreamError::InvalidData(e)),
    }
}

} // verus!
