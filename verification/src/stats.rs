//! The text of the JSON-lines stats log: string escaping and event lines.

use vstd::prelude::*;
use vstd::string::StringExecFns;
use crate::text::{decimal, push_char, u128_to_decimal, u64_to_decimal};

verus! {

/// Lower-case hex digit of `d < 16`.
pub open spec fn hex_digit(d: nat) -> char {
    if d < 10 {
        ((48 + d) as u32) as char
    } else {
        ((87 + d) as u32) as char
    }
}

/// How one character appears inside a JSON string: `"`, `\` and the
/// control characters escaped (`\n`, `\r`, `\t` by name, the others as
/// `\u00XX`), everything else as itself.
pub open spec fn json_escape(c: char) -> Seq<char> {
    if c == '"' {
        seq!['\\', '"']
    } else if c == '\\' {
        seq!['\\', '\\']
    } else if c == '\n' {
        seq!['\\', 'n']
    } else if c == '\r' {
        seq!['\\', 'r']
    } else if c == '\t' {
        seq!['\\', 't']
    } else if (c as u32) < 0x20 {
        seq!['\\', 'u', '0', '0', hex_digit((c as u32 / 16) as nat), hex_digit((c as u32 % 16) as nat)]
    } else {
        seq![c]
    }
}

/// The characters of `s`, each escaped.
pub open spec fn json_escaped(s: Seq<char>) -> Seq<char>
    decreases s.len(),
{
    if s.len() == 0 {
        Seq::empty()
    } else {
        json_escaped(s.drop_last()) + json_escape(s.last())
    }
}

/// `s` as a JSON string literal: quoted, with its characters escaped.
pub open spec fn json_quoted(s: Seq<char>) -> Seq<char> {
    seq!['"'] + json_escaped(s) + seq!['"']
}

/// The value of a hex digit of either case.
pub open spec fn hex_value(c: char) -> Option<nat> {
    if '0' <= c <= '9' {
        Some((c as u32 - 48) as nat)
    } else if 'a' <= c <= 'f' {
        Some((c as u32 - 87) as nat)
    } else if 'A' <= c <= 'F' {
        Some((c as u32 - 55) as nat)
    } else {
        None
    }
}

/// The code point named by four hex digits.
pub open spec fn hex4(a: char, b: char, c: char, d: char) -> Option<nat> {
    match (hex_value(a), hex_value(b), hex_value(c), hex_value(d)) {
        (Some(x), Some(y), Some(z), Some(w)) => Some(((x * 16 + y) * 16 + z) * 16 + w),
        _ => None,
    }
}

/// `c` in front of what was read, if anything was.
pub open spec fn prepend(c: char, o: Option<Seq<char>>) -> Option<Seq<char>> {
    match o {
        Some(r) => Some(seq![c] + r),
        None => None,
    }
}

/// What a JSON reader makes of the text between a string's quotes: a bare
/// `"` or control character is an error; `\\`, `\"`, `\/`, `\b`, `\f`,
/// `\n`, `\r`, `\t` and `\uXXXX` (outside the surrogate range) are read as
/// JSON defines them; anything else after `\` is an error. (Surrogate pairs
/// are not read.)
pub open spec fn json_read_body(t: Seq<char>) -> Option<Seq<char>>
    decreases t.len(),
{
    if t.len() == 0 {
        Some(Seq::empty())
    } else if t[0] == '"' || (t[0] as u32) < 0x20 {
        None
    } else if t[0] != '\\' {
        prepend(t[0], json_read_body(t.drop_first()))
    } else if t.len() < 2 {
        None
    } else {
        let e = t[1];
        let rest = t.subrange(2, t.len() as int);
        if e == '"' || e == '\\' || e == '/' {
            prepend(e, json_read_body(rest))
        } else if e == 'b' {
            prepend('\u{8}', json_read_body(rest))
        } else if e == 'f' {
            prepend('\u{c}', json_read_body(rest))
        } else if e == 'n' {
            prepend('\n', json_read_body(rest))
        } else if e == 'r' {
            prepend('\r', json_read_body(rest))
        } else if e == 't' {
            prepend('\t', json_read_body(rest))
        } else if e == 'u' && t.len() >= 6 {
            match hex4(t[2], t[3], t[4], t[5]) {
                Some(v) => if v < 0xD800 || 0xE000 <= v <= 0x10FFFF {
                    prepend(v as char, json_read_body(t.subrange(6, t.len() as int)))
                } else {
                    None
                },
                None => None,
            }
        } else {
            None
        }
    }
}

/// An escaped character reads back as itself.
proof fn lemma_read_escape(c: char, rest: Seq<char>)
    ensures
        json_read_body(json_escape(c) + rest) == prepend(c, json_read_body(rest)),
{
    let t = json_escape(c) + rest;
    let v = c as u32;
    if c == '"' || c == '\\' || c == '\n' || c == '\r' || c == '\t' {
        assert(t.subrange(2, t.len() as int) =~= rest);
    } else if v < 0x20 {
        assert(t.subrange(6, t.len() as int) =~= rest);
        assert(v / 16 < 2);
        assert(hex_value(hex_digit((v / 16) as nat)) == Some((v / 16) as nat));
        assert(hex_value(hex_digit((v % 16) as nat)) == Some((v % 16) as nat));
        assert(hex4(t[2], t[3], t[4], t[5]) == Some(v as nat));
        assert((v as nat) as char == c);
    } else {
        assert(t.drop_first() =~= rest);
    }
}

/// Escaped text followed by more text reads as the characters it escapes
/// followed by what the rest reads as.
proof fn lemma_read_escaped(s: Seq<char>, rest: Seq<char>)
    ensures
        json_read_body(json_escaped(s) + rest) == match json_read_body(rest) {
            Some(r) => Some(s + r),
            None => None,
        },
    decreases s.len(),
{
    if s.len() == 0 {
        assert(json_escaped(s) + rest =~= rest);
        if let Some(r) = json_read_body(rest) {
            assert(s + r =~= r);
        }
    } else {
        let s0 = s.drop_last();
        let c = s.last();
        assert(json_escaped(s) + rest =~= json_escaped(s0) + (json_escape(c) + rest));
        lemma_read_escaped(s0, json_escape(c) + rest);
        lemma_read_escape(c, rest);
        if let Some(r) = json_read_body(rest) {
            assert(s0 + (seq![c] + r) =~= s + r);
        }
    }
}

/// Between the quotes `json_str` writes, a JSON reader finds no bare quote
/// or control character, and reads back exactly the original text.
pub proof fn lemma_json_str_reads_back(s: Seq<char>)
    ensures
        json_quoted(s) == seq!['"'] + json_escaped(s) + seq!['"'],
        json_read_body(json_escaped(s)) == Some(s),
{
    lemma_read_escaped(s, Seq::empty());
    assert(json_escaped(s) + Seq::<char>::empty() =~= json_escaped(s));
    assert(s + Seq::<char>::empty() =~= s);
}

/// Appends `c` as it appears inside a JSON string.
fn push_escaped(out: &mut String, c: char)
    ensures
        final(out)@ == old(out)@ + json_escape(c),
{
    let ghost o = out@;
    if c == '"' {
        push_char(out, '\\');
        push_char(out, '"');
    } else if c == '\\' {
        push_char(out, '\\');
        push_char(out, '\\');
    } else if c == '\n' {
        push_char(out, '\\');
        push_char(out, 'n');
    } else if c == '\r' {
        push_char(out, '\\');
        push_char(out, 'r');
    } else if c == '\t' {
        push_char(out, '\\');
        push_char(out, 't');
    } else if (c as u32) < 0x20 {
        let v = c as u32;
        push_char(out, '\\');
        push_char(out, 'u');
        push_char(out, '0');
        push_char(out, '0');
        push_char(out, hex_char(v / 16));
        push_char(out, hex_char(v % 16));
    } else {
        push_char(out, c);
    }
    assert(out@ =~= o + json_escape(c));
}

/// The lower-case hex digit of `d < 16`.
fn hex_char(d: u32) -> (c: char)
    requires
        d < 16,
    ensures
        c == hex_digit(d as nat),
{
    if d < 10 {
        char_of(48 + d)
    } else {
        char_of(87 + d)
    }
}

/// The ASCII character with code `v`.
fn char_of(v: u32) -> (c: char)
    requires
        v < 128,
    ensures
        c == v as char,
{
    let b = v as u8;
    b as char
}

/// Minimal JSON string escaping: `s` quoted, with `"`, `\` and control
/// characters escaped.
pub fn json_str(s: &str) -> (r: String)
    ensures
        r@ == json_quoted(s@),
{
    let mut out = String::new();
    push_char(&mut out, '"');
    let ghost chars = s@;
    for c in it: s.chars()
        invariant
            chars == s@,
            it.seq() == chars,
            out@ == seq!['"'] + json_escaped(chars.take(it.index() as int)),
    {
        let ghost before = out@;
        push_escaped(&mut out, c);
        proof {
            let k = it.index() as int;
            assert(chars.take(k + 1).drop_last() =~= chars.take(k));
            assert(chars.take(k + 1).last() == c);
            assert(out@ =~= seq!['"'] + json_escaped(chars.take(k + 1)));
        }
    }
    push_char(&mut out, '"');
    assert(chars.take(chars.len() as int) =~= chars);
    out
}

/// The text of a JSON-lines event: `{"t_ms":…,"ev":kind` and each field as
/// `,"name":"value"`, then `}`.
pub open spec fn event_text(t_ms: Seq<char>, kind: Seq<char>, fields: Seq<(Seq<char>, Seq<char>)>) -> Seq<
    char,
>
    decreases fields.len(),
{
    if fields.len() == 0 {
        "{\"t_ms\":"@ + t_ms + ",\"ev\":"@ + json_quoted(kind)
    } else {
        let (k, v) = fields.last();
        event_text(t_ms, kind, fields.drop_last()) + ","@ + json_quoted(k) + ":"@ + json_quoted(v)
    }
}

/// The fields of an event as character sequences.
pub open spec fn fields_view(fields: Seq<(&str, String)>) -> Seq<(Seq<char>, Seq<char>)> {
    fields.map_values(|f: (&str, String)| (f.0@, f.1@))
}

/// One JSON-lines event, `{"t_ms":…,"ev":"…",…}`, for an event of `kind`
/// at `t_ms` milliseconds with the given string fields.
pub fn event_line(t_ms: u128, kind: &str, fields: &[(&str, String)]) -> (line: String)
    ensures
        line@ == event_text(decimal(t_ms as nat), kind@, fields_view(fields@)) + "}"@,
{
    proof {
        reveal_strlit("{\"t_ms\":");
        reveal_strlit(",\"ev\":");
        reveal_strlit(",");
        reveal_strlit(":");
        reveal_strlit("}");
    }
    let mut line = crate::text::owned("{\"t_ms\":");
    let t = u128_to_decimal(t_ms);
    line.append(t.as_str());
    line.append(",\"ev\":");
    let q = json_str(kind);
    line.append(q.as_str());
    let mut i: usize = 0;
    while i < fields.len()
        invariant
            i <= fields@.len(),
            line@ == event_text(decimal(t_ms as nat), kind@, fields_view(fields@.take(i as int))),
        decreases fields@.len() - i,
    {
        let (k, v) = &fields[i];
        line.append(",");
        let qk = json_str(k);
        line.append(qk.as_str());
        line.append(":");
        let qv = json_str(v.as_str());
        line.append(qv.as_str());
        proof {
            assert(fields_view(fields@.take(i + 1)).drop_last() =~= fields_view(fields@.take(i as int)));
        }
        i = i + 1;
    }
    line.append("}");
    assert(fields@.take(i as int) =~= fields@);
    line
}

/// The fields of a `frame` event: id, host timestamp, rect count, payload
/// bytes and the time spent producing and sending the frame, in
/// microseconds.
pub fn frame_fields(frame_id: u64, ts_ns: u64, rects: u64, bytes: u64, gen_us: u64, send_us: u64) -> (f: Vec<
    (&'static str, String),
>)
    ensures
        f@.len() == 6,
        f@[0].0@ == "id"@ && f@[0].1@ == decimal(frame_id as nat),
        f@[1].0@ == "ts_ns"@ && f@[1].1@ == decimal(ts_ns as nat),
        f@[2].0@ == "rects"@ && f@[2].1@ == decimal(rects as nat),
        f@[3].0@ == "bytes"@ && f@[3].1@ == decimal(bytes as nat),
        f@[4].0@ == "gen_us"@ && f@[4].1@ == decimal(gen_us as nat),
        f@[5].0@ == "send_us"@ && f@[5].1@ == decimal(send_us as nat),
{
    let mut f: Vec<(&'static str, String)> = Vec::new();
    f.push(("id", u64_to_decimal(frame_id)));
    f.push(("ts_ns", u64_to_decimal(ts_ns)));
    f.push(("rects", u64_to_decimal(rects)));
    f.push(("bytes", u64_to_decimal(bytes)));
    f.push(("gen_us", u64_to_decimal(gen_us)));
    f.push(("send_us", u64_to_decimal(send_us)));
    f
}

/// The counters behind the once-a-second summary: totals since start, and
/// the frames and bytes of the current window with the time it started
/// (nanoseconds on one monotonic clock).
#[derive(Debug, Clone, Copy, PartialEq, Eq, Structural)]
pub struct FrameCounters {
    pub frames: u64,
    pub bytes: u64,
    pub window_frames: u64,
    pub window_bytes: u64,
    pub window_start_ns: u64,
}

/// A window that lasted a second or more: its frames, bytes and length,
/// with the totals so far.
#[derive(Debug, Clone, Copy, PartialEq, Eq, Structural)]
pub struct WindowSummary {
    pub frames: u64,
    pub bytes: u64,
    pub window_frames: u64,
    pub window_bytes: u64,
    pub elapsed_ns: u64,
}

/// One second, in nanoseconds.
pub const SECOND_NS: u64 = 1_000_000_000u64;

impl FrameCounters {
    /// No frames yet; the window starts at `now_ns`.
    pub fn new(now_ns: u64) -> (c: FrameCounters)
        ensures
            c == (FrameCounters {
                frames: 0,
                bytes: 0,
                window_frames: 0,
                window_bytes: 0,
                window_start_ns: now_ns,
            }),
    {
        FrameCounters { frames: 0, bytes: 0, window_frames: 0, window_bytes: 0, window_start_ns: now_ns }
    }

    /// Counts a frame of `bytes` payload bytes at `now_ns`. When the window
    /// has then lasted a second or more, its summary is returned (the caller
    /// reports it and starts the next window).
    pub fn note_frame(&mut self, bytes: u64, now_ns: u64) -> (s: Option<WindowSummary>)
        requires
            old(self).frames < u64::MAX,
            old(self).bytes + bytes <= u64::MAX,
            old(self).window_frames < u64::MAX,
            old(self).window_bytes + bytes <= u64::MAX,
            old(self).window_start_ns <= now_ns,
        ensures
            *final(self) == (FrameCounters {
                frames: (old(self).frames + 1) as u64,
                bytes: (old(self).bytes + bytes) as u64,
                window_frames: (old(self).window_frames + 1) as u64,
                window_bytes: (old(self).window_bytes + bytes) as u64,
                window_start_ns: old(self).window_start_ns,
            }),
            s == (if now_ns - old(self).window_start_ns >= SECOND_NS {
                Some(
                    WindowSummary {
                        frames: final(self).frames,
                        bytes: final(self).bytes,
                        window_frames: final(self).window_frames,
                        window_bytes: final(self).window_bytes,
                        elapsed_ns: (now_ns - old(self).window_start_ns) as u64,
                    },
                )
            } else {
                None
            }),
    {
        self.frames = self.frames + 1;
        self.bytes = self.bytes + bytes;
        self.window_frames = self.window_frames + 1;
        self.window_bytes = self.window_bytes + bytes;
        let elapsed = now_ns - self.window_start_ns;
        if elapsed >= SECOND_NS {
            Some(
                WindowSummary {
                    frames: self.frames,
                    bytes: self.bytes,
                    window_frames: self.window_frames,
                    window_bytes: self.window_bytes,
                    elapsed_ns: elapsed,
                },
            )
        } else {
            None
        }
    }

    /// Starts a new, empty window at `now_ns`; the totals stay.
    pub fn start_window(&mut self, now_ns: u64)
        ensures
            *final(self) == (FrameCounters {
                window_frames: 0,
                window_bytes: 0,
                window_start_ns: now_ns,
                ..*old(self)
            }),
    {
        self.window_frames = 0;
        self.window_bytes = 0;
        self.window_start_ns = now_ns;
    }
}

/// What a benchmark run of the frame source produced: frames, how many of
/// them were full frames, and their payload and wire bytes.
#[derive(Debug, Clone, Copy, PartialEq, Eq, Structural)]
pub struct FrameTotals {
    pub frames: u64,
    pub full_frames: u64,
    pub payload_bytes: u64,
    pub wire_bytes: u64,
}

impl FrameTotals {
    /// Full frames are among the frames counted.
    pub open spec fn wf(self) -> bool {
        self.full_frames <= self.frames
    }

    /// Nothing produced yet.
    pub fn new() -> (t: FrameTotals)
        ensures
            t == (FrameTotals { frames: 0, full_frames: 0, payload_bytes: 0, wire_bytes: 0 }),
            t.wf(),
    {
        FrameTotals { frames: 0, full_frames: 0, payload_bytes: 0, wire_bytes: 0 }
    }

    /// Whether one more frame of `payload` payload bytes and `wire` wire
    /// bytes can be counted without a total overflowing.
    pub fn fits(&self, payload: u64, wire: u64) -> (b: bool)
        ensures
            b == (self.frames < u64::MAX && self.payload_bytes + payload <= u64::MAX
                && self.wire_bytes + wire <= u64::MAX),
    {
        self.frames < u64::MAX && payload <= u64::MAX - self.payload_bytes && wire <= u64::MAX
            - self.wire_bytes
    }

    /// Counts a frame of `payload` payload bytes sent as `wire` wire bytes,
    /// a full frame when `full`.
    pub fn record(&mut self, payload: u64, wire: u64, full: bool)
        requires
            old(self).wf(),
            old(self).frames < u64::MAX,
            old(self).payload_bytes + payload <= u64::MAX,
            old(self).wire_bytes + wire <= u64::MAX,
        ensures
            final(self).wf(),
            *final(self) == (FrameTotals {
                frames: (old(self).frames + 1) as u64,
                full_frames: (old(self).full_frames + if full {
                    1int
                } else {
                    0int
                }) as u64,
                payload_bytes: (old(self).payload_bytes + payload) as u64,
                wire_bytes: (old(self).wire_bytes + wire) as u64,
            }),
    {
        self.frames = self.frames + 1;
        if full {
            self.full_frames = self.full_frames + 1;
        }
        self.payload_bytes = self.payload_bytes + payload;
        self.wire_bytes = self.wire_bytes + wire;
    }

    /// The frames that carried damage regions only.
    pub fn damage_frames(&self) -> (n: u64)
        requires
            self.wf(),
        ensures
            n == self.frames - self.full_frames,
    {
        self.frames - self.full_frames
    }
}

} // verus!
