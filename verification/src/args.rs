//! Command-line interface of the host: what the options mean and which
//! combinations are accepted.

use vstd::prelude::*;
use crate::text::{concat, owned, same_text};

verus! {

/// What the host process does.
#[derive(Debug, Clone, Copy, PartialEq, Eq, Structural)]
pub enum Mode {
    /// Serve clients over TCP.
    Serve,
    /// Run the frame-production benchmark; no network.
    SelfTest,
}

/// Parsed command line.
#[derive(Debug, Clone)]
pub struct Args {
    pub mode: Mode,
    pub source: String,
    pub bind: String,
    pub port: u16,
    pub width: u16,
    pub height: u16,
    pub fps: u32,
    pub full_every_secs: u64,
    pub stats: Option<String>,
    pub frame_ack: bool,
    pub frames: u32,
}

#[verifier::ext_equal]
pub struct ArgsView {
    pub mode: Mode,
    pub source: Seq<char>,
    pub bind: Seq<char>,
    pub port: u16,
    pub width: u16,
    pub height: u16,
    pub fps: u32,
    pub full_every_secs: u64,
    pub stats: Option<Seq<char>>,
    pub frame_ack: bool,
    pub frames: u32,
}

impl View for Args {
    type V = ArgsView;

    open spec fn view(&self) -> ArgsView {
        ArgsView {
            mode: self.mode,
            source: self.source@,
            bind: self.bind@,
            port: self.port,
            width: self.width,
            height: self.height,
            fps: self.fps,
            full_every_secs: self.full_every_secs,
            stats: match self.stats {
                Some(s) => Some(s@),
                None => None,
            },
            frame_ack: self.frame_ack,
            frames: self.frames,
        }
    }
}

/// The help text.
pub const USAGE: &'static str = "usbra-host \u{2014} USBra host (a real second display for Linux, over USB)

USAGE: usbra-host [OPTIONS]

  --source <name>        frame source: test (animated damage pattern).
                         'gnome' (mutter RecordVirtual) and 'evdi' land in M6.
  --bind <addr>          listen address (default 127.0.0.1 \u{2014} loopback only)
  --port <n>             TCP port (default 8899; 0 = ephemeral)
  --width <n>            virtual display width in px (default 1600)
  --height <n>           virtual display height in px (default 900)
  --fps <n>              target fps (default 60)
  --full-frame-every <s> full-frame resync interval in seconds (default 2; 0=off)
  --stats <file>         write JSONL event log
  --frame-ack            ask client for FRAME_ACK (latency instrumentation)
  --selftest             benchmark frame production; no network, no phone
  --frames <n>           selftest frame count (default 600)
  -h, --help             this help

Typical demo run (with scripts/adb-usb-setup.sh active):
  usbra-host --source test --stats /tmp/usbra.jsonl --frame-ack
";

/// The value of a non-empty string of ASCII decimal digits.
pub open spec fn digits_value(d: Seq<char>) -> nat
    decreases d.len(),
{
    if d.len() == 0 {
        0
    } else {
        digits_value(d.drop_last()) * 10 + (d.last() as nat - 48) as nat
    }
}

pub open spec fn is_digit(c: char) -> bool {
    '0' <= c <= '9'
}

/// The digits of `s` once an optional leading `+` is set aside.
pub open spec fn digit_part(s: Seq<char>) -> Seq<char> {
    if s.len() > 0 && s[0] == '+' {
        s.drop_first()
    } else {
        s
    }
}

/// An unsigned decimal as Rust's integer `FromStr` reads it: an optional
/// leading `+`, then one or more ASCII digits, nothing else.
pub open spec fn spec_parse_uint(s: Seq<char>) -> Option<nat> {
    let d = digit_part(s);
    if d.len() > 0 && forall|i: int| 0 <= i < d.len() ==> is_digit(#[trigger] d[i]) {
        Some(digits_value(d))
    } else {
        None
    }
}

/// The unsigned decimal `s`, if it is one and at most `max`.
pub open spec fn parse_bounded(s: Seq<char>, max: nat) -> Option<nat> {
    match spec_parse_uint(s) {
        Some(n) => if n <= max {
            Some(n)
        } else {
            None
        },
        None => None,
    }
}

/// A decimal with one more digit is worth ten times as much plus that
/// digit, so it is at least as large.
proof fn lemma_digits_push(d: Seq<char>, c: char)
    ensures
        digits_value(d.push(c)) == digits_value(d) * 10 + (c as nat - 48) as nat,
{
    assert(d.push(c).drop_last() =~= d);
}

/// The unsigned decimal `s` when it is one and at most `max`, read as
/// Rust's integer `FromStr` reads it.
fn parse_uint(s: &str, max: u64) -> (r: Option<u64>)
    ensures
        r == (match parse_bounded(s@, max as nat) {
            Some(n) => Some(n as u64),
            None => None::<u64>,
        }),
{
    let ghost chars = s@;
    let mut acc: u64 = 0;
    let mut any_digit = false;
    let mut ok = true;
    let mut over = false;
    let mut first = true;
    for c in it: s.chars()
        invariant
            chars == s@,
            it.seq() == chars,
            first == (it.index() == 0),
            any_digit == (digit_part(chars.take(it.index() as int)).len() > 0),
            ok == (forall|k: int|
                0 <= k < digit_part(chars.take(it.index() as int)).len() ==> is_digit(
                    #[trigger] digit_part(chars.take(it.index() as int))[k],
                )),
            ok && !over ==> acc == digits_value(digit_part(chars.take(it.index() as int))) && acc
                <= max,
            ok && over ==> digits_value(digit_part(chars.take(it.index() as int))) > max,
    {
        let ghost i = it.index() as int;
        let ghost p = chars.take(i);
        let ghost q = chars.take(i + 1);
        let ghost dp = digit_part(p);
        let ghost ok0 = ok;
        assert(q =~= p.push(c));
        assert(c == chars[i]);
        if first && c == '+' {
            assert(digit_part(q) =~= Seq::<char>::empty());
        } else {
            proof {
                if i == 0 {
                    assert(dp =~= Seq::<char>::empty());
                } else {
                    assert(q[0] == p[0]);
                }
                assert(digit_part(q) =~= dp.push(c));
                lemma_digits_push(dp, c);
            }
            any_digit = true;
            if '0' <= c && c <= '9' {
                if ok && !over {
                    let d = (c as u32 - 48) as u64;
                    if acc as u128 * 10 + d as u128 <= max as u128 {
                        acc = acc * 10 + d;
                    } else {
                        over = true;
                    }
                }
            } else {
                ok = false;
            }
            proof {
                let dq = digit_part(q);
                assert(dq[dp.len() as int] == c);
                assert forall|k: int| 0 <= k < dp.len() implies dq[k] == dp[k] by {}
                if !ok0 {
                    let k = choose|k: int| 0 <= k < dp.len() && !is_digit(#[trigger] dp[k]);
                    assert(!is_digit(dq[k]));
                }
                if !is_digit(c) {
                    assert(!is_digit(dq[dp.len() as int]));
                }
            }
        }
        first = false;
    }
    assert(chars.take(chars.len() as int) =~= chars);
    if !ok || !any_digit || over {
        None
    } else {
        Some(acc)
    }
}

/// `str::parse::<u16>`: the decimal value of `s` when it is an unsigned
/// decimal within range.
fn parse_u16(s: &str) -> (r: Option<u16>)
    ensures
        r == (match parse_bounded(s@, u16::MAX as nat) {
            Some(n) => Some(n as u16),
            None => None::<u16>,
        }),
{
    match parse_uint(s, u16::MAX as u64) {
        Some(n) => Some(n as u16),
        None => None,
    }
}

/// `str::parse::<u32>`: as `parse_u16`, for `u32`.
fn parse_u32(s: &str) -> (r: Option<u32>)
    ensures
        r == (match parse_bounded(s@, u32::MAX as nat) {
            Some(n) => Some(n as u32),
            None => None::<u32>,
        }),
{
    match parse_uint(s, u32::MAX as u64) {
        Some(n) => Some(n as u32),
        None => None,
    }
}

/// `str::parse::<u64>`: as `parse_u16`, for `u64`.
fn parse_u64(s: &str) -> (r: Option<u64>)
    ensures
        r == (match parse_bounded(s@, u64::MAX as nat) {
            Some(n) => Some(n as u64),
            None => None::<u64>,
        }),
{
    parse_uint(s, u64::MAX)
}

/// The `Debug` rendering of a string: quoted, with escapes.
pub uninterp spec fn debug_text(s: Seq<char>) -> Seq<char>;

/// `format!("{:?}", s)` for a string.
#[verifier::external_body]
fn debug_quoted(s: &str) -> (r: String)
    ensures
        r@ == debug_text(s@),
{
    format!("{s:?}")
}

/// The defaults before any option is applied.
pub open spec fn default_args() -> ArgsView {
    ArgsView {
        mode: Mode::Serve,
        source: "test"@,
        bind: "127.0.0.1"@,
        port: 8899,
        width: 1600,
        height: 900,
        fps: 60,
        full_every_secs: 2,
        stats: None,
        frame_ack: false,
        frames: 600,
    }
}

/// The options that take a value.
pub open spec fn takes_value(arg: Seq<char>) -> bool {
    arg == "--source"@ || arg == "--bind"@ || arg == "--port"@ || arg == "--width"@ || arg
        == "--height"@ || arg == "--fps"@ || arg == "--full-frame-every"@ || arg == "--stats"@
        || arg == "--frames"@
}

/// The error for an option value that is not a valid number.
pub open spec fn invalid_value(name: Seq<char>, v: Seq<char>) -> Seq<char> {
    name + ": invalid value "@ + debug_text(v)
}

/// Applies option `arg` with value `v`.
pub open spec fn apply_value(a: ArgsView, arg: Seq<char>, v: Seq<char>) -> Result<
    ArgsView,
    Seq<char>,
> {
    if arg == "--source"@ {
        Ok(ArgsView { source: v, ..a })
    } else if arg == "--bind"@ {
        Ok(ArgsView { bind: v, ..a })
    } else if arg == "--stats"@ {
        Ok(ArgsView { stats: Some(v), ..a })
    } else if arg == "--port"@ || arg == "--width"@ || arg == "--height"@ {
        match parse_bounded(v, u16::MAX as nat) {
            None => Err(invalid_value(arg, v)),
            Some(n) => if arg == "--port"@ {
                Ok(ArgsView { port: n as u16, ..a })
            } else if arg == "--width"@ {
                Ok(ArgsView { width: n as u16, ..a })
            } else {
                Ok(ArgsView { height: n as u16, ..a })
            },
        }
    } else if arg == "--fps"@ || arg == "--frames"@ {
        match parse_bounded(v, u32::MAX as nat) {
            None => Err(invalid_value(arg, v)),
            Some(n) => if arg == "--fps"@ {
                Ok(ArgsView { fps: n as u32, ..a })
            } else {
                Ok(ArgsView { frames: n as u32, ..a })
            },
        }
    } else {
        match parse_bounded(v, u64::MAX as nat) {
            None => Err(invalid_value(arg, v)),
            Some(n) => Ok(ArgsView { full_every_secs: n as u64, ..a }),
        }
    }
}

/// The checks made once every option is applied.
pub open spec fn finish(a: ArgsView) -> Result<ArgsView, Seq<char>> {
    if a.source != "test"@ && a.source != "gnome"@ {
        Err(
            "source '"@ + a.source
                + "' is not available yet \u{2014} the gnome/evdi backends land in M6; use --source test"@,
        )
    } else if a.width == 0 || a.height == 0 || a.width > 8192 || a.height > 8192 {
        Err("width/height must be within 1..=8192"@)
    } else if a.fps == 0 || a.fps > 240 {
        Err("fps must be within 1..=240"@)
    } else if a.frames == 0 {
        Ok(ArgsView { frames: 1, ..a })
    } else {
        Ok(a)
    }
}

/// Scans `argv` from position `i` with options so far `a`. Help yields the
/// empty error.
pub open spec fn scan(argv: Seq<Seq<char>>, i: int, a: ArgsView) -> Result<ArgsView, Seq<char>>
    decreases argv.len() - i,
{
    if i < 0 || i >= argv.len() {
        finish(a)
    } else {
        let arg = argv[i];
        if arg == "-h"@ || arg == "--help"@ {
            Err(Seq::empty())
        } else if arg == "--selftest"@ {
            scan(argv, i + 1, ArgsView { mode: Mode::SelfTest, ..a })
        } else if arg == "--frame-ack"@ {
            scan(argv, i + 1, ArgsView { frame_ack: true, ..a })
        } else if takes_value(arg) {
            if i + 1 >= argv.len() {
                Err(arg + " requires a value"@)
            } else {
                match apply_value(a, arg, argv[i + 1]) {
                    Err(e) => Err(e),
                    Ok(a2) => scan(argv, i + 2, a2),
                }
            }
        } else {
            Err("unknown argument: "@ + arg)
        }
    }
}

/// What the command line `argv` (without the program name) means.
pub open spec fn spec_parse(argv: Seq<Seq<char>>) -> Result<ArgsView, Seq<char>> {
    scan(argv, 0, default_args())
}

/// The characters of each argument.
pub open spec fn argv_view(argv: Seq<String>) -> Seq<Seq<char>> {
    argv.map_values(|s: String| s@)
}

/// A parse outcome, taken by its view.
pub open spec fn parse_view(r: Result<Args, String>) -> Result<ArgsView, Seq<char>> {
    match r {
        Ok(a) => Ok(a@),
        Err(e) => Err(e@),
    }
}

/// An accepted configuration: the test or GNOME source, a display of 1..=8192
/// pixels each way, 1..=240 fps, at least one selftest frame.
pub open spec fn accepted(a: ArgsView) -> bool {
    &&& (a.source == "test"@ || a.source == "gnome"@)
    &&& 1 <= a.width <= 8192
    &&& 1 <= a.height <= 8192
    &&& 1 <= a.fps <= 240
    &&& a.frames >= 1
}

/// Every command line that parses yields an accepted configuration.
pub proof fn lemma_parsed_args_accepted(argv: Seq<Seq<char>>)
    ensures
        spec_parse(argv) matches Ok(a) ==> accepted(a),
{
    lemma_scan_accepted(argv, 0, default_args());
}

/// Scanning from any position ends, when it succeeds, in an accepted
/// configuration.
proof fn lemma_scan_accepted(argv: Seq<Seq<char>>, i: int, a: ArgsView)
    ensures
        scan(argv, i, a) matches Ok(r) ==> accepted(r),
    decreases argv.len() - i,
{
    reveal_strlit("test");
    if 0 <= i < argv.len() {
        let arg = argv[i];
        if arg == "-h"@ || arg == "--help"@ {
        } else if arg == "--selftest"@ {
            lemma_scan_accepted(argv, i + 1, ArgsView { mode: Mode::SelfTest, ..a });
        } else if arg == "--frame-ack"@ {
            lemma_scan_accepted(argv, i + 1, ArgsView { frame_ack: true, ..a });
        } else if takes_value(arg) && i + 1 < argv.len() {
            if let Ok(a2) = apply_value(a, arg, argv[i + 1]) {
                lemma_scan_accepted(argv, i + 2, a2);
            }
        }
    }
}

/// Applies option `arg` with value `v` to `a`.
fn apply(a: &mut Args, arg: &str, v: &str) -> (r: Result<(), String>)
    requires
        takes_value(arg@),
    ensures
        match apply_value(old(a)@, arg@, v@) {
            Ok(a2) => r is Ok && final(a)@ == a2,
            Err(e) => r matches Err(m) && m@ == e,
        },
{
    if same_text(arg, "--source") {
        a.source = owned(v);
    } else if same_text(arg, "--bind") {
        a.bind = owned(v);
    } else if same_text(arg, "--stats") {
        a.stats = Some(owned(v));
    } else if same_text(arg, "--port") || same_text(arg, "--width") || same_text(arg, "--height") {
        match parse_u16(v) {
            None => return Err(invalid_value_message(arg, v)),
            Some(n) => {
                if same_text(arg, "--port") {
                    a.port = n;
                } else if same_text(arg, "--width") {
                    a.width = n;
                } else {
                    a.height = n;
                }
            },
        }
    } else if same_text(arg, "--fps") || same_text(arg, "--frames") {
        match parse_u32(v) {
            None => return Err(invalid_value_message(arg, v)),
            Some(n) => {
                if same_text(arg, "--fps") {
                    a.fps = n;
                } else {
                    a.frames = n;
                }
            },
        }
    } else {
        match parse_u64(v) {
            None => return Err(invalid_value_message(arg, v)),
            Some(n) => {
                a.full_every_secs = n;
            },
        }
    }
    assert(apply_value(old(a)@, arg@, v@) == Ok::<ArgsView, Seq<char>>(a@));
    Ok(())
}

fn invalid_value_message(name: &str, v: &str) -> (m: String)
    ensures
        m@ == invalid_value(name@, v@),
{
    let head = concat(name, ": invalid value ");
    concat(head.as_str(), debug_quoted(v).as_str())
}

/// Whether `arg` is an option that takes a value.
fn is_value_option(arg: &str) -> (b: bool)
    ensures
        b == takes_value(arg@),
{
    same_text(arg, "--source") || same_text(arg, "--bind") || same_text(arg, "--port")
        || same_text(arg, "--width") || same_text(arg, "--height") || same_text(arg, "--fps")
        || same_text(arg, "--full-frame-every") || same_text(arg, "--stats") || same_text(
        arg,
        "--frames",
    )
}

fn check(a: Args) -> (r: Result<Args, String>)
    ensures
        parse_view(r) == finish(a@),
{
    let mut a = a;
    if !same_text(a.source.as_str(), "test") && !same_text(a.source.as_str(), "gnome") {
        let head = concat("source '", a.source.as_str());
        return Err(
            concat(
                head.as_str(),
                "' is not available yet \u{2014} the gnome/evdi backends land in M6; use --source test",
            ),
        );
    }
    if a.width == 0 || a.height == 0 || a.width > 8192 || a.height > 8192 {
        return Err(owned("width/height must be within 1..=8192"));
    }
    if a.fps == 0 || a.fps > 240 {
        return Err(owned("fps must be within 1..=240"));
    }
    if a.frames == 0 {
        a.frames = 1;
    }
    Ok(a)
}

/// Parses the command line (without the program name). `Err` with an empty
/// message means help was asked for; other errors explain the problem.
pub fn parse(argv: &[String]) -> (r: Result<Args, String>)
    ensures
        parse_view(r) == spec_parse(argv_view(argv@)),
{
    let mut a = Args {
        mode: Mode::Serve,
        source: owned("test"),
        bind: owned("127.0.0.1"),
        port: 8899,
        width: 1600,
        height: 900,
        fps: 60,
        full_every_secs: 2,
        stats: None,
        frame_ack: false,
        frames: 600,
    };
    let ghost av = argv_view(argv@);
    assert(a@ =~= default_args());
    let mut i: usize = 0;
    while i < argv.len()
        invariant
            av == argv_view(argv@),
            av.len() == argv@.len(),
            i <= argv@.len(),
            spec_parse(av) == scan(av, i as int, a@),
        decreases argv@.len() - i,
    {
        let arg = argv[i].as_str();
        assert(arg@ == av[i as int]);
        if same_text(arg, "-h") || same_text(arg, "--help") {
            return Err(String::new());
        } else if same_text(arg, "--selftest") {
            a.mode = Mode::SelfTest;
            i = i + 1;
        } else if same_text(arg, "--frame-ack") {
            a.frame_ack = true;
            i = i + 1;
        } else if is_value_option(arg) {
            if i + 1 >= argv.len() {
                return Err(concat(arg, " requires a value"));
            }
            let v = argv[i + 1].as_str();
            assert(v@ == av[i + 1]);
            apply(&mut a, arg, v)?;
            i = i + 2;
        } else {
            return Err(concat("unknown argument: ", arg));
        }
    }
    check(a)
}

} // verus!
