//! The GNOME virtual-monitor backend: what a mutter ScreenCast session is
//! asked for, and the framing of the frames its PipeWire grabber hands over.
//! The D-Bus calls and the grabber process are the host program's.

use vstd::prelude::*;

pub mod cursor;
pub mod source;

verus! {

/// Parameters for a virtual-monitor ScreenCast session.
#[derive(Debug, Clone)]
pub struct SessionConfig {
    pub width: u16,
    pub height: u16,
    pub fps: u32,
    /// Treat as a real platform monitor (not a "share this screen" stream).
    pub is_platform: bool,
    pub cursor_mode: u32,
}

impl Default for SessionConfig {
    /// A 1600 × 900 platform monitor at 60 fps with the cursor embedded.
    fn default() -> (c: SessionConfig)
        ensures
            c.width == 1600 && c.height == 900 && c.fps == 60 && c.is_platform
                && c.cursor_mode == cursor::EMBEDDED,
    {
        SessionConfig {
            width: 1600,
            height: 900,
            fps: 60,
            is_platform: true,
            cursor_mode: cursor::EMBEDDED,
        }
    }
}

/// A property of a `RecordVirtual` call.
#[derive(Debug, Clone, Copy, PartialEq, Eq, Structural)]
pub enum StreamProp {
    /// `cursor-mode`, a `u32`.
    CursorMode(u32),
    /// `is-platform`, a boolean.
    IsPlatform(bool),
}

/// The properties `RecordVirtual` is called with: the cursor mode, and
/// `is-platform` set when the monitor is to act as a real one.
pub open spec fn spec_record_virtual_props(cfg: SessionConfig) -> Seq<(Seq<char>, StreamProp)> {
    let base = seq![("cursor-mode"@, StreamProp::CursorMode(cfg.cursor_mode))];
    if cfg.is_platform {
        base.push(("is-platform"@, StreamProp::IsPlatform(true)))
    } else {
        base
    }
}

/// The properties of a `RecordVirtual` call for `cfg`, by name.
pub fn record_virtual_props(cfg: &SessionConfig) -> (p: Vec<(&'static str, StreamProp)>)
    ensures
        p@.map_values(|e: (&'static str, StreamProp)| (e.0@, e.1)) == spec_record_virtual_props(*cfg),
{
    let mut p: Vec<(&'static str, StreamProp)> = Vec::new();
    p.push(("cursor-mode", StreamProp::CursorMode(cfg.cursor_mode)));
    if cfg.is_platform {
        p.push(("is-platform", StreamProp::IsPlatform(true)));
    }
    assert(p@.map_values(|e: (&'static str, StreamProp)| (e.0@, e.1)) =~= spec_record_virtual_props(*cfg));
    p
}

} // verus!
