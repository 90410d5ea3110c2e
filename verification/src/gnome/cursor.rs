//! Cursor modes of mutter ScreenCast streams (the portal's numbering).

use vstd::prelude::*;

verus! {

/// The cursor is not drawn.
pub const HIDDEN: u32 = 0u32;

/// The cursor is drawn into the frames.
pub const EMBEDDED: u32 = 1u32;

/// The cursor is sent as metadata beside the frames.
pub const METADATA: u32 = 2u32;

} // verus!
