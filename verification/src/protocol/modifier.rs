//! Style modifier bits. The values match ratatui's `Modifier` bitflags so the
//! backend can map them directly; they are protocol, not ABI.

use vstd::prelude::*;

verus! {

pub const BOLD: u16 = 1;
pub const DIM: u16 = 2;
pub const ITALIC: u16 = 4;
pub const UNDERLINED: u16 = 8;
pub const SLOW_BLINK: u16 = 16;
pub const RAPID_BLINK: u16 = 32;
pub const REVERSED: u16 = 64;
pub const HIDDEN: u16 = 128;
pub const CROSSED_OUT: u16 = 256;

/// Every modifier bit the protocol defines.
pub const ALL: u16 = 511;

} // verus!
