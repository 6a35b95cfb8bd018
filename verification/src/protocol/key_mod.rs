//! Keyboard modifier bits carried by key and mouse events.

use vstd::prelude::*;

verus! {

pub const SHIFT: u8 = 1;
pub const CONTROL: u8 = 2;
pub const ALT: u8 = 4;

} // verus!
