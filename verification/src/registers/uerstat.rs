//! Bits of the error status register.

use vstd::prelude::*;

verus! {

pub const OVERRUN: u32 = 0x1;

pub const PARITY: u32 = 0x2;

pub const FRAME: u32 = 0x4;

pub const BREAK: u32 = 0x8;

pub const ANY: u32 = OVERRUN | PARITY | FRAME | BREAK;

} // verus!
