//! Bits of the line control register.

use vstd::prelude::*;

verus! {

/// 8 data bits, 1 stop bit, no parity.
pub const CS8: u32 = 0x3;

} // verus!
