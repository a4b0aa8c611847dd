//! Bits of the modem control register.

use vstd::prelude::*;

verus! {

pub const AUTO_FLOW: u32 = 0x10;

} // verus!
