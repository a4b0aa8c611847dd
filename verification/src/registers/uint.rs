//! Bits of the S3C64xx-style interrupt registers.

use vstd::prelude::*;

verus! {

pub const RXD: u32 = 0x1;

pub const ALL: u32 = 0xf;

} // verus!
