//! Bits of the FIFO control register.

use vstd::prelude::*;

verus! {

pub const FIFO_EN: u32 = 0x1;

pub const RX_RESET: u32 = 0x2;

/// Self-clearing once the FIFO reset completes.
pub const RESET_BOTH: u32 = 0x6;

pub const S3C2410_RXTRIG8: u32 = 0x10;

pub const S5PV210_RXTRIG4: u32 = 0x10;

pub const S5PV210_RXTRIG8: u32 = 0x20;

pub const S5PV210_TXTRIG4: u32 = 0x100;

} // verus!
