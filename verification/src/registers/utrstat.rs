//! Bits of the transfer status register.

use vstd::prelude::*;

verus! {

pub const RX_READY: u32 = 0x1;

/// Transmit buffer and shifter both empty.
pub const TX_EMPTY: u32 = 0x4;

pub const APPLE_RXTO_LEGACY: u32 = 0x8;

pub const APPLE_RXTHRESH: u32 = 0x10;

pub const APPLE_RXTO: u32 = 0x200;

/// All Apple S5L interrupt flags (bits 9:3), write 1 to clear.
pub const APPLE_ALL_FLAGS: u32 = 0x3f8;

/// The flags that stand for received characters.
pub const APPLE_RX_FLAGS: u32 = APPLE_RXTHRESH | APPLE_RXTO | APPLE_RXTO_LEGACY;

} // verus!
