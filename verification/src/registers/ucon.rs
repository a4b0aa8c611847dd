//! Bits of the control register.

use vstd::prelude::*;

verus! {

pub const RXMODE_MASK: u32 = 0x3;

pub const RXMODE_CPU: u32 = 0x1;

pub const TXMODE_MASK: u32 = 0xc;

pub const TXMODE_CPU: u32 = 0x4;

/// A port with neither mode selected is unconfigured and cannot transmit or
/// receive.
pub const MODE_MASK: u32 = 0xf;

pub const RXERR_IRQEN: u32 = 0x40;

/// Called RXFIFO_TOI on S3C2410 and TIMEOUT_EN on S3C64xx.
pub const RX_TIMEOUT_EN: u32 = 0x80;

pub const RXINT_LEVEL: u32 = 0x100;

pub const TXINT_LEVEL: u32 = 0x200;

pub const DMASUS_EN: u32 = 0x400;

pub const EMPTYINT_EN: u32 = 0x800;

pub const RX_TIMEOUT_MASK: u32 = 0xf000;

/// Longest receive timeout window, as programmed by Linux.
pub const RX_TIMEOUT_MAX: u32 = 0xf000;

pub const CLKSEL_S3C6400_MASK: u32 = 0xc00;

pub const CLKSEL_S5PV210_MASK: u32 = 0x400;

// Apple S5L repurposes bits 9-13 as interrupt enables.

pub const APPLE_RXTO_EN: u32 = 0x200;

pub const APPLE_RXTO_LEGACY_EN: u32 = 0x800;

pub const APPLE_RXTHRESH_EN: u32 = 0x1000;

} // verus!
