//! Register offsets shared by all Samsung UART generations.
//!
//! Control registers are always 32 bits wide; only the access width of UTXH
//! and URXH varies per variant (see `Variant::wide_data`).

use vstd::prelude::*;

verus! {

pub const ULCON: usize = 0x00;

pub const UCON: usize = 0x04;

pub const UFCON: usize = 0x08;

pub const UMCON: usize = 0x0c;

pub const UTRSTAT: usize = 0x10;

pub const UERSTAT: usize = 0x14;

pub const UFSTAT: usize = 0x18;

pub const UTXH: usize = 0x20;

pub const URXH: usize = 0x24;

pub const UBRDIV: usize = 0x28;

/// UDIVSLOT on S3C6400/S5PV210, UFRACVAL on Exynos and newer.
pub const UFRACVAL: usize = 0x2c;

/// S3C64xx-style interrupt pending, write 1 to clear.
pub const UINTP: usize = 0x30;

/// S3C64xx-style interrupt source pending, write 1 to clear.
pub const UINTSP: usize = 0x34;

/// S3C64xx-style interrupt mask, 1 masks the source.
pub const UINTM: usize = 0x38;

/// Number of bytes that the register block spans.
pub const BLOCK_SIZE: usize = 0x3c;

} // verus!
