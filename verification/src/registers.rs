//! The register block.
//!
//! Registers are read-modify-written as raw `u32` values since several
//! fields (clock select, Apple interrupt enables) are variant-specific and
//! must be preserved rather than declared globally.

pub mod reg;
pub mod ucon;
pub mod uerstat;
pub mod ufcon;
pub mod uint;
pub mod ulcon;
pub mod umcon;
pub mod utrstat;
