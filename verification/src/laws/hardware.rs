//! The registers and how they are accessed.

use vstd::prelude::*;

use crate::model::Port;
use crate::program::Request;
use crate::registers::reg;

verus! {

/// Where the registers are.
pub proof fn law_register_map()
    ensures
        reg::ULCON == 0x00,
        reg::UCON == 0x04,
        reg::UFCON == 0x08,
        reg::UMCON == 0x0c,
        reg::UTRSTAT == 0x10,
        reg::UERSTAT == 0x14,
        reg::UFSTAT == 0x18,
        reg::UTXH == 0x20,
        reg::URXH == 0x24,
        reg::UBRDIV == 0x28,
        reg::UFRACVAL == 0x2c,
        reg::UINTP == 0x30,
        reg::UINTSP == 0x34,
        reg::UINTM == 0x38,
        reg::BLOCK_SIZE == 0x3c,
{
}

/// Control registers are accessed with 32 bits at their place in the block.
/// Characters are read from URXH and written to UTXH, with 32 bits or with
/// eight as the variant asks for.
pub proof fn law_requests_reach_their_register(port: Port, register: usize, data: u32, byte: u8)
    requires
        port.valid(),
        register < 0x3c,
    ensures
        port.read_reg(register) == (Request::Read32 { address: (port.base + register) as usize }),
        port.write_reg(register, data) == (Request::Write32 {
            address: (port.base + register) as usize,
            data,
        }),
        port.read_data() == if port.variant.wide_data {
            Request::Read32 { address: (port.base + 0x24) as usize }
        } else {
            Request::Read8 { address: (port.base + 0x24) as usize }
        },
        port.write_data(byte) == if port.variant.wide_data {
            Request::Write32 { address: (port.base + 0x20) as usize, data: byte as u32 }
        } else {
            Request::Write8 { address: (port.base + 0x20) as usize, byte }
        },
{
}

} // verus!
