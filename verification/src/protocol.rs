//! Wire-level protocol constants and address packing for the MR2xH40 MRAM chip.
//!
//! Every chip command is a single opcode byte; read and write commands are
//! followed by a 3-byte big-endian address.

use vstd::prelude::*;

verus! {

/// Total memory capacity in bits.
pub const CAPACITY_BITS: u32 = 4_194_304;

/// Total memory capacity in bytes.
pub const CAPACITY_BYTES: u32 = 524_288;

/// Addressable word width in bits.
pub const WORD_SIZE_BITS: u8 = 8;

/// Number of address bytes in read and write instructions.
pub const ADDRESS_BYTES: usize = 3;

/// Opcode: set the write-enable latch.
pub const CMD_WREN: u8 = 0x06;

/// Opcode: clear the write-enable latch.
pub const CMD_WRDI: u8 = 0x04;

/// Opcode: read the status register.
pub const CMD_RDSR: u8 = 0x05;

/// Opcode: write the status register.
pub const CMD_WRSR: u8 = 0x01;

/// Opcode: read memory.
pub const CMD_READ: u8 = 0x03;

/// Opcode: write memory.
pub const CMD_WRITE: u8 = 0x02;

/// Opcode: enter sleep mode.
pub const CMD_SLEEP: u8 = 0xB9;

/// Opcode: leave sleep mode.
pub const CMD_WAKE: u8 = 0xAB;

/// Status-register bit: the write-enable latch (WEL) is armed.
pub const STATUS_WEL: u8 = 0b0000_0010;

/// The four bytes of a command-plus-address header: the opcode followed by
/// the 24-bit address, most significant byte first.
pub open spec fn spec_command_address_header(command: u8, offset: u32) -> Seq<u8> {
    seq![
        command,
        ((offset >> 16) & 0xFF) as u8,
        ((offset >> 8) & 0xFF) as u8,
        (offset & 0xFF) as u8,
    ]
}

/// Packs a command opcode and a byte offset into the header the chip expects.
pub fn command_address_header(command: u8, offset: u32) -> (header: [u8; 4])
    ensures
        header@ == spec_command_address_header(command, offset),
{
    let header: [u8; 4] = [
        command,
        ((offset >> 16) & 0xFF) as u8,
        ((offset >> 8) & 0xFF) as u8,
        (offset & 0xFF) as u8,
    ];
    assert(header@ =~= spec_command_address_header(command, offset));
    header
}

} // verus!
