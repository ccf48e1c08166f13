//! Splitting a 16-bit instruction word into its fields.
//!
//! Every 16-bit pattern decodes to some field tuple; whether the fields name a
//! real instruction is decided later by the executor.

use vstd::prelude::*;

verus! {

/// The instruction class: the top 4 bits of the word.
pub open spec fn nib_hi(op: u16) -> u16 {
    (op & 0xF000) >> 12
}

/// The X field (bits 8..12), a register index.
pub open spec fn nib_x(op: u16) -> u16 {
    (op & 0x0F00) >> 8
}

/// The Y field (bits 4..8), a register index.
pub open spec fn nib_y(op: u16) -> u16 {
    (op & 0x00F0) >> 4
}

/// The N field (bits 0..4), a 4-bit immediate.
pub open spec fn nib_n(op: u16) -> u16 {
    op & 0x000F
}

/// The ADDR field (bits 0..12), a 12-bit address.
pub open spec fn addr_of(op: u16) -> u16 {
    op & 0x0FFF
}

/// The KK field (bits 0..8), an 8-bit immediate.
pub open spec fn kk_of(op: u16) -> u16 {
    op & 0x00FF
}

pub fn get_byte_0xF000(opcode: u16) -> (r: u16)
    ensures
        r == nib_hi(opcode),
        r < 16,
{
    proof {
        assert((opcode & 0xF000) >> 12 < 16) by (bit_vector);
    }
    (opcode & 0xF000) >> 12
}

pub fn get_byte_0x0F00(opcode: u16) -> (r: u16)
    ensures
        r == nib_x(opcode),
        r < 16,
{
    proof {
        assert((opcode & 0x0F00) >> 8 < 16) by (bit_vector);
    }
    (opcode & 0x0F00) >> 8
}

pub fn get_byte_0x00F0(opcode: u16) -> (r: u16)
    ensures
        r == nib_y(opcode),
        r < 16,
{
    proof {
        assert((opcode & 0x00F0) >> 4 < 16) by (bit_vector);
    }
    (opcode & 0x00F0) >> 4
}

pub fn get_byte_0x000F(opcode: u16) -> (r: u16)
    ensures
        r == nib_n(opcode),
        r < 16,
{
    proof {
        assert(opcode & 0x000F < 16) by (bit_vector);
    }
    opcode & 0x000F
}

pub fn get_bytes_0x0FFF(opcode: u16) -> (r: u16)
    ensures
        r == addr_of(opcode),
        r < 4096,
{
    proof {
        assert(opcode & 0x0FFF < 4096) by (bit_vector);
    }
    opcode & 0x0FFF
}

pub fn get_bytes_0x00FF(opcode: u16) -> (r: u16)
    ensures
        r == kk_of(opcode),
        r < 256,
{
    proof {
        assert(opcode & 0x00FF < 256) by (bit_vector);
    }
    opcode & 0x00FF
}

/// The decoder's output: one structured record with every field of the word.
pub struct Fields {
    pub family: u16,
    pub x: u16,
    pub y: u16,
    pub n: u16,
    pub kk: u16,
    pub addr: u16,
}

/// Split an instruction word into its fields. Pure and total.
pub fn decode(opcode: u16) -> (r: Fields)
    ensures
        r.family == nib_hi(opcode),
        r.x == nib_x(opcode),
        r.y == nib_y(opcode),
        r.n == nib_n(opcode),
        r.kk == kk_of(opcode),
        r.addr == addr_of(opcode),
        r.family < 16,
        r.x < 16,
        r.y < 16,
        r.n < 16,
        r.kk < 256,
        r.addr < 4096,
{
    Fields {
        family: get_byte_0xF000(opcode),
        x: get_byte_0x0F00(opcode),
        y: get_byte_0x00F0(opcode),
        n: get_byte_0x000F(opcode),
        kk: get_bytes_0x00FF(opcode),
        addr: get_bytes_0x0FFF(opcode),
    }
}

} // verus!
