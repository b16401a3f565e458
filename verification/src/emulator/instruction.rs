//! Decoding of a 16-bit opcode word into its fields: family nibble, the two
//! register selectors, the low nibble, the low byte, and the 12-bit address.

use vstd::prelude::*;

verus! {

/// The family nibble (bits 15..12) that selects the opcode family.
pub open spec fn op_family(i: u16) -> u16 {
    i >> 12
}

/// The X register selector (bits 11..8).
pub open spec fn op_x(i: u16) -> u16 {
    (i >> 8) & 0x0F
}

/// The Y register selector (bits 7..4).
pub open spec fn op_y(i: u16) -> u16 {
    (i >> 4) & 0x0F
}

/// The low nibble N (bits 3..0).
pub open spec fn op_n(i: u16) -> u16 {
    i & 0x0F
}

/// The low byte NN (bits 7..0).
pub open spec fn op_nn(i: u16) -> u8 {
    (i & 0xFF) as u8
}

/// The 12-bit address NNN (bits 11..0).
pub open spec fn op_nnn(i: u16) -> u16 {
    i & 0xFFF
}

/// The decoded fields are nibbles, a byte and a 12-bit address, so each is
/// bounded by its width.
pub proof fn lemma_decode_bounds(i: u16)
    ensures
        op_family(i) < 16,
        op_x(i) < 16,
        op_y(i) < 16,
        op_n(i) < 16,
        op_nnn(i) < 4096,
{
    assert(i >> 12 < 16) by (bit_vector);
    assert((i >> 8) & 0x0F < 16) by (bit_vector);
    assert((i >> 4) & 0x0F < 16) by (bit_vector);
    assert(i & 0x0F < 16) by (bit_vector);
    assert(i & 0xFFF < 4096) by (bit_vector);
}

/// Field accessors on a raw 16-bit opcode word.
pub trait Instruction {
    spec fn spec_instruction_of(&self) -> u16;

    spec fn spec_x_register_of(&self) -> u16;

    spec fn spec_y_register_of(&self) -> u16;

    spec fn spec_fourth_nibble_of(&self) -> u16;

    spec fn spec_second_byte_of(&self) -> u8;

    spec fn spec_jump_addr(&self) -> u16;

    fn instruction_of(&self) -> (r: u16)
        ensures
            r == self.spec_instruction_of(),
    ;

    fn x_register_of(&self) -> (r: u16)
        ensures
            r == self.spec_x_register_of(),
    ;

    fn y_register_of(&self) -> (r: u16)
        ensures
            r == self.spec_y_register_of(),
    ;

    fn fourth_nibble_of(&self) -> (r: u16)
        ensures
            r == self.spec_fourth_nibble_of(),
    ;

    fn second_byte_of(&self) -> (r: u8)
        ensures
            r == self.spec_second_byte_of(),
    ;

    fn jump_addr(&self) -> (r: u16)
        ensures
            r == self.spec_jump_addr(),
    ;
}

impl Instruction for u16 {
    open spec fn spec_instruction_of(&self) -> u16 {
        op_family(*self)
    }

    open spec fn spec_x_register_of(&self) -> u16 {
        op_x(*self)
    }

    open spec fn spec_y_register_of(&self) -> u16 {
        op_y(*self)
    }

    open spec fn spec_fourth_nibble_of(&self) -> u16 {
        op_n(*self)
    }

    open spec fn spec_second_byte_of(&self) -> u8 {
        op_nn(*self)
    }

    open spec fn spec_jump_addr(&self) -> u16 {
        op_nnn(*self)
    }

    fn instruction_of(&self) -> u16 {
        *self >> 12
    }

    fn x_register_of(&self) -> u16 {
        (*self >> 8) & 0x0F
    }

    fn y_register_of(&self) -> u16 {
        (*self >> 4) & 0x0F
    }

    fn fourth_nibble_of(&self) -> u16 {
        *self & 0x0F
    }

    fn second_byte_of(&self) -> u8 {
        (*self & 0xFF) as u8
    }

    fn jump_addr(&self) -> u16 {
        *self & 0xFFF
    }
}

} // verus!
