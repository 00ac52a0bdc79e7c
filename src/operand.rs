use vstd::prelude::*;

verus! {

/// A 16-bit instruction word split into its class (the top nibble) and its
/// 12-bit operand field. Register numbers, bytes and addresses are read out
/// of the field per instruction class.
#[derive(Clone, Copy, Debug, PartialEq, Eq, Structural)]
pub struct Operand {
    pub op_code: u8,
    pub value: u16,
}

impl Operand {
    /// Register number `x`: bits 8..12 of the field.
    pub open spec fn x_field(self) -> int {
        (self.value as int / 256) % 16
    }

    /// Register number `y`: bits 4..8 of the field.
    pub open spec fn y_field(self) -> int {
        (self.value as int / 16) % 16
    }

    /// Nibble `n`: bits 0..4 of the field.
    pub open spec fn n_field(self) -> int {
        self.value as int % 16
    }

    /// Byte `kk`: bits 0..8 of the field.
    pub open spec fn kk_field(self) -> int {
        self.value as int % 256
    }

    /// Address `nnn`: bits 0..12 of the field.
    pub open spec fn nnn_field(self) -> int {
        self.value as int % 4096
    }

    /// Splits an instruction word into its class and operand field.
    pub fn new(instruction: u16) -> (r: Operand)
        ensures
            r.op_code == instruction / 4096,
            r.value == instruction % 4096,
    {
        let op_code = ((instruction & 0xF000) >> 12) as u8;
        let value = instruction & 0x0FFF;
        assert((instruction & 0xF000) >> 12 == instruction / 4096) by (bit_vector);
        assert(instruction & 0x0FFF == instruction % 4096) by (bit_vector);
        Operand { op_code, value }
    }

    /// The instruction word that this operand was decoded from.
    pub open spec fn word(self) -> int {
        self.op_code * 4096 + self.value
    }

    pub fn x(&self) -> (r: usize)
        ensures
            r == self.x_field(),
            r < 16,
    {
        let v = self.value;
        assert((v & 0x0F00) >> 8 == (v / 256) % 16) by (bit_vector);
        ((v & 0x0F00) >> 8) as usize
    }

    pub fn y(&self) -> (r: usize)
        ensures
            r == self.y_field(),
            r < 16,
    {
        let v = self.value;
        assert((v & 0x00F0) >> 4 == (v / 16) % 16) by (bit_vector);
        ((v & 0x00F0) >> 4) as usize
    }

    pub fn n(&self) -> (r: u8)
        ensures
            r == self.n_field(),
            r < 16,
    {
        let v = self.value;
        assert(v & 0x000F == v % 16) by (bit_vector);
        (v & 0x000F) as u8
    }

    pub fn kk(&self) -> (r: u8)
        ensures
            r == self.kk_field(),
    {
        let v = self.value;
        assert(v & 0x00FF == v % 256) by (bit_vector);
        (v & 0x00FF) as u8
    }

    pub fn nnn(&self) -> (r: u16)
        ensures
            r == self.nnn_field(),
            r < 4096,
    {
        let v = self.value;
        assert(v & 0x0FFF == v % 4096) by (bit_vector);
        v & 0x0FFF
    }
}

} // verus!
