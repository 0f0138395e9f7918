use vstd::prelude::*;

verus! {

/// One entry of the opcode table: the instruction's encoding byte and its
/// total encoded size, opcode and operands together.
#[derive(Eq, PartialEq, Structural, Debug, Copy, Clone)]
pub struct Instruction {
    pub opcode: u8,
    pub size: u8,
}

pub const LIT_REG: u8 = 4;

pub const REG_LIT: u8 = 4;

pub const REG_LIT8: u8 = 3;

pub const REG_REG: u8 = 3;

pub const REG_MEM: u8 = 4;

pub const MEM_REG: u8 = 4;

pub const LIT_MEM: u8 = 5;

pub const REG_PTR_REG: u8 = 3;

pub const LIT_OFF_REG: u8 = 5;

pub const NONE: u8 = 1;

pub const REG: u8 = 2;

pub const LIT: u8 = 3;

pub fn move_lit_mem() -> (r: Instruction)
    ensures
        r == (Instruction { opcode: 0x09, size: LIT_MEM }),
{
    Instruction { opcode: 0x09, size: LIT_MEM }
}

pub fn move_lit_reg() -> (r: Instruction)
    ensures
        r == (Instruction { opcode: 0x10, size: LIT_REG }),
{
    Instruction { opcode: 0x10, size: LIT_REG }
}

pub fn move_reg_reg() -> (r: Instruction)
    ensures
        r == (Instruction { opcode: 0x11, size: REG_REG }),
{
    Instruction { opcode: 0x11, size: REG_REG }
}

pub fn move_reg_mem() -> (r: Instruction)
    ensures
        r == (Instruction { opcode: 0x12, size: REG_MEM }),
{
    Instruction { opcode: 0x12, size: REG_MEM }
}

pub fn move_mem_reg() -> (r: Instruction)
    ensures
        r == (Instruction { opcode: 0x13, size: MEM_REG }),
{
    Instruction { opcode: 0x13, size: MEM_REG }
}

pub fn psh_lit() -> (r: Instruction)
    ensures
        r == (Instruction { opcode: 0x16, size: LIT }),
{
    Instruction { opcode: 0x16, size: LIT }
}

pub fn psh_reg() -> (r: Instruction)
    ensures
        r == (Instruction { opcode: 0x17, size: REG }),
{
    Instruction { opcode: 0x17, size: REG }
}

pub fn pop_reg() -> (r: Instruction)
    ensures
        r == (Instruction { opcode: 0x18, size: REG }),
{
    Instruction { opcode: 0x18, size: REG }
}

pub fn cal_lit() -> (r: Instruction)
    ensures
        r == (Instruction { opcode: 0x19, size: LIT }),
{
    Instruction { opcode: 0x19, size: LIT }
}

pub fn cal_reg() -> (r: Instruction)
    ensures
        r == (Instruction { opcode: 0x1a, size: REG }),
{
    Instruction { opcode: 0x1a, size: REG }
}

pub fn ret() -> (r: Instruction)
    ensures
        r == (Instruction { opcode: 0x1b, size: NONE }),
{
    Instruction { opcode: 0x1b, size: NONE }
}

pub fn move_reg_ptr_reg() -> (r: Instruction)
    ensures
        r == (Instruction { opcode: 0x1c, size: REG_PTR_REG }),
{
    Instruction { opcode: 0x1c, size: REG_PTR_REG }
}

pub fn move_lit_off_reg() -> (r: Instruction)
    ensures
        r == (Instruction { opcode: 0x1d, size: LIT_OFF_REG }),
{
    Instruction { opcode: 0x1d, size: LIT_OFF_REG }
}

pub fn add_reg_reg() -> (r: Instruction)
    ensures
        r == (Instruction { opcode: 0x14, size: REG_REG }),
{
    Instruction { opcode: 0x14, size: REG_REG }
}

pub fn add_lit_reg() -> (r: Instruction)
    ensures
        r == (Instruction { opcode: 0x30, size: LIT_REG }),
{
    Instruction { opcode: 0x30, size: LIT_REG }
}

pub fn sub_lit_reg() -> (r: Instruction)
    ensures
        r == (Instruction { opcode: 0x31, size: LIT_REG }),
{
    Instruction { opcode: 0x31, size: LIT_REG }
}

pub fn sub_reg_lit() -> (r: Instruction)
    ensures
        r == (Instruction { opcode: 0x32, size: REG_LIT }),
{
    Instruction { opcode: 0x32, size: REG_LIT }
}

pub fn sub_reg_reg() -> (r: Instruction)
    ensures
        r == (Instruction { opcode: 0x33, size: REG_REG }),
{
    Instruction { opcode: 0x33, size: REG_REG }
}

pub fn mul_lit_reg() -> (r: Instruction)
    ensures
        r == (Instruction { opcode: 0x34, size: LIT_REG }),
{
    Instruction { opcode: 0x34, size: LIT_REG }
}

pub fn mul_reg_reg() -> (r: Instruction)
    ensures
        r == (Instruction { opcode: 0x35, size: REG_REG }),
{
    Instruction { opcode: 0x35, size: REG_REG }
}

pub fn inc_reg() -> (r: Instruction)
    ensures
        r == (Instruction { opcode: 0x36, size: REG }),
{
    Instruction { opcode: 0x36, size: REG }
}

pub fn dec_reg() -> (r: Instruction)
    ensures
        r == (Instruction { opcode: 0x37, size: REG }),
{
    Instruction { opcode: 0x37, size: REG }
}

pub fn lsf_reg_lit8() -> (r: Instruction)
    ensures
        r == (Instruction { opcode: 0x40, size: REG_LIT8 }),
{
    Instruction { opcode: 0x40, size: REG_LIT8 }
}

pub fn lsf_reg_reg() -> (r: Instruction)
    ensures
        r == (Instruction { opcode: 0x41, size: REG_REG }),
{
    Instruction { opcode: 0x41, size: REG_REG }
}

pub fn rsf_reg_lit8() -> (r: Instruction)
    ensures
        r == (Instruction { opcode: 0x42, size: REG_LIT8 }),
{
    Instruction { opcode: 0x42, size: REG_LIT8 }
}

pub fn rsf_reg_reg() -> (r: Instruction)
    ensures
        r == (Instruction { opcode: 0x43, size: REG_REG }),
{
    Instruction { opcode: 0x43, size: REG_REG }
}

pub fn and_reg_lit() -> (r: Instruction)
    ensures
        r == (Instruction { opcode: 0x44, size: REG_LIT }),
{
    Instruction { opcode: 0x44, size: REG_LIT }
}

pub fn and_reg_reg() -> (r: Instruction)
    ensures
        r == (Instruction { opcode: 0x45, size: REG_REG }),
{
    Instruction { opcode: 0x45, size: REG_REG }
}

pub fn or_reg_lit() -> (r: Instruction)
    ensures
        r == (Instruction { opcode: 0x46, size: REG_LIT }),
{
    Instruction { opcode: 0x46, size: REG_LIT }
}

pub fn or_reg_reg() -> (r: Instruction)
    ensures
        r == (Instruction { opcode: 0x47, size: REG_REG }),
{
    Instruction { opcode: 0x47, size: REG_REG }
}

pub fn xor_reg_lit() -> (r: Instruction)
    ensures
        r == (Instruction { opcode: 0x48, size: REG_LIT }),
{
    Instruction { opcode: 0x48, size: REG_LIT }
}

pub fn xor_reg_reg() -> (r: Instruction)
    ensures
        r == (Instruction { opcode: 0x49, size: REG_REG }),
{
    Instruction { opcode: 0x49, size: REG_REG }
}

pub fn not_reg() -> (r: Instruction)
    ensures
        r == (Instruction { opcode: 0x4a, size: REG }),
{
    Instruction { opcode: 0x4a, size: REG }
}

pub fn jne_lit_mem() -> (r: Instruction)
    ensures
        r == (Instruction { opcode: 0x50, size: LIT_MEM }),
{
    Instruction { opcode: 0x50, size: LIT_MEM }
}

pub fn jne_reg_mem() -> (r: Instruction)
    ensures
        r == (Instruction { opcode: 0x51, size: REG_MEM }),
{
    Instruction { opcode: 0x51, size: REG_MEM }
}

pub fn jeq_lit_mem() -> (r: Instruction)
    ensures
        r == (Instruction { opcode: 0x52, size: LIT_MEM }),
{
    Instruction { opcode: 0x52, size: LIT_MEM }
}

pub fn jeq_reg_mem() -> (r: Instruction)
    ensures
        r == (Instruction { opcode: 0x53, size: REG_MEM }),
{
    Instruction { opcode: 0x53, size: REG_MEM }
}

pub fn jgt_lit_mem() -> (r: Instruction)
    ensures
        r == (Instruction { opcode: 0x54, size: LIT_MEM }),
{
    Instruction { opcode: 0x54, size: LIT_MEM }
}

pub fn jgt_reg_mem() -> (r: Instruction)
    ensures
        r == (Instruction { opcode: 0x55, size: REG_MEM }),
{
    Instruction { opcode: 0x55, size: REG_MEM }
}

pub fn jlt_lit_mem() -> (r: Instruction)
    ensures
        r == (Instruction { opcode: 0x56, size: LIT_MEM }),
{
    Instruction { opcode: 0x56, size: LIT_MEM }
}

pub fn jlt_reg_mem() -> (r: Instruction)
    ensures
        r == (Instruction { opcode: 0x57, size: REG_MEM }),
{
    Instruction { opcode: 0x57, size: REG_MEM }
}

pub fn jge_lit_mem() -> (r: Instruction)
    ensures
        r == (Instruction { opcode: 0x58, size: LIT_MEM }),
{
    Instruction { opcode: 0x58, size: LIT_MEM }
}

pub fn jge_reg_mem() -> (r: Instruction)
    ensures
        r == (Instruction { opcode: 0x59, size: REG_MEM }),
{
    Instruction { opcode: 0x59, size: REG_MEM }
}

pub fn jle_lit_mem() -> (r: Instruction)
    ensures
        r == (Instruction { opcode: 0x5a, size: LIT_MEM }),
{
    Instruction { opcode: 0x5a, size: LIT_MEM }
}

pub fn jle_reg_mem() -> (r: Instruction)
    ensures
        r == (Instruction { opcode: 0x5b, size: REG_MEM }),
{
    Instruction { opcode: 0x5b, size: REG_MEM }
}

pub fn int_op() -> (r: Instruction)
    ensures
        r == (Instruction { opcode: 0xfd, size: LIT }),
{
    Instruction { opcode: 0xfd, size: LIT }
}

pub fn ret_int() -> (r: Instruction)
    ensures
        r == (Instruction { opcode: 0xfc, size: NONE }),
{
    Instruction { opcode: 0xfc, size: NONE }
}

pub fn hlt() -> (r: Instruction)
    ensures
        r == (Instruction { opcode: 0xff, size: NONE }),
{
    Instruction { opcode: 0xff, size: NONE }
}

} // verus!
