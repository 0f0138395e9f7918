use vm16::cpu::{instruction, register, CPU};
use vm16::device::banked_memory::BankedMemory;
use vm16::device::memory::Memory;
use vm16::device::memory_mapper::{MappedDevice, MemoryMapper};
use vm16::device::Device;

fn reg_of(regs: &Vec<(usize, u16)>, r: usize) -> u16 {
    for p in regs {
        if p.0 == r {
            return p.1;
        }
    }
    panic!("no such register offset: {}", r)
}

#[test]
fn push_to_stack() {
    let mem = Memory::new(12);
    let mut cpu = CPU::new(Box::new(mem));
    assert_eq!(cpu.frame_size(), 0);
    assert_eq!(cpu.get_register(register::SP), 10);
    assert_eq!(cpu.get_register(register::FP), 10);
    cpu.push_to_stack(111);
    assert_eq!(cpu.frame_size(), 2);
    assert_eq!(cpu.get_register(register::SP), 8);
    assert_eq!(cpu.get_register(register::FP), 10);
    assert_eq!(cpu.memory_u16(10), 111);
    cpu.push_to_stack(222);
    assert_eq!(cpu.frame_size(), 4);
    assert_eq!(cpu.get_register(register::SP), 6);
    assert_eq!(cpu.get_register(register::FP), 10);
    assert_eq!(cpu.memory_u16(10), 111);
    assert_eq!(cpu.memory_u16(8), 222);
}

#[test]
fn pop_from_stack() {
    let mem = Memory::new(12);
    let mut cpu = CPU::new(Box::new(mem));
    cpu.push_to_stack(111);
    cpu.push_to_stack(222);
    assert_eq!(cpu.frame_size(), 4);
    assert_eq!(cpu.get_register(register::SP), 6);
    assert_eq!(cpu.memory_u16(10), 111);
    assert_eq!(cpu.memory_u16(8), 222);

    let last = cpu.pop_from_stack();
    assert_eq!(cpu.frame_size(), 2);
    assert_eq!(cpu.get_register(register::SP), 8);
    assert_eq!(last, 222);

    let first = cpu.pop_from_stack();
    assert_eq!(cpu.frame_size(), 0);
    assert_eq!(cpu.get_register(register::SP), 10);
    assert_eq!(first, 111);
}

#[test]
fn push_state() {
    let mem = Memory::new(64);
    let mut cpu = CPU::new(Box::new(mem));
    cpu.set_register(register::R1, 20);
    cpu.set_register(register::R4, 30);

    assert_eq!(cpu.frame_size(), 0);
    assert_eq!(cpu.get_register(register::SP), 62);
    assert_eq!(cpu.get_register(register::FP), 62);

    cpu.push_state();
    assert_eq!(cpu.frame_size(), 0);
    assert_eq!(cpu.get_register(register::SP), 42);
    assert_eq!(cpu.get_register(register::FP), 42);
    assert_eq!(cpu.memory_u16(62), 20);
    assert_eq!(cpu.memory_u16(56), 30);
    assert_eq!(cpu.memory_u16(44), 20);
    cpu.set_register(register::R4, 40);
    cpu.set_register(register::R3, 50);

    cpu.push_state();
    assert_eq!(cpu.frame_size(), 0);
    assert_eq!(cpu.get_register(register::SP), 22);
    assert_eq!(cpu.get_register(register::FP), 22);
    assert_eq!(cpu.memory_u16(62), 20);
    assert_eq!(cpu.memory_u16(56), 30);
    assert_eq!(cpu.memory_u16(44), 20);
    assert_eq!(cpu.memory_u16(42), 20);
    assert_eq!(cpu.memory_u16(38), 50);
    assert_eq!(cpu.memory_u16(36), 40);
    assert_eq!(cpu.memory_u16(24), 20);
}

#[test]
fn pop_state() {
    let mem = Memory::new(64);
    let mut cpu = CPU::new(Box::new(mem));
    cpu.set_register(register::R1, 20);
    cpu.set_register(register::R4, 30);

    cpu.push_state();
    cpu.set_register(register::R4, 40);
    cpu.set_register(register::R3, 50);

    cpu.push_state();
    assert_eq!(cpu.get_register(register::SP), 22);
    assert_eq!(cpu.get_register(register::FP), 22);
    cpu.set_register(register::R4, 60);
    cpu.set_register(register::R2, 70);
    assert_eq!(cpu.get_register(register::R1), 20);
    assert_eq!(cpu.get_register(register::R2), 70);
    assert_eq!(cpu.get_register(register::R3), 50);
    assert_eq!(cpu.get_register(register::R4), 60);

    cpu.pop_state();
    assert_eq!(cpu.get_register(register::SP), 42);
    assert_eq!(cpu.get_register(register::FP), 42);
    assert_eq!(cpu.get_register(register::R1), 20);
    assert_eq!(cpu.get_register(register::R2), 0);
    assert_eq!(cpu.get_register(register::R3), 50);
    assert_eq!(cpu.get_register(register::R4), 40);

    cpu.pop_state();
    assert_eq!(cpu.get_register(register::SP), 62);
    assert_eq!(cpu.get_register(register::FP), 62);
    assert_eq!(cpu.get_register(register::R1), 20);
    assert_eq!(cpu.get_register(register::R2), 0);
    assert_eq!(cpu.get_register(register::R3), 0);
    assert_eq!(cpu.get_register(register::R4), 30);
}

#[test]
fn reg_add() {
    let mut mem = Memory::new(11);
    mem.set_u8(0, instruction::move_lit_reg().opcode);
    mem.set_u16(1, 0x1234);
    mem.set_u8(3, register::R1 as u8);
    mem.set_u8(4, instruction::move_lit_reg().opcode);
    mem.set_u16(5, 0xABCD);
    mem.set_u8(7, register::R2 as u8);
    mem.set_u8(8, instruction::add_reg_reg().opcode);
    mem.set_u8(9, register::R1 as u8);
    mem.set_u8(10, register::R2 as u8);

    let mut cpu = CPU::new(Box::new(mem));

    cpu.step().unwrap();
    assert_eq!(reg_of(&cpu.debug_registers(), register::R1), 0x1234);
    cpu.step().unwrap();
    assert_eq!(reg_of(&cpu.debug_registers(), register::R2), 0xABCD);
    cpu.step().unwrap();
    assert_eq!(reg_of(&cpu.debug_registers(), register::ACC), 0xBE01);
}

#[test]
fn move_lit_reg() {
    let mut mem = Memory::new(4);
    mem.set_u8(0, instruction::move_lit_reg().opcode);
    mem.set_u16(1, 0x1234);
    mem.set_u8(3, register::R1 as u8);

    let mut cpu = CPU::new(Box::new(mem));
    cpu.step().unwrap();

    assert_eq!(cpu.get_register(register::R1), 0x1234);
    assert_eq!(cpu.register_byte(register::R1), 0x12);
    assert_eq!(cpu.register_byte(register::R1 + 1), 0x34);
}

#[test]
fn move_reg_reg() {
    let mut mem = Memory::new(7);
    mem.set_u8(0, instruction::move_lit_reg().opcode);
    mem.set_u16(1, 0x1234);
    mem.set_u8(3, register::R1 as u8);
    mem.set_u8(4, instruction::move_reg_reg().opcode);
    mem.set_u8(5, register::R1 as u8);
    mem.set_u8(6, register::R2 as u8);

    let mut cpu = CPU::new(Box::new(mem));
    cpu.step().unwrap();
    cpu.step().unwrap();

    assert_eq!(cpu.get_register(register::R2), 0x1234);
    assert_eq!(cpu.register_byte(register::R2), 0x12);
    assert_eq!(cpu.register_byte(register::R2 + 1), 0x34);
}

#[test]
fn move_reg_mem() {
    let mut mem = Memory::new(8);
    mem.set_u8(0, instruction::move_lit_reg().opcode);
    mem.set_u16(1, 0x1234);
    mem.set_u8(3, register::R1 as u8);
    mem.set_u8(4, instruction::move_reg_mem().opcode);
    mem.set_u8(5, register::R1 as u8);
    mem.set_u16(6, 0x1);

    let mut cpu = CPU::new(Box::new(mem));
    cpu.step().unwrap();
    cpu.step().unwrap();

    assert_eq!(cpu.memory_u16(0x1), 0x1234);
    assert_eq!(cpu.memory_u8(0x1), 0x12);
    assert_eq!(cpu.memory_u8(0x1 + 1), 0x34);
}

#[test]
fn move_lit_mem() {
    let mut mem = Memory::new(8);
    mem.set_u8(0, instruction::move_lit_mem().opcode);
    mem.set_u16(1, 0x1234);
    mem.set_u16(3, 0x6);

    let mut cpu = CPU::new(Box::new(mem));
    cpu.step().unwrap();

    assert_eq!(cpu.memory_u16(0x6), 0x1234);
}

#[test]
fn move_reg_ptr_reg() {
    let mut mem = Memory::new(8);
    mem.set_u8(0, instruction::move_reg_ptr_reg().opcode);
    mem.set_u8(1, register::R1 as u8);
    mem.set_u8(2, register::R2 as u8);
    mem.set_u16(0x6, 0x5555);

    let mut cpu = CPU::new(Box::new(mem));
    cpu.set_register(register::R1, 0x6);
    cpu.step().unwrap();

    assert_eq!(cpu.get_register(register::R2), 0x5555);
}

#[test]
fn move_reg_off_reg() {
    let mut mem = Memory::new(8);
    mem.set_u8(0, instruction::move_lit_off_reg().opcode);
    mem.set_u16(1, 1);
    mem.set_u8(3, register::R1 as u8);
    mem.set_u8(4, register::R2 as u8);
    mem.set_u16(0x6, 0x5555);

    let mut cpu = CPU::new(Box::new(mem));
    cpu.set_register(register::R1, 0x5);
    cpu.step().unwrap();

    assert_eq!(cpu.get_register(register::R2), 0x5555);
}

#[test]
fn add_lit_reg() {
    let mut mem = Memory::new(4);
    mem.set_u8(0, instruction::add_lit_reg().opcode);
    mem.set_u16(1, 5);
    mem.set_u8(3, register::R1 as u8);

    let mut cpu = CPU::new(Box::new(mem));
    cpu.set_register(register::R1, 0x5);
    cpu.step().unwrap();

    assert_eq!(cpu.get_register(register::ACC), 0xa);
}

#[test]
fn sub_lit_reg() {
    let mut mem = Memory::new(4);
    mem.set_u8(0, instruction::sub_lit_reg().opcode);
    mem.set_u16(1, 5);
    mem.set_u8(3, register::R1 as u8);

    let mut cpu = CPU::new(Box::new(mem));
    cpu.set_register(register::R1, 0x2);
    cpu.step().unwrap();

    assert_eq!(cpu.get_register(register::ACC), 0x3);
}

#[test]
fn sub_reg_lit() {
    let mut mem = Memory::new(4);
    mem.set_u8(0, instruction::sub_reg_lit().opcode);
    mem.set_u8(1, register::R1 as u8);
    mem.set_u16(2, 5);

    let mut cpu = CPU::new(Box::new(mem));
    cpu.set_register(register::R1, 0xe);
    cpu.step().unwrap();

    assert_eq!(cpu.get_register(register::ACC), 0x9);
}

#[test]
fn sub_reg_reg() {
    let mut mem = Memory::new(3);
    mem.set_u8(0, instruction::sub_reg_reg().opcode);
    mem.set_u8(1, register::R1 as u8);
    mem.set_u8(2, register::R2 as u8);

    let mut cpu = CPU::new(Box::new(mem));
    cpu.set_register(register::R1, 0xe);
    cpu.set_register(register::R2, 0x6);
    cpu.step().unwrap();

    assert_eq!(cpu.get_register(register::ACC), 0x8);
}

#[test]
fn mul_reg_reg() {
    let mut mem = Memory::new(3);
    mem.set_u8(0, instruction::mul_reg_reg().opcode);
    mem.set_u8(1, register::R1 as u8);
    mem.set_u8(2, register::R2 as u8);

    let mut cpu = CPU::new(Box::new(mem));
    cpu.set_register(register::R1, 0x2);
    cpu.set_register(register::R2, 0x6);
    cpu.step().unwrap();

    assert_eq!(cpu.get_register(register::ACC), 0xc);
}

#[test]
fn mul_lit_reg() {
    let mut mem = Memory::new(4);
    mem.set_u8(0, instruction::mul_lit_reg().opcode);
    mem.set_u16(1, 0x3);
    mem.set_u8(3, register::R1 as u8);

    let mut cpu = CPU::new(Box::new(mem));
    cpu.set_register(register::R1, 0x2);
    cpu.step().unwrap();

    assert_eq!(cpu.get_register(register::ACC), 0x6);
}

#[test]
fn lst_reg_lit() {
    let mut mem = Memory::new(4);
    mem.set_u8(0, instruction::lsf_reg_lit8().opcode);
    mem.set_u8(1, register::R1 as u8);
    mem.set_u16(2, 0x3);

    let mut cpu = CPU::new(Box::new(mem));
    cpu.set_register(register::R1, 0x2);
    cpu.step().unwrap();

    assert_eq!(cpu.get_register(register::R1), 0x10);
}

#[test]
fn lst_reg_reg() {
    let mut mem = Memory::new(4);
    mem.set_u8(0, instruction::lsf_reg_reg().opcode);
    mem.set_u8(1, register::R1 as u8);
    mem.set_u8(2, register::R2 as u8);

    let mut cpu = CPU::new(Box::new(mem));
    cpu.set_register(register::R1, 0x2);
    cpu.set_register(register::R2, 0x2);
    cpu.step().unwrap();

    assert_eq!(cpu.get_register(register::R1), 0x8);
}

#[test]
fn rst_reg_lit() {
    let mut mem = Memory::new(4);
    mem.set_u8(0, instruction::rsf_reg_lit8().opcode);
    mem.set_u8(1, register::R1 as u8);
    mem.set_u16(2, 0x1);

    let mut cpu = CPU::new(Box::new(mem));
    cpu.set_register(register::R1, 0x2);
    cpu.step().unwrap();

    assert_eq!(cpu.get_register(register::R1), 0x1);
}

#[test]
fn rst_reg_reg() {
    let mut mem = Memory::new(4);
    mem.set_u8(0, instruction::rsf_reg_reg().opcode);
    mem.set_u8(1, register::R1 as u8);
    mem.set_u8(2, register::R2 as u8);

    let mut cpu = CPU::new(Box::new(mem));
    cpu.set_register(register::R1, 0x8);
    cpu.set_register(register::R2, 0x2);
    cpu.step().unwrap();

    assert_eq!(cpu.get_register(register::R1), 0x2);
}

#[test]
fn and_reg_lit() {
    let mut mem = Memory::new(4);
    mem.set_u8(0, instruction::and_reg_lit().opcode);
    mem.set_u8(1, register::R1 as u8);
    mem.set_u16(2, 0x1);

    let mut cpu = CPU::new(Box::new(mem));
    cpu.set_register(register::R1, 0x3);
    cpu.step().unwrap();

    assert_eq!(cpu.get_register(register::ACC), 0x1);
}

#[test]
fn and_reg_reg() {
    let mut mem = Memory::new(4);
    mem.set_u8(0, instruction::and_reg_reg().opcode);
    mem.set_u8(1, register::R1 as u8);
    mem.set_u8(2, register::R2 as u8);

    let mut cpu = CPU::new(Box::new(mem));
    cpu.set_register(register::R1, 0xa);
    cpu.set_register(register::R2, 0x2);
    cpu.step().unwrap();

    assert_eq!(cpu.get_register(register::ACC), 0x2);
}

#[test]
fn or_reg_lit() {
    let mut mem = Memory::new(4);
    mem.set_u8(0, instruction::or_reg_lit().opcode);
    mem.set_u8(1, register::R1 as u8);
    mem.set_u16(2, 0x8);

    let mut cpu = CPU::new(Box::new(mem));
    cpu.set_register(register::R1, 0x3);
    cpu.step().unwrap();

    assert_eq!(cpu.get_register(register::ACC), 0xb);
}

#[test]
fn or_reg_reg() {
    let mut mem = Memory::new(4);
    mem.set_u8(0, instruction::or_reg_reg().opcode);
    mem.set_u8(1, register::R1 as u8);
    mem.set_u8(2, register::R2 as u8);

    let mut cpu = CPU::new(Box::new(mem));
    cpu.set_register(register::R1, 0xa);
    cpu.set_register(register::R2, 0x2);
    cpu.step().unwrap();

    assert_eq!(cpu.get_register(register::ACC), 0xa);
}

#[test]
fn xor_reg_lit() {
    let mut mem = Memory::new(4);
    mem.set_u8(0, instruction::xor_reg_lit().opcode);
    mem.set_u8(1, register::R1 as u8);
    mem.set_u16(2, 0x1);

    let mut cpu = CPU::new(Box::new(mem));
    cpu.set_register(register::R1, 0x3);
    cpu.step().unwrap();

    assert_eq!(cpu.get_register(register::ACC), 0x2);
}

#[test]
fn xor_reg_reg() {
    let mut mem = Memory::new(4);
    mem.set_u8(0, instruction::xor_reg_reg().opcode);
    mem.set_u8(1, register::R1 as u8);
    mem.set_u8(2, register::R2 as u8);

    let mut cpu = CPU::new(Box::new(mem));
    cpu.set_register(register::R1, 0xa);
    cpu.set_register(register::R2, 0x2);
    cpu.step().unwrap();

    assert_eq!(cpu.get_register(register::ACC), 0x8);
}

#[test]
fn not() {
    let mut mem = Memory::new(2);
    mem.set_u8(0, instruction::not_reg().opcode);
    mem.set_u8(1, register::R1 as u8);

    let mut cpu = CPU::new(Box::new(mem));
    cpu.set_register(register::R1, 0x2);
    cpu.step().unwrap();

    assert_eq!(cpu.get_register(register::ACC), 0xfffd);
}

#[test]
fn inc_reg() {
    let mut mem = Memory::new(2);
    mem.set_u8(0, instruction::inc_reg().opcode);
    mem.set_u8(1, register::R1 as u8);

    let mut cpu = CPU::new(Box::new(mem));
    cpu.set_register(register::R1, 0x2);
    cpu.step().unwrap();

    assert_eq!(cpu.get_register(register::R1), 0x3);
}

#[test]
fn dec_reg() {
    let mut mem = Memory::new(2);
    mem.set_u8(0, instruction::dec_reg().opcode);
    mem.set_u8(1, register::R1 as u8);

    let mut cpu = CPU::new(Box::new(mem));
    cpu.set_register(register::R1, 0x2);
    cpu.step().unwrap();

    assert_eq!(cpu.get_register(register::R1), 0x1);
}

#[test]
fn move_mem_reg() {
    let mut mem = Memory::new(4);
    mem.set_u8(0, instruction::move_mem_reg().opcode);
    mem.set_u16(1, 0x1);
    mem.set_u8(3, register::R1 as u8);

    let mut cpu = CPU::new(Box::new(mem));
    cpu.step().unwrap();

    assert_eq!(cpu.get_register(register::R1), 0x1);
    assert_eq!(cpu.register_byte(register::R1), 0x00);
    assert_eq!(cpu.register_byte(register::R1 + 1), 0x01);
}

#[test]
fn jmp_not_eq() {
    let mut mem = Memory::new(14);
    mem.set_u8(0, instruction::move_lit_reg().opcode);
    mem.set_u16(1, 0x1234);
    mem.set_u8(3, register::ACC as u8);
    mem.set_u8(4, instruction::jne_lit_mem().opcode);
    mem.set_u16(5, 0x1234);
    mem.set_u16(7, 0x0);
    mem.set_u8(9, instruction::jne_lit_mem().opcode);
    mem.set_u16(10, 0x12AB);
    mem.set_u16(12, 0x2);

    let mut cpu = CPU::new(Box::new(mem));
    cpu.step().unwrap();
    assert_eq!(cpu.get_register(register::ACC), 0x1234);
    cpu.step().unwrap();
    assert_eq!(cpu.get_register(register::IP), 0x9);
    cpu.step().unwrap();
    assert_eq!(cpu.get_register(register::IP), 0x2);
}

#[test]
fn push_lit() {
    let mut mem = Memory::new(6);
    mem.set_u8(0, instruction::psh_lit().opcode);
    mem.set_u16(1, 0x1234);

    let mut cpu = CPU::new(Box::new(mem));
    let mut sp = cpu.get_register(register::SP);
    assert_eq!(sp, 4);
    cpu.step().unwrap();
    sp = cpu.get_register(register::SP);
    assert_eq!(sp, 2);
    assert_eq!(cpu.memory_u16(sp as usize + 2), 0x1234);
}

#[test]
fn push_reg() {
    let mut mem = Memory::new(10);
    mem.set_u8(0, instruction::move_lit_reg().opcode);
    mem.set_u16(1, 0xABCD);
    mem.set_u8(3, register::R1 as u8);
    mem.set_u8(4, instruction::psh_reg().opcode);
    mem.set_u8(5, register::R1 as u8);

    let mut cpu = CPU::new(Box::new(mem));
    cpu.step().unwrap();
    cpu.step().unwrap();
    let sp = cpu.get_register(register::SP);
    assert_eq!(sp, 6);
    assert_eq!(cpu.memory_u16(sp as usize + 2), 0xABCD);
}

#[test]
fn pop() {
    let mut mem = Memory::new(10);
    mem.set_u8(0, instruction::psh_lit().opcode);
    mem.set_u16(1, 0x1234);
    mem.set_u8(3, instruction::pop_reg().opcode);
    mem.set_u8(4, register::R1 as u8);

    let mut cpu = CPU::new(Box::new(mem));
    let mut sp = cpu.get_register(register::SP);
    assert_eq!(sp, 8);
    cpu.step().unwrap();
    sp = cpu.get_register(register::SP);
    assert_eq!(sp, 6);
    cpu.step().unwrap();
    sp = cpu.get_register(register::SP);
    assert_eq!(sp, 8);
    assert_eq!(cpu.get_register(register::R1), 0x1234);
}

#[test]
fn cal_lit() {
    let mut mem = Memory::new(34);
    mem.set_u8(0, instruction::cal_lit().opcode);
    mem.set_u16(1, 10);
    mem.set_u8(10, instruction::move_lit_reg().opcode);
    mem.set_u16(11, 0x3333);
    mem.set_u8(13, register::R1 as u8);

    let mut cpu = CPU::new(Box::new(mem));
    cpu.step().unwrap();
    cpu.step().unwrap();
    let r1 = cpu.get_register(register::R1);
    assert_eq!(r1, 0x3333);
}

#[test]
fn cal_reg() {
    let mut mem = Memory::new(34);
    mem.set_u8(0, instruction::move_lit_reg().opcode);
    mem.set_u16(1, 10);
    mem.set_u8(3, register::R1 as u8);
    mem.set_u8(4, instruction::cal_reg().opcode);
    mem.set_u8(5, register::R1 as u8);
    mem.set_u8(10, instruction::move_lit_reg().opcode);
    mem.set_u16(11, 0x3333);
    mem.set_u8(13, register::R2 as u8);

    let mut cpu = CPU::new(Box::new(mem));
    cpu.step().unwrap();
    cpu.step().unwrap();
    cpu.step().unwrap();
    let r2 = cpu.get_register(register::R2);
    assert_eq!(r2, 0x3333);
}

#[test]
fn banked_memory() {
    let mut mm = MemoryMapper::new();
    let mem = Memory::new(0xff00);
    let mem_bank = BankedMemory::new(8, 256);

    mm.map(MappedDevice::Banked(mem_bank), 0x0000, 0x00ff, false);
    mm.map(MappedDevice::Flat(mem), 0x00ff, 0xffff, true);
    let mut cpu = CPU::new(Box::new(mm));

    cpu.memory_set_u8(123, 0x8);
    assert_eq!(cpu.memory_u8(123), 0x8);

    cpu.set_register(register::MB, 1);
    assert_eq!(cpu.memory_u8(123), 0);
    cpu.memory_set_u8(123, 0x80);
    assert_eq!(cpu.memory_u8(123), 0x80);

    cpu.set_register(register::MB, 0);
    assert_eq!(cpu.memory_u8(123), 0x8);
}

#[test]
fn run_until_halt() {
    let mut mem = Memory::new(8);
    mem.set_u8(0, instruction::move_lit_reg().opcode);
    mem.set_u16(1, 0x00aa);
    mem.set_u8(3, register::R1 as u8);
    mem.set_u8(4, instruction::hlt().opcode);

    let mut cpu = CPU::new(Box::new(mem));
    cpu.run().unwrap();
    assert_eq!(cpu.get_register(register::R1), 0x00aa);
    assert_eq!(cpu.get_register(register::IP), 5);
}

#[test]
fn unrecognized_opcode_faults() {
    let mut mem = Memory::new(4);
    mem.set_u8(0, 0x00);

    let mut cpu = CPU::new(Box::new(mem));
    assert_eq!(
        cpu.step(),
        Err(vm16::cpu::RuntimeError::UnrecognizedOpcode(0x00))
    );
}

#[test]
fn register_index_out_of_range_faults() {
    let mut mem = Memory::new(4);
    mem.set_u8(0, instruction::move_lit_reg().opcode);
    mem.set_u16(1, 0x1234);
    mem.set_u8(3, 200);

    let mut cpu = CPU::new(Box::new(mem));
    assert_eq!(
        cpu.step(),
        Err(vm16::cpu::RuntimeError::RegisterIndexOutOfRange(200))
    );
}

#[test]
fn address_out_of_range_faults() {
    let mut mem = Memory::new(5);
    mem.set_u8(0, instruction::move_lit_mem().opcode);
    mem.set_u16(1, 0x1234);
    mem.set_u16(3, 0x4000);

    let mut cpu = CPU::new(Box::new(mem));
    assert_eq!(
        cpu.step(),
        Err(vm16::cpu::RuntimeError::AddressOutOfRange(0x4000))
    );
}

#[test]
fn interrupt_jumps_to_handler() {
    let mut mem = Memory::new(0x1100);
    mem.set_u8(0, instruction::int_op().opcode);
    mem.set_u16(1, 3);
    mem.set_u16(0x1000 + 2 * 3, 0x800);
    mem.set_u8(0x800, instruction::hlt().opcode);

    let mut cpu = CPU::new(Box::new(mem));
    assert_eq!(cpu.step(), Ok(false));
    assert_eq!(cpu.get_register(register::IP), 0x800);
    assert_eq!(cpu.get_register(register::FP), cpu.get_register(register::SP));
    assert_eq!(cpu.run(), Ok(()));
}

#[test]
fn masked_interrupt_is_ignored() {
    let mut mem = Memory::new(0x1100);
    mem.set_u8(0, instruction::move_lit_reg().opcode);
    mem.set_u16(1, 0x0000);
    mem.set_u8(3, register::IM as u8);
    mem.set_u8(4, instruction::int_op().opcode);
    mem.set_u16(5, 3);
    mem.set_u16(0x1000 + 2 * 3, 0x800);

    let mut cpu = CPU::new(Box::new(mem));
    cpu.step().unwrap();
    assert_eq!(cpu.step(), Ok(false));
    assert_eq!(cpu.get_register(register::IP), 7);
}

#[test]
fn ret_int_leaves_the_handler() {
    let mut mem = Memory::new(0x1100);
    mem.set_u8(0, instruction::int_op().opcode);
    mem.set_u16(1, 0);
    mem.set_u16(0x1000, 0x800);
    mem.set_u8(0x800, instruction::ret_int().opcode);

    let mut cpu = CPU::new(Box::new(mem));
    let sp0 = cpu.get_register(register::SP);
    cpu.step().unwrap();
    cpu.step().unwrap();
    assert_eq!(cpu.get_register(register::SP), sp0.wrapping_sub(18));
}

#[test]
fn call_then_return_restores_the_frame() {
    let mut mem = Memory::new(64);
    mem.set_u8(0, instruction::cal_lit().opcode);
    mem.set_u16(1, 10);
    mem.set_u8(10, instruction::ret().opcode);
    mem.set_u8(3, instruction::hlt().opcode);

    let mut cpu = CPU::new(Box::new(mem));
    cpu.set_register(register::R3, 0x77);
    cpu.run().unwrap();
    assert_eq!(cpu.get_register(register::R3), 0x77);
    assert_eq!(cpu.get_register(register::SP), 62);
    assert_eq!(cpu.get_register(register::FP), 62);
    assert_eq!(cpu.get_register(register::IP), 4);
}

#[test]
fn screen_writes_reach_the_sink() {
    let mut mm = MemoryMapper::new();
    let mem = Memory::new(0x200);
    mm.map(MappedDevice::Flat(mem), 0x0000, 0x00ff, true);
    mm.map(MappedDevice::Sink(vm16::device::screen::Screen::new()), 0x100, 0x1ff, true);

    let mut cpu = CPU::new(Box::new(mm));
    let program: [u8; 6] = [
        instruction::move_lit_mem().opcode,
        0x00,
        0x48,
        0x01,
        0x05,
        instruction::hlt().opcode,
    ];
    for (i, b) in program.iter().enumerate() {
        cpu.memory_set_u8(i, *b);
    }
    cpu.run().unwrap();
    let mut mm = cpu.into_memory();
    assert_eq!(mm.take_screen_writes(), vec![(0x05, 0x0048)]);
    assert_eq!(mm.take_screen_writes(), vec![]);
}
