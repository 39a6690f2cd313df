//! Machine-level scenarios: the memory mapper's resolution and
//! shadowing, the run loop and its halt, every fatal condition, and
//! the screen device's decoding.

use vm32bits::bits::{sign_extend_byte, sign_extend_half, word_from_be_bytes, word_to_be_bytes};
use vm32bits::cpu::{
    form_i_instruction, form_r_instruction, i32_interpreatation_to_u32, u32_to_i32_interpreatation,
    CPU,
};
use vm32bits::error::VmError;
use vm32bits::memory::Memory;
use vm32bits::memory_mapper::{Device, MemoryMapper};
use vm32bits::screen_device::{Command, ScreenDevice};

fn mapper_with_memory(size: usize) -> MemoryMapper {
    let mut memory_mapper = MemoryMapper::new();
    memory_mapper.map(Device::Memory(Memory::new(size)), 0, (size - 1) as u32, false);
    memory_mapper
}

#[test]
fn word_round_trip() {
    let mut memory_mapper = mapper_with_memory(16);
    memory_mapper.write_word(4, [1, 2, 3, 4]).unwrap();
    assert_eq!(memory_mapper.get_word(4).unwrap(), [1, 2, 3, 4]);
}

#[test]
fn byte_and_half_word_round_trip() {
    let mut memory_mapper = mapper_with_memory(8);
    memory_mapper.write_byte(3, [0xab]).unwrap();
    assert_eq!(memory_mapper.get_byte(3).unwrap(), [0xab]);
    memory_mapper.write_half_word(6, [0xca, 0xfe]).unwrap();
    assert_eq!(memory_mapper.get_half_word(6).unwrap(), [0xca, 0xfe]);
}

#[test]
fn last_mapped_wins() {
    let mut memory_mapper = mapper_with_memory(16);
    memory_mapper.write_byte(4, [7]).unwrap();
    // Overlay a remapped device over [4, 7]: it now shadows the RAM.
    let overlay = memory_mapper.map(Device::Memory(Memory::new(4)), 4, 7, true);
    assert_eq!(memory_mapper.get_byte(4).unwrap(), [0]);
    memory_mapper.write_byte(4, [9]).unwrap();
    assert_eq!(memory_mapper.get_byte(4).unwrap(), [9]);
    // Unmapping the overlay uncovers the RAM byte written first.
    memory_mapper.unmap(overlay);
    assert_eq!(memory_mapper.get_byte(4).unwrap(), [7]);
}

#[test]
fn find_region_reports_bounds() {
    let mut memory_mapper = MemoryMapper::new();
    memory_mapper.map(Device::Memory(Memory::new(16)), 0x100, 0x10f, true);
    let region = memory_mapper.find_region(0x105).unwrap();
    assert_eq!(region.start(), 0x100);
    assert_eq!(region.end(), 0x10f);
    assert!(region.remap());
    assert!(memory_mapper.find_region(0x200).is_err());
    assert!(memory_mapper.find_mut_region(0x110).is_err());
    assert_eq!(memory_mapper.find_mut_region(0x100).unwrap(), 0);
}

#[test]
fn unmapped_address_fails() {
    let memory_mapper = MemoryMapper::new();
    assert_eq!(memory_mapper.get_byte(0), Err(VmError::UnmappedAddress));
    let mut cpu = CPU::new(MemoryMapper::new());
    // A load through an empty address space fails the same way.
    let load = form_i_instruction(0o43, 0, 10, 0);
    assert_eq!(cpu.execute(load), Err(VmError::UnmappedAddress));
}

#[test]
fn out_of_bounds_fails() {
    // The region claims more addresses than its device backs.
    let mut memory_mapper = MemoryMapper::new();
    memory_mapper.map(Device::Memory(Memory::new(2)), 0, 15, false);
    assert_eq!(memory_mapper.get_byte(1).unwrap(), [0]);
    assert_eq!(memory_mapper.get_byte(4), Err(VmError::OutOfBounds));
    assert_eq!(memory_mapper.get_word(0), Err(VmError::OutOfBounds));
    assert_eq!(memory_mapper.write_byte(4, [1]), Err(VmError::OutOfBounds));
}

#[test]
fn unsupported_operation_fails() {
    let mut memory_mapper = MemoryMapper::new();
    memory_mapper.map(Device::Screen(ScreenDevice::new()), 0, 0xff, true);
    assert_eq!(memory_mapper.get_byte(0), Err(VmError::UnsupportedOperation));
    assert_eq!(memory_mapper.get_half_word(0), Err(VmError::UnsupportedOperation));
    assert_eq!(memory_mapper.get_word(0), Err(VmError::UnsupportedOperation));
    // A word write whose command byte selects no terminal effect is
    // rejected too.
    assert_eq!(memory_mapper.write_word(0, [0, 0, 0x55, 65]), Err(VmError::UnsupportedOperation));
}

#[test]
fn illegal_instruction_fails() {
    let mut cpu = CPU::new(MemoryMapper::new());
    // Opcode 63 selects nothing.
    assert_eq!(cpu.execute(63u32 << 26), Err(VmError::IllegalInstruction));
    // Function code 63 under the R opcode selects nothing either.
    let r = form_r_instruction(0, 1, 2, 5, 0, 0o77);
    assert_eq!(cpu.execute(r), Err(VmError::IllegalInstruction));
    // A REGIMM branch code that selects no branch.
    let regimm = form_i_instruction(0o01, 1, 0b00010, 4);
    assert_eq!(cpu.execute(regimm), Err(VmError::IllegalInstruction));
}

#[test]
fn zero_register_write_fails() {
    let mut cpu = CPU::new(MemoryMapper::new());
    let r_add = form_r_instruction(0, 1, 2, 0, 0, 0o40);
    assert_eq!(cpu.execute(r_add), Err(VmError::ZeroRegisterWrite));
    // Even a function that writes no destination register checks it.
    let r_jr = form_r_instruction(0, 1, 0, 0, 0, 0o10);
    assert_eq!(cpu.execute(r_jr), Err(VmError::ZeroRegisterWrite));
    // Immediate-format writes aimed at register 0 fail the same way.
    let addiu = form_i_instruction(0o11, 1, 0, 7);
    assert_eq!(cpu.execute(addiu), Err(VmError::ZeroRegisterWrite));
    assert_eq!(cpu.get_register_value(0), 0);
}

#[test]
fn not_implemented_fails() {
    let mut cpu = CPU::new(MemoryMapper::new());
    let r_break = form_r_instruction(0, 0, 0, 5, 0, 0o15);
    assert_eq!(cpu.execute(r_break), Err(VmError::NotImplemented));
    // Unaligned loads and coprocessor transfers are declined.
    let lwl = form_i_instruction(0o42, 0, 10, 0);
    assert_eq!(cpu.execute(lwl), Err(VmError::NotImplemented));
    let swc1 = form_i_instruction(0o70, 0, 10, 0);
    assert_eq!(cpu.execute(swc1), Err(VmError::NotImplemented));
}

#[test]
fn divide_by_zero_leaves_hi_lo() {
    let mut cpu = CPU::new(MemoryMapper::new());
    // Set lo = 200, hi = 0 with a multiply first.
    cpu.execute(form_i_instruction(0o11, 0, 10, 20)).unwrap();
    cpu.execute(form_i_instruction(0o11, 0, 3, 10)).unwrap();
    cpu.execute(form_r_instruction(0, 3, 10, 5, 0, 0o30)).unwrap();
    assert_eq!(cpu.get_lo(), 200);
    // Register 7 still holds zero: the divisor.
    let div = form_r_instruction(0, 10, 7, 5, 0, 0o32);
    assert_eq!(cpu.execute(div), Err(VmError::DivideByZero));
    let divu = form_r_instruction(0, 10, 7, 5, 0, 0o33);
    assert_eq!(cpu.execute(divu), Err(VmError::DivideByZero));
    assert_eq!(cpu.get_lo(), 200);
    assert_eq!(cpu.get_hi(), 0);
}

#[test]
fn addiu_then_add_scenario() {
    let mut cpu = CPU::new(MemoryMapper::new());
    // Register 5 starts at zero.
    cpu.execute(form_i_instruction(0o11, 5, 10, 20)).unwrap();
    assert_eq!(cpu.get_register_value(10), 20);
    cpu.execute(form_i_instruction(0o11, 5, 3, 10)).unwrap();
    assert_eq!(cpu.get_register_value(3), 10);
    cpu.execute(form_r_instruction(0, 3, 10, 5, 0, 0o40)).unwrap();
    assert_eq!(cpu.get_register_value(5), 30);
}

#[test]
fn mult_scenario() {
    let mut cpu = CPU::new(MemoryMapper::new());
    cpu.execute(form_i_instruction(0o11, 0, 10, 20)).unwrap();
    cpu.execute(form_i_instruction(0o11, 0, 3, 10)).unwrap();
    cpu.execute(form_r_instruction(0, 10, 3, 5, 0, 0o30)).unwrap();
    assert_eq!(cpu.get_lo(), 200);
    assert_eq!(cpu.get_hi(), 0);
}

#[test]
fn mult_negative_operands() {
    let mut cpu = CPU::new(MemoryMapper::new());
    // r1 = -3, r2 = 7: product -21, whose high word is all ones.
    cpu.execute(form_i_instruction(0o10, 0, 1, 0xfffd)).unwrap();
    assert_eq!(cpu.get_register_value(1), 0xffff_fffd);
    cpu.execute(form_i_instruction(0o11, 0, 2, 7)).unwrap();
    cpu.execute(form_r_instruction(0, 1, 2, 5, 0, 0o30)).unwrap();
    assert_eq!(cpu.get_lo(), (-21i32) as u32);
    assert_eq!(cpu.get_hi(), 0xffff_ffff);
}

#[test]
fn div_negative_truncates_toward_zero() {
    let mut cpu = CPU::new(MemoryMapper::new());
    // r1 = -7, r2 = 2: quotient -3, remainder -1.
    cpu.execute(form_i_instruction(0o10, 0, 1, 0xfff9)).unwrap();
    cpu.execute(form_i_instruction(0o11, 0, 2, 2)).unwrap();
    cpu.execute(form_r_instruction(0, 1, 2, 5, 0, 0o32)).unwrap();
    assert_eq!(cpu.get_lo(), (-3i32) as u32);
    assert_eq!(cpu.get_hi(), (-1i32) as u32);
}

#[test]
fn jump_keeps_segment() {
    let mut cpu = CPU::new(MemoryMapper::new());
    // Move the program counter into the segment at 0x90000000.
    cpu.execute(form_i_instruction(0o17, 0, 1, 0x9000)).unwrap();
    cpu.execute(form_r_instruction(0, 1, 0, 5, 0, 0o10)).unwrap();
    assert_eq!(cpu.get_pc(), 0x9000_0000);
    // J with pseudo-address 0x123 lands at (0x123 << 2) in that
    // segment.
    let j = (0o02u32 << 26) | 0x123;
    cpu.execute(j).unwrap();
    assert_eq!(cpu.get_pc(), (0x123 << 2) | 0x9000_0000);
}

#[test]
fn jal_links_return_address() {
    let mut cpu = CPU::new(MemoryMapper::new());
    let jal = (0o03u32 << 26) | 0x40;
    cpu.execute(jal).unwrap();
    // The program counter had not been advanced by any fetch here, so
    // the link register holds 0 + 4.
    assert_eq!(cpu.get_register_value(31), 4);
    assert_eq!(cpu.get_pc(), 0x100);
}

#[test]
fn syscall_code_ten_halts_the_run_loop() {
    let mut memory_mapper = mapper_with_memory(64);
    // One harmless instruction, one syscall with a code other than
    // ten, then the halting syscall.
    let nop = form_i_instruction(0o11, 0, 1, 5);
    let continue_syscall = form_r_instruction(0, 0, 0, 0, 11, 0o14);
    let halt_syscall = form_r_instruction(0, 0, 0, 0, 10, 0o14);
    memory_mapper.write_word(0, nop.to_be_bytes()).unwrap();
    memory_mapper.write_word(4, continue_syscall.to_be_bytes()).unwrap();
    memory_mapper.write_word(8, halt_syscall.to_be_bytes()).unwrap();
    let mut cpu = CPU::new(memory_mapper);
    assert_eq!(cpu.run(1000), Ok(true));
    // Three cycles ran: the non-halting codes continued execution.
    assert_eq!(cpu.get_pc(), 12);
    assert_eq!(cpu.get_register_value(1), 5);
}

#[test]
fn run_surfaces_the_first_failure() {
    let mut memory_mapper = mapper_with_memory(8);
    let nop = form_i_instruction(0o11, 0, 1, 5);
    memory_mapper.write_word(0, nop.to_be_bytes()).unwrap();
    memory_mapper.write_word(4, (63u32 << 26).to_be_bytes()).unwrap();
    let mut cpu = CPU::new(memory_mapper);
    assert_eq!(cpu.run(1000), Err(VmError::IllegalInstruction));
    assert_eq!(cpu.get_pc(), 8);
}

#[test]
fn run_out_of_cycles_continues() {
    // A two-instruction loop that never halts: the budget runs out.
    let mut memory_mapper = mapper_with_memory(8);
    let nop = form_i_instruction(0o11, 0, 1, 1);
    // The branch stands at address 4; after its fetch the counter is
    // 8, and the offset -8 returns it to 0.
    let back = form_i_instruction(0o04, 0, 0, 0xfff8);
    memory_mapper.write_word(0, nop.to_be_bytes()).unwrap();
    memory_mapper.write_word(4, back.to_be_bytes()).unwrap();
    let mut cpu = CPU::new(memory_mapper);
    assert_eq!(cpu.run(10), Ok(false));
}

#[test]
fn store_then_load_through_cpu() {
    let mut memory_mapper = mapper_with_memory(64);
    let mut cpu = CPU::new(memory_mapper);
    // r1 = 0x1234, stored as a half-word at address 8, read back as
    // two bytes.
    cpu.execute(form_i_instruction(0o11, 0, 1, 0x1234)).unwrap();
    cpu.execute(form_i_instruction(0o51, 0, 1, 8)).unwrap();
    cpu.execute(form_i_instruction(0o44, 0, 2, 8)).unwrap();
    assert_eq!(cpu.get_register_value(2), 0x12);
    cpu.execute(form_i_instruction(0o44, 0, 3, 9)).unwrap();
    assert_eq!(cpu.get_register_value(3), 0x34);
    // A word store and a word load round-trip through memory.
    cpu.execute(form_i_instruction(0o53, 0, 1, 16)).unwrap();
    cpu.execute(form_i_instruction(0o43, 0, 4, 16)).unwrap();
    assert_eq!(cpu.get_register_value(4), 0x1234);
}

#[test]
fn loads_sign_extend() {
    let mut memory_mapper = mapper_with_memory(8);
    memory_mapper.write_byte(0, [0x80]).unwrap();
    memory_mapper.write_half_word(2, [0x80, 0x01]).unwrap();
    let mut cpu = CPU::new(memory_mapper);
    cpu.execute(form_i_instruction(0o40, 0, 1, 0)).unwrap();
    assert_eq!(cpu.get_register_value(1), 0xffff_ff80);
    cpu.execute(form_i_instruction(0o44, 0, 2, 0)).unwrap();
    assert_eq!(cpu.get_register_value(2), 0x80);
    cpu.execute(form_i_instruction(0o41, 0, 3, 2)).unwrap();
    assert_eq!(cpu.get_register_value(3), 0xffff_8001);
    cpu.execute(form_i_instruction(0o45, 0, 4, 2)).unwrap();
    assert_eq!(cpu.get_register_value(4), 0x8001);
}

#[test]
fn add_wraps_on_overflow() {
    let mut cpu = CPU::new(MemoryMapper::new());
    // r1 = 0xffffffff via LUI and ORI, r2 = 1: the sum wraps to zero.
    cpu.execute(form_i_instruction(0o17, 0, 1, 0xffff)).unwrap();
    cpu.execute(form_i_instruction(0o15, 1, 1, 0xffff)).unwrap();
    assert_eq!(cpu.get_register_value(1), 0xffff_ffff);
    cpu.execute(form_i_instruction(0o11, 0, 2, 1)).unwrap();
    cpu.execute(form_r_instruction(0, 1, 2, 5, 0, 0o40)).unwrap();
    assert_eq!(cpu.get_register_value(5), 0);
}

#[test]
fn shifts_and_bitwise() {
    let mut cpu = CPU::new(MemoryMapper::new());
    cpu.execute(form_i_instruction(0o11, 0, 1, 0b1100)).unwrap();
    cpu.execute(form_i_instruction(0o11, 0, 2, 0b1010)).unwrap();
    cpu.execute(form_r_instruction(0, 1, 2, 5, 0, 0o44)).unwrap();
    assert_eq!(cpu.get_register_value(5), 0b1000);
    cpu.execute(form_r_instruction(0, 1, 2, 5, 0, 0o45)).unwrap();
    assert_eq!(cpu.get_register_value(5), 0b1110);
    cpu.execute(form_r_instruction(0, 1, 2, 5, 0, 0o46)).unwrap();
    assert_eq!(cpu.get_register_value(5), 0b0110);
    cpu.execute(form_r_instruction(0, 1, 2, 5, 0, 0o47)).unwrap();
    assert_eq!(cpu.get_register_value(5), !0b1110u32);
    // SLL and SRL shift the rt register by the immediate amount.
    cpu.execute(form_r_instruction(0, 0, 2, 5, 3, 0o00)).unwrap();
    assert_eq!(cpu.get_register_value(5), 0b1010000);
    cpu.execute(form_r_instruction(0, 0, 2, 5, 1, 0o02)).unwrap();
    assert_eq!(cpu.get_register_value(5), 0b101);
    // SLLV and SRLV shift the rs register by the low bits of rt.
    cpu.execute(form_i_instruction(0o11, 0, 3, 2)).unwrap();
    cpu.execute(form_r_instruction(0, 1, 3, 5, 0, 0o04)).unwrap();
    assert_eq!(cpu.get_register_value(5), 0b110000);
    cpu.execute(form_r_instruction(0, 1, 3, 5, 0, 0o06)).unwrap();
    assert_eq!(cpu.get_register_value(5), 0b11);
}

#[test]
fn arithmetic_shift_preserves_sign() {
    let mut cpu = CPU::new(MemoryMapper::new());
    // r1 = 0x80000000: arithmetic shifts drag the sign bit along.
    cpu.execute(form_i_instruction(0o17, 0, 1, 0x8000)).unwrap();
    cpu.execute(form_r_instruction(0, 0, 1, 5, 4, 0o03)).unwrap();
    assert_eq!(cpu.get_register_value(5), 0xf800_0000);
    // SRAV shifts rt by the low bits of rs.
    cpu.execute(form_i_instruction(0o11, 0, 2, 8)).unwrap();
    cpu.execute(form_r_instruction(0, 2, 1, 5, 0, 0o07)).unwrap();
    assert_eq!(cpu.get_register_value(5), 0xff80_0000);
    // A nonnegative value shifts logically.
    cpu.execute(form_i_instruction(0o11, 0, 3, 0x100)).unwrap();
    cpu.execute(form_r_instruction(0, 0, 3, 5, 4, 0o03)).unwrap();
    assert_eq!(cpu.get_register_value(5), 0x10);
}

#[test]
fn comparisons_signed_and_unsigned() {
    let mut cpu = CPU::new(MemoryMapper::new());
    // r1 = -1, r2 = 1.
    cpu.execute(form_i_instruction(0o10, 0, 1, 0xffff)).unwrap();
    cpu.execute(form_i_instruction(0o11, 0, 2, 1)).unwrap();
    cpu.execute(form_r_instruction(0, 1, 2, 5, 0, 0o52)).unwrap();
    assert_eq!(cpu.get_register_value(5), 1);
    cpu.execute(form_r_instruction(0, 1, 2, 5, 0, 0o53)).unwrap();
    assert_eq!(cpu.get_register_value(5), 0);
    cpu.execute(form_i_instruction(0o12, 1, 5, 0)).unwrap();
    assert_eq!(cpu.get_register_value(5), 1);
    cpu.execute(form_i_instruction(0o13, 1, 5, 0)).unwrap();
    assert_eq!(cpu.get_register_value(5), 0);
}

#[test]
fn branches_move_the_counter() {
    let mut cpu = CPU::new(MemoryMapper::new());
    cpu.execute(form_i_instruction(0o11, 0, 1, 7)).unwrap();
    // BEQ on unequal registers falls through.
    cpu.execute(form_i_instruction(0o04, 0, 1, 0x40)).unwrap();
    assert_eq!(cpu.get_pc(), 0);
    // BNE on unequal registers branches by the offset.
    cpu.execute(form_i_instruction(0o05, 0, 1, 0x40)).unwrap();
    assert_eq!(cpu.get_pc(), 0x40);
    // A negative offset walks it back.
    cpu.execute(form_i_instruction(0o05, 0, 1, 0xfff0)).unwrap();
    assert_eq!(cpu.get_pc(), 0x30);
    // BLEZ on register 0 branches: zero counts.
    cpu.execute(form_i_instruction(0o06, 0, 0, 0x10)).unwrap();
    assert_eq!(cpu.get_pc(), 0x40);
}

#[test]
fn regimm_branches_and_links() {
    let mut cpu = CPU::new(MemoryMapper::new());
    // r1 = -2: BLTZ branches.
    cpu.execute(form_i_instruction(0o10, 0, 1, 0xfffe)).unwrap();
    cpu.execute(form_i_instruction(0o01, 1, 0b00000, 0x20)).unwrap();
    assert_eq!(cpu.get_pc(), 0x20);
    // BGEZAL on a positive register links and branches.
    cpu.execute(form_i_instruction(0o11, 0, 2, 3)).unwrap();
    cpu.execute(form_i_instruction(0o01, 2, 0b10001, 0x20)).unwrap();
    assert_eq!(cpu.get_register_value(31), 0x24);
    assert_eq!(cpu.get_pc(), 0x40);
    // BLTZAL on a nonnegative register links but does not branch.
    cpu.execute(form_i_instruction(0o01, 2, 0b10000, 0x20)).unwrap();
    assert_eq!(cpu.get_register_value(31), 0x44);
    assert_eq!(cpu.get_pc(), 0x40);
}

#[test]
fn hi_lo_moves() {
    let mut cpu = CPU::new(MemoryMapper::new());
    cpu.execute(form_i_instruction(0o11, 0, 4, 0x77)).unwrap();
    // MTHI and MTLO read the rd-field register.
    cpu.execute(form_r_instruction(0, 0, 0, 4, 0, 0o21)).unwrap();
    assert_eq!(cpu.get_hi(), 0x77);
    cpu.execute(form_r_instruction(0, 0, 0, 4, 0, 0o23)).unwrap();
    assert_eq!(cpu.get_lo(), 0x77);
    cpu.execute(form_r_instruction(0, 0, 0, 5, 0, 0o20)).unwrap();
    assert_eq!(cpu.get_register_value(5), 0x77);
    cpu.execute(form_r_instruction(0, 0, 0, 6, 0, 0o22)).unwrap();
    assert_eq!(cpu.get_register_value(6), 0x77);
}

#[test]
fn screen_device_decodes_writes() {
    let mut memory_mapper = MemoryMapper::new();
    memory_mapper.map(Device::Screen(ScreenDevice::new()), 0x9000, 0x90ff, true);
    // A word write at cell 33: erase the screen, then put 'A' at
    // column 2 of row 2.
    memory_mapper.write_word(0x9000 + 33, [0, 0, 0xff, b'A']).unwrap();
    // A byte write funnels through with the no-op command.
    memory_mapper.write_byte(0x9000, [b'z']).unwrap();
    // A half-word write carries its own command byte.
    memory_mapper.write_half_word(0x9000 + 1, [0x01, b'b']).unwrap();
    let actions = memory_mapper.take_screen_actions();
    assert_eq!(actions.len(), 3);
    assert_eq!(actions[0].x, 2);
    assert_eq!(actions[0].y, 2);
    assert_eq!(actions[0].character, b'A');
    assert_eq!(actions[0].command, Command::ERASE_SCREEN);
    assert_eq!(actions[1].x, 1);
    assert_eq!(actions[1].y, 1);
    assert_eq!(actions[1].character, b'z');
    assert_eq!(actions[1].command, Command::NO_OP);
    assert_eq!(actions[2].x, 2);
    assert_eq!(actions[2].y, 1);
    assert_eq!(actions[2].character, b'b');
    assert_eq!(actions[2].command, Command::SET_BOLD);
    // The queue is drained.
    assert_eq!(memory_mapper.take_screen_actions().len(), 0);
}

#[test]
fn screen_program_prints_through_cpu() {
    let mut memory_mapper = mapper_with_memory(0x100);
    memory_mapper.map(Device::Screen(ScreenDevice::new()), 0x9000, 0x90ff, true);
    // r1 = '*' with the no-op command; r2 = the screen base, since a
    // store's immediate offset is sign-extended; store r1's low byte
    // there; then the halting syscall.
    let set = form_i_instruction(0o11, 0, 1, b'*' as u32);
    let base = form_i_instruction(0o15, 0, 2, 0x9000);
    let store = form_i_instruction(0o50, 2, 1, 0);
    let halt = form_r_instruction(0, 0, 0, 0, 10, 0o14);
    memory_mapper.write_word(0, set.to_be_bytes()).unwrap();
    memory_mapper.write_word(4, base.to_be_bytes()).unwrap();
    memory_mapper.write_word(8, store.to_be_bytes()).unwrap();
    memory_mapper.write_word(12, halt.to_be_bytes()).unwrap();
    let mut cpu = CPU::new(memory_mapper);
    assert_eq!(cpu.run(100), Ok(true));
    let actions = cpu.take_screen_actions();
    assert_eq!(actions.len(), 1);
    assert_eq!(actions[0].character, b'*');
    assert_eq!(actions[0].x, 1);
    assert_eq!(actions[0].y, 1);
    assert_eq!(actions[0].command, Command::NO_OP);
}

#[test]
fn memory_reports_its_size() {
    let memory = Memory::new(1234);
    assert_eq!(memory.get_size(), 1234);
}

#[test]
fn reinterpretation_round_trips() {
    assert_eq!(u32_to_i32_interpreatation(0xffff_ffff), -1);
    assert_eq!(u32_to_i32_interpreatation(0x8000_0000), i32::MIN);
    assert_eq!(u32_to_i32_interpreatation(7), 7);
    assert_eq!(i32_interpreatation_to_u32(-1), 0xffff_ffff);
    assert_eq!(i32_interpreatation_to_u32(i32::MIN), 0x8000_0000);
    assert_eq!(i32_interpreatation_to_u32(7), 7);
    assert_eq!(i32_interpreatation_to_u32(u32_to_i32_interpreatation(0xdead_beef)), 0xdead_beef);
}

#[test]
fn byte_packing_round_trips() {
    assert_eq!(word_to_be_bytes(0x0102_0304), [1, 2, 3, 4]);
    assert_eq!(word_from_be_bytes(&[1, 2, 3, 4]), 0x0102_0304);
    assert_eq!(sign_extend_half(0x8000), 0xffff_8000);
    assert_eq!(sign_extend_half(0x7fff), 0x7fff);
    assert_eq!(sign_extend_byte(0xff), 0xffff_ffff);
    assert_eq!(sign_extend_byte(0x7f), 0x7f);
}

#[test]
fn variable_shifts_use_low_five_bits() {
    let mut cpu = CPU::new(MemoryMapper::new());
    cpu.execute(form_i_instruction(0o11, 0, 1, 0b100)).unwrap();
    // r2 = 33: only the low five bits, a shift by 1, count.
    cpu.execute(form_i_instruction(0o11, 0, 2, 33)).unwrap();
    cpu.execute(form_r_instruction(0, 1, 2, 5, 0, 0o04)).unwrap();
    assert_eq!(cpu.get_register_value(5), 0b1000);
    cpu.execute(form_r_instruction(0, 1, 2, 5, 0, 0o06)).unwrap();
    assert_eq!(cpu.get_register_value(5), 0b10);
}

#[test]
fn fetch_wraps_the_program_counter() {
    // A device remapped over the top four words of the address space.
    let mut memory_mapper = MemoryMapper::new();
    memory_mapper.map(Device::Memory(Memory::new(16)), 0xffff_fff0, 0xffff_ffff, true);
    let nop = form_i_instruction(0o11, 0, 1, 9);
    memory_mapper.write_word(0xffff_fffc, nop.to_be_bytes()).unwrap();
    let mut cpu = CPU::new(memory_mapper);
    // Jump to the last word: executing it wraps the counter to zero.
    cpu.execute(form_i_instruction(0o17, 0, 2, 0xffff)).unwrap();
    cpu.execute(form_i_instruction(0o15, 2, 2, 0xfffc)).unwrap();
    cpu.execute(form_r_instruction(0, 2, 0, 5, 0, 0o10)).unwrap();
    assert_eq!(cpu.get_pc(), 0xffff_fffc);
    assert_eq!(cpu.step(), Ok(false));
    assert_eq!(cpu.get_pc(), 0);
    assert_eq!(cpu.get_register_value(1), 9);
}

#[test]
fn store_byte_keeps_only_the_low_byte() {
    let memory_mapper = mapper_with_memory(8);
    let mut cpu = CPU::new(memory_mapper);
    cpu.execute(form_i_instruction(0o11, 0, 1, 0xabcd)).unwrap();
    cpu.execute(form_i_instruction(0o50, 0, 1, 2)).unwrap();
    cpu.execute(form_i_instruction(0o44, 0, 2, 2)).unwrap();
    assert_eq!(cpu.get_register_value(2), 0xcd);
}

#[test]
fn unmap_removes_every_region_under_the_handle() {
    let mut memory_mapper = MemoryMapper::new();
    let first = memory_mapper.map(Device::Memory(Memory::new(4)), 0, 3, false);
    let second = memory_mapper.map(Device::Memory(Memory::new(4)), 4, 7, true);
    assert_ne!(first, second);
    memory_mapper.unmap(second);
    assert!(memory_mapper.get_byte(4).is_err());
    assert!(memory_mapper.get_byte(0).is_ok());
    memory_mapper.unmap(first);
    assert_eq!(memory_mapper.get_byte(0), Err(VmError::UnmappedAddress));
}

#[test]
fn jalr_jumps_without_linking() {
    let mut cpu = CPU::new(MemoryMapper::new());
    cpu.execute(form_i_instruction(0o11, 0, 1, 0x80)).unwrap();
    cpu.execute(form_r_instruction(0, 1, 0, 5, 0, 0o11)).unwrap();
    assert_eq!(cpu.get_pc(), 0x80);
    // The link-register write is a no-op in this design.
    assert_eq!(cpu.get_register_value(31), 0);
}
