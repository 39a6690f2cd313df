//! The instruction execution engine: the register file, program
//! counter and hi/lo accumulators, and the fetch-decode-execute cycle
//! that drives them against the memory mapper.

use crate::bits::{as_signed, half_from_be, half_from_be_bytes, lemma_mask16_bound, lemma_mask5_bound,
    lemma_mask6_bound, lemma_mask8_bound, lemma_wrapping_add, lemma_wrapping_sub,
    lemma_wrapping_sub_u64, lemma_wrap_u32_add_multiple, lemma_wrap_u32_small,
    lemma_wrap_u64_small, sign_extend_byte, sign_extend_half,
    spec_sign_extend_byte, spec_sign_extend_half, trunc_div, trunc_rem, word_from_be,
    word_from_be_bytes, word_to_be, word_to_be_bytes, half_to_be, half_to_be_bytes, wrap_u32,
    wrap_u64};
use crate::error::VmError;
use crate::screen_device::ScreenAction;
use crate::memory_mapper::{all_actions, drained, mm_read_byte, mm_read_half, mm_read_word,
    mm_write_byte, mm_write_half, mm_write_word, MemoryMapper, RegionView};
use vstd::pervasive::VecAdditionalExecFns;
use vstd::prelude::*;

verus! {

/// The instruction classes the top six bits of a word select.
#[derive(Clone, Copy, Debug, PartialEq, Eq, Structural)]
pub enum Instruction {
    R,
    LB,
    LBU,
    LHW,
    LHWU,
    LW,
    LUI,
    LWC1,
    LWL,
    LWR,
    SB,
    SHW,
    SWR,
    SWL,
    SW,
    SWC1,
    ADDI,
    ADDIU,
    ANDI,
    ORI,
    XORI,
    SLTI,
    SLTIU,
    BEQ,
    BLEZ,
    BNE,
    REGIMM,
    J,
    JAL,
    BGTZ,
    COP1,
}

/// The ALU and control operations the function field of an R-type
/// word selects.
#[derive(Clone, Copy, Debug, PartialEq, Eq, Structural)]
pub enum Function {
    ADD,
    SUB,
    ADDU,
    SUBU,
    AND,
    OR,
    XOR,
    SLL,
    SLLV,
    NOR,
    MULT,
    MULTU,
    DIV,
    DIVU,
    SLT,
    SLTU,
    SRA,
    SRAV,
    SRL,
    SRLV,
    BREAK,
    JALR,
    JR,
    MFHI,
    MFLO,
    SYSCALL,
    MTHI,
    MTLO,
    MOVCI,
}

/// The zero-comparison branches the rt field selects under the REGIMM
/// opcode.
#[derive(Clone, Copy, Debug, PartialEq, Eq, Structural)]
pub enum Branch {
    BLTZ,
    BLTZAL,
    BGEZ,
    BGEZAL,
}

/// Opcode field: bits 31 to 26.
pub open spec fn op_of(w: u32) -> u32 {
    w >> 26
}

/// Source register field: bits 25 to 21.
pub open spec fn rs_of(w: u32) -> u32 {
    (w >> 21) & 0x1f
}

/// Target register field: bits 20 to 16.
pub open spec fn rt_of(w: u32) -> u32 {
    (w >> 16) & 0x1f
}

/// Destination register field: bits 15 to 11.
pub open spec fn rd_of(w: u32) -> u32 {
    (w >> 11) & 0x1f
}

/// Shift amount field: bits 10 to 6.
pub open spec fn shamt_of(w: u32) -> u32 {
    (w >> 6) & 0x1f
}

/// Function field: bits 5 to 0.
pub open spec fn funct_of(w: u32) -> u32 {
    w & 0x3f
}

/// Immediate field: bits 15 to 0.
pub open spec fn imm_of(w: u32) -> u32 {
    w & 0xffff
}

/// Jump pseudo-address field: bits 25 to 0.
pub open spec fn target_of(w: u32) -> u32 {
    w & 0x03ff_ffff
}

/// The instruction class an opcode value selects, if any.
pub open spec fn spec_decode_opcode(op: u32) -> Option<Instruction> {
    if op == 0o00 {
        Some(Instruction::R)
    } else if op == 0o40 {
        Some(Instruction::LB)
    } else if op == 0o44 {
        Some(Instruction::LBU)
    } else if op == 0o41 {
        Some(Instruction::LHW)
    } else if op == 0o45 {
        Some(Instruction::LHWU)
    } else if op == 0o43 {
        Some(Instruction::LW)
    } else if op == 0o17 {
        Some(Instruction::LUI)
    } else if op == 0o61 {
        Some(Instruction::LWC1)
    } else if op == 0o42 {
        Some(Instruction::LWL)
    } else if op == 0o46 {
        Some(Instruction::LWR)
    } else if op == 0o50 {
        Some(Instruction::SB)
    } else if op == 0o51 {
        Some(Instruction::SHW)
    } else if op == 0o56 {
        Some(Instruction::SWR)
    } else if op == 0o52 {
        Some(Instruction::SWL)
    } else if op == 0o53 {
        Some(Instruction::SW)
    } else if op == 0o70 {
        Some(Instruction::SWC1)
    } else if op == 0o10 {
        Some(Instruction::ADDI)
    } else if op == 0o11 {
        Some(Instruction::ADDIU)
    } else if op == 0o14 {
        Some(Instruction::ANDI)
    } else if op == 0o15 {
        Some(Instruction::ORI)
    } else if op == 0o16 {
        Some(Instruction::XORI)
    } else if op == 0o12 {
        Some(Instruction::SLTI)
    } else if op == 0o13 {
        Some(Instruction::SLTIU)
    } else if op == 0o04 {
        Some(Instruction::BEQ)
    } else if op == 0o06 {
        Some(Instruction::BLEZ)
    } else if op == 0o05 {
        Some(Instruction::BNE)
    } else if op == 0o01 {
        Some(Instruction::REGIMM)
    } else if op == 0o02 {
        Some(Instruction::J)
    } else if op == 0o03 {
        Some(Instruction::JAL)
    } else if op == 0o07 {
        Some(Instruction::BGTZ)
    } else if op == 0o21 {
        Some(Instruction::COP1)
    } else {
        None
    }
}

pub fn decode_opcode(op: u32) -> (r: Option<Instruction>)
    ensures
        r == spec_decode_opcode(op),
{
    if op == 0o00 {
        Some(Instruction::R)
    } else if op == 0o40 {
        Some(Instruction::LB)
    } else if op == 0o44 {
        Some(Instruction::LBU)
    } else if op == 0o41 {
        Some(Instruction::LHW)
    } else if op == 0o45 {
        Some(Instruction::LHWU)
    } else if op == 0o43 {
        Some(Instruction::LW)
    } else if op == 0o17 {
        Some(Instruction::LUI)
    } else if op == 0o61 {
        Some(Instruction::LWC1)
    } else if op == 0o42 {
        Some(Instruction::LWL)
    } else if op == 0o46 {
        Some(Instruction::LWR)
    } else if op == 0o50 {
        Some(Instruction::SB)
    } else if op == 0o51 {
        Some(Instruction::SHW)
    } else if op == 0o56 {
        Some(Instruction::SWR)
    } else if op == 0o52 {
        Some(Instruction::SWL)
    } else if op == 0o53 {
        Some(Instruction::SW)
    } else if op == 0o70 {
        Some(Instruction::SWC1)
    } else if op == 0o10 {
        Some(Instruction::ADDI)
    } else if op == 0o11 {
        Some(Instruction::ADDIU)
    } else if op == 0o14 {
        Some(Instruction::ANDI)
    } else if op == 0o15 {
        Some(Instruction::ORI)
    } else if op == 0o16 {
        Some(Instruction::XORI)
    } else if op == 0o12 {
        Some(Instruction::SLTI)
    } else if op == 0o13 {
        Some(Instruction::SLTIU)
    } else if op == 0o04 {
        Some(Instruction::BEQ)
    } else if op == 0o06 {
        Some(Instruction::BLEZ)
    } else if op == 0o05 {
        Some(Instruction::BNE)
    } else if op == 0o01 {
        Some(Instruction::REGIMM)
    } else if op == 0o02 {
        Some(Instruction::J)
    } else if op == 0o03 {
        Some(Instruction::JAL)
    } else if op == 0o07 {
        Some(Instruction::BGTZ)
    } else if op == 0o21 {
        Some(Instruction::COP1)
    } else {
        None
    }
}

/// The operation a function code selects, if any.
pub open spec fn spec_decode_function(code: u32) -> Option<Function> {
    if code == 0o40 {
        Some(Function::ADD)
    } else if code == 0o42 {
        Some(Function::SUB)
    } else if code == 0o41 {
        Some(Function::ADDU)
    } else if code == 0o43 {
        Some(Function::SUBU)
    } else if code == 0o44 {
        Some(Function::AND)
    } else if code == 0o45 {
        Some(Function::OR)
    } else if code == 0o46 {
        Some(Function::XOR)
    } else if code == 0o00 {
        Some(Function::SLL)
    } else if code == 0o04 {
        Some(Function::SLLV)
    } else if code == 0o47 {
        Some(Function::NOR)
    } else if code == 0o30 {
        Some(Function::MULT)
    } else if code == 0o31 {
        Some(Function::MULTU)
    } else if code == 0o32 {
        Some(Function::DIV)
    } else if code == 0o33 {
        Some(Function::DIVU)
    } else if code == 0o52 {
        Some(Function::SLT)
    } else if code == 0o53 {
        Some(Function::SLTU)
    } else if code == 0o03 {
        Some(Function::SRA)
    } else if code == 0o07 {
        Some(Function::SRAV)
    } else if code == 0o02 {
        Some(Function::SRL)
    } else if code == 0o06 {
        Some(Function::SRLV)
    } else if code == 0o15 {
        Some(Function::BREAK)
    } else if code == 0o11 {
        Some(Function::JALR)
    } else if code == 0o10 {
        Some(Function::JR)
    } else if code == 0o20 {
        Some(Function::MFHI)
    } else if code == 0o22 {
        Some(Function::MFLO)
    } else if code == 0o14 {
        Some(Function::SYSCALL)
    } else if code == 0o21 {
        Some(Function::MTHI)
    } else if code == 0o23 {
        Some(Function::MTLO)
    } else if code == 0o01 {
        Some(Function::MOVCI)
    } else {
        None
    }
}

pub fn decode_function(code: u32) -> (r: Option<Function>)
    ensures
        r == spec_decode_function(code),
{
    if code == 0o40 {
        Some(Function::ADD)
    } else if code == 0o42 {
        Some(Function::SUB)
    } else if code == 0o41 {
        Some(Function::ADDU)
    } else if code == 0o43 {
        Some(Function::SUBU)
    } else if code == 0o44 {
        Some(Function::AND)
    } else if code == 0o45 {
        Some(Function::OR)
    } else if code == 0o46 {
        Some(Function::XOR)
    } else if code == 0o00 {
        Some(Function::SLL)
    } else if code == 0o04 {
        Some(Function::SLLV)
    } else if code == 0o47 {
        Some(Function::NOR)
    } else if code == 0o30 {
        Some(Function::MULT)
    } else if code == 0o31 {
        Some(Function::MULTU)
    } else if code == 0o32 {
        Some(Function::DIV)
    } else if code == 0o33 {
        Some(Function::DIVU)
    } else if code == 0o52 {
        Some(Function::SLT)
    } else if code == 0o53 {
        Some(Function::SLTU)
    } else if code == 0o03 {
        Some(Function::SRA)
    } else if code == 0o07 {
        Some(Function::SRAV)
    } else if code == 0o02 {
        Some(Function::SRL)
    } else if code == 0o06 {
        Some(Function::SRLV)
    } else if code == 0o15 {
        Some(Function::BREAK)
    } else if code == 0o11 {
        Some(Function::JALR)
    } else if code == 0o10 {
        Some(Function::JR)
    } else if code == 0o20 {
        Some(Function::MFHI)
    } else if code == 0o22 {
        Some(Function::MFLO)
    } else if code == 0o14 {
        Some(Function::SYSCALL)
    } else if code == 0o21 {
        Some(Function::MTHI)
    } else if code == 0o23 {
        Some(Function::MTLO)
    } else if code == 0o01 {
        Some(Function::MOVCI)
    } else {
        None
    }
}

/// The branch a REGIMM rt-field value selects, if any.
pub open spec fn spec_decode_branch(code: u32) -> Option<Branch> {
    if code == 0b00000 {
        Some(Branch::BLTZ)
    } else if code == 0b10000 {
        Some(Branch::BLTZAL)
    } else if code == 0b00001 {
        Some(Branch::BGEZ)
    } else if code == 0b10001 {
        Some(Branch::BGEZAL)
    } else {
        None
    }
}

pub fn decode_branch(code: u32) -> (r: Option<Branch>)
    ensures
        r == spec_decode_branch(code),
{
    if code == 0b00000 {
        Some(Branch::BLTZ)
    } else if code == 0b10000 {
        Some(Branch::BLTZAL)
    } else if code == 0b00001 {
        Some(Branch::BGEZ)
    } else if code == 0b10001 {
        Some(Branch::BGEZAL)
    } else {
        None
    }
}

/// The whole machine as mathematics: the register file, the special
/// registers, and the mapped address space.
#[verifier::ext_equal]
pub struct MachineView {
    pub regs: Seq<u32>,
    pub pc: u32,
    pub hi: u32,
    pub lo: u32,
    pub regions: Seq<RegionView>,
}

/// The register file is well formed: 32 slots and register 0 reads as
/// zero.
pub open spec fn view_wf(m: MachineView) -> bool {
    &&& m.regs.len() == 32
    &&& m.regs[0] == 0u32
}

/// The value of a register.
pub open spec fn reg(m: MachineView, i: u32) -> u32 {
    m.regs[i as int]
}

/// The machine with one register overwritten.
pub open spec fn write_reg(m: MachineView, i: u32, v: u32) -> MachineView {
    MachineView { regs: m.regs.update(i as int, v), ..m }
}

/// The CPU: it owns the register state and the memory mapper it
/// issues loads, stores and fetches through.
pub struct CPU {
    registers: Vec<u32>,
    pc: u32,
    hi: u32,
    lo: u32,
    memory_mapper: MemoryMapper,
}

impl View for CPU {
    type V = MachineView;

    closed spec fn view(&self) -> MachineView {
        MachineView {
            regs: self.registers@,
            pc: self.pc,
            hi: self.hi,
            lo: self.lo,
            regions: self.memory_mapper@,
        }
    }
}

impl CPU {
    pub open spec fn wf(&self) -> bool {
        view_wf(self@)
    }

    /// A CPU over the given address space: all registers, the program
    /// counter and hi/lo start at zero.
    pub fn new(memory_mapper: MemoryMapper) -> (r: Self)
        ensures
            r.wf(),
            r@.pc == 0,
            r@.hi == 0,
            r@.lo == 0,
            r@.regions == memory_mapper@,
            forall|i: int| 0 <= i < 32 ==> r@.regs[i] == 0u32,
    {
        let registers: Vec<u32> = vec![0u32; 32];
        CPU { registers, pc: 0, hi: 0, lo: 0, memory_mapper }
    }

    pub fn get_register_value(&self, i: usize) -> (r: u32)
        requires
            self.wf(),
            i < 32,
        ensures
            r == self@.regs[i as int],
    {
        self.registers[i]
    }

    /// The current program counter.
    pub fn get_pc(&self) -> (r: u32)
        ensures
            r == self@.pc,
    {
        self.pc
    }

    /// The hi accumulator.
    pub fn get_hi(&self) -> (r: u32)
        ensures
            r == self@.hi,
    {
        self.hi
    }

    /// The lo accumulator.
    pub fn get_lo(&self) -> (r: u32)
        ensures
            r == self@.lo,
    {
        self.lo
    }

    fn read_reg(&self, i: u8) -> (r: u32)
        requires
            self.wf(),
            i < 32,
        ensures
            r == reg(self@, i as u32),
    {
        self.registers[i as usize]
    }

    fn set_reg(&mut self, i: u8, v: u32)
        requires
            old(self).wf(),
            0 < i < 32,
        ensures
            final(self).wf(),
            final(self)@ == write_reg(old(self)@, i as u32, v),
    {
        self.registers.set(i as usize, v);
        proof {
            assert(self@ =~= write_reg(old(self)@, i as u32, v));
        }
    }
}

/// Reinterpret a 32-bit word as the signed value it represents in
/// two's complement.
pub fn u32_to_i32_interpreatation(value: u32) -> (r: i32)
    ensures
        r as int == as_signed(value),
{
    if value < 0x8000_0000 {
        value as i32
    } else {
        let m: u32 = (0xffff_ffffu32 - value) + 1;
        (-(m as i64)) as i32
    }
}

/// Reinterpret a signed value as the 32-bit word that represents it
/// in two's complement.
pub fn i32_interpreatation_to_u32(value: i32) -> (r: u32)
    ensures
        r == wrap_u32(value as int),
        as_signed(r) == value as int,
{
    if value >= 0 {
        let r = value as u32;
        proof {
            lemma_wrap_u32_small(value as int);
        }
        r
    } else {
        let r = ((value as i64) + 0x1_0000_0000i64) as u32;
        proof {
            lemma_wrap_u32_add_multiple(value as int);
            lemma_wrap_u32_small(value + 0x1_0000_0000);
        }
        r
    }
}

/// Arithmetic right shift: the sign bit fills the vacated positions.
pub open spec fn sra(v: u32, sh: u32) -> u32 {
    if v >= 0x8000_0000 {
        (v >> sh) | !(0xffff_ffffu32 >> sh)
    } else {
        v >> sh
    }
}

/// What an R-type instruction does, given its decoded fields: the
/// machine afterwards, and whether the run loop halts, or the fatal
/// condition, which leaves the machine unchanged.
pub open spec fn spec_alu(
    pre: MachineView,
    rs: u32,
    rt: u32,
    rd: u32,
    sh: u32,
    funct: u32,
) -> (MachineView, Result<bool, VmError>) {
    match spec_decode_function(funct) {
        None => (pre, Err(VmError::IllegalInstruction)),
        Some(f) => if rd == 0 && !(f matches Function::SYSCALL) {
            (pre, Err(VmError::ZeroRegisterWrite))
        } else {
            spec_alu_op(pre, rs, rt, rd, sh, f)
        },
    }
}

/// The effect of each decoded R-type operation.
pub open spec fn spec_alu_op(
    pre: MachineView,
    rs: u32,
    rt: u32,
    rd: u32,
    sh: u32,
    f: Function,
) -> (MachineView, Result<bool, VmError>) {
    let a = reg(pre, rs);
    let b = reg(pre, rt);
    match f {
        Function::ADD | Function::ADDU => (write_reg(pre, rd, wrap_u32(a + b)), Ok(false)),
        Function::SUB | Function::SUBU => (write_reg(pre, rd, wrap_u32(a - b)), Ok(false)),
        Function::MULT => {
            let p = as_signed(a) * as_signed(b);
            (
                (MachineView { lo: wrap_u32(p), hi: wrap_u32(p / 0x1_0000_0000), ..pre }),
                Ok(false),
            )
        },
        Function::MULTU => {
            let p = (a as int) * (b as int);
            (
                (MachineView { lo: wrap_u32(p), hi: wrap_u32(p / 0x1_0000_0000), ..pre }),
                Ok(false),
            )
        },
        Function::DIV => {
            if b == 0 {
                (pre, Err(VmError::DivideByZero))
            } else {
                (
                    (MachineView {
                        lo: wrap_u32(trunc_div(as_signed(a), as_signed(b))),
                        hi: wrap_u32(trunc_rem(as_signed(a), as_signed(b))),
                        ..pre
                    }),
                    Ok(false),
                )
            }
        },
        Function::DIVU => {
            if b == 0 {
                (pre, Err(VmError::DivideByZero))
            } else {
                ((MachineView { lo: a / b, hi: a % b, ..pre }), Ok(false))
            }
        },
        Function::AND => (write_reg(pre, rd, a & b), Ok(false)),
        Function::OR => (write_reg(pre, rd, a | b), Ok(false)),
        Function::XOR => (write_reg(pre, rd, a ^ b), Ok(false)),
        Function::NOR => (write_reg(pre, rd, !(a | b)), Ok(false)),
        Function::SLL => (write_reg(pre, rd, b << sh), Ok(false)),
        Function::SRL => (write_reg(pre, rd, b >> sh), Ok(false)),
        Function::SLLV => (write_reg(pre, rd, a << (b & 0x1f)), Ok(false)),
        Function::SRLV => (write_reg(pre, rd, a >> (b & 0x1f)), Ok(false)),
        Function::SLT => (
            write_reg(pre, rd, if as_signed(a) < as_signed(b) { 1u32 } else { 0u32 }),
            Ok(false),
        ),
        Function::SLTU => (write_reg(pre, rd, if a < b { 1u32 } else { 0u32 }), Ok(false)),
        Function::SRA => (write_reg(pre, rd, sra(b, sh)), Ok(false)),
        Function::SRAV => (write_reg(pre, rd, sra(b, a & 0x1f)), Ok(false)),
        Function::BREAK => (pre, Err(VmError::NotImplemented)),
        Function::JALR => ((MachineView { pc: a, ..pre }), Ok(false)),
        Function::JR => ((MachineView { pc: a, ..pre }), Ok(false)),
        Function::MFHI => (write_reg(pre, rd, pre.hi), Ok(false)),
        Function::MFLO => (write_reg(pre, rd, pre.lo), Ok(false)),
        Function::MTHI => ((MachineView { hi: reg(pre, rd), ..pre }), Ok(false)),
        Function::MTLO => ((MachineView { lo: reg(pre, rd), ..pre }), Ok(false)),
        Function::SYSCALL => (pre, Ok(((rs << 10) | (rt << 15) | sh) == 10)),
        Function::MOVCI => (pre, Err(VmError::NotImplemented)),
    }
}

/// A value reduced modulo two to the 64th splits into the same low
/// and middle 32-bit words as the value itself.
proof fn lemma_u64_split(p: int, pu: u64)
    requires
        pu as int == p % 0x1_0000_0000_0000_0000,
    ensures
        (pu as int) % 0x1_0000_0000 == p % 0x1_0000_0000,
        (pu as int) / 0x1_0000_0000 == (p / 0x1_0000_0000) % 0x1_0000_0000,
{
    vstd::arithmetic::div_mod::lemma_fundamental_div_mod(p, 0x1_0000_0000_0000_0000);
    let q64 = p / 0x1_0000_0000_0000_0000;
    vstd::arithmetic::div_mod::lemma_fundamental_div_mod(pu as int, 0x1_0000_0000);
    let hq = (pu as int) / 0x1_0000_0000;
    let hr = (pu as int) % 0x1_0000_0000;
    assert(p == (0x1_0000_0000 * q64 + hq) * 0x1_0000_0000 + hr) by (nonlinear_arith)
        requires
            p == 0x1_0000_0000_0000_0000 * q64 + (pu as int),
            pu as int == 0x1_0000_0000 * hq + hr,
    ;
    vstd::arithmetic::div_mod::lemma_fundamental_div_mod_converse_mod(
        p,
        0x1_0000_0000,
        0x1_0000_0000 * q64 + hq,
        hr,
    );
    vstd::arithmetic::div_mod::lemma_fundamental_div_mod_converse_div(
        p,
        0x1_0000_0000,
        0x1_0000_0000 * q64 + hq,
        hr,
    );
    vstd::arithmetic::div_mod::lemma_mod_multiples_vanish(q64, hq, 0x1_0000_0000);
    assert(0 <= hq < 0x1_0000_0000) by (nonlinear_arith)
        requires
            pu as int == 0x1_0000_0000 * hq + hr,
            0 <= hr < 0x1_0000_0000,
            0 <= pu as int <= 0xffff_ffff_ffff_ffffu64,
    ;
    vstd::arithmetic::div_mod::lemma_small_mod(hq as nat, 0x1_0000_0000 as nat);
}

impl CPU {
    /// Execute one R-type instruction from its decoded bit fields.
    /// An unknown function code is illegal; a write to register 0 is
    /// rejected unless the function is the syscall; the syscall\'s
    /// result says whether the run loop halts.
    fn alu_operation(&mut self, rs: u8, rt: u8, rd: u8, shift_amount: u8, function: u8) -> (r:
        Result<bool, VmError>)
        requires
            old(self).wf(),
            rs < 32,
            rt < 32,
            rd < 32,
            shift_amount < 32,
        ensures
            final(self).wf(),
            final(self)@ == spec_alu(
                old(self)@,
                rs as u32,
                rt as u32,
                rd as u32,
                shift_amount as u32,
                function as u32,
            ).0,
            r == spec_alu(
                old(self)@,
                rs as u32,
                rt as u32,
                rd as u32,
                shift_amount as u32,
                function as u32,
            ).1,
    {
        let f = match decode_function(function as u32) {
            None => {
                return Err(VmError::IllegalInstruction);
            },
            Some(f) => f,
        };
        if rd == 0 && !(matches!(f, Function::SYSCALL)) {
            return Err(VmError::ZeroRegisterWrite);
        }
        match f {
            Function::ADD | Function::ADDU => {
                let a = self.read_reg(rs);
                let b = self.read_reg(rt);
                proof {
                    lemma_wrapping_add(a, b);
                }
                self.set_reg(rd, a.wrapping_add(b));
                Ok(false)
            },
            Function::SUB | Function::SUBU => {
                let a = self.read_reg(rs);
                let b = self.read_reg(rt);
                proof {
                    lemma_wrapping_sub(a, b);
                }
                self.set_reg(rd, a.wrapping_sub(b));
                Ok(false)
            },
            Function::MULT => {
                let a = self.read_reg(rs);
                let b = self.read_reg(rt);
                let a_neg = a >= 0x8000_0000;
                let b_neg = b >= 0x8000_0000;
                let a_abs: u32 = if a_neg {
                    0u32.wrapping_sub(a)
                } else {
                    a
                };
                let b_abs: u32 = if b_neg {
                    0u32.wrapping_sub(b)
                } else {
                    b
                };
                let ghost sa = as_signed(a);
                let ghost sb = as_signed(b);
                let ghost p = sa * sb;
                proof {
                    vstd::arithmetic::mul::lemma_mul_upper_bound(
                        a_abs as int,
                        0x8000_0000,
                        b_abs as int,
                        0x8000_0000,
                    );
                }
                let p_abs: u64 = (a_abs as u64) * (b_abs as u64);
                proof {
                    assert(p == if (sa < 0) == (sb < 0) {
                        (a_abs as int) * (b_abs as int)
                    } else {
                        -((a_abs as int) * (b_abs as int))
                    }) by (nonlinear_arith)
                        requires
                            p == sa * sb,
                            a_abs as int == (if sa < 0 {
                                -sa
                            } else {
                                sa
                            }),
                            b_abs as int == (if sb < 0 {
                                -sb
                            } else {
                                sb
                            }),
                    ;
                }
                let pu: u64 = if a_neg != b_neg {
                    0u64.wrapping_sub(p_abs)
                } else {
                    p_abs
                };
                proof {
                    if a_neg != b_neg {
                        lemma_wrapping_sub_u64(0u64, p_abs);
                    } else {
                        lemma_wrap_u64_small(p);
                    }
                    assert(pu == wrap_u64(p));
                    lemma_u64_split(p, pu);
                }
                let lo = (pu % 0x1_0000_0000u64) as u32;
                let hi = (pu / 0x1_0000_0000u64) as u32;
                self.lo = lo;
                self.hi = hi;
                proof {
                    assert(self@ =~= (MachineView {
                        lo: wrap_u32(p),
                        hi: wrap_u32(p / 0x1_0000_0000),
                        ..old(self)@
                    }));
                }
                Ok(false)
            },
            Function::MULTU => {
                let a = self.read_reg(rs);
                let b = self.read_reg(rt);
                proof {
                    vstd::arithmetic::mul::lemma_mul_upper_bound(
                        a as int,
                        0xffff_ffff,
                        b as int,
                        0xffff_ffff,
                    );
                }
                let p: u64 = (a as u64) * (b as u64);
                proof {
                    lemma_wrap_u64_small((a as int) * (b as int));
                    lemma_u64_split((a as int) * (b as int), p);
                }
                let lo = (p % 0x1_0000_0000u64) as u32;
                let hi = (p / 0x1_0000_0000u64) as u32;
                self.lo = lo;
                self.hi = hi;
                proof {
                    assert(self@ =~= (MachineView {
                        lo: wrap_u32((a as int) * (b as int)),
                        hi: wrap_u32(((a as int) * (b as int)) / 0x1_0000_0000),
                        ..old(self)@
                    }));
                }
                Ok(false)
            },
            Function::DIV => {
                let b = self.read_reg(rt);
                if b == 0 {
                    return Err(VmError::DivideByZero);
                }
                let a = self.read_reg(rs);
                let a_neg = a >= 0x8000_0000;
                let b_neg = b >= 0x8000_0000;
                let a_abs: u32 = if a_neg {
                    0u32.wrapping_sub(a)
                } else {
                    a
                };
                let b_abs: u32 = if b_neg {
                    0u32.wrapping_sub(b)
                } else {
                    b
                };
                let q_abs: u32 = a_abs / b_abs;
                let r_abs: u32 = a_abs % b_abs;
                let lo = if a_neg != b_neg {
                    0u32.wrapping_sub(q_abs)
                } else {
                    q_abs
                };
                let hi = if a_neg {
                    0u32.wrapping_sub(r_abs)
                } else {
                    r_abs
                };
                proof {
                    let sa = as_signed(a);
                    let sb = as_signed(b);
                    assert(a_abs as int == vstd::math::abs(sa));
                    assert(b_abs as int == vstd::math::abs(sb));
                    if a_neg != b_neg {
                        lemma_wrapping_sub(0u32, q_abs);
                    } else {
                        lemma_wrap_u32_small(trunc_div(sa, sb));
                    }
                    if a_neg {
                        lemma_wrapping_sub(0u32, r_abs);
                    } else {
                        lemma_wrap_u32_small(trunc_rem(sa, sb));
                    }
                    assert(lo == wrap_u32(trunc_div(sa, sb)));
                    assert(hi == wrap_u32(trunc_rem(sa, sb)));
                }
                self.lo = lo;
                self.hi = hi;
                proof {
                    assert(self@ =~= (MachineView {
                        lo: wrap_u32(trunc_div(as_signed(a), as_signed(b))),
                        hi: wrap_u32(trunc_rem(as_signed(a), as_signed(b))),
                        ..old(self)@
                    }));
                }
                Ok(false)
            },
            Function::DIVU => {
                let b = self.read_reg(rt);
                if b == 0 {
                    return Err(VmError::DivideByZero);
                }
                let a = self.read_reg(rs);
                self.lo = a / b;
                self.hi = a % b;
                proof {
                    assert(self@ =~= (MachineView { lo: a / b, hi: a % b, ..old(self)@ }));
                }
                Ok(false)
            },
            Function::AND => {
                let v = self.read_reg(rs) & self.read_reg(rt);
                self.set_reg(rd, v);
                Ok(false)
            },
            Function::OR => {
                let v = self.read_reg(rs) | self.read_reg(rt);
                self.set_reg(rd, v);
                Ok(false)
            },
            Function::XOR => {
                let v = self.read_reg(rs) ^ self.read_reg(rt);
                self.set_reg(rd, v);
                Ok(false)
            },
            Function::NOR => {
                let v = !(self.read_reg(rs) | self.read_reg(rt));
                self.set_reg(rd, v);
                Ok(false)
            },
            Function::SLL => {
                let v = self.read_reg(rt) << (shift_amount as u32);
                self.set_reg(rd, v);
                Ok(false)
            },
            Function::SRL => {
                let v = self.read_reg(rt) >> (shift_amount as u32);
                self.set_reg(rd, v);
                Ok(false)
            },
            Function::SLLV => {
                let b = self.read_reg(rt);
                let sh = b & 0x1f;
                proof {
                    lemma_mask5_bound(b);
                }
                let v = self.read_reg(rs) << sh;
                self.set_reg(rd, v);
                Ok(false)
            },
            Function::SRLV => {
                let b = self.read_reg(rt);
                let sh = b & 0x1f;
                proof {
                    lemma_mask5_bound(b);
                }
                let v = self.read_reg(rs) >> sh;
                self.set_reg(rd, v);
                Ok(false)
            },
            Function::SLT => {
                let a = self.read_reg(rs);
                let b = self.read_reg(rt);
                let lt = if (a >= 0x8000_0000) != (b >= 0x8000_0000) {
                    a >= 0x8000_0000
                } else {
                    a < b
                };
                proof {
                    assert(lt == (as_signed(a) < as_signed(b)));
                }
                self.set_reg(rd, if lt { 1 } else { 0 });
                Ok(false)
            },
            Function::SLTU => {
                let a = self.read_reg(rs);
                let b = self.read_reg(rt);
                self.set_reg(rd, if a < b { 1 } else { 0 });
                Ok(false)
            },
            Function::SRA => {
                let b = self.read_reg(rt);
                let shifted = b >> (shift_amount as u32);
                let v = if b >= 0x8000_0000 {
                    shifted | !(0xffff_ffffu32 >> (shift_amount as u32))
                } else {
                    shifted
                };
                self.set_reg(rd, v);
                Ok(false)
            },
            Function::SRAV => {
                let a = self.read_reg(rs);
                let b = self.read_reg(rt);
                let sh = a & 0x1f;
                proof {
                    lemma_mask5_bound(a);
                }
                let shifted = b >> sh;
                let v = if b >= 0x8000_0000 {
                    shifted | !(0xffff_ffffu32 >> sh)
                } else {
                    shifted
                };
                self.set_reg(rd, v);
                Ok(false)
            },
            Function::BREAK => Err(VmError::NotImplemented),
            Function::JALR => {
                self.pc = self.read_reg(rs);
                proof {
                    assert(self@ =~= (MachineView { pc: reg(old(self)@, rs as u32), ..old(
                        self,
                    )@ }));
                }
                Ok(false)
            },
            Function::JR => {
                self.pc = self.read_reg(rs);
                proof {
                    assert(self@ =~= (MachineView { pc: reg(old(self)@, rs as u32), ..old(
                        self,
                    )@ }));
                }
                Ok(false)
            },
            Function::MFHI => {
                let v = self.hi;
                self.set_reg(rd, v);
                Ok(false)
            },
            Function::MFLO => {
                let v = self.lo;
                self.set_reg(rd, v);
                Ok(false)
            },
            Function::MTHI => {
                self.hi = self.read_reg(rd);
                proof {
                    assert(self@ =~= (MachineView { hi: reg(old(self)@, rd as u32), ..old(
                        self,
                    )@ }));
                }
                Ok(false)
            },
            Function::MTLO => {
                self.lo = self.read_reg(rd);
                proof {
                    assert(self@ =~= (MachineView { lo: reg(old(self)@, rd as u32), ..old(
                        self,
                    )@ }));
                }
                Ok(false)
            },
            Function::SYSCALL => {
                let code: u32 = ((rs as u32) << 10u32) | ((rt as u32) << 15u32) | (shift_amount
                    as u32);
                Ok(code == 10)
            },
            Function::MOVCI => Err(VmError::NotImplemented),
        }
    }
}


/// An immediate-format write to a target register: a write to
/// register 0 is rejected.
pub open spec fn spec_imm_write(pre: MachineView, rt: u32, v: u32) -> (
    MachineView,
    Result<bool, VmError>,
) {
    if rt == 0 {
        (pre, Err(VmError::ZeroRegisterWrite))
    } else {
        (write_reg(pre, rt, v), Ok(false))
    }
}

/// The effective address of a load or store: the base register plus
/// the sign-extended immediate.
pub open spec fn load_address(pre: MachineView, w: u32) -> u32 {
    wrap_u32(reg(pre, rs_of(w)) + spec_sign_extend_half(imm_of(w)))
}

/// A one-byte load, sign- or zero-extended into the target register.
pub open spec fn spec_load_byte(pre: MachineView, w: u32, signed: bool) -> (
    MachineView,
    Result<bool, VmError>,
) {
    if rt_of(w) == 0 {
        (pre, Err(VmError::ZeroRegisterWrite))
    } else {
        match mm_read_byte(pre.regions, load_address(pre, w)) {
            Err(e) => (pre, Err(e)),
            Ok(b) => (
                write_reg(
                    pre,
                    rt_of(w),
                    if signed {
                        spec_sign_extend_byte(b)
                    } else {
                        b as u32
                    },
                ),
                Ok(false),
            ),
        }
    }
}

/// A half-word load: two bytes interpreted big-endian, sign- or
/// zero-extended into the target register.
pub open spec fn spec_load_half(pre: MachineView, w: u32, signed: bool) -> (
    MachineView,
    Result<bool, VmError>,
) {
    if rt_of(w) == 0 {
        (pre, Err(VmError::ZeroRegisterWrite))
    } else {
        match mm_read_half(pre.regions, load_address(pre, w)) {
            Err(e) => (pre, Err(e)),
            Ok(s) => (
                write_reg(
                    pre,
                    rt_of(w),
                    if signed {
                        spec_sign_extend_half(half_from_be(s[0], s[1]))
                    } else {
                        half_from_be(s[0], s[1])
                    },
                ),
                Ok(false),
            ),
        }
    }
}

/// A word load: four bytes interpreted big-endian.
pub open spec fn spec_load_word(pre: MachineView, w: u32) -> (MachineView, Result<bool, VmError>) {
    if rt_of(w) == 0 {
        (pre, Err(VmError::ZeroRegisterWrite))
    } else {
        match mm_read_word(pre.regions, load_address(pre, w)) {
            Err(e) => (pre, Err(e)),
            Ok(s) => (write_reg(pre, rt_of(w), word_from_be(s[0], s[1], s[2], s[3])), Ok(false)),
        }
    }
}

/// A byte store: the low byte of the target register.
pub open spec fn spec_store_byte(pre: MachineView, w: u32) -> (MachineView, Result<bool, VmError>) {
    match mm_write_byte(pre.regions, load_address(pre, w), (reg(pre, rt_of(w)) & 0xff) as u8) {
        Err(e) => (pre, Err(e)),
        Ok(rs2) => ((MachineView { regions: rs2, ..pre }), Ok(false)),
    }
}

/// A half-word store: the low two bytes of the target register, in
/// big-endian order.
pub open spec fn spec_store_half(pre: MachineView, w: u32) -> (MachineView, Result<bool, VmError>) {
    let v = reg(pre, rt_of(w));
    match mm_write_half(pre.regions, load_address(pre, w), half_to_be(v)[0], half_to_be(v)[1]) {
        Err(e) => (pre, Err(e)),
        Ok(rs2) => ((MachineView { regions: rs2, ..pre }), Ok(false)),
    }
}

/// A word store: the four big-endian bytes of the target register.
pub open spec fn spec_store_word(pre: MachineView, w: u32) -> (MachineView, Result<bool, VmError>) {
    let v = reg(pre, rt_of(w));
    match mm_write_word(
        pre.regions,
        load_address(pre, w),
        word_to_be(v)[0],
        word_to_be(v)[1],
        word_to_be(v)[2],
        word_to_be(v)[3],
    ) {
        Err(e) => (pre, Err(e)),
        Ok(rs2) => ((MachineView { regions: rs2, ..pre }), Ok(false)),
    }
}

/// A taken branch adds the sign-extended immediate directly to the
/// program counter; an untaken one changes nothing.
pub open spec fn spec_branch(pre: MachineView, imm: u32, taken: bool) -> MachineView {
    if taken {
        MachineView { pc: wrap_u32(pre.pc + spec_sign_extend_half(imm)), ..pre }
    } else {
        pre
    }
}

/// Store the return address, the word after the current program
/// counter, in register 31.
pub open spec fn spec_link(pre: MachineView) -> MachineView {
    write_reg(pre, 31, wrap_u32(pre.pc + 4))
}

/// The jump target: the pseudo-address shifted into a byte address,
/// within the current 256MB segment.
pub open spec fn spec_jump_target(pc: u32, w: u32) -> u32 {
    (target_of(w) << 2) | (pc & 0xf000_0000)
}

/// The REGIMM group: zero-comparison branches keyed on the rt field,
/// the and-link variants writing register 31 before the comparison.
pub open spec fn spec_regimm(pre: MachineView, w: u32) -> (MachineView, Result<bool, VmError>) {
    match spec_decode_branch(rt_of(w)) {
        None => (pre, Err(VmError::IllegalInstruction)),
        Some(br) => match br {
            Branch::BLTZ => (
                spec_branch(pre, imm_of(w), as_signed(reg(pre, rs_of(w))) < 0),
                Ok(false),
            ),
            Branch::BGEZ => (
                spec_branch(pre, imm_of(w), as_signed(reg(pre, rs_of(w))) > 0),
                Ok(false),
            ),
            Branch::BLTZAL => {
                let linked = spec_link(pre);
                (spec_branch(linked, imm_of(w), as_signed(reg(linked, rs_of(w))) < 0), Ok(false))
            },
            Branch::BGEZAL => {
                let linked = spec_link(pre);
                (spec_branch(linked, imm_of(w), as_signed(reg(linked, rs_of(w))) > 0), Ok(false))
            },
        },
    }
}

/// What one instruction word does to the machine: the machine
/// afterwards, and whether the run loop halts, or the fatal
/// condition, which leaves the machine unchanged.
pub open spec fn spec_execute(pre: MachineView, w: u32) -> (MachineView, Result<bool, VmError>) {
    match spec_decode_opcode(op_of(w)) {
        None => (pre, Err(VmError::IllegalInstruction)),
        Some(op) => match op {
            Instruction::R => spec_alu(pre, rs_of(w), rt_of(w), rd_of(w), shamt_of(w), funct_of(w)),
            Instruction::ADDI => spec_imm_write(
                pre,
                rt_of(w),
                wrap_u32(reg(pre, rs_of(w)) + spec_sign_extend_half(imm_of(w))),
            ),
            Instruction::ADDIU => spec_imm_write(
                pre,
                rt_of(w),
                wrap_u32(reg(pre, rs_of(w)) + imm_of(w)),
            ),
            Instruction::ANDI => spec_imm_write(pre, rt_of(w), reg(pre, rs_of(w)) & imm_of(w)),
            Instruction::ORI => spec_imm_write(pre, rt_of(w), reg(pre, rs_of(w)) | imm_of(w)),
            Instruction::XORI => spec_imm_write(pre, rt_of(w), reg(pre, rs_of(w)) ^ imm_of(w)),
            Instruction::SLTI => spec_imm_write(
                pre,
                rt_of(w),
                if as_signed(reg(pre, rs_of(w))) < as_signed(spec_sign_extend_half(imm_of(w))) {
                    1u32
                } else {
                    0u32
                },
            ),
            Instruction::SLTIU => spec_imm_write(
                pre,
                rt_of(w),
                if reg(pre, rs_of(w)) < imm_of(w) {
                    1u32
                } else {
                    0u32
                },
            ),
            Instruction::LUI => spec_imm_write(pre, rt_of(w), imm_of(w) << 16),
            Instruction::LB => spec_load_byte(pre, w, true),
            Instruction::LBU => spec_load_byte(pre, w, false),
            Instruction::LHW => spec_load_half(pre, w, true),
            Instruction::LHWU => spec_load_half(pre, w, false),
            Instruction::LW => spec_load_word(pre, w),
            Instruction::SB => spec_store_byte(pre, w),
            Instruction::SHW => spec_store_half(pre, w),
            Instruction::SW => spec_store_word(pre, w),
            Instruction::BEQ => (
                spec_branch(pre, imm_of(w), reg(pre, rs_of(w)) == reg(pre, rt_of(w))),
                Ok(false),
            ),
            Instruction::BNE => (
                spec_branch(pre, imm_of(w), reg(pre, rs_of(w)) != reg(pre, rt_of(w))),
                Ok(false),
            ),
            Instruction::BLEZ => (
                spec_branch(pre, imm_of(w), as_signed(reg(pre, rs_of(w))) <= 0),
                Ok(false),
            ),
            Instruction::BGTZ => (
                spec_branch(pre, imm_of(w), as_signed(reg(pre, rs_of(w))) >= 0),
                Ok(false),
            ),
            Instruction::REGIMM => spec_regimm(pre, w),
            Instruction::J => ((MachineView { pc: spec_jump_target(pre.pc, w), ..pre }), Ok(false)),
            Instruction::JAL => (
                (MachineView { pc: spec_jump_target(pre.pc, w), ..spec_link(pre) }),
                Ok(false),
            ),
            Instruction::LWC1 => (pre, Err(VmError::NotImplemented)),
            Instruction::LWL => (pre, Err(VmError::NotImplemented)),
            Instruction::LWR => (pre, Err(VmError::NotImplemented)),
            Instruction::SWR => (pre, Err(VmError::NotImplemented)),
            Instruction::SWL => (pre, Err(VmError::NotImplemented)),
            Instruction::SWC1 => (pre, Err(VmError::NotImplemented)),
            Instruction::COP1 => (pre, Err(VmError::NotImplemented)),
        },
    }
}

/// One whole cycle: fetch the word at the program counter, advance it
/// by four, then execute. A fetch failure leaves the machine
/// unchanged.
pub open spec fn spec_step(pre: MachineView) -> (MachineView, Result<bool, VmError>) {
    match mm_read_word(pre.regions, pre.pc) {
        Err(e) => (pre, Err(e)),
        Ok(s) => {
            let w = word_from_be(s[0], s[1], s[2], s[3]);
            let fetched = MachineView { pc: wrap_u32(pre.pc + 4), ..pre };
            spec_execute(fetched, w)
        },
    }
}

/// The machine reaches `post` from `pre` in `n` successful,
/// non-halting cycles.
pub open spec fn runs_to(pre: MachineView, post: MachineView, n: nat) -> bool
    decreases n,
{
    if n == 0 {
        post == pre
    } else {
        spec_step(pre).1 == Ok::<bool, VmError>(false) && runs_to(
            spec_step(pre).0,
            post,
            (n - 1) as nat,
        )
    }
}

/// One more successful, non-halting cycle extends a run.
pub proof fn lemma_runs_to_snoc(pre: MachineView, cur: MachineView, n: nat)
    requires
        runs_to(pre, cur, n),
        spec_step(cur).1 == Ok::<bool, VmError>(false),
    ensures
        runs_to(pre, spec_step(cur).0, n + 1),
    decreases n,
{
    if n == 0 {
        assert(spec_step(pre).1 == Ok::<bool, VmError>(false));
        assert(runs_to(spec_step(pre).0, spec_step(cur).0, 0nat));
        assert(runs_to(pre, spec_step(cur).0, n + 1));
    } else {
        lemma_runs_to_snoc(spec_step(pre).0, cur, (n - 1) as nat);
        assert((n - 1) as nat + 1 == n);
        assert(runs_to(spec_step(pre).0, spec_step(cur).0, ((n + 1) - 1) as nat));
        assert(runs_to(pre, spec_step(cur).0, n + 1));
    }
}

impl CPU {
    /// The rs field, the rt field, and the 16-bit immediate of an
    /// immediate-format word.
    fn get_immediate_instructions_values(instruction: u32) -> (r: (u8, u8, u32))
        ensures
            r.0 as u32 == rs_of(instruction),
            r.1 as u32 == rt_of(instruction),
            r.2 == imm_of(instruction),
            r.0 < 32,
            r.1 < 32,
            r.2 < 0x1_0000,
    {
        proof {
            lemma_mask5_bound(instruction >> 21);
            lemma_mask5_bound(instruction >> 16);
            lemma_mask16_bound(instruction);
        }
        let rs = ((instruction >> 21u32) & 0x1f) as u8;
        let rt = ((instruction >> 16u32) & 0x1f) as u8;
        let immediate = instruction & 0xffff;
        (rs, rt, immediate)
    }

    /// A load or store address: base plus offset, wrapping.
    fn calculate_address_offset(address: u32, offset: u32) -> (r: u32)
        ensures
            r == wrap_u32(address + offset),
    {
        proof {
            lemma_wrapping_add(address, offset);
        }
        address.wrapping_add(offset)
    }

    /// Add a branch offset directly to the program counter.
    fn branch(&mut self, offset: u32)
        requires
            old(self).wf(),
        ensures
            final(self).wf(),
            final(self)@ == (MachineView { pc: wrap_u32(old(self)@.pc + offset), ..old(self)@ }),
    {
        let pc0 = self.pc;
        proof {
            lemma_wrapping_add(pc0, offset);
        }
        self.pc = pc0.wrapping_add(offset);
        proof {
            assert(self@ =~= (MachineView { pc: wrap_u32(old(self)@.pc + offset), ..old(
                self,
            )@ }));
        }
    }

    /// Store the return address in register 31.
    fn link(&mut self)
        requires
            old(self).wf(),
        ensures
            final(self).wf(),
            final(self)@ == spec_link(old(self)@),
    {
        let pc0 = self.pc;
        proof {
            lemma_wrapping_add(pc0, 4);
        }
        let v = pc0.wrapping_add(4);
        self.set_reg(31, v);
    }

    /// The target of a J or JAL at the current program counter.
    fn get_jump_address(&self, instruction: u32) -> (r: u32)
        ensures
            r == spec_jump_target(self@.pc, instruction),
    {
        let pseudo_address = instruction & 0x03ff_ffff;
        (pseudo_address << 2u32) | (self.pc & 0xf000_0000)
    }

    fn load_byte(&mut self, instruction: u32, signed: bool) -> (r: Result<bool, VmError>)
        requires
            old(self).wf(),
        ensures
            final(self).wf(),
            final(self)@ == spec_load_byte(old(self)@, instruction, signed).0,
            r == spec_load_byte(old(self)@, instruction, signed).1,
    {
        let (rs, rt, immediate) = Self::get_immediate_instructions_values(instruction);
        if rt == 0 {
            return Err(VmError::ZeroRegisterWrite);
        }
        let address = Self::calculate_address_offset(
            self.read_reg(rs),
            sign_extend_half(immediate),
        );
        match self.memory_mapper.get_byte(address) {
            Err(e) => Err(e),
            Ok(bytes) => {
                let v = if signed {
                    sign_extend_byte(bytes[0])
                } else {
                    bytes[0] as u32
                };
                self.set_reg(rt, v);
                Ok(false)
            },
        }
    }

    fn load_half(&mut self, instruction: u32, signed: bool) -> (r: Result<bool, VmError>)
        requires
            old(self).wf(),
        ensures
            final(self).wf(),
            final(self)@ == spec_load_half(old(self)@, instruction, signed).0,
            r == spec_load_half(old(self)@, instruction, signed).1,
    {
        let (rs, rt, immediate) = Self::get_immediate_instructions_values(instruction);
        if rt == 0 {
            return Err(VmError::ZeroRegisterWrite);
        }
        let address = Self::calculate_address_offset(
            self.read_reg(rs),
            sign_extend_half(immediate),
        );
        match self.memory_mapper.get_half_word(address) {
            Err(e) => Err(e),
            Ok(bytes) => {
                let raw = half_from_be_bytes(&bytes);
                let v = if signed {
                    sign_extend_half(raw)
                } else {
                    raw
                };
                self.set_reg(rt, v);
                Ok(false)
            },
        }
    }

    fn load_word(&mut self, instruction: u32) -> (r: Result<bool, VmError>)
        requires
            old(self).wf(),
        ensures
            final(self).wf(),
            final(self)@ == spec_load_word(old(self)@, instruction).0,
            r == spec_load_word(old(self)@, instruction).1,
    {
        let (rs, rt, immediate) = Self::get_immediate_instructions_values(instruction);
        if rt == 0 {
            return Err(VmError::ZeroRegisterWrite);
        }
        let address = Self::calculate_address_offset(
            self.read_reg(rs),
            sign_extend_half(immediate),
        );
        match self.memory_mapper.get_word(address) {
            Err(e) => Err(e),
            Ok(bytes) => {
                let v = word_from_be_bytes(&bytes);
                self.set_reg(rt, v);
                Ok(false)
            },
        }
    }

    fn store_byte(&mut self, instruction: u32) -> (r: Result<bool, VmError>)
        requires
            old(self).wf(),
        ensures
            final(self).wf(),
            final(self)@ == spec_store_byte(old(self)@, instruction).0,
            r == spec_store_byte(old(self)@, instruction).1,
    {
        let (rs, rt, immediate) = Self::get_immediate_instructions_values(instruction);
        let address = Self::calculate_address_offset(
            self.read_reg(rs),
            sign_extend_half(immediate),
        );
        let value = self.read_reg(rt);
        proof {
            lemma_mask8_bound(value);
        }
        let b: [u8; 1] = [(value & 0xff) as u8];
        proof {
            assert(b@ =~= seq![((value & 0xff) as u8)]);
        }
        match self.memory_mapper.write_byte(address, b) {
            Err(e) => Err(e),
            Ok(()) => Ok(false),
        }
    }

    fn store_half(&mut self, instruction: u32) -> (r: Result<bool, VmError>)
        requires
            old(self).wf(),
        ensures
            final(self).wf(),
            final(self)@ == spec_store_half(old(self)@, instruction).0,
            r == spec_store_half(old(self)@, instruction).1,
    {
        let (rs, rt, immediate) = Self::get_immediate_instructions_values(instruction);
        let address = Self::calculate_address_offset(
            self.read_reg(rs),
            sign_extend_half(immediate),
        );
        let value = self.read_reg(rt);
        let b = half_to_be_bytes(value);
        match self.memory_mapper.write_half_word(address, b) {
            Err(e) => Err(e),
            Ok(()) => Ok(false),
        }
    }

    fn store_word(&mut self, instruction: u32) -> (r: Result<bool, VmError>)
        requires
            old(self).wf(),
        ensures
            final(self).wf(),
            final(self)@ == spec_store_word(old(self)@, instruction).0,
            r == spec_store_word(old(self)@, instruction).1,
    {
        let (rs, rt, immediate) = Self::get_immediate_instructions_values(instruction);
        let address = Self::calculate_address_offset(
            self.read_reg(rs),
            sign_extend_half(immediate),
        );
        let value = self.read_reg(rt);
        let b = word_to_be_bytes(value);
        match self.memory_mapper.write_word(address, b) {
            Err(e) => Err(e),
            Ok(()) => Ok(false),
        }
    }

    /// The REGIMM group. An rt-field value that selects no branch is
    /// illegal.
    fn regimm_branching(&mut self, instruction: u32) -> (r: Result<bool, VmError>)
        requires
            old(self).wf(),
        ensures
            final(self).wf(),
            final(self)@ == spec_regimm(old(self)@, instruction).0,
            r == spec_regimm(old(self)@, instruction).1,
    {
        proof {
            lemma_mask5_bound(instruction >> 16);
        }
        let branch_code = (instruction >> 16u32) & 0x1f;
        let br = match decode_branch(branch_code) {
            None => {
                return Err(VmError::IllegalInstruction);
            },
            Some(br) => br,
        };
        let (rs, _rt, immediate) = Self::get_immediate_instructions_values(instruction);
        match br {
            Branch::BLTZ => {
                let v = self.read_reg(rs);
                if v >= 0x8000_0000 {
                    self.branch(sign_extend_half(immediate));
                }
                Ok(false)
            },
            Branch::BGEZ => {
                let v = self.read_reg(rs);
                if v != 0 && v < 0x8000_0000 {
                    self.branch(sign_extend_half(immediate));
                }
                Ok(false)
            },
            Branch::BLTZAL => {
                self.link();
                let v = self.read_reg(rs);
                if v >= 0x8000_0000 {
                    self.branch(sign_extend_half(immediate));
                }
                Ok(false)
            },
            Branch::BGEZAL => {
                self.link();
                let v = self.read_reg(rs);
                if v != 0 && v < 0x8000_0000 {
                    self.branch(sign_extend_half(immediate));
                }
                Ok(false)
            },
        }
    }

    /// Execute one already-fetched instruction word. The result says
    /// whether the run loop halts; a fatal condition leaves the
    /// machine unchanged.
    pub fn execute(&mut self, instruction: u32) -> (r: Result<bool, VmError>)
        requires
            old(self).wf(),
        ensures
            final(self).wf(),
            final(self)@ == spec_execute(old(self)@, instruction).0,
            r == spec_execute(old(self)@, instruction).1,
    {
        let op = decode_opcode(instruction >> 26u32);
        let op = match op {
            None => {
                return Err(VmError::IllegalInstruction);
            },
            Some(op) => op,
        };
        match op {
            Instruction::R => {
                proof {
                    lemma_mask5_bound(instruction >> 21);
                    lemma_mask5_bound(instruction >> 16);
                    lemma_mask5_bound(instruction >> 11);
                    lemma_mask5_bound(instruction >> 6);
                    lemma_mask6_bound(instruction);
                }
                let rs = ((instruction >> 21u32) & 0x1f) as u8;
                let rt = ((instruction >> 16u32) & 0x1f) as u8;
                let rd = ((instruction >> 11u32) & 0x1f) as u8;
                let shift_amount = ((instruction >> 6u32) & 0x1f) as u8;
                let function = (instruction & 0x3f) as u8;
                self.alu_operation(rs, rt, rd, shift_amount, function)
            },
            Instruction::ADDI => {
                let (rs, rt, immediate) = Self::get_immediate_instructions_values(instruction);
                if rt == 0 {
                    return Err(VmError::ZeroRegisterWrite);
                }
                let a = self.read_reg(rs);
                let b = sign_extend_half(immediate);
                proof {
                    lemma_wrapping_add(a, b);
                }
                self.set_reg(rt, a.wrapping_add(b));
                Ok(false)
            },
            Instruction::ADDIU => {
                let (rs, rt, immediate) = Self::get_immediate_instructions_values(instruction);
                if rt == 0 {
                    return Err(VmError::ZeroRegisterWrite);
                }
                let a = self.read_reg(rs);
                proof {
                    lemma_wrapping_add(a, imm_of(instruction));
                }
                self.set_reg(rt, a.wrapping_add(immediate));
                Ok(false)
            },
            Instruction::ANDI => {
                let (rs, rt, immediate) = Self::get_immediate_instructions_values(instruction);
                if rt == 0 {
                    return Err(VmError::ZeroRegisterWrite);
                }
                let v = self.read_reg(rs) & immediate;
                self.set_reg(rt, v);
                Ok(false)
            },
            Instruction::ORI => {
                let (rs, rt, immediate) = Self::get_immediate_instructions_values(instruction);
                if rt == 0 {
                    return Err(VmError::ZeroRegisterWrite);
                }
                let v = self.read_reg(rs) | immediate;
                self.set_reg(rt, v);
                Ok(false)
            },
            Instruction::XORI => {
                let (rs, rt, immediate) = Self::get_immediate_instructions_values(instruction);
                if rt == 0 {
                    return Err(VmError::ZeroRegisterWrite);
                }
                let v = self.read_reg(rs) ^ immediate;
                self.set_reg(rt, v);
                Ok(false)
            },
            Instruction::SLTI => {
                let (rs, rt, immediate) = Self::get_immediate_instructions_values(instruction);
                if rt == 0 {
                    return Err(VmError::ZeroRegisterWrite);
                }
                let a = self.read_reg(rs);
                let b = sign_extend_half(immediate);
                let lt = if (a >= 0x8000_0000) != (b >= 0x8000_0000) {
                    a >= 0x8000_0000
                } else {
                    a < b
                };
                proof {
                    assert(lt == (as_signed(a) < as_signed(b)));
                }
                self.set_reg(rt, if lt { 1 } else { 0 });
                Ok(false)
            },
            Instruction::SLTIU => {
                let (rs, rt, immediate) = Self::get_immediate_instructions_values(instruction);
                if rt == 0 {
                    return Err(VmError::ZeroRegisterWrite);
                }
                let a = self.read_reg(rs);
                self.set_reg(rt, if a < immediate { 1 } else { 0 });
                Ok(false)
            },
            Instruction::LUI => {
                let (_rs, rt, immediate) = Self::get_immediate_instructions_values(instruction);
                if rt == 0 {
                    return Err(VmError::ZeroRegisterWrite);
                }
                self.set_reg(rt, immediate << 16u32);
                Ok(false)
            },
            Instruction::LB => self.load_byte(instruction, true),
            Instruction::LBU => self.load_byte(instruction, false),
            Instruction::LHW => self.load_half(instruction, true),
            Instruction::LHWU => self.load_half(instruction, false),
            Instruction::LW => self.load_word(instruction),
            Instruction::SB => self.store_byte(instruction),
            Instruction::SHW => self.store_half(instruction),
            Instruction::SW => self.store_word(instruction),
            Instruction::BEQ => {
                let (rs, rt, immediate) = Self::get_immediate_instructions_values(instruction);
                let taken = self.read_reg(rs) == self.read_reg(rt);
                if taken {
                    self.branch(sign_extend_half(immediate));
                }
                Ok(false)
            },
            Instruction::BNE => {
                let (rs, rt, immediate) = Self::get_immediate_instructions_values(instruction);
                let taken = self.read_reg(rs) != self.read_reg(rt);
                if taken {
                    self.branch(sign_extend_half(immediate));
                }
                Ok(false)
            },
            Instruction::BLEZ => {
                let (rs, _rt, immediate) = Self::get_immediate_instructions_values(instruction);
                let v = self.read_reg(rs);
                if v == 0 || v >= 0x8000_0000 {
                    self.branch(sign_extend_half(immediate));
                }
                Ok(false)
            },
            Instruction::BGTZ => {
                let (rs, _rt, immediate) = Self::get_immediate_instructions_values(instruction);
                let v = self.read_reg(rs);
                if v < 0x8000_0000 {
                    self.branch(sign_extend_half(immediate));
                }
                Ok(false)
            },
            Instruction::REGIMM => self.regimm_branching(instruction),
            Instruction::J => {
                let target = self.get_jump_address(instruction);
                self.pc = target;
                proof {
                    assert(self@ =~= (MachineView {
                        pc: spec_jump_target(old(self)@.pc, instruction),
                        ..old(self)@
                    }));
                }
                Ok(false)
            },
            Instruction::JAL => {
                self.link();
                let target = self.get_jump_address(instruction);
                self.pc = target;
                proof {
                    assert(self@ =~= (MachineView {
                        pc: spec_jump_target(old(self)@.pc, instruction),
                        ..spec_link(old(self)@)
                    }));
                }
                Ok(false)
            },
            Instruction::LWC1 => Err(VmError::NotImplemented),
            Instruction::LWL => Err(VmError::NotImplemented),
            Instruction::LWR => Err(VmError::NotImplemented),
            Instruction::SWR => Err(VmError::NotImplemented),
            Instruction::SWL => Err(VmError::NotImplemented),
            Instruction::SWC1 => Err(VmError::NotImplemented),
            Instruction::COP1 => Err(VmError::NotImplemented),
        }
    }

    /// Read the word at the program counter through the memory mapper,
    /// interpret it big-endian, and advance the program counter by
    /// four.
    fn fetch(&mut self) -> (r: Result<u32, VmError>)
        requires
            old(self).wf(),
        ensures
            final(self).wf(),
            (match mm_read_word(old(self)@.regions, old(self)@.pc) {
                Ok(s) => r matches Ok(w) && w == word_from_be(s[0], s[1], s[2], s[3])
                    && final(self)@ == (MachineView { pc: wrap_u32(old(self)@.pc + 4), ..old(
                    self,
                )@ }),
                Err(e) => r matches Err(e2) && e2 == e && final(self)@ == old(self)@,
            }),
    {
        let bytes = match self.memory_mapper.get_word(self.pc) {
            Err(e) => {
                return Err(e);
            },
            Ok(b) => b,
        };
        let res = word_from_be_bytes(&bytes);
        let pc0 = self.pc;
        proof {
            lemma_wrapping_add(pc0, 4);
        }
        self.pc = pc0.wrapping_add(4);
        proof {
            assert(self@ =~= (MachineView { pc: wrap_u32(old(self)@.pc + 4), ..old(self)@ }));
        }
        Ok(res)
    }

    /// One cycle: fetch, then execute.
    pub fn step(&mut self) -> (r: Result<bool, VmError>)
        requires
            old(self).wf(),
        ensures
            final(self).wf(),
            final(self)@ == spec_step(old(self)@).0,
            r == spec_step(old(self)@).1,
    {
        let instruction = match self.fetch() {
            Err(e) => {
                return Err(e);
            },
            Ok(w) => w,
        };
        self.execute(instruction)
    }

    /// The driving loop: step until an instruction signals the halt,
    /// a fatal condition surfaces, or the cycle budget runs out.
    /// `Ok(true)` says the halting cycle was reached and the machine
    /// ends exactly where it leaves it; `Ok(false)` says the budget
    /// ran out after exactly that many non-halting cycles; `Err`
    /// surfaces the first fatal condition, the machine ending where
    /// the failing cycle leaves it.
    pub fn run(&mut self, max_cycles: u64) -> (r: Result<bool, VmError>)
        requires
            old(self).wf(),
        ensures
            final(self).wf(),
            (match r {
                Ok(halted) => if halted {
                    exists|n: nat, mid: MachineView|
                        #[trigger] runs_to(old(self)@, mid, n) && spec_step(mid).1 == Ok::<
                            bool,
                            VmError,
                        >(true) && final(self)@ == spec_step(mid).0
                } else {
                    runs_to(old(self)@, final(self)@, max_cycles as nat)
                },
                Err(e) => exists|n: nat, mid: MachineView|
                    #[trigger] runs_to(old(self)@, mid, n) && spec_step(mid).1 == Err::<
                        bool,
                        VmError,
                    >(e) && final(self)@ == spec_step(mid).0,
            }),
    {
        let mut i: u64 = 0;
        while i < max_cycles
            invariant
                i <= max_cycles,
                self.wf(),
                runs_to(old(self)@, self@, i as nat),
            decreases max_cycles - i,
        {
            let ghost cur = self@;
            match self.step() {
                Err(e) => {
                    proof {
                        assert(runs_to(old(self)@, cur, i as nat));
                    }
                    return Err(e);
                },
                Ok(true) => {
                    proof {
                        assert(runs_to(old(self)@, cur, i as nat));
                    }
                    return Ok(true);
                },
                Ok(false) => {
                    proof {
                        lemma_runs_to_snoc(old(self)@, cur, i as nat);
                        assert(runs_to(old(self)@, self@, i as nat + 1));
                    }
                    i = i + 1;
                },
            }
        }
        Ok(false)
    }
}

/// Pack an immediate-format word from its fields, as the external
/// loader lays them out.
pub fn form_i_instruction(op_code: u32, rs: u32, rd: u32, immediate: u32) -> (r: u32)
    requires
        op_code < 64,
        rs < 32,
        rd < 32,
        immediate < 0x1_0000,
    ensures
        op_of(r) == op_code,
        rs_of(r) == rs,
        rt_of(r) == rd,
        imm_of(r) == immediate,
{
    let r = (op_code << 26u32) | (rs << 21u32) | (rd << 16u32) | immediate;
    proof {
        assert(r >> 26 == op_code && (r >> 21) & 0x1f == rs && (r >> 16) & 0x1f == rd && r & 0xffff
            == immediate) by (bit_vector)
            requires
                op_code < 64,
                rs < 32,
                rd < 32,
                immediate < 0x1_0000,
                r == (op_code << 26u32) | (rs << 21u32) | (rd << 16u32) | immediate,
        ;
    }
    r
}

/// Pack a register-format word from its fields.
pub fn form_r_instruction(op_code: u32, rs: u32, rt: u32, rd: u32, shift_amount: u32, function: u32) -> (r: u32)
    requires
        op_code < 64,
        rs < 32,
        rt < 32,
        rd < 32,
        shift_amount < 32,
        function < 64,
    ensures
        op_of(r) == op_code,
        rs_of(r) == rs,
        rt_of(r) == rt,
        rd_of(r) == rd,
        shamt_of(r) == shift_amount,
        funct_of(r) == function,
{
    let r = (op_code << 26u32) | (rs << 21u32) | (rt << 16u32) | (rd << 11u32) | (shift_amount
        << 6u32) | function;
    proof {
        assert(r >> 26 == op_code && (r >> 21) & 0x1f == rs && (r >> 16) & 0x1f == rt && (r >> 11)
            & 0x1f == rd && (r >> 6) & 0x1f == shift_amount && r & 0x3f == function)
            by (bit_vector)
            requires
                op_code < 64,
                rs < 32,
                rt < 32,
                rd < 32,
                shift_amount < 32,
                function < 64,
                r == (op_code << 26u32) | (rs << 21u32) | (rt << 16u32) | (rd << 11u32) | (
                shift_amount << 6u32) | function,
        ;
    }
    r
}

/// For all source registers, with a nonzero target register and a
/// nonzero destination, ADD with shift amount 0 succeeds and leaves
/// the destination holding the wrapping sum of the two sources.
pub proof fn lemma_add_wraps(pre: MachineView, rs: u32, rt: u32, rd: u32)
    requires
        view_wf(pre),
        rs < 32,
        rt < 32,
        rd < 32,
        rt != 0,
        rd != 0,
    ensures
        spec_alu(pre, rs, rt, rd, 0, 0o40).1 == Ok::<bool, VmError>(false),
        reg(spec_alu(pre, rs, rt, rd, 0, 0o40).0, rd) == wrap_u32(reg(pre, rs) + reg(pre, rt)),
{
}

/// Any R-type function except the syscall, aimed at destination
/// register 0, fails with the zero-register-write condition and
/// leaves the machine unchanged.
pub proof fn lemma_zero_register_write(pre: MachineView, rs: u32, rt: u32, sh: u32, funct: u32)
    requires
        spec_decode_function(funct) matches Some(f) && !(f matches Function::SYSCALL),
    ensures
        spec_alu(pre, rs, rt, 0, sh, funct) == (
            pre,
            Err::<bool, VmError>(VmError::ZeroRegisterWrite),
        ),
{
}

/// DIV and DIVU with a zero divisor fail with the divide-by-zero
/// condition and leave the machine, hi and lo included, unchanged.
/// A destination register of 0 is left out: there the
/// zero-register-write condition fires first.
pub proof fn lemma_divide_by_zero(pre: MachineView, rs: u32, rt: u32, rd: u32, sh: u32)
    requires
        rt < 32,
        reg(pre, rt) == 0,
        rd != 0,
    ensures
        spec_alu(pre, rs, rt, rd, sh, 0o32) == (pre, Err::<bool, VmError>(VmError::DivideByZero)),
        spec_alu(pre, rs, rt, rd, sh, 0o33) == (pre, Err::<bool, VmError>(VmError::DivideByZero)),
        spec_alu(pre, rs, rt, rd, sh, 0o32).0.hi == pre.hi,
        spec_alu(pre, rs, rt, rd, sh, 0o32).0.lo == pre.lo,
        spec_alu(pre, rs, rt, rd, sh, 0o33).0.hi == pre.hi,
        spec_alu(pre, rs, rt, rd, sh, 0o33).0.lo == pre.lo,
{
}


/// The register-file invariant survives any R-type operation.
pub proof fn lemma_alu_preserves_wf(pre: MachineView, rs: u32, rt: u32, rd: u32, sh: u32, funct: u32)
    requires
        view_wf(pre),
        rd < 32,
    ensures
        view_wf(spec_alu(pre, rs, rt, rd, sh, funct).0),
{
    match spec_decode_function(funct) {
        None => {},
        Some(f) => {
            if rd == 0 && !(f matches Function::SYSCALL) {
            } else {
                match f {
                    Function::ADD | Function::ADDU | Function::SUB | Function::SUBU
                    | Function::AND | Function::OR | Function::XOR | Function::NOR
                    | Function::SLL | Function::SRL | Function::SLLV | Function::SRLV
                    | Function::SLT | Function::SLTU | Function::SRA | Function::SRAV
                    | Function::MFHI | Function::MFLO => {
                        assert(spec_alu(pre, rs, rt, rd, sh, funct).0.regs[0] == pre.regs[0]);
                    },
                    _ => {
                        assert(spec_alu(pre, rs, rt, rd, sh, funct).0.regs == pre.regs);
                    },
                }
            }
        },
    }
}

/// The register-file invariant survives any single instruction:
/// register 0 still reads as zero, and the file still has 32 slots.
pub proof fn lemma_execute_preserves_wf(pre: MachineView, w: u32)
    requires
        view_wf(pre),
    ensures
        view_wf(spec_execute(pre, w).0),
{
    lemma_mask5_bound(w >> 21);
    lemma_mask5_bound(w >> 16);
    lemma_mask5_bound(w >> 11);
    match spec_decode_opcode(op_of(w)) {
        None => {},
        Some(op) => match op {
            Instruction::R => {
                lemma_alu_preserves_wf(pre, rs_of(w), rt_of(w), rd_of(w), shamt_of(w), funct_of(w));
            },
            Instruction::REGIMM => {
                match spec_decode_branch(rt_of(w)) {
                    None => {},
                    Some(br) => {
                        assert(spec_link(pre).regs[0] == pre.regs[0]);
                        assert(view_wf(spec_regimm(pre, w).0));
                    },
                }
            },
            Instruction::JAL => {
                assert(spec_link(pre).regs[0] == pre.regs[0]);
            },
            _ => {
                assert(view_wf(spec_execute(pre, w).0));
            },
        },
    }
}

/// The register-file invariant survives any whole cycle.
pub proof fn lemma_step_preserves_wf(pre: MachineView)
    requires
        view_wf(pre),
    ensures
        view_wf(spec_step(pre).0),
{
    match mm_read_word(pre.regions, pre.pc) {
        Err(e) => {},
        Ok(s) => {
            let w = word_from_be(s[0], s[1], s[2], s[3]);
            let fetched = MachineView { pc: wrap_u32(pre.pc + 4), ..pre };
            lemma_execute_preserves_wf(fetched, w);
        },
    }
}

impl CPU {
    /// Drain every mapped screen device's pending rendering actions,
    /// in region order, leaving the rest of the machine untouched.
    pub fn take_screen_actions(&mut self) -> (r: Vec<ScreenAction>)
        requires
            old(self).wf(),
        ensures
            final(self).wf(),
            r@ == all_actions(old(self)@.regions),
            final(self)@ == (MachineView { regions: drained(old(self)@.regions), ..old(self)@ }),
    {
        let r = self.memory_mapper.take_screen_actions();
        proof {
            assert(self@ =~= (MachineView { regions: drained(old(self)@.regions), ..old(
                self,
            )@ }));
        }
        r
    }
}

} // verus!
