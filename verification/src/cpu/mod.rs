//! Processor state.
pub mod instructions;
pub mod mmu;

use vstd::prelude::*;
use crate::memory::{init_ram, RAM_SIZE};
use crate::bus::Bus;
use crate::bus::ram::{RAM_BASE, RAM_OFFSET};
use crate::instructions::{OP, OP_IMM, LOAD, JALR, STORE, BRANCH, JAL, LUI, AUIPC};
use crate::instructions::decode::opcode_of;
use self::instructions::{exec_defined, exec_effect};

verus! {

/// Initial stack pointer of a `CpuData`: the top of its memory.
pub const STACK_TOP: u64 = 0x40_0000;

/// A hart together with the memory it addresses directly (address = index).
pub struct CpuData {
    pub gpr: [u64; 32],
    pub pc: u64,
    pub satp: u64,
    pub mem: Vec<u8>,
}

/// Privilege levels.
pub enum CpuPriv {
    U,
    S,
    M,
}

impl CpuPriv {
    /// The encoding of the level: U 0, S 1, M 3.
    pub fn to_u64(&self) -> (r: u64)
        ensures
            r == (match self {
                CpuPriv::U => 0u64,
                CpuPriv::S => 1u64,
                CpuPriv::M => 3u64,
            }),
    {
        match self {
            CpuPriv::U => 0,
            CpuPriv::S => 1,
            CpuPriv::M => 3,
        }
    }
}

/// Outcomes of running the processor (`Running`: no event, execution goes on).
pub enum CpuStatus {
    Running,
    Halt,
    Trap,
    ErrFetchFault,
    ErrIllegalInsn,
    ErrMisaligned,
}

/// A hart of the full system: registers, control and status registers, privilege level
/// and address-translation root; its loads and stores go through a `Bus`.
pub struct Cpu {
    pub gpr: [u64; 32],
    pub csr: [u64; 4096],
    pub pc: u64,
    pub privilege: u64,
    pub satp: u64,
}

impl Cpu {
    /// Registers and CSRs cleared, stack pointer (x2) at the top of main memory, pc at the
    /// start of main memory, user privilege, bare translation.
    pub fn new() -> (cpu: Self)
        ensures
            cpu.gpr@ == Seq::new(32, |i: int| if i == 2 { RAM_OFFSET } else { 0u64 }),
            cpu.csr@ == Seq::new(4096, |i: int| 0u64),
            cpu.pc == RAM_BASE,
            cpu.privilege == 0,
            cpu.satp == 0,
    {
        let mut cpu = Cpu { gpr: [0;32], csr: [0;4096], pc: 0, privilege: 0, satp: 0 };
        cpu.gpr[2] = RAM_OFFSET;
        cpu.pc = 0x8000_0000;
        assert(cpu.gpr@ =~= Seq::new(32, |i: int| if i == 2 { RAM_OFFSET } else { 0u64 }));
        assert(cpu.csr@ =~= Seq::new(4096, |i: int| 0u64));
        cpu
    }

    /// Executes one instruction: decodes its opcode and hands it to the handler of its
    /// format. Loads and stores go through `bus`.
    pub fn execute(&mut self, bus: &mut Bus, instruction: u32)
        requires
            old(bus).wf(),
            exec_defined(old(self).gpr@, old(self).pc, old(bus).ram.ram@, old(bus).uart.rx@, instruction),
        ensures
            final(bus).wf(),
            (final(self).gpr@, final(self).pc, final(bus).ram.ram@, final(bus).uart.rx@, final(bus).uart.tx@) == exec_effect(
                old(self).gpr@,
                old(self).pc,
                old(bus).ram.ram@,
                old(bus).uart.rx@,
                old(bus).uart.tx@,
                instruction,
            ),
            final(self).csr@ == old(self).csr@,
            final(self).privilege == old(self).privilege,
            final(self).satp == old(self).satp,
    {
        let opcode = opcode_of(instruction);
        if opcode == OP {
            self.ins_r(instruction);
        } else if opcode == OP_IMM || opcode == LOAD || opcode == JALR {
            self.ins_i(instruction, bus);
        } else if opcode == STORE {
            self.ins_s(instruction, bus);
        } else if opcode == BRANCH {
            self.ins_b(instruction);
        } else if opcode == JAL {
            self.ins_j(instruction);
        } else {
            self.ins_u(instruction);
        }
    }
}

impl CpuData {
    /// Registers cleared except the stack pointer (x2), which points at the top of a
    /// zero-filled memory of `RAM_SIZE` bytes; pc 0, bare address translation.
    pub fn new() -> (cpu: Self)
        ensures
            cpu.gpr@ == Seq::new(32, |i: int| if i == 2 { STACK_TOP } else { 0u64 }),
            cpu.pc == 0,
            cpu.satp == 0,
            cpu.mem@.len() == RAM_SIZE,
            forall|i: int| 0 <= i < RAM_SIZE ==> cpu.mem@[i] == 0,
    {
        let mut gpr = [0u64; 32];
        gpr[2] = STACK_TOP;
        let cpu = CpuData { gpr, pc: 0, satp: 0, mem: init_ram() };
        assert(cpu.gpr@ =~= Seq::new(32, |i: int| if i == 2 { STACK_TOP } else { 0u64 }));
        cpu
    }
}

} // verus!
