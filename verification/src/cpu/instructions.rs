//! Instruction handlers of `Cpu`: the same RV32I + M semantics as
//! `crate::instructions`, with loads and stores addressed to the system bus.
use vstd::prelude::*;
use crate::bus::{
    Bus, bus_read16, bus_read16_ready, bus_read32, bus_read32_ready, bus_read8, bus_read8_ready,
    bus_write16, bus_write32, bus_write8, mapped_range,
};
use crate::cpu::Cpu;
use crate::memory::{lemma_le_split, lemma_sign_widen};
use crate::instructions::{
    access_width, b_defined, b_effect, ins_defined, ins_effect, j_defined, j_effect, jalr_defined, jalr_effect,
    load_address, load_value, next_pc_ok, op_imm_effect, op_imm_ok, r_defined, r_effect, set_reg,
    store_address, u_defined, u_effect, sign_extends, lemma_sext_extends, AUIPC, BRANCH, JAL, JALR, LOAD, LUI, OP, OP_IMM, STORE,
};
use crate::instructions::decode::{
    funct3, funct3_of, funct7_of, imm_b_of, imm_i, imm_i_of, imm_j_of, imm_s, imm_s_of, imm_u_of,
    opcode, opcode_of, rd, rd_of, rs1, rs1_of, rs2, rs2_of, sext, wrap32,
};
use crate::instructions::semantics::{
    exec_branch, exec_op, exec_op_imm, extend_loaded, lemma_u64_casts, load_extend,
    offset_address, offset_in_range, offset_target,
};

verus! {

/// Receive queue after a load of kind funct3 at bus address `addr`, and the register value
/// it produces.
pub open spec fn bus_load(ram: Seq<u8>, rx: Seq<u8>, f3: int, addr: int) -> (Seq<u8>, int) {
    let w = access_width(f3);
    let (rx2, v) = if w == 1 {
        bus_read8(ram, rx, addr)
    } else if w == 2 {
        bus_read16(ram, rx, addr)
    } else {
        bus_read32(ram, rx, addr)
    };
    (rx2, load_value(f3, v))
}

/// Main memory and transmit queue after a store of kind funct3 of `v` at bus address `addr`.
pub open spec fn bus_store(ram: Seq<u8>, tx: Seq<u8>, f3: int, addr: int, v: int) -> (
    Seq<u8>,
    Seq<u8>,
) {
    let w = access_width(f3);
    if w == 1 {
        bus_write8(ram, tx, addr, (v % 0x100) as u8)
    } else if w == 2 {
        bus_write16(ram, tx, addr, v % 0x1_0000)
    } else {
        bus_write32(ram, tx, addr, v)
    }
}

/// Whether a load of kind funct3 at bus address `addr` can complete: every read of the
/// UART's receive register it makes finds a byte waiting.
pub open spec fn bus_load_ready(ram: Seq<u8>, rx: Seq<u8>, f3: int, addr: int) -> bool {
    let w = access_width(f3);
    if w == 1 {
        bus_read8_ready(rx, addr)
    } else if w == 2 {
        bus_read16_ready(ram, rx, addr)
    } else {
        bus_read32_ready(ram, rx, addr)
    }
}

pub open spec fn bus_load_defined(gpr: Seq<u64>, pc: u64, ram: Seq<u8>, rx: Seq<u8>, i: u32) -> bool {
    &&& next_pc_ok(pc)
    &&& funct3(i) <= 4
    &&& offset_in_range(gpr[rs1(i)], imm_i(i))
    &&& mapped_range(load_address(gpr, i), access_width(funct3(i)))
    &&& bus_load_ready(ram, rx, funct3(i), load_address(gpr, i))
}

pub open spec fn bus_store_defined(gpr: Seq<u64>, pc: u64, i: u32) -> bool {
    &&& next_pc_ok(pc)
    &&& funct3(i) <= 2
    &&& offset_in_range(gpr[rs1(i)], imm_s(i))
    &&& mapped_range(store_address(gpr, i), access_width(funct3(i)))
}

/// Whether `i` is an implemented instruction that executes without a fault on a hart with
/// registers `gpr` and program counter `pc` attached to a system bus with main memory `ram`
/// and console input `rx` (a load from the UART's receive register waits for input).
pub open spec fn exec_defined(gpr: Seq<u64>, pc: u64, ram: Seq<u8>, rx: Seq<u8>, i: u32) -> bool {
    let op = opcode(i);
    if op == OP {
        r_defined(gpr, pc, i)
    } else if op == OP_IMM {
        op_imm_ok(pc, i)
    } else if op == LOAD {
        bus_load_defined(gpr, pc, ram, rx, i)
    } else if op == JALR {
        jalr_defined(gpr, pc, i)
    } else if op == STORE {
        bus_store_defined(gpr, pc, i)
    } else if op == BRANCH {
        b_defined(gpr, pc, i)
    } else if op == JAL {
        j_defined(gpr, pc, i)
    } else if op == LUI || op == AUIPC {
        u_defined(pc, i)
    } else {
        false
    }
}

/// Registers, pc, main memory, receive queue and transmit queue after executing `i`.
pub open spec fn exec_effect(
    gpr: Seq<u64>,
    pc: u64,
    ram: Seq<u8>,
    rx: Seq<u8>,
    tx: Seq<u8>,
    i: u32,
) -> (Seq<u64>, u64, Seq<u8>, Seq<u8>, Seq<u8>) {
    let op = opcode(i);
    if op == OP {
        let (g, p) = r_effect(gpr, pc, i);
        (g, p, ram, rx, tx)
    } else if op == OP_IMM {
        let (g, p) = op_imm_effect(gpr, pc, i);
        (g, p, ram, rx, tx)
    } else if op == LOAD {
        let (rx2, v) = bus_load(ram, rx, funct3(i), load_address(gpr, i));
        (set_reg(gpr, rd(i), v), (pc + 4) as u64, ram, rx2, tx)
    } else if op == JALR {
        let (g, p) = jalr_effect(gpr, pc, i);
        (g, p, ram, rx, tx)
    } else if op == STORE {
        let (ram2, tx2) = bus_store(
            ram,
            tx,
            funct3(i),
            store_address(gpr, i),
            wrap32(gpr[rs2(i)] as int),
        );
        (gpr, (pc + 4) as u64, ram2, rx, tx2)
    } else if op == BRANCH {
        let (g, p) = b_effect(gpr, pc, i);
        (g, p, ram, rx, tx)
    } else if op == JAL {
        let (g, p) = j_effect(gpr, pc, i);
        (g, p, ram, rx, tx)
    } else {
        let (g, p) = u_effect(gpr, pc, i);
        (g, p, ram, rx, tx)
    }
}

impl Cpu {
    /// Executes a branch: to `pc + imm` when taken, else to the next instruction.
    pub(super) fn ins_b(&mut self, instruction: u32)
        requires
            b_defined(old(self).gpr@, old(self).pc, instruction),
        ensures
            (final(self).gpr@, final(self).pc) == b_effect(old(self).gpr@, old(self).pc, instruction),
            final(self).csr@ == old(self).csr@,
            final(self).privilege == old(self).privilege,
            final(self).satp == old(self).satp,
    {
        let funct3 = funct3_of(instruction);
        let rs1 = rs1_of(instruction);
        let rs2 = rs2_of(instruction);
        let imm = imm_b_of(instruction);

        if exec_branch(funct3, self.gpr[rs1], self.gpr[rs2]) {
            self.pc = offset_target(self.pc, imm);
            return ;
        }
        self.pc += 4;
    }

    /// Executes an OP instruction (base integer or M extension); a write to x0 is dropped.
    pub(super) fn ins_r(&mut self, instruction: u32)
        requires
            r_defined(old(self).gpr@, old(self).pc, instruction),
        ensures
            (final(self).gpr@, final(self).pc) == r_effect(old(self).gpr@, old(self).pc, instruction),
            final(self).csr@ == old(self).csr@,
            final(self).privilege == old(self).privilege,
            final(self).satp == old(self).satp,
    {
        let rd = rd_of(instruction);
        let funct3 = funct3_of(instruction);
        let rs1 = rs1_of(instruction);
        let rs2 = rs2_of(instruction);
        let funct7 = funct7_of(instruction);

        if rd == 0 {
            self.pc += 4;
            return ;
        }
        self.gpr[rd] = exec_op(funct3, funct7, self.gpr[rs1], self.gpr[rs2]);
        self.pc += 4;
    }

    /// Loads a value of kind funct3 (LB, LH, LW, LBU, LHU) at bus address `addr`, as 32 bits.
    fn ins_i_load(funct3: u8, bus: &mut Bus, addr: u32) -> (r: u32)
        requires
            funct3 <= 4,
            old(bus).wf(),
            mapped_range(addr as int, access_width(funct3 as int)),
            bus_load_ready(old(bus).ram.ram@, old(bus).uart.rx@, funct3 as int, addr as int),
        ensures
            final(bus).wf(),
            (final(bus).uart.rx@, load_extend(funct3 as int, r)) == bus_load(
                old(bus).ram.ram@,
                old(bus).uart.rx@,
                funct3 as int,
                addr as int,
            ),
            final(bus).ram.ram@ == old(bus).ram.ram@,
            final(bus).uart.tx@ == old(bus).uart.tx@,
    {
        proof {
            vstd::arithmetic::power2::lemma2_to64();
        }
        assert(crate::bus::mapped(addr + 0));
        if funct3 == 0x0 {
            let b = bus.read8(addr as u64);
            proof {
                lemma_sign_widen(b, 0, 0);
            }
            (b as i8 as i32) as u32
        } else if funct3 == 0x1 {
            let h = bus.read16(addr as u64);
            proof {
                lemma_sign_widen(0, h, 0);
            }
            (h as i16 as i32) as u32
        } else if funct3 == 0x2 {
            bus.read32(addr as u64)
        } else if funct3 == 0x3 {
            bus.read8(addr as u64) as u32
        } else {
            bus.read16(addr as u64) as u32
        }
    }

    /// Executes an I-type instruction: OP-IMM, a load, or JALR.
    pub(super) fn ins_i(&mut self, instruction: u32, bus: &mut Bus)
        requires
            old(bus).wf(),
            opcode(instruction) == OP_IMM || opcode(instruction) == LOAD || opcode(instruction) == JALR,
            exec_defined(old(self).gpr@, old(self).pc, old(bus).ram.ram@, old(bus).uart.rx@, instruction),
        ensures
            final(bus).wf(),
            (final(self).gpr@, final(self).pc, final(bus).ram.ram@, final(bus).uart.rx@, final(bus).uart.tx@) == exec_effect(
                old(self).gpr@,
                old(self).pc,
                old(bus).ram.ram@,
                old(bus).uart.rx@,
                old(bus).uart.tx@,
                instruction,
            ),
            final(self).csr@ == old(self).csr@,
            final(self).privilege == old(self).privilege,
            final(self).satp == old(self).satp,
    {
        let opcode = opcode_of(instruction);
        let rd = rd_of(instruction);
        let funct3 = funct3_of(instruction);
        let rs1 = rs1_of(instruction);
        let imm = imm_i_of(instruction);

        if opcode == OP_IMM {
            // register-immediate arithmetic
            let v = exec_op_imm(funct3, imm, self.gpr[rs1]);
            if rd != 0 {
                self.gpr[rd] = v;
            }
        } else if opcode == LOAD {
            // load
            let addr = offset_address(self.gpr[rs1], imm);
            let loaded = Self::ins_i_load(funct3, bus, addr);
            if rd != 0 {
                self.gpr[rd] = extend_loaded(funct3, loaded);
            }
        } else {
            // jump and link register: the target is computed from rs1 before rd is written
            let target = offset_target(self.gpr[rs1], imm);
            if rd != 0 {
                self.gpr[rd] = self.pc + 4;
            }
            self.pc = target;
            return ;
        }
        self.pc += 4;
    }

    /// Executes a store (SB, SH, SW) of the low bits of rs2 at bus address `x[rs1] + imm`.
    pub(super) fn ins_s(&mut self, instruction: u32, bus: &mut Bus)
        requires
            old(bus).wf(),
            bus_store_defined(old(self).gpr@, old(self).pc, instruction),
        ensures
            final(bus).wf(),
            final(self).gpr@ == old(self).gpr@,
            final(self).pc == old(self).pc + 4,
            (final(bus).ram.ram@, final(bus).uart.tx@) == bus_store(
                old(bus).ram.ram@,
                old(bus).uart.tx@,
                funct3(instruction),
                store_address(old(self).gpr@, instruction),
                wrap32(old(self).gpr@[rs2(instruction)] as int),
            ),
            final(bus).uart.rx@ == old(bus).uart.rx@,
            final(self).csr@ == old(self).csr@,
            final(self).privilege == old(self).privilege,
            final(self).satp == old(self).satp,
    {
        let funct3 = funct3_of(instruction);
        let rs1 = rs1_of(instruction);
        let rs2 = rs2_of(instruction);
        let imm = imm_s_of(instruction);

        let rs1_val = self.gpr[rs1];
        let rs2_val: u32 = self.gpr[rs2] as u32;
        let addr: u32 = offset_address(rs1_val, imm);
        proof {
            lemma_u64_casts(self.gpr@[rs2 as int]);
            lemma_le_split(0, rs2_val, 0);
        }

        assert(crate::bus::mapped(addr + 0));
        if funct3 == 0x0 {
            bus.write8(addr as u64, rs2_val as u8);
        } else if funct3 == 0x1 {
            bus.write16(addr as u64, rs2_val as u16);
        } else {
            bus.write32(addr as u64, rs2_val);
        }

        self.pc += 4;
    }

    /// Executes JAL.
    pub(super) fn ins_j(&mut self, instruction: u32)
        requires
            j_defined(old(self).gpr@, old(self).pc, instruction),
        ensures
            (final(self).gpr@, final(self).pc) == j_effect(old(self).gpr@, old(self).pc, instruction),
            final(self).csr@ == old(self).csr@,
            final(self).privilege == old(self).privilege,
            final(self).satp == old(self).satp,
    {
        let rd = rd_of(instruction);
        let imm = imm_j_of(instruction);

        if rd != 0 {
            self.gpr[rd] = self.pc + 4;
        }
        self.pc = offset_target(self.pc, imm);
    }

    /// Executes LUI or AUIPC.
    pub(super) fn ins_u(&mut self, instruction: u32)
        requires
            u_defined(old(self).pc, instruction),
        ensures
            (final(self).gpr@, final(self).pc) == u_effect(old(self).gpr@, old(self).pc, instruction),
            final(self).csr@ == old(self).csr@,
            final(self).privilege == old(self).privilege,
            final(self).satp == old(self).satp,
    {
        let opcode = opcode_of(instruction);
        let rd = rd_of(instruction);
        let imm = imm_u_of(instruction);

        if rd == 0 {
        } else if opcode == LUI {
            self.gpr[rd] = imm;
        } else if opcode == AUIPC {
            self.gpr[rd] = self.pc + imm;
        }
        self.pc += 4;
    }
}

/// On instructions that do not access memory, a `Cpu` on the bus and a `CpuData` agree:
/// they accept the same instructions and change registers and pc the same way, and the
/// `Cpu` leaves the bus untouched.
pub proof fn lemma_same_register_semantics(
    gpr: Seq<u64>,
    pc: u64,
    mem: Seq<u8>,
    ram: Seq<u8>,
    rx: Seq<u8>,
    tx: Seq<u8>,
    i: u32,
)
    requires
        opcode(i) != LOAD,
        opcode(i) != STORE,
    ensures
        exec_defined(gpr, pc, ram, rx, i) == ins_defined(gpr, pc, mem, i),
        exec_defined(gpr, pc, ram, rx, i) ==> {
            let (g1, p1, ram2, rx2, tx2) = exec_effect(gpr, pc, ram, rx, tx, i);
            let (g2, p2, mem2) = ins_effect(gpr, pc, mem, i);
            &&& g1 == g2
            &&& p1 == p2
            &&& ram2 == ram
            &&& rx2 == rx
            &&& tx2 == tx
        },
{
}

/// x0 is hard-wired to zero on the bus machine too: when it reads 0 before an
/// instruction, it reads 0 after it.
pub proof fn lemma_exec_x0_stays_zero(
    gpr: Seq<u64>,
    pc: u64,
    ram: Seq<u8>,
    rx: Seq<u8>,
    tx: Seq<u8>,
    i: u32,
)
    requires
        exec_defined(gpr, pc, ram, rx, i),
        gpr.len() == 32,
        gpr[0] == 0,
    ensures
        exec_effect(gpr, pc, ram, rx, tx, i).0[0] == 0,
{
}

/// What each load through the bus gives for the bytes it reads, and how it moves the
/// console input: LBU and LB read one byte, LHU and LH a little-endian halfword, LW a word,
/// each consuming input exactly as the plain bus read does; LBU and LHU give the value read,
/// LB, LH and LW its sign-extension to 64 bits.
pub proof fn lemma_bus_load_extension(ram: Seq<u8>, rx: Seq<u8>, addr: int)
    ensures
        bus_load(ram, rx, 3, addr) == bus_read8(ram, rx, addr),
        bus_load(ram, rx, 4, addr) == bus_read16(ram, rx, addr),
        bus_load(ram, rx, 0, addr).0 == bus_read8(ram, rx, addr).0,
        bus_load(ram, rx, 1, addr).0 == bus_read16(ram, rx, addr).0,
        bus_load(ram, rx, 2, addr).0 == bus_read32(ram, rx, addr).0,
        sign_extends(bus_load(ram, rx, 0, addr).1, bus_read8(ram, rx, addr).1, 0x100),
        sign_extends(bus_load(ram, rx, 1, addr).1, bus_read16(ram, rx, addr).1, 0x1_0000),
        sign_extends(bus_load(ram, rx, 2, addr).1, bus_read32(ram, rx, addr).1, 0x1_0000_0000),
{
    vstd::arithmetic::power2::lemma2_to64();
    let (rx1, b0) = bus_read8(ram, rx, addr);
    let (rx2, b1) = bus_read8(ram, rx1, addr + 1);
    let (rx3, b2) = bus_read8(ram, rx2, addr + 2);
    let (rx4, b3) = bus_read8(ram, rx3, addr + 3);
    assert(0 <= b0 < 0x100 && 0 <= b1 < 0x100 && 0 <= b2 < 0x100 && 0 <= b3 < 0x100);
    lemma_sext_extends(bus_read8(ram, rx, addr).1, 8);
    lemma_sext_extends(bus_read16(ram, rx, addr).1, 16);
    lemma_sext_extends(bus_read32(ram, rx, addr).1, 32);
}

} // verus!
