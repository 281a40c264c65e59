//! Decoding and execution of RV32I + M instructions on a `CpuData`, whose memory is
//! addressed directly by the (32-bit) effective address.
pub mod decode;
pub mod semantics;

use vstd::prelude::*;
use vstd::arithmetic::power2::pow2;
use crate::cpu::CpuData;
use crate::memory::{
    le16, le32, load_byte, load_h, load_ubyte, load_uh, load_w, store16, store32, store8,
    store_byte, store_h, store_w,
};
use self::decode::{
    funct3, funct3_of, funct7, funct7_of, imm_b, imm_b_of, imm_i, imm_i_of, imm_j, imm_j_of, imm_s,
    imm_s_of, imm_u, imm_u_of, opcode, opcode_of, rd, rd_of, rs1, rs1_of, rs2, rs2_of, sext,
    wrap32, wrap64,
};
use self::semantics::{
    branch_defined, branch_taken, exec_branch, exec_op, exec_op_imm, extend_loaded,
    lemma_u64_casts, load_extend, offset_address, offset_in_range, offset_target, op_defined,
    op_imm_defined, op_imm_implemented, op_imm_result, op_implemented, op_result,
};

verus! {

// ---------------------------------------------------------------------------
// Opcodes
// ---------------------------------------------------------------------------

/// Register-register operations (R-type).
pub const OP: u8 = 0b0110011;

/// Register-immediate operations (I-type).
pub const OP_IMM: u8 = 0b0010011;

/// Loads (I-type).
pub const LOAD: u8 = 0b0000011;

/// Jump and link register (I-type).
pub const JALR: u8 = 0b1100111;

/// Stores (S-type).
pub const STORE: u8 = 0b0100011;

/// Conditional branches (B-type).
pub const BRANCH: u8 = 0b1100011;

/// Jump and link (J-type).
pub const JAL: u8 = 0b1101111;

/// Load upper immediate (U-type).
pub const LUI: u8 = 0b0110111;

/// Add upper immediate to pc (U-type).
pub const AUIPC: u8 = 0b0010111;

// ---------------------------------------------------------------------------
// Architectural effect of one instruction
// ---------------------------------------------------------------------------

/// `gpr` after writing `v` to register `r`: x0 is hard-wired to zero, so a write to it
/// changes nothing.
pub open spec fn set_reg(gpr: Seq<u64>, r: int, v: int) -> Seq<u64> {
    if r == 0 {
        gpr
    } else {
        gpr.update(r, v as u64)
    }
}

/// Whether `pc + 4` fits in 64 bits.
pub open spec fn next_pc_ok(pc: u64) -> bool {
    pc + 4 <= u64::MAX
}

/// The number of bytes a load or store of kind funct3 accesses: byte accesses are
/// funct3 0 (LB, SB) and 3 (LBU), halfword accesses 1 (LH, SH) and 4 (LHU), word
/// accesses 2 (LW, SW).
pub open spec fn access_width(f3: int) -> int {
    if f3 == 0 || f3 == 3 {
        1
    } else if f3 == 1 || f3 == 4 {
        2
    } else {
        4
    }
}

/// The register value a load of kind funct3 produces from the little-endian value `v` of
/// the bytes it reads: LB, LH, LW sign-extend, LBU, LHU zero-extend.
pub open spec fn load_value(f3: int, v: int) -> int {
    if f3 == 0 {
        wrap64(sext(v, 8))
    } else if f3 == 1 {
        wrap64(sext(v, 16))
    } else if f3 == 2 {
        wrap64(sext(v, 32))
    } else {
        v
    }
}

/// The effective address of a load: `x[rs1] + imm`, truncated to 32 bits.
pub open spec fn load_address(gpr: Seq<u64>, i: u32) -> int {
    wrap32(gpr[rs1(i)] + imm_i(i))
}

/// The effective address of a store: `x[rs1] + imm`, truncated to 32 bits.
pub open spec fn store_address(gpr: Seq<u64>, i: u32) -> int {
    wrap32(gpr[rs1(i)] + imm_s(i))
}

/// Effect of an OP instruction.
pub open spec fn r_effect(gpr: Seq<u64>, pc: u64, i: u32) -> (Seq<u64>, u64) {
    let v = op_result(funct3(i), funct7(i), gpr[rs1(i)], gpr[rs2(i)]);
    (set_reg(gpr, rd(i), v), (pc + 4) as u64)
}

pub open spec fn r_defined(gpr: Seq<u64>, pc: u64, i: u32) -> bool {
    &&& next_pc_ok(pc)
    &&& op_defined(funct3(i), funct7(i))
}

/// Effect of an OP-IMM instruction.
pub open spec fn op_imm_effect(gpr: Seq<u64>, pc: u64, i: u32) -> (Seq<u64>, u64) {
    (set_reg(gpr, rd(i), op_imm_result(funct3(i), imm_i(i), gpr[rs1(i)])), (pc + 4) as u64)
}

pub open spec fn op_imm_ok(pc: u64, i: u32) -> bool {
    &&& next_pc_ok(pc)
    &&& op_imm_defined(funct3(i), imm_i(i))
}

/// Effect of JALR: the target is `x[rs1] + imm` with the value rs1 holds before the
/// instruction; the link `pc + 4` goes to rd.
pub open spec fn jalr_effect(gpr: Seq<u64>, pc: u64, i: u32) -> (Seq<u64>, u64) {
    (set_reg(gpr, rd(i), pc + 4), wrap64(gpr[rs1(i)] + imm_i(i)) as u64)
}

pub open spec fn jalr_defined(gpr: Seq<u64>, pc: u64, i: u32) -> bool {
    &&& next_pc_ok(pc)
    &&& offset_in_range(gpr[rs1(i)], imm_i(i))
}

/// Effect of a branch: to `pc + imm` when taken, else to the next instruction.
pub open spec fn b_effect(gpr: Seq<u64>, pc: u64, i: u32) -> (Seq<u64>, u64) {
    if branch_taken(funct3(i), gpr[rs1(i)], gpr[rs2(i)]) {
        (gpr, wrap64(pc + imm_b(i)) as u64)
    } else {
        (gpr, (pc + 4) as u64)
    }
}

pub open spec fn b_defined(gpr: Seq<u64>, pc: u64, i: u32) -> bool {
    &&& branch_defined(funct3(i))
    &&& if branch_taken(funct3(i), gpr[rs1(i)], gpr[rs2(i)]) {
        offset_in_range(pc, imm_b(i))
    } else {
        next_pc_ok(pc)
    }
}

/// Effect of JAL: link `pc + 4` into rd, jump to `pc + imm`.
pub open spec fn j_effect(gpr: Seq<u64>, pc: u64, i: u32) -> (Seq<u64>, u64) {
    (set_reg(gpr, rd(i), pc + 4), wrap64(pc + imm_j(i)) as u64)
}

pub open spec fn j_defined(gpr: Seq<u64>, pc: u64, i: u32) -> bool {
    next_pc_ok(pc) && offset_in_range(pc, imm_j(i))
}

/// Effect of a U-type instruction: LUI writes the upper immediate, AUIPC adds it to pc;
/// any other opcode writes nothing. The pc advances by 4.
pub open spec fn u_effect(gpr: Seq<u64>, pc: u64, i: u32) -> (Seq<u64>, u64) {
    if opcode(i) == LUI {
        (set_reg(gpr, rd(i), imm_u(i)), (pc + 4) as u64)
    } else if opcode(i) == AUIPC {
        (set_reg(gpr, rd(i), pc + imm_u(i)), (pc + 4) as u64)
    } else {
        (gpr, (pc + 4) as u64)
    }
}

pub open spec fn u_defined(pc: u64, i: u32) -> bool {
    &&& next_pc_ok(pc)
    &&& opcode(i) == AUIPC ==> pc + imm_u(i) <= u64::MAX
}

/// The value a load of kind funct3 at `addr` reads from `mem`.
pub open spec fn mem_load(mem: Seq<u8>, f3: int, addr: int) -> int {
    let w = access_width(f3);
    load_value(
        f3,
        if w == 1 {
            mem[addr] as int
        } else if w == 2 {
            le16(mem, addr)
        } else {
            le32(mem, addr)
        },
    )
}

/// `mem` after a store of kind funct3 of the value `v` at `addr`.
pub open spec fn mem_store(mem: Seq<u8>, f3: int, addr: int, v: int) -> Seq<u8> {
    let w = access_width(f3);
    if w == 1 {
        store8(mem, addr, v)
    } else if w == 2 {
        store16(mem, addr, v)
    } else {
        store32(mem, addr, v)
    }
}

pub open spec fn load_defined(gpr: Seq<u64>, pc: u64, mem: Seq<u8>, i: u32) -> bool {
    &&& next_pc_ok(pc)
    &&& funct3(i) <= 4
    &&& offset_in_range(gpr[rs1(i)], imm_i(i))
    &&& load_address(gpr, i) + access_width(funct3(i)) <= mem.len()
}

pub open spec fn store_defined(gpr: Seq<u64>, pc: u64, mem: Seq<u8>, i: u32) -> bool {
    &&& next_pc_ok(pc)
    &&& funct3(i) <= 2
    &&& offset_in_range(gpr[rs1(i)], imm_s(i))
    &&& store_address(gpr, i) + access_width(funct3(i)) <= mem.len()
}

/// Effect of an I-type instruction (OP-IMM, LOAD or JALR); any other opcode only moves pc on.
pub open spec fn i_effect(gpr: Seq<u64>, pc: u64, mem: Seq<u8>, i: u32) -> (Seq<u64>, u64) {
    if opcode(i) == OP_IMM {
        op_imm_effect(gpr, pc, i)
    } else if opcode(i) == LOAD {
        (set_reg(gpr, rd(i), mem_load(mem, funct3(i), load_address(gpr, i))), (pc + 4) as u64)
    } else if opcode(i) == JALR {
        jalr_effect(gpr, pc, i)
    } else {
        (gpr, (pc + 4) as u64)
    }
}

pub open spec fn i_defined(gpr: Seq<u64>, pc: u64, mem: Seq<u8>, i: u32) -> bool {
    if opcode(i) == LOAD {
        load_defined(gpr, pc, mem, i)
    } else if opcode(i) == JALR {
        jalr_defined(gpr, pc, i)
    } else {
        op_imm_ok(pc, i)
    }
}

/// Whether `i` is an implemented instruction that executes without a fault on a machine with
/// registers `gpr`, program counter `pc` and memory `mem`.
pub open spec fn ins_defined(gpr: Seq<u64>, pc: u64, mem: Seq<u8>, i: u32) -> bool {
    let op = opcode(i);
    if op == OP {
        r_defined(gpr, pc, i)
    } else if op == OP_IMM || op == LOAD || op == JALR {
        i_defined(gpr, pc, mem, i)
    } else if op == STORE {
        store_defined(gpr, pc, mem, i)
    } else if op == BRANCH {
        b_defined(gpr, pc, i)
    } else if op == JAL {
        j_defined(gpr, pc, i)
    } else if op == LUI || op == AUIPC {
        u_defined(pc, i)
    } else {
        false
    }
}

/// Registers, pc and memory after executing `i` (when `ins_defined` holds).
pub open spec fn ins_effect(gpr: Seq<u64>, pc: u64, mem: Seq<u8>, i: u32) -> (
    Seq<u64>,
    u64,
    Seq<u8>,
) {
    let op = opcode(i);
    if op == OP {
        let (g, p) = r_effect(gpr, pc, i);
        (g, p, mem)
    } else if op == OP_IMM || op == LOAD || op == JALR {
        let (g, p) = i_effect(gpr, pc, mem, i);
        (g, p, mem)
    } else if op == STORE {
        (
            gpr,
            (pc + 4) as u64,
            mem_store(mem, funct3(i), store_address(gpr, i), wrap32(gpr[rs2(i)] as int)),
        )
    } else if op == BRANCH {
        let (g, p) = b_effect(gpr, pc, i);
        (g, p, mem)
    } else if op == JAL {
        let (g, p) = j_effect(gpr, pc, i);
        (g, p, mem)
    } else {
        let (g, p) = u_effect(gpr, pc, i);
        (g, p, mem)
    }
}

// ---------------------------------------------------------------------------
// Execution
// ---------------------------------------------------------------------------

/// Executes a branch: to `pc + imm` when taken, else to the next instruction.
fn ins_b(instruction: u32, cpu: &mut CpuData)
    requires
        b_defined(old(cpu).gpr@, old(cpu).pc, instruction),
    ensures
        (final(cpu).gpr@, final(cpu).pc) == b_effect(old(cpu).gpr@, old(cpu).pc, instruction),
        final(cpu).mem@ == old(cpu).mem@,
        final(cpu).satp == old(cpu).satp,
{
    let funct3 = funct3_of(instruction);
    let rs1 = rs1_of(instruction);
    let rs2 = rs2_of(instruction);
    let imm = imm_b_of(instruction);

    if exec_branch(funct3, cpu.gpr[rs1], cpu.gpr[rs2]) {
        cpu.pc = offset_target(cpu.pc, imm);
        return ;
    }
    cpu.pc += 4;
}

/// Executes an OP instruction (base integer or M extension); a write to x0 is dropped.
fn ins_r(instruction: u32, cpu: &mut CpuData)
    requires
        r_defined(old(cpu).gpr@, old(cpu).pc, instruction),
    ensures
        (final(cpu).gpr@, final(cpu).pc) == r_effect(old(cpu).gpr@, old(cpu).pc, instruction),
        final(cpu).mem@ == old(cpu).mem@,
        final(cpu).satp == old(cpu).satp,
{
    let rd = rd_of(instruction);
    let funct3 = funct3_of(instruction);
    let rs1 = rs1_of(instruction);
    let rs2 = rs2_of(instruction);
    let funct7 = funct7_of(instruction);

    if rd == 0 {
        cpu.pc += 4;
        return ;
    }
    cpu.gpr[rd] = exec_op(funct3, funct7, cpu.gpr[rs1], cpu.gpr[rs2]);
    cpu.pc += 4;
}

/// Loads a value of kind funct3 (LB, LH, LW, LBU, LHU) at `addr`, as 32 bits.
fn ins_i_load(funct3: u8, mem: &[u8], addr: u32) -> (r: u32)
    requires
        funct3 <= 4,
        addr + access_width(funct3 as int) <= mem@.len(),
    ensures
        load_extend(funct3 as int, r) == mem_load(mem@, funct3 as int, addr as int),
{
    proof {
        vstd::arithmetic::power2::lemma2_to64();
    }
    let r = if funct3 == 0x0 {
        load_byte(mem, addr)
    } else if funct3 == 0x1 {
        load_h(mem, addr)
    } else if funct3 == 0x2 {
        load_w(mem, addr)
    } else if funct3 == 0x3 {
        load_ubyte(mem, addr)
    } else {
        load_uh(mem, addr)
    };
    r
}

/// Executes an I-type instruction: OP-IMM, a load, or JALR.
fn ins_i(instruction: u32, cpu: &mut CpuData)
    requires
        i_defined(old(cpu).gpr@, old(cpu).pc, old(cpu).mem@, instruction),
    ensures
        (final(cpu).gpr@, final(cpu).pc) == i_effect(
            old(cpu).gpr@,
            old(cpu).pc,
            old(cpu).mem@,
            instruction,
        ),
        final(cpu).mem@ == old(cpu).mem@,
        final(cpu).satp == old(cpu).satp,
{
    let opcode = opcode_of(instruction);
    let rd = rd_of(instruction);
    let funct3 = funct3_of(instruction);
    let rs1 = rs1_of(instruction);
    let imm = imm_i_of(instruction);

    if opcode == OP_IMM {
        // register-immediate arithmetic
        let v = exec_op_imm(funct3, imm, cpu.gpr[rs1]);
        if rd != 0 {
            cpu.gpr[rd] = v;
        }
    } else if opcode == LOAD {
        // load
        let addr = offset_address(cpu.gpr[rs1], imm);
        let loaded = ins_i_load(funct3, cpu.mem.as_slice(), addr);
        if rd != 0 {
            cpu.gpr[rd] = extend_loaded(funct3, loaded);
        }
    } else if opcode == JALR {
        // jump and link register: the target is computed from rs1 before rd is written
        let target = offset_target(cpu.gpr[rs1], imm);
        if rd != 0 {
            cpu.gpr[rd] = cpu.pc + 4;
        }
        cpu.pc = target;
        return ;
    }
    cpu.pc += 4;
}

/// Executes a store (SB, SH, SW) of the low bits of rs2 at `x[rs1] + imm`.
fn ins_s(instruction: u32, cpu: &mut CpuData)
    requires
        store_defined(old(cpu).gpr@, old(cpu).pc, old(cpu).mem@, instruction),
    ensures
        final(cpu).gpr@ == old(cpu).gpr@,
        final(cpu).pc == old(cpu).pc + 4,
        final(cpu).mem@ == mem_store(
            old(cpu).mem@,
            funct3(instruction),
            store_address(old(cpu).gpr@, instruction),
            wrap32(old(cpu).gpr@[rs2(instruction)] as int),
        ),
        final(cpu).satp == old(cpu).satp,
{
    let funct3 = funct3_of(instruction);
    let rs1 = rs1_of(instruction);
    let rs2 = rs2_of(instruction);
    let imm = imm_s_of(instruction);

    let rs1_val = cpu.gpr[rs1];
    let rs2_val = cpu.gpr[rs2] as u32;
    let addr = offset_address(rs1_val, imm);
    proof {
        lemma_u64_casts(cpu.gpr@[rs2 as int]);
    }

    if funct3 == 0x0 {
        store_byte(cpu.mem.as_mut_slice(), addr, rs2_val);
    } else if funct3 == 0x1 {
        store_h(cpu.mem.as_mut_slice(), addr, rs2_val);
    } else {
        store_w(cpu.mem.as_mut_slice(), addr, rs2_val);
    }

    cpu.pc += 4;
}

/// Executes JAL.
fn ins_j(instruction: u32, cpu: &mut CpuData)
    requires
        j_defined(old(cpu).gpr@, old(cpu).pc, instruction),
    ensures
        (final(cpu).gpr@, final(cpu).pc) == j_effect(old(cpu).gpr@, old(cpu).pc, instruction),
        final(cpu).mem@ == old(cpu).mem@,
        final(cpu).satp == old(cpu).satp,
{
    let rd = rd_of(instruction);
    let imm = imm_j_of(instruction);

    if rd != 0 {
        cpu.gpr[rd] = cpu.pc + 4;
    }
    cpu.pc = offset_target(cpu.pc, imm);
}

/// Executes LUI or AUIPC.
fn ins_u(instruction: u32, cpu: &mut CpuData)
    requires
        u_defined(old(cpu).pc, instruction),
    ensures
        (final(cpu).gpr@, final(cpu).pc) == u_effect(old(cpu).gpr@, old(cpu).pc, instruction),
        final(cpu).mem@ == old(cpu).mem@,
        final(cpu).satp == old(cpu).satp,
{
    let opcode = opcode_of(instruction);
    let rd = rd_of(instruction);
    let imm = imm_u_of(instruction);

    if rd == 0 {
    } else if opcode == LUI {
        cpu.gpr[rd] = imm;
    } else if opcode == AUIPC {
        cpu.gpr[rd] = cpu.pc + imm;
    }
    cpu.pc += 4;
}

/// Whether `base` read as a signed 64-bit number plus `imm` stays within `i64`.
fn offset_fits(base: u64, imm: i32) -> (ok: bool)
    ensures
        ok == offset_in_range(base, imm as int),
{
    proof {
        lemma_u64_casts(base);
    }
    let b = base as i64;
    if imm >= 0 {
        b <= i64::MAX - (imm as i64)
    } else {
        b >= i64::MIN - (imm as i64)
    }
}

/// Whether an access of `width` bytes at `addr` lies within `mem`.
fn in_bounds(mem: &Vec<u8>, addr: u32, width: usize) -> (ok: bool)
    requires
        width <= 4,
    ensures
        ok == (addr + width <= mem@.len()),
{
    (addr as usize) <= mem.len() && width <= mem.len() - (addr as usize)
}

/// The number of bytes a load or store of kind `funct3` accesses.
fn width_of(funct3: u8) -> (w: usize)
    ensures
        w == access_width(funct3 as int),
{
    if funct3 == 0 || funct3 == 3 {
        1
    } else if funct3 == 1 || funct3 == 4 {
        2
    } else {
        4
    }
}

/// Whether `instruction` is implemented and executes on `cpu` without a fault, that is,
/// whether `read_ins` may be called with it.
pub fn executable(instruction: u32, cpu: &CpuData) -> (ok: bool)
    ensures
        ok == ins_defined(cpu.gpr@, cpu.pc, cpu.mem@, instruction),
{
    let opcode = opcode_of(instruction);
    let funct3 = funct3_of(instruction);
    let rs1 = rs1_of(instruction);
    let rs2 = rs2_of(instruction);
    let next_ok = cpu.pc <= u64::MAX - 4;
    if opcode == OP {
        next_ok && op_implemented(funct3, funct7_of(instruction))
    } else if opcode == OP_IMM {
        next_ok && op_imm_implemented(funct3, imm_i_of(instruction))
    } else if opcode == LOAD {
        let imm = imm_i_of(instruction);
        if !next_ok || funct3 > 4 || !offset_fits(cpu.gpr[rs1], imm) {
            return false;
        }
        let addr = offset_address(cpu.gpr[rs1], imm);
        in_bounds(&cpu.mem, addr, width_of(funct3))
    } else if opcode == JALR {
        let imm = imm_i_of(instruction);
        if !next_ok {
            return false;
        }
        offset_fits(cpu.gpr[rs1], imm)
    } else if opcode == STORE {
        let imm = imm_s_of(instruction);
        if !next_ok || funct3 > 2 || !offset_fits(cpu.gpr[rs1], imm) {
            return false;
        }
        let addr = offset_address(cpu.gpr[rs1], imm);
        in_bounds(&cpu.mem, addr, width_of(funct3))
    } else if opcode == BRANCH {
        if !(funct3 == 0 || funct3 == 1 || funct3 == 4 || funct3 == 5 || funct3 == 6 || funct3
            == 7) {
            return false;
        }
        if exec_branch(funct3, cpu.gpr[rs1], cpu.gpr[rs2]) {
            offset_fits(cpu.pc, imm_b_of(instruction))
        } else {
            next_ok
        }
    } else if opcode == JAL {
        next_ok && offset_fits(cpu.pc, imm_j_of(instruction))
    } else if opcode == LUI {
        next_ok
    } else if opcode == AUIPC {
        next_ok && cpu.pc <= u64::MAX - imm_u_of(instruction)
    } else {
        false
    }
}

/// Executes one instruction on `cpu`: decodes its opcode and hands it to the handler of
/// its format.
pub fn read_ins(instruction: u32, cpu: &mut CpuData)
    requires
        ins_defined(old(cpu).gpr@, old(cpu).pc, old(cpu).mem@, instruction),
    ensures
        (final(cpu).gpr@, final(cpu).pc, final(cpu).mem@) == ins_effect(
            old(cpu).gpr@,
            old(cpu).pc,
            old(cpu).mem@,
            instruction,
        ),
        final(cpu).satp == old(cpu).satp,
{
    let opcode = opcode_of(instruction);
    if opcode == OP {
        ins_r(instruction, cpu);
    } else if opcode == OP_IMM || opcode == LOAD || opcode == JALR {
        ins_i(instruction, cpu);
    } else if opcode == STORE {
        ins_s(instruction, cpu);
    } else if opcode == BRANCH {
        ins_b(instruction, cpu);
    } else if opcode == JAL {
        ins_j(instruction, cpu);
    } else {
        ins_u(instruction, cpu);
    }
}

// ---------------------------------------------------------------------------
// Properties of the instruction semantics
// ---------------------------------------------------------------------------

/// Every implemented instruction other than a branch or a jump moves the pc to the next
/// instruction, `pc + 4`.
pub proof fn lemma_sequential_pc(gpr: Seq<u64>, pc: u64, mem: Seq<u8>, i: u32)
    requires
        ins_defined(gpr, pc, mem, i),
        opcode(i) != BRANCH,
        opcode(i) != JAL,
        opcode(i) != JALR,
    ensures
        ins_effect(gpr, pc, mem, i).1 == pc + 4,
{
}

/// Only stores change memory: every other implemented instruction leaves it as it was.
pub proof fn lemma_only_stores_write_memory(gpr: Seq<u64>, pc: u64, mem: Seq<u8>, i: u32)
    requires
        ins_defined(gpr, pc, mem, i),
        opcode(i) != STORE,
    ensures
        ins_effect(gpr, pc, mem, i).2 == mem,
{
}

/// An instruction writes at most its destination register: every other register keeps
/// its value, and an instruction whose destination is x0 writes no register at all.
pub proof fn lemma_writes_only_rd(gpr: Seq<u64>, pc: u64, mem: Seq<u8>, i: u32, r: int)
    requires
        ins_defined(gpr, pc, mem, i),
        gpr.len() == 32,
        0 <= r < 32,
        r != rd(i) || rd(i) == 0,
    ensures
        ins_effect(gpr, pc, mem, i).0[r] == gpr[r],
        ins_effect(gpr, pc, mem, i).0.len() == 32,
{
}

/// x0 is hard-wired to zero: when it reads 0 before an instruction, it reads 0 after it.
pub proof fn lemma_x0_stays_zero(gpr: Seq<u64>, pc: u64, mem: Seq<u8>, i: u32)
    requires
        ins_defined(gpr, pc, mem, i),
        gpr.len() == 32,
        gpr[0] == 0,
    ensures
        ins_effect(gpr, pc, mem, i).0[0] == 0,
{
}

/// A word stored by SW reads back through LW at the same address as the stored word
/// sign-extended to 64 bits, and through LBU as its low byte; a halfword stored by SH
/// reads back through LHU as its low 16 bits.
pub proof fn lemma_store_then_load(mem: Seq<u8>, addr: int, v: int)
    requires
        0 <= addr,
        addr + 3 < mem.len(),
        0 <= v < 0x1_0000_0000,
    ensures
        mem_load(mem_store(mem, 2, addr, v), 2, addr) == wrap64(sext(v, 32)),
        mem_load(mem_store(mem, 2, addr, v), 3, addr) == v % 0x100,
        mem_load(mem_store(mem, 1, addr, v), 4, addr) == v % 0x1_0000,
        mem_load(mem_store(mem, 0, addr, v), 3, addr) == v % 0x100,
{
    crate::memory::lemma_store_load_word(mem, addr, v);
    crate::memory::lemma_store_load_half(mem, addr, v);
    crate::memory::lemma_store_load_byte(mem, addr, v);
}

/// `s` is the 64-bit sign-extension of the `m`-wide unsigned value `u` (`m` = 2^8, 2^16 or
/// 2^32): its low part is `u`; above it every bit copies the top bit of `u`.
pub open spec fn sign_extends(s: int, u: int, m: int) -> bool {
    &&& 0 <= s < 0x1_0000_0000_0000_0000
    &&& s % m == u
    &&& u >= m / 2 ==> s / m == 0x1_0000_0000_0000_0000int / m - 1
    &&& u < m / 2 ==> s == u
}

/// Sign-extending a field of 8, 16 or 32 bits into a 64-bit register meets `sign_extends`.
pub(crate) proof fn lemma_sext_extends(v: int, bits: nat)
    requires
        bits == 8 || bits == 16 || bits == 32,
        0 <= v < pow2(bits),
    ensures
        sign_extends(wrap64(sext(v, bits)), v, pow2(bits) as int),
{
    vstd::arithmetic::power2::lemma2_to64();
    let m = pow2(bits) as int;
    let big: int = 0x1_0000_0000_0000_0000;
    let k = big / m;
    if bits == 8 {
        assert(m == 0x100 && pow2((bits - 1) as nat) == 0x80);
        vstd::arithmetic::div_mod::lemma_fundamental_div_mod_converse(big, m, 0x100_0000_0000_0000, 0);
    } else if bits == 16 {
        assert(m == 0x1_0000 && pow2((bits - 1) as nat) == 0x8000);
        vstd::arithmetic::div_mod::lemma_fundamental_div_mod_converse(big, m, 0x1_0000_0000_0000, 0);
    } else {
        assert(m == 0x1_0000_0000 && pow2((bits - 1) as nat) == 0x8000_0000);
        vstd::arithmetic::div_mod::lemma_fundamental_div_mod_converse(big, m, 0x1_0000_0000, 0);
    }
    assert(k * m == big && m / 2 == pow2((bits - 1) as nat));
    if v >= m / 2 {
        let s = v - m + big;
        vstd::arithmetic::div_mod::lemma_mod_multiples_vanish(1, v - m, big);
        vstd::arithmetic::div_mod::lemma_small_mod(s as nat, big as nat);
        assert(s == (k - 1) * m + v) by (nonlinear_arith)
            requires
                s == v - m + big,
                k * m == big,
        ;
        vstd::arithmetic::div_mod::lemma_fundamental_div_mod_converse(s, m, k - 1, v);
    } else {
        vstd::arithmetic::div_mod::lemma_small_mod(v as nat, big as nat);
        vstd::arithmetic::div_mod::lemma_small_mod(v as nat, m as nat);
    }
}

/// What each load gives for the bytes it reads: LBU the byte, LHU the little-endian
/// halfword; LB, LH and LW the sign-extension to 64 bits of the byte, of the halfword and of
/// the word made of the halfword at `addr` and the one at `addr + 2`.
pub proof fn lemma_load_extension(mem: Seq<u8>, addr: int)
    requires
        0 <= addr,
        addr + 4 <= mem.len(),
    ensures
        mem_load(mem, 3, addr) == mem[addr] as int,
        mem_load(mem, 4, addr) == mem[addr] + 0x100 * mem[addr + 1],
        sign_extends(mem_load(mem, 0, addr), mem_load(mem, 3, addr), 0x100),
        sign_extends(mem_load(mem, 1, addr), mem_load(mem, 4, addr), 0x1_0000),
        sign_extends(
            mem_load(mem, 2, addr),
            mem_load(mem, 4, addr) + 0x1_0000 * mem_load(mem, 4, addr + 2),
            0x1_0000_0000,
        ),
{
    vstd::arithmetic::power2::lemma2_to64();
    lemma_sext_extends(mem[addr] as int, 8);
    lemma_sext_extends(le16(mem, addr), 16);
    lemma_sext_extends(le32(mem, addr), 32);
}

/// JAL links the address of the next instruction: a JALR through the link register with
/// offset 0, executed where the call lands, returns to `pc + 4`, just after the call.
pub proof fn lemma_call_return(gpr: Seq<u64>, pc: u64, mem: Seq<u8>, call: u32, ret: u32)
    requires
        gpr.len() == 32,
        opcode(call) == JAL,
        rd(call) != 0,
        ins_defined(gpr, pc, mem, call),
        opcode(ret) == JALR,
        rs1(ret) == rd(call),
        imm_i(ret) == 0,
        ({
            let (g1, p1, m1) = ins_effect(gpr, pc, mem, call);
            ins_defined(g1, p1, m1, ret)
        }),
    ensures
        ({
            let (g1, p1, m1) = ins_effect(gpr, pc, mem, call);
            &&& g1[rd(call)] == pc + 4
            &&& ins_effect(g1, p1, m1, ret).1 == pc + 4
        }),
{
    let (g1, p1) = j_effect(gpr, pc, call);
    assert(ins_effect(gpr, pc, mem, call) == (g1, p1, mem));
    assert(g1[rd(call)] == pc + 4);
    vstd::arithmetic::div_mod::lemma_small_mod((pc + 4) as nat, 0x1_0000_0000_0000_0000);
    let (g2, p2) = jalr_effect(g1, p1, ret);
    assert(p2 == pc + 4);
    assert(ins_effect(g1, p1, mem, ret) == (g2, p2, mem));
}

/// AUIPC adds its upper immediate to the pc where LUI loads it alone: for two instruction
/// words that differ only in the opcode, the AUIPC result exceeds the LUI result by `pc`.
pub proof fn lemma_auipc_is_lui_plus_pc(gpr: Seq<u64>, pc: u64, auipc: u32, lui: u32)
    requires
        gpr.len() == 32,
        opcode(auipc) == AUIPC,
        opcode(lui) == LUI,
        auipc as int / 128 == lui as int / 128,
        rd(auipc) != 0,
        u_defined(pc, auipc),
    ensures
        u_effect(gpr, pc, auipc).0[rd(auipc)] == u_effect(gpr, pc, lui).0[rd(lui)] + pc,
        u_effect(gpr, pc, lui).0[rd(lui)] == lui - lui % 0x1000,
{
    decode::lemma_immediate_ranges(auipc);
    decode::lemma_immediate_ranges(lui);
    assert(auipc as int / 0x1000 == lui as int / 0x1000) by {
        vstd::arithmetic::div_mod::lemma_div_denominator(auipc as int, 128, 32);
        vstd::arithmetic::div_mod::lemma_div_denominator(lui as int, 128, 32);
    }
    assert(rd(auipc) == rd(lui));
}

} // verus!
