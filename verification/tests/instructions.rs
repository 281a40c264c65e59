use risc_v_emulator_rust::cpu::CpuData;
use risc_v_emulator_rust::instructions::{executable, read_ins};

fn r_type(funct7: u32, rs2: u32, rs1: u32, funct3: u32, rd: u32) -> u32 {
    funct7 << 25 | rs2 << 20 | rs1 << 15 | funct3 << 12 | rd << 7 | 0b0110011
}

fn i_type(imm: i32, rs1: u32, funct3: u32, rd: u32, opcode: u32) -> u32 {
    ((imm as u32) & 0xFFF) << 20 | rs1 << 15 | funct3 << 12 | rd << 7 | opcode
}

fn s_type(imm: i32, rs2: u32, rs1: u32, funct3: u32) -> u32 {
    let imm = imm as u32;
    ((imm >> 5) & 0x7F) << 25 | rs2 << 20 | rs1 << 15 | funct3 << 12 | (imm & 0x1F) << 7 | 0b0100011
}

fn b_type(imm: i32, rs2: u32, rs1: u32, funct3: u32) -> u32 {
    let imm = imm as u32;
    ((imm >> 12) & 1) << 31
        | ((imm >> 5) & 0x3F) << 25
        | rs2 << 20
        | rs1 << 15
        | funct3 << 12
        | ((imm >> 1) & 0xF) << 8
        | ((imm >> 11) & 1) << 7
        | 0b1100011
}

fn run(cpu: &mut CpuData, instruction: u32) {
    assert!(executable(instruction, cpu));
    read_ins(instruction, cpu);
}

#[test]
fn cpudata_starts_with_stack_at_top_of_memory() {
    let cpu = CpuData::new();
    for i in 0..32 {
        assert_eq!(cpu.gpr[i], if i == 2 { 0x40_0000 } else { 0 });
    }
    assert_eq!(cpu.pc, 0);
    assert_eq!(cpu.satp, 0);
    assert_eq!(cpu.mem.len(), 4 * 1024 * 1024);
    assert!(cpu.mem.iter().all(|&b| b == 0));
}

#[test]
fn r_type_with_destination_x0_writes_nothing() {
    let mut cpu = CpuData::new();
    cpu.gpr[1] = 7;
    cpu.gpr[2] = 9;
    run(&mut cpu, r_type(0, 2, 1, 0, 0));
    assert_eq!(cpu.gpr[0], 0);
    assert_eq!(cpu.pc, 4);
    // an unimplemented funct7 is refused even when rd is x0
    assert!(!executable(r_type(0x7F, 2, 1, 0, 0), &cpu));
}

#[test]
fn add_and_sub_wrap_around() {
    let mut cpu = CpuData::new();
    cpu.gpr[1] = u64::MAX;
    cpu.gpr[2] = 2;
    run(&mut cpu, r_type(0, 2, 1, 0, 3));
    assert_eq!(cpu.gpr[3], 1);
    run(&mut cpu, r_type(0x20, 1, 2, 0, 4));
    assert_eq!(cpu.gpr[4], 3);
}

#[test]
fn shifts_and_compares_use_the_low_word_where_signed() {
    let mut cpu = CpuData::new();
    cpu.gpr[1] = 0xFFFF_FFF0; // low word is -16
    cpu.gpr[2] = 2 + 32; // only the low five bits count
    run(&mut cpu, r_type(0x20, 2, 1, 5, 3)); // SRA
    assert_eq!(cpu.gpr[3], 0xFFFF_FFFF_FFFF_FFFC);
    run(&mut cpu, r_type(0, 2, 1, 5, 4)); // SRL
    assert_eq!(cpu.gpr[4], 0x3FFF_FFFC);
    run(&mut cpu, r_type(0, 2, 1, 1, 5)); // SLL
    assert_eq!(cpu.gpr[5], 0x3_FFFF_FFC0);
    cpu.gpr[6] = 1;
    run(&mut cpu, r_type(0, 6, 1, 2, 7)); // SLT: -16 < 1
    assert_eq!(cpu.gpr[7], 1);
    run(&mut cpu, r_type(0, 6, 1, 3, 8)); // SLTU: 0xFFFF_FFF0 < 1 is false
    assert_eq!(cpu.gpr[8], 0);
    cpu.gpr[9] = 1 << 40;
    run(&mut cpu, r_type(0, 6, 9, 2, 10)); // SLT on low words: 0 < 1
    assert_eq!(cpu.gpr[10], 1);
}

#[test]
fn m_extension_high_products_and_divisions() {
    let mut cpu = CpuData::new();
    cpu.gpr[1] = (-3i64) as u64;
    cpu.gpr[2] = 5;
    run(&mut cpu, r_type(1, 2, 1, 0, 3)); // MUL
    assert_eq!(cpu.gpr[3], (-15i64) as u64);
    run(&mut cpu, r_type(1, 2, 1, 1, 4)); // MULH
    assert_eq!(cpu.gpr[4], u64::MAX);
    run(&mut cpu, r_type(1, 2, 1, 2, 5)); // MULHSU
    assert_eq!(cpu.gpr[5], u64::MAX);
    run(&mut cpu, r_type(1, 2, 1, 3, 6)); // MULHU
    assert_eq!(cpu.gpr[6], 0xFFFF_FFFF);
    cpu.gpr[7] = (-7i64) as u64;
    cpu.gpr[8] = 2;
    run(&mut cpu, r_type(1, 8, 7, 4, 9)); // DIV rounds toward zero
    assert_eq!(cpu.gpr[9], (-3i64) as u64);
    run(&mut cpu, r_type(1, 8, 7, 6, 10)); // REM takes the sign of the dividend
    assert_eq!(cpu.gpr[10], (-1i64) as u64);
    run(&mut cpu, r_type(1, 8, 7, 5, 11)); // DIVU
    assert_eq!(cpu.gpr[11], ((-7i64) as u64) / 2);
    run(&mut cpu, r_type(1, 8, 7, 7, 12)); // REMU
    assert_eq!(cpu.gpr[12], 1);
}

#[test]
fn faulting_and_unimplemented_instructions_are_refused() {
    let mut cpu = CpuData::new();
    cpu.gpr[1] = 10;
    assert!(!executable(0x0000_007F, &cpu)); // unimplemented opcode
    assert!(!executable(r_type(0x7F, 2, 1, 0, 3), &cpu)); // funct7 outside every group
    for funct3 in [1, 2, 3, 4, 6, 7] {
        // funct7 0x20 only names SUB and SRA
        assert!(!executable(r_type(0x20, 2, 1, funct3, 3), &cpu), "funct3 {}", funct3);
    }
    // SLLI with upper immediate bits set, SRLI/SRAI with an unknown pattern
    assert!(!executable(i_type(0x401, 1, 1, 3, 0b0010011), &cpu));
    assert!(!executable(i_type(0x201, 1, 5, 3, 0b0010011), &cpu));
    assert!(!executable(b_type(8, 0, 0, 2), &cpu)); // branch funct3 2
    assert!(!executable(i_type(0, 0, 5, 1, 0b0000011), &cpu)); // load funct3 5
    assert!(!executable(s_type(0, 1, 0, 3), &cpu)); // store funct3 3
    cpu.gpr[6] = 4 * 1024 * 1024 - 2;
    assert!(!executable(i_type(0, 6, 2, 1, 0b0000011), &cpu)); // LW past the end
    assert!(executable(i_type(0, 6, 1, 1, 0b0000011), &cpu)); // LH fits
    cpu.pc = u64::MAX - 3;
    assert!(!executable(i_type(1, 0, 0, 1, 0b0010011), &cpu)); // pc + 4 overflows
}

#[test]
fn op_imm_operations() {
    let mut cpu = CpuData::new();
    cpu.gpr[1] = 0x80;
    let srxi = (0x10 << 25) | (1 << 20) | (1 << 15) | (5 << 12) | (3 << 7) | 0b0010011;
    assert!(!executable(srxi, &cpu));
    run(&mut cpu, i_type(0x403, 1, 5, 3, 0b0010011)); // SRAI x3, x1, 3
    assert_eq!(cpu.gpr[3], 0x10);
    assert_eq!(cpu.pc, 4);
    cpu.gpr[4] = 1 << 40;
    run(&mut cpu, i_type(8, 4, 5, 5, 0b0010011)); // SRLI shifts all 64 bits
    assert_eq!(cpu.gpr[5], 1 << 32);
    run(&mut cpu, i_type(-1, 0, 0, 6, 0b0010011)); // ADDI sign-extends
    assert_eq!(cpu.gpr[6], u64::MAX);
    run(&mut cpu, i_type(-1, 0, 3, 7, 0b0010011)); // SLTIU against 0xFFFF_FFFF_FFFF_FFFF
    assert_eq!(cpu.gpr[7], 1);
    run(&mut cpu, i_type(0x0F0, 6, 7, 8, 0b0010011)); // ANDI
    assert_eq!(cpu.gpr[8], 0xF0);
}

#[test]
fn x0_stays_zero() {
    let mut cpu = CpuData::new();
    run(&mut cpu, i_type(9, 0, 0, 0, 0b0010011)); // ADDI x0, x0, 9
    assert_eq!(cpu.gpr[0], 0);
    run(&mut cpu, (4 << 21) | 0b1101111); // JAL x0, +8
    assert_eq!(cpu.gpr[0], 0);
    assert_eq!(cpu.pc, 12);
    run(&mut cpu, (0x12345 << 12) | 0b0110111); // LUI x0
    run(&mut cpu, (0x1 << 12) | 0b0010111); // AUIPC x0
    cpu.mem[0] = 0x7F;
    run(&mut cpu, i_type(0, 0, 0, 0, 0b0000011)); // LB x0, 0(x0)
    cpu.gpr[1] = 40;
    run(&mut cpu, i_type(0, 1, 0, 0, 0b1100111)); // JALR x0, 0(x1)
    assert_eq!(cpu.pc, 40);
    run(&mut cpu, r_type(1, 1, 1, 0, 0)); // MUL x0
    assert_eq!(cpu.gpr[0], 0);
}

#[test]
fn loads_extend_by_kind() {
    let mut cpu = CpuData::new();
    cpu.mem[200] = 0x80;
    cpu.mem[201] = 0xFF;
    cpu.mem[202] = 0x34;
    cpu.mem[203] = 0x92;
    cpu.gpr[1] = 200;
    run(&mut cpu, i_type(0, 1, 0, 2, 0b0000011)); // LB
    assert_eq!(cpu.gpr[2], 0xFFFF_FFFF_FFFF_FF80);
    run(&mut cpu, i_type(0, 1, 3, 3, 0b0000011)); // LBU (funct3 3 here)
    assert_eq!(cpu.gpr[3], 0x80);
    run(&mut cpu, i_type(0, 1, 1, 4, 0b0000011)); // LH
    assert_eq!(cpu.gpr[4], 0xFFFF_FFFF_FFFF_FF80);
    run(&mut cpu, i_type(0, 1, 4, 5, 0b0000011)); // LHU (funct3 4 here)
    assert_eq!(cpu.gpr[5], 0xFF80);
    run(&mut cpu, i_type(0, 1, 2, 6, 0b0000011)); // LW
    assert_eq!(cpu.gpr[6], 0xFFFF_FFFF_9234_FF80);
    cpu.gpr[7] = 208;
    run(&mut cpu, i_type(-8, 7, 2, 8, 0b0000011)); // negative offset
    assert_eq!(cpu.gpr[8], 0xFFFF_FFFF_9234_FF80);
}

#[test]
fn stored_word_loads_back() {
    let mut cpu = CpuData::new();
    cpu.gpr[1] = 1000;
    cpu.gpr[2] = 0x1234_5678_9ABC_DEF0;
    run(&mut cpu, s_type(-4, 2, 1, 2)); // SW at 996
    assert_eq!(&cpu.mem[996..1000], &[0xF0, 0xDE, 0xBC, 0x9A]);
    assert_eq!(cpu.mem[1000], 0);
    run(&mut cpu, i_type(-4, 1, 2, 3, 0b0000011)); // LW
    assert_eq!(cpu.gpr[3], 0xFFFF_FFFF_9ABC_DEF0);
    run(&mut cpu, s_type(8, 2, 1, 1)); // SH at 1008
    run(&mut cpu, i_type(8, 1, 4, 4, 0b0000011)); // LHU
    assert_eq!(cpu.gpr[4], 0xDEF0);
    run(&mut cpu, s_type(16, 2, 1, 0)); // SB at 1016
    run(&mut cpu, i_type(16, 1, 3, 5, 0b0000011)); // LBU
    assert_eq!(cpu.gpr[5], 0xF0);
    assert_eq!(cpu.mem[1017], 0);
    assert_eq!(cpu.pc, 24);
}

#[test]
fn every_branch_kind() {
    let mut cpu = CpuData::new();
    cpu.gpr[1] = (-1i64) as u64;
    cpu.gpr[2] = 1;
    let cases: [(u32, bool); 6] = [(0, false), (1, true), (4, true), (5, false), (6, false), (7, true)];
    for (funct3, taken) in cases {
        cpu.pc = 100;
        run(&mut cpu, b_type(-16, 2, 1, funct3));
        assert_eq!(cpu.pc, if taken { 84 } else { 104 }, "funct3 {}", funct3);
    }
    cpu.pc = 100;
    cpu.gpr[3] = 1 << 32; // low word 0, upper bits set
    run(&mut cpu, b_type(8, 0, 3, 4)); // BLT: 0 < 0 on low words is false
    assert_eq!(cpu.pc, 104);
    run(&mut cpu, b_type(8, 0, 3, 6)); // BLTU: full value, not less
    assert_eq!(cpu.pc, 108);
    run(&mut cpu, b_type(8, 3, 0, 6)); // BLTU: 0 < 2^32
    assert_eq!(cpu.pc, 116);
}

#[test]
fn jalr_reads_its_base_before_linking() {
    let mut cpu = CpuData::new();
    cpu.pc = 40;
    cpu.gpr[5] = 1000;
    run(&mut cpu, i_type(8, 5, 0, 5, 0b1100111)); // JALR x5, 8(x5)
    assert_eq!(cpu.gpr[5], 44);
    assert_eq!(cpu.pc, 1008);
    cpu.pc = 0;
    cpu.gpr[1] = 100;
    run(&mut cpu, 0x00C0_80E7); // JALR x1, 12(x1)
    assert_eq!(cpu.pc, 112);
    assert_eq!(cpu.gpr[1], 4);
}

#[test]
fn mulhsu_reads_rs2_as_unsigned() {
    let mut cpu = CpuData::new();
    cpu.gpr[1] = u64::MAX;
    cpu.gpr[2] = u64::MAX;
    run(&mut cpu, 0x0220_A1B3); // MULHSU x3, x1, x2
    assert_eq!(cpu.gpr[3] as u32, 0xFFFF_FFFF);
    assert_eq!(cpu.gpr[3], u64::MAX);
    run(&mut cpu, r_type(1, 2, 1, 1, 4)); // MULH: -1 * -1 = 1, upper word 0
    assert_eq!(cpu.gpr[4], 0);
    cpu.gpr[5] = 2;
    cpu.gpr[6] = 0x8000_0000;
    run(&mut cpu, r_type(1, 6, 5, 2, 7)); // 2 * 2^31 = 2^32
    assert_eq!(cpu.gpr[7], 1);
}

#[test]
fn division_by_zero_and_overflow_follow_rv32m() {
    let mut cpu = CpuData::new();
    cpu.gpr[1] = 10;
    run(&mut cpu, r_type(1, 7, 1, 4, 3)); // DIV by zero
    assert_eq!(cpu.gpr[3], u64::MAX);
    run(&mut cpu, r_type(1, 7, 1, 5, 3)); // DIVU by zero
    assert_eq!(cpu.gpr[3], u64::MAX);
    run(&mut cpu, r_type(1, 7, 1, 6, 3)); // REM by zero
    assert_eq!(cpu.gpr[3], 10);
    run(&mut cpu, r_type(1, 7, 1, 7, 3)); // REMU by zero
    assert_eq!(cpu.gpr[3], 10);
    cpu.gpr[2] = 1 << 32; // low word zero: signed division by zero
    cpu.gpr[8] = (-5i64) as u64;
    run(&mut cpu, r_type(1, 2, 8, 4, 3));
    assert_eq!(cpu.gpr[3], u64::MAX);
    run(&mut cpu, r_type(1, 2, 8, 6, 3));
    assert_eq!(cpu.gpr[3], (-5i64) as u64);
    run(&mut cpu, r_type(1, 2, 1, 5, 3)); // DIVU sees all 64 bits
    assert_eq!(cpu.gpr[3], 0);
    cpu.gpr[4] = 0x8000_0000;
    cpu.gpr[5] = u64::MAX;
    run(&mut cpu, r_type(1, 5, 4, 4, 3)); // i32::MIN / -1
    assert_eq!(cpu.gpr[3], i32::MIN as i64 as u64);
    run(&mut cpu, r_type(1, 5, 4, 6, 3)); // i32::MIN % -1
    assert_eq!(cpu.gpr[3], 0);
}

#[test]
fn jal_backwards_and_upper_immediates() {
    let mut cpu = CpuData::new();
    cpu.pc = 0x100;
    // JAL x1, -8: imm[20]=1, imm[10:1]=0x3FC, imm[11]=1, imm[19:12]=0xFF
    let jal = (1 << 31) | (0x3FC << 21) | (1 << 20) | (0xFF << 12) | (1 << 7) | 0b1101111;
    run(&mut cpu, jal);
    assert_eq!(cpu.gpr[1], 0x104);
    assert_eq!(cpu.pc, 0xF8);
    run(&mut cpu, (0xFFFFF << 12) | (2 << 7) | 0b0110111); // LUI is not sign-extended
    assert_eq!(cpu.gpr[2], 0xFFFF_F000);
    run(&mut cpu, (0x2 << 12) | (3 << 7) | 0b0010111); // AUIPC
    assert_eq!(cpu.gpr[3], 0xFC + 0x2000);
    assert_eq!(cpu.pc, 0x100);
}

#[test]
fn signed_division_identity() {
    let mut cpu = CpuData::new();
    for (x, y) in [(7i32, 2i32), (-7, 2), (7, -2), (-7, -2), (i32::MIN, 3), (5, 7)] {
        cpu.gpr[1] = x as i64 as u64;
        cpu.gpr[2] = y as i64 as u64;
        run(&mut cpu, r_type(1, 2, 1, 4, 3));
        run(&mut cpu, r_type(1, 2, 1, 6, 4));
        let q = cpu.gpr[3] as i64;
        let r = cpu.gpr[4] as i64;
        assert_eq!(q * (y as i64) + r, x as i64);
        assert!(r == 0 || (r < 0) == (x < 0));
        assert!(r.abs() < (y as i64).abs());
    }
}

#[test]
fn only_stores_change_memory() {
    let mut cpu = CpuData::new();
    cpu.gpr[1] = 64;
    cpu.gpr[3] = 0xAA;
    let before = cpu.mem.clone();
    run(&mut cpu, i_type(0, 1, 2, 2, 0b0000011)); // LW
    run(&mut cpu, r_type(1, 1, 1, 0, 4)); // MUL
    run(&mut cpu, b_type(8, 1, 1, 0)); // BEQ taken
    assert_eq!(cpu.mem, before);
    run(&mut cpu, s_type(0, 3, 1, 0)); // SB
    assert_eq!(cpu.mem[64], 0xAA);
    assert_eq!(cpu.mem.iter().filter(|&&b| b != 0).count(), 1);
}
