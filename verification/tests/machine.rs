use risc_v_emulator_rust::bus::ram::{Ram, RAM_BASE, RAM_OFFSET, RAM_SIZE};
use risc_v_emulator_rust::bus::uart::{Uart, UART_BASE};
use risc_v_emulator_rust::bus::Bus;
use risc_v_emulator_rust::cpu::mmu::{mmu_translate, AccessType};
use risc_v_emulator_rust::cpu::{Cpu, CpuData, CpuPriv};
use risc_v_emulator_rust::emulator::Emulator;
use risc_v_emulator_rust::instructions::decode::{
    imm_b_of, imm_i_of, imm_j_of, imm_s_of, imm_u_of, sign_extend,
};
use risc_v_emulator_rust::memory::{
    init_ram, load_byte, load_h, load_ubyte, load_uh, load_w, store_byte, store_h, store_w,
};

#[test]
fn memory_loads_are_little_endian_and_extend() {
    let mem = [0x80u8, 0xFF, 0x34, 0x12, 0x7F];
    assert_eq!(load_byte(&mem, 0), 0xFFFF_FF80);
    assert_eq!(load_byte(&mem, 4), 0x7F);
    assert_eq!(load_ubyte(&mem, 0), 0x80);
    assert_eq!(load_h(&mem, 0), 0xFFFF_FF80);
    assert_eq!(load_h(&mem, 2), 0x1234);
    assert_eq!(load_uh(&mem, 0), 0xFF80);
    assert_eq!(load_w(&mem, 0), 0x1234_FF80);
    assert_eq!(load_w(&mem, 1), 0x7F12_34FF);
}

#[test]
fn memory_stores_then_loads_round_trip() {
    let mut mem = vec![0u8; 16];
    store_w(&mut mem, 4, 0xDEAD_BEEF);
    assert_eq!(load_w(&mem, 4), 0xDEAD_BEEF);
    assert_eq!(&mem[3..9], &[0, 0xEF, 0xBE, 0xAD, 0xDE, 0]);
    store_h(&mut mem, 10, 0x1234_5678);
    assert_eq!(load_uh(&mem, 10), 0x5678);
    assert_eq!(mem[12], 0);
    store_byte(&mut mem, 0, 0x1FF);
    assert_eq!(load_ubyte(&mem, 0), 0xFF);
    assert_eq!(load_byte(&mem, 0), 0xFFFF_FFFF);
    assert_eq!(mem[1], 0);
}

#[test]
fn init_ram_is_four_mebibytes_of_zeros() {
    let ram = init_ram();
    assert_eq!(ram.len(), 4 * 1024 * 1024);
    assert!(ram.iter().all(|&b| b == 0));
}

#[test]
fn sign_extend_reads_two_complement_fields() {
    assert_eq!(sign_extend(0xFFF, 12), -1);
    assert_eq!(sign_extend(0x7FF, 12), 2047);
    assert_eq!(sign_extend(0x800, 12), -2048);
    assert_eq!(sign_extend(0x1000, 13), -4096);
    assert_eq!(sign_extend(0xFFFF_FFFF, 32), -1);
    assert_eq!(sign_extend(1, 1), -1);
    assert_eq!(sign_extend(0, 1), 0);
    // bits above the field are not cleared: 0x1FFF has bit 11 set, so 2^12 is subtracted
    assert_eq!(sign_extend(0x1FFF, 12), 0xFFF);
}

#[test]
fn immediates_decode_from_their_fields() {
    assert_eq!(imm_i_of(0xFFF0_0093), -1);
    assert_eq!(imm_i_of(12 << 20), 12);
    assert_eq!(imm_s_of((0x7F << 25) | (0x1C << 7)), -4);
    // BEQ x1, x2, +8
    assert_eq!(imm_b_of((8 >> 1 & 0xF) << 8 | 2 << 20 | 1 << 15 | 0b1100011), 8);
    assert_eq!(imm_b_of(0x8000_0000), -4096);
    assert_eq!(imm_j_of(16 << 20), 16);
    assert_eq!(imm_j_of(0x8000_0000), -0x10_0000);
    assert_eq!(imm_u_of(0xFFFF_F037), 0xFFFF_F000);
}

#[test]
fn ram_reads_and_writes_bytes() {
    let mut ram = Ram::new();
    assert_eq!(ram.ram.len() as u64, RAM_SIZE);
    ram.write8(5, 0x1AB);
    assert_eq!(ram.read8(5), 0xAB);
    assert_eq!(ram.read8(4), 0);
}

#[test]
fn uart_registers() {
    let mut uart = Uart::new();
    assert_eq!(uart.read8(5), 0x60);
    assert_eq!(uart.read8(1), 0);
    uart.rx.extend_from_slice(b"hi");
    assert_eq!(uart.read8(0), b'h');
    assert_eq!(uart.read8(0), b'i');
    assert!(uart.rx.is_empty());
    assert_eq!(uart.read8(5), 0x60);
    uart.write8(0, b'o');
    uart.write8(3, b'x');
    uart.write8(0, b'k');
    assert_eq!(uart.tx, b"ok".to_vec());
}

#[test]
fn bus_dispatches_by_address() {
    let mut bus = Bus::new();
    bus.write32(RAM_BASE + 8, 0x1122_3344);
    assert_eq!(bus.read8(RAM_BASE + 8), 0x44);
    assert_eq!(bus.read16(RAM_BASE + 9), 0x2233);
    assert_eq!(bus.read32(RAM_BASE + 8), 0x1122_3344);
    bus.write64(RAM_OFFSET - 8, 0x0102_0304_0506_0708);
    assert_eq!(bus.read64(RAM_OFFSET - 8), 0x0102_0304_0506_0708);
    assert_eq!(bus.ram.ram[(RAM_SIZE - 8) as usize], 0x08);
    bus.write16(RAM_BASE, 0xBEEF);
    assert_eq!(bus.read16(RAM_BASE), 0xBEEF);
    bus.write8(UART_BASE, b'A');
    bus.write8(UART_BASE + 1, b'B');
    assert_eq!(bus.uart.tx, vec![b'A']);
    assert_eq!(bus.read8(UART_BASE + 5), 0x60);
    bus.uart.rx.push(b'z');
    assert_eq!(bus.read32(UART_BASE), b'z' as u32);
    assert!(bus.uart.rx.is_empty());
}

#[test]
fn cpu_reset_state() {
    let cpu = Cpu::new();
    assert_eq!(cpu.gpr[2], 0x8800_0000);
    assert_eq!(cpu.pc, 0x8000_0000);
    assert!(cpu.gpr.iter().enumerate().all(|(i, &v)| i == 2 || v == 0));
    assert!(cpu.csr.iter().all(|&v| v == 0));
    assert_eq!(cpu.privilege, 0);
    assert_eq!(cpu.satp, 0);
    assert_eq!(CpuPriv::U.to_u64(), 0);
    assert_eq!(CpuPriv::S.to_u64(), 1);
    assert_eq!(CpuPriv::M.to_u64(), 3);
}

#[test]
fn cpu_loads_and_stores_through_the_bus() {
    let mut cpu = Cpu::new();
    let mut bus = Bus::new();
    // LUI x1, 0x80000 gives 0x8000_0000 (zero-extended)
    cpu.execute(&mut bus, (0x80000 << 12) | (1 << 7) | 0b0110111);
    assert_eq!(cpu.gpr[1], 0x8000_0000);
    cpu.gpr[2] = 0xCAFE_F00D;
    // SW x2, 16(x1)
    cpu.execute(&mut bus, (2 << 20) | (1 << 15) | (2 << 12) | (16 << 7) | 0b0100011);
    assert_eq!(&bus.ram.ram[16..20], &[0x0D, 0xF0, 0xFE, 0xCA]);
    // LW x3, 16(x1)
    cpu.execute(&mut bus, (16 << 20) | (1 << 15) | (2 << 12) | (3 << 7) | 0b0000011);
    assert_eq!(cpu.gpr[3], 0xFFFF_FFFF_CAFE_F00D);
    // LHU x4, 18(x1) (funct3 4)
    cpu.execute(&mut bus, (18 << 20) | (1 << 15) | (4 << 12) | (4 << 7) | 0b0000011);
    assert_eq!(cpu.gpr[4], 0xCAFE);
    // LUI x5, 0x10000 is the UART; SB x2, 0(x5) transmits 0x0D
    cpu.execute(&mut bus, (0x10000 << 12) | (5 << 7) | 0b0110111);
    cpu.execute(&mut bus, (2 << 20) | (5 << 15) | (0 << 12) | (0 << 7) | 0b0100011);
    assert_eq!(bus.uart.tx, vec![0x0D]);
    // LB x6, 0(x5) receives a byte, sign-extended
    bus.uart.rx.push(0xF1);
    cpu.execute(&mut bus, (0 << 20) | (5 << 15) | (0 << 12) | (6 << 7) | 0b0000011);
    assert_eq!(cpu.gpr[6], 0xFFFF_FFFF_FFFF_FFF1);
    assert_eq!(cpu.pc, 0x8000_0000 + 7 * 4);
}

#[test]
fn emulator_fetches_and_executes() {
    let mut emu = Emulator::new();
    assert_eq!(emu.cpu.pc, RAM_BASE);
    assert_eq!(emu.cpu.gpr[2], RAM_OFFSET);
    // ADDI x1, x0, 42 at the reset pc
    emu.bus.write32(RAM_BASE, (42 << 20) | (1 << 7) | 0b0010011);
    emu.step();
    assert_eq!(emu.cpu.gpr[1], 42);
    assert_eq!(emu.cpu.pc, RAM_BASE + 4);
}

fn put_u64(bus: &mut Bus, addr: u64, v: u64) {
    bus.write64(addr, v);
}

fn sv39_cpu(root: u64) -> Cpu {
    let mut cpu = Cpu::new();
    cpu.satp = (8 << 60) | (root >> 12);
    cpu
}

const V: u64 = 1;
const R: u64 = 2;
const W: u64 = 4;
const X: u64 = 8;
const A: u64 = 0x40;
const D: u64 = 0x80;

fn pte(pa: u64, flags: u64) -> u64 {
    ((pa >> 12) << 10) | flags
}

#[test]
fn mmu_untranslated_modes() {
    let bus = Bus::new();
    let mut cpu = Cpu::new();
    assert_eq!(mmu_translate(&cpu, &bus, 0x1234_5678, AccessType::Load), Ok(0x1234_5678));
    cpu.satp = 8 << 60;
    cpu.privilege = 3;
    assert_eq!(mmu_translate(&cpu, &bus, 0xABC, AccessType::Store), Ok(0xABC));
}

#[test]
fn mmu_walks_three_levels_to_a_page() {
    let mut bus = Bus::new();
    let root = RAM_BASE + 0x1000;
    let l1 = RAM_BASE + 0x2000;
    let l0 = RAM_BASE + 0x3000;
    let page = RAM_BASE + 0x5000;
    let vaddr: u64 = (2 << 21) | (1 << 12) | 0x234; // vpn2 0, vpn1 2, vpn0 1
    put_u64(&mut bus, root, pte(l1, V));
    put_u64(&mut bus, l1 + 2 * 8, pte(l0, V));
    put_u64(&mut bus, l0 + 8, pte(page, V | R | X | A));
    let cpu = sv39_cpu(root);
    assert_eq!(mmu_translate(&cpu, &bus, vaddr, AccessType::Load), Ok(page + 0x234));
    assert_eq!(mmu_translate(&cpu, &bus, vaddr, AccessType::Fetch), Ok(page + 0x234));
    // no W bit: a store faults with cause 15
    assert_eq!(mmu_translate(&cpu, &bus, vaddr, AccessType::Store), Err(15));
    // a neighbouring page has no valid entry: causes 12, 13, 15 by access type
    let other = vaddr + 0x1000;
    assert_eq!(mmu_translate(&cpu, &bus, other, AccessType::Fetch), Err(12));
    assert_eq!(mmu_translate(&cpu, &bus, other, AccessType::Load), Err(13));
    assert_eq!(mmu_translate(&cpu, &bus, other, AccessType::Store), Err(15));
}

#[test]
fn mmu_superpages_must_be_aligned() {
    let mut bus = Bus::new();
    let root = RAM_BASE + 0x1000;
    let l1 = RAM_BASE + 0x2000;
    put_u64(&mut bus, root, pte(l1, V));
    // 2 MiB leaf at level 1, aligned
    put_u64(&mut bus, l1 + 3 * 8, pte(RAM_BASE + 0x20_0000, V | R | W | A | D));
    // 2 MiB leaf whose page number is not aligned
    put_u64(&mut bus, l1 + 4 * 8, pte(RAM_BASE + 0x1000, V | R | A));
    // pointer entry at level 0 would be needed below a non-leaf; entry 5 points to a table
    // whose entries are empty
    put_u64(&mut bus, l1 + 5 * 8, pte(RAM_BASE + 0x6000, V));
    let cpu = sv39_cpu(root);
    let va = (3 << 21) | 0x1_2345;
    assert_eq!(mmu_translate(&cpu, &bus, va, AccessType::Store), Ok(RAM_BASE + 0x20_0000 + 0x1_2345));
    assert_eq!(mmu_translate(&cpu, &bus, (4 << 21) | 0x10, AccessType::Load), Err(13));
    assert_eq!(mmu_translate(&cpu, &bus, (5 << 21) | 0x10, AccessType::Fetch), Err(12));
    // 1 GiB leaf at the root
    put_u64(&mut bus, root + 8, pte(0x4000_0000, V | X | A));
    assert_eq!(mmu_translate(&cpu, &bus, 0x4123_4567, AccessType::Fetch), Ok(0x4123_4567));
}

#[test]
fn mmu_faults_on_clear_accessed_or_dirty_bits() {
    let mut bus = Bus::new();
    let root = RAM_BASE + 0x1000;
    let l1 = RAM_BASE + 0x2000;
    let l0 = RAM_BASE + 0x3000;
    let page = RAM_BASE + 0x5000;
    put_u64(&mut bus, root, pte(l1, V));
    put_u64(&mut bus, l1, pte(l0, V));
    let cpu = sv39_cpu(root);
    // A clear: every access faults
    put_u64(&mut bus, l0, pte(page, V | R | W | X));
    assert_eq!(mmu_translate(&cpu, &bus, 0x10, AccessType::Load), Err(13));
    assert_eq!(mmu_translate(&cpu, &bus, 0x10, AccessType::Fetch), Err(12));
    assert_eq!(mmu_translate(&cpu, &bus, 0x10, AccessType::Store), Err(15));
    // A set, D clear: loads and fetches go through, stores fault
    put_u64(&mut bus, l0, pte(page, V | R | W | X | A));
    assert_eq!(mmu_translate(&cpu, &bus, 0x10, AccessType::Load), Ok(page + 0x10));
    assert_eq!(mmu_translate(&cpu, &bus, 0x10, AccessType::Fetch), Ok(page + 0x10));
    assert_eq!(mmu_translate(&cpu, &bus, 0x10, AccessType::Store), Err(15));
    // A and D set: stores go through too
    put_u64(&mut bus, l0, pte(page, V | R | W | X | A | D));
    assert_eq!(mmu_translate(&cpu, &bus, 0x10, AccessType::Store), Ok(page + 0x10));
}

#[test]
fn bus_machine_keeps_x0_zero_and_reads_jalr_base_first() {
    let mut cpu = Cpu::new();
    let mut bus = Bus::new();
    let pc0 = cpu.pc;
    // JAL x0, +8
    cpu.execute(&mut bus, (4 << 21) | 0b1101111);
    assert_eq!(cpu.gpr[0], 0);
    assert_eq!(cpu.pc, pc0 + 8);
    // LUI x0
    cpu.execute(&mut bus, (0x12345 << 12) | 0b0110111);
    assert_eq!(cpu.gpr[0], 0);
    // JALR x1, 12(x1) with x1 = 100
    cpu.gpr[1] = 100;
    let pc1 = cpu.pc;
    cpu.execute(&mut bus, (12 << 20) | (1 << 15) | (1 << 7) | 0b1100111);
    assert_eq!(cpu.pc, 112);
    assert_eq!(cpu.gpr[1], pc1 + 4);
}

#[test]
fn cpudata_translation_is_bare_only() {
    let mut cpu = CpuData::new();
    assert_eq!(risc_v_emulator_rust::mmu::mmu_translate(&cpu, 0x1234, 0), 0x1234);
    cpu.satp = 8 << 60;
    assert_eq!(risc_v_emulator_rust::mmu::mmu_translate(&cpu, 0x1234, 0), 0);
}

#[test]
fn mmu_addresses_in_one_page_move_together() {
    let mut bus = Bus::new();
    let root = RAM_BASE + 0x1000;
    let l1 = RAM_BASE + 0x2000;
    let l0 = RAM_BASE + 0x3000;
    put_u64(&mut bus, root, pte(l1, V));
    put_u64(&mut bus, l1, pte(l0, V));
    put_u64(&mut bus, l0 + 7 * 8, pte(RAM_BASE + 0x9000, V | R | A));
    let cpu = sv39_cpu(root);
    let a = mmu_translate(&cpu, &bus, 0x7000, AccessType::Load).unwrap();
    let b = mmu_translate(&cpu, &bus, 0x7FFF, AccessType::Load).unwrap();
    assert_eq!(a, RAM_BASE + 0x9000);
    assert_eq!(b - a, 0xFFF);
    assert_eq!(mmu_translate(&cpu, &bus, 0x7000, AccessType::Store), Err(15));
    assert_eq!(mmu_translate(&cpu, &bus, 0x7ABC, AccessType::Store), Err(15));
}

#[test]
fn sign_extend_undoes_truncation() {
    for x in [-2048i32, -5, -1, 0, 1, 2047] {
        assert_eq!(sign_extend((x as u32) & 0xFFF, 12), x);
    }
    for x in [-4096i32, -2, 4094] {
        assert_eq!(sign_extend((x as u32) & 0x1FFF, 13), x);
    }
}

#[test]
fn both_processors_agree_on_register_instructions() {
    let mut data = CpuData::new();
    let mut cpu = Cpu::new();
    let mut bus = Bus::new();
    data.pc = cpu.pc;
    data.gpr = cpu.gpr;
    data.gpr[1] = 0x8000_0001;
    cpu.gpr[1] = 0x8000_0001;
    let program = [
        (3 << 20) | (1 << 15) | (5 << 12) | (0x20 << 25) | (2 << 7) | 0b0010011, // SRAI
        (1 << 25) | (1 << 20) | (2 << 15) | (1 << 12) | (3 << 7) | 0b0110011, // MULH
        (1 << 25) | (2 << 20) | (1 << 15) | (6 << 12) | (4 << 7) | 0b0110011, // REM
        (12 << 7) | 0b1101111, // JAL x12, 0
        (0x12345 << 12) | (5 << 7) | 0b0010111, // AUIPC
    ];
    for &ins in program.iter() {
        assert!(risc_v_emulator_rust::instructions::executable(ins, &data));
        risc_v_emulator_rust::instructions::read_ins(ins, &mut data);
        cpu.execute(&mut bus, ins);
        assert_eq!(data.gpr, cpu.gpr);
        assert_eq!(data.pc, cpu.pc);
    }
    assert!(bus.uart.tx.is_empty());
}
