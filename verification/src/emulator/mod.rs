//! The whole machine: a hart and the bus it is attached to.
use vstd::prelude::*;
use crate::cpu::Cpu;
use crate::cpu::instructions::{exec_defined, exec_effect};
use crate::bus::{Bus, bus_read32, bus_read32_ready, mapped_range};
use crate::bus::ram::{RAM_BASE, RAM_OFFSET, RAM_SIZE};

verus! {

pub struct Emulator {
    pub cpu: Cpu,
    pub bus: Bus,
}

/// The instruction word a fetch at `pc` reads, and the receive queue after it.
pub open spec fn fetch(ram: Seq<u8>, rx: Seq<u8>, pc: u64) -> (Seq<u8>, u32) {
    let (rx2, w) = bus_read32(ram, rx, pc as int);
    (rx2, w as u32)
}

impl Emulator {
    /// A hart in its reset state (see `Cpu::new`) on a bus with zeroed main memory and an
    /// idle UART.
    pub fn new() -> (emu: Self)
        ensures
            emu.cpu.gpr@ == Seq::new(32, |i: int| if i == 2 { RAM_OFFSET } else { 0u64 }),
            emu.cpu.csr@ == Seq::new(4096, |i: int| 0u64),
            emu.cpu.pc == RAM_BASE,
            emu.cpu.privilege == 0,
            emu.cpu.satp == 0,
            emu.bus.wf(),
            forall|i: int| 0 <= i < RAM_SIZE ==> emu.bus.ram.ram@[i] == 0,
            emu.bus.uart.rx@ == Seq::<u8>::empty(),
            emu.bus.uart.tx@ == Seq::<u8>::empty(),
    {
        let cpu = Cpu::new();
        let bus = Bus::new();
        Emulator { cpu, bus }
    }

    /// Fetches the instruction word at pc from the bus and executes it.
    pub fn step(&mut self)
        requires
            old(self).bus.wf(),
            mapped_range(old(self).cpu.pc as int, 4),
            bus_read32_ready(old(self).bus.ram.ram@, old(self).bus.uart.rx@, old(self).cpu.pc as int),
            ({
                let (rx1, instruction) = fetch(
                    old(self).bus.ram.ram@,
                    old(self).bus.uart.rx@,
                    old(self).cpu.pc,
                );
                exec_defined(old(self).cpu.gpr@, old(self).cpu.pc, old(self).bus.ram.ram@, rx1, instruction)
            }),
        ensures
            final(self).bus.wf(),
            ({
                let (rx1, instruction) = fetch(
                    old(self).bus.ram.ram@,
                    old(self).bus.uart.rx@,
                    old(self).cpu.pc,
                );
                (final(self).cpu.gpr@, final(self).cpu.pc, final(self).bus.ram.ram@, final(self).bus.uart.rx@, final(self).bus.uart.tx@)
                    == exec_effect(
                    old(self).cpu.gpr@,
                    old(self).cpu.pc,
                    old(self).bus.ram.ram@,
                    rx1,
                    old(self).bus.uart.tx@,
                    instruction,
                )
            }),
            final(self).cpu.csr@ == old(self).cpu.csr@,
            final(self).cpu.privilege == old(self).cpu.privilege,
            final(self).cpu.satp == old(self).cpu.satp,
    {
        let instruction = self.bus.read32(self.cpu.pc);
        self.cpu.execute(&mut self.bus, instruction);
    }
}

} // verus!
