pub mod instructions;
pub mod memory;
pub mod cpu;
pub mod bus;
pub mod mmu;
pub mod emulator;
