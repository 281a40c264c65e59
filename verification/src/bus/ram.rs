//! Main memory of the system bus.
use vstd::prelude::*;
use crate::memory::lemma_le_split;

verus! {

/// Size in bytes of main memory (128 MiB).
pub const RAM_SIZE: u64 = 128 * 1024 * 1024;

/// Physical address of the first byte of main memory.
pub const RAM_BASE: u64 = 0x8000_0000;

/// Physical address one past the last byte of main memory.
pub const RAM_OFFSET: u64 = RAM_BASE + RAM_SIZE;

/// Main memory, addressed by offset from `RAM_BASE`.
pub struct Ram {
    pub ram: Vec<u8>,
}

impl Ram {
    /// `RAM_SIZE` zero bytes.
    pub fn new() -> (r: Self)
        ensures
            r.ram@.len() == RAM_SIZE,
            forall|i: int| 0 <= i < RAM_SIZE ==> r.ram@[i] == 0,
    {
        Ram { ram: vec![0u8; RAM_SIZE as usize] }
    }

    /// The byte at offset `addr`.
    pub fn read8(&mut self, addr: u64) -> (r: u8)
        requires
            addr < old(self).ram@.len(),
        ensures
            r == old(self).ram@[addr as int],
            final(self).ram@ == old(self).ram@,
    {
        assert(self.ram@.len() == self.ram.len());
        self.ram[addr as usize]
    }

    /// Writes the low byte of `val` at offset `addr`.
    pub fn write8(&mut self, addr: u64, val: u64)
        requires
            addr < old(self).ram@.len(),
        ensures
            final(self).ram@ == old(self).ram@.update(addr as int, (val % 0x100) as u8),
    {
        proof {
            lemma_le_split(0, 0, val);
        }
        assert(self.ram@.len() == self.ram.len());
        self.ram[addr as usize] = val as u8;
    }
}

} // verus!
