//! The system bus: physical address dispatch to main memory and the UART.
pub mod ram;
pub mod uart;

use vstd::prelude::*;
use self::ram::{Ram, RAM_BASE, RAM_OFFSET, RAM_SIZE};
use self::uart::{Uart, UART_BASE, UART_OFFSET, uart_read, uart_read_ready, uart_write};
use crate::memory::{lemma_le_pack, lemma_le_split};

verus! {

/// Whether physical address `addr` selects a UART register.
pub open spec fn is_uart(addr: int) -> bool {
    UART_BASE <= addr <= UART_OFFSET
}

/// Whether physical address `addr` selects a byte of main memory.
pub open spec fn is_ram(addr: int) -> bool {
    RAM_BASE <= addr < RAM_OFFSET
}

/// Whether physical address `addr` is backed by a device.
pub open spec fn mapped(addr: int) -> bool {
    is_uart(addr) || is_ram(addr)
}

/// Whether the `n` bytes starting at physical address `addr` are all backed by a device.
pub open spec fn mapped_range(addr: int, n: int) -> bool {
    forall|k: int| 0 <= k < n ==> #[trigger] mapped(addr + k)
}

/// Receive queue after a byte read at `addr`, and the byte read.
pub open spec fn bus_read8(ram: Seq<u8>, rx: Seq<u8>, addr: int) -> (Seq<u8>, int) {
    if is_uart(addr) {
        let (rx2, v) = uart_read(rx, addr - UART_BASE);
        (rx2, v as int)
    } else {
        (rx, ram[addr - RAM_BASE] as int)
    }
}

/// Whether a byte read at `addr` can complete: a read of the UART's receive register waits
/// for console input, so a byte must be waiting in `rx`.
pub open spec fn bus_read8_ready(rx: Seq<u8>, addr: int) -> bool {
    is_uart(addr) ==> uart_read_ready(rx, addr - UART_BASE)
}

/// Whether a halfword read at `addr` can complete (both of its byte reads, in order).
pub open spec fn bus_read16_ready(ram: Seq<u8>, rx: Seq<u8>, addr: int) -> bool {
    bus_read8_ready(rx, addr) && bus_read8_ready(bus_read8(ram, rx, addr).0, addr + 1)
}

/// Whether a word read at `addr` can complete (both of its halfword reads, in order).
pub open spec fn bus_read32_ready(ram: Seq<u8>, rx: Seq<u8>, addr: int) -> bool {
    bus_read16_ready(ram, rx, addr) && bus_read16_ready(
        ram,
        bus_read16(ram, rx, addr).0,
        addr + 2,
    )
}

/// Whether a doubleword read at `addr` can complete (both of its word reads, in order).
pub open spec fn bus_read64_ready(ram: Seq<u8>, rx: Seq<u8>, addr: int) -> bool {
    bus_read32_ready(ram, rx, addr) && bus_read32_ready(
        ram,
        bus_read32(ram, rx, addr).0,
        addr + 4,
    )
}

/// A little-endian halfword read: the byte at `addr`, then the byte at `addr + 1`.
pub open spec fn bus_read16(ram: Seq<u8>, rx: Seq<u8>, addr: int) -> (Seq<u8>, int) {
    let (rx1, lo) = bus_read8(ram, rx, addr);
    let (rx2, hi) = bus_read8(ram, rx1, addr + 1);
    (rx2, lo + hi * 0x100)
}

/// A little-endian word read: the halfword at `addr`, then the one at `addr + 2`.
pub open spec fn bus_read32(ram: Seq<u8>, rx: Seq<u8>, addr: int) -> (Seq<u8>, int) {
    let (rx1, lo) = bus_read16(ram, rx, addr);
    let (rx2, hi) = bus_read16(ram, rx1, addr + 2);
    (rx2, lo + hi * 0x1_0000)
}

/// A little-endian doubleword read: the word at `addr`, then the one at `addr + 4`.
pub open spec fn bus_read64(ram: Seq<u8>, rx: Seq<u8>, addr: int) -> (Seq<u8>, int) {
    let (rx1, lo) = bus_read32(ram, rx, addr);
    let (rx2, hi) = bus_read32(ram, rx1, addr + 4);
    (rx2, lo + hi * 0x1_0000_0000)
}

/// Main memory and transmit queue after writing the byte `v` at `addr`.
pub open spec fn bus_write8(ram: Seq<u8>, tx: Seq<u8>, addr: int, v: u8) -> (Seq<u8>, Seq<u8>) {
    if is_uart(addr) {
        (ram, uart_write(tx, addr - UART_BASE, v))
    } else {
        (ram.update(addr - RAM_BASE, v), tx)
    }
}

/// A little-endian halfword write of `v`: low byte at `addr`, then high byte at `addr + 1`.
pub open spec fn bus_write16(ram: Seq<u8>, tx: Seq<u8>, addr: int, v: int) -> (
    Seq<u8>,
    Seq<u8>,
) {
    let (ram1, tx1) = bus_write8(ram, tx, addr, (v % 0x100) as u8);
    bus_write8(ram1, tx1, addr + 1, ((v / 0x100) % 0x100) as u8)
}

/// A little-endian word write of `v`: low halfword at `addr`, then high at `addr + 2`.
pub open spec fn bus_write32(ram: Seq<u8>, tx: Seq<u8>, addr: int, v: int) -> (
    Seq<u8>,
    Seq<u8>,
) {
    let (ram1, tx1) = bus_write16(ram, tx, addr, v % 0x1_0000);
    bus_write16(ram1, tx1, addr + 2, (v / 0x1_0000) % 0x1_0000)
}

/// A little-endian doubleword write of `v`: low word at `addr`, then high at `addr + 4`.
pub open spec fn bus_write64(ram: Seq<u8>, tx: Seq<u8>, addr: int, v: int) -> (
    Seq<u8>,
    Seq<u8>,
) {
    let (ram1, tx1) = bus_write32(ram, tx, addr, v % 0x1_0000_0000);
    bus_write32(ram1, tx1, addr + 4, (v / 0x1_0000_0000) % 0x1_0000_0000)
}

/// The devices on the physical address space: main memory at `RAM_BASE..RAM_OFFSET` and the
/// UART at `UART_BASE..=UART_OFFSET`; nothing else is mapped.
pub struct Bus {
    pub ram: Ram,
    pub uart: Uart,
}

impl Bus {
    /// Main memory holds exactly `RAM_SIZE` bytes.
    pub open spec fn wf(&self) -> bool {
        self.ram.ram@.len() == RAM_SIZE
    }

    /// Zeroed main memory and an idle UART.
    pub fn new() -> (bus: Self)
        ensures
            bus.wf(),
            forall|i: int| 0 <= i < RAM_SIZE ==> bus.ram.ram@[i] == 0,
            bus.uart.rx@ == Seq::<u8>::empty(),
            bus.uart.tx@ == Seq::<u8>::empty(),
    {
        let ram: Ram = Ram::new();
        let uart: Uart = Uart::new();
        Bus { ram, uart }
    }

    /// Reads the byte at physical address `addr`.
    pub fn read8(&mut self, addr: u64) -> (r: u8)
        requires
            old(self).wf(),
            mapped(addr as int),
            bus_read8_ready(old(self).uart.rx@, addr as int),
        ensures
            final(self).wf(),
            (final(self).uart.rx@, r as int) == bus_read8(
                old(self).ram.ram@,
                old(self).uart.rx@,
                addr as int,
            ),
            final(self).ram.ram@ == old(self).ram.ram@,
            final(self).uart.tx@ == old(self).uart.tx@,
    {
        if UART_BASE <= addr && addr <= UART_OFFSET {
            self.uart.read8(addr - UART_BASE)
        } else {
            self.ram.read8(addr - RAM_BASE)
        }
    }

    /// Reads the little-endian halfword at physical address `addr`.
    pub fn read16(&mut self, addr: u64) -> (r: u16)
        requires
            old(self).wf(),
            mapped_range(addr as int, 2),
            bus_read16_ready(old(self).ram.ram@, old(self).uart.rx@, addr as int),
        ensures
            final(self).wf(),
            (final(self).uart.rx@, r as int) == bus_read16(
                old(self).ram.ram@,
                old(self).uart.rx@,
                addr as int,
            ),
            final(self).ram.ram@ == old(self).ram.ram@,
            final(self).uart.tx@ == old(self).uart.tx@,
    {
        assert(mapped(addr + 0) && mapped(addr + 1));
        let lo = self.read8(addr);
        let hi = self.read8(addr + 1);
        proof {
            lemma_le_pack(lo, hi, 0, 0, 0, 0, 0, 0);
        }
        (lo as u16) | ((hi as u16) << 8)
    }

    /// Reads the little-endian word at physical address `addr`.
    pub fn read32(&mut self, addr: u64) -> (r: u32)
        requires
            old(self).wf(),
            mapped_range(addr as int, 4),
            bus_read32_ready(old(self).ram.ram@, old(self).uart.rx@, addr as int),
        ensures
            final(self).wf(),
            (final(self).uart.rx@, r as int) == bus_read32(
                old(self).ram.ram@,
                old(self).uart.rx@,
                addr as int,
            ),
            final(self).ram.ram@ == old(self).ram.ram@,
            final(self).uart.tx@ == old(self).uart.tx@,
    {
        assert(mapped(addr + 0) && mapped(addr + 1) && mapped(addr + 2) && mapped(addr + 3));
        let lo = self.read16(addr);
        let hi = self.read16(addr + 2);
        proof {
            lemma_le_pack(0, 0, 0, 0, lo, hi, 0, 0);
        }
        (lo as u32) | ((hi as u32) << 16)
    }

    /// Reads the little-endian doubleword at physical address `addr`.
    pub fn read64(&mut self, addr: u64) -> (r: u64)
        requires
            old(self).wf(),
            mapped_range(addr as int, 8),
            bus_read64_ready(old(self).ram.ram@, old(self).uart.rx@, addr as int),
        ensures
            final(self).wf(),
            (final(self).uart.rx@, r as int) == bus_read64(
                old(self).ram.ram@,
                old(self).uart.rx@,
                addr as int,
            ),
            final(self).ram.ram@ == old(self).ram.ram@,
            final(self).uart.tx@ == old(self).uart.tx@,
    {
        assert(mapped(addr + 0) && mapped(addr + 1) && mapped(addr + 2) && mapped(addr + 3));
        assert(mapped(addr + 4) && mapped(addr + 5) && mapped(addr + 6) && mapped(addr + 7));
        let lo = self.read32(addr);
        let hi = self.read32(addr + 4);
        proof {
            lemma_le_pack(0, 0, 0, 0, 0, 0, lo, hi);
        }
        (lo as u64) | ((hi as u64) << 32)
    }

    /// Writes the byte `val` at physical address `addr`.
    pub fn write8(&mut self, addr: u64, val: u8)
        requires
            old(self).wf(),
            mapped(addr as int),
        ensures
            final(self).wf(),
            (final(self).ram.ram@, final(self).uart.tx@) == bus_write8(
                old(self).ram.ram@,
                old(self).uart.tx@,
                addr as int,
                val,
            ),
            final(self).uart.rx@ == old(self).uart.rx@,
    {
        if UART_BASE <= addr && addr <= UART_OFFSET {
            self.uart.write8(addr - UART_BASE, val);
        } else {
            self.ram.write8(addr - RAM_BASE, val as u64);
        }
    }

    /// Writes `val` little-endian at physical address `addr`.
    pub fn write16(&mut self, addr: u64, val: u16)
        requires
            old(self).wf(),
            mapped_range(addr as int, 2),
        ensures
            final(self).wf(),
            (final(self).ram.ram@, final(self).uart.tx@) == bus_write16(
                old(self).ram.ram@,
                old(self).uart.tx@,
                addr as int,
                val as int,
            ),
            final(self).uart.rx@ == old(self).uart.rx@,
    {
        assert(mapped(addr + 0) && mapped(addr + 1));
        proof {
            lemma_le_split(val, 0, 0);
        }
        self.write8(addr, val as u8);
        self.write8(addr + 1, (val >> 8u16) as u8);
    }

    /// Writes `val` little-endian at physical address `addr`.
    pub fn write32(&mut self, addr: u64, val: u32)
        requires
            old(self).wf(),
            mapped_range(addr as int, 4),
        ensures
            final(self).wf(),
            (final(self).ram.ram@, final(self).uart.tx@) == bus_write32(
                old(self).ram.ram@,
                old(self).uart.tx@,
                addr as int,
                val as int,
            ),
            final(self).uart.rx@ == old(self).uart.rx@,
    {
        assert(mapped(addr + 0) && mapped(addr + 1) && mapped(addr + 2) && mapped(addr + 3));
        proof {
            lemma_le_split(0, val, 0);
        }
        self.write16(addr, val as u16);
        self.write16(addr + 2, (val >> 16u32) as u16);
    }

    /// Writes `val` little-endian at physical address `addr`.
    pub fn write64(&mut self, addr: u64, val: u64)
        requires
            old(self).wf(),
            mapped_range(addr as int, 8),
        ensures
            final(self).wf(),
            (final(self).ram.ram@, final(self).uart.tx@) == bus_write64(
                old(self).ram.ram@,
                old(self).uart.tx@,
                addr as int,
                val as int,
            ),
            final(self).uart.rx@ == old(self).uart.rx@,
    {
        assert(mapped(addr + 0) && mapped(addr + 1) && mapped(addr + 2) && mapped(addr + 3));
        assert(mapped(addr + 4) && mapped(addr + 5) && mapped(addr + 6) && mapped(addr + 7));
        proof {
            lemma_le_split(0, 0, val);
        }
        self.write32(addr, val as u32);
        self.write32(addr + 4, (val >> 32u64) as u32);
    }
}

/// A byte written to main memory through the bus reads back unchanged; the write leaves the
/// UART queues and every other byte of main memory alone.
pub proof fn lemma_ram_write_read8(ram: Seq<u8>, rx: Seq<u8>, tx: Seq<u8>, addr: int, v: u8)
    requires
        is_ram(addr),
        ram.len() == RAM_SIZE,
    ensures
        bus_read8(bus_write8(ram, tx, addr, v).0, rx, addr) == (rx, v as int),
        bus_write8(ram, tx, addr, v).1 == tx,
        forall|a: int|
            is_ram(a) && a != addr ==> #[trigger] bus_write8(ram, tx, addr, v).0[a - RAM_BASE]
                == ram[a - RAM_BASE],
{
}

/// A word written to main memory through the bus reads back unchanged; the write leaves the
/// UART queues and every byte of main memory outside the word alone.
pub proof fn lemma_ram_write_read32(ram: Seq<u8>, rx: Seq<u8>, tx: Seq<u8>, addr: int, v: int)
    requires
        is_ram(addr),
        is_ram(addr + 3),
        ram.len() == RAM_SIZE,
        0 <= v < 0x1_0000_0000,
    ensures
        bus_read32(bus_write32(ram, tx, addr, v).0, rx, addr) == (rx, v),
        bus_write32(ram, tx, addr, v).1 == tx,
        forall|a: int|
            is_ram(a) && !(addr <= a < addr + 4) ==> #[trigger] bus_write32(ram, tx, addr, v).0[a
                - RAM_BASE] == ram[a - RAM_BASE],
{
}

/// Bytes written to the UART's transmit register are queued for the console in the order
/// they were written, and writes to the UART leave main memory alone.
pub proof fn lemma_uart_transmit(ram: Seq<u8>, tx: Seq<u8>, a: u8, b: u8)
    ensures
        ({
            let (ram1, tx1) = bus_write8(ram, tx, UART_BASE as int, a);
            let (ram2, tx2) = bus_write8(ram1, tx1, UART_BASE as int, b);
            ram2 == ram && tx2 == tx.push(a).push(b)
        }),
{
}

/// Reading the UART's receive register yields the console input in the order it arrived;
/// such a read can complete only while input is waiting.
pub proof fn lemma_uart_receive(ram: Seq<u8>, rx: Seq<u8>)
    ensures
        bus_read8_ready(rx, UART_BASE as int) == (rx.len() > 0),
        rx.len() > 0 ==> bus_read8(ram, rx, UART_BASE as int) == (rx.drop_first(), rx[0] as int),
{
}

} // verus!
