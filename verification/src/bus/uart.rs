//! The console UART (a 16550-style register window).
//!
//! Characters the program writes to the transmit register are queued in `tx`; characters
//! typed at the console are queued in `rx` by whoever owns the console, and the receive
//! register hands them out one at a time. A read of the receive register waits for input:
//! it may only be made once a byte is waiting.
use vstd::prelude::*;

verus! {

/// Physical address of the UART's first register.
pub const UART_BASE: u64 = 0x1000_0000;

/// Physical address of the UART's last register.
pub const UART_OFFSET: u64 = 0x1000_00FF;

/// Register 0: receive buffer (read) / transmit holding register (write).
pub const UART_RBR_THR: u64 = 0x00;

/// Register 5: line status register.
pub const UART_LSR: u64 = 0x05;

/// Line status: transmit holding register empty and transmitter idle.
pub const UART_LSR_IDLE: u8 = 0x60;

pub struct Uart {
    /// Console input not yet read by the program, oldest first.
    pub rx: Vec<u8>,
    /// Program output not yet shown on the console, oldest first.
    pub tx: Vec<u8>,
}

/// Whether reading register `reg` can complete: the receive register needs a waiting byte.
pub open spec fn uart_read_ready(rx: Seq<u8>, reg: int) -> bool {
    reg == UART_RBR_THR ==> rx.len() > 0
}

/// Receive queue after reading register `reg`, and the value read.
pub open spec fn uart_read(rx: Seq<u8>, reg: int) -> (Seq<u8>, u8) {
    if reg == UART_RBR_THR {
        (rx.drop_first(), rx[0])
    } else if reg == UART_LSR {
        (rx, UART_LSR_IDLE)
    } else {
        (rx, 0u8)
    }
}

/// Transmit queue after writing `val` to register `reg`.
pub open spec fn uart_write(tx: Seq<u8>, reg: int, val: u8) -> Seq<u8> {
    if reg == UART_RBR_THR {
        tx.push(val)
    } else {
        tx
    }
}

impl Uart {
    /// No input waiting, no output queued.
    pub fn new() -> (u: Self)
        ensures
            u.rx@ == Seq::<u8>::empty(),
            u.tx@ == Seq::<u8>::empty(),
    {
        Uart { rx: Vec::new(), tx: Vec::new() }
    }

    /// Writes `val` to register `reg`: the transmit register queues it for the console,
    /// the other registers ignore it.
    pub fn write8(&mut self, reg: u64, val: u8)
        ensures
            final(self).tx@ == uart_write(old(self).tx@, reg as int, val),
            final(self).rx@ == old(self).rx@,
    {
        if reg == UART_RBR_THR {
            self.tx.push(val);
        }
    }

    /// Reads register `reg`: the receive register yields the oldest waiting input byte (a
    /// read waits for input, so one must be waiting), the line status register reports an
    /// idle transmitter, the other registers read 0.
    pub fn read8(&mut self, reg: u64) -> (r: u8)
        requires
            uart_read_ready(old(self).rx@, reg as int),
        ensures
            (final(self).rx@, r) == uart_read(old(self).rx@, reg as int),
            final(self).tx@ == old(self).tx@,
    {
        if reg == UART_RBR_THR {
            self.rx.remove(0)
        } else if reg == UART_LSR {
            UART_LSR_IDLE
        } else {
            0
        }
    }
}

} // verus!
