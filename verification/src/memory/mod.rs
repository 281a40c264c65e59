//! Byte-addressed memory: little-endian loads and stores on a byte slice.
use vstd::prelude::*;
use vstd::arithmetic::power2::lemma2_to64;
use crate::instructions::decode::{sext, wrap32};

verus! {

/// Size in bytes of the memory that `init_ram` allocates (4 MiB).
pub const RAM_SIZE: usize = 4 * 1024 * 1024;

/// The unsigned value of the two bytes at `addr` and `addr + 1`, little-endian.
pub open spec fn le16(mem: Seq<u8>, addr: int) -> int {
    mem[addr] + mem[addr + 1] * 0x100
}

/// The unsigned value of the four bytes at `addr..addr + 4`, little-endian.
pub open spec fn le32(mem: Seq<u8>, addr: int) -> int {
    le16(mem, addr) + le16(mem, addr + 2) * 0x1_0000
}

/// The unsigned value of the eight bytes at `addr..addr + 8`, little-endian.
pub open spec fn le64(mem: Seq<u8>, addr: int) -> int {
    le32(mem, addr) + le32(mem, addr + 4) * 0x1_0000_0000
}

/// Byte `k` (counting from the least significant) of the non-negative value `v`.
pub open spec fn byte_of(v: int, k: nat) -> u8 {
    if k == 0 {
        (v % 0x100) as u8
    } else if k == 1 {
        ((v / 0x100) % 0x100) as u8
    } else if k == 2 {
        ((v / 0x1_0000) % 0x100) as u8
    } else {
        ((v / 0x100_0000) % 0x100) as u8
    }
}

/// `mem` with the low byte of `v` written at `addr`.
pub open spec fn store8(mem: Seq<u8>, addr: int, v: int) -> Seq<u8> {
    mem.update(addr, byte_of(v, 0))
}

/// `mem` with the low two bytes of `v` written little-endian at `addr`.
pub open spec fn store16(mem: Seq<u8>, addr: int, v: int) -> Seq<u8> {
    store8(mem, addr, v).update(addr + 1, byte_of(v, 1))
}

/// `mem` with the low four bytes of `v` written little-endian at `addr`.
pub open spec fn store32(mem: Seq<u8>, addr: int, v: int) -> Seq<u8> {
    store16(mem, addr, v).update(addr + 2, byte_of(v, 2)).update(addr + 3, byte_of(v, 3))
}

/// Packing little-endian bytes, halfwords and words into wider values adds them with
/// their place values.
pub(crate) proof fn lemma_le_pack(b0: u8, b1: u8, b2: u8, b3: u8, h0: u16, h1: u16, w0: u32, w1: u32)
    ensures
        (b0 as u16) | ((b1 as u16) << 8) == b0 + b1 * 0x100,
        (b0 as u32) | ((b1 as u32) << 8) | ((b2 as u32) << 16) | ((b3 as u32) << 24) == b0 + b1
            * 0x100 + b2 * 0x1_0000 + b3 * 0x100_0000,
        (h0 as u32) | ((h1 as u32) << 16) == h0 + h1 * 0x1_0000,
        (w0 as u64) | ((w1 as u64) << 32) == w0 + w1 * 0x1_0000_0000,
{
    assert({
        &&& (b0 as u16) | ((b1 as u16) << 8) == b0 + b1 * 0x100
        &&& (b0 as u32) | ((b1 as u32) << 8) | ((b2 as u32) << 16) | ((b3 as u32) << 24) == b0 + b1
            * 0x100 + b2 * 0x1_0000 + b3 * 0x100_0000
        &&& (h0 as u32) | ((h1 as u32) << 16) == h0 + h1 * 0x1_0000
        &&& (w0 as u64) | ((w1 as u64) << 32) == w0 + w1 * 0x1_0000_0000
    }) by (bit_vector);
}

/// Sign-extending a byte, a halfword and a word to 32 bits.
pub(crate) proof fn lemma_sign_widen(b: u8, h: u16, w: u32)
    ensures
        ((b as i8 as i32) as u32) == (if b >= 0x80 { b + 0xFFFF_FF00 } else { b as int }),
        ((h as i16 as i32) as u32) == (if h >= 0x8000 { h + 0xFFFF_0000 } else { h as int }),
        (w as i32 as u32) == w,
{
    assert({
        &&& ((b as i8 as i32) as u32) == (if b >= 0x80u8 { b + 0xFFFF_FF00u32 } else { b as int })
        &&& ((h as i16 as i32) as u32) == (if h >= 0x8000u16 { h + 0xFFFF_0000u32 } else { h as int })
        &&& (w as i32 as u32) == w
    }) by (bit_vector);
}

/// Splitting a halfword, a word and a doubleword into their little-endian parts.
pub(crate) proof fn lemma_le_split(v16: u16, v32: u32, v64: u64)
    ensures
        (v16 as u8) == v16 % 0x100,
        ((v16 >> 8u16) as u8) == (v16 / 0x100) % 0x100,
        (v32 as u8) == v32 % 0x100,
        ((v32 >> 8u32) as u8) == (v32 / 0x100) % 0x100,
        ((v32 >> 16u32) as u8) == (v32 / 0x1_0000) % 0x100,
        ((v32 >> 24u32) as u8) == (v32 / 0x100_0000) % 0x100,
        (v32 as u16) == v32 % 0x1_0000,
        ((v32 >> 16u32) as u16) == (v32 / 0x1_0000) % 0x1_0000,
        (v64 as u8) == v64 % 0x100,
        (v64 as u32) == v64 % 0x1_0000_0000,
        ((v64 >> 32u64) as u32) == (v64 / 0x1_0000_0000) % 0x1_0000_0000,
{
    assert({
        &&& (v16 as u8) == v16 % 0x100
        &&& ((v16 >> 8u16) as u8) == (v16 / 0x100) % 0x100
        &&& (v32 as u8) == v32 % 0x100
        &&& ((v32 >> 8u32) as u8) == (v32 / 0x100) % 0x100
        &&& ((v32 >> 16u32) as u8) == (v32 / 0x1_0000) % 0x100
        &&& ((v32 >> 24u32) as u8) == (v32 / 0x100_0000) % 0x100
        &&& (v32 as u16) == v32 % 0x1_0000
        &&& ((v32 >> 16u32) as u16) == (v32 / 0x1_0000) % 0x1_0000
        &&& (v64 as u8) == v64 % 0x100
        &&& (v64 as u32) == v64 % 0x1_0000_0000
        &&& ((v64 >> 32u64) as u32) == (v64 / 0x1_0000_0000) % 0x1_0000_0000
    }) by (bit_vector);
}

// LOADING INTO CPU REGISTER

/// Loads the byte at `addr`, sign-extended to 32 bits.
pub fn load_byte(mem: &[u8], addr: u32) -> (r: u32)
    requires
        addr < mem@.len(),
    ensures
        r == wrap32(sext(mem@[addr as int] as int, 8)),
{
    let b = mem[addr as usize];
    proof {
        lemma2_to64();
        lemma_sign_widen(b, 0, 0);
    }
    (b as i8 as i32) as u32
}

/// Loads the halfword at `addr` (little-endian), sign-extended to 32 bits.
pub fn load_h(mem: &[u8], addr: u32) -> (r: u32)
    requires
        addr as int + 1 < mem@.len(),
    ensures
        r == wrap32(sext(le16(mem@, addr as int), 16)),
{
    let b0 = mem[addr as usize];
    let b1 = mem[addr as usize + 1];
    let val = (b0 as u16) | ((b1 as u16) << 8);
    proof {
        lemma2_to64();
        lemma_le_pack(b0, b1, 0, 0, 0, 0, 0, 0);
        lemma_sign_widen(0, val, 0);
    }
    (val as i16 as i32) as u32
}

/// Loads the word at `addr` (little-endian).
pub fn load_w(mem: &[u8], addr: u32) -> (r: u32)
    requires
        addr as int + 3 < mem@.len(),
    ensures
        r == le32(mem@, addr as int),
{
    let b0 = mem[addr as usize];
    let b1 = mem[addr as usize + 1];
    let b2 = mem[addr as usize + 2];
    let b3 = mem[addr as usize + 3];
    let val = (b0 as u32) | ((b1 as u32) << 8) | ((b2 as u32) << 16) | ((b3 as u32) << 24);
    proof {
        lemma_le_pack(b0, b1, b2, b3, 0, 0, 0, 0);
        lemma_sign_widen(0, 0, val);
    }
    val as i32 as u32
}

/// Loads the byte at `addr`, zero-extended.
pub fn load_ubyte(mem: &[u8], addr: u32) -> (r: u32)
    requires
        addr < mem@.len(),
    ensures
        r == mem@[addr as int],
{
    mem[addr as usize] as u32
}

/// Loads the halfword at `addr` (little-endian), zero-extended.
pub fn load_uh(mem: &[u8], addr: u32) -> (r: u32)
    requires
        addr as int + 1 < mem@.len(),
    ensures
        r == le16(mem@, addr as int),
{
    let b0 = mem[addr as usize];
    let b1 = mem[addr as usize + 1];
    let val = (b0 as u16) | ((b1 as u16) << 8);
    proof {
        lemma_le_pack(b0, b1, 0, 0, 0, 0, 0, 0);
    }
    val as u32
}

// STORING INTO MEMORY

/// Stores the low byte of `val` at `addr`.
pub fn store_byte(mem: &mut [u8], addr: u32, val: u32)
    requires
        addr < old(mem)@.len(),
    ensures
        final(mem)@ == store8(old(mem)@, addr as int, val as int),
{
    proof {
        lemma_le_split(0, val, 0);
    }
    mem[addr as usize] = val as u8;
}

/// Stores the low halfword of `val` at `addr`, little-endian.
pub fn store_h(mem: &mut [u8], addr: u32, val: u32)
    requires
        addr as int + 1 < old(mem)@.len(),
    ensures
        final(mem)@ == store16(old(mem)@, addr as int, val as int),
{
    proof {
        lemma_le_split(0, val, 0);
    }
    mem[addr as usize] = val as u8;
    mem[addr as usize + 1] = (val >> 8u32) as u8;
}

/// Stores `val` at `addr`, little-endian.
pub fn store_w(mem: &mut [u8], addr: u32, val: u32)
    requires
        addr as int + 3 < old(mem)@.len(),
    ensures
        final(mem)@ == store32(old(mem)@, addr as int, val as int),
{
    proof {
        lemma_le_split(0, val, 0);
    }
    mem[addr as usize] = val as u8;
    mem[addr as usize + 1] = (val >> 8u32) as u8;
    mem[addr as usize + 2] = (val >> 16u32) as u8;
    mem[addr as usize + 3] = (val >> 24u32) as u8;
}

// Returning RAM Vec

/// A zero-filled memory of `RAM_SIZE` bytes.
pub fn init_ram() -> (ram: Vec<u8>)
    ensures
        ram@.len() == RAM_SIZE,
        forall|i: int| 0 <= i < RAM_SIZE ==> ram@[i] == 0,
{
    vec![0u8; RAM_SIZE]
}

// ---------------------------------------------------------------------------
// What a load gives back of a store
// ---------------------------------------------------------------------------

/// A word stored at `addr` reads back unchanged from `addr`; the length of memory and every
/// byte outside `addr..addr + 4` are unchanged.
pub proof fn lemma_store_load_word(mem: Seq<u8>, addr: int, v: int)
    requires
        0 <= addr,
        addr + 3 < mem.len(),
        0 <= v < 0x1_0000_0000,
    ensures
        le32(store32(mem, addr, v), addr) == v,
        store32(mem, addr, v).len() == mem.len(),
        forall|j: int|
            0 <= j < mem.len() && !(addr <= j < addr + 4) ==> #[trigger] store32(mem, addr, v)[j]
                == mem[j],
{
}

/// A halfword stored at `addr` reads back as the low 16 bits of the stored value (and
/// sign-extended through the signed halfword load); the length of memory and every byte
/// outside `addr..addr + 2` are unchanged.
pub proof fn lemma_store_load_half(mem: Seq<u8>, addr: int, v: int)
    requires
        0 <= addr,
        addr + 1 < mem.len(),
        0 <= v,
    ensures
        le16(store16(mem, addr, v), addr) == v % 0x1_0000,
        store16(mem, addr, v).len() == mem.len(),
        forall|j: int|
            0 <= j < mem.len() && !(addr <= j < addr + 2) ==> #[trigger] store16(mem, addr, v)[j]
                == mem[j],
{
}

/// A byte stored at `addr` reads back as the low 8 bits of the stored value; the length of
/// memory and every other byte are unchanged.
pub proof fn lemma_store_load_byte(mem: Seq<u8>, addr: int, v: int)
    requires
        0 <= addr < mem.len(),
        0 <= v,
    ensures
        store8(mem, addr, v)[addr] == v % 0x100,
        store8(mem, addr, v).len() == mem.len(),
        forall|j: int|
            0 <= j < mem.len() && j != addr ==> #[trigger] store8(mem, addr, v)[j] == mem[j],
{
}

} // verus!
