//! Field extraction and immediate decoding for 32-bit RISC-V instruction words.
use vstd::prelude::*;
use vstd::arithmetic::power2::{pow2, lemma2_to64, lemma_pow2_unfold};
use vstd::bits::{lemma_u32_shl_is_mul, lemma_u32_pow2_no_overflow};

verus! {

// ---------------------------------------------------------------------------
// Integer models
// ---------------------------------------------------------------------------

/// `v` reduced to an unsigned 32-bit value.
pub open spec fn wrap32(v: int) -> int {
    v % 0x1_0000_0000
}

/// `v` reduced to an unsigned 64-bit value.
pub open spec fn wrap64(v: int) -> int {
    v % 0x1_0000_0000_0000_0000
}

/// The two's-complement value of the low 32 bits of `v`.
pub open spec fn signed32(v: int) -> int {
    if wrap32(v) >= 0x8000_0000 {
        wrap32(v) - 0x1_0000_0000
    } else {
        wrap32(v)
    }
}

/// The two's-complement value of the low 64 bits of `v`.
pub open spec fn signed64(v: int) -> int {
    if wrap64(v) >= 0x8000_0000_0000_0000 {
        wrap64(v) - 0x1_0000_0000_0000_0000
    } else {
        wrap64(v)
    }
}

/// The two's-complement value of a `bits`-wide field `v` (with `0 <= v < 2^bits`).
pub open spec fn sext(v: int, bits: nat) -> int {
    if v >= pow2((bits - 1) as nat) {
        v - pow2(bits)
    } else {
        v
    }
}

/// Whether bit `n` of `v` is set.
pub open spec fn bit(v: int, n: nat) -> bool {
    (v / (pow2(n) as int)) % 2 == 1
}

// ---------------------------------------------------------------------------
// Instruction fields
// ---------------------------------------------------------------------------

/// Bits 6..0.
pub open spec fn opcode(i: u32) -> int {
    i as int % 128
}

/// Bits 11..7.
pub open spec fn rd(i: u32) -> int {
    (i as int / 128) % 32
}

/// Bits 14..12.
pub open spec fn funct3(i: u32) -> int {
    (i as int / 0x1000) % 8
}

/// Bits 19..15.
pub open spec fn rs1(i: u32) -> int {
    (i as int / 0x8000) % 32
}

/// Bits 24..20.
pub open spec fn rs2(i: u32) -> int {
    (i as int / 0x10_0000) % 32
}

/// Bits 31..25.
pub open spec fn funct7(i: u32) -> int {
    i as int / 0x200_0000
}

/// I-type immediate: bits 31..20, sign-extended.
pub open spec fn imm_i(i: u32) -> int {
    sext(i as int / 0x10_0000, 12)
}

/// S-type immediate: bits 31..25 and 11..7, sign-extended.
pub open spec fn imm_s(i: u32) -> int {
    sext(funct7(i) * 32 + rd(i), 12)
}

/// B-type immediate: imm[12|10:5] in bits 31..25, imm[4:1|11] in bits 11..7, sign-extended.
pub open spec fn imm_b(i: u32) -> int {
    sext(
        (i as int / 0x8000_0000) * 0x1000 + ((i as int / 128) % 2) * 0x800 + ((i as int / 0x200_0000) % 64) * 32 + ((
        i as int / 256) % 16) * 2,
        13,
    )
}

/// J-type immediate: imm[20|10:1|11|19:12] in bits 31..12, sign-extended.
pub open spec fn imm_j(i: u32) -> int {
    sext(
        (i as int / 0x8000_0000) * 0x10_0000 + ((i as int / 0x1000) % 256) * 0x1000 + ((i as int / 0x10_0000) % 2)
            * 0x800 + ((i as int / 0x20_0000) % 1024) * 2,
        21,
    )
}

/// U-type immediate: bits 31..12 in place, low 12 bits zero.
pub open spec fn imm_u(i: u32) -> int {
    (i as int / 0x1000) * 0x1000
}

// ---------------------------------------------------------------------------
// Executable decoding
// ---------------------------------------------------------------------------

/// Interprets the low `bits` bits of `value` as a two's-complement number.
/// Bits of `value` above the field are not cleared first: the result is `value` minus
/// `2^bits` when bit `bits - 1` is set, read as a 32-bit signed number.
pub fn sign_extend(value: u32, bits: u32) -> (r: i32)
    requires
        1 <= bits <= 32,
    ensures
        r == signed32(value - (if bit(value as int, (bits - 1) as nat) { pow2(bits as nat) as int } else { 0 })),
        value < pow2(bits as nat) ==> r == sext(value as int, bits as nat),
{
    let mask = 1u32 << (bits - 1);
    let t = (value ^ mask).wrapping_sub(mask);
    let r = t as i32;
    proof {
        let k: u32 = (bits - 1) as u32;
        lemma_u32_pow2_no_overflow(k as nat);
        lemma_u32_shl_is_mul(1, k);
        assert(mask == pow2(k as nat));
        lemma_pow2_unfold(bits as nat);
        assert(pow2(bits as nat) == 2 * mask);
        assert((value & mask != 0) == ((value / mask) % 2 == 1)) by (bit_vector)
            requires
                mask == 1u32 << k,
                k < 32,
        ;
        let x = value ^ mask;
        assert(t == if x - mask < 0 { x - mask + 0x1_0000_0000 } else { x - mask });
        assert(r == (if (value - (if value & mask != 0 { 2 * mask } else { 0 })) % 0x1_0000_0000
            >= 0x8000_0000 {
            (value - (if value & mask != 0 { 2 * mask } else { 0 })) % 0x1_0000_0000 - 0x1_0000_0000
        } else {
            (value - (if value & mask != 0 { 2 * mask } else { 0 })) % 0x1_0000_0000
        })) by (bit_vector)
            requires
                mask == 1u32 << k,
                k < 32,
                x == value ^ mask,
                t == (if x - mask < 0 { x - mask + 0x1_0000_0000 } else { x - mask }),
                r == t as i32,
        ;
        if value < pow2(bits as nat) {
            assert(pow2(bits as nat) <= 0x1_0000_0000) by {
                lemma2_to64();
                if bits < 32 {
                    vstd::arithmetic::power2::lemma_pow2_strictly_increases(bits as nat, 32);
                }
            }
            assert((value / mask) % 2 == 1 <==> value >= mask) by (nonlinear_arith)
                requires
                    0 <= value < 2 * mask,
                    mask > 0,
            ;
        }
    }
    r
}

/// The bit-level extraction of every field equals its arithmetic description.
proof fn lemma_decode_bits(i: u32)
    ensures
        (i & 0x7F) == i % 128,
        ((i >> 7) & 0x1F) == (i / 128) % 32,
        ((i >> 12) & 0x7) == (i / 0x1000) % 8,
        ((i >> 15) & 0x1F) == (i / 0x8000) % 32,
        ((i >> 20) & 0x1F) == (i / 0x10_0000) % 32,
        ((i >> 25) & 0x7F) == i / 0x200_0000,
        ((i >> 20) & 0xFFF) == i / 0x10_0000,
        ((i >> 20) & 0xFFF) < 0x1000,
        ((((i >> 25) & 0x7F) << 5) | ((i >> 7) & 0x1F)) == (i / 0x200_0000) * 32 + (i / 128) % 32,
        ((((i >> 25) & 0x7F) << 5) | ((i >> 7) & 0x1F)) < 0x1000,
        ((((i >> 31) & 0x1) << 12) | (((i >> 7) & 0x1) << 11) | (((i >> 25) & 0x3F) << 5) | (((i
            >> 8) & 0xF) << 1)) == (i / 0x8000_0000) * 0x1000 + ((i / 128) % 2) * 0x800 + ((i
            / 0x200_0000) % 64) * 32 + ((i / 256) % 16) * 2,
        ((((i >> 31) & 0x1) << 12) | (((i >> 7) & 0x1) << 11) | (((i >> 25) & 0x3F) << 5) | (((i
            >> 8) & 0xF) << 1)) < 0x2000,
        ((((i >> 21) & 0x3FF) << 1) | (((i >> 20) & 1) << 11) | (((i >> 12) & 0xFF) << 12) | (((i
            >> 31) & 1) << 20)) == (i / 0x8000_0000) * 0x10_0000 + ((i / 0x1000) % 256) * 0x1000 + ((
        i / 0x10_0000) % 2) * 0x800 + ((i / 0x20_0000) % 1024) * 2,
        ((((i >> 21) & 0x3FF) << 1) | (((i >> 20) & 1) << 11) | (((i >> 12) & 0xFF) << 12) | (((i
            >> 31) & 1) << 20)) < 0x20_0000,
        ((i >> 12) << 12) == (i / 0x1000) * 0x1000,
{
    assert({
        &&& (i & 0x7F) == i % 128
        &&& ((i >> 7) & 0x1F) == (i / 128) % 32
        &&& ((i >> 12) & 0x7) == (i / 0x1000) % 8
        &&& ((i >> 15) & 0x1F) == (i / 0x8000) % 32
        &&& ((i >> 20) & 0x1F) == (i / 0x10_0000) % 32
        &&& ((i >> 25) & 0x7F) == i / 0x200_0000
        &&& ((i >> 20) & 0xFFF) == i / 0x10_0000
        &&& ((i >> 20) & 0xFFF) < 0x1000
        &&& ((((i >> 25) & 0x7F) << 5) | ((i >> 7) & 0x1F)) == (i / 0x200_0000) * 32 + (i / 128)
            % 32
        &&& ((((i >> 25) & 0x7F) << 5) | ((i >> 7) & 0x1F)) < 0x1000
        &&& ((((i >> 31) & 0x1) << 12) | (((i >> 7) & 0x1) << 11) | (((i >> 25) & 0x3F) << 5) | (((
        i >> 8) & 0xF) << 1)) == (i / 0x8000_0000) * 0x1000 + ((i / 128) % 2) * 0x800 + ((i
            / 0x200_0000) % 64) * 32 + ((i / 256) % 16) * 2
        &&& ((((i >> 31) & 0x1) << 12) | (((i >> 7) & 0x1) << 11) | (((i >> 25) & 0x3F) << 5) | (((
        i >> 8) & 0xF) << 1)) < 0x2000
        &&& ((((i >> 21) & 0x3FF) << 1) | (((i >> 20) & 1) << 11) | (((i >> 12) & 0xFF) << 12) | (((
        i >> 31) & 1) << 20)) == (i / 0x8000_0000) * 0x10_0000 + ((i / 0x1000) % 256) * 0x1000 + ((
        i / 0x10_0000) % 2) * 0x800 + ((i / 0x20_0000) % 1024) * 2
        &&& ((((i >> 21) & 0x3FF) << 1) | (((i >> 20) & 1) << 11) | (((i >> 12) & 0xFF) << 12) | (((
        i >> 31) & 1) << 20)) < 0x20_0000
        &&& ((i >> 12) << 12) == (i / 0x1000) * 0x1000
    }) by (bit_vector);
}

/// Bits 6..0 of `instruction`.
pub fn opcode_of(instruction: u32) -> (r: u8)
    ensures
        r == opcode(instruction),
{
    proof {
        lemma_decode_bits(instruction);
    }
    (instruction & 0x7F) as u8
}

/// Bits 11..7 of `instruction`: the destination register.
pub fn rd_of(instruction: u32) -> (r: usize)
    ensures
        r == rd(instruction),
        r < 32,
{
    proof {
        lemma_decode_bits(instruction);
    }
    ((instruction >> 7) & 0x1F) as usize
}

/// Bits 14..12 of `instruction`.
pub fn funct3_of(instruction: u32) -> (r: u8)
    ensures
        r == funct3(instruction),
        r < 8,
{
    proof {
        lemma_decode_bits(instruction);
    }
    ((instruction >> 12) & 0x7) as u8
}

/// Bits 19..15 of `instruction`: the first source register.
pub fn rs1_of(instruction: u32) -> (r: usize)
    ensures
        r == rs1(instruction),
        r < 32,
{
    proof {
        lemma_decode_bits(instruction);
    }
    ((instruction >> 15) & 0x1F) as usize
}

/// Bits 24..20 of `instruction`: the second source register.
pub fn rs2_of(instruction: u32) -> (r: usize)
    ensures
        r == rs2(instruction),
        r < 32,
{
    proof {
        lemma_decode_bits(instruction);
    }
    ((instruction >> 20) & 0x1F) as usize
}

/// Bits 31..25 of `instruction`.
pub fn funct7_of(instruction: u32) -> (r: u8)
    ensures
        r == funct7(instruction),
        r < 128,
{
    proof {
        lemma_decode_bits(instruction);
    }
    ((instruction >> 25) & 0x7F) as u8
}

/// The sign-extended I-type immediate.
pub fn imm_i_of(instruction: u32) -> (r: i32)
    ensures
        r == imm_i(instruction),
        -2048 <= r < 2048,
{
    proof {
        lemma2_to64();
        lemma_decode_bits(instruction);
    }
    sign_extend((instruction >> 20) & 0xFFF, 12)
}

/// The sign-extended S-type immediate.
pub fn imm_s_of(instruction: u32) -> (r: i32)
    ensures
        r == imm_s(instruction),
        -2048 <= r < 2048,
{
    let imm4_0 = (instruction >> 7) & 0x1F;
    let imm11_5 = (instruction >> 25) & 0x7F;
    proof {
        lemma2_to64();
        lemma_decode_bits(instruction);
    }
    sign_extend((imm11_5 << 5) | imm4_0, 12)
}

/// The sign-extended B-type immediate (a multiple of two).
pub fn imm_b_of(instruction: u32) -> (r: i32)
    ensures
        r == imm_b(instruction),
        -4096 <= r < 4096,
{
    let imm12 = (instruction >> 31) & 0x1;
    let imm10_5 = (instruction >> 25) & 0x3F;
    let imm11 = (instruction >> 7) & 0x1;
    let imm4_1 = (instruction >> 8) & 0xF;
    proof {
        lemma2_to64();
        lemma_decode_bits(instruction);
    }
    sign_extend((imm12 << 12) | (imm11 << 11) | (imm10_5 << 5) | (imm4_1 << 1), 13)
}

/// The sign-extended J-type immediate (a multiple of two).
pub fn imm_j_of(instruction: u32) -> (r: i32)
    ensures
        r == imm_j(instruction),
        -0x10_0000 <= r < 0x10_0000,
{
    let imm19_12 = (instruction >> 12) & 0xFF;
    let imm11 = (instruction >> 20) & 1;
    let imm10_1 = (instruction >> 21) & 0x3FF;
    let sign = (instruction >> 31) & 1;
    proof {
        lemma2_to64();
        lemma_decode_bits(instruction);
    }
    sign_extend((imm10_1 << 1) | (imm11 << 11) | (imm19_12 << 12) | (sign << 20), 21)
}

/// The U-type immediate, zero-extended to 64 bits.
pub fn imm_u_of(instruction: u32) -> (r: u64)
    ensures
        r == imm_u(instruction),
{
    let imm = instruction >> 12;
    proof {
        lemma_decode_bits(instruction);
    }
    (imm << 12) as u64
}

/// The immediates every format decodes lie in their ranges and take the sign of bit 31 of
/// the instruction: I and S immediates are 12-bit, B immediates 13-bit and even, J
/// immediates 21-bit and even; the U immediate is the instruction with its low 12 bits
/// cleared.
pub proof fn lemma_immediate_ranges(i: u32)
    ensures
        -2048 <= imm_i(i) < 2048,
        -2048 <= imm_s(i) < 2048,
        -4096 <= imm_b(i) < 4096 && imm_b(i) % 2 == 0,
        -0x10_0000 <= imm_j(i) < 0x10_0000 && imm_j(i) % 2 == 0,
        (imm_i(i) < 0) == (i >= 0x8000_0000),
        (imm_s(i) < 0) == (i >= 0x8000_0000),
        (imm_b(i) < 0) == (i >= 0x8000_0000),
        (imm_j(i) < 0) == (i >= 0x8000_0000),
        imm_u(i) == i - i % 0x1000,
        imm_i(i) % 32 == (i as int / 0x10_0000) % 32,
{
    lemma2_to64();
    let x = i as int;
    assert(0 <= x / 0x8000_0000 <= 1);
    assert((x / 0x8000_0000 == 1) == (x >= 0x8000_0000));
    let fi = x / 0x10_0000;
    assert(0 <= fi < 0x1000);
    assert((fi >= 0x800) == (x >= 0x8000_0000));
    let fs = funct7(i) * 32 + rd(i);
    assert(0 <= funct7(i) < 128);
    assert((funct7(i) >= 64) == (x >= 0x8000_0000));
    assert(0 <= fs < 0x1000 && (fs >= 0x800) == (x >= 0x8000_0000));
    let fb = (x / 0x8000_0000) * 0x1000 + ((x / 128) % 2) * 0x800 + ((x / 0x200_0000) % 64) * 32
        + ((x / 256) % 16) * 2;
    assert(0 <= fb < 0x2000 && fb % 2 == 0 && (fb >= 0x1000) == (x >= 0x8000_0000));
    let fj = (x / 0x8000_0000) * 0x10_0000 + ((x / 0x1000) % 256) * 0x1000 + ((x / 0x10_0000) % 2)
        * 0x800 + ((x / 0x20_0000) % 1024) * 2;
    assert(0 <= fj < 0x20_0000 && fj % 2 == 0 && (fj >= 0x10_0000) == (x >= 0x8000_0000));
    vstd::arithmetic::div_mod::lemma_fundamental_div_mod(x, 0x1000);
    if fi >= 0x800 {
        vstd::arithmetic::div_mod::lemma_mod_multiples_vanish(-1, fi, 32);
        assert(fi - 4096 == -128 * 32 + fi);
    }
}

} // verus!
