//! The meaning of each implemented operation on register values, and the
//! executable operations that compute it.
use vstd::prelude::*;
use vstd::arithmetic::power2::{pow2, lemma2_to64};
use vstd::math::abs;
use vstd::bits::{
    lemma_u64_shr_is_div, lemma_u32_shr_is_div, lemma_u64_shl_is_mul,
    lemma_u64_mul_pow2_le_max_iff_max_shr, lemma_u64_pow2_no_overflow,
};
use vstd::arithmetic::power2::{lemma_pow2_adds, lemma_pow2_pos, lemma2_to64_rest};
use vstd::arithmetic::div_mod::{
    lemma_fundamental_div_mod_converse_div, lemma_mod_multiples_vanish, lemma_small_mod,
};
use super::decode::{wrap32, wrap64, signed32, signed64, sext};

verus! {

// ---------------------------------------------------------------------------
// Casts between fixed-width integers, in terms of the integer models
// ---------------------------------------------------------------------------

/// Casts of a 64-bit register value, in terms of the integer models.
pub(crate) proof fn lemma_u64_casts(x: u64)
    ensures
        (x as i64) as int == signed64(x as int),
        (x as i32) as int == signed32(x as int),
        (x as u32) as int == wrap32(x as int),
        (x as u16) as int == x % 0x1_0000,
        (x as u8) as int == x % 0x100,
        (x & 0x1F) == x % 32,
        (x & 0x1F) < 32,
        (x >> 32u64) < 0x1_0000_0000,
{
    assert({
        &&& (x as i64) == (if x >= 0x8000_0000_0000_0000u64 {
            x - 0x1_0000_0000_0000_0000
        } else {
            x as int
        })
        &&& (x as i32) == (if x % 0x1_0000_0000 >= 0x8000_0000 {
            x % 0x1_0000_0000 - 0x1_0000_0000
        } else {
            (x % 0x1_0000_0000) as int
        })
        &&& (x as u32) == x % 0x1_0000_0000
        &&& (x as u16) == x % 0x1_0000
        &&& (x as u8) == x % 0x100
        &&& (x & 0x1F) == x % 32
        &&& (x & 0x1F) < 32
        &&& (x >> 32u64) < 0x1_0000_0000
    }) by (bit_vector);
}

/// Casts of a signed 64-bit value, in terms of the integer models.
pub(crate) proof fn lemma_i64_casts(x: i64)
    ensures
        (x as u64) as int == wrap64(x as int),
        (x as u32) as int == wrap32(x as int),
{
    assert((x as u64) == (if x < 0 { x + 0x1_0000_0000_0000_0000 } else { x as int }) && (x as u32)
        == x % 0x1_0000_0000) by (bit_vector);
}

/// Casts of a signed 32-bit value, in terms of the integer models.
pub(crate) proof fn lemma_i32_casts(x: i32)
    ensures
        (x as u64) as int == wrap64(x as int),
        -2048 <= x < 2048 ==> (x & 0x1F) as u32 as int == x as int % 32,
        -2048 <= x < 2048 ==> ((x >> 5u32) & 0x7F) as int == (x as int / 32) % 128,
{
    assert((x as u64) == (if x < 0 { x + 0x1_0000_0000_0000_0000 } else { x as int }) && (x & 0x1F)
        as u32 == (if x < 0 { (x + 0x1_0000_0000) % 32 } else { (x % 32) as int }) && (-2048 <= x
        < 2048 ==> ((x >> 5u32) & 0x7F) == (if x < 0 { (x + 4096) / 32 } else { (x / 32) as int })))
        by (bit_vector);
    lemma_mod_multiples_vanish(0x800_0000, x as int, 32);
}

/// Casts of a 32-bit value, in terms of the integer models.
pub(crate) proof fn lemma_u32_casts(x: u32)
    ensures
        (x as i32) as int == signed32(x as int),
        (x as i32 as i64 as u64) as int == wrap64(signed32(x as int)),
{
    assert((x as i32) == (if x >= 0x8000_0000u32 { x - 0x1_0000_0000 } else { x as int }) && (x as i32
        as i64 as u64) == (if x >= 0x8000_0000u32 { x + 0xFFFF_FFFF_0000_0000u64 } else { x as int }))
        by (bit_vector);
}

// ---------------------------------------------------------------------------
// Shifts
// ---------------------------------------------------------------------------

/// A logical left shift of a 64-bit value by `s < 64` multiplies by `2^s` modulo `2^64`.
pub(crate) proof fn lemma_u64_shl_wraps(a: u64, s: u64)
    requires
        s < 64,
    ensures
        (a << s) as int == wrap64(a * pow2(s as nat)),
{
    lemma2_to64();
    if s == 0 {
        assert(a << 0u64 == a) by (bit_vector);
    } else {
        let lo: u64 = a & (0xFFFF_FFFF_FFFF_FFFFu64 >> s);
        let t: u64 = (64 - s) as u64;
        let hi: u64 = a >> t;
        assert(a << s == lo << s && lo <= (0xFFFF_FFFF_FFFF_FFFFu64 >> s) && a == lo + (hi << t)
            && hi <= (0xFFFF_FFFF_FFFF_FFFFu64 >> t)) by (bit_vector)
            requires
                0 < s < 64,
                t == 64 - s,
                lo == a & (0xFFFF_FFFF_FFFF_FFFFu64 >> s),
                hi == a >> t,
        ;
        lemma_u64_mul_pow2_le_max_iff_max_shr(lo, s, 0xFFFF_FFFF_FFFF_FFFFu64);
        lemma_u64_shl_is_mul(lo, s);
        lemma_u64_mul_pow2_le_max_iff_max_shr(hi, t, 0xFFFF_FFFF_FFFF_FFFFu64);
        lemma_u64_shl_is_mul(hi, t);
        lemma_pow2_adds(t as nat, s as nat);
        lemma_pow2_pos(s as nat);
        let ps = pow2(s as nat) as int;
        let pt = pow2(t as nat) as int;
        assert(pt * ps == 0x1_0000_0000_0000_0000);
        assert(a * ps == lo * ps + hi * 0x1_0000_0000_0000_0000) by (nonlinear_arith)
            requires
                a == lo + hi * pt,
                pt * ps == 0x1_0000_0000_0000_0000,
        ;
        lemma_mod_multiples_vanish(hi as int, lo * ps, 0x1_0000_0000_0000_0000);
        assert(0 <= lo * ps < 0x1_0000_0000_0000_0000) by (nonlinear_arith)
            requires
                0 <= lo,
                0 < ps,
                lo * ps <= 0xFFFF_FFFF_FFFF_FFFFu64,
        ;
        lemma_small_mod((lo * ps) as nat, 0x1_0000_0000_0000_0000);
        assert(hi * 0x1_0000_0000_0000_0000 + lo * ps == 0x1_0000_0000_0000_0000 * hi + lo * ps)
            by (nonlinear_arith);
    }
}

/// An arithmetic right shift of a 32-bit value by `s < 32` divides by `2^s`, rounding down.
pub(crate) proof fn lemma_i32_shr_floors(x: i32, s: u32)
    requires
        s < 32,
    ensures
        (x >> s) as int == x as int / (pow2(s as nat) as int),
{
    assert((x >> s) * (1u64 << s) <= x < ((x >> s) + 1) * (1u64 << s) && (1u64 << s) == (1u64 << (
    s as u64))) by (bit_vector)
        requires
            s < 32,
    ;
    lemma_u64_pow2_no_overflow(s as nat);
    lemma_u64_shl_is_mul(1, s as u64);
    let d = pow2(s as nat) as int;
    let q = (x >> s) as int;
    assert((q + 1) * d == q * d + d) by (nonlinear_arith);
    lemma_fundamental_div_mod_converse_div(x as int, d, q, x - q * d);
}

/// An arithmetic right shift of a 64-bit value by 32 divides by `2^32`, rounding down.
pub(crate) proof fn lemma_i64_shr32_floors(x: i64)
    ensures
        (x >> 32u64) as int == x as int / 0x1_0000_0000,
        -0x8000_0000 <= (x >> 32u64) < 0x8000_0000,
{
    assert((x >> 32u64) * 0x1_0000_0000 <= x < ((x >> 32u64) + 1) * 0x1_0000_0000 && -0x8000_0000
        <= (x >> 32u64) < 0x8000_0000) by (bit_vector);
    let q = (x >> 32u64) as int;
    lemma_fundamental_div_mod_converse_div(x as int, 0x1_0000_0000, q, x - q * 0x1_0000_0000);
}

// ---------------------------------------------------------------------------
// Register-register operations (OP opcode): base integer and M extension
// ---------------------------------------------------------------------------

/// Quotient of `x / y` rounded toward zero.
pub open spec fn div_trunc(x: int, y: int) -> int {
    let q: int = (abs(x) / abs(y)) as int;
    if (x < 0) == (y < 0) {
        q
    } else {
        -q
    }
}

/// Remainder of `x / y` rounded toward zero: it takes the sign of `x`.
pub open spec fn rem_trunc(x: int, y: int) -> int {
    let r: int = (abs(x) % abs(y)) as int;
    if x < 0 {
        -r
    } else {
        r
    }
}

/// The upper 32 bits of the low 64 bits of the product `a * b`.
pub open spec fn mul_upper(a: int, b: int) -> int {
    wrap64(a * b) / 0x1_0000_0000
}

/// Whether an OP-opcode funct code is implemented: funct7 0 selects the base operations
/// (every funct3), funct7 0x20 their alternates SUB (funct3 0) and SRA (funct3 5), and
/// funct7 1 the M extension (every funct3). Every other combination is refused.
pub open spec fn op_defined(f3: int, f7: int) -> bool {
    if f7 == 0 || f7 == 1 {
        true
    } else if f7 == 0x20 {
        f3 == 0 || f3 == 5
    } else {
        false
    }
}

/// The signed 32-bit division `x / y` as RV32M defines it: rounded toward zero, all ones
/// (-1) for a zero divisor, and the dividend for the overflowing `i32::MIN / -1`.
pub open spec fn div32(x: int, y: int) -> int {
    if y == 0 {
        -1
    } else if x == -0x8000_0000 && y == -1 {
        x
    } else {
        div_trunc(x, y)
    }
}

/// The signed 32-bit remainder of `x / y` as RV32M defines it: it takes the sign of `x`,
/// is the dividend for a zero divisor, and 0 for the overflowing `i32::MIN % -1`.
pub open spec fn rem32(x: int, y: int) -> int {
    if y == 0 {
        x
    } else if x == -0x8000_0000 && y == -1 {
        0
    } else {
        rem_trunc(x, y)
    }
}

/// The value an OP-opcode operation writes to its destination register.
///
/// Base group (funct7 0 or 0x20): ADD/SUB, SLL, SLT, SLTU, XOR, SRL/SRA, OR, AND; the
/// shift amount is the low 5 bits of `b`; SRL and SRA shift the low 32 bits of `a`
/// (SRA sign-extends the result to 64 bits); SLT compares the low 32 bits as signed.
/// M group (funct7 1): MUL, MULH, MULHSU, MULHU, DIV, DIVU, REM, REMU; MULH gives bits
/// 63..32 of the 64-bit product sign-extended, MULHU zero-extended; MULHSU gives the upper
/// word of the low 32 bits of `a` read as signed times those of `b` read as unsigned,
/// sign-extended (it alone reads its operands as 32-bit values: MUL, MULH and MULHU, like
/// the other 64-bit register operations, use all 64 bits of `a` and `b`); DIV and REM work
/// on the low 32 bits as signed numbers (`div32`, `rem32`); DIVU and REMU use all 64 bits,
/// and DIVU by zero gives all ones, REMU by zero the dividend.
pub open spec fn op_result(f3: int, f7: int, a: u64, b: u64) -> int {
    let sh = (b % 32) as nat;
    if f7 == 1 {
        if f3 == 0 {
            wrap64(a * b)
        } else if f3 == 1 {
            wrap64(signed32(mul_upper(a as int, b as int)))
        } else if f3 == 2 {
            wrap64((signed32(a as int) * wrap32(b as int)) / 0x1_0000_0000)
        } else if f3 == 3 {
            mul_upper(a as int, b as int)
        } else if f3 == 4 {
            wrap64(div32(signed32(a as int), signed32(b as int)))
        } else if f3 == 5 {
            if b == 0 {
                u64::MAX as int
            } else {
                (a / b) as int
            }
        } else if f3 == 6 {
            wrap64(rem32(signed32(a as int), signed32(b as int)))
        } else {
            if b == 0 {
                a as int
            } else {
                (a % b) as int
            }
        }
    } else {
        if f3 == 0 {
            if f7 == 0x20 {
                wrap64(a - b)
            } else {
                wrap64(a + b)
            }
        } else if f3 == 1 {
            wrap64(a * pow2(sh))
        } else if f3 == 2 {
            if signed32(a as int) < signed32(b as int) {
                1
            } else {
                0
            }
        } else if f3 == 3 {
            if a < b {
                1
            } else {
                0
            }
        } else if f3 == 4 {
            (a ^ b) as int
        } else if f3 == 5 {
            if f7 == 0x20 {
                wrap64(signed32(a as int) / (pow2(sh) as int))
            } else {
                wrap32(a as int) / (pow2(sh) as int)
            }
        } else if f3 == 6 {
            (a | b) as int
        } else {
            (a & b) as int
        }
    }
}

/// The product of two register values read as signed 64-bit numbers, cropped to `i64`, is
/// the low 64 bits of their unsigned product read as signed.
proof fn lemma_signed_product(a: u64, b: u64)
    ensures
        vstd::wrapping::i64_specs::signed_crop(signed64(a as int) * signed64(b as int)) as int
            == signed64(wrap64(a * b)),
{
    let m: int = 0x1_0000_0000_0000_0000;
    let sa = signed64(a as int);
    let sb = signed64(b as int);
    assert(sa == a || sa == a - m);
    assert(sb == b || sb == b - m);
    assert((sa * sb) % m == (a * b) % m) by (nonlinear_arith)
        requires
            sa == a || sa == a - m,
            sb == b || sb == b - m,
            m == 0x1_0000_0000_0000_0000,
    {
        vstd::arithmetic::div_mod::lemma_mul_mod_noop_general(sa, sb, m);
        vstd::arithmetic::div_mod::lemma_mul_mod_noop_general(a as int, b as int, m);
        lemma_mod_multiples_vanish(-1, a as int, m);
        lemma_mod_multiples_vanish(-1, b as int, m);
        assert(sa % m == (a as int) % m);
        assert(sb % m == (b as int) % m);
    }
}

/// The high word of a 64-bit product, read as signed, equals the rounded-down quotient of
/// the signed product by `2^32`.
proof fn lemma_mul_upper_signed(a: int, b: int, p: int)
    requires
        p == signed64(wrap64(a * b)),
    ensures
        p / 0x1_0000_0000 == signed32(mul_upper(a, b)),
{
    let w = wrap64(a * b);
    let m: int = 0x1_0000_0000;
    assert(0 <= w < 0x1_0000_0000_0000_0000);
    assert(0 <= w / m < m) by (nonlinear_arith)
        requires
            0 <= w < 0x1_0000_0000_0000_0000,
            m == 0x1_0000_0000,
    ;
    if w >= 0x8000_0000_0000_0000 {
        assert(w / m >= 0x8000_0000) by (nonlinear_arith)
            requires
                w >= 0x8000_0000_0000_0000,
                m == 0x1_0000_0000,
        ;
        vstd::arithmetic::div_mod::lemma_fundamental_div_mod(w, m);
        let q = w / m;
        let r = w % m;
        assert(w - m * m == (q - m) * m + r) by (nonlinear_arith)
            requires
                w == m * q + r,
        ;
        lemma_fundamental_div_mod_converse_div(w - m * m, m, q - m, r);
        assert(w - 0x1_0000_0000_0000_0000 == w - m * m);
    } else {
        assert(w / m < 0x8000_0000) by (nonlinear_arith)
            requires
                0 <= w < 0x8000_0000_0000_0000,
                m == 0x1_0000_0000,
        ;
    }
}

/// Euclidean division by a negative divisor, in terms of its absolute value.
proof fn lemma_neg_divisor(x: int, y: int)
    requires
        y < 0,
    ensures
        x / y == -(x / (-y)),
        x % y == x % (-y),
{
    assert(x / y == -(x / (-y)) && x % y == x % (-y)) by (nonlinear_arith)
        requires
            y < 0,
    ;
}

/// Bounds on the magnitudes involved in a non-overflowing signed 32-bit division.
proof fn lemma_quot_bounds(x: i32, y: i32)
    requires
        y != 0,
        !(x == i32::MIN && y == -1),
    ensures
        0 <= abs(x as int) / abs(y as int) <= 0x8000_0000,
        abs(x as int) / abs(y as int) == 0x8000_0000 ==> x < 0 && y > 0,
        0 <= abs(x as int) % abs(y as int) < abs(y as int),
{
    let ax = abs(x as int);
    let ay = abs(y as int);
    assert(0 <= ax / ay <= 0x8000_0000 && 0 <= ax % ay < ay) by (nonlinear_arith)
        requires
            0 <= ax <= 0x8000_0000,
            1 <= ay <= 0x8000_0000,
    ;
    assert(ax / ay == 0x8000_0000 ==> ax == 0x8000_0000 && ay == 1) by (nonlinear_arith)
        requires
            0 <= ax <= 0x8000_0000,
            1 <= ay <= 0x8000_0000,
    ;
}

/// Executes an OP-opcode operation (`funct3`, `funct7`) on two register values.
pub fn exec_op(funct3: u8, funct7: u8, a: u64, b: u64) -> (r: u64)
    requires
        funct3 < 8,
        op_defined(funct3 as int, funct7 as int),
    ensures
        r == op_result(funct3 as int, funct7 as int, a, b),
{
    proof {
        lemma2_to64();
        lemma_u64_casts(a);
        lemma_u64_casts(b);
    }
    if funct7 == 0x0 || funct7 == 0x20 {
        if funct3 == 0x0 {
            if funct7 == 0x20 {
                a.wrapping_sub(b)
            } else {
                a.wrapping_add(b)
            }
        } else if funct3 == 0x4 {
            a ^ b
        } else if funct3 == 0x6 {
            a | b
        } else if funct3 == 0x7 {
            a & b
        } else if funct3 == 0x1 {
            proof {
                lemma_u64_shl_wraps(a, b & 0x1F);
            }
            a << (b & 0x1F)
        } else if funct3 == 0x5 {
            let sh = (b & 0x1F) as u32;
            if funct7 == 0x20 {
                let v = (a as i32) >> sh;
                proof {
                    lemma_i32_shr_floors(a as i32, sh);
                    lemma_i32_casts(v);
                }
                v as u64
            } else {
                let v = (a as u32) >> sh;
                proof {
                    lemma_u32_shr_is_div(a as u32, sh);
                }
                v as u64
            }
        } else if funct3 == 0x2 {
            if (a as i32) < (b as i32) {
                1
            } else {
                0
            }
        } else {
            if a < b {
                1
            } else {
                0
            }
        }
    } else {
        if funct3 == 0x0 {
            a.wrapping_mul(b)
        } else if funct3 == 0x1 {
            let prod = (a as i64).wrapping_mul(b as i64);
            let hi = prod >> 32u64;
            proof {
                lemma_signed_product(a, b);
                lemma_i64_shr32_floors(prod);
                lemma_mul_upper_signed(a as int, b as int, prod as int);
                lemma_i32_casts(hi as i32);
            }
            hi as i32 as u64
        } else if funct3 == 0x2 {
            let x = (a as i32) as i64;
            let y = (b as u32) as i64;
            assert(-0x8000_0000_0000_0000 < x * y < 0x8000_0000_0000_0000) by (nonlinear_arith)
                requires
                    -0x8000_0000 <= x < 0x8000_0000,
                    0 <= y < 0x1_0000_0000,
            ;
            let prod = x * y;
            let hi = prod >> 32u64;
            proof {
                lemma_i64_shr32_floors(prod);
                lemma_i64_casts(hi);
            }
            hi as u64
        } else if funct3 == 0x3 {
            let prod = a.wrapping_mul(b);
            proof {
                lemma_u64_shr_is_div(prod, 32);
                lemma_u64_casts(prod);
            }
            (prod >> 32u64) as u32 as u64
        } else if funct3 == 0x4 {
            let x = a as i32;
            let y = b as i32;
            if y == 0 {
                u64::MAX
            } else if x == i32::MIN && y == -1 {
                proof {
                    lemma_i32_casts(x);
                }
                x as u64
            } else {
                proof {
                    lemma_quot_bounds(x, y);
                    if y < 0 {
                        lemma_neg_divisor(x as int, y as int);
                        lemma_neg_divisor(-(x as int), y as int);
                    }
                }
                let q = x / y;
                proof {
                    lemma_i32_casts(q);
                }
                q as u64
            }
        } else if funct3 == 0x5 {
            if b == 0 {
                u64::MAX
            } else {
                a / b
            }
        } else if funct3 == 0x6 {
            let x = a as i32;
            let y = b as i32;
            if y == 0 {
                proof {
                    lemma_i32_casts(x);
                }
                x as u64
            } else if x == i32::MIN && y == -1 {
                0
            } else {
                proof {
                    lemma_quot_bounds(x, y);
                    if y < 0 {
                        lemma_neg_divisor(x as int, y as int);
                        lemma_neg_divisor(-(x as int), y as int);
                    }
                }
                let m = x % y;
                proof {
                    lemma_i32_casts(m);
                }
                m as u64
            }
        } else {
            if b == 0 {
                a
            } else {
                a % b
            }
        }
    }
}

// ---------------------------------------------------------------------------
// Register-immediate operations (OP-IMM opcode)
// ---------------------------------------------------------------------------

/// Whether an OP-IMM funct code is implemented: SLLI (funct3 1) needs immediate bits 11..5
/// clear, SRLI/SRAI (funct3 5) need them to be 0 (logical) or 0x20 (arithmetic); the other
/// operations take any immediate.
pub open spec fn op_imm_defined(f3: int, imm: int) -> bool {
    let kind = (imm / 32) % 128;
    if f3 == 1 {
        kind == 0
    } else if f3 == 5 {
        kind == 0 || kind == 0x20
    } else {
        true
    }
}

/// The value an OP-IMM operation writes to its destination register. The immediate is
/// sign-extended to 64 bits; SLLI and SRLI shift all 64 bits of `a`, SRAI its low 32 bits.
pub open spec fn op_imm_result(f3: int, imm: int, a: u64) -> int {
    let sh = (imm % 32) as nat;
    let kind = (imm / 32) % 128;
    if f3 == 0 {
        wrap64(a + imm)
    } else if f3 == 4 {
        (a ^ (wrap64(imm) as u64)) as int
    } else if f3 == 6 {
        (a | (wrap64(imm) as u64)) as int
    } else if f3 == 7 {
        (a & (wrap64(imm) as u64)) as int
    } else if f3 == 1 {
        wrap64(a * pow2(sh))
    } else if f3 == 5 {
        if kind == 0 {
            a as int / (pow2(sh) as int)
        } else {
            wrap64(signed32(a as int) / (pow2(sh) as int))
        }
    } else if f3 == 2 {
        if signed32(a as int) < imm {
            1
        } else {
            0
        }
    } else {
        if a < wrap64(imm) {
            1
        } else {
            0
        }
    }
}

/// Executes an OP-IMM operation (`funct3`) on a register value and a sign-extended
/// 12-bit immediate.
pub fn exec_op_imm(funct3: u8, imm: i32, a: u64) -> (r: u64)
    requires
        funct3 < 8,
        -2048 <= imm < 2048,
        op_imm_defined(funct3 as int, imm as int),
    ensures
        r == op_imm_result(funct3 as int, imm as int, a),
{
    proof {
        lemma2_to64();
        lemma_i32_casts(imm);
        lemma_u64_casts(a);
    }
    let imm64 = imm as u64;
    if funct3 == 0x0 {
        a.wrapping_add(imm64)
    } else if funct3 == 0x4 {
        a ^ imm64
    } else if funct3 == 0x6 {
        a | imm64
    } else if funct3 == 0x7 {
        a & imm64
    } else if funct3 == 0x1 {
        let sh = (imm & 0x1F) as u32;
        proof {
            lemma_u64_shl_wraps(a, sh as u64);
        }
        a << (sh as u64)
    } else if funct3 == 0x5 {
        let sh = (imm & 0x1F) as u32;
        let kind = (imm >> 5u32) & 0x7F;
        if kind == 0x00 {
            proof {
                lemma_u64_shr_is_div(a, sh as u64);
            }
            a >> (sh as u64)
        } else {
            let v = (a as i32) >> sh;
            proof {
                lemma_i32_shr_floors(a as i32, sh);
                lemma_i32_casts(v);
            }
            v as u64
        }
    } else if funct3 == 0x2 {
        if (a as i32) < imm {
            1
        } else {
            0
        }
    } else {
        if a < imm64 {
            1
        } else {
            0
        }
    }
}

/// Whether the OP-IMM funct code of `funct3` and the immediate `imm` is implemented.
pub(crate) fn op_imm_implemented(funct3: u8, imm: i32) -> (ok: bool)
    requires
        -2048 <= imm < 2048,
    ensures
        ok == op_imm_defined(funct3 as int, imm as int),
{
    proof {
        lemma_i32_casts(imm);
    }
    let kind = (imm >> 5u32) & 0x7F;
    if funct3 == 1 {
        kind == 0
    } else if funct3 == 5 {
        kind == 0 || kind == 0x20
    } else {
        true
    }
}

/// Whether the OP funct code (`funct3`, `funct7`) is implemented.
pub(crate) fn op_implemented(funct3: u8, funct7: u8) -> (ok: bool)
    ensures
        ok == op_defined(funct3 as int, funct7 as int),
{
    if funct7 == 0 || funct7 == 1 {
        true
    } else if funct7 == 0x20 {
        funct3 == 0 || funct3 == 5
    } else {
        false
    }
}

// ---------------------------------------------------------------------------
// Branch conditions, offsets and load extension
// ---------------------------------------------------------------------------

/// Whether funct3 names an implemented branch (BEQ, BNE, BLT, BGE, BLTU, BGEU).
pub open spec fn branch_defined(f3: int) -> bool {
    f3 == 0 || f3 == 1 || f3 == 4 || f3 == 5 || f3 == 6 || f3 == 7
}

/// Whether the branch named by funct3 is taken for register values `a` and `b`.
/// The signed comparisons look at the low 32 bits; the unsigned ones at all 64.
pub open spec fn branch_taken(f3: int, a: u64, b: u64) -> bool {
    if f3 == 0 {
        a == b
    } else if f3 == 1 {
        a != b
    } else if f3 == 4 {
        signed32(a as int) < signed32(b as int)
    } else if f3 == 5 {
        signed32(a as int) >= signed32(b as int)
    } else if f3 == 6 {
        a < b
    } else {
        a >= b
    }
}

/// Evaluates the branch condition named by `funct3`.
pub fn exec_branch(funct3: u8, a: u64, b: u64) -> (taken: bool)
    requires
        branch_defined(funct3 as int),
    ensures
        taken == branch_taken(funct3 as int, a, b),
{
    proof {
        lemma_u64_casts(a);
        lemma_u64_casts(b);
    }
    if funct3 == 0x0 {
        a == b
    } else if funct3 == 0x1 {
        a != b
    } else if funct3 == 0x4 {
        (a as i32) < (b as i32)
    } else if funct3 == 0x5 {
        (a as i32) >= (b as i32)
    } else if funct3 == 0x6 {
        a < b
    } else {
        a >= b
    }
}

/// Whether adding `imm` to `base` read as a signed 64-bit number stays within `i64`.
pub open spec fn offset_in_range(base: u64, imm: int) -> bool {
    i64::MIN <= signed64(base as int) + imm <= i64::MAX
}

/// `base + imm` computed in signed 64-bit arithmetic and reinterpreted as unsigned.
pub fn offset_target(base: u64, imm: i32) -> (r: u64)
    requires
        offset_in_range(base, imm as int),
    ensures
        r == wrap64(base + imm),
{
    proof {
        lemma_u64_casts(base);
    }
    let sum = (base as i64) + (imm as i64);
    proof {
        lemma_i64_casts(sum);
    }
    sum as u64
}

/// `base + imm` computed in signed 64-bit arithmetic and truncated to 32 bits.
pub fn offset_address(base: u64, imm: i32) -> (r: u32)
    requires
        offset_in_range(base, imm as int),
    ensures
        r == wrap32(base + imm),
{
    proof {
        lemma_u64_casts(base);
    }
    let sum = (base as i64) + (imm as i64);
    proof {
        lemma_i64_casts(sum);
    }
    sum as u32
}

/// The register value a load of kind funct3 produces from the 32-bit loaded value `raw`:
/// the signed loads (funct3 <= 2) sign-extend it from 32 to 64 bits, the others zero-extend.
pub open spec fn load_extend(f3: int, raw: u32) -> int {
    if f3 <= 2 {
        wrap64(signed32(raw as int))
    } else {
        raw as int
    }
}

/// Widens a loaded 32-bit value to a register value.
pub fn extend_loaded(funct3: u8, raw: u32) -> (r: u64)
    ensures
        r == load_extend(funct3 as int, raw),
{
    if funct3 <= 0x2 {
        // Signed loads (LB/LH/LW): sign-extend to XLEN (64 here).
        proof {
            lemma_u32_casts(raw);
        }
        raw as i32 as i64 as u64
    } else {
        // Unsigned loads (LBU/LHU): zero-extend.
        raw as u64
    }
}

// ---------------------------------------------------------------------------
// Properties of the operations
// ---------------------------------------------------------------------------

/// Signed division and remainder round toward zero consistently: the divisor times the
/// quotient plus the remainder gives back the dividend, the remainder is smaller than the
/// divisor in magnitude and takes the sign of the dividend.
pub proof fn lemma_div_rem_identity(x: int, y: int)
    requires
        y != 0,
    ensures
        y * div_trunc(x, y) + rem_trunc(x, y) == x,
        abs(rem_trunc(x, y)) < abs(y),
        rem_trunc(x, y) == 0 || (rem_trunc(x, y) < 0) == (x < 0),
{
    let ax = abs(x) as int;
    let ay = abs(y) as int;
    vstd::arithmetic::div_mod::lemma_fundamental_div_mod(ax, ay);
    assert(0 <= ax % ay < ay) by (nonlinear_arith)
        requires
            ay > 0,
    ;
    let q: int = ax / ay;
    let r: int = ax % ay;
    assert(y * div_trunc(x, y) + rem_trunc(x, y) == x) by (nonlinear_arith)
        requires
            ax == ay * q + r,
            ax == abs(x) as int,
            ay == abs(y) as int,
            div_trunc(x, y) == (if (x < 0) == (y < 0) { q } else { -q }),
            rem_trunc(x, y) == (if x < 0 { -r } else { r }),
    ;
}

/// Sign extension undoes truncation: a number representable in `bits` bits, reduced to its
/// low `bits` bits, extends back to itself.
pub proof fn lemma_sext_of_truncation(x: int, bits: nat)
    requires
        1 <= bits <= 32,
        -pow2((bits - 1) as nat) <= x < pow2((bits - 1) as nat),
    ensures
        0 <= x % (pow2(bits) as int) < pow2(bits),
        sext(x % (pow2(bits) as int), bits) == x,
{
    let h = pow2((bits - 1) as nat) as int;
    vstd::arithmetic::power2::lemma_pow2_unfold(bits);
    vstd::arithmetic::power2::lemma_pow2_pos((bits - 1) as nat);
    assert(pow2(bits) == 2 * h);
    if x >= 0 {
        lemma_small_mod(x as nat, pow2(bits));
    } else {
        lemma_mod_multiples_vanish(1, x, 2 * h);
        lemma_small_mod((x + 2 * h) as nat, pow2(bits));
    }
}

/// The bitwise operations on two 64-bit values `x` and `y`: the AND keeps only bits set in
/// both, the OR contains both, and their values add up as `(x | y) + (x & y) == x + y` and
/// `(x ^ y) + 2 * (x & y) == x + y`.
proof fn lemma_bitwise_sums(x: u64, y: u64)
    ensures
        (x | y) as int + (x & y) as int == x + y,
        (x ^ y) as int + 2 * ((x & y) as int) == x + y,
        (x & y) & x == x & y,
        (x & y) & y == x & y,
        (x | y) | x == x | y,
        (x | y) | y == x | y,
{
    assert({
        &&& (x | y) as int + (x & y) as int == x + y
        &&& (x ^ y) as int + 2 * ((x & y) as int) == x + y
        &&& (x & y) & x == x & y
        &&& (x & y) & y == x & y
        &&& (x | y) | x == x | y
        &&& (x | y) | y == x | y
    }) by (bit_vector);
}

/// XORI, ORI and ANDI combine `a` with the sign-extended immediate `i` bit by bit: ANDI
/// keeps only bits set in both, ORI contains every bit of either, and the three results
/// satisfy `ORI + ANDI == a + i` and `XORI + 2 * ANDI == a + i`.
pub proof fn lemma_op_imm_bitwise(imm: int, a: u64)
    ensures
        ({
            let i = wrap64(imm) as u64;
            let x = op_imm_result(4, imm, a);
            let o = op_imm_result(6, imm, a);
            let n = op_imm_result(7, imm, a);
            &&& o + n == a + i
            &&& x + 2 * n == a + i
            &&& 0 <= n <= a && n <= i
            &&& a <= o && i <= o
            &&& (n as u64) & a == n as u64 && (n as u64) & i == n as u64
            &&& (o as u64) | a == o as u64 && (o as u64) | i == o as u64
        }),
{
    let i = wrap64(imm) as u64;
    lemma_bitwise_sums(a, i);
    assert((a & i) <= a && (a & i) <= i && a <= (a | i) && i <= (a | i)) by (bit_vector);
}

/// XOR, OR and AND on two registers satisfy the same relations as their immediate forms.
pub proof fn lemma_op_bitwise(a: u64, b: u64)
    ensures
        ({
            let x = op_result(4, 0, a, b);
            let o = op_result(6, 0, a, b);
            let n = op_result(7, 0, a, b);
            &&& o + n == a + b
            &&& x + 2 * n == a + b
            &&& 0 <= n <= a && n <= b
            &&& a <= o && b <= o
            &&& (n as u64) & a == n as u64 && (n as u64) & b == n as u64
            &&& (o as u64) | a == o as u64 && (o as u64) | b == o as u64
        }),
{
    lemma_bitwise_sums(a, b);
    assert((a & b) <= a && (a & b) <= b && a <= (a | b) && b <= (a | b)) by (bit_vector);
}

/// ADD and SUB undo each other modulo 2^64: subtracting `b` from `a + b` gives back `a`,
/// and adding `b` to `a - b` gives back `a`.
pub proof fn lemma_add_sub_inverse(a: u64, b: u64)
    ensures
        0 <= op_result(0, 0, a, b) < 0x1_0000_0000_0000_0000,
        0 <= op_result(0, 0x20, a, b) < 0x1_0000_0000_0000_0000,
        op_result(0, 0x20, op_result(0, 0, a, b) as u64, b) == a,
        op_result(0, 0, op_result(0, 0x20, a, b) as u64, b) == a,
{
    let m: int = 0x1_0000_0000_0000_0000;
    let s = (a + b) % m;
    let d = (a - b) % m;
    vstd::arithmetic::div_mod::lemma_add_mod_noop(a + b, -(b as int), m);
    vstd::arithmetic::div_mod::lemma_add_mod_noop(a - b, b as int, m);
    vstd::arithmetic::div_mod::lemma_mod_twice(a + b, m);
    vstd::arithmetic::div_mod::lemma_mod_twice(a - b, m);
    lemma_small_mod(a as nat, m as nat);
    assert(0 <= s < m && 0 <= d < m);
    assert(((s % m) + ((-(b as int)) % m)) % m == (s - b) % m) by {
        vstd::arithmetic::div_mod::lemma_add_mod_noop(s, -(b as int), m);
        lemma_mod_twice_local(s, m);
    }
    assert(((d % m) + (b as int % m)) % m == (d + b) % m) by {
        vstd::arithmetic::div_mod::lemma_add_mod_noop(d, b as int, m);
        lemma_mod_twice_local(d, m);
    }
}

proof fn lemma_mod_twice_local(x: int, m: int)
    requires
        m > 0,
    ensures
        (x % m) % m == x % m,
{
    vstd::arithmetic::div_mod::lemma_mod_twice(x, m);
}

/// The branch conditions come in complementary pairs: BNE is taken exactly when BEQ is not,
/// BGE exactly when BLT is not, and BGEU exactly when BLTU is not. BEQ, BGE and BGEU are
/// taken between equal values, BLT and BLTU never; BLT and BLTU are asymmetric, and of two
/// values whose low words differ one is signed-less than the other.
pub proof fn lemma_branch_pairs(a: u64, b: u64)
    ensures
        branch_taken(1, a, b) == !branch_taken(0, a, b),
        branch_taken(5, a, b) == !branch_taken(4, a, b),
        branch_taken(7, a, b) == !branch_taken(6, a, b),
        branch_taken(0, a, a) && branch_taken(5, a, a) && branch_taken(7, a, a),
        !branch_taken(4, a, a) && !branch_taken(6, a, a),
        branch_taken(0, a, b) == (a == b),
        branch_taken(4, a, b) ==> !branch_taken(4, b, a),
        branch_taken(6, a, b) ==> !branch_taken(6, b, a),
        branch_taken(6, a, b) || branch_taken(6, b, a) || a == b,
        branch_taken(4, a, b) || branch_taken(4, b, a) || wrap32(a as int) == wrap32(b as int),
{
}

/// DIVU and REMU divide the full 64-bit registers: for a nonzero divisor the quotient and
/// remainder satisfy `a == b * q + r` with `0 <= r < b`; by zero the quotient is all ones and
/// the remainder is the dividend.
pub proof fn lemma_divu_remu(a: u64, b: u64)
    ensures
        ({
            let q = op_result(5, 1, a, b);
            let r = op_result(7, 1, a, b);
            &&& b != 0 ==> a == b * q + r && 0 <= r < b && 0 <= q
            &&& b == 0 ==> q == u64::MAX && r == a
        }),
{
    if b != 0 {
        vstd::arithmetic::div_mod::lemma_fundamental_div_mod(a as int, b as int);
        vstd::arithmetic::div_mod::lemma_mod_bound(a as int, b as int);
        vstd::arithmetic::div_mod::lemma_div_pos_is_pos(a as int, b as int);
    }
}

/// MUL gives the product modulo 2^64, and MULHU the upper word of that 64-bit product:
/// MULHU times 2^32 plus the low word of the product is the MUL result.
pub proof fn lemma_mul_words(a: u64, b: u64)
    ensures
        ({
            let lo = op_result(0, 1, a, b);
            let hi = op_result(3, 1, a, b);
            &&& 0 <= lo < 0x1_0000_0000_0000_0000
            &&& (a * b - lo) % 0x1_0000_0000_0000_0000 == 0
            &&& 0 <= hi < 0x1_0000_0000
            &&& hi * 0x1_0000_0000 + (a * b) % 0x1_0000_0000 == lo
        }),
{
    let m: int = 0x1_0000_0000_0000_0000;
    let w: int = 0x1_0000_0000;
    let p = a * b;
    let lo = p % m;
    vstd::arithmetic::div_mod::lemma_mod_bound(p, m);
    vstd::arithmetic::div_mod::lemma_fundamental_div_mod(p, m);
    assert(p - lo == m * (p / m));
    vstd::arithmetic::div_mod::lemma_mod_multiples_basic(p / m, m);
    assert((m * (p / m)) % m == 0) by {
        vstd::arithmetic::mul::lemma_mul_is_commutative(m, p / m);
    }
    vstd::arithmetic::div_mod::lemma_fundamental_div_mod(lo, w);
    vstd::arithmetic::div_mod::lemma_mod_mod(p, w, w);
    assert(w * w == m);
    vstd::arithmetic::div_mod::lemma_mod_bound(lo, w);
    assert(0 <= lo / w < w) by (nonlinear_arith)
        requires
            0 <= lo < m,
            m == w * w,
            w > 0,
    ;
}

/// A 32-bit signed value read back from its 64-bit register form is itself.
proof fn lemma_signed32_of_wrap64(t: int)
    requires
        -0x8000_0000 <= t < 0x8000_0000,
    ensures
        signed32(wrap64(t)) == t,
{
    let w: int = 0x1_0000_0000;
    vstd::arithmetic::div_mod::lemma_mod_mod(t, w, w);
    assert(w * w == 0x1_0000_0000_0000_0000);
    if t >= 0 {
        lemma_small_mod(t as nat, w as nat);
    } else {
        lemma_mod_multiples_vanish(1, t, w);
        lemma_small_mod((t + w) as nat, w as nat);
    }
}

/// A signed 64-bit value read back from its register form is itself.
proof fn lemma_signed64_of_wrap64(t: int)
    requires
        -0x8000_0000_0000_0000 <= t < 0x8000_0000_0000_0000,
    ensures
        signed64(wrap64(t)) == t,
{
    let m: int = 0x1_0000_0000_0000_0000;
    vstd::arithmetic::div_mod::lemma_mod_twice(t, m);
    if t >= 0 {
        lemma_small_mod(t as nat, m as nat);
    } else {
        lemma_mod_multiples_vanish(1, t, m);
        lemma_small_mod((t + m) as nat, m as nat);
    }
}

/// The low word of a register, read as signed, lies in the 32-bit signed range.
proof fn lemma_signed32_range(v: int)
    ensures
        -0x8000_0000 <= signed32(v) < 0x8000_0000,
{
    vstd::arithmetic::div_mod::lemma_mod_bound(v, 0x1_0000_0000);
}

/// DIV and REM divide the low words of the registers as signed numbers, rounding toward
/// zero: with `x`, `y` the signed low words and `q`, `r` the signed low words of the two
/// results, `y * q + r == x`, `|r| < |y|` and `r` has the sign of `x` (or is 0). Dividing by
/// zero gives `q == -1` and `r == x`; the overflowing `i32::MIN / -1` gives `q == x`, `r == 0`.
/// Both results are the sign-extensions of their low words.
pub proof fn lemma_div_rem_signed(a: u64, b: u64)
    ensures
        ({
            let x = signed32(a as int);
            let y = signed32(b as int);
            let q = signed32(op_result(4, 1, a, b));
            let r = signed32(op_result(6, 1, a, b));
            &&& op_result(4, 1, a, b) == wrap64(q)
            &&& op_result(6, 1, a, b) == wrap64(r)
            &&& y == 0 ==> q == -1 && r == x
            &&& (x == -0x8000_0000 && y == -1) ==> q == x && r == 0
            &&& (y != 0 && !(x == -0x8000_0000 && y == -1)) ==> {
                &&& y * q + r == x
                &&& abs(r) < abs(y)
                &&& (r == 0 || (r < 0) == (x < 0))
            }
        }),
{
    let x = signed32(a as int);
    let y = signed32(b as int);
    lemma_signed32_range(a as int);
    lemma_signed32_range(b as int);
    let q0 = div32(x, y);
    let r0 = rem32(x, y);
    if y != 0 && !(x == -0x8000_0000 && y == -1) {
        lemma_quot_bounds(x as i32, y as i32);
        lemma_div_rem_identity(x, y);
        assert(-0x8000_0000 <= q0 < 0x8000_0000);
        assert(-0x8000_0000 <= r0 < 0x8000_0000);
    }
    lemma_signed32_of_wrap64(q0);
    lemma_signed32_of_wrap64(r0);
}

/// MULH gives the signed 64-bit product of the registers divided by 2^32, rounded down;
/// MULHSU the product of the low word of `a` read as signed and the low word of `b` read as
/// unsigned, divided by 2^32 and rounded down. In both, `h * 2^32 <= p < (h + 1) * 2^32` for
/// the signed result `h` and the product `p`.
pub proof fn lemma_mul_high_signed(a: u64, b: u64)
    ensures
        ({
            let w: int = 0x1_0000_0000;
            let p = signed64(wrap64(a * b));
            let h = signed64(op_result(1, 1, a, b));
            h * w <= p < h * w + w
        }),
        ({
            let w: int = 0x1_0000_0000;
            let p = signed32(a as int) * wrap32(b as int);
            let h = signed64(op_result(2, 1, a, b));
            h * w <= p < h * w + w
        }),
{
    let w: int = 0x1_0000_0000;
    // MULH
    let p1 = signed64(wrap64(a * b));
    lemma_mul_upper_signed(a as int, b as int, p1);
    lemma_signed32_range(mul_upper(a as int, b as int));
    lemma_signed64_of_wrap64(signed32(mul_upper(a as int, b as int)));
    vstd::arithmetic::div_mod::lemma_fundamental_div_mod(p1, w);
    vstd::arithmetic::div_mod::lemma_mod_bound(p1, w);
    // MULHSU
    let x = signed32(a as int);
    let y = wrap32(b as int);
    lemma_signed32_range(a as int);
    vstd::arithmetic::div_mod::lemma_mod_bound(b as int, w);
    let p2 = x * y;
    assert(-0x8000_0000 * w <= p2 < 0x8000_0000 * w) by (nonlinear_arith)
        requires
            -0x8000_0000 <= x < 0x8000_0000,
            0 <= y < w,
            w == 0x1_0000_0000,
            p2 == x * y,
    ;
    vstd::arithmetic::div_mod::lemma_fundamental_div_mod(p2, w);
    vstd::arithmetic::div_mod::lemma_mod_bound(p2, w);
    let t = p2 / w;
    assert(-0x8000_0000 <= t < 0x8000_0000) by (nonlinear_arith)
        requires
            p2 == w * t + p2 % w,
            0 <= p2 % w < w,
            -0x8000_0000 * w <= p2 < 0x8000_0000 * w,
            w == 0x1_0000_0000,
    ;
    lemma_signed64_of_wrap64(t);
}

/// Each register-immediate operation is its register-register counterpart applied to the
/// sign-extended immediate: ADDI is ADD, SLTI is SLT, SLTIU is SLTU, XORI/ORI/ANDI are
/// XOR/OR/AND, and SRAI is SRA, with the shift amount the low five bits of the immediate.
/// SLT and SLTU give 1 exactly when BLT and BLTU would branch, and 0 otherwise.
pub proof fn lemma_immediate_forms(imm: int, a: u64, b: u64)
    requires
        -2048 <= imm < 2048,
    ensures
        ({
            let i = wrap64(imm) as u64;
            &&& op_imm_result(0, imm, a) == op_result(0, 0, a, i)
            &&& op_imm_result(2, imm, a) == op_result(2, 0, a, i)
            &&& op_imm_result(3, imm, a) == op_result(3, 0, a, i)
            &&& op_imm_result(4, imm, a) == op_result(4, 0, a, i)
            &&& op_imm_result(6, imm, a) == op_result(6, 0, a, i)
            &&& op_imm_result(7, imm, a) == op_result(7, 0, a, i)
            &&& (imm / 32) % 128 == 0x20 ==> op_imm_result(5, imm, a) == op_result(5, 0x20, a, i)
        }),
        op_result(2, 0, a, b) == (if branch_taken(4, a, b) { 1int } else { 0 }),
        op_result(3, 0, a, b) == (if branch_taken(6, a, b) { 1int } else { 0 }),
{
    let m: int = 0x1_0000_0000_0000_0000;
    let i = wrap64(imm);
    lemma_signed32_of_wrap64(imm);
    vstd::arithmetic::div_mod::lemma_add_mod_noop(a as int, imm, m);
    lemma_small_mod(a as nat, m as nat);
    vstd::arithmetic::div_mod::lemma_mod_twice(imm, m);
    vstd::arithmetic::div_mod::lemma_mod_mod(imm, 0x1_0000_0000, 0x1_0000_0000);
    assert(0x1_0000_0000int * 0x1_0000_0000 == m);
    vstd::arithmetic::div_mod::lemma_mod_mod(imm, 32, 0x800_0000_0000_0000);
    assert(32 * 0x800_0000_0000_0000int == m);
    vstd::arithmetic::div_mod::lemma_mod_mod(i, 32, 0x800_0000);
    assert(32 * 0x800_0000int == 0x1_0000_0000);
}

/// The right shifts divide and round down: SRL and SRLI give the largest `r` with
/// `r * 2^s` at most the value shifted (the low word for SRL, all 64 bits for SRLI), SRA
/// and SRAI the same for the signed low word, read back as signed; SLL and SLLI multiply by
/// `2^s` modulo 2^64. `s` is the low five bits of the shift operand.
pub proof fn lemma_shifts(a: u64, b: u64, imm: int)
    ensures
        ({
            let d = pow2((b % 32) as nat) as int;
            let r = op_result(5, 0, a, b);
            let h = signed64(op_result(5, 0x20, a, b));
            &&& d > 0
            &&& r * d <= wrap32(a as int) < r * d + d
            &&& h * d <= signed32(a as int) < h * d + d
            &&& (op_result(1, 0, a, b) - a * d) % 0x1_0000_0000_0000_0000 == 0
            &&& 0 <= op_result(1, 0, a, b) < 0x1_0000_0000_0000_0000
        }),
        ({
            let d = pow2((imm % 32) as nat) as int;
            let kind = (imm / 32) % 128;
            let r = op_imm_result(5, imm, a);
            &&& kind == 0 ==> r * d <= a < r * d + d
            &&& kind == 0x20 ==> signed64(r) * d <= signed32(a as int) < signed64(r) * d + d
            &&& (op_imm_result(1, imm, a) - a * d) % 0x1_0000_0000_0000_0000 == 0
        }),
{
    let m: int = 0x1_0000_0000_0000_0000;
    let s1 = (b % 32) as nat;
    let s2 = (imm % 32) as nat;
    let d1 = pow2(s1) as int;
    let d2 = pow2(s2) as int;
    lemma_pow2_pos(s1);
    lemma_pow2_pos(s2);
    vstd::arithmetic::power2::lemma_pow2_strictly_increases(s1, 32);
    vstd::arithmetic::power2::lemma_pow2_strictly_increases(s2, 32);
    lemma2_to64();
    // SRL
    let w = wrap32(a as int);
    vstd::arithmetic::div_mod::lemma_mod_bound(a as int, 0x1_0000_0000);
    vstd::arithmetic::div_mod::lemma_fundamental_div_mod(w, d1);
    vstd::arithmetic::div_mod::lemma_mod_bound(w, d1);
    let r1 = w / d1;
    assert(r1 * d1 <= w < r1 * d1 + d1) by (nonlinear_arith)
        requires
            w == d1 * r1 + w % d1,
            0 <= w % d1 < d1,
    ;
    // SRA
    let x = signed32(a as int);
    lemma_signed32_range(a as int);
    vstd::arithmetic::div_mod::lemma_fundamental_div_mod(x, d1);
    vstd::arithmetic::div_mod::lemma_mod_bound(x, d1);
    let t = x / d1;
    assert(-0x8000_0000 <= t < 0x8000_0000) by (nonlinear_arith)
        requires
            x == d1 * t + x % d1,
            0 <= x % d1 < d1,
            d1 >= 1,
            -0x8000_0000 <= x < 0x8000_0000,
    ;
    lemma_signed64_of_wrap64(t);
    assert(t * d1 <= x < t * d1 + d1) by (nonlinear_arith)
        requires
            x == d1 * t + x % d1,
            0 <= x % d1 < d1,
    ;
    // SLL
    vstd::arithmetic::div_mod::lemma_fundamental_div_mod(a * d1, m);
    vstd::arithmetic::div_mod::lemma_mod_bound(a * d1, m);
    vstd::arithmetic::div_mod::lemma_mod_multiples_basic(-((a * d1) / m), m);
    assert((a * d1) % m - a * d1 == (-((a * d1) / m)) * m) by (nonlinear_arith)
        requires
            a * d1 == m * ((a * d1) / m) + (a * d1) % m,
    ;
    // SRLI
    vstd::arithmetic::div_mod::lemma_fundamental_div_mod(a as int, d2);
    vstd::arithmetic::div_mod::lemma_mod_bound(a as int, d2);
    let r2 = a as int / d2;
    assert(r2 * d2 <= a < r2 * d2 + d2) by (nonlinear_arith)
        requires
            a == d2 * r2 + (a as int) % d2,
            0 <= (a as int) % d2 < d2,
    ;
    // SRAI
    vstd::arithmetic::div_mod::lemma_fundamental_div_mod(x, d2);
    vstd::arithmetic::div_mod::lemma_mod_bound(x, d2);
    let t2 = x / d2;
    assert(-0x8000_0000 <= t2 < 0x8000_0000) by (nonlinear_arith)
        requires
            x == d2 * t2 + x % d2,
            0 <= x % d2 < d2,
            d2 >= 1,
            -0x8000_0000 <= x < 0x8000_0000,
    ;
    lemma_signed64_of_wrap64(t2);
    assert(t2 * d2 <= x < t2 * d2 + d2) by (nonlinear_arith)
        requires
            x == d2 * t2 + x % d2,
            0 <= x % d2 < d2,
    ;
    // SLLI
    vstd::arithmetic::div_mod::lemma_fundamental_div_mod(a * d2, m);
    vstd::arithmetic::div_mod::lemma_mod_multiples_basic(-((a * d2) / m), m);
    assert((a * d2) % m - a * d2 == (-((a * d2) / m)) * m) by (nonlinear_arith)
        requires
            a * d2 == m * ((a * d2) / m) + (a * d2) % m,
    ;
}

} // verus!
