//! Polynomial arithmetic over GF(2) for the 32-bit family: a polynomial is a
//! word whose bit `i` is the coefficient of `x^i`.
use vstd::prelude::*;
use crate::check32::model::reflect32;

verus! {

/// The state (remainder register, quotient) of binary long division after `n`
/// steps: each step shifts the register left by one and, when the bit shifted
/// out was set, subtracts (XORs) the divisor aligned with the register's top.
pub open spec fn div_steps(dividend: u64, poly: u64, n: nat) -> (u64, u64)
    decreases n,
{
    if n == 0 {
        (dividend, 0)
    } else {
        let (r, q) = div_steps(dividend, poly, (n - 1) as nat);
        let msb = r >> 63;
        ((r << 1) ^ (if msb == 1 {
            poly << 32
        } else {
            0
        }), (q << 1) ^ msb)
    }
}

/// `(quotient, remainder)` of dividing `dividend * x^32` by the 33-bit
/// polynomial `poly`, in 32 steps of long division.
pub open spec fn long_division(dividend: u64, poly: u64) -> (u64, u64) {
    let (r, q) = div_steps(dividend, poly, 32);
    (q, r >> 32)
}

/// The carry-less product of `a` and the low `n` bits of `b`: for each set
/// bit `i` of `b`, a copy of `a` shifted left by `i`, all XORed together.
pub open spec fn clmul(a: u64, b: u64, n: nat) -> u64
    decreases n,
{
    if n == 0 {
        0
    } else {
        let r = clmul(a, b, (n - 1) as nat);
        if (b >> ((n - 1) as u64)) & 1 == 1 {
            r ^ (a << ((n - 1) as u64))
        } else {
            r
        }
    }
}

/// The product of `a` and `b` (32-bit factors), reduced modulo `poly`.
pub open spec fn mul_mod(a: u64, b: u64, poly: u64) -> u64 {
    long_division(clmul(a, b, 32), poly).1
}

/// The low 33 bits of `c` in reverse order.
pub open spec fn reverse33(c: u64) -> u64 {
    ((reflect32(c as u32) as u64) << 1) | ((c >> 32) & 1)
}

/// Reflecting the low 33 bits twice gives them back.
pub proof fn lemma_reverse33_involution(c: u64)
    ensures
        reverse33(reverse33(c)) == c & 0x1_FFFF_FFFF,
{
    assert(reverse33(reverse33(c)) == c & 0x1_FFFF_FFFF) by (bit_vector);
}

/// The powers of `x` modulo `poly` that the folding engine needs, in normal
/// (unreflected) form: `[x576, x512, x192, x128, x96, x64, u]`.
pub open spec fn simd_constants(poly: u64) -> Seq<u64> {
    let x32 = long_division(0x1_0000_0000, poly).1;
    let x64 = mul_mod(x32, x32, poly);
    let x96 = mul_mod(x64, x32, poly);
    let x128 = mul_mod(x64, x64, poly);
    let x192 = mul_mod(x128, x64, poly);
    let x256 = mul_mod(x128, x128, poly);
    let x512 = mul_mod(x256, x256, poly);
    let x576 = mul_mod(x512, x64, poly);
    let u = 0x1_0000_0000 | long_division(poly << 32, poly).0;
    seq![x576, x512, x192, x128, x96, x64, u]
}

/// The folding constants `[k1', k2', k3', k4', k5', k6', u']` of `poly`
/// (33 bits, leading bit included), each reflected over 33 bits: `k1, k2`
/// fold four lanes, `k3, k4` fold one lane, `k5, k6` reduce 128 bits to 64,
/// and `u` is the Barrett constant.
pub open spec fn simd_reflected_constants(poly: u64) -> Seq<u64> {
    let x32 = long_division(0x1_0000_0000, poly).1;
    let x64 = mul_mod(x32, x32, poly);
    let x96 = mul_mod(x64, x32, poly);
    let x160 = mul_mod(x96, x64, poly);
    let x224 = mul_mod(x160, x64, poly);
    let x256 = mul_mod(x224, x32, poly);
    let x480 = mul_mod(x256, x224, poly);
    let x544 = mul_mod(x480, x64, poly);
    let u = 0x1_0000_0000 | long_division(poly << 32, poly).0;
    seq![
        reverse33(x544),
        reverse33(x480),
        reverse33(x160),
        reverse33(x96),
        reverse33(x64),
        reverse33(x32),
        reverse33(u),
    ]
}

} // verus!
