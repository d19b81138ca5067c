//! Polynomial arithmetic over GF(2) for the 64-bit family, on double-width
//! words: a polynomial is a word whose bit `i` is the coefficient of `x^i`.
use vstd::prelude::*;
use crate::check64::model::reflect64;

verus! {

/// The state (remainder register, quotient) of binary long division after `n`
/// steps: each step shifts the register left by one and, when the bit shifted
/// out was set, subtracts (XORs) the divisor aligned with the register's top.
pub open spec fn div_steps(dividend: u128, poly: u128, n: nat) -> (u128, u128)
    decreases n,
{
    if n == 0 {
        (dividend, 0)
    } else {
        let (r, q) = div_steps(dividend, poly, (n - 1) as nat);
        let msb = r >> 127;
        ((r << 1) ^ (if msb == 1 {
            poly << 64
        } else {
            0
        }), (q << 1) ^ msb)
    }
}

/// `(quotient, remainder)` of dividing `dividend * x^64` by the 65-bit
/// polynomial `poly`, in 64 steps of long division.
pub open spec fn long_division(dividend: u128, poly: u128) -> (u128, u128) {
    let (r, q) = div_steps(dividend, poly, 64);
    (q, r >> 64)
}

/// The carry-less product of `a` and the low `n` bits of `b`: for each set
/// bit `i` of `b`, a copy of `a` shifted left by `i`, all XORed together.
pub open spec fn clmul(a: u128, b: u128, n: nat) -> u128
    decreases n,
{
    if n == 0 {
        0
    } else {
        let r = clmul(a, b, (n - 1) as nat);
        if (b >> ((n - 1) as u128)) & 1 == 1 {
            r ^ (a << ((n - 1) as u128))
        } else {
            r
        }
    }
}

/// The product of `a` and `b` (64-bit factors), reduced modulo `poly`.
pub open spec fn mul_mod(a: u128, b: u128, poly: u128) -> u128 {
    long_division(clmul(a, b, 64), poly).1
}

/// The low 65 bits of `c` in reverse order, truncated to 64 bits.
pub open spec fn reverse65(c: u128) -> u64 {
    (reflect64(c as u64) << 1) | (((c >> 64) as u64) & 1)
}

/// The 64-bit generator `poly` with its implicit leading bit `x^64`.
pub open spec fn widened(poly: u64) -> u128 {
    0x1_0000_0000_0000_0000 | (poly as u128)
}

/// The reflected folding constants of the 64-bit generator `poly` (normal
/// form, leading bit implicit), each reflected over 65 bits.
pub open spec fn simd_reflected_constants(poly: u64) -> Seq<u64> {
    let p = widened(poly);
    let x32 = long_division(0x1_0000_0000, p).1;
    let x64 = mul_mod(x32, x32, p);
    let x128 = mul_mod(x64, x64, p);
    let x96 = mul_mod(x64, x32, p);
    let x160 = mul_mod(x96, x64, p);
    let x224 = mul_mod(x160, x64, p);
    let x256 = mul_mod(x224, x32, p);
    let x480 = mul_mod(x256, x224, p);
    let x544 = mul_mod(x480, x64, p);
    let u = 0x1_0000_0000_0000_0000 | long_division(p << 64, p).0;
    seq![
        reverse65(x544),
        reverse65(x480),
        reverse65(x160),
        reverse65(x96),
        reverse65(x96),
        reverse65(x128),
        reverse65(u),
    ]
}

} // verus!
