//! The 64-bit engines for any generator polynomial.
use vstd::prelude::*;
use crate::check64::model::{
    bit_steps, carried, crc64_spec, crc_raw, is_byte_table, is_slicing_table,
    lemma_byte_step_lookup, lemma_byte_step_zero, lemma_crc_raw_append, lemma_crc_raw_push,
    lemma_slice16, lemma_slice_entry_next, lemma_slice_entry_zero, lemma_table_poly, reflect64,
    slice_entry, slice_xor, table_poly,
};
use crate::check64::poly::{
    clmul, div_steps, long_division, mul_mod, reverse65, simd_reflected_constants, widened,
};

verus! {

/// `x` with its 64 bits in reverse order.
pub fn reverse_bits64(x: u64) -> (r: u64)
    ensures
        r == reflect64(x),
{
    let x = ((x >> 1) & 0x5555_5555_5555_5555) | ((x & 0x5555_5555_5555_5555) << 1);
    let x = ((x >> 2) & 0x3333_3333_3333_3333) | ((x & 0x3333_3333_3333_3333) << 2);
    let x = ((x >> 4) & 0x0F0F_0F0F_0F0F_0F0F) | ((x & 0x0F0F_0F0F_0F0F_0F0F) << 4);
    let x = ((x >> 8) & 0x00FF_00FF_00FF_00FF) | ((x & 0x00FF_00FF_00FF_00FF) << 8);
    let x = ((x >> 16) & 0x0000_FFFF_0000_FFFF) | ((x & 0x0000_FFFF_0000_FFFF) << 16);
    (x >> 32) | (x << 32)
}

/// The 64-bit engines and the polynomial arithmetic behind them, as
/// associated functions on any generator.
pub struct CustomCrc64 {}

impl CustomCrc64 {
    /// The bitwise reference engine: continues the digest `prev_crc` over `data`
    /// with the generator `polynomial` (normal form).
    pub fn crc64_naive(prev_crc: u64, polynomial: u64, data: &[u8]) -> (r: u64)
        ensures
            r == crc64_spec(prev_crc, polynomial, data@),
    {
        let mut crc = !prev_crc;
        let rev = reverse_bits64(polynomial);
        let mut i: usize = 0;
        while i < data.len()
            invariant
                i <= data@.len(),
                crc == crc_raw(!prev_crc, rev, data@.take(i as int)),
                rev == reflect64(polynomial),
            decreases data@.len() - i,
        {
            let start = crc ^ (data[i] as u64);
            crc = start;
            let mut j: usize = 0;
            while j < 8
                invariant
                    j <= 8,
                    crc == bit_steps(start, rev, j as nat),
                decreases 8 - j,
            {
                if crc & 1u64 == 1u64 {
                    crc = (crc >> 1) ^ rev;
                } else {
                    crc = crc >> 1;
                }
                j += 1;
            }
            proof {
                lemma_crc_raw_push(!prev_crc, rev, data@.take(i as int), data@[i as int]);
                assert(data@.take(i as int).push(data@[i as int]) =~= data@.take(i + 1));
            }
            i += 1;
        }
        proof {
            assert(data@.take(i as int) =~= data@);
        }
        !crc
    }

    /// The slicing-by-16 engine: continues the digest `prev_crc` over `data`
    /// with the polynomial that `lookup_table` was built from, sixteen bytes
    /// per step and then one byte per step.
    pub fn crc64_lookup(prev_crc: u64, lookup_table: &[[u64; 256]; 16], data: &[u8]) -> (r: u64)
        requires
            is_slicing_table(*lookup_table, table_poly(*lookup_table)),
        ensures
            r == !crc_raw(!prev_crc, table_poly(*lookup_table), data@),
    {
        let ghost p = table_poly(*lookup_table);
        let t = lookup_table;
        let mut crc: u64 = !prev_crc;
        let mut i: usize = 0;
        while data.len() - i >= 16
            invariant
                i <= data@.len(),
                crc == crc_raw(!prev_crc, p, data@.take(i as int)),
                is_slicing_table(*t, p),
            decreases data@.len() - i,
        {
            let ghost blk = data@.subrange(i as int, i + 16);
            proof {
                lemma_slice16(*t, p, crc, blk);
                reveal_with_fuel(slice_xor, 17);
                assert(crc >> 0u64 == crc) by (bit_vector);
                assert(carried(crc, blk, 0) == data[i as int] ^ (crc as u8));
            }
            crc = t[15][(data[i] ^ (crc as u8)) as usize]
                ^ t[14][(data[i + 1] ^ ((crc >> 8) as u8)) as usize]
                ^ t[13][(data[i + 2] ^ ((crc >> 16) as u8)) as usize]
                ^ t[12][(data[i + 3] ^ ((crc >> 24) as u8)) as usize]
                ^ t[11][(data[i + 4] ^ ((crc >> 32) as u8)) as usize]
                ^ t[10][(data[i + 5] ^ ((crc >> 40) as u8)) as usize]
                ^ t[9][(data[i + 6] ^ ((crc >> 48) as u8)) as usize]
                ^ t[8][(data[i + 7] ^ ((crc >> 56) as u8)) as usize]
                ^ t[7][data[i + 8] as usize]
                ^ t[6][data[i + 9] as usize]
                ^ t[5][data[i + 10] as usize]
                ^ t[4][data[i + 11] as usize]
                ^ t[3][data[i + 12] as usize]
                ^ t[2][data[i + 13] as usize]
                ^ t[1][data[i + 14] as usize]
                ^ t[0][data[i + 15] as usize];
            proof {
                lemma_crc_raw_append(!prev_crc, p, data@.take(i as int), blk);
                assert(data@.take(i as int) + blk =~= data@.take(i + 16));
            }
            i += 16;
        }
        while i < data.len()
            invariant
                i <= data@.len(),
                crc == crc_raw(!prev_crc, p, data@.take(i as int)),
                is_slicing_table(*t, p),
            decreases data@.len() - i,
        {
            let b = data[i];
            proof {
                lemma_byte_step_lookup(crc, p, b);
                lemma_slice_entry_zero(p, (crc as u8) ^ b);
                assert(t[0][((crc as u8) ^ b) as int] == slice_entry(p, 0, (crc as u8) ^ b));
                lemma_crc_raw_push(!prev_crc, p, data@.take(i as int), b);
                assert(data@.take(i as int).push(b) =~= data@.take(i + 1));
            }
            crc = (crc >> 8) ^ t[0][((crc as u8) ^ b) as usize];
            i += 1;
        }
        proof {
            assert(data@.take(i as int) =~= data@);
        }
        !crc
    }

    /// The byte table of `polynomial`: entry `i` is the register after eight
    /// steps from `i`, with the reflected polynomial.
    pub fn generate_lookup_table(polynomial: u64) -> (r: [u64; 256])
        ensures
            is_byte_table(r, reflect64(polynomial)),
    {
        let mut table: [u64; 256] = [0; 256];
        let rev = reverse_bits64(polynomial);
        let mut length: u64 = 0;
        while length < 256
            invariant
                length <= 256,
                rev == reflect64(polynomial),
                forall|i: int| 0 <= i < length ==> #[trigger] table[i] == bit_steps(i as u64, rev, 8),
            decreases 256 - length,
        {
            let mut crc = length;
            let mut j: u64 = 0;
            while j < 8
                invariant
                    j <= 8,
                    crc == bit_steps(length, rev, j as nat),
                decreases 8 - j,
            {
                if crc & 1u64 == 1u64 {
                    crc = (crc >> 1) ^ rev;
                } else {
                    crc = crc >> 1;
                }
                j += 1;
            }
            table[length as usize] = crc;
            length += 1;
        }
        table
    }

    /// The slicing-by-16 table of `polynomial`: row 0 is the byte table, and
    /// row `j` extends row `j - 1` by one zero byte.
    pub fn generate_lookup_table_16(polynomial: u64) -> (r: [[u64; 256]; 16])
        ensures
            is_slicing_table(r, reflect64(polynomial)),
            table_poly(r) == reflect64(polynomial),
    {
        let ghost p = reflect64(polynomial);
        let t0 = Self::generate_lookup_table(polynomial);
        let mut table: [[u64; 256]; 16] = [t0; 16];
        proof {
            assert forall|i: int| 0 <= i < 256 implies #[trigger] table[0][i] == slice_entry(
                p,
                0,
                i as u8,
            ) by {
                lemma_slice_entry_zero(p, i as u8);
                assert((i as u8) as u64 == i as u64);
            }
            lemma_table_poly(p);
        }
        let mut j: usize = 1;
        while j < 16
            invariant
                1 <= j <= 16,
                is_byte_table(t0, p),
                table[0] == t0,
                forall|k: int, i: int|
                    0 <= k < j && 0 <= i < 256 ==> #[trigger] table[k][i] == slice_entry(
                        p,
                        k as nat,
                        i as u8,
                    ),
            decreases 16 - j,
        {
            let mut row: [u64; 256] = [0; 256];
            let mut i: usize = 0;
            while i < 256
                invariant
                    1 <= j < 16,
                    i <= 256,
                    is_byte_table(t0, p),
                    forall|k: int, l: int|
                        0 <= k < j && 0 <= l < 256 ==> #[trigger] table[k][l] == slice_entry(
                            p,
                            k as nat,
                            l as u8,
                        ),
                    forall|l: int| 0 <= l < i ==> #[trigger] row[l] == slice_entry(
                        p,
                        j as nat,
                        l as u8,
                    ),
                decreases 256 - i,
            {
                let c = table[j - 1][i];
                proof {
                    lemma_slice_entry_next(p, (j - 1) as nat, i as u8);
                    lemma_byte_step_zero(c, p);
                }
                row[i] = (c >> 8) ^ t0[(c as u8) as usize];
                i += 1;
            }
            table[j] = row;
            j += 1;
        }
        table
    }

    /// The reflected folding constants of the 64-bit generator `polynomial`
    /// (normal form); the leading bit `x^64` is added here.
    pub fn generate_simd_reflected_constants(polynomial: u64) -> (r: [u64; 7])
        ensures
            r@ == simd_reflected_constants(polynomial),
    {
        let p: u128 = 0x1_0000_0000_0000_0000 | (polynomial as u128);
        proof {
            assert(p == widened(polynomial));
        }
        let x32 = Self::division(0x1_0000_0000, p).1;
        let x64 = Self::mul_mod(x32, x32, p);
        let x128 = Self::mul_mod(x64, x64, p);
        // x^(128 - 32) and x^(128 + 32)
        let x96 = Self::mul_mod(x64, x32, p);
        let x160 = Self::mul_mod(x96, x64, p);
        // x^(4 * 128 - 32) and x^(4 * 128 + 32)
        let x224 = Self::mul_mod(x160, x64, p);
        let x256 = Self::mul_mod(x224, x32, p);
        let x480 = Self::mul_mod(x256, x224, p);
        let x544 = Self::mul_mod(x480, x64, p);
        let u = 0x1_0000_0000_0000_0000 | Self::division(p << 64, p).0;
        let mut constants: [u64; 7] = [0; 7];
        constants[0] = Self::reverse_constant(x544);
        constants[1] = Self::reverse_constant(x480);
        constants[2] = Self::reverse_constant(x160);
        constants[3] = Self::reverse_constant(x96);
        constants[4] = Self::reverse_constant(x96);
        constants[5] = Self::reverse_constant(x128);
        constants[6] = Self::reverse_constant(u);
        proof {
            assert(constants@ =~= simd_reflected_constants(polynomial));
        }
        constants
    }

    /// The product of `a` and `b`, reduced modulo `polynomial`.
    fn mul_mod(a: u128, b: u128, polynomial: u128) -> (r: u128)
        ensures
            r == mul_mod(a, b, polynomial),
    {
        Self::division(Self::carry_less_mul(a, b), polynomial).1
    }

    /// The low 65 bits of `constant` in reverse order, truncated to 64 bits.
    pub fn reverse_constant(constant: u128) -> (r: u64)
        ensures
            r == reverse65(constant),
    {
        (reverse_bits64(constant as u64) << 1) | (((constant >> 64) as u64) & 1)
    }

    /// Binary long division of `dividend * x^64` by the 65-bit `polynomial`:
    /// `(quotient, remainder)`.
    pub fn division(dividend: u128, polynomial: u128) -> (r: (u128, u128))
        ensures
            r == long_division(dividend, polynomial),
    {
        let mut remainder = dividend;
        let mut quotient: u128 = 0;
        let mut count: u32 = 0;
        while count < 64
            invariant
                count <= 64,
                (remainder, quotient) == div_steps(dividend, polynomial, count as nat),
            decreases 64 - count,
        {
            let msb = remainder >> 127;
            quotient = (quotient << 1) ^ msb;
            remainder = (remainder << 1) ^ (if msb == 1 {
                polynomial << 64
            } else {
                0
            });
            count += 1;
        }
        (quotient, remainder >> 64)
    }

    /// The carry-less product of `a` and the low 64 bits of `b`.
    pub fn carry_less_mul(a: u128, b: u128) -> (r: u128)
        ensures
            r == clmul(a, b, 64),
    {
        let mut result: u128 = 0;
        let mut count: u128 = 0;
        while count < 64
            invariant
                count <= 64,
                result == clmul(a, b, count as nat),
            decreases 64 - count,
        {
            if (b >> count) & 1 == 1 {
                result = result ^ (a << count);
            }
            count += 1;
        }
        result
    }
}

} // verus!
