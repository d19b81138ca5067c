//! The 32-bit engines for any generator polynomial.
use vstd::prelude::*;
use crate::check32::model::{
    bit_steps, carried, crc32_spec, crc_raw, is_byte_table, is_slicing_table,
    lemma_byte_step_lookup, lemma_byte_step_zero, lemma_crc_raw_append, lemma_crc_raw_push,
    lemma_slice16, lemma_slice_entry_next, lemma_slice_entry_zero, lemma_table_poly, reflect32,
    slice_entry, slice_xor, table_poly,
};
use crate::check32::Crc32Digest;
use crate::check32::engine::{run_spec, Engine32, Strategy};
use crate::check32::fold::{compute_crc, fold_spec};
use crate::check32::poly::{
    clmul, div_steps, long_division, mul_mod, reverse33, simd_constants, simd_reflected_constants,
};

verus! {

/// `x` with its 32 bits in reverse order.
pub fn reverse_bits32(x: u32) -> (r: u32)
    ensures
        r == reflect32(x),
{
    let x = ((x >> 1) & 0x5555_5555) | ((x & 0x5555_5555) << 1);
    let x = ((x >> 2) & 0x3333_3333) | ((x & 0x3333_3333) << 2);
    let x = ((x >> 4) & 0x0F0F_0F0F) | ((x & 0x0F0F_0F0F) << 4);
    let x = ((x >> 8) & 0x00FF_00FF) | ((x & 0x00FF_00FF) << 8);
    (x >> 16) | (x << 16)
}

/// A CRC-32 digest with a generator chosen at run time; its tables and
/// folding constants are built when it is made.
pub struct CustomCrc32 {
    state: u32,
    engine: Engine32,
}

impl Crc32Digest for CustomCrc32 {
    closed spec fn value(&self) -> u32 {
        self.state
    }

    closed spec fn fed(&self, data: Seq<u8>) -> Self {
        CustomCrc32 {
            state: run_spec(self.engine.strategy(), self.engine.polynomial(), self.state, data),
            engine: self.engine,
        }
    }

    fn update(&mut self, data: &[u8]) {
        proof {
            use_type_invariant(&*self);
        }
        self.state = self.engine.run(self.state, data);
    }

    fn digest(&self) -> (r: u32) {
        self.state
    }
}

impl CustomCrc32 {
    #[verifier::type_invariant]
    spec fn inv(&self) -> bool {
        self.engine.wf()
    }

    /// The strategy this digest computes by.
    pub closed spec fn strategy(&self) -> Strategy {
        self.engine.strategy()
    }

    /// The generator, normal form, leading bit implicit.
    pub closed spec fn polynomial(&self) -> u32 {
        self.engine.polynomial()
    }

    /// A digest for the generator `polynomial`, computed bit by bit.
    pub fn new_naive(polynomial: u32) -> (r: Self)
        ensures
            r.value() == 0,
            r.strategy() == Strategy::Naive,
            r.polynomial() == polynomial,
    {
        CustomCrc32 { state: 0, engine: Engine32::new(polynomial, Strategy::Naive) }
    }

    /// A digest for the generator `polynomial`, computed through lookup tables.
    pub fn new_lookup(polynomial: u32) -> (r: Self)
        ensures
            r.value() == 0,
            r.strategy() == Strategy::Lookup,
            r.polynomial() == polynomial,
    {
        CustomCrc32 { state: 0, engine: Engine32::new(polynomial, Strategy::Lookup) }
    }

    /// A digest for the generator `polynomial`, computed by carry-less
    /// folding. The generator may be given with its leading bit `x^32` (33
    /// bits) or without it (32 bits).
    pub fn new_simd(polynomial: u64) -> (r: Self)
        ensures
            r.value() == 0,
            r.strategy() == Strategy::Simd,
            r.polynomial() == polynomial as u32,
    {
        CustomCrc32 { state: 0, engine: Engine32::new(polynomial as u32, Strategy::Simd) }
    }

    /// What feeding `data` does: the digest continues by the strategy, with
    /// the same generator.
    pub proof fn lemma_fed(self, data: Seq<u8>)
        ensures
            self.fed(data).value() == run_spec(
                self.strategy(),
                self.polynomial(),
                self.value(),
                data,
            ),
            self.fed(data).strategy() == self.strategy(),
            self.fed(data).polynomial() == self.polynomial(),
    {
    }

    /// The bitwise reference engine: continues the digest `prev_crc` over `data`
    /// with the generator `polynomial` (normal form).
    pub fn crc32_naive(prev_crc: u32, polynomial: u32, data: &[u8]) -> (r: u32)
        ensures
            r == crc32_spec(prev_crc, polynomial, data@),
    {
        let mut crc = !prev_crc;
        let rev = reverse_bits32(polynomial);
        let mut i: usize = 0;
        while i < data.len()
            invariant
                i <= data@.len(),
                crc == crc_raw(!prev_crc, rev, data@.take(i as int)),
                rev == reflect32(polynomial),
            decreases data@.len() - i,
        {
            let start = crc ^ (data[i] as u32);
            crc = start;
            let mut j: usize = 0;
            while j < 8
                invariant
                    j <= 8,
                    crc == bit_steps(start, rev, j as nat),
                decreases 8 - j,
            {
                if crc & 1u32 == 1u32 {
                    crc = (crc >> 1) ^ rev;
                } else {
                    crc = crc >> 1;
                }
                j += 1;
            }
            proof {
                lemma_crc_raw_push(!prev_crc, rev, data@.take(i as int), data@[i as int]);
                assert(data@.take(i as int).push(data@[i as int]) =~= data@.take(i + 1));
            }
            i += 1;
        }
        proof {
            assert(data@.take(i as int) =~= data@);
        }
        !crc
    }

    /// The slicing-by-16 engine: continues the digest `prev_crc` over `data`
    /// with the polynomial that `lookup_table` was built from, sixteen bytes
    /// per step and then one byte per step.
    pub fn crc32_lookup(prev_crc: u32, lookup_table: &[[u32; 256]; 16], data: &[u8]) -> (r: u32)
        requires
            is_slicing_table(*lookup_table, table_poly(*lookup_table)),
        ensures
            r == !crc_raw(!prev_crc, table_poly(*lookup_table), data@),
    {
        let ghost p = table_poly(*lookup_table);
        let t = lookup_table;
        let mut crc: u32 = !prev_crc;
        let mut i: usize = 0;
        while data.len() - i >= 16
            invariant
                i <= data@.len(),
                crc == crc_raw(!prev_crc, p, data@.take(i as int)),
                is_slicing_table(*t, p),
            decreases data@.len() - i,
        {
            let ghost blk = data@.subrange(i as int, i + 16);
            proof {
                lemma_slice16(*t, p, crc, blk);
                reveal_with_fuel(slice_xor, 17);
                assert(crc >> 0u32 == crc) by (bit_vector);
                assert(carried(crc, blk, 0) == data[i as int] ^ (crc as u8));
            }
            crc = t[15][(data[i] ^ (crc as u8)) as usize]
                ^ t[14][(data[i + 1] ^ ((crc >> 8) as u8)) as usize]
                ^ t[13][(data[i + 2] ^ ((crc >> 16) as u8)) as usize]
                ^ t[12][(data[i + 3] ^ ((crc >> 24) as u8)) as usize]
                ^ t[11][data[i + 4] as usize]
                ^ t[10][data[i + 5] as usize]
                ^ t[9][data[i + 6] as usize]
                ^ t[8][data[i + 7] as usize]
                ^ t[7][data[i + 8] as usize]
                ^ t[6][data[i + 9] as usize]
                ^ t[5][data[i + 10] as usize]
                ^ t[4][data[i + 11] as usize]
                ^ t[3][data[i + 12] as usize]
                ^ t[2][data[i + 13] as usize]
                ^ t[1][data[i + 14] as usize]
                ^ t[0][data[i + 15] as usize];
            proof {
                lemma_crc_raw_append(!prev_crc, p, data@.take(i as int), blk);
                assert(data@.take(i as int) + blk =~= data@.take(i + 16));
            }
            i += 16;
        }
        while i < data.len()
            invariant
                i <= data@.len(),
                crc == crc_raw(!prev_crc, p, data@.take(i as int)),
                is_slicing_table(*t, p),
            decreases data@.len() - i,
        {
            let b = data[i];
            proof {
                lemma_byte_step_lookup(crc, p, b);
                lemma_slice_entry_zero(p, (crc as u8) ^ b);
                assert(t[0][((crc as u8) ^ b) as int] == slice_entry(p, 0, (crc as u8) ^ b));
                lemma_crc_raw_push(!prev_crc, p, data@.take(i as int), b);
                assert(data@.take(i as int).push(b) =~= data@.take(i + 1));
            }
            crc = (crc >> 8) ^ t[0][((crc as u8) ^ b) as usize];
            i += 1;
        }
        proof {
            assert(data@.take(i as int) =~= data@);
        }
        !crc
    }

    /// The byte table of `polynomial`: entry `i` is the register after eight
    /// steps from `i`, with the reflected polynomial.
    pub fn generate_lookup_table(polynomial: u32) -> (r: [u32; 256])
        ensures
            is_byte_table(r, reflect32(polynomial)),
    {
        let mut table: [u32; 256] = [0; 256];
        let rev = reverse_bits32(polynomial);
        let mut length: u32 = 0;
        while length < 256
            invariant
                length <= 256,
                rev == reflect32(polynomial),
                forall|i: int| 0 <= i < length ==> #[trigger] table[i] == bit_steps(i as u32, rev, 8),
            decreases 256 - length,
        {
            let mut crc = length;
            let mut j: u32 = 0;
            while j < 8
                invariant
                    j <= 8,
                    crc == bit_steps(length, rev, j as nat),
                decreases 8 - j,
            {
                if crc & 1u32 == 1u32 {
                    crc = (crc >> 1) ^ rev;
                } else {
                    crc = crc >> 1;
                }
                j += 1;
            }
            table[length as usize] = crc;
            length += 1;
        }
        table
    }

    /// The slicing-by-16 table of `polynomial`: row 0 is the byte table, and
    /// row `j` extends row `j - 1` by one zero byte.
    pub fn generate_lookup_table_16(polynomial: u32) -> (r: [[u32; 256]; 16])
        ensures
            is_slicing_table(r, reflect32(polynomial)),
            table_poly(r) == reflect32(polynomial),
    {
        let ghost p = reflect32(polynomial);
        let t0 = Self::generate_lookup_table(polynomial);
        let mut table: [[u32; 256]; 16] = [t0; 16];
        proof {
            assert forall|i: int| 0 <= i < 256 implies #[trigger] table[0][i] == slice_entry(
                p,
                0,
                i as u8,
            ) by {
                lemma_slice_entry_zero(p, i as u8);
                assert((i as u8) as u32 == i as u32);
            }
            lemma_table_poly(p);
        }
        let mut j: usize = 1;
        while j < 16
            invariant
                1 <= j <= 16,
                is_byte_table(t0, p),
                table[0] == t0,
                forall|k: int, i: int|
                    0 <= k < j && 0 <= i < 256 ==> #[trigger] table[k][i] == slice_entry(
                        p,
                        k as nat,
                        i as u8,
                    ),
            decreases 16 - j,
        {
            let mut row: [u32; 256] = [0; 256];
            let mut i: usize = 0;
            while i < 256
                invariant
                    1 <= j < 16,
                    i <= 256,
                    is_byte_table(t0, p),
                    forall|k: int, l: int|
                        0 <= k < j && 0 <= l < 256 ==> #[trigger] table[k][l] == slice_entry(
                            p,
                            k as nat,
                            l as u8,
                        ),
                    forall|l: int| 0 <= l < i ==> #[trigger] row[l] == slice_entry(
                        p,
                        j as nat,
                        l as u8,
                    ),
                decreases 256 - i,
            {
                let c = table[j - 1][i];
                proof {
                    lemma_slice_entry_next(p, (j - 1) as nat, i as u8);
                    lemma_byte_step_zero(c, p);
                }
                row[i] = (c >> 8) ^ t0[(c as u8) as usize];
                i += 1;
            }
            table[j] = row;
            j += 1;
        }
        table
    }

    /// The folding engine, on the constants of a polynomial and its reflected
    /// 33-bit form: the digest over the bulk of `data` and the tail it leaves.
    pub fn crc32_simd<'a>(
        prev_crc: u32,
        constants: &[u64; 7],
        rev_polynomial: u64,
        data: &'a [u8],
    ) -> (r: (u32, &'a [u8]))
        ensures
            r.0 == fold_spec(prev_crc, constants@, rev_polynomial, data@).0,
            r.1@ == data@.skip(fold_spec(prev_crc, constants@, rev_polynomial, data@).1),
    {
        compute_crc(prev_crc, constants, rev_polynomial, data)
    }

    /// The powers of `x` modulo `polynomial` (33 bits, leading bit included)
    /// used for folding, in normal form.
    pub fn generate_simd_constants(polynomial: u64) -> (r: [u64; 7])
        ensures
            r@ == simd_constants(polynomial),
    {
        let x32 = Self::division(0x1_0000_0000, polynomial).1;
        let x64 = Self::mul_mod(x32, x32, polynomial);
        let x96 = Self::mul_mod(x64, x32, polynomial);
        let x128 = Self::mul_mod(x64, x64, polynomial);
        let x192 = Self::mul_mod(x128, x64, polynomial);
        let x256 = Self::mul_mod(x128, x128, polynomial);
        let x512 = Self::mul_mod(x256, x256, polynomial);
        let x576 = Self::mul_mod(x512, x64, polynomial);
        let u = 0x1_0000_0000 | Self::division(polynomial << 32, polynomial).0;
        let mut constants: [u64; 7] = [0; 7];
        constants[0] = x576;
        constants[1] = x512;
        constants[2] = x192;
        constants[3] = x128;
        constants[4] = x96;
        constants[5] = x64;
        constants[6] = u;
        proof {
            assert(constants@ =~= simd_constants(polynomial));
        }
        constants
    }

    /// The reflected folding constants `[k1', k2', k3', k4', k5', k6', u']` of
    /// `polynomial` (33 bits, leading bit included).
    pub fn generate_simd_reflected_constants(polynomial: u64) -> (r: [u64; 7])
        ensures
            r@ == simd_reflected_constants(polynomial),
    {
        let x32 = Self::division(0x1_0000_0000, polynomial).1;
        let x64 = Self::mul_mod(x32, x32, polynomial);
        // x^(128 - 32) and x^(128 + 32)
        let x96 = Self::mul_mod(x64, x32, polynomial);
        let x160 = Self::mul_mod(x96, x64, polynomial);
        // x^(4 * 128 - 32) and x^(4 * 128 + 32)
        let x224 = Self::mul_mod(x160, x64, polynomial);
        let x256 = Self::mul_mod(x224, x32, polynomial);
        let x480 = Self::mul_mod(x256, x224, polynomial);
        let x544 = Self::mul_mod(x480, x64, polynomial);
        let u = 0x1_0000_0000 | Self::division(polynomial << 32, polynomial).0;
        let mut constants: [u64; 7] = [0; 7];
        constants[0] = Self::reverse_constant(x544);
        constants[1] = Self::reverse_constant(x480);
        constants[2] = Self::reverse_constant(x160);
        constants[3] = Self::reverse_constant(x96);
        constants[4] = Self::reverse_constant(x64);
        constants[5] = Self::reverse_constant(x32);
        constants[6] = Self::reverse_constant(u);
        proof {
            assert(constants@ =~= simd_reflected_constants(polynomial));
        }
        constants
    }

    /// The product of `a` and `b`, reduced modulo `polynomial`.
    fn mul_mod(a: u64, b: u64, polynomial: u64) -> (r: u64)
        ensures
            r == mul_mod(a, b, polynomial),
    {
        Self::division(Self::carry_less_mul(a, b), polynomial).1
    }

    /// The low 33 bits of `constant` in reverse order.
    pub fn reverse_constant(constant: u64) -> (r: u64)
        ensures
            r == reverse33(constant),
    {
        ((reverse_bits32(constant as u32) as u64) << 1) | ((constant >> 32) & 1)
    }

    /// Binary long division of `dividend * x^32` by the 33-bit `polynomial`:
    /// `(quotient, remainder)`.
    pub fn division(dividend: u64, polynomial: u64) -> (r: (u64, u64))
        ensures
            r == long_division(dividend, polynomial),
    {
        let mut remainder = dividend;
        let mut quotient: u64 = 0;
        let mut count: u32 = 0;
        while count < 32
            invariant
                count <= 32,
                (remainder, quotient) == div_steps(dividend, polynomial, count as nat),
            decreases 32 - count,
        {
            let msb = remainder >> 63;
            quotient = (quotient << 1) ^ msb;
            remainder = (remainder << 1) ^ (if msb == 1 {
                polynomial << 32
            } else {
                0
            });
            count += 1;
        }
        (quotient, remainder >> 32)
    }

    /// The carry-less product of `a` and the low 32 bits of `b`.
    pub fn carry_less_mul(a: u64, b: u64) -> (r: u64)
        ensures
            r == clmul(a, b, 32),
    {
        let mut result: u64 = 0;
        let mut count: u64 = 0;
        while count < 32
            invariant
                count <= 32,
                result == clmul(a, b, count as nat),
            decreases 32 - count,
        {
            if (b >> count) & 1 == 1 {
                result = result ^ (a << count);
            }
            count += 1;
        }
        result
    }
}

} // verus!
