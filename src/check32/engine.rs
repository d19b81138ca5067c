//! The strategy dispatch shared by the 32-bit digests: a generator polynomial,
//! the strategy chosen for it, and the tables and constants that the strategy
//! needs, built once when the engine is made.
use vstd::prelude::*;
use crate::check32::custom_crc32::CustomCrc32;
use crate::check32::fold::fold_spec;
use crate::check32::model::{crc32_spec, is_slicing_table, reflect32, table_poly};
use crate::check32::poly::{reverse33, simd_reflected_constants};

verus! {

/// How a digest computes: bit by bit, through slicing-by-16 tables, through
/// the native CRC instructions, or by carry-less folding.
#[derive(Clone, Copy, Debug, PartialEq, Eq, Structural)]
pub enum Strategy {
    Naive,
    Lookup,
    Hardware,
    Simd,
}

/// The 33-bit form of a 32-bit generator: its implicit leading bit `x^32`
/// made explicit, as the folding constants are derived from it.
pub open spec fn widen(poly: u32) -> u64 {
    0x1_0000_0000 | (poly as u64)
}

/// What an engine of `strategy` computes from the digest `prev` over `data`
/// with the generator `poly`. The folding engine takes the bulk of `data`
/// and a table engine the rest; every other strategy computes the CRC itself.
pub open spec fn run_spec(strategy: Strategy, poly: u32, prev: u32, data: Seq<u8>) -> u32 {
    match strategy {
        Strategy::Simd => {
            let w = widen(poly);
            let (c, n) = fold_spec(prev, simd_reflected_constants(w), reverse33(w), data);
            crc32_spec(c, poly, data.skip(n))
        },
        _ => crc32_spec(prev, poly, data),
    }
}

pub struct Engine32 {
    polynomial: u32,
    strategy: Strategy,
    table: [[u32; 256]; 16],
    constants: [u64; 7],
    rev_polynomial: u64,
}

impl Engine32 {
    /// The tables and constants are those of the generator, for every
    /// strategy that uses them.
    pub closed spec fn wf(&self) -> bool {
        &&& (self.strategy != Strategy::Naive ==> {
            &&& is_slicing_table(self.table, reflect32(self.polynomial))
            &&& table_poly(self.table) == reflect32(self.polynomial)
        })
        &&& (self.strategy == Strategy::Simd ==> {
            &&& self.constants@ == simd_reflected_constants(widen(self.polynomial))
            &&& self.rev_polynomial == reverse33(widen(self.polynomial))
        })
    }

    pub closed spec fn polynomial(&self) -> u32 {
        self.polynomial
    }

    pub closed spec fn strategy(&self) -> Strategy {
        self.strategy
    }

    /// An engine for the generator `polynomial` (normal form, leading bit
    /// implicit) that computes by `strategy`.
    pub fn new(polynomial: u32, strategy: Strategy) -> (r: Self)
        ensures
            r.wf(),
            r.polynomial() == polynomial,
            r.strategy() == strategy,
    {
        let table = if strategy == Strategy::Naive {
            [[0u32; 256]; 16]
        } else {
            CustomCrc32::generate_lookup_table_16(polynomial)
        };
        let wide: u64 = 0x1_0000_0000 | (polynomial as u64);
        let (constants, rev_polynomial) = if strategy == Strategy::Simd {
            (
                CustomCrc32::generate_simd_reflected_constants(wide),
                CustomCrc32::reverse_constant(wide),
            )
        } else {
            ([0u64; 7], 0u64)
        };
        Engine32 { polynomial, strategy, table, constants, rev_polynomial }
    }

    /// Continues the digest `prev` over `data`.
    pub fn run(&self, prev: u32, data: &[u8]) -> (r: u32)
        requires
            self.wf(),
        ensures
            r == run_spec(self.strategy(), self.polynomial(), prev, data@),
    {
        match self.strategy {
            Strategy::Naive => CustomCrc32::crc32_naive(prev, self.polynomial, data),
            Strategy::Lookup => CustomCrc32::crc32_lookup(prev, &self.table, data),
            // the native CRC instructions are reached only through `unsafe`
            // intrinsics, so this engine computes with the tables
            Strategy::Hardware => CustomCrc32::crc32_lookup(prev, &self.table, data),
            Strategy::Simd => {
                let (crc, tail) = CustomCrc32::crc32_simd(
                    prev,
                    &self.constants,
                    self.rev_polynomial,
                    data,
                );
                CustomCrc32::crc32_lookup(crc, &self.table, tail)
            },
        }
    }
}

} // verus!
