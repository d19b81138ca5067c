//! The strategy dispatch shared by the 64-bit digests.
use vstd::prelude::*;
use crate::check32::engine::Strategy;
use crate::check64::custom_crc64::CustomCrc64;
use crate::check64::model::{crc64_spec, is_slicing_table, reflect64, table_poly};

verus! {

pub struct Engine64 {
    polynomial: u64,
    strategy: Strategy,
    table: [[u64; 256]; 16],
}

impl Engine64 {
    /// The tables are those of the generator, for every strategy that uses them.
    pub closed spec fn wf(&self) -> bool {
        self.strategy != Strategy::Naive ==> {
            &&& is_slicing_table(self.table, reflect64(self.polynomial))
            &&& table_poly(self.table) == reflect64(self.polynomial)
        }
    }

    pub closed spec fn polynomial(&self) -> u64 {
        self.polynomial
    }

    pub closed spec fn strategy(&self) -> Strategy {
        self.strategy
    }

    /// An engine for the generator `polynomial` (normal form, leading bit
    /// implicit) that computes by `strategy`. There is no 64-bit folding or
    /// native engine: those strategies compute through the tables.
    pub fn new(polynomial: u64, strategy: Strategy) -> (r: Self)
        ensures
            r.wf(),
            r.polynomial() == polynomial,
            r.strategy() == strategy,
    {
        let table = if strategy == Strategy::Naive {
            [[0u64; 256]; 16]
        } else {
            CustomCrc64::generate_lookup_table_16(polynomial)
        };
        Engine64 { polynomial, strategy, table }
    }

    /// Continues the digest `prev` over `data`.
    pub fn run(&self, prev: u64, data: &[u8]) -> (r: u64)
        requires
            self.wf(),
        ensures
            r == crc64_spec(prev, self.polynomial(), data@),
    {
        if self.strategy == Strategy::Naive {
            CustomCrc64::crc64_naive(prev, self.polynomial, data)
        } else {
            CustomCrc64::crc64_lookup(prev, &self.table, data)
        }
    }
}

} // verus!
