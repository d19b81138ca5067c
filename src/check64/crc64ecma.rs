//! CRC-64 (ECMA-182, as in XZ): generator `0x42F0E1EBA9EA3693`, reflected.
use vstd::prelude::*;
use crate::check32::engine::Strategy;
use crate::check64::Crc64Digest;
use crate::check64::engine::Engine64;
use crate::check64::model::crc64_spec;

verus! {

/// The CRC-64/ECMA generator, normal form.
pub const CRC64_POLYNOMIAL: u64 = 0x42F0E1EBA9EA3693;

pub struct Crc64ECMA {
    state: u64,
    engine: Engine64,
}

impl Crc64ECMA {
    #[verifier::type_invariant]
    spec fn inv(&self) -> bool {
        &&& self.engine.wf()
        &&& self.engine.polynomial() == CRC64_POLYNOMIAL
    }

    /// The strategy this digest computes by.
    pub closed spec fn strategy(&self) -> Strategy {
        self.engine.strategy()
    }

    /// Creates a new `Crc64ECMA` using naive approach
    pub fn new_naive() -> (r: Self)
        ensures
            r.value() == 0,
            r.strategy() == Strategy::Naive,
    {
        Crc64ECMA { state: 0, engine: Engine64::new(CRC64_POLYNOMIAL, Strategy::Naive) }
    }

    /// Creates a new `Crc64ECMA` using a table lookup approach
    pub fn new_lookup() -> (r: Self)
        ensures
            r.value() == 0,
            r.strategy() == Strategy::Lookup,
    {
        Crc64ECMA { state: 0, engine: Engine64::new(CRC64_POLYNOMIAL, Strategy::Lookup) }
    }

    /// Continues the CRC-64 `prev_crc` over `data`, bit by bit.
    pub fn compute_naive(prev_crc: u64, data: &[u8]) -> (r: u64)
        ensures
            r == crc64_spec(prev_crc, CRC64_POLYNOMIAL, data@),
    {
        Engine64::new(CRC64_POLYNOMIAL, Strategy::Naive).run(prev_crc, data)
    }

    /// Continues the CRC-64 `prev_crc` over `data`, through the lookup tables.
    pub fn compute_lookup(prev_crc: u64, data: &[u8]) -> (r: u64)
        ensures
            r == crc64_spec(prev_crc, CRC64_POLYNOMIAL, data@),
    {
        Engine64::new(CRC64_POLYNOMIAL, Strategy::Lookup).run(prev_crc, data)
    }

    /// What feeding `data` does: the CRC-64 continues over it, and the
    /// strategy stays as it was.
    pub proof fn lemma_fed(self, data: Seq<u8>)
        ensures
            self.fed(data).value() == crc64_spec(self.value(), CRC64_POLYNOMIAL, data),
            self.fed(data).strategy() == self.strategy(),
    {
    }
}

impl Crc64Digest for Crc64ECMA {
    closed spec fn value(&self) -> u64 {
        self.state
    }

    closed spec fn fed(&self, data: Seq<u8>) -> Self {
        Crc64ECMA { state: crc64_spec(self.state, CRC64_POLYNOMIAL, data), engine: self.engine }
    }

    fn update(&mut self, data: &[u8]) {
        proof {
            use_type_invariant(&*self);
        }
        self.state = self.engine.run(self.state, data);
    }

    fn digest(&self) -> (r: u64) {
        self.state
    }
}

} // verus!
