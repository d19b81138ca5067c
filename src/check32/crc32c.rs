//! CRC-32C (Castagnoli): generator `0x1EDC6F41`, reflected.
use vstd::prelude::*;
use crate::check32::Crc32Digest;
use crate::check32::engine::{run_spec, Engine32, Strategy};
use crate::check32::model::crc32_spec;

verus! {

/// The CRC-32C generator, normal form.
pub const CRC32C_POLYNOMIAL: u32 = 0x1EDC6F41;

pub struct Crc32C {
    state: u32,
    engine: Engine32,
}

impl Crc32C {
    #[verifier::type_invariant]
    spec fn inv(&self) -> bool {
        &&& self.engine.wf()
        &&& self.engine.polynomial() == CRC32C_POLYNOMIAL
    }

    /// The strategy this digest computes by.
    pub closed spec fn strategy(&self) -> Strategy {
        self.engine.strategy()
    }

    fn with_strategy(strategy: Strategy) -> (r: Self)
        ensures
            r.value() == 0,
            r.strategy() == strategy,
    {
        Crc32C { state: 0, engine: Engine32::new(CRC32C_POLYNOMIAL, strategy) }
    }

    /// Creates a new `Crc32C` using naive approach
    pub fn new() -> (r: Self)
        ensures
            r.value() == 0,
            r.strategy() == Strategy::Naive,
    {
        Self::with_strategy(Strategy::Naive)
    }

    /// Creates a new `Crc32C` using naive approach
    pub fn new_naive() -> (r: Self)
        ensures
            r.value() == 0,
            r.strategy() == Strategy::Naive,
    {
        Self::with_strategy(Strategy::Naive)
    }

    /// Creates a new `Crc32C` using a table lookup approach
    pub fn new_lookup() -> (r: Self)
        ensures
            r.value() == 0,
            r.strategy() == Strategy::Lookup,
    {
        Self::with_strategy(Strategy::Lookup)
    }

    /// Creates a new `Crc32C` using the hardware approach; without native CRC
    /// instructions it computes through the lookup tables.
    pub fn new_hardware() -> (r: Self)
        ensures
            r.value() == 0,
            r.strategy() == Strategy::Hardware,
    {
        Self::with_strategy(Strategy::Hardware)
    }

    /// Creates a new `Crc32C` using carry-less folding, with the lookup tables
    /// for what remains under 16 bytes
    pub fn new_simd() -> (r: Self)
        ensures
            r.value() == 0,
            r.strategy() == Strategy::Simd,
    {
        Self::with_strategy(Strategy::Simd)
    }

    /// Continues the CRC-32C `prev_crc` over `data`, bit by bit.
    pub fn compute_naive(prev_crc: u32, data: &[u8]) -> (r: u32)
        ensures
            r == crc32_spec(prev_crc, CRC32C_POLYNOMIAL, data@),
    {
        Engine32::new(CRC32C_POLYNOMIAL, Strategy::Naive).run(prev_crc, data)
    }

    /// Continues the CRC-32C `prev_crc` over `data`, through the lookup tables.
    pub fn compute_lookup(prev_crc: u32, data: &[u8]) -> (r: u32)
        ensures
            r == crc32_spec(prev_crc, CRC32C_POLYNOMIAL, data@),
    {
        Engine32::new(CRC32C_POLYNOMIAL, Strategy::Lookup).run(prev_crc, data)
    }

    /// Continues the CRC-32C `prev_crc` over `data` by the hardware strategy.
    pub fn compute_hardware(prev_crc: u32, data: &[u8]) -> (r: u32)
        ensures
            r == crc32_spec(prev_crc, CRC32C_POLYNOMIAL, data@),
    {
        Engine32::new(CRC32C_POLYNOMIAL, Strategy::Hardware).run(prev_crc, data)
    }

    /// Continues the CRC-32C `prev_crc` over `data` by carry-less folding.
    pub fn compute_simd(prev_crc: u32, data: &[u8]) -> (r: u32)
        ensures
            r == run_spec(Strategy::Simd, CRC32C_POLYNOMIAL, prev_crc, data@),
    {
        Engine32::new(CRC32C_POLYNOMIAL, Strategy::Simd).run(prev_crc, data)
    }

    /// What feeding `data` does: the digest continues by the strategy, which
    /// stays as it was.
    pub proof fn lemma_fed(self, data: Seq<u8>)
        ensures
            self.fed(data).value() == run_spec(self.strategy(), CRC32C_POLYNOMIAL, self.value(), data),
            self.fed(data).strategy() == self.strategy(),
    {
    }
}

impl Crc32Digest for Crc32C {
    closed spec fn value(&self) -> u32 {
        self.state
    }

    closed spec fn fed(&self, data: Seq<u8>) -> Self {
        Crc32C {
            state: run_spec(self.engine.strategy(), CRC32C_POLYNOMIAL, self.state, data),
            engine: self.engine,
        }
    }

    fn update(&mut self, data: &[u8]) {
        proof {
            use_type_invariant(&*self);
        }
        self.state = self.engine.run(self.state, data);
    }

    fn digest(&self) -> (r: u32) {
        self.state
    }
}

} // verus!
