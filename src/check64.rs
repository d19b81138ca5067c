//! The 64-bit CRC family.
use vstd::prelude::*;

pub mod model;
pub mod poly;
pub mod custom_crc64;
pub mod engine;
pub mod crc64ecma;
pub mod crc64iso;
pub mod laws;

verus! {

/// A running 64-bit CRC digest.
pub trait Crc64Digest: Sized {
    /// The digest of the bytes fed so far.
    spec fn value(&self) -> u64;

    /// This digest once `data` has been fed as well.
    spec fn fed(&self, data: Seq<u8>) -> Self;

    /// Update digest with data
    fn update(&mut self, data: &[u8])
        ensures
            *final(self) == old(self).fed(data@),
    ;

    /// Returns crc64 digest
    fn digest(&self) -> (r: u64)
        ensures
            r == self.value(),
    ;
}

} // verus!
