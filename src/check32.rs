//! The 32-bit CRC family.
use vstd::prelude::*;

pub mod model;
pub mod poly;
pub mod fold;
pub mod custom_crc32;
pub mod engine;
pub mod crc32;
pub mod crc32c;
pub mod laws;

verus! {

/// A running 32-bit CRC digest.
pub trait Crc32Digest: Sized {
    /// The digest of the bytes fed so far.
    spec fn value(&self) -> u32;

    /// This digest once `data` has been fed as well.
    spec fn fed(&self, data: Seq<u8>) -> Self;

    /// Update digest with data
    fn update(&mut self, data: &[u8])
        ensures
            *final(self) == old(self).fed(data@),
    ;

    /// Returns crc32 digest
    fn digest(&self) -> (r: u32)
        ensures
            r == self.value(),
    ;
}

} // verus!
