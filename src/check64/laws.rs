//! What holds across the 64-bit engines and digests.
use vstd::prelude::*;
use crate::check64::Crc64Digest;
use crate::check64::crc64ecma::{Crc64ECMA, CRC64_POLYNOMIAL as ECMA_POLYNOMIAL};
use crate::check64::crc64iso::{Crc64ISO, CRC64_POLYNOMIAL as ISO_POLYNOMIAL};
use crate::check64::model::{
    crc64_spec, crc_raw, is_slicing_table, lemma_crc_raw_append, reflect64, table_poly,
};

verus! {

/// The bitwise engine and the slicing-by-16 engine agree: with a table built
/// from the generator `poly`, the lookup engine continues `prev` to the CRC
/// of every input, the empty one included.
pub proof fn law_engines_agree(t: [[u64; 256]; 16], poly: u64, prev: u64, data: Seq<u8>)
    requires
        is_slicing_table(t, table_poly(t)),
        table_poly(t) == reflect64(poly),
    ensures
        !crc_raw(!prev, table_poly(t), data) == crc64_spec(prev, poly, data),
{
}

/// Feeding `a` and then `b` gives the CRC of `a + b`, for every split.
pub proof fn law_incremental(prev: u64, poly: u64, a: Seq<u8>, b: Seq<u8>)
    ensures
        crc64_spec(crc64_spec(prev, poly, a), poly, b) == crc64_spec(prev, poly, a + b),
{
    let p = reflect64(poly);
    lemma_crc_raw_append(!prev, p, a, b);
    let r = crc_raw(!prev, p, a);
    assert(!!r == r) by (bit_vector);
}

/// A CRC-64/ECMA digest fed `a` and then `b` holds what it holds fed `a + b`.
pub proof fn law_ecma_incremental(d: Crc64ECMA, a: Seq<u8>, b: Seq<u8>)
    ensures
        d.fed(a).fed(b).value() == d.fed(a + b).value(),
{
    d.lemma_fed(a);
    d.fed(a).lemma_fed(b);
    d.lemma_fed(a + b);
    law_incremental(d.value(), ECMA_POLYNOMIAL, a, b);
}

/// A CRC-64/ISO digest fed `a` and then `b` holds what it holds fed `a + b`.
pub proof fn law_iso_incremental(d: Crc64ISO, a: Seq<u8>, b: Seq<u8>)
    ensures
        d.fed(a).fed(b).value() == d.fed(a + b).value(),
{
    d.lemma_fed(a);
    d.fed(a).lemma_fed(b);
    d.lemma_fed(a + b);
    law_incremental(d.value(), ISO_POLYNOMIAL, a, b);
}

} // verus!
