//! What holds across the 32-bit engines and digests.
use vstd::prelude::*;
use crate::check32::Crc32Digest;
use crate::check32::crc32::{Crc32, CRC32_POLYNOMIAL};
use crate::check32::crc32c::{Crc32C, CRC32C_POLYNOMIAL};
use crate::check32::custom_crc32::CustomCrc32;
use crate::check32::fold::{fold_spec, stride_count};
use crate::check32::engine::{run_spec, Strategy};
use crate::check32::model::{
    crc32_spec, crc_raw, is_slicing_table, lemma_byte_step_lookup, lemma_crc_raw_append,
    lemma_slice16, lemma_slice_entry_zero, reflect32, slice_entry, slice_xor, table_poly,
};

verus! {

/// The register after feeding `d` one byte at a time through row 0 of the
/// table `t`: each byte is one lookup of the register's low byte XOR the
/// input byte, XORed with the register shifted right by eight.
pub open spec fn table_run(t: [[u32; 256]; 16], c: u32, d: Seq<u8>) -> u32
    decreases d.len(),
{
    if d.len() == 0 {
        c
    } else {
        let r = table_run(t, c, d.drop_last());
        (r >> 8) ^ t[0][((r as u8) ^ d.last()) as int]
    }
}

/// The byte table gives the bitwise register: feeding bytes one lookup at a
/// time equals feeding them bit by bit, for every input.
pub proof fn law_byte_table(t: [[u32; 256]; 16], p: u32, c: u32, d: Seq<u8>)
    requires
        is_slicing_table(t, p),
    ensures
        table_run(t, c, d) == crc_raw(c, p, d),
    decreases d.len(),
{
    if d.len() > 0 {
        let r = table_run(t, c, d.drop_last());
        law_byte_table(t, p, c, d.drop_last());
        lemma_byte_step_lookup(r, p, d.last());
        lemma_slice_entry_zero(p, (r as u8) ^ d.last());
        assert(t[0][((r as u8) ^ d.last()) as int] == slice_entry(p, 0, (r as u8) ^ d.last()));
    }
}

/// Slicing-by-16: for every register and every 16-byte window, the sixteen
/// XORed lookups of one stride equal sixteen single-byte table steps.
pub proof fn law_slicing_by_16(t: [[u32; 256]; 16], p: u32, c: u32, d: Seq<u8>)
    requires
        is_slicing_table(t, p),
        d.len() == 16,
    ensures
        slice_xor(t, c, d, 16) == table_run(t, c, d),
{
    lemma_slice16(t, p, c, d);
    law_byte_table(t, p, c, d);
}

/// The bitwise engine and the slicing-by-16 engine agree: with a table built
/// from the generator `poly`, both continue `prev` to the same CRC over every
/// input, the empty one included; the hardware strategy computes the same.
pub proof fn law_engines_agree(t: [[u32; 256]; 16], poly: u32, prev: u32, data: Seq<u8>)
    requires
        is_slicing_table(t, table_poly(t)),
        table_poly(t) == reflect32(poly),
    ensures
        !crc_raw(!prev, table_poly(t), data) == crc32_spec(prev, poly, data),
        run_spec(Strategy::Naive, poly, prev, data) == run_spec(Strategy::Lookup, poly, prev, data),
        run_spec(Strategy::Hardware, poly, prev, data) == run_spec(
            Strategy::Lookup,
            poly,
            prev,
            data,
        ),
{
}

/// Two CRC-32 digests that hold the same value, computing by any strategies
/// but folding, hold the same value after any input.
pub proof fn law_crc32_strategies_agree(a: Crc32, b: Crc32, data: Seq<u8>)
    requires
        a.value() == b.value(),
        a.strategy() != Strategy::Simd,
        b.strategy() != Strategy::Simd,
    ensures
        a.fed(data).value() == b.fed(data).value(),
{
    a.lemma_fed(data);
    b.lemma_fed(data);
}

/// Feeding `a` and then `b` gives the CRC of `a + b`, for every split.
pub proof fn law_incremental(prev: u32, poly: u32, a: Seq<u8>, b: Seq<u8>)
    ensures
        crc32_spec(crc32_spec(prev, poly, a), poly, b) == crc32_spec(prev, poly, a + b),
{
    let p = reflect32(poly);
    lemma_crc_raw_append(!prev, p, a, b);
    let r = crc_raw(!prev, p, a);
    assert(!!r == r) by (bit_vector);
}

/// A CRC-32 digest fed `a` and then `b` holds what it holds fed `a + b`,
/// whatever the split, for every strategy but folding.
pub proof fn law_crc32_incremental(d: Crc32, a: Seq<u8>, b: Seq<u8>)
    requires
        d.strategy() != Strategy::Simd,
    ensures
        d.fed(a).fed(b).value() == d.fed(a + b).value(),
{
    d.lemma_fed(a);
    d.fed(a).lemma_fed(b);
    d.lemma_fed(a + b);
    law_incremental(d.value(), CRC32_POLYNOMIAL, a, b);
}

/// A CRC-32C digest fed `a` and then `b` holds what it holds fed `a + b`,
/// whatever the split, for every strategy but folding.
pub proof fn law_crc32c_incremental(d: Crc32C, a: Seq<u8>, b: Seq<u8>)
    requires
        d.strategy() != Strategy::Simd,
    ensures
        d.fed(a).fed(b).value() == d.fed(a + b).value(),
{
    d.lemma_fed(a);
    d.fed(a).lemma_fed(b);
    d.lemma_fed(a + b);
    law_incremental(d.value(), CRC32C_POLYNOMIAL, a, b);
}

/// Under 128 bytes the folding engine hands everything to the table engine,
/// so the folding strategy computes the CRC itself.
pub proof fn law_fold_short(poly: u32, prev: u32, data: Seq<u8>)
    requires
        data.len() < 128,
    ensures
        run_spec(Strategy::Simd, poly, prev, data) == crc32_spec(prev, poly, data),
{
    assert(data.skip(0) =~= data);
}

/// From 128 bytes on, the folding engine consumes whole 16-byte blocks and
/// leaves a tail of under 16 bytes: exactly `data.len() % 16` of them.
pub proof fn law_fold_tail(k: Seq<u64>, rp: u64, prev: u32, data: Seq<u8>)
    requires
        data.len() >= 128,
    ensures
        fold_spec(prev, k, rp, data).1 == data.len() - data.len() % 16,
        data.len() - fold_spec(prev, k, rp, data).1 < 16,
{
    let l = data.len() as int;
    let n4 = stride_count(l) as int;
    let lane_end = 64 + 64 * n4;
    let n1 = (l - lane_end) / 16;
    assert(0 <= n4 && lane_end <= l) by (nonlinear_arith)
        requires
            l >= 128,
            n4 == (l - 64) / 64,
            lane_end == 64 + 64 * n4,
    ;
    assert(lane_end + 16 * n1 == l - l % 16) by (nonlinear_arith)
        requires
            lane_end == 64 + 64 * n4,
            n1 == (l - lane_end) / 16,
            lane_end <= l,
    ;
}

/// A custom-polynomial digest fed `a` and then `b` holds what it holds fed
/// `a + b`, whatever the split, for every strategy but folding.
pub proof fn law_custom_incremental(d: CustomCrc32, a: Seq<u8>, b: Seq<u8>)
    requires
        d.strategy() != Strategy::Simd,
    ensures
        d.fed(a).fed(b).value() == d.fed(a + b).value(),
{
    d.lemma_fed(a);
    d.fed(a).lemma_fed(b);
    d.lemma_fed(a + b);
    law_incremental(d.value(), d.polynomial(), a, b);
}

/// A custom-polynomial digest with the CRC-32 generator computes CRC-32:
/// with the same strategy and the same digest so far, it holds what a
/// `Crc32` holds after any input.
pub proof fn law_custom_is_crc32(c: Crc32, d: CustomCrc32, data: Seq<u8>)
    requires
        d.polynomial() == CRC32_POLYNOMIAL,
        d.strategy() == c.strategy(),
        d.value() == c.value(),
    ensures
        d.fed(data).value() == c.fed(data).value(),
{
    c.lemma_fed(data);
    d.lemma_fed(data);
}

} // verus!
