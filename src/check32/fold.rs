//! The folding engine: carry-less multiplication folds 128-bit lanes of the
//! input forward, then a Barrett reduction brings the result to 32 bits.
//! Bulk input goes through here; the tail of under 16 bytes is left for a
//! table engine.
use vstd::prelude::*;
use vstd::slice::slice_subrange;
use crate::check64::custom_crc64::CustomCrc64;
use crate::check64::poly::clmul;

verus! {

/// The 128-bit carry-less product of two 64-bit words.
pub open spec fn pmul_spec(a: u64, b: u64) -> u128 {
    clmul(a as u128, b as u128, 64)
}

/// Folds the lane `acc` forward onto the lane `next`: its low half times
/// `k_lo`, its high half times `k_hi`, both XORed into `next`.
pub open spec fn fold128(acc: u128, next: u128, k_lo: u64, k_hi: u64) -> u128 {
    (next ^ pmul_spec(acc as u64, k_lo)) ^ pmul_spec((acc >> 64) as u64, k_hi)
}

/// The first `n` bytes of `d` from `i` on, read as a little-endian number.
pub open spec fn le_bytes(d: Seq<u8>, i: int, n: nat) -> u128
    decreases n,
{
    if n == 0 {
        0
    } else {
        le_bytes(d, i, (n - 1) as nat) | ((d[i + n - 1] as u128) << ((8 * (n - 1)) as u128))
    }
}

/// The 128-bit little-endian lane at byte `i` of `d`.
pub open spec fn block(d: Seq<u8>, i: int) -> u128 {
    le_bytes(d, i, 16)
}

/// The four lanes after `n` strides of 64 bytes. The lanes start as the first
/// four blocks, with the complemented digest `prev` XORed into the first.
pub open spec fn four_lanes(prev: u32, k: Seq<u64>, d: Seq<u8>, n: nat) -> (
    u128,
    u128,
    u128,
    u128,
)
    decreases n,
{
    if n == 0 {
        (block(d, 0) ^ ((!prev) as u128), block(d, 16), block(d, 32), block(d, 48))
    } else {
        let (x3, x2, x1, x0) = four_lanes(prev, k, d, (n - 1) as nat);
        let p = 64 * n as int;
        (
            fold128(x3, block(d, p), k[0], k[1]),
            fold128(x2, block(d, p + 16), k[0], k[1]),
            fold128(x1, block(d, p + 32), k[0], k[1]),
            fold128(x0, block(d, p + 48), k[0], k[1]),
        )
    }
}

/// One lane after folding in `n` further blocks from byte `pos` on.
pub open spec fn one_lane(x: u128, k: Seq<u64>, d: Seq<u8>, pos: int, n: nat) -> u128
    decreases n,
{
    if n == 0 {
        x
    } else {
        fold128(one_lane(x, k, d, pos, (n - 1) as nat), block(d, pos + 16 * (n - 1)), k[2], k[3])
    }
}

/// Reduces a lane to 64 bits with `k4` and `k5`, then to 32 bits by Barrett
/// reduction with `u` and the reflected polynomial `rp`; the result is
/// complemented back into a digest.
pub open spec fn reduce_spec(x: u128, k: Seq<u64>, rp: u64) -> u32 {
    let x = (x >> 64) ^ pmul_spec(x as u64, k[3]);
    let x = pmul_spec((x as u64) & 0xffff_ffff, k[4]) ^ (x >> 32);
    let t = pmul_spec((x as u64) & 0xffff_ffff, k[6]);
    let t = pmul_spec((t as u64) & 0xffff_ffff, rp);
    !(((x ^ t) >> 32) as u32)
}

/// The number of 64-byte strides folded into the four lanes.
pub open spec fn stride_count(len: int) -> nat {
    ((len - 64) / 64) as nat
}

/// The folding engine on `d`, continuing from the digest `prev`:
/// the digest over the bytes it consumed, and how many it consumed. Under
/// 128 bytes it consumes nothing and hands `prev` back.
pub open spec fn fold_spec(prev: u32, k: Seq<u64>, rp: u64, d: Seq<u8>) -> (u32, int) {
    if d.len() < 128 {
        (prev, 0)
    } else {
        let n4 = stride_count(d.len() as int);
        let (x3, x2, x1, x0) = four_lanes(prev, k, d, n4);
        let x = fold128(fold128(fold128(x3, x2, k[2], k[3]), x1, k[2], k[3]), x0, k[2], k[3]);
        let lane_end = 64 + 64 * n4 as int;
        let n1 = ((d.len() - lane_end) / 16) as nat;
        (reduce_spec(one_lane(x, k, d, lane_end, n1), k, rp), lane_end + 16 * n1)
    }
}

/// The 128-bit carry-less product of two 64-bit words.
fn pmul(a: u64, b: u64) -> (r: u128)
    ensures
        r == pmul_spec(a, b),
{
    CustomCrc64::carry_less_mul(a as u128, b as u128)
}

/// Folds the lane `a` forward onto the lane `b`.
pub fn fold_128(a: u128, b: u128, k_lo: u64, k_hi: u64) -> (r: u128)
    ensures
        r == fold128(a, b, k_lo, k_hi),
{
    let xmm1 = pmul(a as u64, k_lo);
    let xmm2 = pmul((a >> 64) as u64, k_hi);
    (b ^ xmm1) ^ xmm2
}

/// Reads the 16 bytes of `data` from `i` on as a little-endian lane.
pub fn get_simd_128(data: &[u8], i: usize) -> (r: u128)
    requires
        i + 16 <= data@.len(),
    ensures
        r == block(data@, i as int),
{
    let len = data.len();
    let mut v: u128 = 0;
    let mut k: usize = 0;
    while k < 16
        invariant
            k <= 16,
            len == data@.len(),
            i + 16 <= len,
            v == le_bytes(data@, i as int, k as nat),
        decreases 16 - k,
    {
        v = v | ((data[i + k] as u128) << ((8 * k) as u128));
        k += 1;
    }
    v
}

/// Reduces the folded lane `x` to the 32-bit digest.
fn reduce(x: u128, constants: &[u64; 7], rev_polynomial: u64) -> (r: u32)
    ensures
        r == reduce_spec(x, constants@, rev_polynomial),
{
    // 128 bits to 64 bits
    let x2 = pmul(x as u64, constants[3]);
    let x = (x >> 64) ^ x2;
    let x2 = x >> 32;
    let x = pmul((x as u64) & 0xffff_ffff, constants[4]) ^ x2;
    // Barrett reduction to 32 bits
    let t = pmul((x as u64) & 0xffff_ffff, constants[6]);
    let t = pmul((t as u64) & 0xffff_ffff, rev_polynomial);
    !(((x ^ t) >> 32) as u32)
}

/// The folding engine: continues the digest `prev_crc` over the longest
/// prefix of `data` that it folds, and returns the digest with the rest of
/// `data` (under 16 bytes, or all of it when `data` is under 128 bytes).
pub fn compute_crc<'a>(prev_crc: u32, constants: &[u64; 7], rev_polynomial: u64, data: &'a [u8]) -> (r: (
    u32,
    &'a [u8],
))
    ensures
        r.0 == fold_spec(prev_crc, constants@, rev_polynomial, data@).0,
        r.1@ == data@.skip(fold_spec(prev_crc, constants@, rev_polynomial, data@).1),
{
    let len = data.len();
    if len < 128 {
        proof {
            assert(data@.skip(0) =~= data@);
        }
        return (prev_crc, data);
    }
    let ghost k = constants@;
    let mut x3 = get_simd_128(data, 0) ^ ((!prev_crc) as u128);
    let mut x2 = get_simd_128(data, 16);
    let mut x1 = get_simd_128(data, 32);
    let mut x0 = get_simd_128(data, 48);
    let mut pos: usize = 64;
    let ghost mut n: nat = 0;
    // fold four lanes, 64 bytes per stride
    while len - pos >= 64
        invariant
            len == data@.len(),
            len >= 128,
            pos == 64 + 64 * n,
            pos <= len,
            k == constants@,
            (x3, x2, x1, x0) == four_lanes(prev_crc, k, data@, n),
        decreases len - pos,
    {
        x3 = fold_128(x3, get_simd_128(data, pos), constants[0], constants[1]);
        x2 = fold_128(x2, get_simd_128(data, pos + 16), constants[0], constants[1]);
        x1 = fold_128(x1, get_simd_128(data, pos + 32), constants[0], constants[1]);
        x0 = fold_128(x0, get_simd_128(data, pos + 48), constants[0], constants[1]);
        pos = pos + 64;
        proof {
            n = n + 1;
        }
    }
    proof {
        let l = len as int;
        assert(n == stride_count(l)) by (nonlinear_arith)
            requires
                pos == 64 + 64 * n,
                l - pos < 64,
                pos <= l,
        ;
    }
    // fold the four lanes into one
    let mut x = fold_128(x3, x2, constants[2], constants[3]);
    x = fold_128(x, x1, constants[2], constants[3]);
    x = fold_128(x, x0, constants[2], constants[3]);
    let ghost lane_end = pos as int;
    let ghost x_start = x;
    let ghost mut m: nat = 0;
    // fold one lane, 16 bytes per step
    while len - pos >= 16
        invariant
            len == data@.len(),
            pos == lane_end + 16 * m,
            pos <= len,
            k == constants@,
            x == one_lane(x_start, k, data@, lane_end, m),
        decreases len - pos,
    {
        x = fold_128(x, get_simd_128(data, pos), constants[2], constants[3]);
        pos = pos + 16;
        proof {
            m = m + 1;
        }
    }
    proof {
        let l = len as int;
        assert(m == (l - lane_end) / 16) by (nonlinear_arith)
            requires
                pos == lane_end + 16 * m,
                l - pos < 16,
                pos <= l,
        ;
    }
    let crc = reduce(x, constants, rev_polynomial);
    (crc, slice_subrange(data, pos, len))
}

} // verus!
