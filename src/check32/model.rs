//! The mathematical model of a reflected 32-bit CRC, and the facts about it
//! that the table-driven engines rest on.
use vstd::prelude::*;

verus! {

/// `x` with its 32 bits in reverse order (bit `i` moves to bit `31 - i`).
pub open spec fn reflect32(x: u32) -> u32 {
    let x = ((x >> 1) & 0x5555_5555) | ((x & 0x5555_5555) << 1);
    let x = ((x >> 2) & 0x3333_3333) | ((x & 0x3333_3333) << 2);
    let x = ((x >> 4) & 0x0F0F_0F0F) | ((x & 0x0F0F_0F0F) << 4);
    let x = ((x >> 8) & 0x00FF_00FF) | ((x & 0x00FF_00FF) << 8);
    (x >> 16) | (x << 16)
}

/// Bit `i` of `reflect32(x)` is bit `31 - i` of `x`.
pub proof fn lemma_reflect32_bit(x: u32, i: u32)
    requires
        i < 32,
    ensures
        (reflect32(x) >> i) & 1 == (x >> (31 - i) as u32) & 1,
{
    assert((reflect32(x) >> i) & 1 == (x >> (31 - i) as u32) & 1) by (bit_vector)
        requires
            i < 32,
    ;
}

/// Reflecting twice is the identity.
pub proof fn lemma_reflect32_involution(x: u32)
    ensures
        reflect32(reflect32(x)) == x,
{
    assert(reflect32(reflect32(x)) == x) by (bit_vector);
}

/// One step of the reflected shift register: shift right by one, and fold in
/// the reflected polynomial `p` when the bit shifted out was set.
pub open spec fn bit_step(c: u32, p: u32) -> u32 {
    if c & 1 == 1 {
        (c >> 1) ^ p
    } else {
        c >> 1
    }
}

/// `n` shift-register steps.
pub open spec fn bit_steps(c: u32, p: u32, n: nat) -> u32
    decreases n,
{
    if n == 0 {
        c
    } else {
        bit_step(bit_steps(c, p, (n - 1) as nat), p)
    }
}

/// Feeding one byte into the register: XOR it into the low bits, then eight steps.
pub open spec fn byte_step(c: u32, p: u32, b: u8) -> u32 {
    bit_steps(c ^ (b as u32), p, 8)
}

/// The register after feeding `data`, byte by byte, starting from `c`
/// (no complement on entry or exit).
pub open spec fn crc_raw(c: u32, p: u32, data: Seq<u8>) -> u32
    decreases data.len(),
{
    if data.len() == 0 {
        c
    } else {
        byte_step(crc_raw(c, p, data.drop_last()), p, data.last())
    }
}

/// The reflected CRC with generator `poly` (normal form, implicit top bit),
/// continuing from the digest `prev`: the register is complemented on entry
/// and on exit.
pub open spec fn crc32_spec(prev: u32, poly: u32, data: Seq<u8>) -> u32 {
    !crc_raw(!prev, reflect32(poly), data)
}

/// `n` zero bytes.
pub open spec fn zeros(n: nat) -> Seq<u8> {
    Seq::new(n, |i: int| 0u8)
}

/// Entry `b` of row `j` of a slicing-by-16 table: the register after the byte
/// `b` followed by `j` zero bytes, from a zero register.
pub open spec fn slice_entry(p: u32, j: nat, b: u8) -> u32 {
    crc_raw(0, p, seq![b] + zeros(j))
}

/// `t` is the byte table of the reflected polynomial `p`: entry `i` is the
/// register after eight steps from `i`.
pub open spec fn is_byte_table(t: [u32; 256], p: u32) -> bool {
    forall|i: int| 0 <= i < 256 ==> #[trigger] t[i] == bit_steps(i as u32, p, 8)
}

/// `t` is the slicing-by-16 table of the reflected polynomial `p`.
pub open spec fn is_slicing_table(t: [[u32; 256]; 16], p: u32) -> bool {
    forall|j: int, i: int|
        0 <= j < 16 && 0 <= i < 256 ==> #[trigger] t[j][i] == slice_entry(p, j as nat, i as u8)
}

/// The reflected polynomial that a slicing table was built from: eight steps
/// from the single bit `0x80` leave exactly the polynomial.
pub open spec fn table_poly(t: [[u32; 256]; 16]) -> u32 {
    t[0][128]
}

/// Byte `k` of a 16-byte block, with the register `c` folded into its first four bytes.
pub open spec fn carried(c: u32, d: Seq<u8>, k: int) -> u8 {
    if k < 4 {
        d[k] ^ ((c >> ((8 * k) as u32)) as u8)
    } else {
        d[k]
    }
}

/// The XOR of the table lookups for the first `m` bytes of a 16-byte block:
/// byte `k` is looked up in row `15 - k`.
pub open spec fn slice_xor(t: [[u32; 256]; 16], c: u32, d: Seq<u8>, m: nat) -> u32
    decreases m,
{
    if m == 0 {
        0
    } else if m == 1 {
        t[15][carried(c, d, 0) as int]
    } else {
        slice_xor(t, c, d, (m - 1) as nat) ^ t[15 - (m - 1)][carried(c, d, m - 1) as int]
    }
}

/// The bit-level facts that the model's proofs use, checked by bit blasting.
proof fn lemma_bits(a: u32, b: u32, p: u32, x: u8, y: u8, k1: u32, k2: u32)
    by (bit_vector)
    ensures
        bit_step(a ^ b, p) == bit_step(a, p) ^ bit_step(b, p),
        a ^ a == 0,
        a ^ 0 == a,
        0 ^ a == a,
        a >> 0u32 == a,
        (a & 0xff == 0 && k1 < 8 && k2 == k1 + 1) ==> ((a >> k1) & 1 == 0 && (a >> k1) >> 1 == a >> k2),
        ((a ^ (x as u32)) & 0xffff_ff00) & 0xff == 0,
        ((a ^ (x as u32)) & 0xffff_ff00) ^ ((a ^ (x as u32)) & 0xff) == a ^ (x as u32),
        ((a ^ (x as u32)) & 0xffff_ff00) >> 8 == a >> 8,
        ((a ^ (x as u32)) & 0xff) == ((a as u8) ^ x) as u32,
        (a ^ b) ^ ((x ^ y) as u32) == (a ^ (x as u32)) ^ (b ^ (y as u32)),
        0u32 ^ (x as u32) == x as u32,
        ((a as u8) ^ 0u8) as u32 == (a as u8) as u32,
        ((a as u8) ^ (a as u8)) as u32 == 0,
        (k1 < 7 && k2 == k1 + 1) ==> ((0x80u32 >> k1) & 1 == 0 && (0x80u32 >> k1) >> 1 == 0x80u32 >> k2),
        0x80u32 >> 7u32 == 1,
        bit_step(1, p) == p,
        (a >> 8) >> 8 == a >> 16,
        (a >> 16) >> 8 == a >> 24,
        (a >> 24) >> 8 == 0,
        x ^ (y ^ x) == y,
        0u8 ^ y == y,
        y ^ 0u8 == y,
{
}

/// The shift register is linear over XOR.
pub proof fn lemma_bit_steps_xor(a: u32, b: u32, p: u32, n: nat)
    ensures
        bit_steps(a ^ b, p, n) == bit_steps(a, p, n) ^ bit_steps(b, p, n),
    decreases n,
{
    if n > 0 {
        lemma_bit_steps_xor(a, b, p, (n - 1) as nat);
        lemma_bits(bit_steps(a, p, (n - 1) as nat), bit_steps(b, p, (n - 1) as nat), p, 0, 0, 0, 0);
    }
}

proof fn lemma_bit_steps_zero(p: u32, n: nat)
    ensures
        bit_steps(0, p, n) == 0,
{
    lemma_bit_steps_xor(0, 0, p, n);
    lemma_bits(0, 0, p, 0, 0, 0, 0);
    lemma_bits(bit_steps(0, p, n), 0, p, 0, 0, 0, 0);
}

/// While the low bits are clear the register only shifts.
proof fn lemma_bit_steps_high(h: u32, p: u32, k: nat)
    requires
        h & 0xff == 0,
        k <= 8,
    ensures
        bit_steps(h, p, k) == h >> (k as u32),
    decreases k,
{
    if k > 0 {
        let k1 = (k - 1) as u32;
        let k2 = k as u32;
        lemma_bit_steps_high(h, p, (k - 1) as nat);
        lemma_bits(h, 0, p, 0, 0, k1, k2);
    } else {
        lemma_bits(h, 0, p, 0, 0, 0, 0);
    }
}

/// Feeding a byte is a table lookup: the byte-table identity.
pub proof fn lemma_byte_step_table(c: u32, p: u32, b: u8)
    ensures
        byte_step(c, p, b) == (c >> 8) ^ bit_steps(((c ^ (b as u32)) & 0xff), p, 8),
        ((c ^ (b as u32)) & 0xff) == ((c as u8) ^ b) as u32,
{
    let x = c ^ (b as u32);
    let hi = x & 0xffff_ff00;
    let lo = x & 0xff;
    lemma_bits(c, 0, p, b, 0, 0, 0);
    lemma_bit_steps_xor(hi, lo, p, 8);
    lemma_bit_steps_high(hi, p, 8);
}

/// Feeding bytes one after another: the register after `a + b` is the
/// register after `b`, started from the register after `a`.
pub proof fn lemma_crc_raw_append(c: u32, p: u32, a: Seq<u8>, b: Seq<u8>)
    ensures
        crc_raw(c, p, a + b) == crc_raw(crc_raw(c, p, a), p, b),
    decreases b.len(),
{
    if b.len() == 0 {
        assert(a + b =~= a);
    } else {
        lemma_crc_raw_append(c, p, a, b.drop_last());
        assert((a + b).drop_last() =~= a + b.drop_last());
        assert((a + b).last() == b.last());
    }
}

/// The register after `data.push(b)`.
pub proof fn lemma_crc_raw_push(c: u32, p: u32, data: Seq<u8>, b: u8)
    ensures
        crc_raw(c, p, data.push(b)) == byte_step(crc_raw(c, p, data), p, b),
{
    assert(data.push(b).drop_last() =~= data);
}

/// Bytewise XOR of two sequences of one length.
pub open spec fn xor_bytes(a: Seq<u8>, b: Seq<u8>) -> Seq<u8> {
    Seq::new(a.len(), |i: int| a[i] ^ b[i])
}

/// The register is linear in its start value and its input together.
pub proof fn lemma_crc_raw_xor(c1: u32, c2: u32, p: u32, d1: Seq<u8>, d2: Seq<u8>)
    requires
        d1.len() == d2.len(),
    ensures
        crc_raw(c1 ^ c2, p, xor_bytes(d1, d2)) == crc_raw(c1, p, d1) ^ crc_raw(c2, p, d2),
    decreases d1.len(),
{
    let x = xor_bytes(d1, d2);
    if d1.len() > 0 {
        lemma_crc_raw_xor(c1, c2, p, d1.drop_last(), d2.drop_last());
        assert(x.drop_last() =~= xor_bytes(d1.drop_last(), d2.drop_last()));
        let r1 = crc_raw(c1, p, d1.drop_last());
        let r2 = crc_raw(c2, p, d2.drop_last());
        let b1 = d1.last();
        let b2 = d2.last();
        lemma_bits(r1, r2, p, b1, b2, 0, 0);
        lemma_bit_steps_xor(r1 ^ (b1 as u32), r2 ^ (b2 as u32), p, 8);
    }
}

/// Zero bytes keep a zero register at zero.
pub proof fn lemma_crc_raw_zeros(p: u32, n: nat)
    ensures
        crc_raw(0, p, zeros(n)) == 0,
    decreases n,
{
    if n > 0 {
        lemma_crc_raw_zeros(p, (n - 1) as nat);
        assert(zeros(n).drop_last() =~= zeros((n - 1) as nat));
        lemma_bits(0, 0, p, 0, 0, 0, 0);
        lemma_bit_steps_zero(p, 8);
    }
}

/// Row zero of a slicing table is the byte table.
pub proof fn lemma_slice_entry_zero(p: u32, b: u8)
    ensures
        slice_entry(p, 0, b) == bit_steps(b as u32, p, 8),
{
    assert(seq![b] + zeros(0) =~= Seq::<u8>::empty().push(b));
    lemma_crc_raw_push(0, p, Seq::<u8>::empty(), b);
    lemma_bits(0, 0, p, b, 0, 0, 0);
}

/// Each further row feeds one more zero byte.
pub proof fn lemma_slice_entry_next(p: u32, j: nat, b: u8)
    ensures
        slice_entry(p, j + 1, b) == byte_step(slice_entry(p, j, b), p, 0),
{
    lemma_crc_raw_push(0, p, seq![b] + zeros(j), 0);
    assert((seq![b] + zeros(j)).push(0) =~= seq![b] + zeros(j + 1));
}

/// Feeding a zero byte is one lookup of the low byte.
pub proof fn lemma_byte_step_zero(c: u32, p: u32)
    ensures
        byte_step(c, p, 0) == (c >> 8) ^ bit_steps((c as u8) as u32, p, 8),
{
    lemma_byte_step_table(c, p, 0);
    lemma_bits(c, 0, p, 0, 0, 0, 0);
}

/// Feeding a byte through the byte table.
pub proof fn lemma_byte_step_lookup(c: u32, p: u32, b: u8)
    ensures
        byte_step(c, p, b) == (c >> 8) ^ bit_steps(((c as u8) ^ b) as u32, p, 8),
{
    lemma_byte_step_table(c, p, b);
}

/// The polynomial can be read back from the byte table.
pub proof fn lemma_table_poly(p: u32)
    ensures
        bit_steps(0x80, p, 8) == p,
{
    lemma_bit_steps_top(p, 7);
    lemma_bits(0, 0, p, 0, 0, 0, 0);
}

proof fn lemma_bit_steps_top(p: u32, k: nat)
    requires
        k <= 7,
    ensures
        bit_steps(0x80, p, k) == 0x80u32 >> (k as u32),
    decreases k,
{
    if k > 0 {
        lemma_bit_steps_top(p, (k - 1) as nat);
        let k1 = (k - 1) as u32;
        let k2 = k as u32;
        lemma_bits(0, 0, p, 0, 0, k1, k2);
    } else {
        lemma_bits(0x80, 0, p, 0, 0, 0, 0);
    }
}

/// Feeding the low byte of the register clears it: the register only shifts.
proof fn lemma_byte_step_self(c: u32, p: u32)
    ensures
        byte_step(c, p, c as u8) == c >> 8,
{
    lemma_byte_step_table(c, p, c as u8);
    lemma_bits(c, 0, p, 0, 0, 0, 0);
    lemma_bit_steps_zero(p, 8);
    lemma_bits(c >> 8, 0, p, 0, 0, 0, 0);
}

/// The register `c`, fed its own four bytes, is cleared.
proof fn lemma_crc_raw_own_bytes(c: u32, p: u32)
    ensures
        crc_raw(
            c,
            p,
            seq![c as u8, (c >> 8) as u8, (c >> 16) as u8, (c >> 24) as u8],
        ) == 0,
{
    let e = seq![c as u8, (c >> 8) as u8, (c >> 16) as u8, (c >> 24) as u8];
    let e0 = Seq::<u8>::empty();
    assert(e =~= e0.push(c as u8).push((c >> 8) as u8).push((c >> 16) as u8).push(
        (c >> 24) as u8,
    ));
    lemma_crc_raw_push(c, p, e0, c as u8);
    lemma_crc_raw_push(c, p, e0.push(c as u8), (c >> 8) as u8);
    lemma_crc_raw_push(c, p, e0.push(c as u8).push((c >> 8) as u8), (c >> 16) as u8);
    lemma_crc_raw_push(
        c,
        p,
        e0.push(c as u8).push((c >> 8) as u8).push((c >> 16) as u8),
        (c >> 24) as u8,
    );
    lemma_byte_step_self(c, p);
    lemma_byte_step_self(c >> 8, p);
    lemma_byte_step_self(c >> 16, p);
    lemma_byte_step_self(c >> 24, p);
    lemma_bits(c, 0, p, 0, 0, 0, 0);
}

/// A 16-byte block fed into the register `c` equals the XOR of sixteen
/// lookups in a slicing table: the slicing-by-16 equivalence.
pub proof fn lemma_slice16(t: [[u32; 256]; 16], p: u32, c: u32, d: Seq<u8>)
    requires
        is_slicing_table(t, p),
        d.len() == 16,
    ensures
        crc_raw(c, p, d) == slice_xor(t, c, d, 16),
{
    let dc = Seq::new(16, |k: int| carried(c, d, k));
    // the register's own bytes, followed by zeros, cancel the register
    let e = seq![c as u8, (c >> 8) as u8, (c >> 16) as u8, (c >> 24) as u8] + zeros(12);
    assert forall|k: int| 0 <= k < 16 implies #[trigger] xor_bytes(e, dc)[k] == d[k] by {
        lemma_bits(c, 0, 0, e[k], d[k], 0, 0);
    }
    assert(xor_bytes(e, dc) =~= d);
    lemma_crc_raw_xor(c, 0, p, e, dc);
    lemma_crc_raw_append(c, p, seq![c as u8, (c >> 8) as u8, (c >> 16) as u8, (c >> 24) as u8],
        zeros(12));
    lemma_crc_raw_own_bytes(c, p);
    lemma_crc_raw_zeros(p, 12);
    let r0 = crc_raw(0, p, dc);
    lemma_bits(c, 0, 0, 0, 0, 0, 0);
    lemma_bits(r0, 0, 0, 0, 0, 0, 0);
    assert(crc_raw(c, p, e) == 0);
    assert(crc_raw(c, p, d) == r0);
    // the carried block is the XOR of sixteen single-byte blocks
    lemma_slice_partial(t, p, c, d, 16);
    assert(carried_prefix(c, d, 16) =~= dc);
}

/// The first `m` carried bytes of a block, then zeros.
spec fn carried_prefix(c: u32, d: Seq<u8>, m: nat) -> Seq<u8> {
    Seq::new(16, |k: int| if k < m { carried(c, d, k) } else { 0u8 })
}

proof fn lemma_slice_partial(t: [[u32; 256]; 16], p: u32, c: u32, d: Seq<u8>, m: nat)
    requires
        is_slicing_table(t, p),
        d.len() == 16,
        m <= 16,
    ensures
        crc_raw(0, p, carried_prefix(c, d, m)) == slice_xor(t, c, d, m),
    decreases m,
{
    let dm = carried_prefix(c, d, m);
    if m == 0 {
        assert(dm =~= zeros(16));
        lemma_crc_raw_zeros(p, 16);
    } else {
        let m1 = (m - 1) as nat;
        let b = carried(c, d, m1 as int);
        let prev = carried_prefix(c, d, m1);
        let unit = Seq::new(16, |k: int| if k == m1 { b } else { 0u8 });
        lemma_slice_partial(t, p, c, d, m1);
        assert forall|k: int| 0 <= k < 16 implies #[trigger] xor_bytes(prev, unit)[k] == dm[k] by {
            lemma_bits(0, 0, 0, prev[k], unit[k], 0, 0);
            lemma_bits(0, 0, 0, unit[k], prev[k], 0, 0);
        }
        assert(xor_bytes(prev, unit) =~= dm);
        lemma_crc_raw_xor(0, 0, p, prev, unit);
        lemma_bits(0, 0, p, 0, 0, 0, 0);
        // a single byte at position m1 is row 15 - m1 of the table
        assert(unit =~= zeros(m1) + (seq![b] + zeros((15 - m1) as nat)));
        lemma_crc_raw_append(0, p, zeros(m1), seq![b] + zeros((15 - m1) as nat));
        lemma_crc_raw_zeros(p, m1);
        assert(t[15 - m1][b as int] == slice_entry(p, (15 - m1) as nat, b));
        lemma_bits(t[15 - m1][b as int], 0, p, 0, 0, 0, 0);
    }
}

} // verus!
