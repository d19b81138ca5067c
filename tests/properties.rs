use librscrc::check32::crc32::Crc32;
use librscrc::check32::crc32c::Crc32C;
use librscrc::check32::custom_crc32::CustomCrc32;
use librscrc::check32::fold::compute_crc;
use librscrc::check32::Crc32Digest;
use librscrc::check64::crc64ecma::Crc64ECMA;
use librscrc::check64::crc64iso::Crc64ISO;
use librscrc::check64::custom_crc64::CustomCrc64;
use librscrc::check64::Crc64Digest;

const BOUNDARY_LENGTHS: [usize; 13] = [0, 1, 15, 16, 17, 63, 64, 127, 128, 129, 191, 192, 1000];

/// Deterministic bytes from a linear congruential generator.
fn sample_bytes(len: usize, seed: u64) -> Vec<u8> {
    let mut state = seed;
    let mut out = Vec::with_capacity(len);
    for _ in 0..len {
        state = state.wrapping_mul(6364136223846793005).wrapping_add(1442695040888963407);
        out.push((state >> 56) as u8);
    }
    out
}

fn crc32_of(mut d: Crc32, data: &[u8]) -> u32 {
    d.update(data);
    d.digest()
}

fn crc32c_of(mut d: Crc32C, data: &[u8]) -> u32 {
    d.update(data);
    d.digest()
}

fn custom_of(mut d: CustomCrc32, data: &[u8]) -> u32 {
    d.update(data);
    d.digest()
}

#[test]
fn known_answers() {
    assert_eq!(crc32_of(Crc32::new_lookup(), b"123456789"), 0xCBF43926);
    assert_eq!(crc32c_of(Crc32C::new_lookup(), b"123456789"), 0xE3069283);
    assert_eq!(crc32_of(Crc32::new_simd(), b""), 0);
    assert_eq!(crc32_of(Crc32::new_hardware(), b"hello-world"), 2983461467);
    let mut e = Crc64ECMA::new_lookup();
    e.update(b"123456789");
    assert_eq!(e.digest(), 0x995DC9BBDF1939FA);
    let mut i = Crc64ISO::new_naive();
    i.update(b"123456789");
    assert_eq!(i.digest(), 0xB90956C775A41001);
}

#[test]
fn engines_agree_on_boundary_lengths() {
    for (n, &len) in BOUNDARY_LENGTHS.iter().enumerate() {
        let data = sample_bytes(len, n as u64 + 1);
        let naive = crc32_of(Crc32::new_naive(), &data);
        assert_eq!(crc32_of(Crc32::new_lookup(), &data), naive, "lookup, length {}", len);
        assert_eq!(crc32_of(Crc32::new_hardware(), &data), naive, "hardware, length {}", len);
        assert_eq!(crc32_of(Crc32::new_simd(), &data), naive, "simd, length {}", len);
        let naive_c = crc32c_of(Crc32C::new_naive(), &data);
        assert_eq!(crc32c_of(Crc32C::new_lookup(), &data), naive_c, "lookup, length {}", len);
        assert_eq!(crc32c_of(Crc32C::new_hardware(), &data), naive_c, "hardware, length {}", len);
        assert_eq!(crc32c_of(Crc32C::new_simd(), &data), naive_c, "simd, length {}", len);
    }
}

#[test]
fn fold_then_tail_equals_lookup() {
    for (n, &len) in BOUNDARY_LENGTHS.iter().enumerate() {
        let data = sample_bytes(len, 100 + n as u64);
        let constants = CustomCrc32::generate_simd_reflected_constants(0x104C11DB7);
        let table = CustomCrc32::generate_lookup_table_16(0x04C11DB7);
        let (crc, tail) = compute_crc(0x1234_5678, &constants, 0x1DB710641, &data);
        if len < 128 {
            assert_eq!(crc, 0x1234_5678);
            assert_eq!(tail.len(), len);
        } else {
            assert!(tail.len() < 16);
        }
        assert_eq!(
            CustomCrc32::crc32_lookup(crc, &table, tail),
            CustomCrc32::crc32_lookup(0x1234_5678, &table, &data),
            "length {}",
            len
        );
    }
}

#[test]
fn custom_polynomial_reproduces_crc32() {
    for (n, &len) in BOUNDARY_LENGTHS.iter().enumerate() {
        let data = sample_bytes(len, 200 + n as u64);
        let expected = crc32_of(Crc32::new_naive(), &data);
        assert_eq!(custom_of(CustomCrc32::new_naive(0x04C11DB7), &data), expected);
        assert_eq!(custom_of(CustomCrc32::new_lookup(0x04C11DB7), &data), expected);
        assert_eq!(custom_of(CustomCrc32::new_simd(0x104C11DB7), &data), expected);
        assert_eq!(custom_of(CustomCrc32::new_simd(0x04C11DB7), &data), expected);
    }
    assert_eq!(custom_of(CustomCrc32::new_simd(0x104C11DB7), b"123456789"), 0xCBF43926);
    assert_eq!(custom_of(CustomCrc32::new_lookup(0x1EDC6F41), b"123456789"), 0xE3069283);
}

#[test]
fn custom_polynomial_engines_agree() {
    for (n, &len) in BOUNDARY_LENGTHS.iter().enumerate() {
        let data = sample_bytes(len, 300 + n as u64);
        let poly: u32 = 0x741B8CD7;
        let naive = custom_of(CustomCrc32::new_naive(poly), &data);
        assert_eq!(custom_of(CustomCrc32::new_lookup(poly), &data), naive);
        assert_eq!(custom_of(CustomCrc32::new_simd(poly as u64), &data), naive);
    }
}

#[test]
fn incremental_updates() {
    let data = sample_bytes(300, 7);
    for split in [0usize, 1, 15, 16, 100, 128, 299, 300] {
        let whole = crc32_of(Crc32::new_lookup(), &data);
        let mut d = Crc32::new_lookup();
        d.update(&data[..split]);
        d.update(&data[split..]);
        assert_eq!(d.digest(), whole, "split {}", split);
        let mut s = Crc32::new_simd();
        s.update(&data[..split]);
        s.update(&data[split..]);
        assert_eq!(s.digest(), whole, "simd split {}", split);
        let mut e = Crc64ECMA::new_lookup();
        e.update(&data);
        let mut e2 = Crc64ECMA::new_naive();
        e2.update(&data[..split]);
        e2.update(&data[split..]);
        assert_eq!(e2.digest(), e.digest(), "crc64 split {}", split);
    }
    assert_eq!(Crc32::compute_lookup(Crc32::compute_lookup(0, b"1234"), b"56789"), 0xCBF43926);
}

#[test]
fn digest_is_repeatable() {
    let mut d = Crc32::new_naive();
    d.update(b"1234");
    let first = d.digest();
    assert_eq!(d.digest(), first);
    d.update(b"56789");
    assert_eq!(d.digest(), 0xCBF43926);
}

#[test]
fn slicing_table_equals_bytewise() {
    let table = CustomCrc32::generate_lookup_table_16(0x04C11DB7);
    let mut windows = vec![[0u8; 16].to_vec(), [0xFFu8; 16].to_vec()];
    for seed in 0..20 {
        windows.push(sample_bytes(16, 400 + seed));
    }
    for w in &windows {
        for prev in [0u32, 0xFFFF_FFFF, 0xDEAD_BEEF] {
            assert_eq!(
                CustomCrc32::crc32_lookup(prev, &table, w),
                CustomCrc32::crc32_naive(prev, 0x04C11DB7, w)
            );
        }
    }
    let table64 = CustomCrc64::generate_lookup_table_16(0x42F0E1EBA9EA3693);
    for w in &windows {
        assert_eq!(
            CustomCrc64::crc64_lookup(0x0123_4567_89AB_CDEF, &table64, w),
            CustomCrc64::crc64_naive(0x0123_4567_89AB_CDEF, 0x42F0E1EBA9EA3693, w)
        );
    }
}

#[test]
fn byte_table_entries() {
    let table = CustomCrc32::generate_lookup_table(0x04C11DB7);
    assert_eq!(table[0], 0);
    assert_eq!(table[1], 0x77073096);
    assert_eq!(table[128], 0xEDB88320);
    assert_eq!(table[255], 0x2D02EF8D);
    let table64 = CustomCrc64::generate_lookup_table(0x42F0E1EBA9EA3693);
    assert_eq!(table64[128], 0xC96C5795D7870F42);
}

#[test]
fn polynomial_arithmetic() {
    assert_eq!(CustomCrc32::reverse_constant(0x104C11DB7), 0x1DB710641);
    assert_eq!(CustomCrc32::reverse_constant(0x11EDC6F41), 0x105EC76F1);
    assert_eq!(CustomCrc32::reverse_constant(0x1), 0x1_0000_0000);
    for c in [0x104C11DB7u64, 0x1_2345_6789, 0xFFFF_FFFF_FFFF_FFFF] {
        let once = CustomCrc32::reverse_constant(c);
        assert_eq!(CustomCrc32::reverse_constant(once), c & 0x1_FFFF_FFFF);
    }
    assert_eq!(CustomCrc32::carry_less_mul(0b101, 0b11), 0b1111);
    assert_eq!(CustomCrc32::carry_less_mul(0xFFFF_FFFF, 0x1), 0xFFFF_FFFF);
    // dividing x^32 * d: below the generator's degree nothing is reduced
    assert_eq!(CustomCrc32::division(1, 0x104C11DB7), (0, 1));
    assert_eq!(CustomCrc32::division(0x1_0000_0000, 0x104C11DB7), (1, 0x04C11DB7));
    assert_eq!(CustomCrc32::division(0, 0x104C11DB7), (0, 0));
    assert_eq!(CustomCrc64::division(1, 0x1_0000_0000_0000_001B), (0, 1));
    assert_eq!(
        CustomCrc64::division(0x1_0000_0000_0000_0000, 0x1_0000_0000_0000_001B),
        (1, 0x1B)
    );
    assert_eq!(CustomCrc64::reverse_constant(0x1_0000_0000_0000_0000), 1);
    assert_eq!(CustomCrc64::carry_less_mul(0b110, 0b110), 0b10100);
    assert_eq!(librscrc::check32::custom_crc32::reverse_bits32(1), 0x8000_0000);
    assert_eq!(librscrc::check64::custom_crc64::reverse_bits64(0x1B), 0xD800_0000_0000_0000);
}

#[test]
fn crc64_reflected_constants() {
    let c = CustomCrc64::generate_simd_reflected_constants(0x42F0E1EBA9EA3693);
    assert_eq!(c[5], 0xdabe_95af_c787_5f40);
    assert_eq!(c[6], 0x9c3e_466c_1729_63d5);
}
