use librscrc::check32::crc32::Crc32;
use librscrc::check32::crc32c::Crc32C;
use librscrc::check32::custom_crc32::CustomCrc32;
use librscrc::check32::Crc32Digest;

const EMPTY_DATA: &[u8] = b"";
const SMALL_DATA_1: &[u8] = b"123456789";
const SMALL_DATA_2: &[u8] = b"hello-world";

const POLYNOMIAL: u64 = 0x104C11DB7u64;

fn check_crc32(mut crc: Crc32, data: &[u8], expected_crc: u32) {
    crc.update(data);
    assert_eq!(crc.digest(), expected_crc);
}

fn check_crc32c(mut crc: Crc32C, data: &[u8], expected_crc: u32) {
    crc.update(data);
    assert_eq!(crc.digest(), expected_crc);
}

#[test]
fn crc32_test_crc32_naive() {
    check_crc32(Crc32::new_naive(), EMPTY_DATA, 0);
    check_crc32(Crc32::new_naive(), SMALL_DATA_1, 0xCBF43926);
    check_crc32(Crc32::new_naive(), SMALL_DATA_2, 2983461467);
    check_crc32(Crc32::new(), EMPTY_DATA, 0);
    check_crc32(Crc32::new(), SMALL_DATA_1, 0xCBF43926);
    check_crc32(Crc32::new(), SMALL_DATA_2, 2983461467);
}

#[test]
fn crc32_test_crc32_lookup() {
    check_crc32(Crc32::new_lookup(), EMPTY_DATA, 0);
    check_crc32(Crc32::new_lookup(), SMALL_DATA_1, 0xCBF43926);
    check_crc32(Crc32::new_lookup(), SMALL_DATA_2, 2983461467);
}

#[test]
fn crc32_test_crc32_simd() {
    check_crc32(Crc32::new_simd(), EMPTY_DATA, 0);
    check_crc32(Crc32::new_simd(), SMALL_DATA_1, 0xCBF43926);
    check_crc32(Crc32::new_simd(), SMALL_DATA_2, 2983461467);
}

#[test]
fn crc32c_test_crc32c_naive() {
    check_crc32c(Crc32C::new_naive(), EMPTY_DATA, 0);
    check_crc32c(Crc32C::new_naive(), SMALL_DATA_1, 0xE3069283);
    check_crc32c(Crc32C::new_naive(), SMALL_DATA_2, 4099351003);
    check_crc32c(Crc32C::new(), EMPTY_DATA, 0);
    check_crc32c(Crc32C::new(), SMALL_DATA_1, 0xE3069283);
    check_crc32c(Crc32C::new(), SMALL_DATA_2, 4099351003);
}

#[test]
fn crc32c_test_crc32c_lookup() {
    check_crc32c(Crc32C::new_lookup(), EMPTY_DATA, 0);
    check_crc32c(Crc32C::new_lookup(), SMALL_DATA_1, 0xE3069283);
    check_crc32c(Crc32C::new_lookup(), SMALL_DATA_2, 4099351003);
}

#[test]
fn crc32c_test_crc32c_hardware() {
    check_crc32c(Crc32C::new_hardware(), EMPTY_DATA, 0);
    check_crc32c(Crc32C::new_hardware(), SMALL_DATA_1, 0xE3069283);
    check_crc32c(Crc32C::new_hardware(), SMALL_DATA_2, 4099351003);
}

#[test]
fn crc32c_test_crc32c_simd() {
    check_crc32c(Crc32C::new_simd(), EMPTY_DATA, 0);
    check_crc32c(Crc32C::new_simd(), SMALL_DATA_1, 0xE3069283);
    check_crc32c(Crc32C::new_simd(), SMALL_DATA_2, 4099351003);
}

#[test]
fn test_crc32() {
    assert_eq!(CustomCrc32::crc32_naive(0, POLYNOMIAL as u32, b""), 0);
    assert_eq!(
        CustomCrc32::crc32_naive(0, POLYNOMIAL as u32, b"123456789"),
        0xCBF43926
    );
    assert_eq!(
        CustomCrc32::crc32_naive(0, POLYNOMIAL as u32, b"hello-world"),
        2983461467
    );
}

#[test]
fn test_simd_constant() {
    let constants = CustomCrc32::generate_simd_constants(POLYNOMIAL);

    assert_eq!(constants[0], 0x8833794C);
    assert_eq!(constants[1], 0xE6228B11);
    assert_eq!(constants[2], 0xC5B9CD4C);
    assert_eq!(constants[3], 0xE8A45605);
    assert_eq!(constants[4], 0xF200AA66);
    assert_eq!(constants[5], 0x490D678D);

    assert_eq!(constants[6], 0x104D101DF);
}

#[test]
fn test_simd_reflected_constant() {
    let constants = CustomCrc32::generate_simd_reflected_constants(POLYNOMIAL);

    assert_eq!(constants[0], 0x154442bd4);
    assert_eq!(constants[1], 0x1c6e41596);
    assert_eq!(constants[2], 0x1751997d0);
    assert_eq!(constants[3], 0x0ccaa009e);
    assert_eq!(constants[4], 0x163cd6124);
    assert_eq!(constants[5], 0x1db710640);
    assert_eq!(constants[6], 0x1F7011641);
}
