use librscrc::check64::crc64ecma::Crc64ECMA;
use librscrc::check64::crc64iso::Crc64ISO;
use librscrc::check64::custom_crc64::CustomCrc64;
use librscrc::check64::Crc64Digest;

const EMPTY_DATA: &[u8] = b"";
const SMALL_DATA_1: &[u8] = b"123456789";
const SMALL_DATA_2: &[u8] = b"hello-world";

fn check_ecma(mut crc: Crc64ECMA, data: &[u8], expected_crc: u64) {
    crc.update(data);
    assert_eq!(crc.digest(), expected_crc);
}

fn check_iso(mut crc: Crc64ISO, data: &[u8], expected_crc: u64) {
    crc.update(data);
    assert_eq!(crc.digest(), expected_crc);
}

#[test]
fn test_crc64ecma_naive() {
    check_ecma(Crc64ECMA::new_naive(), EMPTY_DATA, 0);
    check_ecma(Crc64ECMA::new_naive(), SMALL_DATA_1, 0x995DC9BBDF1939FA);
    check_ecma(Crc64ECMA::new_naive(), SMALL_DATA_2, 0xfdba56834f9b7bb);
}

#[test]
fn test_crc64ecma_lookup() {
    check_ecma(Crc64ECMA::new_lookup(), EMPTY_DATA, 0);
    check_ecma(Crc64ECMA::new_lookup(), SMALL_DATA_1, 0x995DC9BBDF1939FA);
    check_ecma(Crc64ECMA::new_lookup(), SMALL_DATA_2, 0xfdba56834f9b7bb);
}

#[test]
fn test_crc64iso_naive() {
    check_iso(Crc64ISO::new_naive(), EMPTY_DATA, 0);
    check_iso(Crc64ISO::new_naive(), SMALL_DATA_1, 0xB90956C775A41001);
    check_iso(Crc64ISO::new_naive(), SMALL_DATA_2, 0xB9CF3F572AD35C3E);
}

#[test]
fn test_crc64iso_lookup() {
    check_iso(Crc64ISO::new_lookup(), EMPTY_DATA, 0);
    check_iso(Crc64ISO::new_lookup(), SMALL_DATA_1, 0xB90956C775A41001);
    check_iso(Crc64ISO::new_lookup(), SMALL_DATA_2, 0xB9CF3F572AD35C3E);
}

#[test]
fn test_carry_less_mul() {
    assert_eq!(
        CustomCrc64::carry_less_mul(0x5a2d_8244_0f1e_3e50, 0xcae9_00d5_fed9_262f),
        0x39ca_c5ca_fc66_6bf3_25bc_9dd4_c0f3_6330,
    )
}
