//! The byte/bit codec round trips, on random and on chosen inputs.

use ml_kem_rs::byte_fns::{bits_to_bytes, byte_decode, byte_encode, bytes_to_bits};
use ml_kem_rs::MlKemError;
use rand::{Rng, SeedableRng};

#[test]
fn byte_fns_test_bytes_and_bits() {
    let mut rng = rand_chacha::ChaCha8Rng::seed_from_u64(123);

    for _i in 0..100 {
        let num_bytes = rng.gen::<u8>();
        let bytes1: Vec<u8> = (0..num_bytes).map(|_| rng.gen()).collect();
        let bits = bytes_to_bits(&bytes1);
        assert_eq!(bits.len(), num_bytes as usize * 8);
        let bytes2 = bits_to_bytes(&bits).unwrap();
        assert_eq!(bytes1, bytes2);
    }
}

#[test]
fn byte_fns_test_decode_and_encode() {
    let mut rng = rand_chacha::ChaCha8Rng::seed_from_u64(123);
    for _i in 0..100 {
        let num_bytes = 32 * 11;
        let bytes1: Vec<u8> = (0..num_bytes).map(|_| rng.gen()).collect();
        let integer_array = byte_decode(11, &bytes1).unwrap();
        let bytes2 = byte_encode(11, &integer_array).unwrap();
        assert_eq!(bytes1, bytes2);

        let num_bytes = 32 * 10;
        let bytes1: Vec<u8> = (0..num_bytes).map(|_| rng.gen()).collect();
        let integer_array = byte_decode(10, &bytes1).unwrap();
        let bytes2 = byte_encode(10, &integer_array).unwrap();
        assert_eq!(bytes1, bytes2);

        let num_bytes = 32 * 5;
        let bytes1: Vec<u8> = (0..num_bytes).map(|_| rng.gen()).collect();
        let integer_array = byte_decode(5, &bytes1).unwrap();
        let bytes2 = byte_encode(5, &integer_array).unwrap();
        assert_eq!(bytes1, bytes2);

        let num_bytes = 32 * 4;
        let bytes1: Vec<u8> = (0..num_bytes).map(|_| rng.gen()).collect();
        let integer_array = byte_decode(4, &bytes1).unwrap();
        let bytes2 = byte_encode(4, &integer_array).unwrap();
        assert_eq!(bytes1, bytes2);
    }
}

#[test]
fn old_lib_test_bytes_and_bits() {
    let mut rng = rand_chacha::ChaCha8Rng::seed_from_u64(123);

    for _i in 0..100 {
        let num_bytes = rng.gen::<u8>();
        let bytes1: Vec<u8> = (0..num_bytes).map(|_| rng.gen()).collect();
        let bits = bytes_to_bits(&bytes1);
        let bytes2 = bits_to_bytes(&bits).unwrap();
        assert_eq!(bytes1, bytes2);
    }
}

#[test]
fn old_lib_test_decode_and_encode() {
    let mut rng = rand_chacha::ChaCha8Rng::seed_from_u64(123);

    for _i in 0..100 {
        for d in [11usize, 10, 5, 4] {
            let num_bytes = 32 * d;
            let bytes1: Vec<u8> = (0..num_bytes).map(|_| rng.gen()).collect();
            let integer_array = byte_decode(d, &bytes1).unwrap();
            let bytes2 = byte_encode(d, &integer_array).unwrap();
            assert_eq!(bytes1, bytes2);
        }
    }
}

#[test]
fn test_round_trip_d12_reduced_values() {
    // for d = 12 the round trip holds whenever every packed value is
    // below q, so draw the values reduced
    let mut rng = rand_chacha::ChaCha8Rng::seed_from_u64(7);
    for _ in 0..20 {
        let vals: Vec<u16> = (0..256).map(|_| rng.gen::<u16>() % 3329).collect();
        let bytes = byte_encode(12, &vals).unwrap();
        assert_eq!(bytes.len(), 384);
        let back = byte_decode(12, &bytes).unwrap();
        assert_eq!(vals, back);
    }
}

#[test]
fn test_decode_is_pure_bit_unpacking_for_d12() {
    // 0xFF bytes unpack to 4095: no reduction modulo q happens on decode
    let bytes = vec![0xFFu8; 384];
    let vals = byte_decode(12, &bytes).unwrap();
    assert!(vals.iter().all(|&v| v == 4095));
    // re-encoding reduces 4095 modulo q, so the round trip breaks here
    let again = byte_encode(12, &vals).unwrap();
    assert_ne!(again, bytes);
}

#[test]
fn test_bits_to_bytes_exact() {
    // bits 1,1,0,1,0,0,0,0 (lsb first) form the byte 0x0B
    let bits = vec![1u8, 1, 0, 1, 0, 0, 0, 0];
    assert_eq!(bits_to_bytes(&bits).unwrap(), vec![0x0Bu8]);
    assert_eq!(bytes_to_bits(&vec![0x0Bu8]), bits);
}

#[test]
fn test_bits_to_bytes_length_error() {
    let bits = vec![1u8, 0, 1];
    assert_eq!(bits_to_bytes(&bits).unwrap_err(), MlKemError::LengthMismatch);
}

#[test]
fn test_codec_shape_errors() {
    let b = vec![0u8; 32];
    assert_eq!(byte_decode(0, &b).unwrap_err(), MlKemError::LengthMismatch);
    assert_eq!(byte_decode(13, &b).unwrap_err(), MlKemError::LengthMismatch);
    assert_eq!(byte_decode(2, &b).unwrap_err(), MlKemError::LengthMismatch);
    let f = vec![0u16; 255];
    assert_eq!(byte_encode(1, &f).unwrap_err(), MlKemError::LengthMismatch);
}
